//! The reconnect delay sequence: 1 s, doubling, capped at 30 s.
use vstd::prelude::*;

verus! {

/// `2` to the power `n`.
pub open spec fn pow2(n: nat) -> nat
    decreases n,
{
    if n == 0 {
        1
    } else {
        2 * pow2((n - 1) as nat)
    }
}

/// The delay, in milliseconds, before retry number `attempt` (counted from
/// zero): `base` doubled once per earlier attempt, at most five times, and
/// never more than `cap`.
pub open spec fn delay_ms(base: nat, cap: nat, attempt: nat) -> nat {
    let doubled = base * pow2(if attempt < 5 {
        attempt
    } else {
        5
    });
    if doubled < cap {
        doubled
    } else {
        cap
    }
}

/// Exponential backoff over reconnect attempts, in milliseconds.
#[derive(Debug)]
pub struct Backoff {
    base_ms: u64,
    cap_ms: u64,
    attempt: u32,
}

impl Backoff {
    /// The first delay, in milliseconds.
    pub closed spec fn base(self) -> nat {
        self.base_ms as nat
    }

    /// The largest delay, in milliseconds.
    pub closed spec fn cap(self) -> nat {
        self.cap_ms as nat
    }

    /// How many delays have been handed out since the last reset.
    pub closed spec fn attempts(self) -> nat {
        self.attempt as nat
    }

    #[verifier::type_invariant]
    closed spec fn inv(self) -> bool {
        self.base_ms * 32 <= u64::MAX
    }

    /// The delay that the next call of `next_delay` hands out.
    pub open spec fn upcoming(self) -> nat {
        delay_ms(self.base(), self.cap(), self.attempts())
    }

    /// Hands out the next delay and counts the attempt (the count saturates).
    pub fn next_delay(&mut self) -> (ms: u64)
        ensures
            ms == old(self).upcoming(),
            final(self).base() == old(self).base(),
            final(self).cap() == old(self).cap(),
            final(self).attempts() == if old(self).attempts() < u32::MAX {
                old(self).attempts() + 1
            } else {
                old(self).attempts()
            },
    {
        proof {
            use_type_invariant(&*self);
        }
        let factor: u64 = match self.attempt {
            0 => 1,
            1 => 2,
            2 => 4,
            3 => 8,
            4 => 16,
            _ => 32,
        };
        proof {
            reveal_with_fuel(pow2, 6);
        }
        assert(factor == pow2(
            if self.attempt < 5 {
                self.attempt as nat
            } else {
                5
            },
        ));
        assert(self.base_ms * factor <= self.base_ms * 32) by (nonlinear_arith)
            requires
                factor <= 32,
        ;
        let doubled = self.base_ms * factor;
        self.attempt = if self.attempt < u32::MAX {
            self.attempt + 1
        } else {
            u32::MAX
        };
        if doubled < self.cap_ms {
            doubled
        } else {
            self.cap_ms
        }
    }

    /// Starts the sequence over.
    pub fn reset(&mut self)
        ensures
            final(self).base() == old(self).base(),
            final(self).cap() == old(self).cap(),
            final(self).attempts() == 0,
    {
        proof {
            use_type_invariant(&*self);
        }
        self.attempt = 0;
    }
}

impl Default for Backoff {
    fn default() -> (b: Self)
        ensures
            b.base() == 1000,
            b.cap() == 30000,
            b.attempts() == 0,
    {
        Backoff { base_ms: 1000, cap_ms: 30000, attempt: 0 }
    }
}

/// The delays of a fresh backoff: 1000, 2000, 4000, 8000, 16000 ms, and
/// 30000 ms from the sixth attempt on.
pub proof fn default_sequence(attempt: nat)
    ensures
        delay_ms(1000, 30000, attempt) == if attempt < 5 {
            1000 * pow2(attempt)
        } else {
            30000
        },
        attempt < 5 ==> delay_ms(1000, 30000, attempt) < 30000,
{
    reveal_with_fuel(pow2, 6);
    if attempt < 5 {
        assert(attempt == 0 || attempt == 1 || attempt == 2 || attempt == 3 || attempt == 4);
    }
}

/// Delays never exceed the cap, and never shrink from one attempt to the next.
pub proof fn delays_grow_up_to_the_cap(base: nat, cap: nat, attempt: nat)
    ensures
        delay_ms(base, cap, attempt) <= cap,
        delay_ms(base, cap, attempt) <= delay_ms(base, cap, attempt + 1),
{
    reveal_with_fuel(pow2, 6);
    let a = if attempt < 5 {
        attempt
    } else {
        5
    };
    let b = if attempt + 1 < 5 {
        attempt + 1
    } else {
        5
    };
    assert(pow2(a) <= pow2(b)) by {
        if a < b {
            assert(pow2(b) == 2 * pow2(a));
        }
    }
    assert(base * pow2(a) <= base * pow2(b)) by (nonlinear_arith)
        requires
            pow2(a) <= pow2(b),
    ;
}

} // verus!
