//! Retry decisions and the control frames that travel on a session's input channel.
use vstd::prelude::*;

use crate::backoff::Backoff;
use crate::exit::{is_retryable, retryable, SshOutcome};

verus! {

// ---------------------------------------------------------------------------
// Control frames
// ---------------------------------------------------------------------------

/// The bytes of the frame `__close`, which asks a session to close.
pub open spec fn close_bytes() -> Seq<u8> {
    seq![95u8, 95u8, 99u8, 108u8, 111u8, 115u8, 101u8]
}

/// The close frame, `__close`.
pub fn close_frame() -> (v: Vec<u8>)
    ensures
        v@ == close_bytes(),
{
    let v: Vec<u8> = vec![95u8, 95u8, 99u8, 108u8, 111u8, 115u8, 101u8];
    assert(v@ =~= close_bytes());
    v
}

/// The bytes of tmux prefix key C-b (0x02), `:refresh-client` and Enter (`\r`).
pub open spec fn tmux_refresh_bytes() -> Seq<u8> {
    seq![
        2u8, 58u8, 114u8, 101u8, 102u8, 114u8, 101u8, 115u8, 104u8, 45u8, 99u8, 108u8, 105u8,
        101u8, 110u8, 116u8, 13u8,
    ]
}

/// C-b `:refresh-client` Enter. Written to the PTY after a resize, it makes
/// tmux redraw the whole screen instead of only the cells it believes
/// changed; the outer tmux client consumes the keys, the agent never sees them.
pub fn tmux_refresh() -> (v: Vec<u8>)
    ensures
        v@ == tmux_refresh_bytes(),
{
    let v: Vec<u8> = vec![
        2u8, 58u8, 114u8, 101u8, 102u8, 114u8, 101u8, 115u8, 104u8, 45u8, 99u8, 108u8, 105u8,
        101u8, 110u8, 116u8, 13u8,
    ];
    assert(v@ =~= tmux_refresh_bytes());
    v
}

/// The bytes of `__resize:`.
pub open spec fn resize_prefix() -> Seq<u8> {
    seq![95u8, 95u8, 114u8, 101u8, 115u8, 105u8, 122u8, 101u8, 58u8]
}

/// `'x'`, between the columns and the rows of a resize frame.
pub open spec fn by_byte() -> u8 {
    120u8
}

/// Whether `b` is an ASCII digit.
pub open spec fn is_digit(b: u8) -> bool {
    48 <= b <= 57
}

/// The number that the decimal digits `s` spell.
pub open spec fn digits_value(s: Seq<u8>) -> nat
    decreases s.len(),
{
    if s.len() == 0 {
        0
    } else {
        digits_value(s.drop_last()) * 10 + (s.last() - 48) as nat
    }
}

/// `str::parse::<u16>` on the text `s`: an optional `+`, then at least one
/// ASCII digit and nothing else, with a value that fits in 16 bits.
pub open spec fn parse_u16(s: Seq<u8>) -> Option<u16> {
    let d = unsigned_digits(s);
    if d.len() > 0 && all_digits(d) && digits_value(d) <= 65535 {
        Some(digits_value(d) as u16)
    } else {
        None
    }
}

/// `s` without one leading `+`.
pub open spec fn unsigned_digits(s: Seq<u8>) -> Seq<u8> {
    if s.len() > 0 && s[0] == 43u8 {
        s.drop_first()
    } else {
        s
    }
}

/// Every byte of `d` is an ASCII digit.
pub open spec fn all_digits(d: Seq<u8>) -> bool {
    forall|i: int| 0 <= i < d.len() ==> is_digit(#[trigger] d[i])
}

/// Index of the first `b` in `s`, or `s.len()`.
pub open spec fn find_byte(s: Seq<u8>, b: u8) -> int
    decreases s.len(),
{
    if s.len() == 0 {
        0
    } else if s[0] == b {
        0
    } else {
        1 + find_byte(s.drop_first(), b)
    }
}

/// The size that a resize frame `__resize:<cols>x<rows>` carries. The text is
/// split at its first `x`, and both sides must parse as `u16`.
pub open spec fn resize_of(frame: Seq<u8>) -> Option<(u16, u16)> {
    let n = resize_prefix().len();
    if frame.len() < n || frame.subrange(0, n as int) != resize_prefix() {
        None
    } else {
        let dims = frame.subrange(n as int, frame.len() as int);
        let i = find_byte(dims, by_byte());
        if i >= dims.len() {
            None
        } else {
            match (
                parse_u16(dims.subrange(0, i)),
                parse_u16(dims.subrange(i + 1, dims.len() as int)),
            ) {
                (Some(cols), Some(rows)) => Some((cols, rows)),
                _ => None,
            }
        }
    }
}

proof fn lemma_find_byte(s: Seq<u8>, b: u8, i: int)
    requires
        0 <= i <= s.len(),
        i < s.len() ==> s[i] == b,
        forall|k: int| 0 <= k < i ==> s[k] != b,
    ensures
        find_byte(s, b) == i,
    decreases s.len(),
{
    if s.len() > 0 && s[0] != b {
        assert forall|k: int| 0 <= k < i - 1 implies s.drop_first()[k] != b by {
            assert(s.drop_first()[k] == s[k + 1]);
        }
        lemma_find_byte(s.drop_first(), b, i - 1);
    }
}

/// `str::parse::<u16>` on the bytes `s[start..end]`.
fn parse_u16_exec(s: &[u8], start: usize, end: usize) -> (r: Option<u16>)
    requires
        start <= end <= s@.len(),
    ensures
        r == parse_u16(s@.subrange(start as int, end as int)),
{
    let ghost t = s@.subrange(start as int, end as int);
    let mut i = start;
    if i < end && s[i] == 43u8 {
        i = i + 1;
    }
    let ghost d = s@.subrange(i as int, end as int);
    assert(d =~= unsigned_digits(t));
    if i == end {
        return None;
    }
    let first = i;
    let mut acc: u32 = 0;
    while i < end
        invariant
            start <= first <= i <= end <= s@.len(),
            d == s@.subrange(first as int, end as int),
            t == s@.subrange(start as int, end as int),
            d == unsigned_digits(t),
            forall|k: int| first <= k < i ==> is_digit(s@[k]),
            acc == if digits_value(s@.subrange(first as int, i as int)) < 65536 {
                digits_value(s@.subrange(first as int, i as int))
            } else {
                65536
            },
        decreases end - i,
    {
        let b = s[i];
        if !(48u8 <= b && b <= 57u8) {
            assert(d[i - first] == b);
            assert(!is_digit(d[i - first]));
            assert(!all_digits(d));
            return None;
        }
        let ghost p = s@.subrange(first as int, i as int);
        let ghost q = s@.subrange(first as int, i + 1);
        assert(q.drop_last() =~= p);
        let dv: u32 = (b - 48u8) as u32;
        acc = if acc >= 65536 {
            65536
        } else {
            let v = acc * 10 + dv;
            if v > 65536 {
                65536
            } else {
                v
            }
        };
        i = i + 1;
    }
    assert(s@.subrange(first as int, i as int) =~= d);
    assert forall|k: int| 0 <= k < d.len() implies is_digit(#[trigger] d[k]) by {
        assert(d[k] == s@[first + k]);
    }
    if acc <= 65535 {
        Some(acc as u16)
    } else {
        None
    }
}

/// The size carried by a resize frame `__resize:<cols>x<rows>`, or `None` for
/// any other frame.
pub fn parse_resize_frame(frame: &[u8]) -> (r: Option<(u16, u16)>)
    ensures
        r == resize_of(frame@),
{
    let n: usize = 9;
    let prefix: Vec<u8> = vec![95u8, 95u8, 114u8, 101u8, 115u8, 105u8, 122u8, 101u8, 58u8];
    assert(prefix@ =~= resize_prefix());
    if frame.len() < n {
        return None;
    }
    let mut k: usize = 0;
    while k < n
        invariant
            k <= n == 9 <= frame@.len(),
            prefix@ == resize_prefix(),
            forall|m: int| 0 <= m < k ==> frame@[m] == prefix@[m],
        decreases n - k,
    {
        if frame[k] != prefix[k] {
            assert(frame@.subrange(0, 9)[k as int] != resize_prefix()[k as int]);
            return None;
        }
        k = k + 1;
    }
    assert(frame@.subrange(0, 9) =~= resize_prefix());
    let ghost dims = frame@.subrange(9, frame@.len() as int);
    let mut i = n;
    while i < frame.len() && frame[i] != 120u8
        invariant
            n <= i <= frame@.len(),
            forall|m: int| n <= m < i ==> frame@[m] != 120u8,
        decreases frame@.len() - i,
    {
        i = i + 1;
    }
    proof {
        lemma_find_byte(dims, 120u8, i - 9);
    }
    if i >= frame.len() {
        return None;
    }
    assert(dims.subrange(0, i - 9) =~= frame@.subrange(9, i as int));
    assert(dims.subrange(i - 9 + 1, dims.len() as int) =~= frame@.subrange(
        i + 1,
        frame@.len() as int,
    ));
    let cols = parse_u16_exec(frame, n, i);
    let rows = parse_u16_exec(frame, i + 1, frame.len());
    match (cols, rows) {
        (Some(c), Some(r)) => Some((c, r)),
        _ => None,
    }
}

/// Decimal digits of `n` as ASCII bytes, most significant first.
pub open spec fn digit_bytes(n: nat) -> Seq<u8>
    decreases n,
{
    if n < 10 {
        seq![(n + 48) as u8]
    } else {
        digit_bytes(n / 10).push((n % 10 + 48) as u8)
    }
}

/// The bytes of the resize frame `__resize:<cols>x<rows>`.
pub open spec fn resize_bytes(cols: u16, rows: u16) -> Seq<u8> {
    resize_prefix() + digit_bytes(cols as nat) + seq![by_byte()] + digit_bytes(rows as nat)
}

fn push_digits(v: &mut Vec<u8>, n: u64)
    ensures
        final(v)@ == old(v)@ + digit_bytes(n as nat),
    decreases n,
{
    if n < 10 {
        v.push((n as u8) + 48u8);
        assert(final(v)@ =~= old(v)@ + digit_bytes(n as nat));
    } else {
        push_digits(v, n / 10);
        v.push(((n % 10) as u8) + 48u8);
        assert(final(v)@ =~= old(v)@ + digit_bytes(n as nat));
    }
}

/// The frame that asks a session to resize its terminal to `cols` x `rows`.
pub fn resize_frame(cols: u16, rows: u16) -> (v: Vec<u8>)
    ensures
        v@ == resize_bytes(cols, rows),
{
    let mut v: Vec<u8> = vec![95u8, 95u8, 114u8, 101u8, 115u8, 105u8, 122u8, 101u8, 58u8];
    assert(v@ =~= resize_prefix());
    push_digits(&mut v, cols as u64);
    v.push(120u8);
    push_digits(&mut v, rows as u64);
    assert(v@ =~= resize_bytes(cols, rows));
    v
}

proof fn lemma_digit_bytes(n: nat)
    ensures
        digit_bytes(n).len() > 0,
        all_digits(digit_bytes(n)),
        digits_value(digit_bytes(n)) == n,
        digit_bytes(n)[0] != 43u8,
    decreases n,
{
    if n < 10 {
        let d = digit_bytes(n);
        assert(d.drop_last() =~= Seq::<u8>::empty());
        assert(digits_value(d.drop_last()) == 0);
    } else {
        lemma_digit_bytes(n / 10);
        let d = digit_bytes(n);
        assert(d.drop_last() =~= digit_bytes(n / 10));
        assert(d.last() == (n % 10 + 48) as u8);
        assert((n / 10) * 10 + n % 10 == n) by (nonlinear_arith);
        assert forall|i: int| 0 <= i < d.len() implies is_digit(#[trigger] d[i]) by {
            if i < d.len() - 1 {
                assert(d[i] == digit_bytes(n / 10)[i]);
            }
        }
    }
}

proof fn lemma_no_by_byte(d: Seq<u8>)
    requires
        all_digits(d),
    ensures
        find_byte(d, by_byte()) == d.len(),
    decreases d.len(),
{
    if d.len() > 0 {
        assert(is_digit(d[0]));
        assert forall|i: int| 0 <= i < d.drop_first().len() implies is_digit(
            #[trigger] d.drop_first()[i],
        ) by {
            assert(d.drop_first()[i] == d[i + 1]);
        }
        lemma_no_by_byte(d.drop_first());
    }
}

/// A resize frame carries exactly the size it was made for.
pub proof fn resize_frame_round_trip(cols: u16, rows: u16)
    ensures
        resize_of(resize_bytes(cols, rows)) == Some((cols, rows)),
{
    let f = resize_bytes(cols, rows);
    let c = digit_bytes(cols as nat);
    let r = digit_bytes(rows as nat);
    lemma_digit_bytes(cols as nat);
    lemma_digit_bytes(rows as nat);
    assert(f.subrange(0, 9) =~= resize_prefix());
    let dims = f.subrange(9, f.len() as int);
    assert(dims =~= c + seq![by_byte()] + r);
    lemma_no_by_byte(c);
    assert forall|k: int| 0 <= k < c.len() implies dims[k] != by_byte() by {
        assert(dims[k] == c[k]);
        assert(is_digit(c[k]));
    }
    lemma_find_byte(dims, by_byte(), c.len() as int);
    assert(dims.subrange(0, c.len() as int) =~= c);
    assert(dims.subrange(c.len() as int + 1, dims.len() as int) =~= r);
    assert(unsigned_digits(c) == c);
    assert(unsigned_digits(r) == r);
}

/// A frame received while no terminal is attached: the close frame asks the
/// caller to close (`true`); a resize frame updates `dims`; anything else
/// (keystrokes typed while disconnected) is dropped.
pub fn absorb_idle_frame(frame: &[u8], dims: &mut (u16, u16)) -> (close: bool)
    ensures
        close == (frame@ == close_bytes()),
        *final(dims) == if !close && resize_of(frame@) is Some {
            resize_of(frame@)->0
        } else {
            *old(dims)
        },
{
    let cf = close_frame();
    if crate::text::bytes_eq(frame, &cf) {
        return true;
    }
    if let Some(size) = parse_resize_frame(frame) {
        *dims = size;
    }
    false
}

/// The text of a list of frames.
pub open spec fn frame_views(frames: Seq<Vec<u8>>) -> Seq<Seq<u8>> {
    frames.map_values(|f: Vec<u8>| f@)
}

/// Taking in `frames` in order while no terminal is attached, starting from
/// size `dims` (see `absorb_idle_frame`): whether one of them is the close
/// frame, and the size after the frames before it (later ones are left).
pub open spec fn absorb_frames(frames: Seq<Seq<u8>>, dims: (u16, u16)) -> (bool, (u16, u16))
    decreases frames.len(),
{
    if frames.len() == 0 {
        (false, dims)
    } else {
        let (c, d) = absorb_frames(frames.drop_last(), dims);
        if c {
            (true, d)
        } else if frames.last() == close_bytes() {
            (true, d)
        } else {
            match resize_of(frames.last()) {
                Some(size) => (false, size),
                None => (false, d),
            }
        }
    }
}

proof fn lemma_absorb_frames_closed(frames: Seq<Seq<u8>>, dims: (u16, u16), k: int)
    requires
        0 <= k <= frames.len(),
        absorb_frames(frames.subrange(0, k), dims).0,
    ensures
        absorb_frames(frames, dims) == absorb_frames(frames.subrange(0, k), dims),
    decreases frames.len(),
{
    if k < frames.len() {
        let d = frames.drop_last();
        assert(d.subrange(0, k) =~= frames.subrange(0, k));
        lemma_absorb_frames_closed(d, dims, k);
    } else {
        assert(frames.subrange(0, k) =~= frames);
    }
}

/// Takes in the frames already queued on a session's input channel, in
/// order, while no terminal is attached (a probe can block for seconds, and
/// the user may have closed meanwhile): `true` when the session must close
/// now, because one of them is the close frame or the channel is closed
/// (`disconnected`, after the queued frames). Resize frames before a close
/// update `dims`; keystrokes are dropped.
pub fn drain_pending(frames: &[Vec<u8>], disconnected: bool, dims: &mut (u16, u16)) -> (close: bool)
    ensures
        close == (absorb_frames(frame_views(frames@), *old(dims)).0 || disconnected),
        *final(dims) == absorb_frames(frame_views(frames@), *old(dims)).1,
{
    let ghost fv = frame_views(frames@);
    let ghost d0 = *dims;
    let mut i: usize = 0;
    assert(fv.subrange(0, 0) =~= Seq::<Seq<u8>>::empty());
    while i < frames.len()
        invariant
            i <= frames@.len() == fv.len(),
            fv == frame_views(frames@),
            d0 == *old(dims),
            absorb_frames(fv.subrange(0, i as int), d0) == (false, *dims),
        decreases frames@.len() - i,
    {
        let ghost sub = fv.subrange(0, i + 1);
        assert(sub.drop_last() =~= fv.subrange(0, i as int));
        assert(sub.last() == frames@[i as int]@);
        if absorb_idle_frame(frames[i].as_slice(), dims) {
            proof {
                lemma_absorb_frames_closed(fv, d0, i + 1);
            }
            return true;
        }
        i = i + 1;
    }
    assert(fv.subrange(0, i as int) =~= fv);
    disconnected
}

/// The frames of timed arrivals: each frame with the time, in milliseconds
/// from the start of the wait, at which it arrived.
pub open spec fn arrival_views(a: Seq<(u64, Vec<u8>)>) -> Seq<(u64, Seq<u8>)> {
    a.map_values(|x: (u64, Vec<u8>)| (x.0, x.1@))
}

/// The outcome of waiting `delay_ms` before the next probe, when the frames
/// `arr` arrive on the input channel in this order and at these times, and
/// the channel ends at `disconnect_at` (after its last frame), if ever:
/// frames that arrive before the delay is over are taken in order (see
/// `absorb_idle_frame`); the close frame ends the wait at once with `true`
/// (later frames stay queued), as does the end of the channel; otherwise the
/// wait ends with `false` when the delay is over. Also gives the size after
/// the frames taken.
pub open spec fn wait_outcome(
    arr: Seq<(u64, Seq<u8>)>,
    disconnect_at: Option<u64>,
    delay_ms: u64,
    dims: (u16, u16),
) -> (bool, (u16, u16))
    decreases arr.len(),
{
    if arr.len() == 0 {
        (disconnect_at matches Some(t) && t < delay_ms, dims)
    } else if arr[0].0 >= delay_ms {
        (false, dims)
    } else if arr[0].1 == close_bytes() {
        (true, dims)
    } else {
        wait_outcome(
            arr.drop_first(),
            disconnect_at,
            delay_ms,
            match resize_of(arr[0].1) {
                Some(size) => size,
                None => dims,
            },
        )
    }
}

/// The wait before a session probes again, decided for the frames that
/// arrive (with their times) and the end of the channel (see
/// `wait_outcome`): `true` when the session must close. A live wait takes
/// its slices from `wait_slice` and hands each frame to `absorb_idle_frame`,
/// which decide as this function does.
pub fn wait_for_close(
    arrivals: &[(u64, Vec<u8>)],
    disconnect_at: Option<u64>,
    delay_ms: u64,
    dims: &mut (u16, u16),
) -> (close: bool)
    ensures
        (close, *final(dims)) == wait_outcome(
            arrival_views(arrivals@),
            disconnect_at,
            delay_ms,
            *old(dims),
        ),
{
    let ghost av = arrival_views(arrivals@);
    let n = arrivals.len();
    let mut i: usize = 0;
    assert(av.subrange(0, n as int) =~= av);
    while i < n
        invariant
            i <= n == arrivals@.len() == av.len(),
            av == arrival_views(arrivals@),
            wait_outcome(av, disconnect_at, delay_ms, *old(dims)) == wait_outcome(
                av.subrange(i as int, n as int),
                disconnect_at,
                delay_ms,
                *dims,
            ),
        decreases n - i,
    {
        let ghost t = av.subrange(i as int, n as int);
        assert(t[0] == av[i as int]);
        assert(t.drop_first() =~= av.subrange(i + 1, n as int));
        let at = arrivals[i].0;
        if at >= delay_ms {
            return false;
        }
        if absorb_idle_frame(arrivals[i].1.as_slice(), dims) {
            return true;
        }
        i = i + 1;
    }
    assert(av.subrange(n as int, n as int) =~= Seq::<(u64, Seq<u8>)>::empty());
    match disconnect_at {
        Some(t) => t < delay_ms,
        None => false,
    }
}

/// The next slice of a wait that has `remaining_ms` left: none once the
/// delay is over (the wait then ends without a close), else at most 100 ms,
/// so that a close request is seen within 100 ms.
pub fn wait_slice(remaining_ms: u64) -> (r: Option<u64>)
    ensures
        remaining_ms == 0 ==> r is None,
        remaining_ms > 0 ==> r == Some(
            if remaining_ms < 100 {
                remaining_ms
            } else {
                100u64
            },
        ),
{
    if remaining_ms == 0 {
        None
    } else if remaining_ms < 100 {
        Some(remaining_ms)
    } else {
        Some(100)
    }
}

// ---------------------------------------------------------------------------
// Retry decisions
// ---------------------------------------------------------------------------

/// What to do after a failed connection attempt.
#[derive(Debug, PartialEq, Eq)]
pub enum RetryDecision {
    /// Try again after this many milliseconds.
    Retry(u64),
    GiveUp,
}

/// Retries a network failure after the next backoff delay; gives up on any
/// other failure and starts the backoff over.
pub fn decide(outcome: SshOutcome, backoff: &mut Backoff) -> (d: RetryDecision)
    ensures
        final(backoff).base() == old(backoff).base(),
        final(backoff).cap() == old(backoff).cap(),
        retryable(outcome) ==> d == RetryDecision::Retry(old(backoff).upcoming() as u64)
            && final(backoff).attempts() == if old(backoff).attempts() < u32::MAX {
            old(backoff).attempts() + 1
        } else {
            old(backoff).attempts()
        },
        !retryable(outcome) ==> d == RetryDecision::GiveUp && final(backoff).attempts() == 0,
{
    if is_retryable(outcome) {
        RetryDecision::Retry(backoff.next_delay())
    } else {
        backoff.reset();
        RetryDecision::GiveUp
    }
}

/// How long a connection must have stayed up, in milliseconds, before an
/// exit with code 255 counts as a network drop.
pub open spec fn min_uptime_ms() -> nat {
    60000
}

/// Classifies an unexpected exit of the session's ssh, whose error output is
/// mixed into the terminal stream: exit code 255 after at least a minute
/// online is a network drop; anything else (most likely a failed login when
/// it dies at once) is unknown.
pub fn classify_unexpected_exit(exit_code: Option<i32>, connected_for_ms: u64) -> (o: SshOutcome)
    ensures
        o == if exit_code == Some(255i32) && connected_for_ms >= min_uptime_ms() {
            SshOutcome::Network
        } else {
            SshOutcome::Unknown
        },
{
    match exit_code {
        Some(255) if connected_for_ms >= 60000 => SshOutcome::Network,
        _ => SshOutcome::Unknown,
    }
}

} // verus!
