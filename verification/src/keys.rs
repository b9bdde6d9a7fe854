//! Input policy for keystrokes forwarded to the remote agent.
use vstd::prelude::*;

use crate::text::{chars_of, string_of};

verus! {

/// Control characters that agents treat as "quit": Ctrl+C (ETX), Ctrl+D
/// (EOT), Ctrl+Z (SUB) and Ctrl+\ (FS). Forwarding one would let a stray
/// keypress kill the agent together with its tmux session.
pub open spec fn is_quit_key(c: char) -> bool {
    c == '\u{3}' || c == '\u{4}' || c == '\u{1a}' || c == '\u{1c}'
}

/// `s` without its quit control characters, everything else in order.
pub open spec fn without_quit_keys(s: Seq<char>) -> Seq<char>
    decreases s.len(),
{
    if s.len() == 0 {
        seq![]
    } else {
        without_quit_keys(s.drop_last()) + if is_quit_key(s.last()) {
            seq![]
        } else {
            seq![s.last()]
        }
    }
}

/// Drops the quit control characters and keeps everything else (text,
/// pastes, arrow keys and other escape sequences).
pub fn strip_quit_keys(data: &str) -> (r: String)
    ensures
        r@ == without_quit_keys(data@),
{
    let s = chars_of(data);
    let mut out: Vec<char> = Vec::new();
    let mut i: usize = 0;
    while i < s.len()
        invariant
            i <= s@.len(),
            s@ == data@,
            out@ == without_quit_keys(s@.subrange(0, i as int)),
        decreases s@.len() - i,
    {
        let c = s[i];
        let ghost before = out@;
        if !(c == '\u{3}' || c == '\u{4}' || c == '\u{1a}' || c == '\u{1c}') {
            out.push(c);
        }
        i = i + 1;
        assert(s@.subrange(0, i as int).drop_last() =~= s@.subrange(0, i - 1));
        assert(out@ =~= without_quit_keys(s@.subrange(0, i as int)));
    }
    assert(s@.subrange(0, s@.len() as int) =~= s@);
    string_of(&out)
}

/// What is left after stripping contains no quit key.
pub proof fn stripped_input_has_no_quit_key(s: Seq<char>)
    ensures
        forall|i: int|
            0 <= i < without_quit_keys(s).len() ==> !is_quit_key(
                #[trigger] without_quit_keys(s)[i],
            ),
    decreases s.len(),
{
    if s.len() > 0 {
        stripped_input_has_no_quit_key(s.drop_last());
        let w = without_quit_keys(s.drop_last());
        assert forall|i: int| 0 <= i < without_quit_keys(s).len() implies !is_quit_key(
            #[trigger] without_quit_keys(s)[i],
        ) by {
            if i < w.len() {
                assert(without_quit_keys(s)[i] == w[i]);
            }
        }
    }
}

/// Input without quit keys passes through unchanged.
pub proof fn input_without_quit_keys_is_unchanged(s: Seq<char>)
    requires
        forall|i: int| 0 <= i < s.len() ==> !is_quit_key(#[trigger] s[i]),
    ensures
        without_quit_keys(s) == s,
    decreases s.len(),
{
    if s.len() > 0 {
        input_without_quit_keys_is_unchanged(s.drop_last());
        assert(s.drop_last() + seq![s.last()] =~= s);
    }
}

/// Input is filtered character by character: stripping two pieces of input
/// one after the other gives what stripping them together gives.
pub proof fn stripping_goes_character_by_character(a: Seq<char>, b: Seq<char>)
    ensures
        without_quit_keys(a + b) == without_quit_keys(a) + without_quit_keys(b),
    decreases b.len(),
{
    if b.len() == 0 {
        assert(a + b =~= a);
        assert(without_quit_keys(a) + without_quit_keys(b) =~= without_quit_keys(a));
    } else {
        stripping_goes_character_by_character(a, b.drop_last());
        assert((a + b).drop_last() =~= a + b.drop_last());
        assert((a + b).last() == b.last());
        assert(without_quit_keys(a + b) =~= without_quit_keys(a) + without_quit_keys(b));
    }
}

/// Exactly Ctrl+C (U+0003), Ctrl+D (U+0004), Ctrl+Z (U+001A) and Ctrl+\
/// (U+001C) are removed: one of them leaves nothing, and any other character
/// (Enter `\r` and Tab included) passes through as it is.
pub proof fn exactly_the_four_quit_keys_are_removed(c: char)
    ensures
        without_quit_keys(seq![c]) == if c == '\u{3}' || c == '\u{4}' || c == '\u{1a}' || c
            == '\u{1c}' {
            Seq::<char>::empty()
        } else {
            seq![c]
        },
{
    let s = seq![c];
    reveal_with_fuel(without_quit_keys, 2);
    assert(s.drop_last() =~= Seq::<char>::empty());
    assert(without_quit_keys(s.drop_last()) =~= Seq::<char>::empty());
    assert(s.last() == c);
    assert(Seq::<char>::empty() + seq![c] =~= seq![c]);
    assert(Seq::<char>::empty() + Seq::<char>::empty() =~= Seq::<char>::empty());
}

} // verus!
