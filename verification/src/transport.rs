//! Turning the terminal's byte stream into text without splitting characters.
use vstd::prelude::*;

use crate::text::{chars_of, string_of};

verus! {

/// How the bytes at the start of a UTF-8 stream begin.
#[derive(Debug, Clone, Copy, PartialEq, Eq, Structural)]
pub enum Utf8Step {
    /// A well-formed character of this many bytes.
    Valid(usize),
    /// The start of a well-formed character whose remaining bytes have not
    /// arrived yet.
    Incomplete,
    /// A malformed sequence of this many bytes (the longest start of a
    /// well-formed character, or one byte).
    Invalid(usize),
}

/// A UTF-8 continuation byte.
pub open spec fn is_cont(b: u8) -> bool {
    0x80 <= b <= 0xBF
}

/// The length of a character that starts with `b0`, or 0 for a byte that
/// never starts one.
pub open spec fn utf8_width(b0: u8) -> nat {
    if b0 <= 0x7F {
        1
    } else if 0xC2 <= b0 <= 0xDF {
        2
    } else if 0xE0 <= b0 <= 0xEF {
        3
    } else if 0xF0 <= b0 <= 0xF4 {
        4
    } else {
        0
    }
}

/// The second byte may follow `b0` (this rules out overlong forms,
/// surrogates and values above U+10FFFF).
pub open spec fn second_ok(b0: u8, b1: u8) -> bool {
    if b0 == 0xE0 {
        0xA0 <= b1 <= 0xBF
    } else if b0 == 0xED {
        0x80 <= b1 <= 0x9F
    } else if b0 == 0xF0 {
        0x90 <= b1 <= 0xBF
    } else if b0 == 0xF4 {
        0x80 <= b1 <= 0x8F
    } else {
        is_cont(b1)
    }
}

/// How the non-empty bytes `s` begin (the well-formed byte sequences of the
/// Unicode standard, table 3-7).
pub open spec fn first_step(s: Seq<u8>) -> Utf8Step {
    let w = utf8_width(s[0]);
    if w == 1 {
        Utf8Step::Valid(1)
    } else if w == 0 {
        Utf8Step::Invalid(1)
    } else if s.len() < 2 {
        Utf8Step::Incomplete
    } else if !second_ok(s[0], s[1]) {
        Utf8Step::Invalid(1)
    } else if w == 2 {
        Utf8Step::Valid(2)
    } else if s.len() < 3 {
        Utf8Step::Incomplete
    } else if !is_cont(s[2]) {
        Utf8Step::Invalid(2)
    } else if w == 3 {
        Utf8Step::Valid(3)
    } else if s.len() < 4 {
        Utf8Step::Incomplete
    } else if !is_cont(s[3]) {
        Utf8Step::Invalid(3)
    } else {
        Utf8Step::Valid(4)
    }
}

/// The code point that the well-formed `n`-byte character at the start of
/// `s` encodes.
pub open spec fn code_point(s: Seq<u8>, n: nat) -> u32 {
    if n == 1 {
        s[0] as u32
    } else if n == 2 {
        ((s[0] - 0xC0) * 64 + (s[1] - 0x80)) as u32
    } else if n == 3 {
        ((s[0] - 0xE0) * 4096 + (s[1] - 0x80) * 64 + (s[2] - 0x80)) as u32
    } else {
        ((s[0] - 0xF0) * 262144 + (s[1] - 0x80) * 4096 + (s[2] - 0x80) * 64 + (s[3]
            - 0x80)) as u32
    }
}

/// A Unicode scalar value: at most U+10FFFF and not a surrogate.
pub open spec fn is_scalar_value(v: u32) -> bool {
    v <= 0xD7FF || (0xE000 <= v <= 0x10FFFF)
}

/// U+FFFD REPLACEMENT CHARACTER.
pub open spec fn replacement() -> char {
    '\u{FFFD}'
}

/// Decodes `s` as far as it can: each well-formed character becomes that
/// character, each malformed sequence one U+FFFD; decoding stops at an
/// unfinished character at the end. Gives the text and the unfinished tail.
pub open spec fn decode_stream(s: Seq<u8>) -> (Seq<char>, Seq<u8>)
    decreases s.len(),
{
    if s.len() == 0 {
        (seq![], seq![])
    } else {
        match first_step(s) {
            Utf8Step::Valid(n) => {
                let rest = decode_stream(s.subrange(n as int, s.len() as int));
                (seq![code_point(s, n as nat) as char] + rest.0, rest.1)
            },
            Utf8Step::Invalid(n) => {
                let rest = decode_stream(s.subrange(n as int, s.len() as int));
                (seq![replacement()] + rest.0, rest.1)
            },
            Utf8Step::Incomplete => (seq![], s),
        }
    }
}

/// `char::from_u32`: the character with scalar value `v`, or `None` when `v`
/// is not a scalar value.
#[verifier::external_body]
fn char_from_u32(v: u32) -> (r: Option<char>)
    ensures
        r == if is_scalar_value(v) {
            Some(v as char)
        } else {
            None::<char>
        },
{
    char::from_u32(v)
}

proof fn lemma_first_step_len(s: Seq<u8>)
    requires
        s.len() > 0,
    ensures
        first_step(s) matches Utf8Step::Valid(n) ==> 1 <= n <= 4 && n <= s.len(),
        first_step(s) matches Utf8Step::Invalid(n) ==> 1 <= n <= 3 && n <= s.len(),
{
}

fn first_step_exec(s: &[u8], i: usize) -> (r: Utf8Step)
    requires
        i < s@.len(),
    ensures
        r == first_step(s@.subrange(i as int, s@.len() as int)),
{
    let ghost t = s@.subrange(i as int, s@.len() as int);
    let n = s.len() - i;
    assert(t[0] == s@[i as int]);
    let b0 = s[i];
    let w: usize = if b0 <= 0x7F {
        1
    } else if 0xC2 <= b0 && b0 <= 0xDF {
        2
    } else if 0xE0 <= b0 && b0 <= 0xEF {
        3
    } else if 0xF0 <= b0 && b0 <= 0xF4 {
        4
    } else {
        0
    };
    if w == 1 {
        return Utf8Step::Valid(1);
    }
    if w == 0 {
        return Utf8Step::Invalid(1);
    }
    if n < 2 {
        return Utf8Step::Incomplete;
    }
    assert(t[1] == s@[i + 1]);
    let b1 = s[i + 1];
    let ok1 = if b0 == 0xE0 {
        0xA0 <= b1 && b1 <= 0xBF
    } else if b0 == 0xED {
        0x80 <= b1 && b1 <= 0x9F
    } else if b0 == 0xF0 {
        0x90 <= b1 && b1 <= 0xBF
    } else if b0 == 0xF4 {
        0x80 <= b1 && b1 <= 0x8F
    } else {
        0x80 <= b1 && b1 <= 0xBF
    };
    if !ok1 {
        return Utf8Step::Invalid(1);
    }
    if w == 2 {
        return Utf8Step::Valid(2);
    }
    if n < 3 {
        return Utf8Step::Incomplete;
    }
    assert(t[2] == s@[i + 2]);
    let b2 = s[i + 2];
    if !(0x80 <= b2 && b2 <= 0xBF) {
        return Utf8Step::Invalid(2);
    }
    if w == 3 {
        return Utf8Step::Valid(3);
    }
    if n < 4 {
        return Utf8Step::Incomplete;
    }
    assert(t[3] == s@[i + 3]);
    let b3 = s[i + 3];
    if !(0x80 <= b3 && b3 <= 0xBF) {
        return Utf8Step::Invalid(3);
    }
    Utf8Step::Valid(4)
}

fn decode_char(s: &[u8], i: usize, n: usize) -> (c: char)
    requires
        i < s@.len(),
        first_step(s@.subrange(i as int, s@.len() as int)) == Utf8Step::Valid(n),
    ensures
        c == code_point(s@.subrange(i as int, s@.len() as int), n as nat) as char,
{
    let ghost t = s@.subrange(i as int, s@.len() as int);
    proof {
        lemma_first_step_len(t);
    }
    assert(t[0] == s@[i as int]);
    let b0 = s[i] as u32;
    let v: u32 = if n == 1 {
        b0
    } else if n == 2 {
        assert(t[1] == s@[i + 1]);
        (b0 - 0xC0) * 64 + (s[i + 1] as u32 - 0x80)
    } else if n == 3 {
        assert(t[1] == s@[i + 1]);
        assert(t[2] == s@[i + 2]);
        (b0 - 0xE0) * 4096 + (s[i + 1] as u32 - 0x80) * 64 + (s[i + 2] as u32 - 0x80)
    } else {
        assert(t[1] == s@[i + 1]);
        assert(t[2] == s@[i + 2]);
        assert(t[3] == s@[i + 3]);
        (b0 - 0xF0) * 262144 + (s[i + 1] as u32 - 0x80) * 4096 + (s[i + 2] as u32 - 0x80) * 64 + (
        s[i + 3] as u32 - 0x80)
    };
    assert(v == code_point(t, n as nat));
    assert(is_scalar_value(v));
    match char_from_u32(v) {
        Some(c) => c,
        None => '\u{FFFD}',
    }
}

proof fn lemma_decode_step(s: Seq<u8>, i: int, n: int)
    requires
        0 <= i < s.len(),
        1 <= n <= s.len() - i,
    ensures
        s.subrange(i, s.len() as int).subrange(n, s.len() - i) == s.subrange(i + n, s.len() as int),
{
    assert(s.subrange(i, s.len() as int).subrange(n, s.len() - i) =~= s.subrange(
        i + n,
        s.len() as int,
    ));
}

/// Appends `chunk` to `pending`, then takes out and returns the text of
/// `pending` as far as it is complete (see `decode_stream`): malformed
/// sequences come out at once as U+FFFD, so a bad byte never stalls the
/// stream, and only an unfinished character at the end stays in `pending`
/// for the next call.
pub fn complete_utf8_prefix(pending: &mut Vec<u8>, chunk: &[u8]) -> (r: String)
    ensures
        r@ == decode_stream(old(pending)@ + chunk@).0,
        final(pending)@ == decode_stream(old(pending)@ + chunk@).1,
{
    let ghost all = old(pending)@ + chunk@;
    let ghost p0 = pending@;
    let mut k: usize = 0;
    while k < chunk.len()
        invariant
            k <= chunk@.len(),
            p0 == old(pending)@,
            pending@ == p0 + chunk@.subrange(0, k as int),
        decreases chunk@.len() - k,
    {
        pending.push(chunk[k]);
        k = k + 1;
        assert(pending@ =~= p0 + chunk@.subrange(0, k as int));
    }
    assert(chunk@.subrange(0, chunk@.len() as int) =~= chunk@);
    let n = pending.len();
    let mut out: Vec<char> = Vec::new();
    let mut i: usize = 0;
    assert(all.subrange(0, n as int) =~= all);
    loop
        invariant
            i <= n == all.len(),
            pending@ == all,
            decode_stream(all) == (
                out@ + decode_stream(all.subrange(i as int, n as int)).0,
                decode_stream(all.subrange(i as int, n as int)).1,
            ),
        ensures
            i <= n == all.len(),
            pending@ == all,
            decode_stream(all) == (
                out@ + decode_stream(all.subrange(i as int, n as int)).0,
                decode_stream(all.subrange(i as int, n as int)).1,
            ),
            i == n || first_step(all.subrange(i as int, n as int)) == Utf8Step::Incomplete,
        decreases n - i,
    {
        if i == n {
            break;
        }
        let ghost t = all.subrange(i as int, n as int);
        proof {
            lemma_first_step_len(t);
        }
        match first_step_exec(pending, i) {
            Utf8Step::Valid(m) => {
                let c = decode_char(pending, i, m);
                let ghost before = out@;
                out.push(c);
                proof {
                    lemma_decode_step(all, i as int, m as int);
                }
                i = i + m;
                assert(out@ + decode_stream(all.subrange(i as int, n as int)).0 =~= before
                    + decode_stream(t).0);
            },
            Utf8Step::Invalid(m) => {
                let ghost before = out@;
                out.push('\u{FFFD}');
                proof {
                    lemma_decode_step(all, i as int, m as int);
                }
                i = i + m;
                assert(out@ + decode_stream(all.subrange(i as int, n as int)).0 =~= before
                    + decode_stream(t).0);
            },
            Utf8Step::Incomplete => {
                break;
            },
        }
    }
    let mut rest: Vec<u8> = Vec::new();
    let mut j = i;
    while j < n
        invariant
            i <= j <= n == all.len(),
            pending@ == all,
            rest@ == all.subrange(i as int, j as int),
        decreases n - j,
    {
        rest.push(pending[j]);
        j = j + 1;
        assert(rest@ =~= all.subrange(i as int, j as int));
    }
    proof {
        if i == n {
            assert(all.subrange(i as int, n as int) =~= Seq::<u8>::empty());
            assert(out@ + Seq::<char>::empty() =~= out@);
        } else {
            assert(out@ + Seq::<char>::empty() =~= out@);
        }
    }
    *pending = rest;
    string_of(&out)
}

/// The text of `s` read to the end of the stream: decoded as far as it can
/// be (see `decode_stream`), then one U+FFFD for an unfinished character
/// left at the end; this is what lossy UTF-8 decoding gives.
pub open spec fn decode_to_end(s: Seq<u8>) -> Seq<char> {
    decode_stream(s).0 + if decode_stream(s).1.len() > 0 {
        seq![replacement()]
    } else {
        Seq::<char>::empty()
    }
}

/// The text of the bytes still pending when the stream ends (see
/// `decode_to_end`): nothing is dropped, an unfinished character becomes
/// U+FFFD.
pub fn finish_utf8(pending: &[u8]) -> (r: String)
    ensures
        r@ == decode_to_end(pending@),
{
    let mut p: Vec<u8> = Vec::new();
    assert(Seq::<u8>::empty() + pending@ =~= pending@);
    let text = complete_utf8_prefix(&mut p, pending);
    let mut v = chars_of(text.as_str());
    if p.len() > 0 {
        v.push('\u{FFFD}');
    } else {
        assert(v@ + Seq::<char>::empty() =~= v@);
    }
    string_of(&v)
}

proof fn lemma_first_step_extend(a: Seq<u8>, b: Seq<u8>)
    requires
        a.len() > 0,
        first_step(a) != Utf8Step::Incomplete,
    ensures
        first_step(a + b) == first_step(a),
{
    let s = a + b;
    assert(s[0] == a[0]);
    if a.len() >= 2 {
        assert(s[1] == a[1]);
    }
    if a.len() >= 3 {
        assert(s[2] == a[2]);
    }
    if a.len() >= 4 {
        assert(s[3] == a[3]);
    }
}

/// Splitting the stream into chunks does not change the text: decoding `a`,
/// then its unfinished tail followed by `b`, gives the text and tail of
/// decoding `a + b` at once.
pub proof fn chunking_does_not_change_text(a: Seq<u8>, b: Seq<u8>)
    ensures
        decode_stream(a).0 + decode_stream(decode_stream(a).1 + b).0 == decode_stream(a + b).0,
        decode_stream(decode_stream(a).1 + b).1 == decode_stream(a + b).1,
    decreases a.len(),
{
    if a.len() == 0 {
        assert(a + b =~= b);
        assert(Seq::<u8>::empty() + b =~= b);
        assert(Seq::<char>::empty() + decode_stream(b).0 =~= decode_stream(b).0);
    } else {
        match first_step(a) {
            Utf8Step::Incomplete => {
                assert(Seq::<char>::empty() + decode_stream(a + b).0 =~= decode_stream(a + b).0);
            },
            Utf8Step::Valid(n) => {
                lemma_first_step_len(a);
                lemma_first_step_extend(a, b);
                let a2 = a.subrange(n as int, a.len() as int);
                chunking_does_not_change_text(a2, b);
                assert((a + b).subrange(n as int, (a + b).len() as int) =~= a2 + b);
                assert((a + b)[0] == a[0]);
                if n >= 2 {
                    assert((a + b)[1] == a[1]);
                }
                if n >= 3 {
                    assert((a + b)[2] == a[2]);
                }
                if n >= 4 {
                    assert((a + b)[3] == a[3]);
                }
                assert(code_point(a + b, n as nat) == code_point(a, n as nat));
                assert(decode_stream(a).0 + decode_stream(decode_stream(a).1 + b).0
                    =~= decode_stream(a + b).0);
            },
            Utf8Step::Invalid(n) => {
                lemma_first_step_len(a);
                lemma_first_step_extend(a, b);
                let a2 = a.subrange(n as int, a.len() as int);
                chunking_does_not_change_text(a2, b);
                assert((a + b).subrange(n as int, (a + b).len() as int) =~= a2 + b);
                assert(decode_stream(a).0 + decode_stream(decode_stream(a).1 + b).0
                    =~= decode_stream(a + b).0);
            },
        }
    }
}


/// The bytes of `chunks`, one after another.
pub open spec fn joined(chunks: Seq<Seq<u8>>) -> Seq<u8>
    decreases chunks.len(),
{
    if chunks.len() == 0 {
        seq![]
    } else {
        joined(chunks.drop_last()) + chunks.last()
    }
}

/// The text handed out in all, and what stays pending, when `chunks` arrive
/// one after another, each going through `complete_utf8_prefix` with
/// nothing pending at the start.
pub open spec fn feed_chunks(chunks: Seq<Seq<u8>>) -> (Seq<char>, Seq<u8>)
    decreases chunks.len(),
{
    if chunks.len() == 0 {
        (seq![], seq![])
    } else {
        let before = feed_chunks(chunks.drop_last());
        let step = decode_stream(before.1 + chunks.last());
        (before.0 + step.0, step.1)
    }
}

/// Well-formed UTF-8: the bytes are a sequence of well-formed characters.
pub open spec fn valid_utf8(s: Seq<u8>) -> bool
    decreases s.len(),
{
    if s.len() == 0 {
        true
    } else {
        match first_step(s) {
            Utf8Step::Valid(n) => valid_utf8(s.subrange(n as int, s.len() as int)),
            _ => false,
        }
    }
}

proof fn lemma_valid_leaves_nothing(s: Seq<u8>)
    requires
        valid_utf8(s),
    ensures
        decode_stream(s).1.len() == 0,
    decreases s.len(),
{
    if s.len() > 0 {
        lemma_first_step_len(s);
        if let Utf8Step::Valid(n) = first_step(s) {
            lemma_valid_leaves_nothing(s.subrange(n as int, s.len() as int));
        }
    }
}

/// However a stream is cut into chunks, the texts handed out add up to the
/// text of the whole stream, and what stays pending is its unfinished tail;
/// for a well-formed stream nothing stays pending.
pub proof fn any_chunking_gives_the_whole_text(chunks: Seq<Seq<u8>>)
    ensures
        feed_chunks(chunks) == decode_stream(joined(chunks)),
        valid_utf8(joined(chunks)) ==> feed_chunks(chunks).1.len() == 0,
    decreases chunks.len(),
{
    if chunks.len() > 0 {
        any_chunking_gives_the_whole_text(chunks.drop_last());
        chunking_does_not_change_text(joined(chunks.drop_last()), chunks.last());
    }
    if valid_utf8(joined(chunks)) {
        lemma_valid_leaves_nothing(joined(chunks));
    }
}

} // verus!
