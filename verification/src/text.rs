//! Character-level text helpers shared by the command builders and the parsers.
//!
//! Text is handled as `Vec<char>` while it is built or scanned; the public
//! functions of the other modules take `&str` and hand back `String`, whose
//! view is the same `Seq<char>`.
use vstd::prelude::*;

verus! {

broadcast use vstd::string::axiom_spec_iter;

// ---------------------------------------------------------------------------
// Conversions between `str`/`String` and character vectors
// ---------------------------------------------------------------------------

/// The characters of `s`, in order.
pub fn chars_of(s: &str) -> (v: Vec<char>)
    ensures
        v@ == s@,
{
    let mut v: Vec<char> = Vec::new();
    for c in it: s.chars()
        invariant
            v@ == it.seq().take(it.index() as int),
            it.seq() == s@,
    {
        v.push(c);
    }
    v
}

/// `String` holding exactly the characters of `v`, in order: the
/// `FromIterator<&char>` impl of `String` (`String::from_iter`), which pushes
/// each character in turn.
#[verifier::external_body]
pub(crate) fn string_of(v: &[char]) -> (s: String)
    ensures
        s@ == v@,
{
    String::from_iter(v)
}

/// `String` holding exactly the characters of `s`.
pub fn owned(s: &str) -> (r: String)
    ensures
        r@ == s@,
{
    s.to_owned()
}

/// Appends the characters of `s` to `v`.
pub fn push_str(v: &mut Vec<char>, s: &str)
    ensures
        final(v)@ == old(v)@ + s@,
{
    let mut w = chars_of(s);
    v.append(&mut w);
}

/// Appends the characters of `w` to `v`.
pub fn push_chars(v: &mut Vec<char>, w: &[char])
    ensures
        final(v)@ == old(v)@ + w@,
{
    let ghost start = v@;
    let mut i: usize = 0;
    while i < w.len()
        invariant
            i <= w@.len(),
            v@ == start + w@.subrange(0, i as int),
        decreases w@.len() - i,
    {
        v.push(w[i]);
        i = i + 1;
        assert(v@ =~= start + w@.subrange(0, i as int));
    }
    assert(w@.subrange(0, w@.len() as int) =~= w@);
}

/// Copy of the characters `s[start..end]`.
pub fn slice_chars(s: &[char], start: usize, end: usize) -> (r: Vec<char>)
    requires
        start <= end <= s@.len(),
    ensures
        r@ == s@.subrange(start as int, end as int),
{
    let mut r: Vec<char> = Vec::new();
    let mut i = start;
    while i < end
        invariant
            start <= i <= end <= s@.len(),
            r@ == s@.subrange(start as int, i as int),
        decreases end - i,
    {
        r.push(s[i]);
        i = i + 1;
        assert(r@ =~= s@.subrange(start as int, i as int));
    }
    r
}

/// Whether two character sequences are equal.
pub fn chars_eq(a: &[char], b: &[char]) -> (r: bool)
    ensures
        r == (a@ == b@),
{
    if a.len() != b.len() {
        return false;
    }
    let mut i: usize = 0;
    while i < a.len()
        invariant
            a@.len() == b@.len(),
            i <= a@.len(),
            forall|k: int| 0 <= k < i ==> a@[k] == b@[k],
        decreases a@.len() - i,
    {
        if a[i] != b[i] {
            return false;
        }
        i = i + 1;
    }
    assert(a@ =~= b@);
    true
}

/// Whether two byte sequences are equal.
pub fn bytes_eq(a: &[u8], b: &[u8]) -> (r: bool)
    ensures
        r == (a@ == b@),
{
    if a.len() != b.len() {
        return false;
    }
    let mut i: usize = 0;
    while i < a.len()
        invariant
            a@.len() == b@.len(),
            i <= a@.len(),
            forall|k: int| 0 <= k < i ==> a@[k] == b@[k],
        decreases a@.len() - i,
    {
        if a[i] != b[i] {
            return false;
        }
        i = i + 1;
    }
    assert(a@ =~= b@);
    true
}

/// Whether the characters of `s` are exactly the characters of the literal `lit`.
pub fn chars_eq_str(s: &[char], lit: &str) -> (r: bool)
    ensures
        r == (s@ == lit@),
{
    let l = chars_of(lit);
    chars_eq(s, &l)
}

// ---------------------------------------------------------------------------
// Whitespace and trimming (`char::is_whitespace`, `str::trim`)
// ---------------------------------------------------------------------------

/// Unicode `White_Space`, the property behind `char::is_whitespace`.
pub open spec fn is_ws(c: char) -> bool {
    let u = c as u32;
    ||| 0x9 <= u <= 0xD
    ||| u == 0x20
    ||| u == 0x85
    ||| u == 0xA0
    ||| u == 0x1680
    ||| 0x2000 <= u <= 0x200A
    ||| u == 0x2028
    ||| u == 0x2029
    ||| u == 0x202F
    ||| u == 0x205F
    ||| u == 0x3000
}

/// Whether `c` is Unicode whitespace.
pub fn is_whitespace(c: char) -> (r: bool)
    ensures
        r == is_ws(c),
{
    let u = c as u32;
    (0x9 <= u && u <= 0xD) || u == 0x20 || u == 0x85 || u == 0xA0 || u == 0x1680 || (0x2000 <= u
        && u <= 0x200A) || u == 0x2028 || u == 0x2029 || u == 0x202F || u == 0x205F || u == 0x3000
}

/// `s` without its leading whitespace.
pub open spec fn trim_start(s: Seq<char>) -> Seq<char>
    decreases s.len(),
{
    if s.len() > 0 && is_ws(s[0]) {
        trim_start(s.drop_first())
    } else {
        s
    }
}

/// `s` without its trailing whitespace.
pub open spec fn trim_end(s: Seq<char>) -> Seq<char>
    decreases s.len(),
{
    if s.len() > 0 && is_ws(s.last()) {
        trim_end(s.drop_last())
    } else {
        s
    }
}

/// `s` without leading and trailing whitespace.
pub open spec fn trim(s: Seq<char>) -> Seq<char> {
    trim_end(trim_start(s))
}

proof fn lemma_trim_start_step(s: Seq<char>, i: int)
    requires
        0 <= i < s.len(),
        is_ws(s[i]),
    ensures
        trim_start(s.subrange(i, s.len() as int)) == trim_start(s.subrange(i + 1, s.len() as int)),
{
    assert(s.subrange(i, s.len() as int).drop_first() =~= s.subrange(i + 1, s.len() as int));
}

proof fn lemma_trim_end_step(s: Seq<char>, j: int)
    requires
        0 < j <= s.len(),
        is_ws(s[j - 1]),
    ensures
        trim_end(s.subrange(0, j)) == trim_end(s.subrange(0, j - 1)),
{
    assert(s.subrange(0, j).drop_last() =~= s.subrange(0, j - 1));
}

/// `s` with leading and trailing whitespace removed.
pub fn trim_chars(s: &[char]) -> (r: Vec<char>)
    ensures
        r@ == trim(s@),
{
    let n = s.len();
    let mut i: usize = 0;
    assert(s@.subrange(0, n as int) =~= s@);
    while i < n && is_whitespace(s[i])
        invariant
            i <= n == s@.len(),
            trim_start(s@) == trim_start(s@.subrange(i as int, n as int)),
        decreases n - i,
    {
        proof {
            lemma_trim_start_step(s@, i as int);
        }
        i = i + 1;
    }
    let ghost t = s@.subrange(i as int, n as int);
    assert(trim_start(s@) == t) by {
        if t.len() > 0 {
            assert(t[0] == s@[i as int]);
        }
    }
    let mut j: usize = n;
    assert(t.subrange(0, t.len() as int) =~= t);
    while j > i && is_whitespace(s[j - 1])
        invariant
            i <= j <= n == s@.len(),
            t == s@.subrange(i as int, n as int),
            trim_end(t) == trim_end(t.subrange(0, j - i)),
        decreases j,
    {
        proof {
            lemma_trim_end_step(t, j - i);
        }
        j = j - 1;
    }
    proof {
        let u = t.subrange(0, j - i);
        if u.len() > 0 {
            assert(u.last() == s@[j - 1]);
        }
        assert(u =~= s@.subrange(i as int, j as int));
    }
    slice_chars(s, i, j)
}

/// `s` with leading and trailing whitespace removed.
pub fn trim_str(s: &str) -> (r: Vec<char>)
    ensures
        r@ == trim(s@),
{
    let v = chars_of(s);
    trim_chars(&v)
}

// ---------------------------------------------------------------------------
// ASCII case folding (`to_ascii_lowercase`)
// ---------------------------------------------------------------------------

/// `c` with `A`..=`Z` mapped to `a`..=`z`.
pub open spec fn ascii_lower(c: char) -> char {
    if 'A' <= c <= 'Z' {
        ((c as u32) + 32) as char
    } else {
        c
    }
}

/// Every character of `s` folded with `ascii_lower`.
pub open spec fn ascii_lower_seq(s: Seq<char>) -> Seq<char> {
    s.map_values(|c: char| ascii_lower(c))
}

/// ASCII lower-case of one character.
pub fn lower_char(c: char) -> (r: char)
    ensures
        r == ascii_lower(c),
{
    if 'A' <= c && c <= 'Z' {
        let b: u8 = (c as u8) + 32;
        b as char
    } else {
        c
    }
}

/// ASCII lower-case of every character.
pub fn lower_chars(s: &[char]) -> (r: Vec<char>)
    ensures
        r@ == ascii_lower_seq(s@),
{
    let mut r: Vec<char> = Vec::new();
    let mut i: usize = 0;
    while i < s.len()
        invariant
            i <= s@.len(),
            r@ == ascii_lower_seq(s@.subrange(0, i as int)),
        decreases s@.len() - i,
    {
        let c = lower_char(s[i]);
        r.push(c);
        i = i + 1;
        assert(r@ =~= ascii_lower_seq(s@.subrange(0, i as int)));
    }
    assert(s@.subrange(0, s@.len() as int) =~= s@);
    r
}

// ---------------------------------------------------------------------------
// Substring search (`str::contains` with a `&str` pattern)
// ---------------------------------------------------------------------------

/// `needle` occurs in `hay` starting at index `i`.
pub open spec fn occurs_at(hay: Seq<char>, needle: Seq<char>, i: int) -> bool {
    0 <= i && i + needle.len() <= hay.len() && hay.subrange(i, i + needle.len()) == needle
}

/// `needle` occurs somewhere in `hay`.
pub open spec fn has_infix(hay: Seq<char>, needle: Seq<char>) -> bool {
    exists|i: int| occurs_at(hay, needle, i)
}

fn occurs_at_exec(hay: &[char], needle: &[char], i: usize) -> (r: bool)
    requires
        i + needle@.len() <= hay@.len(),
    ensures
        r == occurs_at(hay@, needle@, i as int),
{
    let mut k: usize = 0;
    while k < needle.len()
        invariant
            i + needle@.len() <= hay@.len(),
            hay@.len() == hay.len(),
            k <= needle@.len(),
            forall|m: int| 0 <= m < k ==> hay@[i + m] == needle@[m],
        decreases needle@.len() - k,
    {
        if hay[i + k] != needle[k] {
            assert(hay@.subrange(i as int, i + needle@.len())[k as int] != needle@[k as int]);
            return false;
        }
        k = k + 1;
    }
    assert(hay@.subrange(i as int, i + needle@.len()) =~= needle@);
    true
}

/// Whether `needle` occurs in `hay`.
pub fn contains_chars(hay: &[char], needle: &[char]) -> (r: bool)
    ensures
        r == has_infix(hay@, needle@),
{
    if needle.len() > hay.len() {
        return false;
    }
    let last = hay.len() - needle.len();
    let mut i: usize = 0;
    loop
        invariant
            last + needle@.len() == hay@.len(),
            i <= last,
            forall|j: int| 0 <= j < i ==> !occurs_at(hay@, needle@, j),
        decreases last - i,
    {
        if occurs_at_exec(hay, needle, i) {
            return true;
        }
        if i == last {
            return false;
        }
        i = i + 1;
    }
}

/// Whether the literal `needle` occurs in `hay`.
pub fn contains_str(hay: &[char], needle: &str) -> (r: bool)
    ensures
        r == has_infix(hay@, needle@),
{
    let n = chars_of(needle);
    contains_chars(hay, &n)
}

// ---------------------------------------------------------------------------
// Decimal rendering (`Display` for integers)
// ---------------------------------------------------------------------------

/// The ASCII digit for `d` (`d < 10`).
pub open spec fn digit_char(d: nat) -> char {
    ((d + 48) as u32) as char
}

/// Decimal digits of `n`, most significant first, without leading zeros.
pub open spec fn dec_digits(n: nat) -> Seq<char>
    decreases n,
{
    if n < 10 {
        seq![digit_char(n)]
    } else {
        dec_digits(n / 10).push(digit_char(n % 10))
    }
}

/// Decimal rendering of a signed integer, with a leading `-` when negative.
pub open spec fn dec_int(i: int) -> Seq<char> {
    if i < 0 {
        seq!['-'] + dec_digits((-i) as nat)
    } else {
        dec_digits(i as nat)
    }
}

fn digit(d: u64) -> (c: char)
    requires
        d < 10,
    ensures
        c == digit_char(d as nat),
{
    let b: u8 = (d as u8) + 48;
    assert(b as u32 == d + 48);
    b as char
}

/// Appends the decimal digits of `n`.
pub fn push_u64(v: &mut Vec<char>, n: u64)
    ensures
        final(v)@ == old(v)@ + dec_digits(n as nat),
    decreases n,
{
    if n < 10 {
        let c = digit(n);
        v.push(c);
        assert(dec_digits(n as nat) == seq![digit_char(n as nat)]);
        assert(final(v)@ =~= old(v)@ + dec_digits(n as nat));
    } else {
        push_u64(v, n / 10);
        let c = digit(n % 10);
        v.push(c);
        assert(final(v)@ =~= old(v)@ + dec_digits(n as nat));
    }
}

/// Appends the decimal rendering of `i`.
pub fn push_i64(v: &mut Vec<char>, i: i64)
    ensures
        final(v)@ == old(v)@ + dec_int(i as int),
{
    if i < 0 {
        v.push('-');
        let m: u64 = if i == i64::MIN {
            9223372036854775808u64
        } else {
            (-i) as u64
        };
        push_u64(v, m);
        assert(final(v)@ =~= old(v)@ + dec_int(i as int));
    } else {
        push_u64(v, i as u64);
    }
}

// ---------------------------------------------------------------------------
// Lines (`str::lines`)
// ---------------------------------------------------------------------------

/// The character sequences held by `v`.
pub open spec fn views(v: Seq<Vec<char>>) -> Seq<Seq<char>> {
    v.map_values(|l: Vec<char>| l@)
}

/// Index of the first `c` in `s`, or `s.len()` when there is none.
pub open spec fn find_char(s: Seq<char>, c: char) -> int
    decreases s.len(),
{
    if s.len() == 0 {
        0
    } else if s[0] == c {
        0
    } else {
        1 + find_char(s.drop_first(), c)
    }
}

/// `l` without one trailing `'\r'`.
pub open spec fn strip_cr(l: Seq<char>) -> Seq<char> {
    if l.len() > 0 && l.last() == '\r' {
        l.drop_last()
    } else {
        l
    }
}

/// The lines of `s`: pieces between `'\n'`s, a line that a `'\n'` ends
/// without the one `'\r'` right before it (`"\r\n"` ends a line too); the
/// last line, when no `'\n'` ends it, kept as it is; a final line
/// terminator does not start an extra empty line.
pub open spec fn lines(s: Seq<char>) -> Seq<Seq<char>>
    decreases s.len(),
{
    if s.len() == 0 {
        seq![]
    } else {
        let i = find_char(s, '\n');
        proof {
            lemma_find_char_bounds(s, '\n');
        }
        if i >= s.len() {
            seq![s]
        } else {
            seq![strip_cr(s.subrange(0, i))] + lines(s.subrange(i + 1, s.len() as int))
        }
    }
}

/// `find_char(s, c)` is the position of the first `c` in `s`, or its length
/// when it has none.
pub proof fn lemma_find_char_bounds(s: Seq<char>, c: char)
    ensures
        0 <= find_char(s, c) <= s.len(),
        find_char(s, c) < s.len() ==> s[find_char(s, c)] == c,
        forall|k: int| 0 <= k < find_char(s, c) ==> s[k] != c,
    decreases s.len(),
{
    if s.len() > 0 && s[0] != c {
        lemma_find_char_bounds(s.drop_first(), c);
        assert forall|k: int| 0 <= k < find_char(s, c) implies s[k] != c by {
            if k > 0 {
                assert(s[k] == s.drop_first()[k - 1]);
            }
        }
    }
}

/// The characterisation of `find_char` by its defining properties.
proof fn lemma_find_char_is(s: Seq<char>, c: char, i: int)
    requires
        0 <= i <= s.len(),
        i < s.len() ==> s[i] == c,
        forall|k: int| 0 <= k < i ==> s[k] != c,
    ensures
        find_char(s, c) == i,
{
    lemma_find_char_bounds(s, c);
    let f = find_char(s, c);
    if f < i {
        assert(s[f] == c);
    } else if i < f {
        assert(s[i] != c);
    }
}

/// Position of the first `c` in `s[from..]`, or `s.len()`.
pub fn find_char_from(s: &[char], c: char, from: usize) -> (r: usize)
    requires
        from <= s@.len(),
    ensures
        from <= r <= s@.len(),
        r - from == find_char(s@.subrange(from as int, s@.len() as int), c),
        r < s@.len() ==> s@[r as int] == c,
        forall|k: int| from <= k < r ==> s@[k] != c,
{
    let mut i = from;
    while i < s.len() && s[i] != c
        invariant
            from <= i <= s@.len(),
            forall|k: int| from <= k < i ==> s@[k] != c,
        decreases s@.len() - i,
    {
        i = i + 1;
    }
    proof {
        let t = s@.subrange(from as int, s@.len() as int);
        lemma_find_char_is(t, c, i - from);
    }
    i
}

fn strip_cr_exec(s: &[char], start: usize, end: usize) -> (r: Vec<char>)
    requires
        start <= end <= s@.len(),
    ensures
        r@ == strip_cr(s@.subrange(start as int, end as int)),
{
    if end > start && s[end - 1] == '\r' {
        let r = slice_chars(s, start, end - 1);
        assert(r@ =~= strip_cr(s@.subrange(start as int, end as int)));
        r
    } else {
        slice_chars(s, start, end)
    }
}

proof fn lemma_lines_step(s: Seq<char>, from: int, i: int)
    requires
        0 <= from < s.len(),
        from <= i <= s.len(),
        i - from == find_char(s.subrange(from, s.len() as int), '\n'),
    ensures
        lines(s.subrange(from, s.len() as int)) == if i >= s.len() {
            seq![s.subrange(from, s.len() as int)]
        } else {
            seq![strip_cr(s.subrange(from, i))] + lines(s.subrange(i + 1, s.len() as int))
        },
{
    let t = s.subrange(from, s.len() as int);
    if i < s.len() {
        assert(t.subrange(0, i - from) =~= s.subrange(from, i));
        assert(t.subrange(i - from + 1, t.len() as int) =~= s.subrange(i + 1, s.len() as int));
    }
}

/// The lines of `s` (see `lines`).
pub fn lines_of(s: &[char]) -> (r: Vec<Vec<char>>)
    ensures
        views(r@) == lines(s@),
{
    let mut r: Vec<Vec<char>> = Vec::new();
    let mut from: usize = 0;
    assert(s@.subrange(0, s@.len() as int) =~= s@);
    while from < s.len()
        invariant
            from <= s@.len(),
            views(r@) + lines(s@.subrange(from as int, s@.len() as int)) == lines(s@),
        decreases s@.len() - from,
    {
        let i = find_char_from(s, '\n', from);
        proof {
            lemma_lines_step(s@, from as int, i as int);
        }
        let line = if i >= s.len() {
            slice_chars(s, from, i)
        } else {
            strip_cr_exec(s, from, i)
        };
        let ghost before = views(r@);
        let ghost lv = line@;
        r.push(line);
        assert(views(r@) =~= before.push(lv));
        if i >= s.len() {
            from = s.len();
            assert(lines(s@.subrange(from as int, s@.len() as int)) =~= seq![]);
            assert(views(r@) + lines(s@.subrange(from as int, s@.len() as int)) =~= lines(s@));
        } else {
            from = i + 1;
            assert(views(r@) + lines(s@.subrange(from as int, s@.len() as int)) =~= lines(s@));
        }
    }
    assert(lines(s@.subrange(from as int, s@.len() as int)) =~= seq![]);
    assert(views(r@) =~= lines(s@));
    r
}

/// `s` with every `'\n'` written as `"\r\n"` (Windows line endings).
pub open spec fn crlf(s: Seq<char>) -> Seq<char>
    decreases s.len(),
{
    if s.len() == 0 {
        seq![]
    } else {
        crlf(s.drop_last()) + if s.last() == '\n' {
            seq!['\r', '\n']
        } else {
            seq![s.last()]
        }
    }
}

/// Writing Windows line endings distributes over concatenation.
pub proof fn lemma_crlf_append(a: Seq<char>, b: Seq<char>)
    ensures
        crlf(a + b) == crlf(a) + crlf(b),
    decreases b.len(),
{
    if b.len() == 0 {
        assert(a + b =~= a);
        assert(crlf(a) + crlf(b) =~= crlf(a));
    } else {
        lemma_crlf_append(a, b.drop_last());
        assert((a + b).drop_last() =~= a + b.drop_last());
        assert((a + b).last() == b.last());
        assert(crlf(a + b) =~= crlf(a) + crlf(b));
    }
}

proof fn lemma_crlf_plain(a: Seq<char>)
    requires
        !a.contains('\n'),
    ensures
        crlf(a) == a,
    decreases a.len(),
{
    if a.len() > 0 {
        assert(!a.drop_last().contains('\n')) by {
            if a.drop_last().contains('\n') {
                let k = choose|k: int| 0 <= k < a.drop_last().len() && a.drop_last()[k] == '\n';
                assert(a[k] == '\n');
            }
        }
        lemma_crlf_plain(a.drop_last());
        assert(a[a.len() - 1] != '\n');
        assert(a.drop_last().push(a.last()) =~= a);
        assert(crlf(a) =~= a);
    }
}

/// Written with Windows line endings, a text without carriage returns has
/// exactly the same lines.
pub proof fn crlf_has_the_same_lines(s: Seq<char>)
    requires
        !s.contains('\r'),
    ensures
        lines(crlf(s)) == lines(s),
    decreases s.len(),
{
    if s.len() > 0 {
        lemma_find_char_bounds(s, '\n');
        let i = find_char(s, '\n');
        if i >= s.len() {
            assert(!s.contains('\n'));
            lemma_crlf_plain(s);
        } else {
            let a = s.subrange(0, i);
            let b = s.subrange(i + 1, s.len() as int);
            assert(s =~= a + seq!['\n'] + b);
            assert(!a.contains('\n'));
            lemma_crlf_plain(a);
            lemma_crlf_append(a + seq!['\n'], b);
            lemma_crlf_append(a, seq!['\n']);
            assert(crlf(seq!['\n']) =~= seq!['\r', '\n']) by {
                let nl: Seq<char> = seq!['\n'];
                assert(nl.len() == 1 && nl.last() == '\n');
                assert(nl.drop_last() =~= Seq::<char>::empty());
                assert(crlf(nl.drop_last()) =~= Seq::<char>::empty());
                assert(Seq::<char>::empty() + seq!['\r', '\n'] =~= seq!['\r', '\n']);
            }
            let t = crlf(s);
            assert(t =~= a + seq!['\r', '\n'] + crlf(b));
            assert forall|k: int| 0 <= k < i + 1 implies t[k] != '\n' by {
                if k < i {
                    assert(t[k] == a[k]);
                } else {
                    assert(t[k] == '\r');
                }
            }
            lemma_find_char_is(t, '\n', i + 1);
            assert(t.subrange(0, i + 1) =~= a.push('\r'));
            assert(a.push('\r').drop_last() =~= a);
            assert(t.subrange(i + 2, t.len() as int) =~= crlf(b));
            assert(!b.contains('\r')) by {
                if b.contains('\r') {
                    let k = choose|k: int| 0 <= k < b.len() && b[k] == '\r';
                    assert(s[i + 1 + k] == '\r');
                }
            }
            if a.len() > 0 {
                assert(a.last() == s[i - 1]);
            }
            crlf_has_the_same_lines(b);
        }
    }
}

// ---------------------------------------------------------------------------
// Unsigned integers (`str::parse` for `u16` and `u64`)
// ---------------------------------------------------------------------------

/// Every character of `d` is an ASCII digit.
pub open spec fn all_ascii_digits(d: Seq<char>) -> bool {
    forall|i: int| 0 <= i < d.len() ==> '0' <= #[trigger] d[i] <= '9'
}

/// The number that the decimal digits `d` spell.
pub open spec fn digit_text_value(d: Seq<char>) -> nat
    decreases d.len(),
{
    if d.len() == 0 {
        0
    } else {
        digit_text_value(d.drop_last()) * 10 + ((d.last() as u32) - 48) as nat
    }
}

/// `s` without one leading `+`.
pub open spec fn strip_plus(s: Seq<char>) -> Seq<char> {
    if s.len() > 0 && s[0] == '+' {
        s.drop_first()
    } else {
        s
    }
}

/// `str::parse` of an unsigned integer type whose largest value is `max`:
/// an optional `+`, then at least one ASCII digit and nothing else, with a
/// value of at most `max`.
pub open spec fn parse_uint_text(s: Seq<char>, max: nat) -> Option<nat> {
    let d = strip_plus(s);
    if d.len() > 0 && all_ascii_digits(d) && digit_text_value(d) <= max {
        Some(digit_text_value(d))
    } else {
        None
    }
}

/// Parses an unsigned integer of at most `max` (see `parse_uint_text`).
pub fn parse_uint_chars(s: &[char], max: u64) -> (r: Option<u64>)
    ensures
        match r {
            Some(v) => parse_uint_text(s@, max as nat) == Some(v as nat),
            None => parse_uint_text(s@, max as nat) is None,
        },
{
    let n = s.len();
    let mut first: usize = 0;
    if n > 0 && s[0] == '+' {
        first = 1;
    }
    let ghost d = s@.subrange(first as int, n as int);
    assert(d =~= strip_plus(s@));
    if first == n {
        return None;
    }
    let cap: u128 = (max as u128) + 1;
    let mut i = first;
    let mut acc: u128 = 0;
    while i < n
        invariant
            first <= i <= n == s@.len(),
            d == s@.subrange(first as int, n as int),
            d == strip_plus(s@),
            cap == max + 1,
            forall|k: int| first <= k < i ==> '0' <= #[trigger] s@[k] <= '9',
            acc == if digit_text_value(s@.subrange(first as int, i as int)) < cap {
                digit_text_value(s@.subrange(first as int, i as int))
            } else {
                cap as nat
            },
        decreases n - i,
    {
        let c = s[i];
        if !('0' <= c && c <= '9') {
            assert(d[i - first] == c);
            assert(!all_ascii_digits(d));
            return None;
        }
        assert(s@.subrange(first as int, i + 1).drop_last() =~= s@.subrange(first as int, i as int));
        let dv: u128 = ((c as u32) - 48) as u128;
        acc = if acc >= cap {
            cap
        } else {
            let v = acc * 10 + dv;
            if v > cap {
                cap
            } else {
                v
            }
        };
        i = i + 1;
    }
    assert(s@.subrange(first as int, n as int) =~= d);
    assert forall|k: int| 0 <= k < d.len() implies '0' <= #[trigger] d[k] <= '9' by {
        assert(d[k] == s@[first + k]);
    }
    if acc <= max as u128 {
        Some(acc as u64)
    } else {
        None
    }
}

} // verus!
