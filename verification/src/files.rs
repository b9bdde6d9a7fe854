//! Remote directory listings, read from GNU `find -printf` output.
use vstd::prelude::*;

use crate::command::quoted;
use crate::text::{
    chars_of, find_char, find_char_from, lines, lines_of, parse_uint_chars,
    parse_uint_text, push_chars, push_str, slice_chars, string_of, trim, trim_chars, views,
};

verus! {

/// One entry of a directory.
#[derive(Debug, Clone, PartialEq, Eq)]
pub struct Entry {
    pub name: String,
    pub is_dir: bool,
    pub size: u64,
}

/// The content of an `Entry`.
pub struct EntryView {
    pub name: Seq<char>,
    pub is_dir: bool,
    pub size: u64,
}

impl View for Entry {
    type V = EntryView;

    open spec fn view(&self) -> EntryView {
        EntryView { name: self.name@, is_dir: self.is_dir, size: self.size }
    }
}

/// The contents of a list of entries.
pub open spec fn entry_views(v: Seq<Entry>) -> Seq<EntryView> {
    v.map_values(|e: Entry| e@)
}

/// A directory as the remote side resolved it, and its entries.
#[derive(Debug, Clone, PartialEq, Eq)]
pub struct Listing {
    /// The canonical absolute path that the remote `pwd` printed.
    pub dir: String,
    pub entries: Vec<Entry>,
}

// ---------------------------------------------------------------------------
// The command
// ---------------------------------------------------------------------------

/// How `dir` is written after `cd`: a leading `~` (all of `dir`, or
/// followed by `/`) stays outside the quotes, so that the remote shell
/// expands it to the home directory; the rest is single-quoted.
pub open spec fn cd_arg_of(dir: Seq<char>) -> Seq<char> {
    if dir == seq!['~'] {
        seq!['~']
    } else if dir.len() >= 2 && dir[0] == '~' && dir[1] == '/' {
        seq!['~', '/'] + quoted(dir.subrange(2, dir.len() as int))
    } else {
        quoted(dir)
    }
}

/// `cd` into `dir` (`~` and `..` resolved by the remote shell), print the
/// resolved path, then one line per entry: type (`%Y`, the target's type for
/// links), size and name, tab-separated.
pub open spec fn list_cmd_of(dir: Seq<char>) -> Seq<char> {
    "cd "@ + cd_arg_of(dir) + " && pwd && find . -mindepth 1 -maxdepth 1 -printf '%Y\\t%s\\t%f\\n'"@
}

/// The remote command that lists one level of `dir` (see `list_cmd_of`).
pub fn build_list_cmd(dir: &str) -> (r: String)
    ensures
        r@ == list_cmd_of(dir@),
{
    let d = chars_of(dir);
    let mut v = chars_of("cd ");
    if d.len() == 1 && d[0] == '~' {
        assert(d@ =~= seq!['~']);
        v.push('~');
    } else if d.len() >= 2 && d[0] == '~' && d[1] == '/' {
        assert(d@ != seq!['~']);
        v.push('~');
        v.push('/');
        let rest = slice_chars(&d, 2, d.len());
        let q = crate::command::quote_chars(&rest);
        push_chars(&mut v, &q);
    } else {
        assert(d@ != seq!['~']) by {
            if d@ == seq!['~'] {
                assert(d@.len() == 1 && d@[0] == '~');
            }
        }
        let q = crate::command::quote_chars(&d);
        push_chars(&mut v, &q);
    }
    push_str(&mut v, " && pwd && find . -mindepth 1 -maxdepth 1 -printf '%Y\\t%s\\t%f\\n'");
    assert(v@ =~= list_cmd_of(dir@));
    string_of(&v)
}

// ---------------------------------------------------------------------------
// Lines of `find` output
// ---------------------------------------------------------------------------

/// The entry that one line `<type>\t<size>\t<name>` describes: the name is
/// everything after the second tab (tabs included) and must not be empty;
/// the size must parse as `u64`; only type `d` is a directory. `None` for a
/// line that does not have this shape.
pub open spec fn entry_of_line(line: Seq<char>) -> Option<EntryView> {
    let i = find_char(line, '\t');
    if i >= line.len() {
        None
    } else {
        let rest = line.subrange(i + 1, line.len() as int);
        let j = find_char(rest, '\t');
        if j >= rest.len() {
            None
        } else {
            let name = rest.subrange(j + 1, rest.len() as int);
            match parse_uint_text(rest.subrange(0, j), u64::MAX as nat) {
                None => None,
                Some(size) => if name.len() == 0 {
                    None
                } else {
                    Some(
                        EntryView {
                            name: name,
                            is_dir: line.subrange(0, i) == seq!['d'],
                            size: size as u64,
                        },
                    )
                },
            }
        }
    }
}

/// The entries of the well-formed lines among `ls`, in order.
pub open spec fn entries_of_lines(ls: Seq<Seq<char>>) -> Seq<EntryView>
    decreases ls.len(),
{
    if ls.len() == 0 {
        seq![]
    } else {
        entries_of_lines(ls.drop_last()) + match entry_of_line(ls.last()) {
            Some(e) => seq![e],
            None => seq![],
        }
    }
}

fn entry_of_line_exec(line: &[char]) -> (r: Option<Entry>)
    ensures
        match r {
            Some(e) => entry_of_line(line@) == Some(e@),
            None => entry_of_line(line@) is None,
        },
{
    let n = line.len();
    let i = find_char_from(line, '\t', 0);
    assert(line@.subrange(0, n as int) =~= line@);
    if i >= n {
        return None;
    }
    let j = find_char_from(line, '\t', i + 1);
    let ghost rest = line@.subrange(i + 1, n as int);
    if j >= n {
        return None;
    }
    assert(rest.subrange(0, j - i - 1) =~= line@.subrange(i + 1, j as int));
    assert(rest.subrange(j - i - 1 + 1, rest.len() as int) =~= line@.subrange(j + 1, n as int));
    let size_text = slice_chars(line, i + 1, j);
    match parse_uint_chars(&size_text, u64::MAX) {
        None => None,
        Some(size) => {
            if j + 1 == n {
                return None;
            }
            let kind = slice_chars(line, 0, i);
            let is_dir = kind.len() == 1 && kind[0] == 'd';
            assert(is_dir == (kind@ == seq!['d'])) by {
                if kind@ == seq!['d'] {
                    assert(kind@.len() == 1 && kind@[0] == 'd');
                }
                if is_dir {
                    assert(kind@ =~= seq!['d']);
                }
            }
            let name = slice_chars(line, j + 1, n);
            Some(Entry { name: string_of(&name), is_dir, size })
        },
    }
}

// ---------------------------------------------------------------------------
// Order: directories first, then by lower-case name
// ---------------------------------------------------------------------------

/// The lower-case form of `s` that `str::to_lowercase` returns (full Unicode
/// case mapping).
pub uninterp spec fn unicode_lower(s: Seq<char>) -> Seq<char>;

/// `str::to_lowercase`: the lower-case form of `s`, by full Unicode case
/// mapping. It depends on the text of `s` alone; the result is the named
/// `unicode_lower`, which is not spelled out.
#[verifier::external_body]
fn lowercase_of(s: &str) -> (r: String)
    ensures
        r@ == unicode_lower(s@),
{
    s.to_lowercase()
}

/// Lexicographic order of code points (the order of `str`'s `Ord`).
pub open spec fn text_lt(a: Seq<char>, b: Seq<char>) -> bool
    decreases a.len(),
{
    if a.len() == 0 {
        b.len() > 0
    } else if b.len() == 0 {
        false
    } else if a[0] != b[0] {
        a[0] < b[0]
    } else {
        text_lt(a.drop_first(), b.drop_first())
    }
}

proof fn lemma_text_lt_total(a: Seq<char>, b: Seq<char>)
    ensures
        text_lt(a, b) || text_lt(b, a) || a == b,
        !(text_lt(a, b) && text_lt(b, a)),
        !text_lt(a, a),
    decreases a.len(),
{
    if a.len() > 0 && b.len() > 0 && a[0] == b[0] {
        lemma_text_lt_total(a.drop_first(), b.drop_first());
        if a.drop_first() == b.drop_first() {
            assert(a =~= seq![a[0]] + a.drop_first());
            assert(b =~= seq![b[0]] + b.drop_first());
        }
    } else if a.len() == 0 && b.len() == 0 {
        assert(a =~= b);
    }
    if a.len() > 0 {
        lemma_text_lt_total(a.drop_first(), a.drop_first());
    }
}

/// Sort names are ordered as `str` orders them: a name comes before every
/// longer name that it begins, and otherwise the first code point where two
/// names differ decides; no name comes before itself.
pub proof fn names_order_like_str(a: Seq<char>, b: Seq<char>, s: Seq<char>, i: int)
    ensures
        s.len() > 0 ==> text_lt(a, a + s) && !text_lt(a + s, a),
        !text_lt(a, a),
        (0 <= i < a.len() && i < b.len() && a.subrange(0, i) == b.subrange(0, i) && a[i]
            != b[i]) ==> (text_lt(a, b) == (a[i] < b[i])),
    decreases a.len(),
{
    lemma_text_lt_total(a, a);
    if a.len() == 0 {
        if s.len() > 0 {
            assert(a + s =~= s);
        }
    } else {
        let t = a.drop_first();
        names_order_like_str(t, b.drop_first(), s, i - 1);
        if s.len() > 0 {
            assert((a + s).drop_first() =~= t + s);
            assert((a + s)[0] == a[0]);
        }
        if 0 <= i < a.len() && i < b.len() && a.subrange(0, i) == b.subrange(0, i) && a[i] != b[i] {
            if i > 0 {
                assert(a[0] == a.subrange(0, i)[0]);
                assert(b[0] == b.subrange(0, i)[0]);
                assert(t.subrange(0, i - 1) =~= a.subrange(0, i).drop_first());
                assert(b.drop_first().subrange(0, i - 1) =~= b.subrange(0, i).drop_first());
                assert(t[i - 1] == a[i]);
                assert(b.drop_first()[i - 1] == b[i]);
            }
        }
    }
}

proof fn lemma_text_lt_trans(a: Seq<char>, b: Seq<char>, c: Seq<char>)
    requires
        text_lt(a, b),
        text_lt(b, c),
    ensures
        text_lt(a, c),
    decreases a.len(),
{
    if a.len() > 0 && b.len() > 0 && c.len() > 0 && a[0] == b[0] && b[0] == c[0] {
        lemma_text_lt_trans(a.drop_first(), b.drop_first(), c.drop_first());
    }
}

/// Entry `a` with sort name `ka` comes before entry `b` with sort name `kb`:
/// a directory before a file, else the smaller sort name first.
pub open spec fn key_lt(a: EntryView, ka: Seq<char>, b: EntryView, kb: Seq<char>) -> bool {
    (a.is_dir && !b.is_dir) || (a.is_dir == b.is_dir && text_lt(ka, kb))
}

/// The two entries have the same sort key.
pub open spec fn key_eq(a: EntryView, ka: Seq<char>, b: EntryView, kb: Seq<char>) -> bool {
    a.is_dir == b.is_dir && ka == kb
}

proof fn lemma_key_total(a: EntryView, ka: Seq<char>, b: EntryView, kb: Seq<char>)
    ensures
        key_lt(a, ka, b, kb) || key_lt(b, kb, a, ka) || key_eq(a, ka, b, kb),
        !(key_lt(a, ka, b, kb) && key_lt(b, kb, a, ka)),
        !(key_lt(a, ka, b, kb) && key_eq(a, ka, b, kb)),
{
    lemma_text_lt_total(ka, kb);
}

proof fn lemma_key_lt_le_trans(
    a: EntryView,
    ka: Seq<char>,
    b: EntryView,
    kb: Seq<char>,
    c: EntryView,
    kc: Seq<char>,
)
    requires
        key_lt(a, ka, b, kb),
        key_lt(b, kb, c, kc) || key_eq(b, kb, c, kc),
    ensures
        key_lt(a, ka, c, kc),
{
    if key_lt(b, kb, c, kc) && a.is_dir == b.is_dir && b.is_dir == c.is_dir {
        lemma_text_lt_trans(ka, kb, kc);
    }
}

/// Item `i` of `orig`, whose sort name is `keys[i]`, goes before item `j`: a
/// smaller key, or an equal key and an earlier position (a stable sort).
pub open spec fn goes_before(orig: Seq<EntryView>, keys: Seq<Seq<char>>, i: int, j: int) -> bool {
    key_lt(orig[i], keys[i], orig[j], keys[j]) || (key_eq(orig[i], keys[i], orig[j], keys[j]) && i
        < j)
}

/// Position `i` is taken by some element of `perm`.
pub open spec fn has_position(perm: Seq<int>, i: int) -> bool {
    exists|k: int| 0 <= k < perm.len() && perm[k] == i
}

/// `perm` lists each of the positions `0..n` exactly once.
pub open spec fn is_permutation(perm: Seq<int>, n: int) -> bool {
    &&& perm.len() == n
    &&& forall|k: int| 0 <= k < perm.len() ==> 0 <= #[trigger] perm[k] < n
    &&& forall|k: int, l: int| 0 <= k < l < perm.len() ==> #[trigger] perm[k] != #[trigger] perm[l]
    &&& forall|i: int| 0 <= i < n ==> #[trigger] has_position(perm, i)
}

/// `r` is `orig` sorted stably by (directory first, sort name `keys[i]`),
/// `perm[k]` being the position in `orig` of `r[k]`.
pub open spec fn stable_sorted_by(
    orig: Seq<EntryView>,
    keys: Seq<Seq<char>>,
    r: Seq<EntryView>,
    perm: Seq<int>,
) -> bool {
    &&& keys.len() == orig.len()
    &&& r.len() == orig.len()
    &&& is_permutation(perm, orig.len() as int)
    &&& forall|k: int| 0 <= k < r.len() ==> #[trigger] r[k] == orig[perm[k]]
    &&& forall|k: int, l: int|
        0 <= k < l < r.len() ==> goes_before(orig, keys, #[trigger] perm[k], #[trigger] perm[l])
}

/// The invariant of the insertion sort after the first `i` items.
spec fn partial_sort(
    orig: Seq<EntryView>,
    keys: Seq<Seq<char>>,
    r: Seq<EntryView>,
    perm: Seq<int>,
    i: int,
) -> bool {
    &&& keys.len() == orig.len()
    &&& r.len() == i
    &&& is_permutation(perm, i)
    &&& forall|k: int| 0 <= k < r.len() ==> #[trigger] r[k] == orig[perm[k]]
    &&& forall|k: int, l: int|
        0 <= k < l < r.len() ==> goes_before(orig, keys, #[trigger] perm[k], #[trigger] perm[l])
}

proof fn lemma_same_order_prefix(
    orig: Seq<EntryView>,
    keys: Seq<Seq<char>>,
    r1: Seq<EntryView>,
    p1: Seq<int>,
    r2: Seq<EntryView>,
    p2: Seq<int>,
    k: int,
)
    requires
        stable_sorted_by(orig, keys, r1, p1),
        stable_sorted_by(orig, keys, r2, p2),
        0 <= k <= orig.len(),
    ensures
        forall|j: int| 0 <= j < k ==> p1[j] == p2[j],
    decreases k,
{
    if k > 0 {
        lemma_same_order_prefix(orig, keys, r1, p1, r2, p2, k - 1);
        let j = k - 1;
        if p1[j] != p2[j] {
            let a = p1[j];
            let b = p2[j];
            assert(has_position(p1, b));
            let l = choose|l: int| 0 <= l < p1.len() && p1[l] == b;
            assert(has_position(p2, a));
            let m = choose|m: int| 0 <= m < p2.len() && p2[m] == a;
            if l < j {
                assert(p2[l] == p1[l]);
            }
            if m < j {
                assert(p1[m] == p2[m]);
            }
            assert(j < l && j < m);
            assert(goes_before(orig, keys, p1[j], p1[l]));
            assert(goes_before(orig, keys, p2[j], p2[m]));
            lemma_key_total(orig[a], keys[a], orig[b], keys[b]);
            assert(false);
        }
    }
}

/// A stable sort by a key has exactly one outcome: two stable sorts of the
/// same entries with the same sort names are the same sequence.
pub proof fn stable_sort_is_unique(
    orig: Seq<EntryView>,
    keys: Seq<Seq<char>>,
    r1: Seq<EntryView>,
    p1: Seq<int>,
    r2: Seq<EntryView>,
    p2: Seq<int>,
)
    requires
        stable_sorted_by(orig, keys, r1, p1),
        stable_sorted_by(orig, keys, r2, p2),
    ensures
        r1 == r2,
{
    lemma_same_order_prefix(orig, keys, r1, p1, r2, p2, orig.len() as int);
    assert forall|k: int| 0 <= k < r1.len() implies r1[k] == r2[k] by {
        assert(p1[k] == p2[k]);
    }
    assert(r1 =~= r2);
}

fn text_lt_exec(a: &[char], b: &[char]) -> (r: bool)
    ensures
        r == text_lt(a@, b@),
{
    let mut i: usize = 0;
    assert(a@.subrange(0, a@.len() as int) =~= a@);
    assert(b@.subrange(0, b@.len() as int) =~= b@);
    while i < a.len() && i < b.len() && a[i] == b[i]
        invariant
            i <= a@.len(),
            i <= b@.len(),
            text_lt(a@, b@) == text_lt(
                a@.subrange(i as int, a@.len() as int),
                b@.subrange(i as int, b@.len() as int),
            ),
        decreases a@.len() - i,
    {
        let ghost sa = a@.subrange(i as int, a@.len() as int);
        let ghost sb = b@.subrange(i as int, b@.len() as int);
        assert(sa.drop_first() =~= a@.subrange(i + 1, a@.len() as int));
        assert(sb.drop_first() =~= b@.subrange(i + 1, b@.len() as int));
        i = i + 1;
    }
    let ghost sa = a@.subrange(i as int, a@.len() as int);
    let ghost sb = b@.subrange(i as int, b@.len() as int);
    if i == a.len() {
        i < b.len()
    } else if i == b.len() {
        false
    } else {
        assert(sa[0] == a@[i as int] && sb[0] == b@[i as int]);
        a[i] < b[i]
    }
}

proof fn lemma_insert_sorted(
    orig: Seq<EntryView>,
    keys: Seq<Seq<char>>,
    r: Seq<EntryView>,
    perm: Seq<int>,
    i: int,
    p: int,
)
    requires
        0 <= i < orig.len(),
        partial_sort(orig, keys, r, perm, i),
        0 <= p <= r.len(),
        forall|k: int| 0 <= k < p ==> !key_lt(orig[i], keys[i], #[trigger] r[k], keys[perm[k]]),
        p < r.len() ==> key_lt(orig[i], keys[i], r[p], keys[perm[p]]),
    ensures
        partial_sort(orig, keys, r.insert(p, orig[i]), perm.insert(p, i), i + 1),
{
    let x = orig[i];
    let r2 = r.insert(p, x);
    let p2 = perm.insert(p, i);
    assert forall|k: int| 0 <= k < p2.len() implies 0 <= #[trigger] p2[k] < i + 1 by {
        if k < p {
            assert(p2[k] == perm[k]);
        } else if k > p {
            assert(p2[k] == perm[k - 1]);
        }
    }
    assert forall|k: int, l: int| 0 <= k < l < p2.len() implies #[trigger] p2[k] != #[trigger] p2[l] by {
        if k != p && l != p {
            let kk = if k < p {
                k
            } else {
                k - 1
            };
            let ll = if l < p {
                l
            } else {
                l - 1
            };
            assert(p2[k] == perm[kk] && p2[l] == perm[ll]);
            assert(perm[kk] != perm[ll]);
        } else if k == p {
            assert(p2[l] == perm[l - 1]);
            assert(perm[l - 1] < i);
        } else {
            assert(p2[k] == perm[k]);
            assert(perm[k] < i);
        }
    }
    assert forall|j: int| 0 <= j < i + 1 implies #[trigger] has_position(p2, j) by {
        if j == i {
            assert(p2[p] == i);
        } else {
            assert(has_position(perm, j));
            let k = choose|k: int| 0 <= k < perm.len() && perm[k] == j;
            if k < p {
                assert(p2[k] == j);
            } else {
                assert(p2[k + 1] == j);
            }
        }
    }
    assert forall|k: int| 0 <= k < r2.len() implies #[trigger] r2[k] == orig[p2[k]] by {
        if k < p {
            assert(r2[k] == r[k] && p2[k] == perm[k]);
        } else if k > p {
            assert(r2[k] == r[k - 1] && p2[k] == perm[k - 1]);
        }
    }
    assert forall|k: int, l: int| 0 <= k < l < r2.len() implies goes_before(
        orig,
        keys,
        #[trigger] p2[k],
        #[trigger] p2[l],
    ) by {
        if k != p && l != p {
            let kk = if k < p {
                k
            } else {
                k - 1
            };
            let ll = if l < p {
                l
            } else {
                l - 1
            };
            assert(p2[k] == perm[kk] && p2[l] == perm[ll]);
            assert(goes_before(orig, keys, perm[kk], perm[ll]));
        } else if k == p {
            assert(p2[l] == perm[l - 1]);
            assert(r[l - 1] == orig[perm[l - 1]]);
            if l - 1 == p {
                assert(r[p] == orig[perm[p]]);
            } else {
                assert(goes_before(orig, keys, perm[p], perm[l - 1]));
                assert(r[p] == orig[perm[p]]);
                lemma_key_lt_le_trans(
                    x,
                    keys[i],
                    orig[perm[p]],
                    keys[perm[p]],
                    orig[perm[l - 1]],
                    keys[perm[l - 1]],
                );
            }
        } else {
            assert(p2[k] == perm[k]);
            assert(r[k] == orig[perm[k]]);
            assert(!key_lt(x, keys[i], r[k], keys[perm[k]]));
            lemma_key_total(x, keys[i], orig[perm[k]], keys[perm[k]]);
            assert(perm[k] < i);
        }
    }
}

/// The entries of `items`, each paired with its sort name.
pub open spec fn item_entries(items: Seq<(Entry, String)>) -> Seq<EntryView> {
    items.map_values(|it: (Entry, String)| it.0@)
}

/// The sort names of `items`.
pub open spec fn item_keys(items: Seq<(Entry, String)>) -> Seq<Seq<char>> {
    items.map_values(|it: (Entry, String)| it.1@)
}

/// Sorts entries, each paired with its sort name, stably: directories
/// first, then by sort name (code point order); entries with the same key
/// keep their input order.
pub fn sort_by_kind_then_name(items: Vec<(Entry, String)>) -> (r: Vec<Entry>)
    ensures
        exists|perm: Seq<int>|
            stable_sorted_by(item_entries(items@), item_keys(items@), entry_views(r@), perm),
{
    let ghost orig = item_entries(items@);
    let ghost keys = item_keys(items@);
    let n = items.len();
    let mut src = items;
    let mut r: Vec<Entry> = Vec::new();
    let mut rkeys: Vec<Vec<char>> = Vec::new();
    let ghost mut perm: Seq<int> = seq![];
    let mut i: usize = 0;
    assert(item_entries(src@) =~= orig.subrange(0, n as int));
    assert(item_keys(src@) =~= keys.subrange(0, n as int));
    assert(entry_views(r@) =~= Seq::<EntryView>::empty());
    while i < n
        invariant
            i <= n == orig.len() == keys.len(),
            item_entries(src@) == orig.subrange(i as int, n as int),
            item_keys(src@) == keys.subrange(i as int, n as int),
            rkeys@.len() == r@.len() == perm.len(),
            forall|k: int| 0 <= k < r@.len() ==> (#[trigger] rkeys@[k])@ == keys[perm[k]],
            partial_sort(orig, keys, entry_views(r@), perm, i as int),
        decreases n - i,
    {
        let ghost before_src = src@;
        assert(item_entries(before_src).len() == before_src.len());
        let (e, key) = src.remove(0);
        assert(e@ == orig[i as int] && key@ == keys[i as int]) by {
            assert(item_entries(before_src)[0] == orig.subrange(i as int, n as int)[0]);
            assert(item_keys(before_src)[0] == keys.subrange(i as int, n as int)[0]);
        }
        assert(item_entries(src@) =~= orig.subrange(i + 1, n as int)) by {
            assert forall|k: int| 0 <= k < src@.len() implies item_entries(src@)[k]
                == orig.subrange(i + 1, n as int)[k] by {
                assert(src@[k] == before_src[k + 1]);
                assert(item_entries(before_src)[k + 1] == orig.subrange(i as int, n as int)[k
                    + 1]);
            }
        }
        assert(item_keys(src@) =~= keys.subrange(i + 1, n as int)) by {
            assert forall|k: int| 0 <= k < src@.len() implies item_keys(src@)[k] == keys.subrange(
                i + 1,
                n as int,
            )[k] by {
                assert(src@[k] == before_src[k + 1]);
                assert(item_keys(before_src)[k + 1] == keys.subrange(i as int, n as int)[k + 1]);
            }
        }
        let lk = chars_of(key.as_str());
        let ghost rv = entry_views(r@);
        let mut p: usize = 0;
        while p < r.len() && !key_lt_exec(&e, &lk, &r[p], &rkeys[p])
            invariant
                p <= r@.len(),
                rkeys@.len() == r@.len() == perm.len(),
                rv == entry_views(r@),
                lk@ == keys[i as int],
                e@ == orig[i as int],
                i < n == orig.len() == keys.len(),
                partial_sort(orig, keys, rv, perm, i as int),
                forall|k: int| 0 <= k < r@.len() ==> (#[trigger] rkeys@[k])@ == keys[perm[k]],
                forall|k: int|
                    0 <= k < p ==> !key_lt(orig[i as int], keys[i as int], #[trigger] rv[k], keys[perm[k]]),
            decreases r@.len() - p,
        {
            assert(rv[p as int] == r@[p as int]@);
            p = p + 1;
        }
        proof {
            if p < r@.len() {
                assert(rv[p as int] == r@[p as int]@);
            }
            lemma_insert_sorted(orig, keys, rv, perm, i as int, p as int);
        }
        let ghost old_r = r@;
        let ghost old_keys = rkeys@;
        let ghost old_perm = perm;
        proof {
            perm = perm.insert(p as int, i as int);
        }
        r.insert(p, e);
        rkeys.insert(p, lk);
        assert(entry_views(r@) =~= rv.insert(p as int, orig[i as int]));
        assert forall|k: int| 0 <= k < r@.len() implies (#[trigger] rkeys@[k])@ == keys[perm[k]] by {
            if k < p {
                assert(rkeys@[k] == old_keys[k] && perm[k] == old_perm[k]);
            } else if k > p {
                assert(rkeys@[k] == old_keys[k - 1] && perm[k] == old_perm[k - 1]);
            }
        }
        i = i + 1;
    }
    assert(stable_sorted_by(orig, keys, entry_views(r@), perm));
    r
}

fn key_lt_exec(a: &Entry, la: &[char], b: &Entry, lb: &[char]) -> (r: bool)
    ensures
        r == key_lt(a@, la@, b@, lb@),
{
    (a.is_dir && !b.is_dir) || (a.is_dir == b.is_dir && text_lt_exec(la, lb))
}

/// The lower-case names of `entries`, by which they are sorted.
pub open spec fn lower_names(entries: Seq<EntryView>) -> Seq<Seq<char>> {
    entries.map_values(|e: EntryView| unicode_lower(e.name))
}

/// Sorts `entries` stably: directories first, then by lower-case name.
fn sort_entries(entries: Vec<Entry>) -> (r: Vec<Entry>)
    ensures
        exists|perm: Seq<int>|
            stable_sorted_by(
                entry_views(entries@),
                lower_names(entry_views(entries@)),
                entry_views(r@),
                perm,
            ),
{
    let ghost orig = entry_views(entries@);
    let mut items: Vec<(Entry, String)> = Vec::new();
    let mut i: usize = 0;
    while i < entries.len()
        invariant
            i <= entries@.len(),
            orig == entry_views(entries@),
            items@.len() == i,
            forall|k: int|
                0 <= k < i ==> (#[trigger] items@[k]).0@ == orig[k] && items@[k].1@
                    == unicode_lower(orig[k].name),
        decreases entries@.len() - i,
    {
        let src = &entries[i];
        let e = Entry { name: src.name.clone(), is_dir: src.is_dir, size: src.size };
        assert(e@ == orig[i as int]);
        let low = lowercase_of(e.name.as_str());
        items.push((e, low));
        i = i + 1;
    }
    assert(item_entries(items@) =~= orig);
    assert(item_keys(items@) =~= lower_names(orig));
    sort_by_kind_then_name(items)
}

/// `entries` lists the entries of the well-formed lines of `out`, sorted
/// stably with directories first and then by lower-case name.
pub open spec fn lists_entries_of(out: Seq<char>, entries: Seq<EntryView>) -> bool {
    let found = entries_of_lines(lines(out));
    exists|perm: Seq<int>| stable_sorted_by(found, lower_names(found), entries, perm)
}

/// The order of a listing is fully determined by the output: two entry lists
/// that both list the entries of `out` (see `lists_entries_of`) are equal.
pub proof fn listing_is_determined(out: Seq<char>, a: Seq<EntryView>, b: Seq<EntryView>)
    requires
        lists_entries_of(out, a),
        lists_entries_of(out, b),
    ensures
        a == b,
{
    let found = entries_of_lines(lines(out));
    let pa = choose|perm: Seq<int>| stable_sorted_by(found, lower_names(found), a, perm);
    let pb = choose|perm: Seq<int>| stable_sorted_by(found, lower_names(found), b, perm);
    stable_sort_is_unique(found, lower_names(found), a, pa, b, pb);
}

fn parse_find_chars(out: &[char]) -> (r: Vec<Entry>)
    ensures
        lists_entries_of(out@, entry_views(r@)),
{
    let ls = lines_of(out);
    let ghost lv = views(ls@);
    let mut parsed: Vec<Entry> = Vec::new();
    let mut i: usize = 0;
    assert(lv.subrange(0, 0) =~= Seq::<Seq<char>>::empty());
    assert(entry_views(parsed@) =~= Seq::<EntryView>::empty());
    while i < ls.len()
        invariant
            i <= ls@.len(),
            lv == views(ls@),
            lv == lines(out@),
            entry_views(parsed@) == entries_of_lines(lv.subrange(0, i as int)),
        decreases ls@.len() - i,
    {
        let ghost sub = lv.subrange(0, i + 1);
        assert(sub.drop_last() =~= lv.subrange(0, i as int));
        let ghost before = entry_views(parsed@);
        match entry_of_line_exec(&ls[i]) {
            Some(e) => {
                let ghost ev = e@;
                parsed.push(e);
                assert(entry_views(parsed@) =~= before + seq![ev]);
            },
            None => {
                assert(before + Seq::<EntryView>::empty() =~= before);
            },
        }
        i = i + 1;
    }
    assert(lv.subrange(0, ls@.len() as int) =~= lv);
    sort_entries(parsed)
}

/// The entries of `find` output: one per well-formed line (see
/// `entry_of_line`; other lines are dropped), directories first, then by
/// lower-case name, ties kept in input order.
pub fn parse_find_output(out: &str) -> (r: Vec<Entry>)
    ensures
        lists_entries_of(out@, entry_views(r@)),
{
    let v = chars_of(out);
    parse_find_chars(&v)
}

/// The first line of `out` (the resolved directory, untrimmed), and the
/// text after it.
pub open spec fn split_first_line(out: Seq<char>) -> (Seq<char>, Seq<char>) {
    let i = find_char(out, '\n');
    if i < out.len() {
        (out.subrange(0, i), out.subrange(i + 1, out.len() as int))
    } else {
        (out, seq![])
    }
}

/// Reads the whole output of `build_list_cmd`: the first line, trimmed, is
/// the resolved directory; the rest are entries (see `parse_find_output`).
pub fn parse_listing(out: &str) -> (r: Listing)
    ensures
        r.dir@ == trim(split_first_line(out@).0),
        lists_entries_of(split_first_line(out@).1, entry_views(r.entries@)),
{
    let v = chars_of(out);
    let n = v.len();
    let i = find_char_from(&v, '\n', 0);
    assert(v@.subrange(0, n as int) =~= v@);
    if i < n {
        let first = slice_chars(&v, 0, i);
        let rest = slice_chars(&v, i + 1, n);
        let dir = trim_chars(&first);
        Listing { dir: string_of(&dir), entries: parse_find_chars(&rest) }
    } else {
        let dir = trim_chars(&v);
        let none: Vec<char> = Vec::new();
        assert(none@ =~= split_first_line(out@).1);
        Listing { dir: string_of(&dir), entries: parse_find_chars(&none) }
    }
}

/// `dir` and `name` joined by one `/` (none is added when `dir` ends with one).
pub open spec fn join_path_of(dir: Seq<char>, name: Seq<char>) -> Seq<char> {
    if dir.len() > 0 && dir.last() == '/' {
        dir + name
    } else {
        dir + seq!['/'] + name
    }
}

/// The absolute path of entry `name` in directory `dir`.
pub fn join_path(dir: &str, name: &str) -> (r: String)
    ensures
        r@ == join_path_of(dir@, name@),
{
    let mut v = chars_of(dir);
    if !(v.len() > 0 && v[v.len() - 1] == '/') {
        v.push('/');
    }
    push_str(&mut v, name);
    string_of(&v)
}

} // verus!
