//! The `Host` aliases of an OpenSSH client configuration (`~/.ssh/config`).
//!
//! Only lists the aliases for the user to pick: no `Include`/`Match`
//! expansion and no wildcard matching. The alias itself is what gets
//! connected to; ssh interprets `HostName`/`User`/`Port`/`ProxyJump` on its
//! own, so the values read here serve display only.
use vstd::prelude::*;

use crate::text::{
    ascii_lower_seq, chars_eq_str, chars_of, crlf, crlf_has_the_same_lines, is_whitespace, is_ws,
    lemma_crlf_append, lines, lines_of, lower_chars, parse_uint_chars, parse_uint_text, slice_chars, string_of, trim, trim_chars, trim_start, views,
};

verus! {

/// A literal `Host` alias and what its block says about it.
#[derive(Debug, Clone, PartialEq, Eq)]
pub struct SshHostAlias {
    pub alias: String,
    pub host_name: Option<String>,
    pub user: Option<String>,
    pub port: Option<u16>,
    pub proxy_jump: Option<String>,
}

/// The content of an `SshHostAlias`.
pub struct AliasView {
    pub alias: Seq<char>,
    pub host_name: Option<Seq<char>>,
    pub user: Option<Seq<char>>,
    pub port: Option<u16>,
    pub proxy_jump: Option<Seq<char>>,
}

/// The text of an optional string.
pub open spec fn opt_text(o: Option<String>) -> Option<Seq<char>> {
    match o {
        Some(s) => Some(s@),
        None => None,
    }
}

impl View for SshHostAlias {
    type V = AliasView;

    open spec fn view(&self) -> AliasView {
        AliasView {
            alias: self.alias@,
            host_name: opt_text(self.host_name),
            user: opt_text(self.user),
            port: self.port,
            proxy_jump: opt_text(self.proxy_jump),
        }
    }
}

/// The contents of a list of aliases.
pub open spec fn alias_views(v: Seq<SshHostAlias>) -> Seq<AliasView> {
    v.map_values(|h: SshHostAlias| h@)
}

// ---------------------------------------------------------------------------
// Words (`str::split_whitespace`)
// ---------------------------------------------------------------------------

/// Index of the first whitespace character of `s`, or `s.len()`.
pub open spec fn find_ws(s: Seq<char>) -> nat
    decreases s.len(),
{
    if s.len() == 0 {
        0
    } else if is_ws(s[0]) {
        0
    } else {
        1 + find_ws(s.drop_first())
    }
}

/// `find_ws(s)` is the position of the first whitespace character of `s`,
/// or its length when it has none.
pub proof fn lemma_find_ws(s: Seq<char>)
    ensures
        find_ws(s) <= s.len(),
        find_ws(s) < s.len() ==> is_ws(s[find_ws(s) as int]),
        forall|k: int| 0 <= k < find_ws(s) ==> !is_ws(s[k]),
    decreases s.len(),
{
    if s.len() > 0 && !is_ws(s[0]) {
        lemma_find_ws(s.drop_first());
        assert forall|k: int| 0 <= k < find_ws(s) implies !is_ws(s[k]) by {
            if k > 0 {
                assert(s[k] == s.drop_first()[k - 1]);
            }
        }
    }
}

proof fn lemma_find_ws_is(s: Seq<char>, i: int)
    requires
        0 <= i <= s.len(),
        i < s.len() ==> is_ws(s[i]),
        forall|k: int| 0 <= k < i ==> !is_ws(s[k]),
    ensures
        find_ws(s) == i,
{
    lemma_find_ws(s);
    let f = find_ws(s) as int;
    if f < i {
        assert(!is_ws(s[f]));
    } else if i < f {
        assert(!is_ws(s[i]));
    }
}

/// The whitespace-separated words of `s`, none of them empty.
pub open spec fn words(s: Seq<char>) -> Seq<Seq<char>>
    decreases s.len(),
{
    if s.len() == 0 {
        seq![]
    } else if is_ws(s[0]) {
        words(s.drop_first())
    } else {
        let i = find_ws(s);
        proof {
            lemma_find_ws(s);
        }
        seq![s.subrange(0, i as int)] + words(s.subrange(i as int, s.len() as int))
    }
}

/// The whitespace-separated words of `s`.
pub fn words_of(s: &[char]) -> (r: Vec<Vec<char>>)
    ensures
        views(r@) == words(s@),
{
    let mut r: Vec<Vec<char>> = Vec::new();
    let n = s.len();
    let mut i: usize = 0;
    assert(s@.subrange(0, n as int) =~= s@);
    while i < n
        invariant
            i <= n == s@.len(),
            views(r@) + words(s@.subrange(i as int, n as int)) == words(s@),
        decreases n - i,
    {
        let ghost t = s@.subrange(i as int, n as int);
        if is_whitespace(s[i]) {
            assert(t.drop_first() =~= s@.subrange(i + 1, n as int));
            i = i + 1;
        } else {
            let mut j = i + 1;
            while j < n && !is_whitespace(s[j])
                invariant
                    i < j <= n == s@.len(),
                    forall|k: int| i <= k < j ==> !is_ws(s@[k]),
                decreases n - j,
            {
                j = j + 1;
            }
            proof {
                lemma_find_ws_is(t, j - i);
                assert(t.subrange(0, j - i) =~= s@.subrange(i as int, j as int));
                assert(t.subrange(j - i, t.len() as int) =~= s@.subrange(j as int, n as int));
            }
            let w = slice_chars(s, i, j);
            let ghost before = views(r@);
            let ghost wv = w@;
            r.push(w);
            assert(views(r@) =~= before.push(wv));
            assert(views(r@) + words(s@.subrange(j as int, n as int)) =~= words(s@));
            i = j;
        }
    }
    assert(words(s@.subrange(n as int, n as int)) =~= seq![]);
    assert(views(r@) =~= words(s@));
    r
}

// ---------------------------------------------------------------------------
// One line: keyword and value
// ---------------------------------------------------------------------------

/// Whether `c` ends a keyword: whitespace or `=`.
pub open spec fn is_kw_sep(c: char) -> bool {
    is_ws(c) || c == '='
}

/// Index of the first keyword separator of `s`, or `s.len()`.
pub open spec fn find_kw_sep(s: Seq<char>) -> nat
    decreases s.len(),
{
    if s.len() == 0 {
        0
    } else if is_kw_sep(s[0]) {
        0
    } else {
        1 + find_kw_sep(s.drop_first())
    }
}

proof fn lemma_find_kw_sep_is(s: Seq<char>, i: int)
    requires
        0 <= i <= s.len(),
        i < s.len() ==> is_kw_sep(s[i]),
        forall|k: int| 0 <= k < i ==> !is_kw_sep(s[k]),
    ensures
        find_kw_sep(s) == i,
    decreases s.len(),
{
    if s.len() > 0 && !is_kw_sep(s[0]) {
        assert forall|k: int| 0 <= k < i - 1 implies !is_kw_sep(s.drop_first()[k]) by {
            assert(s.drop_first()[k] == s[k + 1]);
        }
        lemma_find_kw_sep_is(s.drop_first(), i - 1);
    }
}

/// `s` without one leading `=`.
pub open spec fn strip_eq(s: Seq<char>) -> Seq<char> {
    if s.len() > 0 && s[0] == '=' {
        s.drop_first()
    } else {
        s
    }
}

/// Splits a configuration line into its keyword and its value: the keyword
/// ends at the first whitespace or `=`; the value is the rest, with the
/// separating whitespace and one `=` removed, trimmed. `None` when the line
/// has no separator.
pub open spec fn split_keyword(line: Seq<char>) -> Option<(Seq<char>, Seq<char>)> {
    let i = find_kw_sep(line);
    if i >= line.len() {
        None
    } else {
        Some(
            (
                line.subrange(0, i as int),
                trim(strip_eq(trim_start(line.subrange(i as int, line.len() as int)))),
            ),
        )
    }
}

proof fn lemma_trim_start_is(s: Seq<char>, i: int)
    requires
        0 <= i <= s.len(),
        i < s.len() ==> !is_ws(s[i]),
        forall|k: int| 0 <= k < i ==> is_ws(s[k]),
    ensures
        trim_start(s) == s.subrange(i, s.len() as int),
    decreases s.len(),
{
    if i == 0 {
        assert(s.subrange(0, s.len() as int) =~= s);
    } else {
        assert forall|k: int| 0 <= k < i - 1 implies is_ws(s.drop_first()[k]) by {
            assert(s.drop_first()[k] == s[k + 1]);
        }
        lemma_trim_start_is(s.drop_first(), i - 1);
        assert(s.drop_first().subrange(i - 1, s.len() - 1) =~= s.subrange(i, s.len() as int));
    }
}

fn split_keyword_exec(line: &[char]) -> (r: Option<(Vec<char>, Vec<char>)>)
    ensures
        match r {
            Some((k, v)) => split_keyword(line@) == Some((k@, v@)),
            None => split_keyword(line@) is None,
        },
{
    let n = line.len();
    let mut i: usize = 0;
    while i < n && !(is_whitespace(line[i]) || line[i] == '=')
        invariant
            i <= n == line@.len(),
            forall|k: int| 0 <= k < i ==> !is_kw_sep(line@[k]),
        decreases n - i,
    {
        i = i + 1;
    }
    proof {
        lemma_find_kw_sep_is(line@, i as int);
    }
    if i >= n {
        return None;
    }
    let keyword = slice_chars(line, 0, i);
    let mut j = i;
    while j < n && is_whitespace(line[j])
        invariant
            i <= j <= n == line@.len(),
            forall|k: int| i <= k < j ==> is_ws(line@[k]),
        decreases n - j,
    {
        j = j + 1;
    }
    let ghost rest0 = line@.subrange(i as int, n as int);
    proof {
        lemma_trim_start_is(rest0, j - i);
        assert(rest0.subrange(j - i, rest0.len() as int) =~= line@.subrange(j as int, n as int));
    }
    let mut k = j;
    if k < n && line[k] == '=' {
        k = k + 1;
    }
    let ghost rest1 = line@.subrange(j as int, n as int);
    assert(strip_eq(rest1) =~= line@.subrange(k as int, n as int));
    let tail = slice_chars(line, k, n);
    let value = trim_chars(&tail);
    Some((keyword, value))
}

/// A pattern that names one host: not empty, and without `*`, `?` or `!`.
pub open spec fn is_literal_alias(p: Seq<char>) -> bool {
    p.len() > 0 && !p.contains('*') && !p.contains('?') && !p.contains('!')
}

fn is_literal_alias_exec(p: &[char]) -> (r: bool)
    ensures
        r == is_literal_alias(p@),
{
    if p.len() == 0 {
        return false;
    }
    let mut i: usize = 0;
    while i < p.len()
        invariant
            i <= p@.len(),
            forall|k: int| 0 <= k < i ==> p@[k] != '*' && p@[k] != '?' && p@[k] != '!',
        decreases p@.len() - i,
    {
        let c = p[i];
        if c == '*' || c == '?' || c == '!' {
            assert(p@.contains(c));
            return false;
        }
        i = i + 1;
    }
    true
}

// ---------------------------------------------------------------------------
// The parse, one line at a time
// ---------------------------------------------------------------------------

/// The aliases found so far, and the indices (into them) of the aliases that
/// the current `Host` block names.
pub struct ParseState {
    pub out: Seq<AliasView>,
    pub section: Seq<int>,
}

/// Index of the first alias named `p`, or `out.len()`.
pub open spec fn position_of(out: Seq<AliasView>, p: Seq<char>) -> int
    decreases out.len(),
{
    if out.len() == 0 {
        0
    } else if position_of(out.drop_last(), p) < out.len() - 1 {
        position_of(out.drop_last(), p)
    } else if out.last().alias == p {
        out.len() - 1
    } else {
        out.len() as int
    }
}

proof fn lemma_position_of(out: Seq<AliasView>, p: Seq<char>, j: int)
    requires
        0 <= j <= out.len(),
        j < out.len() ==> out[j].alias == p,
        forall|k: int| 0 <= k < j ==> out[k].alias != p,
    ensures
        position_of(out, p) == j,
    decreases out.len(),
{
    if out.len() > 0 {
        let d = out.drop_last();
        if j < out.len() - 1 {
            lemma_position_of(d, p, j);
        } else {
            assert forall|k: int| 0 <= k < d.len() implies d[k].alias != p by {
                assert(d[k] == out[k]);
            }
            lemma_position_of(d, p, d.len() as int);
        }
    }
}

/// A fresh alias with nothing known about it.
pub open spec fn new_alias(p: Seq<char>) -> AliasView {
    AliasView { alias: p, host_name: None, user: None, port: None, proxy_jump: None }
}

/// Adds the literal aliases among `pats`, in order, to `out` (each at most
/// once overall), and lists the index of each in the section.
pub open spec fn add_patterns(out: Seq<AliasView>, section: Seq<int>, pats: Seq<Seq<char>>) -> (
    Seq<AliasView>,
    Seq<int>,
)
    decreases pats.len(),
{
    if pats.len() == 0 {
        (out, section)
    } else {
        let (o, s) = add_patterns(out, section, pats.drop_last());
        let p = pats.last();
        if !is_literal_alias(p) {
            (o, s)
        } else {
            let j = position_of(o, p);
            if j < o.len() {
                (o, s.push(j))
            } else {
                (o.push(new_alias(p)), s.push(o.len() as int))
            }
        }
    }
}

/// Which option of an alias a keyword sets.
pub enum Field {
    HostName,
    User,
    ProxyJump,
}

/// The value of option `f` of `a`.
pub open spec fn field_of(a: AliasView, f: Field) -> Option<Seq<char>> {
    match f {
        Field::HostName => a.host_name,
        Field::User => a.user,
        Field::ProxyJump => a.proxy_jump,
    }
}

/// `a` with option `f` set to `v`.
pub open spec fn with_field(a: AliasView, f: Field, v: Seq<char>) -> AliasView {
    match f {
        Field::HostName => AliasView { host_name: Some(v), ..a },
        Field::User => AliasView { user: Some(v), ..a },
        Field::ProxyJump => AliasView { proxy_jump: Some(v), ..a },
    }
}

/// Sets option `f` to `v` on every alias of the section that has no value
/// for it yet (the first value wins, as in ssh).
pub open spec fn fill_field(out: Seq<AliasView>, section: Seq<int>, f: Field, v: Seq<char>) -> Seq<
    AliasView,
> {
    Seq::new(
        out.len(),
        |j: int|
            if section.contains(j) && field_of(out[j], f) is None {
                with_field(out[j], f, v)
            } else {
                out[j]
            },
    )
}

/// Sets the port to `p` on every alias of the section that has none yet.
pub open spec fn fill_port(out: Seq<AliasView>, section: Seq<int>, p: u16) -> Seq<AliasView> {
    Seq::new(
        out.len(),
        |j: int|
            if section.contains(j) && out[j].port is None {
                AliasView { port: Some(p), ..out[j] }
            } else {
                out[j]
            },
    )
}

/// `st` after a line whose keyword (in lower case) sets option `f` to `value`.
pub open spec fn apply_field(st: ParseState, f: Field, value: Seq<char>) -> ParseState {
    if value.len() == 0 {
        st
    } else {
        ParseState { out: fill_field(st.out, st.section, f, value), section: st.section }
    }
}

/// The parse state after one raw line. Blank lines and lines that start
/// with `#` are skipped, as are lines without a separator. `Host` starts a
/// new section of the literal aliases it names; `Match` ends the section;
/// `HostName`, `User`, `ProxyJump` and `Port` (a valid `u16`) set their
/// option on the section's aliases. Keywords are compared without ASCII case;
/// every other keyword is ignored.
pub open spec fn apply_line(st: ParseState, raw: Seq<char>) -> ParseState {
    let line = trim(raw);
    if line.len() == 0 || line[0] == '#' {
        st
    } else {
        match split_keyword(line) {
            None => st,
            Some((kw, value)) => {
                let k = ascii_lower_seq(kw);
                if k == "host"@ {
                    let (o, s) = add_patterns(st.out, seq![], words(value));
                    ParseState { out: o, section: s }
                } else if k == "match"@ {
                    ParseState { out: st.out, section: seq![] }
                } else if k == "hostname"@ {
                    apply_field(st, Field::HostName, value)
                } else if k == "user"@ {
                    apply_field(st, Field::User, value)
                } else if k == "proxyjump"@ {
                    apply_field(st, Field::ProxyJump, value)
                } else if k == "port"@ {
                    match parse_uint_text(value, 65535) {
                        None => st,
                        Some(p) => ParseState {
                            out: fill_port(st.out, st.section, p as u16),
                            section: st.section,
                        },
                    }
                } else {
                    st
                }
            },
        }
    }
}

/// The parse state after the lines `ls`, in order.
pub open spec fn parse_lines(ls: Seq<Seq<char>>) -> ParseState
    decreases ls.len(),
{
    if ls.len() == 0 {
        ParseState { out: seq![], section: seq![] }
    } else {
        apply_line(parse_lines(ls.drop_last()), ls.last())
    }
}

/// `text` without a leading UTF-8 byte order mark.
pub open spec fn strip_bom(text: Seq<char>) -> Seq<char> {
    if text.len() > 0 && text[0] == '\u{feff}' {
        text.drop_first()
    } else {
        text
    }
}

/// The literal `Host` aliases of an ssh client configuration, in order of
/// first appearance, each with the options its blocks set first.
pub open spec fn ssh_config_aliases(text: Seq<char>) -> Seq<AliasView> {
    parse_lines(lines(strip_bom(text))).out
}

/// The section indices of the exec state.
pub open spec fn section_ints(section: Seq<usize>) -> Seq<int> {
    section.map_values(|x: usize| x as int)
}

fn find_alias(out: &Vec<SshHostAlias>, p: &[char]) -> (j: usize)
    ensures
        j == position_of(alias_views(out@), p@),
{
    let ghost ov = alias_views(out@);
    let mut j: usize = 0;
    while j < out.len()
        invariant
            j <= out@.len(),
            ov == alias_views(out@),
            forall|k: int| 0 <= k < j ==> ov[k].alias != p@,
        decreases out@.len() - j,
    {
        let a = chars_of(out[j].alias.as_str());
        if crate::text::chars_eq(&a, p) {
            proof {
                lemma_position_of(ov, p@, j as int);
            }
            return j;
        }
        j = j + 1;
    }
    proof {
        lemma_position_of(ov, p@, j as int);
    }
    j
}

fn add_patterns_exec(out: &mut Vec<SshHostAlias>, section: &mut Vec<usize>, pats: &Vec<Vec<char>>)
    requires
        forall|i: int| 0 <= i < old(section)@.len() ==> old(section)@[i] < old(out)@.len(),
    ensures
        (alias_views(final(out)@), section_ints(final(section)@)) == add_patterns(
            alias_views(old(out)@),
            section_ints(old(section)@),
            views(pats@),
        ),
        forall|i: int| 0 <= i < final(section)@.len() ==> final(section)@[i] < final(out)@.len(),
{
    let ghost o0 = alias_views(out@);
    let ghost s0 = section_ints(section@);
    let mut i: usize = 0;
    assert(views(pats@).subrange(0, 0) =~= Seq::<Seq<char>>::empty());
    while i < pats.len()
        invariant
            i <= pats@.len(),
            (alias_views(out@), section_ints(section@)) == add_patterns(
                o0,
                s0,
                views(pats@).subrange(0, i as int),
            ),
            forall|k: int| 0 <= k < section@.len() ==> section@[k] < out@.len(),
        decreases pats@.len() - i,
    {
        let p = &pats[i];
        let ghost sub = views(pats@).subrange(0, i + 1);
        assert(sub.drop_last() =~= views(pats@).subrange(0, i as int));
        assert(sub.last() == p@);
        if is_literal_alias_exec(p) {
            let j = find_alias(out, p);
            if j < out.len() {
                let ghost sb = section_ints(section@);
                section.push(j);
                assert(section_ints(section@) =~= sb.push(j as int));
            } else {
                let ghost ob = alias_views(out@);
                let ghost sb = section_ints(section@);
                let n = out.len();
                out.push(
                    SshHostAlias {
                        alias: string_of(p),
                        host_name: None,
                        user: None,
                        port: None,
                        proxy_jump: None,
                    },
                );
                section.push(n);
                assert(alias_views(out@) =~= ob.push(new_alias(p@)));
                assert(section_ints(section@) =~= sb.push(n as int));
            }
        }
        i = i + 1;
    }
    assert(views(pats@).subrange(0, pats@.len() as int) =~= views(pats@));
}

proof fn lemma_push_contains(s: Seq<int>, x: int, k: int)
    ensures
        s.push(x).contains(k) == (s.contains(k) || k == x),
{
    if s.contains(k) {
        let i = choose|i: int| 0 <= i < s.len() && s[i] == k;
        assert(s.push(x)[i] == k);
    }
    if k == x {
        assert(s.push(x)[s.len() as int] == x);
    }
    if s.push(x).contains(k) {
        let i = choose|i: int| 0 <= i < s.push(x).len() && s.push(x)[i] == k;
        if i < s.len() {
            assert(s[i] == k);
        }
    }
}

fn field_is_none(a: &SshHostAlias, f: &Field) -> (r: bool)
    ensures
        r == (field_of(a@, *f) is None),
{
    match f {
        Field::HostName => a.host_name.is_none(),
        Field::User => a.user.is_none(),
        Field::ProxyJump => a.proxy_jump.is_none(),
    }
}

fn set_field(out: &mut Vec<SshHostAlias>, j: usize, f: &Field, v: &[char])
    requires
        j < old(out)@.len(),
    ensures
        alias_views(final(out)@) == alias_views(old(out)@).update(
            j as int,
            with_field(alias_views(old(out)@)[j as int], *f, v@),
        ),
{
    let ghost before = alias_views(out@);
    let mut a = out.remove(j);
    let s = string_of(v);
    match f {
        Field::HostName => a.host_name = Some(s),
        Field::User => a.user = Some(s),
        Field::ProxyJump => a.proxy_jump = Some(s),
    }
    out.insert(j, a);
    assert(alias_views(out@) =~= before.update(j as int, with_field(before[j as int], *f, v@)));
}

fn fill_field_exec(out: &mut Vec<SshHostAlias>, section: &Vec<usize>, f: Field, v: &[char])
    requires
        forall|i: int| 0 <= i < section@.len() ==> section@[i] < old(out)@.len(),
    ensures
        alias_views(final(out)@) == fill_field(
            alias_views(old(out)@),
            section_ints(section@),
            f,
            v@,
        ),
        final(out)@.len() == old(out)@.len(),
{
    let ghost o0 = alias_views(out@);
    let mut m: usize = 0;
    while m < section.len()
        invariant
            m <= section@.len(),
            out@.len() == o0.len(),
            forall|i: int| 0 <= i < section@.len() ==> section@[i] < o0.len(),
            alias_views(out@) == fill_field(
                o0,
                section_ints(section@).subrange(0, m as int),
                f,
                v@,
            ),
        decreases section@.len() - m,
    {
        let j = section[m];
        let ghost sm = section_ints(section@).subrange(0, m as int);
        let ghost sm1 = section_ints(section@).subrange(0, m + 1);
        assert(sm1 =~= sm.push(j as int));
        if field_is_none(&out[j], &f) {
            assert(!sm.contains(j as int)) by {
                if sm.contains(j as int) {
                    assert(field_of(fill_field(o0, sm, f, v@)[j as int], f) is Some);
                }
            }
            let ghost before = alias_views(out@);
            assert(before[j as int] == o0[j as int]);
            set_field(out, j, &f, v);
            assert forall|k: int| 0 <= k < o0.len() implies alias_views(out@)[k] == fill_field(
                o0,
                sm1,
                f,
                v@,
            )[k] by {
                lemma_push_contains(sm, j as int, k);
                if k != j {
                    assert(alias_views(out@)[k] == before[k]);
                }
            }
            assert(alias_views(out@) =~= fill_field(o0, sm1, f, v@));
        } else {
            assert(alias_views(out@) =~= fill_field(o0, sm1, f, v@)) by {
                assert forall|k: int| 0 <= k < o0.len() implies alias_views(out@)[k] == fill_field(
                    o0,
                    sm1,
                    f,
                    v@,
                )[k] by {
                    if k == j {
                        if !sm.contains(k) {
                            assert(field_of(o0[k], f) is Some);
                        }
                    }
                }
            }
        }
        m = m + 1;
    }
    assert(section_ints(section@).subrange(0, section@.len() as int) =~= section_ints(section@));
}

fn fill_port_exec(out: &mut Vec<SshHostAlias>, section: &Vec<usize>, p: u16)
    requires
        forall|i: int| 0 <= i < section@.len() ==> section@[i] < old(out)@.len(),
    ensures
        alias_views(final(out)@) == fill_port(alias_views(old(out)@), section_ints(section@), p),
        final(out)@.len() == old(out)@.len(),
{
    let ghost o0 = alias_views(out@);
    let mut m: usize = 0;
    while m < section.len()
        invariant
            m <= section@.len(),
            out@.len() == o0.len(),
            forall|i: int| 0 <= i < section@.len() ==> section@[i] < o0.len(),
            alias_views(out@) == fill_port(o0, section_ints(section@).subrange(0, m as int), p),
        decreases section@.len() - m,
    {
        let j = section[m];
        let ghost sm = section_ints(section@).subrange(0, m as int);
        let ghost sm1 = section_ints(section@).subrange(0, m + 1);
        assert(sm1 =~= sm.push(j as int));
        if out[j].port.is_none() {
            assert(!sm.contains(j as int)) by {
                if sm.contains(j as int) {
                    assert(fill_port(o0, sm, p)[j as int].port is Some);
                }
            }
            let ghost before = alias_views(out@);
            assert(before[j as int] == o0[j as int]);
            let mut a = out.remove(j);
            a.port = Some(p);
            out.insert(j, a);
            assert forall|k: int| 0 <= k < o0.len() implies alias_views(out@)[k] == fill_port(
                o0,
                sm1,
                p,
            )[k] by {
                lemma_push_contains(sm, j as int, k);
                if k != j {
                    assert(alias_views(out@)[k] == before[k]);
                }
            }
            assert(alias_views(out@) =~= fill_port(o0, sm1, p));
        } else {
            assert(alias_views(out@) =~= fill_port(o0, sm1, p)) by {
                assert forall|k: int| 0 <= k < o0.len() implies alias_views(out@)[k] == fill_port(
                    o0,
                    sm1,
                    p,
                )[k] by {
                    if k == j {
                        if !sm.contains(k) {
                            assert(o0[k].port is Some);
                        }
                    }
                }
            }
        }
        m = m + 1;
    }
    assert(section_ints(section@).subrange(0, section@.len() as int) =~= section_ints(section@));
}

fn apply_line_exec(out: &mut Vec<SshHostAlias>, section: &mut Vec<usize>, raw: &[char])
    requires
        forall|i: int| 0 <= i < old(section)@.len() ==> old(section)@[i] < old(out)@.len(),
    ensures
        ({
            let st = apply_line(
                ParseState { out: alias_views(old(out)@), section: section_ints(old(section)@) },
                raw@,
            );
            alias_views(final(out)@) == st.out && section_ints(final(section)@) == st.section
        }),
        forall|i: int| 0 <= i < final(section)@.len() ==> final(section)@[i] < final(out)@.len(),
{
    let line = trim_chars(raw);
    if line.len() == 0 || line[0] == '#' {
        return ;
    }
    let split = split_keyword_exec(&line);
    match split {
        None => {},
        Some((kw, value)) => {
            let k = lower_chars(&kw);
            if chars_eq_str(&k, "host") {
                section.clear();
                let pats = words_of(&value);
                assert(section_ints(section@) =~= Seq::<int>::empty());
                add_patterns_exec(out, section, &pats);
            } else if chars_eq_str(&k, "match") {
                section.clear();
                assert(section_ints(section@) =~= Seq::<int>::empty());
            } else if chars_eq_str(&k, "hostname") {
                if value.len() > 0 {
                    fill_field_exec(out, section, Field::HostName, &value);
                }
            } else if chars_eq_str(&k, "user") {
                if value.len() > 0 {
                    fill_field_exec(out, section, Field::User, &value);
                }
            } else if chars_eq_str(&k, "proxyjump") {
                if value.len() > 0 {
                    fill_field_exec(out, section, Field::ProxyJump, &value);
                }
            } else if chars_eq_str(&k, "port") {
                match parse_uint_chars(&value, 65535) {
                    None => {},
                    Some(p) => {
                        fill_port_exec(out, section, p as u16);
                    },
                }
            }
        },
    }
}

/// The literal `Host` aliases of an OpenSSH client configuration, in order of
/// first appearance (see `ssh_config_aliases`).
pub fn parse_ssh_config(text: &str) -> (r: Vec<SshHostAlias>)
    ensures
        alias_views(r@) == ssh_config_aliases(text@),
{
    let all = chars_of(text);
    let body = if all.len() > 0 && all[0] == '\u{feff}' {
        slice_chars(&all, 1, all.len())
    } else {
        all
    };
    assert(body@ =~= strip_bom(text@));
    let ls = lines_of(&body);
    let ghost lv = views(ls@);
    let mut out: Vec<SshHostAlias> = Vec::new();
    let mut section: Vec<usize> = Vec::new();
    let mut i: usize = 0;
    assert(lv.subrange(0, 0) =~= Seq::<Seq<char>>::empty());
    assert(alias_views(out@) =~= Seq::<AliasView>::empty());
    assert(section_ints(section@) =~= Seq::<int>::empty());
    while i < ls.len()
        invariant
            i <= ls@.len(),
            lv == views(ls@),
            lv == lines(strip_bom(text@)),
            alias_views(out@) == parse_lines(lv.subrange(0, i as int)).out,
            section_ints(section@) == parse_lines(lv.subrange(0, i as int)).section,
            forall|k: int| 0 <= k < section@.len() ==> section@[k] < out@.len(),
        decreases ls@.len() - i,
    {
        let ghost sub = lv.subrange(0, i + 1);
        assert(sub.drop_last() =~= lv.subrange(0, i as int));
        apply_line_exec(&mut out, &mut section, &ls[i]);
        i = i + 1;
    }
    assert(lv.subrange(0, ls@.len() as int) =~= lv);
    out
}

// ---------------------------------------------------------------------------
// What every parse result satisfies
// ---------------------------------------------------------------------------

/// No alias appears twice, and each is literal.
pub open spec fn distinct_literal_aliases(out: Seq<AliasView>) -> bool {
    &&& forall|i: int, j: int|
        0 <= i < j < out.len() ==> (#[trigger] out[i]).alias != (#[trigger] out[j]).alias
    &&& forall|i: int| 0 <= i < out.len() ==> is_literal_alias(#[trigger] out[i].alias)
}

/// The parse state is consistent: distinct literal aliases, and a section
/// that only points at them.
pub open spec fn state_ok(out: Seq<AliasView>, section: Seq<int>) -> bool {
    &&& distinct_literal_aliases(out)
    &&& forall|i: int| 0 <= i < section.len() ==> 0 <= #[trigger] section[i] < out.len()
}

proof fn lemma_position_props(out: Seq<AliasView>, p: Seq<char>)
    ensures
        0 <= position_of(out, p) <= out.len(),
        position_of(out, p) < out.len() ==> out[position_of(out, p)].alias == p,
        forall|k: int| 0 <= k < position_of(out, p) ==> out[k].alias != p,
    decreases out.len(),
{
    if out.len() > 0 {
        let d = out.drop_last();
        lemma_position_props(d, p);
        assert forall|k: int| 0 <= k < position_of(out, p) implies out[k].alias != p by {
            if k < d.len() {
                assert(out[k] == d[k]);
            }
        }
        if position_of(d, p) < d.len() {
            assert(out[position_of(d, p)] == d[position_of(d, p)]);
        }
    }
}

proof fn lemma_push_in_range(s: Seq<int>, n: int, j: int)
    requires
        forall|i: int| 0 <= i < s.len() ==> 0 <= #[trigger] s[i] < n,
        0 <= j < n,
    ensures
        forall|i: int| 0 <= i < s.push(j).len() ==> 0 <= #[trigger] s.push(j)[i] < n,
{
    assert forall|i: int| 0 <= i < s.push(j).len() implies 0 <= #[trigger] s.push(j)[i] < n by {
        if i < s.len() {
            assert(s.push(j)[i] == s[i]);
        }
    }
}

proof fn lemma_add_patterns_ok(out: Seq<AliasView>, section: Seq<int>, pats: Seq<Seq<char>>)
    requires
        state_ok(out, section),
    ensures
        state_ok(add_patterns(out, section, pats).0, add_patterns(out, section, pats).1),
        add_patterns(out, section, pats).0.len() >= out.len(),
    decreases pats.len(),
{
    if pats.len() > 0 {
        lemma_add_patterns_ok(out, section, pats.drop_last());
        let (o, s) = add_patterns(out, section, pats.drop_last());
        assert(state_ok(o, s));
        let p = pats.last();
        if is_literal_alias(p) {
            lemma_position_props(o, p);
            let j = position_of(o, p);
            if j < o.len() {
                lemma_push_in_range(s, o.len() as int, j);
                assert(state_ok(o, s.push(j)));
            } else {
                let o2 = o.push(new_alias(p));
                let s2 = s.push(o.len() as int);
                assert forall|a: int, b: int| 0 <= a < b < o2.len() implies (
                #[trigger] o2[a]).alias != (#[trigger] o2[b]).alias by {
                    if b < o.len() {
                        assert(o2[a] == o[a] && o2[b] == o[b]);
                    } else {
                        assert(o2[a] == o[a]);
                        assert(o[a].alias != p);
                    }
                }
                assert forall|i: int| 0 <= i < o2.len() implies is_literal_alias(
                    #[trigger] o2[i].alias,
                ) by {
                    if i < o.len() {
                        assert(o2[i] == o[i]);
                    }
                }
                assert forall|i: int| 0 <= i < s2.len() implies 0 <= #[trigger] s2[i] < o2.len() by {
                    if i < s.len() {
                        assert(s2[i] == s[i]);
                        assert(0 <= s[i] < o.len());
                    }
                }
            }
        }
    }
}

proof fn lemma_fill_keeps_aliases(st: ParseState, f: Field, v: Seq<char>)
    requires
        state_ok(st.out, st.section),
    ensures
        state_ok(fill_field(st.out, st.section, f, v), st.section),
{
    let o = fill_field(st.out, st.section, f, v);
    assert forall|i: int| 0 <= i < o.len() implies (#[trigger] o[i]).alias == st.out[i].alias by {
        match f {
            Field::HostName => {},
            Field::User => {},
            Field::ProxyJump => {},
        }
    }
    assert forall|a: int, b: int| 0 <= a < b < o.len() implies (#[trigger] o[a]).alias != (
    #[trigger] o[b]).alias by {
        assert(o[a].alias == st.out[a].alias && o[b].alias == st.out[b].alias);
        assert(st.out[a].alias != st.out[b].alias);
    }
    assert forall|i: int| 0 <= i < o.len() implies is_literal_alias(#[trigger] o[i].alias) by {
        assert(o[i].alias == st.out[i].alias);
        assert(is_literal_alias(st.out[i].alias));
    }
}

proof fn lemma_fill_port_keeps_aliases(st: ParseState, p: u16)
    requires
        state_ok(st.out, st.section),
    ensures
        state_ok(fill_port(st.out, st.section, p), st.section),
{
    let o = fill_port(st.out, st.section, p);
    assert forall|a: int, b: int| 0 <= a < b < o.len() implies (#[trigger] o[a]).alias != (
    #[trigger] o[b]).alias by {
        assert(o[a].alias == st.out[a].alias && o[b].alias == st.out[b].alias);
        assert(st.out[a].alias != st.out[b].alias);
    }
    assert forall|i: int| 0 <= i < o.len() implies is_literal_alias(#[trigger] o[i].alias) by {
        assert(o[i].alias == st.out[i].alias);
        assert(is_literal_alias(st.out[i].alias));
    }
}

proof fn lemma_apply_line_ok(st: ParseState, raw: Seq<char>)
    requires
        state_ok(st.out, st.section),
    ensures
        state_ok(apply_line(st, raw).out, apply_line(st, raw).section),
{
    let line = trim(raw);
    if !(line.len() == 0 || line[0] == '#') {
        match split_keyword(line) {
            None => {},
            Some((kw, value)) => {
                let k = ascii_lower_seq(kw);
                if k == "host"@ {
                    assert(distinct_literal_aliases(st.out));
                    lemma_add_patterns_ok(st.out, seq![], words(value));
                } else if k == "match"@ {
                } else if k == "hostname"@ {
                    if value.len() > 0 {
                        lemma_fill_keeps_aliases(st, Field::HostName, value);
                    }
                } else if k == "user"@ {
                    if value.len() > 0 {
                        lemma_fill_keeps_aliases(st, Field::User, value);
                    }
                } else if k == "proxyjump"@ {
                    if value.len() > 0 {
                        lemma_fill_keeps_aliases(st, Field::ProxyJump, value);
                    }
                } else if k == "port"@ {
                    match parse_uint_text(value, 65535) {
                        None => {},
                        Some(p) => {
                            lemma_fill_port_keeps_aliases(st, p as u16);
                        },
                    }
                }
            },
        }
    }
}

proof fn lemma_parse_lines_ok(ls: Seq<Seq<char>>)
    ensures
        state_ok(parse_lines(ls).out, parse_lines(ls).section),
    decreases ls.len(),
{
    if ls.len() > 0 {
        lemma_parse_lines_ok(ls.drop_last());
        lemma_apply_line_ok(parse_lines(ls.drop_last()), ls.last());
    }
}

proof fn lemma_add_patterns_keeps(out: Seq<AliasView>, section: Seq<int>, pats: Seq<Seq<char>>)
    ensures
        add_patterns(out, section, pats).0.len() >= out.len(),
        forall|j: int| 0 <= j < out.len() ==> #[trigger] add_patterns(out, section, pats).0[j] == out[j],
    decreases pats.len(),
{
    if pats.len() > 0 {
        lemma_add_patterns_keeps(out, section, pats.drop_last());
        let (o, s) = add_patterns(out, section, pats.drop_last());
        assert forall|j: int| 0 <= j < out.len() implies #[trigger] add_patterns(out, section, pats).0[j]
            == out[j] by {
            assert(o[j] == out[j]);
            if is_literal_alias(pats.last()) && position_of(o, pats.last()) >= o.len() {
                assert(o.push(new_alias(pats.last()))[j] == o[j]);
            }
        }
    }
}

/// Each line keeps what the earlier lines established: aliases are only
/// ever added after the existing ones, an alias keeps its name, and an
/// option that an alias already has is never changed (the first value wins,
/// as in ssh).
pub proof fn first_values_win(st: ParseState, raw: Seq<char>, j: int)
    requires
        0 <= j < st.out.len(),
    ensures
        apply_line(st, raw).out.len() >= st.out.len(),
        apply_line(st, raw).out[j].alias == st.out[j].alias,
        st.out[j].host_name is Some ==> apply_line(st, raw).out[j].host_name
            == st.out[j].host_name,
        st.out[j].user is Some ==> apply_line(st, raw).out[j].user == st.out[j].user,
        st.out[j].port is Some ==> apply_line(st, raw).out[j].port == st.out[j].port,
        st.out[j].proxy_jump is Some ==> apply_line(st, raw).out[j].proxy_jump
            == st.out[j].proxy_jump,
{
    let line = trim(raw);
    if line.len() > 0 && line[0] != '#' {
        if let Some((kw, value)) = split_keyword(line) {
            if ascii_lower_seq(kw) == "host"@ {
                lemma_add_patterns_keeps(st.out, seq![], words(value));
            }
        }
    }
}

proof fn lemma_strip_bom_crlf(text: Seq<char>)
    ensures
        strip_bom(crlf(text)) == crlf(strip_bom(text)),
        !text.contains('\r') ==> !strip_bom(text).contains('\r'),
{
    if text.len() > 0 {
        let first = seq![text[0]];
        let rest = text.drop_first();
        assert(text =~= first + rest);
        lemma_crlf_append(first, rest);
        assert(first.drop_last() =~= Seq::<char>::empty());
        assert(crlf(first) =~= if text[0] == '\n' {
            seq!['\r', '\n']
        } else {
            first
        }) by {
            assert(crlf(first.drop_last()) =~= Seq::<char>::empty());
            assert(first.last() == text[0]);
        }
        assert(crlf(text)[0] == crlf(first)[0]);
        if text[0] == '\u{feff}' {
            assert(crlf(text).drop_first() =~= crlf(rest));
        }
        if !text.contains('\r') && strip_bom(text).contains('\r') {
            let k = choose|k: int| 0 <= k < strip_bom(text).len() && strip_bom(text)[k] == '\r';
            if text[0] == '\u{feff}' {
                assert(text[k + 1] == '\r');
            } else {
                assert(text[k] == '\r');
            }
        }
    }
}

/// Windows line endings make no difference: a configuration written with
/// `"\r\n"` lists the same aliases, with the same options, as the same text
/// written with `"\n"`.
pub proof fn crlf_parses_like_lf(text: Seq<char>)
    requires
        !text.contains('\r'),
    ensures
        ssh_config_aliases(crlf(text)) == ssh_config_aliases(text),
{
    lemma_strip_bom_crlf(text);
    crlf_has_the_same_lines(strip_bom(text));
}

proof fn lemma_position_of_found(out: Seq<AliasView>, p: Seq<char>)
    ensures
        0 <= position_of(out, p) <= out.len(),
        position_of(out, p) < out.len() ==> out[position_of(out, p)].alias == p,
    decreases out.len(),
{
    if out.len() > 0 {
        lemma_position_of_found(out.drop_last(), p);
    }
}

proof fn lemma_add_patterns_names(out: Seq<AliasView>, section: Seq<int>, pats: Seq<Seq<char>>)
    ensures
        add_patterns(out, section, pats).1.len() >= section.len(),
        add_patterns(out, section, pats).0.len() >= out.len(),
        forall|k: int|
            section.len() <= k < add_patterns(out, section, pats).1.len() ==> 0
                <= #[trigger] add_patterns(out, section, pats).1[k] < add_patterns(
                out,
                section,
                pats,
            ).0.len() && pats.contains(
                add_patterns(out, section, pats).0[add_patterns(out, section, pats).1[k]].alias,
            ),
    decreases pats.len(),
{
    if pats.len() > 0 {
        let init = pats.drop_last();
        lemma_add_patterns_names(out, section, init);
        let (o, sec) = add_patterns(out, section, init);
        let p = pats.last();
        let r = add_patterns(out, section, pats);
        assert forall|k: int| section.len() <= k < sec.len() implies pats.contains(
            o[sec[k]].alias,
        ) by {
            let a = o[sec[k]].alias;
            assert(init.contains(a));
            let m = choose|m: int| 0 <= m < init.len() && init[m] == a;
            assert(pats[m] == a);
        }
        if is_literal_alias(p) {
            lemma_position_of_found(o, p);
            assert(pats[pats.len() - 1] == p);
            let j = position_of(o, p);
            if j < o.len() {
                assert(r.1 =~= sec.push(j));
            } else {
                assert(r.1 =~= sec.push(o.len() as int));
                assert(r.0 =~= o.push(new_alias(p)));
                assert forall|k: int| section.len() <= k < sec.len() implies r.0[r.1[k]] == o[sec[k]] by {
                    assert(r.1[k] == sec[k]);
                }
            }
        }
    }
}

/// An option line (or any other line that is not `Host`) changes only the
/// aliases of the current block: an alias outside it keeps its host name,
/// user, port and proxy jump, and its name.
pub proof fn options_stay_in_their_block(st: ParseState, raw: Seq<char>, j: int)
    requires
        0 <= j < st.out.len(),
        !st.section.contains(j),
    ensures
        apply_line(st, raw).out[j] == st.out[j],
{
    let line = trim(raw);
    if line.len() > 0 && line[0] != '#' {
        if let Some((kw, value)) = split_keyword(line) {
            if ascii_lower_seq(kw) == "host"@ {
                lemma_add_patterns_keeps(st.out, seq![], words(value));
            }
        }
    }
}

/// After a `Host` line the current block is made of aliases that the line
/// names, and after a `Match` line there is no block: later option lines
/// reach no other alias.
pub proof fn blocks_are_what_host_lines_name(st: ParseState, raw: Seq<char>)
    requires
        trim(raw).len() > 0,
        trim(raw)[0] != '#',
        split_keyword(trim(raw)) is Some,
    ensures
        ascii_lower_seq((split_keyword(trim(raw))->0).0) == "host"@ ==> forall|k: int|
            0 <= k < apply_line(st, raw).section.len() ==> 0 <= #[trigger] apply_line(
                st,
                raw,
            ).section[k] < apply_line(st, raw).out.len() && words(
                (split_keyword(trim(raw))->0).1,
            ).contains(apply_line(st, raw).out[apply_line(st, raw).section[k]].alias),
        ascii_lower_seq((split_keyword(trim(raw))->0).0) == "match"@ ==> apply_line(
            st,
            raw,
        ).section.len() == 0,
{
    let (kw, value) = split_keyword(trim(raw))->0;
    reveal_strlit("match");
    reveal_strlit("host");
    assert("match"@ != "host"@) by {
        assert("match"@[0] != "host"@[0]);
    }
    if ascii_lower_seq(kw) == "host"@ {
        lemma_add_patterns_names(st.out, seq![], words(value));
    }
}

/// Whatever the configuration text, the aliases listed are literal host
/// names (no wildcard or negated pattern) and none is listed twice.
pub proof fn aliases_are_distinct_and_literal(text: Seq<char>)
    ensures
        distinct_literal_aliases(ssh_config_aliases(text)),
{
    lemma_parse_lines_ok(lines(strip_bom(text)));
}

} // verus!
