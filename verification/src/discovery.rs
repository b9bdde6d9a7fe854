//! Finding the configuration file: the first existing candidate wins, and
//! the first-run template.
use vstd::prelude::*;

use crate::command::push_string;
use crate::config::{config_errors, validate, Config};

verus! {

/// What the search over candidate configuration paths found.
#[derive(Debug, PartialEq, Eq)]
pub enum LoadOutcome {
    Loaded { path: String, config: Config },
    NotFound { searched: Vec<String> },
    Invalid { path: String, errors: Vec<String> },
}

/// The position of the first candidate that exists. The order decides: a
/// broken file that comes first is reported, never skipped in favour of a
/// later one.
pub open spec fn first_existing_index(exists: Seq<bool>) -> Option<int>
    decreases exists.len(),
{
    if exists.len() == 0 {
        None
    } else {
        match first_existing_index(exists.drop_last()) {
            Some(i) => Some(i),
            None => if exists.last() {
                Some(exists.len() - 1)
            } else {
                None
            },
        }
    }
}

proof fn lemma_first_existing(exists: Seq<bool>, i: int)
    requires
        0 <= i <= exists.len(),
        i < exists.len() ==> exists[i],
        forall|k: int| 0 <= k < i ==> !exists[k],
    ensures
        first_existing_index(exists) == if i < exists.len() {
            Some(i)
        } else {
            None::<int>
        },
    decreases exists.len(),
{
    if exists.len() > 0 {
        let d = exists.drop_last();
        if i < exists.len() - 1 {
            lemma_first_existing(d, i);
        } else {
            assert forall|k: int| 0 <= k < d.len() implies !d[k] by {
                assert(d[k] == exists[k]);
            }
            lemma_first_existing(d, d.len() as int);
        }
    }
}

/// Picks the candidate to load: the first one that exists.
pub fn first_existing(exists: &[bool]) -> (r: Option<usize>)
    ensures
        match r {
            Some(i) => first_existing_index(exists@) == Some(i as int),
            None => first_existing_index(exists@) is None,
        },
{
    let mut i: usize = 0;
    while i < exists.len()
        invariant
            i <= exists@.len(),
            forall|k: int| 0 <= k < i ==> !exists@[k],
        decreases exists@.len() - i,
    {
        if exists[i] {
            proof {
                lemma_first_existing(exists@, i as int);
            }
            return Some(i);
        }
        i = i + 1;
    }
    proof {
        lemma_first_existing(exists@, i as int);
    }
    None
}

/// The outcome for the chosen file `path`, given what reading and parsing it
/// gave: a parsed configuration that validates is loaded; one that does not
/// is invalid with its validation errors; a read or parse error is invalid
/// with that one message.
pub fn outcome_for_file(path: String, parsed: Result<Config, String>) -> (r: LoadOutcome)
    ensures
        match parsed {
            Ok(cfg) => if config_errors(cfg@).len() == 0 {
                r matches LoadOutcome::Loaded { path: p, config: c } && p@ == path@ && c == cfg
            } else {
                r matches LoadOutcome::Invalid { path: p, errors: e } && p@ == path@
                    && e.deep_view() == config_errors(cfg@)
            },
            Err(msg) => r matches LoadOutcome::Invalid { path: p, errors: e } && p@ == path@
                && e.deep_view() == seq![msg@],
        },
{
    match parsed {
        Ok(cfg) => match validate(&cfg) {
            Ok(()) => LoadOutcome::Loaded { path, config: cfg },
            Err(errors) => LoadOutcome::Invalid { path, errors },
        },
        Err(msg) => {
            let mut errors: Vec<String> = Vec::new();
            push_string(&mut errors, msg);
            LoadOutcome::Invalid { path, errors }
        },
    }
}

// ---------------------------------------------------------------------------
// Paths, compared component by component
// ---------------------------------------------------------------------------

/// A candidate path: its text, and its components as the platform's path
/// syntax splits it (`Path::components`, each component as text: on Windows
/// both `/` and `\` separate, and a drive prefix is a component of its own).
pub struct PathCandidate {
    pub text: String,
    pub components: Vec<String>,
}

/// The content of a `PathCandidate`.
pub struct PathCandidateView {
    pub text: Seq<char>,
    pub components: Seq<Seq<char>>,
}

impl View for PathCandidate {
    type V = PathCandidateView;

    open spec fn view(&self) -> PathCandidateView {
        PathCandidateView { text: self.text@, components: self.components.deep_view() }
    }
}

/// The contents of a list of candidates.
pub open spec fn candidate_views(v: Seq<PathCandidate>) -> Seq<PathCandidateView> {
    v.map_values(|c: PathCandidate| c@)
}

/// The texts of a list of candidates.
pub open spec fn candidate_texts(v: Seq<PathCandidateView>) -> Seq<Seq<char>> {
    v.map_values(|c: PathCandidateView| c.text)
}

/// Some candidate of `d` has the components of `p`: the two name the same
/// path, as paths compare.
pub open spec fn has_same_path(d: Seq<PathCandidateView>, p: PathCandidateView) -> bool {
    exists|k: int| 0 <= k < d.len() && d[k].components == p.components
}

/// `paths` without repeats, each kept where it first appears; two candidates
/// with the same components are repeats.
pub open spec fn dedup_first(paths: Seq<PathCandidateView>) -> Seq<PathCandidateView>
    decreases paths.len(),
{
    if paths.len() == 0 {
        seq![]
    } else {
        let d = dedup_first(paths.drop_last());
        if has_same_path(d, paths.last()) {
            d
        } else {
            d.push(paths.last())
        }
    }
}

fn same_components(a: &Vec<String>, b: &Vec<String>) -> (r: bool)
    ensures
        r == (a.deep_view() == b.deep_view()),
{
    let ghost va = a.deep_view();
    let ghost vb = b.deep_view();
    if a.len() != b.len() {
        assert(va.len() != vb.len());
        return false;
    }
    let mut k: usize = 0;
    while k < a.len()
        invariant
            k <= a@.len() == b@.len(),
            va == a.deep_view(),
            vb == b.deep_view(),
            forall|m: int| 0 <= m < k ==> va[m] == vb[m],
        decreases a@.len() - k,
    {
        assert(va[k as int] == a@[k as int]@ && vb[k as int] == b@[k as int]@);
        if a[k] != b[k] {
            assert(va[k as int] != vb[k as int]);
            return false;
        }
        k = k + 1;
    }
    assert(va =~= vb);
    true
}

/// Removes repeated paths, keeping the order of first appearance (the working
/// directory and the executable's directory are often the same): the texts
/// of the candidates, each kept unless an earlier one has the same
/// components.
pub fn unique_paths(paths: Vec<PathCandidate>) -> (r: Vec<String>)
    ensures
        r.deep_view() == candidate_texts(dedup_first(candidate_views(paths@))),
{
    let ghost pv = candidate_views(paths@);
    let mut kept: Vec<usize> = Vec::new();
    let mut unique: Vec<String> = Vec::new();
    let mut i: usize = 0;
    assert(pv.subrange(0, 0) =~= Seq::<PathCandidateView>::empty());
    assert(unique.deep_view() =~= candidate_texts(dedup_first(pv.subrange(0, 0))));
    while i < paths.len()
        invariant
            i <= paths@.len() == pv.len(),
            pv == candidate_views(paths@),
            kept@.len() == dedup_first(pv.subrange(0, i as int)).len(),
            forall|m: int|
                0 <= m < kept@.len() ==> #[trigger] kept@[m] < i && pv[kept@[m] as int]
                    == dedup_first(pv.subrange(0, i as int))[m],
            unique.deep_view() == candidate_texts(dedup_first(pv.subrange(0, i as int))),
        decreases paths@.len() - i,
    {
        let p = &paths[i];
        assert(pv[i as int] == p@);
        let ghost dv = dedup_first(pv.subrange(0, i as int));
        let mut seen = false;
        let mut k: usize = 0;
        while k < kept.len()
            invariant
                k <= kept@.len() == dv.len(),
                i < paths@.len() == pv.len(),
                pv == candidate_views(paths@),
                pv[i as int] == p@,
                forall|m: int|
                    0 <= m < kept@.len() ==> #[trigger] kept@[m] < i && pv[kept@[m] as int]
                        == dv[m],
                seen == (exists|m: int| 0 <= m < k && dv[m].components == p@.components),
            decreases kept@.len() - k,
        {
            let j = kept[k];
            assert(pv[j as int] == paths@[j as int]@);
            if same_components(&paths[j].components, &p.components) {
                seen = true;
            }
            k = k + 1;
        }
        let ghost sub = pv.subrange(0, i + 1);
        assert(sub.drop_last() =~= pv.subrange(0, i as int));
        assert(sub.last() == p@);
        if !seen {
            kept.push(i);
            push_string(&mut unique, p.text.clone());
            assert(candidate_texts(dv.push(p@)) =~= candidate_texts(dv).push(p@.text));
        }
        i = i + 1;
    }
    assert(pv.subrange(0, paths@.len() as int) =~= pv);
    unique
}

/// The first-run template. Its placeholders are not empty, so it passes
/// validation until the user puts real values in.
pub const EXAMPLE_CONFIG_JSON: &'static str = "{\n  \"hosts\": [\n    { \"name\": \"main\", \"host\": \"REPLACE_WITH_HOST\", \"user\": \"REPLACE_WITH_USER\" }\n  ],\n  \"agents\": [\n    { \"id\": \"hermes\", \"label\": \"Hermes Agent\", \"cmd\": \"REPLACE_WITH_HERMES_CMD\" },\n    { \"id\": \"harness\", \"label\": \"DeepSeek Harness\", \"cmd\": \"REPLACE_WITH_HARNESS_CMD\" }\n  ]\n}\n";

/// The JSON text of the first-run template.
pub fn example_config_json() -> (r: String)
    ensures
        r@ == EXAMPLE_CONFIG_JSON@,
{
    EXAMPLE_CONFIG_JSON.to_owned()
}

/// Deduplicated paths hold no two candidates with the same components, keep
/// only candidates of the input, and keep, for every input candidate, one
/// with its components.
pub proof fn unique_paths_are_unique(paths: Seq<PathCandidateView>)
    ensures
        forall|i: int, j: int|
            0 <= i < j < dedup_first(paths).len() ==> (#[trigger] dedup_first(paths)[i]).components
                != (#[trigger] dedup_first(paths)[j]).components,
        forall|p: PathCandidateView| #[trigger] dedup_first(paths).contains(p) ==> paths.contains(p),
        forall|p: PathCandidateView|
            paths.contains(p) ==> #[trigger] has_same_path(dedup_first(paths), p),
    decreases paths.len(),
{
    if paths.len() > 0 {
        let init = paths.drop_last();
        let d = dedup_first(init);
        unique_paths_are_unique(init);
        let last = paths.last();
        let r = dedup_first(paths);
        assert forall|p: PathCandidateView| #[trigger] r.contains(p) implies paths.contains(p) by {
            let k = choose|k: int| 0 <= k < r.len() && r[k] == p;
            if k < d.len() {
                assert(r[k] == d[k]);
                assert(d.contains(p));
                let m = choose|m: int| 0 <= m < init.len() && init[m] == p;
                assert(paths[m] == p);
            } else {
                assert(paths[paths.len() - 1] == p);
            }
        }
        assert forall|p: PathCandidateView| paths.contains(p) implies #[trigger] has_same_path(
            r,
            p,
        ) by {
            let k = choose|k: int| 0 <= k < paths.len() && paths[k] == p;
            if k < paths.len() - 1 {
                assert(init[k] == p);
                assert(init.contains(p));
                assert(has_same_path(d, p));
                let m = choose|m: int| 0 <= m < d.len() && d[m].components == p.components;
                if !has_same_path(d, last) {
                    assert(r[m] == d[m]);
                }
            } else if has_same_path(d, last) {
                let m = choose|m: int| 0 <= m < d.len() && d[m].components == last.components;
                assert(r[m] == d[m]);
            } else {
                assert(r[d.len() as int] == p);
            }
        }
        if !has_same_path(d, last) {
            assert forall|i: int, j: int| 0 <= i < j < r.len() implies (#[trigger] r[i]).components
                != (#[trigger] r[j]).components by {
                assert(r[i] == d[i]);
                if j < d.len() {
                    assert(r[j] == d[j]);
                } else {
                    assert(r[j] == last);
                }
            }
        }
    }
}

} // verus!
