//! Project discovery over a two-level, fire-and-forget host scan.
//!
//! The engine never walks the filesystem itself. It asks for listings (the
//! `scans` of a [`ScanPlan`]) and is later handed batches of entries, which it
//! attributes to its requests purely by the parent of each entry: a child of a
//! scan root is a candidate project and gets a listing of its own; an entry
//! whose parent awaits such a listing settles that parent, which is a project
//! if one of the marker files is among its entries.
use vstd::prelude::*;
use crate::lists::{
    append_new, contains_str, copy_strs, lemma_append_new, lemma_append_new_step, lemma_concat,
    lemma_drop_last_contains, lemma_push_contains, lemma_strs_push, push_new, strs,
};
use crate::path::{
    file_name, file_name_of, host_path, is_hidden, is_hidden_spec, parent, parent_of,
    to_host_path, to_user_path, user_path,
};

verus! {

/// One entry of a filesystem-update batch.
pub struct DirEntry {
    pub path: String,
    pub is_dir: bool,
}

impl View for DirEntry {
    type V = (Seq<char>, bool);

    open spec fn view(&self) -> (Seq<char>, bool) {
        (self.path@, self.is_dir)
    }
}

pub open spec fn entries(b: Seq<DirEntry>) -> Seq<(Seq<char>, bool)> {
    b.map_values(|e: DirEntry| e@)
}

/// What the caller is to do after a step of the engine: ask for a listing of
/// each of `scans`, and hand `publish`, when there is one, to the directory
/// list as its new source.
pub struct ScanPlan {
    pub scans: Vec<String>,
    pub publish: Option<Vec<String>>,
}

/// The engine as a value: the scan roots (host paths), the directories whose
/// listing is awaited, those whose listing came, the configured directories,
/// the projects found so far (user paths, in order of discovery), and which
/// settled directories showed a marker file.
pub struct DiscoveryState {
    pub cwd: Seq<char>,
    pub root_files: Seq<Seq<char>>,
    pub roots: Seq<Seq<char>>,
    pub pending: Seq<Seq<char>>,
    pub checked: Seq<Seq<char>>,
    pub direct: Seq<Seq<char>>,
    pub valid: Seq<Seq<char>>,
    pub found: Set<Seq<char>>,
}

pub open spec fn is_root_child(roots: Seq<Seq<char>>, d: Seq<char>) -> bool {
    parent_of(d) matches Some(par) && roots.contains(par)
}

/// A visible directory directly under a scan root that was never asked for.
pub open spec fn is_candidate(s: DiscoveryState, e: (Seq<char>, bool)) -> bool {
    &&& e.1
    &&& !is_hidden_spec(e.0)
    &&& is_root_child(s.roots, e.0)
    &&& !s.pending.contains(e.0)
    &&& !s.checked.contains(e.0)
}

/// The candidates of a batch, each once, in batch order.
pub open spec fn candidates(s: DiscoveryState, b: Seq<(Seq<char>, bool)>) -> Seq<Seq<char>>
    decreases b.len(),
{
    if b.len() == 0 {
        Seq::empty()
    } else {
        let c = candidates(s, b.drop_last());
        if is_candidate(s, b.last()) && !c.contains(b.last().0) {
            c.push(b.last().0)
        } else {
            c
        }
    }
}

/// Whether `p` lies directly in one of `pend`.
pub open spec fn in_pending(pend: Seq<Seq<char>>, p: Seq<char>) -> bool {
    parent_of(p) matches Some(par) && pend.contains(par)
}

/// Whether `p` is a marker file directly in one of `pend`.
pub open spec fn is_marker_in(pend: Seq<Seq<char>>, files: Seq<Seq<char>>, p: Seq<char>) -> bool {
    &&& in_pending(pend, p)
    &&& file_name_of(p) matches Some(n) && files.contains(n)
}

/// The awaited directories that a batch lists, each once, in batch order.
pub open spec fn listed(pend: Seq<Seq<char>>, b: Seq<(Seq<char>, bool)>) -> Seq<Seq<char>>
    decreases b.len(),
{
    if b.len() == 0 {
        Seq::empty()
    } else {
        let l = listed(pend, b.drop_last());
        let par = parent_of(b.last().0)->0;
        if in_pending(pend, b.last().0) && !l.contains(par) {
            l.push(par)
        } else {
            l
        }
    }
}

/// The awaited directories that a batch shows to hold a marker file.
pub open spec fn marked(pend: Seq<Seq<char>>, files: Seq<Seq<char>>, b: Seq<(Seq<char>, bool)>) -> Seq<
    Seq<char>,
>
    decreases b.len(),
{
    if b.len() == 0 {
        Seq::empty()
    } else {
        let m = marked(pend, files, b.drop_last());
        let par = parent_of(b.last().0)->0;
        if is_marker_in(pend, files, b.last().0) && !m.contains(par) {
            m.push(par)
        } else {
            m
        }
    }
}

/// The items of `s` that are not in `r`, in order.
pub open spec fn without(s: Seq<Seq<char>>, r: Seq<Seq<char>>) -> Seq<Seq<char>>
    decreases s.len(),
{
    if s.len() == 0 {
        s
    } else if r.contains(s.last()) {
        without(s.drop_last(), r)
    } else {
        without(s.drop_last(), r).push(s.last())
    }
}

pub open spec fn user_paths(cwd: Seq<char>, xs: Seq<Seq<char>>) -> Seq<Seq<char>> {
    xs.map_values(|d: Seq<char>| to_user_path(cwd, d))
}

/// The host paths of those of `dirs` that lie under `cwd`, in order.
pub open spec fn host_roots(cwd: Seq<char>, dirs: Seq<Seq<char>>) -> Seq<Seq<char>>
    decreases dirs.len(),
{
    if dirs.len() == 0 {
        Seq::empty()
    } else {
        let r = host_roots(cwd, dirs.drop_last());
        match to_host_path(cwd, dirs.last()) {
            Some(h) => r.push(h),
            None => r,
        }
    }
}

/// The engine right after loading: the scan roots are set, nothing is awaited
/// yet, and the configured directories are the projects known so far.
pub open spec fn initial(
    cwd: Seq<char>,
    root_dirs: Seq<Seq<char>>,
    dirs: Seq<Seq<char>>,
    root_files: Seq<Seq<char>>,
) -> DiscoveryState {
    DiscoveryState {
        cwd,
        root_files,
        roots: append_new(Seq::empty(), host_roots(cwd, root_dirs)),
        pending: Seq::empty(),
        checked: Seq::empty(),
        direct: dirs,
        valid: append_new(Seq::empty(), dirs),
        found: Set::empty(),
    }
}

/// The directories awaited while a batch is handled: those awaited before,
/// then the batch's candidates.
pub open spec fn awaited(s: DiscoveryState, b: Seq<(Seq<char>, bool)>) -> Seq<Seq<char>> {
    s.pending + candidates(s, b)
}

/// One batch handled: candidates become awaited, every awaited directory that
/// the batch lists is settled, and those of them with a marker file are added
/// (as user paths, if not there yet) to the projects.
pub open spec fn step(s: DiscoveryState, b: Seq<(Seq<char>, bool)>) -> DiscoveryState {
    let pend = awaited(s, b);
    let settled = listed(pend, b);
    let hits = marked(pend, s.root_files, b);
    DiscoveryState {
        pending: without(pend, settled),
        checked: s.checked + settled,
        valid: append_new(s.valid, user_paths(s.cwd, hits)),
        found: s.found + hits.to_set(),
        ..s
    }
}

/// The batches handled one after another.
pub open spec fn run(s: DiscoveryState, batches: Seq<Seq<(Seq<char>, bool)>>) -> DiscoveryState
    decreases batches.len(),
{
    if batches.len() == 0 {
        s
    } else {
        step(run(s, batches.drop_last()), batches.last())
    }
}


pub proof fn lemma_candidates(s: DiscoveryState, b: Seq<(Seq<char>, bool)>)
    ensures
        candidates(s, b).no_duplicates(),
        forall|c: Seq<char>| #[trigger]
            candidates(s, b).contains(c) ==> !s.pending.contains(c) && !s.checked.contains(c)
                && is_root_child(s.roots, c),
    decreases b.len(),
{
    if b.len() > 0 {
        lemma_candidates(s, b.drop_last());
        lemma_push_contains(candidates(s, b.drop_last()), b.last().0);
    }
}

pub proof fn lemma_listed(pend: Seq<Seq<char>>, files: Seq<Seq<char>>, b: Seq<(Seq<char>, bool)>)
    ensures
        listed(pend, b).no_duplicates(),
        marked(pend, files, b).no_duplicates(),
        forall|d: Seq<char>| #[trigger] listed(pend, b).contains(d) ==> pend.contains(d),
        forall|d: Seq<char>| #[trigger]
            marked(pend, files, b).contains(d) ==> listed(pend, b).contains(d),
        forall|k: int|
            0 <= k < b.len() && #[trigger] is_marker_in(pend, files, b[k].0) ==> marked(
                pend,
                files,
                b,
            ).contains(parent_of(b[k].0)->0),
        forall|k: int|
            0 <= k < b.len() && #[trigger] in_pending(pend, b[k].0) ==> listed(pend, b).contains(
                parent_of(b[k].0)->0,
            ),
        forall|d: Seq<char>| #[trigger]
            marked(pend, files, b).contains(d) ==> exists|k: int|
                0 <= k < b.len() && #[trigger] is_marker_in(pend, files, b[k].0) && parent_of(
                    b[k].0,
                ) == Some(d),
    decreases b.len(),
{
    if b.len() > 0 {
        let b0 = b.drop_last();
        lemma_listed(pend, files, b0);
        let par = parent_of(b.last().0)->0;
        lemma_push_contains(listed(pend, b0), par);
        lemma_push_contains(marked(pend, files, b0), par);
        assert forall|k: int|
            0 <= k < b.len() && #[trigger] is_marker_in(pend, files, b[k].0) implies marked(
                pend,
                files,
                b,
            ).contains(parent_of(b[k].0)->0) by {
            if k < b.len() - 1 {
                assert(b0[k] == b[k]);
            }
        }
        assert forall|k: int|
            0 <= k < b.len() && #[trigger] in_pending(pend, b[k].0) implies listed(
                pend,
                b,
            ).contains(parent_of(b[k].0)->0) by {
            if k < b.len() - 1 {
                assert(b0[k] == b[k]);
            }
        }
        assert forall|d: Seq<char>| #[trigger]
            marked(pend, files, b).contains(d) implies exists|k: int|
                0 <= k < b.len() && #[trigger] is_marker_in(pend, files, b[k].0) && parent_of(
                    b[k].0,
                ) == Some(d) by {
            if marked(pend, files, b0).contains(d) {
                let k = choose|k: int|
                    0 <= k < b0.len() && #[trigger] is_marker_in(pend, files, b0[k].0) && parent_of(
                        b0[k].0,
                    ) == Some(d);
                assert(b[k] == b0[k]);
            } else {
                assert(is_marker_in(pend, files, b[b.len() - 1].0));
            }
        }
    }
}

pub proof fn lemma_without(s: Seq<Seq<char>>, r: Seq<Seq<char>>)
    ensures
        forall|x: Seq<char>| #[trigger]
            without(s, r).contains(x) <==> s.contains(x) && !r.contains(x),
        s.no_duplicates() ==> without(s, r).no_duplicates(),
    decreases s.len(),
{
    if s.len() > 0 {
        lemma_without(s.drop_last(), r);
        lemma_drop_last_contains(s);
        lemma_push_contains(without(s.drop_last(), r), s.last());
        if s.no_duplicates() {
            assert(s.drop_last().no_duplicates());
            assert(!s.drop_last().contains(s.last())) by {
                if s.drop_last().contains(s.last()) {
                    let k = choose|k: int| 0 <= k < s.drop_last().len() && s.drop_last()[k] == s.last();
                    assert(s[k] == s[s.len() - 1]);
                }
            }
        }
    }
}

/// Handling a batch keeps the engine's invariant.
pub proof fn lemma_step_inv(s: DiscoveryState, b: Seq<(Seq<char>, bool)>)
    requires
        s.inv(),
    ensures
        step(s, b).inv(),
        s.valid.is_prefix_of(step(s, b).valid),
{
    let c = candidates(s, b);
    let pend = awaited(s, b);
    let settled = listed(pend, b);
    let hits = marked(pend, s.root_files, b);
    let t = step(s, b);
    lemma_candidates(s, b);
    lemma_concat(s.pending, c);
    lemma_listed(pend, s.root_files, b);
    lemma_without(pend, settled);
    lemma_concat(s.checked, settled);
    let ups = user_paths(s.cwd, hits);
    lemma_append_new(s.valid, ups);
    assert forall|x: Seq<char>| #[trigger]
        t.valid.contains(x) <==> t.direct.contains(x) || exists|d: Seq<char>|
            #[trigger] t.found.contains(d) && x == to_user_path(t.cwd, d) by {
        assert(t.valid.contains(x) <==> s.valid.contains(x) || ups.contains(x));
        assert(s.valid.contains(x) <==> s.direct.contains(x) || exists|d: Seq<char>|
            #[trigger] s.found.contains(d) && x == to_user_path(s.cwd, d));
        if s.valid.contains(x) && !s.direct.contains(x) {
            let d = choose|d: Seq<char>| #[trigger] s.found.contains(d) && x == to_user_path(s.cwd, d);
            assert(t.found.contains(d));
        }
        if ups.contains(x) {
            let k = choose|k: int| 0 <= k < ups.len() && ups[k] == x;
            assert(hits.contains(hits[k]));
            assert(t.found.contains(hits[k]));
        }
        if exists|d: Seq<char>| #[trigger] t.found.contains(d) && x == to_user_path(t.cwd, d) {
            let d = choose|d: Seq<char>| #[trigger] t.found.contains(d) && x == to_user_path(t.cwd, d);
            if !s.found.contains(d) {
                assert(hits.contains(d));
                let k = choose|k: int| 0 <= k < hits.len() && hits[k] == d;
                assert(ups[k] == x);
            }
        }
    }
}


/// In one batch, an awaited directory becomes a project exactly when the
/// batch lists a marker file directly in it; its user path is then among the
/// projects.
pub proof fn lemma_step_finds_exactly(s: DiscoveryState, b: Seq<(Seq<char>, bool)>)
    requires
        s.inv(),
    ensures
        forall|k: int|
            0 <= k < b.len() && #[trigger] is_marker_in(awaited(s, b), s.root_files, b[k].0) ==> {
                let d = parent_of(b[k].0)->0;
                &&& step(s, b).found.contains(d)
                &&& step(s, b).valid.contains(to_user_path(s.cwd, d))
            },
        forall|d: Seq<char>|
            #[trigger] step(s, b).found.contains(d) && !s.found.contains(d) ==> exists|k: int|
                0 <= k < b.len() && #[trigger] is_marker_in(awaited(s, b), s.root_files, b[k].0)
                    && parent_of(b[k].0) == Some(d),
{
    let pend = awaited(s, b);
    let hits = marked(pend, s.root_files, b);
    let ups = user_paths(s.cwd, hits);
    lemma_listed(pend, s.root_files, b);
    lemma_append_new(s.valid, ups);
    assert forall|k: int|
        0 <= k < b.len() && #[trigger] is_marker_in(pend, s.root_files, b[k].0) implies {
            let d = parent_of(b[k].0)->0;
            &&& step(s, b).found.contains(d)
            &&& step(s, b).valid.contains(to_user_path(s.cwd, d))
        } by {
        let d = parent_of(b[k].0)->0;
        assert(hits.contains(d));
        let j = choose|j: int| 0 <= j < hits.len() && hits[j] == d;
        assert(ups[j] == to_user_path(s.cwd, d));
        assert(ups.contains(to_user_path(s.cwd, d)));
    }
}


pub proof fn lemma_candidates_exact(s: DiscoveryState, b: Seq<(Seq<char>, bool)>)
    ensures
        forall|c: Seq<char>| #[trigger]
            candidates(s, b).contains(c) <==> exists|k: int|
                0 <= k < b.len() && #[trigger] is_candidate(s, b[k]) && b[k].0 == c,
    decreases b.len(),
{
    if b.len() > 0 {
        let b0 = b.drop_last();
        lemma_candidates_exact(s, b0);
        lemma_push_contains(candidates(s, b0), b.last().0);
        assert forall|c: Seq<char>| #[trigger]
            candidates(s, b).contains(c) <==> exists|k: int|
                0 <= k < b.len() && #[trigger] is_candidate(s, b[k]) && b[k].0 == c by {
            if exists|k: int| 0 <= k < b.len() && #[trigger] is_candidate(s, b[k]) && b[k].0 == c {
                let k = choose|k: int| 0 <= k < b.len() && #[trigger] is_candidate(s, b[k]) && b[k].0 == c;
                if k < b.len() - 1 {
                    assert(b0[k] == b[k]);
                }
            }
            if candidates(s, b0).contains(c) {
                let k = choose|k: int| 0 <= k < b0.len() && #[trigger] is_candidate(s, b0[k]) && b0[k].0 == c;
                assert(b[k] == b0[k]);
            }
            if candidates(s, b).contains(c) && !candidates(s, b0).contains(c) {
                assert(is_candidate(s, b[b.len() - 1]));
            }
        }
    }
}

pub proof fn lemma_listed_exact(pend: Seq<Seq<char>>, b: Seq<(Seq<char>, bool)>)
    ensures
        forall|d: Seq<char>| #[trigger]
            listed(pend, b).contains(d) ==> exists|k: int|
                0 <= k < b.len() && #[trigger] in_pending(pend, b[k].0) && parent_of(b[k].0)
                    == Some(d),
    decreases b.len(),
{
    if b.len() > 0 {
        let b0 = b.drop_last();
        lemma_listed_exact(pend, b0);
        lemma_push_contains(listed(pend, b0), parent_of(b.last().0)->0);
        assert forall|d: Seq<char>| #[trigger] listed(pend, b).contains(d) implies exists|k: int|
            0 <= k < b.len() && #[trigger] in_pending(pend, b[k].0) && parent_of(b[k].0)
                == Some(d) by {
            if listed(pend, b0).contains(d) {
                let k = choose|k: int|
                    0 <= k < b0.len() && #[trigger] in_pending(pend, b0[k].0) && parent_of(b0[k].0)
                        == Some(d);
                assert(b[k] == b0[k]);
            } else {
                assert(in_pending(pend, b[b.len() - 1].0));
            }
        }
    }
}

/// Whether a batch lists one of the marker files.
pub open spec fn lists_marker(files: Seq<Seq<char>>, b: Seq<(Seq<char>, bool)>) -> bool {
    exists|k: int|
        0 <= k < b.len() && (#[trigger] file_name_of(b[k].0) matches Some(n) && files.contains(n))
}

/// The effect, as sets, of a batch that lists one awaited directory `d`:
/// its candidates become awaited, `d` is settled, and `d` is a project if the
/// batch shows a marker file.
pub proof fn lemma_step_one_listing(s: DiscoveryState, b: Seq<(Seq<char>, bool)>, d: Seq<char>)
    requires
        s.inv(),
        s.pending.contains(d),
        b.len() > 0,
        forall|k: int| 0 <= k < b.len() ==> parent_of(#[trigger] b[k].0) == Some(d),
    ensures
        forall|x: Seq<char>| #[trigger]
            step(s, b).pending.contains(x) <==> (s.pending.contains(x) || candidates(
                s,
                b,
            ).contains(x)) && x != d,
        forall|x: Seq<char>| #[trigger]
            step(s, b).checked.contains(x) <==> s.checked.contains(x) || x == d,
        step(s, b).found == (if lists_marker(s.root_files, b) {
            s.found.insert(d)
        } else {
            s.found
        }),
        forall|x: Seq<char>| #[trigger]
            step(s, b).valid.contains(x) <==> s.valid.contains(x) || (lists_marker(s.root_files, b)
                && x == to_user_path(s.cwd, d)),
        step(s, b).roots == s.roots,
        step(s, b).root_files == s.root_files,
        step(s, b).cwd == s.cwd,
        step(s, b).direct == s.direct,
        step(s, b).inv(),
{
    let pend = awaited(s, b);
    let settled = listed(pend, b);
    let hits = marked(pend, s.root_files, b);
    lemma_step_inv(s, b);
    lemma_concat(s.pending, candidates(s, b));
    lemma_listed(pend, s.root_files, b);
    lemma_listed_exact(pend, b);
    lemma_without(pend, settled);
    lemma_concat(s.checked, settled);
    lemma_append_new(s.valid, user_paths(s.cwd, hits));
    assert(in_pending(pend, b[0].0));
    assert(settled.contains(d));
    assert forall|x: Seq<char>| #[trigger] settled.contains(x) <==> x == d by {
        if settled.contains(x) {
            let k = choose|k: int|
                0 <= k < b.len() && #[trigger] in_pending(pend, b[k].0) && parent_of(b[k].0)
                    == Some(x);
            assert(parent_of(b[k].0) == Some(d));
        }
    }
    assert forall|x: Seq<char>| #[trigger] hits.contains(x) <==> lists_marker(s.root_files, b) && x
        == d by {
        if hits.contains(x) {
            let k = choose|k: int|
                0 <= k < b.len() && #[trigger] is_marker_in(pend, s.root_files, b[k].0)
                    && parent_of(b[k].0) == Some(x);
            assert(parent_of(b[k].0) == Some(d));
            assert(file_name_of(b[k].0) matches Some(n) && s.root_files.contains(n));
        }
        if lists_marker(s.root_files, b) && x == d {
            let k = choose|k: int|
                0 <= k < b.len() && (#[trigger] file_name_of(b[k].0) matches Some(n)
                    && s.root_files.contains(n));
            assert(parent_of(b[k].0) == Some(d));
            assert(is_marker_in(pend, s.root_files, b[k].0));
        }
    }
    assert(hits.to_set() =~= (if lists_marker(s.root_files, b) {
        set![d]
    } else {
        Set::empty()
    }));
    assert(step(s, b).found =~= (if lists_marker(s.root_files, b) {
        s.found.insert(d)
    } else {
        s.found
    }));
    let ups = user_paths(s.cwd, hits);
    assert forall|x: Seq<char>| #[trigger] ups.contains(x) <==> lists_marker(s.root_files, b) && x
        == to_user_path(s.cwd, d) by {
        if ups.contains(x) {
            let j = choose|j: int| 0 <= j < ups.len() && ups[j] == x;
            assert(hits.contains(hits[j]));
        }
        if lists_marker(s.root_files, b) && x == to_user_path(s.cwd, d) {
            assert(hits.contains(d));
            let j = choose|j: int| 0 <= j < hits.len() && hits[j] == d;
            assert(ups[j] == x);
        }
    }
}


pub proof fn lemma_candidates_after(
    s: DiscoveryState,
    b1: Seq<(Seq<char>, bool)>,
    d1: Seq<char>,
    b2: Seq<(Seq<char>, bool)>,
)
    requires
        s.inv(),
        s.pending.contains(d1),
        b1.len() > 0,
        forall|k: int| 0 <= k < b1.len() ==> parent_of(#[trigger] b1[k].0) == Some(d1),
    ensures
        forall|x: Seq<char>| #[trigger]
            candidates(step(s, b1), b2).contains(x) <==> candidates(s, b2).contains(x)
                && !candidates(s, b1).contains(x),
{
    let t1 = step(s, b1);
    lemma_step_one_listing(s, b1, d1);
    lemma_candidates_exact(s, b2);
    lemma_candidates_exact(t1, b2);
    lemma_candidates(s, b1);
    assert forall|x: Seq<char>| #[trigger]
        candidates(t1, b2).contains(x) <==> candidates(s, b2).contains(x) && !candidates(
            s,
            b1,
        ).contains(x) by {
        if candidates(t1, b2).contains(x) {
            let k = choose|k: int| 0 <= k < b2.len() && #[trigger] is_candidate(t1, b2[k]) && b2[k].0 == x;
            assert(!t1.checked.contains(x));
            assert(x != d1);
            assert(is_candidate(s, b2[k]));
        }
        if candidates(s, b2).contains(x) && !candidates(s, b1).contains(x) {
            let k = choose|k: int| 0 <= k < b2.len() && #[trigger] is_candidate(s, b2[k]) && b2[k].0 == x;
            assert(x != d1);
            assert(is_candidate(t1, b2[k]));
        }
    }
}

/// Two batches that list two different awaited directories give the same
/// projects, awaited and settled directories whichever comes first; only the
/// order in which projects are listed may differ.
pub proof fn lemma_listings_commute(
    s: DiscoveryState,
    b1: Seq<(Seq<char>, bool)>,
    d1: Seq<char>,
    b2: Seq<(Seq<char>, bool)>,
    d2: Seq<char>,
)
    requires
        s.inv(),
        d1 != d2,
        s.pending.contains(d1),
        s.pending.contains(d2),
        b1.len() > 0,
        b2.len() > 0,
        forall|k: int| 0 <= k < b1.len() ==> parent_of(#[trigger] b1[k].0) == Some(d1),
        forall|k: int| 0 <= k < b2.len() ==> parent_of(#[trigger] b2[k].0) == Some(d2),
    ensures
        step(step(s, b1), b2).valid.to_set() == step(step(s, b2), b1).valid.to_set(),
        step(step(s, b1), b2).pending.to_set() == step(step(s, b2), b1).pending.to_set(),
        step(step(s, b1), b2).checked.to_set() == step(step(s, b2), b1).checked.to_set(),
        step(step(s, b1), b2).found == step(step(s, b2), b1).found,
{
    let t1 = step(s, b1);
    let t2 = step(s, b2);
    let t12 = step(t1, b2);
    let t21 = step(t2, b1);
    lemma_step_one_listing(s, b1, d1);
    lemma_step_one_listing(s, b2, d2);
    lemma_step_one_listing(t1, b2, d2);
    lemma_step_one_listing(t2, b1, d1);
    lemma_candidates_after(s, b1, d1, b2);
    lemma_candidates_after(s, b2, d2, b1);
    lemma_candidates(s, b1);
    lemma_candidates(s, b2);
    assert(t12.valid.to_set() =~= t21.valid.to_set());
    assert(t12.pending.to_set() =~= t21.pending.to_set());
    assert(t12.checked.to_set() =~= t21.checked.to_set());
    assert(t12.found =~= t21.found);
}

/// Any number of batches, in any order and with any repeats, keep the
/// invariant: no project is listed twice, and the projects are exactly the
/// configured directories and the direct children of a scan root whose own
/// listing showed a marker file. Projects once listed stay, in place.
pub proof fn lemma_any_delivery(s: DiscoveryState, batches: Seq<Seq<(Seq<char>, bool)>>)
    requires
        s.inv(),
    ensures
        run(s, batches).inv(),
        run(s, batches).direct == s.direct,
        run(s, batches).cwd == s.cwd,
        run(s, batches).roots == s.roots,
        s.valid.is_prefix_of(run(s, batches).valid),
    decreases batches.len(),
{
    if batches.len() > 0 {
        lemma_any_delivery(s, batches.drop_last());
        lemma_step_inv(run(s, batches.drop_last()), batches.last());
    }
}

/// A configured directory is a project from the start and stays one, whatever
/// batches come.
pub proof fn lemma_direct_dirs_stay(
    cwd: Seq<char>,
    root_dirs: Seq<Seq<char>>,
    dirs: Seq<Seq<char>>,
    root_files: Seq<Seq<char>>,
    batches: Seq<Seq<(Seq<char>, bool)>>,
    d: Seq<char>,
)
    requires
        dirs.contains(d),
    ensures
        initial(cwd, root_dirs, dirs, root_files).valid.contains(d),
        run(initial(cwd, root_dirs, dirs, root_files), batches).valid.contains(d),
{
    let s = initial(cwd, root_dirs, dirs, root_files);
    lemma_initial_inv(cwd, root_dirs, dirs, root_files);
    lemma_any_delivery(s, batches);
}

pub proof fn lemma_initial_inv(
    cwd: Seq<char>,
    root_dirs: Seq<Seq<char>>,
    dirs: Seq<Seq<char>>,
    root_files: Seq<Seq<char>>,
)
    ensures
        initial(cwd, root_dirs, dirs, root_files).inv(),
{
    let s = initial(cwd, root_dirs, dirs, root_files);
    lemma_append_new(Seq::empty(), dirs);
    lemma_append_new(Seq::empty(), host_roots(cwd, root_dirs));
    assert(Seq::<Seq<char>>::empty().no_duplicates());
}

impl DiscoveryState {
    /// What holds of the engine between batches: no project twice, no
    /// directory both awaited and settled nor settled twice, all of them
    /// direct children of a scan root; and the projects are exactly the
    /// configured directories and the settled directories that showed a
    /// marker file.
    pub open spec fn inv(self) -> bool {
        &&& self.valid.no_duplicates()
        &&& self.pending.no_duplicates()
        &&& self.checked.no_duplicates()
        &&& forall|d: Seq<char>| self.pending.contains(d) ==> !self.checked.contains(d)
        &&& forall|d: Seq<char>| #[trigger]
            self.pending.contains(d) ==> is_root_child(self.roots, d)
        &&& forall|d: Seq<char>| #[trigger]
            self.checked.contains(d) ==> is_root_child(self.roots, d)
        &&& forall|d: Seq<char>| self.found.contains(d) ==> self.checked.contains(d)
        &&& forall|x: Seq<char>| #[trigger]
            self.valid.contains(x) <==> self.direct.contains(x) || exists|d: Seq<char>|
                #[trigger] self.found.contains(d) && x == to_user_path(self.cwd, d)
    }
}

pub struct Discovery {
    cwd: String,
    root_files: Vec<String>,
    roots: Vec<String>,
    pending: Vec<String>,
    checked: Vec<String>,
    direct: Vec<String>,
    valid: Vec<String>,
    found: Ghost<Set<Seq<char>>>,
}

impl View for Discovery {
    type V = DiscoveryState;

    closed spec fn view(&self) -> DiscoveryState {
        DiscoveryState {
            cwd: self.cwd@,
            root_files: strs(self.root_files@),
            roots: strs(self.roots@),
            pending: strs(self.pending@),
            checked: strs(self.checked@),
            direct: strs(self.direct@),
            valid: strs(self.valid@),
            found: self.found@,
        }
    }
}

impl Discovery {
    pub open spec fn wf(&self) -> bool {
        self@.inv()
    }

    /// Loads the engine: the host path of each root directory under `cwd`
    /// becomes a scan root and is to be listed; the configured `dirs` are the
    /// first projects, published at once when there are any.
    pub fn new(cwd: &str, root_dirs: &Vec<String>, dirs: &Vec<String>, root_files: &Vec<String>) -> (r: (
        Discovery,
        ScanPlan,
    ))
        ensures
            r.0.wf(),
            r.0@ == initial(cwd@, strs(root_dirs@), strs(dirs@), strs(root_files@)),
            strs(r.1.scans@) == r.0@.roots,
            r.1.publish is Some <==> r.0@.valid.len() > 0,
            r.1.publish matches Some(v) ==> strs(v@) == r.0@.valid,
    {
        let ghost rd = strs(root_dirs@);
        let mut roots: Vec<String> = Vec::new();
        let mut i: usize = 0;
        while i < root_dirs.len()
            invariant
                i <= root_dirs.len(),
                rd == strs(root_dirs@),
                strs(roots@) == append_new(Seq::empty(), host_roots(cwd@, rd.take(i as int))),
            decreases root_dirs.len() - i,
        {
            assert(rd.take(i + 1).drop_last() =~= rd.take(i as int));
            match host_path(cwd, root_dirs[i].as_str()) {
                Some(h) => {
                    let ghost hr = host_roots(cwd@, rd.take(i as int));
                    assert(hr.push(h@).drop_last() =~= hr);
                    push_new(&mut roots, h);
                },
                None => {},
            }
            i = i + 1;
        }
        assert(rd.take(root_dirs.len() as int) =~= rd);
        let ghost dv = strs(dirs@);
        let mut valid: Vec<String> = Vec::new();
        let mut j: usize = 0;
        while j < dirs.len()
            invariant
                j <= dirs.len(),
                dv == strs(dirs@),
                strs(valid@) == append_new(Seq::empty(), dv.take(j as int)),
            decreases dirs.len() - j,
        {
            proof {
                lemma_append_new_step(Seq::empty(), dv, j as int);
            }
            push_new(&mut valid, dirs[j].clone());
            j = j + 1;
        }
        assert(dv.take(dirs.len() as int) =~= dv);
        let scans = copy_strs(&roots);
        let publish = if valid.len() > 0 {
            Some(copy_strs(&valid))
        } else {
            None
        };
        let d = Discovery {
            cwd: String::from_str(cwd),
            root_files: copy_strs(root_files),
            roots,
            pending: Vec::new(),
            checked: Vec::new(),
            direct: copy_strs(dirs),
            valid,
            found: Ghost(Set::empty()),
        };
        proof {
            lemma_initial_inv(cwd@, rd, dv, strs(root_files@));
            assert(d@.pending =~= Seq::<Seq<char>>::empty());
            assert(d@.checked =~= Seq::<Seq<char>>::empty());
        }
        (d, ScanPlan { scans, publish })
    }

    /// The projects found so far, as user paths, in order of discovery.
    pub fn valid_dirs(&self) -> (r: &Vec<String>)
        ensures
            strs(r@) == self@.valid,
    {
        &self.valid
    }

    /// The directories whose listing is awaited.
    pub fn pending_dirs(&self) -> (r: &Vec<String>)
        ensures
            strs(r@) == self@.pending,
    {
        &self.pending
    }

    /// The scan roots, as host paths.
    pub fn scan_roots(&self) -> (r: &Vec<String>)
        ensures
            strs(r@) == self@.roots,
    {
        &self.roots
    }

    /// Handles one filesystem-update batch (see [`step`]). The plan asks for a
    /// listing of each new candidate and publishes the projects when there are
    /// more of them than before.
    pub fn process_filesystem_update(&mut self, batch: &Vec<DirEntry>) -> (plan: ScanPlan)
        requires
            old(self).wf(),
        ensures
            final(self).wf(),
            final(self)@ == step(old(self)@, entries(batch@)),
            strs(plan.scans@) == candidates(old(self)@, entries(batch@)),
            plan.publish is Some <==> final(self)@.valid.len() > old(self)@.valid.len(),
            plan.publish matches Some(v) ==> strs(v@) == final(self)@.valid,
    {
        let ghost s = self@;
        let ghost b = entries(batch@);
        let mut cands: Vec<String> = Vec::new();
        let mut i: usize = 0;
        while i < batch.len()
            invariant
                i <= batch.len(),
                s == self@,
                b == entries(batch@),
                strs(cands@) == candidates(s, b.take(i as int)),
            decreases batch.len() - i,
        {
            let e = &batch[i];
            assert(b.take(i + 1).drop_last() =~= b.take(i as int));
            assert(b.take(i + 1).last() == e@);
            let p = e.path.as_str();
            let under_root = match parent(p) {
                Some(par) => contains_str(&self.roots, &par),
                None => false,
            };
            if e.is_dir && !is_hidden(p) && under_root && !contains_str(&self.pending, &e.path)
                && !contains_str(&self.checked, &e.path) && !contains_str(&cands, &e.path) {
                proof {
                    lemma_strs_push(cands@, e.path);
                }
                cands.push(e.path.clone());
            }
            i = i + 1;
        }
        assert(b.take(batch.len() as int) =~= b);
        let mut pend = copy_strs(&self.pending);
        let mut more = copy_strs(&cands);
        let ghost p0 = pend@;
        let ghost m0 = more@;
        pend.append(&mut more);
        assert(strs(p0 + m0) =~= strs(p0) + strs(m0));
        let ghost pv = strs(pend@);
        assert(pv == awaited(s, b));
        let mut settled: Vec<String> = Vec::new();
        let mut hits: Vec<String> = Vec::new();
        let mut k: usize = 0;
        while k < batch.len()
            invariant
                k <= batch.len(),
                s == self@,
                b == entries(batch@),
                pv == strs(pend@),
                strs(settled@) == listed(pv, b.take(k as int)),
                strs(hits@) == marked(pv, s.root_files, b.take(k as int)),
            decreases batch.len() - k,
        {
            let e = &batch[k];
            assert(b.take(k + 1).drop_last() =~= b.take(k as int));
            assert(b.take(k + 1).last() == e@);
            let p = e.path.as_str();
            match parent(p) {
                Some(par) => {
                    if contains_str(&pend, &par) {
                        let is_marker = match file_name(p) {
                            Some(n) => contains_str(&self.root_files, &n),
                            None => false,
                        };
                        if is_marker {
                            push_new(&mut hits, par.clone());
                        }
                        push_new(&mut settled, par);
                    }
                },
                None => {},
            }
            k = k + 1;
        }
        let mut still: Vec<String> = Vec::new();
        let mut j: usize = 0;
        while j < pend.len()
            invariant
                j <= pend.len(),
                pv == strs(pend@),
                strs(still@) == without(pv.take(j as int), strs(settled@)),
            decreases pend.len() - j,
        {
            assert(pv.take(j + 1).drop_last() =~= pv.take(j as int));
            if !contains_str(&settled, &pend[j]) {
                proof {
                    lemma_strs_push(still@, pend@[j as int]);
                }
                still.push(pend[j].clone());
            }
            j = j + 1;
        }
        assert(pv.take(pend.len() as int) =~= pv);
        let mut checked = copy_strs(&self.checked);
        let mut done = copy_strs(&settled);
        let ghost c0 = checked@;
        let ghost d0 = done@;
        checked.append(&mut done);
        assert(strs(c0 + d0) =~= strs(c0) + strs(d0));
        let ghost ups = user_paths(s.cwd, strs(hits@));
        let mut valid = copy_strs(&self.valid);
        let mut h: usize = 0;
        while h < hits.len()
            invariant
                h <= hits.len(),
                s == self@,
                ups == user_paths(s.cwd, strs(hits@)),
                strs(valid@) == append_new(s.valid, ups.take(h as int)),
            decreases hits.len() - h,
        {
            proof {
                lemma_append_new_step(s.valid, ups, h as int);
            }
            let u = user_path(self.cwd.as_str(), hits[h].as_str());
            push_new(&mut valid, u);
            h = h + 1;
        }
        assert(ups.take(hits.len() as int) =~= ups);
        let grew = valid.len() > self.valid.len();
        let publish = if grew {
            Some(copy_strs(&valid))
        } else {
            None
        };
        self.pending = still;
        self.checked = checked;
        self.valid = valid;
        self.found = Ghost(s.found + strs(hits@).to_set());
        proof {
            lemma_step_inv(s, b);
        }
        ScanPlan { scans: cands, publish }
    }
}

} // verus!
