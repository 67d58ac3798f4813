//! Fuzzy filtering of a list of strings by a typed query.
//!
//! Letters are compared without regard to ASCII case. An item matches when the
//! query's characters occur in it in order. Matches are ranked in three
//! classes, best first: the query starts the item; the query occurs in the
//! item as one run; the query's characters are spread out. Within a class the
//! items keep their order.
use vstd::prelude::*;
use crate::lists::{lemma_strs_push, strs};

verus! {

/// A character with ASCII upper case folded to lower case.
pub open spec fn fold_char(c: char) -> u32 {
    if 'A' <= c && c <= 'Z' {
        (c as u32 + 32) as u32
    } else {
        c as u32
    }
}

pub open spec fn same_letter(a: char, b: char) -> bool {
    fold_char(a) == fold_char(b)
}

/// Whether the characters of `q` occur in `t` in order.
pub open spec fn is_subseq_ci(t: Seq<char>, q: Seq<char>) -> bool
    decreases t.len(),
{
    if q.len() == 0 {
        true
    } else if t.len() == 0 {
        false
    } else if same_letter(t[0], q[0]) {
        is_subseq_ci(t.drop_first(), q.drop_first())
    } else {
        is_subseq_ci(t.drop_first(), q)
    }
}

/// Whether `q` occurs in `t` as one run starting at `k`.
pub open spec fn occurs_at(t: Seq<char>, q: Seq<char>, k: int) -> bool {
    &&& 0 <= k
    &&& k + q.len() <= t.len()
    &&& forall|i: int| 0 <= i < q.len() ==> same_letter(#[trigger] t[k + i], q[i])
}

pub open spec fn occurs_ci(t: Seq<char>, q: Seq<char>) -> bool {
    exists|k: int| occurs_at(t, q, k)
}

/// How well `t` matches `q`: 3 when `q` starts `t`, 2 when it occurs in `t`
/// as one run, 1 when its characters occur in `t` in order, 0 otherwise.
pub open spec fn score(t: Seq<char>, q: Seq<char>) -> u8 {
    if occurs_at(t, q, 0) {
        3
    } else if occurs_ci(t, q) {
        2
    } else if is_subseq_ci(t, q) {
        1
    } else {
        0
    }
}

/// The items of `xs` whose score is `k`, in order.
pub open spec fn with_score(xs: Seq<Seq<char>>, q: Seq<char>, k: u8) -> Seq<Seq<char>>
    decreases xs.len(),
{
    if xs.len() == 0 {
        xs
    } else if score(xs.last(), q) == k {
        with_score(xs.drop_last(), q, k).push(xs.last())
    } else {
        with_score(xs.drop_last(), q, k)
    }
}

/// The filtered view: all items for an empty query; else the matching items,
/// best class first, each class in the order of the source list.
pub open spec fn fuzzy(xs: Seq<Seq<char>>, q: Seq<char>) -> Seq<Seq<char>> {
    if q.len() == 0 {
        xs
    } else {
        with_score(xs, q, 3) + with_score(xs, q, 2) + with_score(xs, q, 1)
    }
}


/// `idx` places each character of `q`, in order, on a matching character of `t`.
pub open spec fn is_embedding(t: Seq<char>, q: Seq<char>, idx: Seq<int>) -> bool {
    &&& idx.len() == q.len()
    &&& forall|i: int| 0 <= i < idx.len() ==> 0 <= #[trigger] idx[i] < t.len()
    &&& forall|i: int| 0 <= i < idx.len() ==> same_letter(t[#[trigger] idx[i]], q[i])
    &&& forall|i: int, j: int| 0 <= i < j < idx.len() ==> idx[i] < idx[j]
}

/// The characters of `q` occur in `t` in order exactly when some embedding
/// places them there.
pub proof fn lemma_subseq_iff_embedding(t: Seq<char>, q: Seq<char>)
    ensures
        is_subseq_ci(t, q) <==> exists|idx: Seq<int>| is_embedding(t, q, idx),
    decreases t.len(),
{
    if q.len() == 0 {
        assert(is_embedding(t, q, Seq::empty()));
    } else if t.len() == 0 {
        assert forall|idx: Seq<int>| !is_embedding(t, q, idx) by {
            if is_embedding(t, q, idx) {
                assert(0 <= idx[0] < t.len());
            }
        }
    } else {
        let t1 = t.drop_first();
        if same_letter(t[0], q[0]) {
            let q1 = q.drop_first();
            lemma_subseq_iff_embedding(t1, q1);
            if is_subseq_ci(t, q) {
                let idx1 = choose|idx: Seq<int>| is_embedding(t1, q1, idx);
                let idx = seq![0int] + idx1.map_values(|x: int| x + 1);
                assert forall|i: int| 0 <= i < idx.len() implies same_letter(t[#[trigger] idx[i]], q[i]) by {
                    if i > 0 {
                        assert(idx[i] == idx1[i - 1] + 1);
                        assert(t[idx[i]] == t1[idx1[i - 1]]);
                    }
                }
                assert forall|i: int, j: int| 0 <= i < j < idx.len() implies idx[i] < idx[j] by {
                    if i > 0 {
                        assert(idx1[i - 1] < idx1[j - 1]);
                    } else {
                        assert(0 <= idx1[j - 1]);
                    }
                }
                assert(is_embedding(t, q, idx));
            }
            if exists|idx: Seq<int>| is_embedding(t, q, idx) {
                let idx = choose|idx: Seq<int>| is_embedding(t, q, idx);
                let idx1 = idx.drop_first().map_values(|x: int| x - 1);
                assert forall|i: int| 0 <= i < idx1.len() implies 0 <= #[trigger] idx1[i] < t1.len() by {
                    assert(idx[0] < idx[i + 1]);
                    assert(0 <= idx[0]);
                }
                assert forall|i: int| 0 <= i < idx1.len() implies same_letter(t1[#[trigger] idx1[i]], q1[i]) by {
                    assert(idx[0] < idx[i + 1]);
                    assert(same_letter(t[idx[i + 1]], q[i + 1]));
                }
                assert forall|i: int, j: int| 0 <= i < j < idx1.len() implies idx1[i] < idx1[j] by {
                    assert(idx[i + 1] < idx[j + 1]);
                }
                assert(is_embedding(t1, q1, idx1));
            }
        } else {
            lemma_subseq_iff_embedding(t1, q);
            if is_subseq_ci(t, q) {
                let idx1 = choose|idx: Seq<int>| is_embedding(t1, q, idx);
                let idx = idx1.map_values(|x: int| x + 1);
                assert forall|i: int| 0 <= i < idx.len() implies same_letter(t[#[trigger] idx[i]], q[i]) by {
                    assert(t[idx[i]] == t1[idx1[i]]);
                }
                assert forall|i: int, j: int| 0 <= i < j < idx.len() implies idx[i] < idx[j] by {
                    assert(idx1[i] < idx1[j]);
                }
                assert(is_embedding(t, q, idx));
            }
            if exists|idx: Seq<int>| is_embedding(t, q, idx) {
                let idx = choose|idx: Seq<int>| is_embedding(t, q, idx);
                let idx1 = idx.map_values(|x: int| x - 1);
                assert(idx[0] != 0);
                assert forall|i: int| 0 <= i < idx1.len() implies 0 <= #[trigger] idx1[i] < t1.len() by {
                    if i > 0 {
                        assert(idx[0] < idx[i]);
                    }
                }
                assert forall|i: int| 0 <= i < idx1.len() implies same_letter(t1[#[trigger] idx1[i]], q[i]) by {
                    if i > 0 {
                        assert(idx[0] < idx[i]);
                    }
                    assert(same_letter(t[idx[i]], q[i]));
                }
                assert forall|i: int, j: int| 0 <= i < j < idx1.len() implies idx1[i] < idx1[j] by {
                    assert(idx[i] < idx[j]);
                }
                assert(is_embedding(t1, q, idx1));
            }
        }
    }
}

pub proof fn lemma_score_positive_is_subseq(t: Seq<char>, q: Seq<char>)
    ensures
        score(t, q) > 0 <==> is_subseq_ci(t, q),
{
    lemma_subseq_iff_embedding(t, q);
    if occurs_ci(t, q) {
        let k = choose|k: int| occurs_at(t, q, k);
        let idx = Seq::new(q.len(), |i: int| k + i);
        assert(is_embedding(t, q, idx));
    }
}

pub proof fn lemma_with_score(xs: Seq<Seq<char>>, q: Seq<char>, k: u8)
    ensures
        forall|x: Seq<char>| #[trigger]
            with_score(xs, q, k).contains(x) <==> xs.contains(x) && score(x, q) == k,
    decreases xs.len(),
{
    if xs.len() > 0 {
        lemma_with_score(xs.drop_last(), q, k);
        crate::lists::lemma_drop_last_contains(xs);
        crate::lists::lemma_push_contains(with_score(xs.drop_last(), q, k), xs.last());
    }
}

/// An empty query keeps every item, in order.
pub proof fn lemma_empty_query_keeps_all(xs: Seq<Seq<char>>)
    ensures
        fuzzy(xs, Seq::empty()) == xs,
{
}

/// A non-empty query keeps exactly the items in which its characters occur in
/// order, ignoring ASCII case.
pub proof fn lemma_filter_keeps_matches(xs: Seq<Seq<char>>, q: Seq<char>)
    requires
        q.len() > 0,
    ensures
        forall|x: Seq<char>| #[trigger]
            fuzzy(xs, q).contains(x) <==> xs.contains(x) && exists|idx: Seq<int>|
                is_embedding(x, q, idx),
{
    lemma_with_score(xs, q, 3);
    lemma_with_score(xs, q, 2);
    lemma_with_score(xs, q, 1);
    crate::lists::lemma_concat(with_score(xs, q, 3), with_score(xs, q, 2));
    crate::lists::lemma_concat(with_score(xs, q, 3) + with_score(xs, q, 2), with_score(xs, q, 1));
    assert forall|x: Seq<char>| #[trigger]
        fuzzy(xs, q).contains(x) <==> xs.contains(x) && exists|idx: Seq<int>|
            is_embedding(x, q, idx) by {
        lemma_score_positive_is_subseq(x, q);
        lemma_subseq_iff_embedding(x, q);
    }
}

fn fold(c: char) -> (r: u32)
    ensures
        r == fold_char(c),
{
    if 'A' <= c && c <= 'Z' {
        (c as u32) + 32
    } else {
        c as u32
    }
}

fn occurs_at_exec(t: &str, q: &str, k: usize) -> (r: bool)
    requires
        k + q@.len() <= t@.len(),
    ensures
        r == occurs_at(t@, q@, k as int),
{
    let m = q.unicode_len();
    let n = t.unicode_len();
    let mut i: usize = 0;
    while i < m
        invariant
            m == q@.len(),
            n == t@.len(),
            k + m <= t@.len(),
            i <= m,
            forall|j: int| 0 <= j < i ==> same_letter(#[trigger] t@[k + j], q@[j]),
        decreases m - i,
    {
        if fold(t.get_char(k + i)) != fold(q.get_char(i)) {
            assert(!same_letter(t@[k + i], q@[i as int]));
            return false;
        }
        i = i + 1;
    }
    true
}

fn occurs_exec(t: &str, q: &str) -> (r: bool)
    ensures
        r == occurs_ci(t@, q@),
{
    let n = t.unicode_len();
    let m = q.unicode_len();
    if m > n {
        return false;
    }
    let mut k: usize = 0;
    while k <= n - m
        invariant
            n == t@.len(),
            m == q@.len(),
            m <= n,
            k <= n - m + 1,
            forall|j: int| 0 <= j < k ==> !occurs_at(t@, q@, j),
        decreases n - k + 1,
    {
        if occurs_at_exec(t, q, k) {
            return true;
        }
        k = k + 1;
    }
    false
}

fn subseq_exec(t: &str, q: &str) -> (r: bool)
    ensures
        r == is_subseq_ci(t@, q@),
{
    let n = t.unicode_len();
    let m = q.unicode_len();
    let mut i: usize = 0;
    let mut j: usize = 0;
    assert(t@.skip(0) =~= t@);
    assert(q@.skip(0) =~= q@);
    while i < n && j < m
        invariant
            n == t@.len(),
            m == q@.len(),
            i <= n,
            j <= m,
            is_subseq_ci(t@, q@) == is_subseq_ci(t@.skip(i as int), q@.skip(j as int)),
        decreases n - i,
    {
        assert(t@.skip(i as int).drop_first() =~= t@.skip(i + 1));
        assert(q@.skip(j as int).drop_first() =~= q@.skip(j + 1));
        if fold(t.get_char(i)) == fold(q.get_char(j)) {
            j = j + 1;
        }
        i = i + 1;
    }
    j == m
}

/// The score of `t` against `q`.
pub fn match_score(t: &str, q: &str) -> (r: u8)
    ensures
        r == score(t@, q@),
{
    if q.unicode_len() <= t.unicode_len() && occurs_at_exec(t, q, 0) {
        3
    } else if occurs_exec(t, q) {
        2
    } else if subseq_exec(t, q) {
        1
    } else {
        0
    }
}

/// The items of `items` that match `query`, ranked as [`fuzzy`] says.
pub fn fuzzy_filter(items: &Vec<String>, query: &str) -> (r: Vec<String>)
    ensures
        strs(r@) == fuzzy(strs(items@), query@),
{
    let ghost xs = strs(items@);
    if query.unicode_len() == 0 {
        let mut all: Vec<String> = Vec::new();
        let mut i: usize = 0;
        while i < items.len()
            invariant
                i <= items.len(),
                xs == strs(items@),
                strs(all@) == xs.take(i as int),
            decreases items.len() - i,
        {
            proof {
                lemma_strs_push(all@, items@[i as int]);
            }
            all.push(items[i].clone());
            assert(xs.take(i + 1) =~= xs.take(i as int).push(xs[i as int]));
            i = i + 1;
        }
        assert(xs.take(items.len() as int) =~= xs);
        return all;
    }
    let mut scores: Vec<u8> = Vec::new();
    let mut i: usize = 0;
    while i < items.len()
        invariant
            i <= items.len(),
            xs == strs(items@),
            scores@.len() == i,
            forall|j: int| 0 <= j < i ==> scores@[j] == score(xs[j], query@),
        decreases items.len() - i,
    {
        scores.push(match_score(items[i].as_str(), query));
        i = i + 1;
    }
    let mut out: Vec<String> = Vec::new();
    let mut level: u8 = 3;
    while level > 0
        invariant
            level <= 3,
            query@.len() > 0,
            xs == strs(items@),
            scores@.len() == items.len(),
            forall|j: int| 0 <= j < items.len() ==> scores@[j] == score(xs[j], query@),
            level == 3 ==> strs(out@) == Seq::<Seq<char>>::empty(),
            level == 2 ==> strs(out@) == with_score(xs, query@, 3),
            level == 1 ==> strs(out@) == with_score(xs, query@, 3) + with_score(xs, query@, 2),
            level == 0 ==> strs(out@) == fuzzy(xs, query@),
        decreases level,
    {
        let ghost before = strs(out@);
        let mut k: usize = 0;
        while k < items.len()
            invariant
                k <= items.len(),
                xs == strs(items@),
                scores@.len() == items.len(),
                forall|j: int| 0 <= j < items.len() ==> scores@[j] == score(xs[j], query@),
                strs(out@) == before + with_score(xs.take(k as int), query@, level),
            decreases items.len() - k,
        {
            assert(xs.take(k + 1).drop_last() =~= xs.take(k as int));
            if scores[k] == level {
                proof {
                    lemma_strs_push(out@, items@[k as int]);
                }
                out.push(items[k].clone());
                assert(before + with_score(xs.take(k + 1), query@, level) =~= (before
                    + with_score(xs.take(k as int), query@, level)).push(xs[k as int]));
            }
            k = k + 1;
        }
        assert(xs.take(items.len() as int) =~= xs);
        level = level - 1;
    }
    out
}

} // verus!
