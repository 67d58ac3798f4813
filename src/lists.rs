//! Ordered string lists without repeats.
use vstd::prelude::*;

verus! {

/// The characters of each string of `v`.
pub open spec fn strs(v: Seq<String>) -> Seq<Seq<char>> {
    v.map_values(|s: String| s@)
}

/// `v` followed by those items of `xs` that are not already there, each once,
/// in the order of their first occurrence in `xs`.
pub open spec fn append_new(v: Seq<Seq<char>>, xs: Seq<Seq<char>>) -> Seq<Seq<char>>
    decreases xs.len(),
{
    if xs.len() == 0 {
        v
    } else {
        let w = append_new(v, xs.drop_last());
        if w.contains(xs.last()) {
            w
        } else {
            w.push(xs.last())
        }
    }
}

pub proof fn lemma_strs_push(v: Seq<String>, s: String)
    ensures
        strs(v.push(s)) == strs(v).push(s@),
{
    assert(strs(v.push(s)) =~= strs(v).push(s@));
}

pub proof fn lemma_append_new_step(v: Seq<Seq<char>>, xs: Seq<Seq<char>>, i: int)
    requires
        0 <= i < xs.len(),
    ensures
        append_new(v, xs.take(i + 1)) == (if append_new(v, xs.take(i)).contains(xs[i]) {
            append_new(v, xs.take(i))
        } else {
            append_new(v, xs.take(i)).push(xs[i])
        }),
{
    assert(xs.take(i + 1).drop_last() =~= xs.take(i));
}

/// What `append_new` holds, and that it keeps `v` in front and adds no repeat.
pub proof fn lemma_append_new(v: Seq<Seq<char>>, xs: Seq<Seq<char>>)
    ensures
        forall|x: Seq<char>| #[trigger]
            append_new(v, xs).contains(x) <==> v.contains(x) || xs.contains(x),
        v.no_duplicates() ==> append_new(v, xs).no_duplicates(),
        v.is_prefix_of(append_new(v, xs)),
    decreases xs.len(),
{
    if xs.len() > 0 {
        let w = append_new(v, xs.drop_last());
        lemma_append_new(v, xs.drop_last());
        assert forall|x: Seq<char>| xs.contains(x) <==> xs.drop_last().contains(x) || x
            == xs.last() by {
            if xs.contains(x) {
                let k = choose|k: int| 0 <= k < xs.len() && xs[k] == x;
                if k < xs.len() - 1 {
                    assert(xs.drop_last()[k] == x);
                }
            }
            if xs.drop_last().contains(x) {
                let k = choose|k: int| 0 <= k < xs.drop_last().len() && xs.drop_last()[k] == x;
                assert(xs[k] == x);
            }
            if x == xs.last() {
                assert(xs[xs.len() - 1] == x);
            }
        }
        if !w.contains(xs.last()) {
            assert forall|x: Seq<char>| w.push(xs.last()).contains(x) <==> w.contains(x) || x
                == xs.last() by {
                if w.push(xs.last()).contains(x) {
                    let k = choose|k: int|
                        0 <= k < w.push(xs.last()).len() && w.push(xs.last())[k] == x;
                    if k < w.len() {
                        assert(w[k] == x);
                    }
                }
                if w.contains(x) {
                    let k = choose|k: int| 0 <= k < w.len() && w[k] == x;
                    assert(w.push(xs.last())[k] == x);
                }
                if x == xs.last() {
                    assert(w.push(xs.last())[w.len() as int] == x);
                }
            }
            assert(v.is_prefix_of(w.push(xs.last())));
            assert(append_new(v, xs) == w.push(xs.last()));
            assert forall|x: Seq<char>| #[trigger]
                append_new(v, xs).contains(x) <==> v.contains(x) || xs.contains(x) by {
                assert(w.contains(x) <==> v.contains(x) || xs.drop_last().contains(x));
                assert(w.push(xs.last()).contains(x) <==> w.contains(x) || x == xs.last());
            }
        } else {
            assert forall|x: Seq<char>| #[trigger]
                append_new(v, xs).contains(x) <==> v.contains(x) || xs.contains(x) by {
                assert(w.contains(x) <==> v.contains(x) || xs.drop_last().contains(x));
            }
        }
    }
}

pub proof fn lemma_push_contains<A>(s: Seq<A>, a: A)
    ensures
        forall|x: A| #[trigger] s.push(a).contains(x) <==> s.contains(x) || x == a,
        s.no_duplicates() && !s.contains(a) ==> s.push(a).no_duplicates(),
{
    assert forall|x: A| #[trigger] s.push(a).contains(x) <==> s.contains(x) || x == a by {
        if s.push(a).contains(x) {
            let k = choose|k: int| 0 <= k < s.push(a).len() && s.push(a)[k] == x;
            if k < s.len() {
                assert(s[k] == x);
            }
        }
        if s.contains(x) {
            let k = choose|k: int| 0 <= k < s.len() && s[k] == x;
            assert(s.push(a)[k] == x);
        }
        if x == a {
            assert(s.push(a)[s.len() as int] == x);
        }
    }
    if s.no_duplicates() && !s.contains(a) {
        assert forall|i: int, j: int|
            0 <= i < s.push(a).len() && 0 <= j < s.push(a).len() && i != j implies s.push(a)[i]
            != s.push(a)[j] by {
            if i < s.len() && j == s.len() {
                assert(s.contains(s[i]));
            }
            if j < s.len() && i == s.len() {
                assert(s.contains(s[j]));
            }
        }
    }
}

pub proof fn lemma_drop_last_contains<A>(s: Seq<A>)
    requires
        s.len() > 0,
    ensures
        forall|x: A| #[trigger] s.contains(x) <==> s.drop_last().contains(x) || x == s.last(),
{
    lemma_push_contains(s.drop_last(), s.last());
    assert(s.drop_last().push(s.last()) =~= s);
}

pub proof fn lemma_concat<A>(a: Seq<A>, b: Seq<A>)
    ensures
        forall|x: A| #[trigger] (a + b).contains(x) <==> a.contains(x) || b.contains(x),
        a.no_duplicates() && b.no_duplicates() && (forall|x: A| a.contains(x) ==> !b.contains(x))
            ==> (a + b).no_duplicates(),
{
    assert forall|x: A| #[trigger] (a + b).contains(x) <==> a.contains(x) || b.contains(x) by {
        if (a + b).contains(x) {
            let k = choose|k: int| 0 <= k < (a + b).len() && (a + b)[k] == x;
            if k < a.len() {
                assert(a[k] == x);
            } else {
                assert(b[k - a.len()] == x);
            }
        }
        if a.contains(x) {
            let k = choose|k: int| 0 <= k < a.len() && a[k] == x;
            assert((a + b)[k] == x);
        }
        if b.contains(x) {
            let k = choose|k: int| 0 <= k < b.len() && b[k] == x;
            assert((a + b)[k + a.len()] == x);
        }
    }
    if a.no_duplicates() && b.no_duplicates() && (forall|x: A| a.contains(x) ==> !b.contains(x)) {
        assert forall|i: int, j: int|
            0 <= i < (a + b).len() && 0 <= j < (a + b).len() && i != j implies (a + b)[i] != (a
                + b)[j] by {
            if i < a.len() && j >= a.len() {
                assert(a.contains(a[i]));
                assert(b.contains(b[j - a.len()]));
            }
            if j < a.len() && i >= a.len() {
                assert(a.contains(a[j]));
                assert(b.contains(b[i - a.len()]));
            }
        }
    }
}

/// A copy of `v`, string by string.
pub fn copy_strs(v: &Vec<String>) -> (r: Vec<String>)
    ensures
        strs(r@) == strs(v@),
{
    let mut r: Vec<String> = Vec::new();
    let mut i: usize = 0;
    while i < v.len()
        invariant
            i <= v.len(),
            strs(r@) == strs(v@.take(i as int)),
        decreases v.len() - i,
    {
        proof {
            lemma_strs_push(r@, v@[i as int]);
            assert(v@.take(i + 1) =~= v@.take(i as int).push(v@[i as int]));
            lemma_strs_push(v@.take(i as int), v@[i as int]);
        }
        r.push(v[i].clone());
        i = i + 1;
    }
    assert(v@.take(v.len() as int) =~= v@);
    r
}

/// Whether `v` holds a string equal to `s`.
pub fn contains_str(v: &Vec<String>, s: &String) -> (r: bool)
    ensures
        r == strs(v@).contains(s@),
{
    let mut i: usize = 0;
    while i < v.len()
        invariant
            i <= v.len(),
            forall|j: int| 0 <= j < i ==> v@[j]@ != s@,
        decreases v.len() - i,
    {
        if v[i] == *s {
            assert(strs(v@)[i as int] == s@);
            return true;
        }
        i = i + 1;
    }
    assert forall|j: int| 0 <= j < strs(v@).len() implies strs(v@)[j] != s@ by {
        assert(strs(v@)[j] == v@[j]@);
    }
    false
}

/// Appends `s` to `v` unless `v` holds it already.
pub fn push_new(v: &mut Vec<String>, s: String)
    ensures
        strs(final(v)@) == (if strs(old(v)@).contains(s@) {
            strs(old(v)@)
        } else {
            strs(old(v)@).push(s@)
        }),
{
    if !contains_str(v, &s) {
        proof {
            lemma_strs_push(v@, s);
        }
        v.push(s);
    }
}

} // verus!
