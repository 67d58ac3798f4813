//! Paths as plain strings.
//!
//! A path is a string of components separated by `/`. Paths handed to this
//! library are taken to be in normal form (no repeated and no trailing
//! separators, except for the root `/` itself). As with std's paths, trailing
//! `.` components are not counted, and neither `.` nor `..` is a file name.
use vstd::prelude::*;

verus! {

/// The mount point under which the host filesystem is seen by the scanner.
pub const HOST_ROOT: &'static str = "/host";

pub open spec fn host_root() -> Seq<char> {
    seq!['/', 'h', 'o', 's', 't']
}

/// Index of the last separator of `p`, or -1 when there is none.
pub open spec fn last_sep(p: Seq<char>) -> int
    decreases p.len(),
{
    if p.len() == 0 {
        -1
    } else if p.last() == '/' {
        p.len() - 1
    } else {
        last_sep(p.drop_last())
    }
}

pub proof fn lemma_last_sep_bounds(p: Seq<char>)
    ensures
        -1 <= last_sep(p) < p.len(),
        last_sep(p) >= 0 ==> p[last_sep(p)] == '/',
        forall|j: int| last_sep(p) < j < p.len() ==> p[j] != '/',
    decreases p.len(),
{
    if p.len() > 0 && p.last() != '/' {
        lemma_last_sep_bounds(p.drop_last());
        assert forall|j: int| last_sep(p) < j < p.len() implies p[j] != '/' by {
            if j < p.len() - 1 {
                assert(p[j] == p.drop_last()[j]);
            }
        }
    }
}

/// `p` without its trailing `/.` components.
pub open spec fn strip_cur(p: Seq<char>) -> Seq<char>
    decreases p.len(),
{
    if p.len() >= 2 && p[p.len() - 1] == '.' && p[p.len() - 2] == '/' {
        strip_cur(p.take(p.len() - 2))
    } else {
        p
    }
}

/// The directory that holds `p`, trailing `/.` components left out.
pub open spec fn parent_of(p: Seq<char>) -> Option<Seq<char>> {
    parent_plain(strip_cur(p))
}

/// The last component of `p`, trailing `/.` components left out; `None`
/// when it is empty, `.` or `..`.
pub open spec fn file_name_of(p: Seq<char>) -> Option<Seq<char>> {
    match file_name_plain(strip_cur(p)) {
        Some(n) => if n == seq!['.'] || n == seq!['.', '.'] {
            None
        } else {
            Some(n)
        },
        None => None,
    }
}

/// The directory that holds `p`: `None` for the empty path and for `/`.
pub open spec fn parent_plain(p: Seq<char>) -> Option<Seq<char>> {
    let k = last_sep(p);
    if p.len() == 0 {
        None
    } else if k < 0 {
        Some(Seq::empty())
    } else if k == 0 {
        if p.len() == 1 {
            None
        } else {
            Some(seq!['/'])
        }
    } else {
        Some(p.take(k))
    }
}

/// The last component of `p`, if it is not empty.
pub open spec fn file_name_plain(p: Seq<char>) -> Option<Seq<char>> {
    let name = p.skip(last_sep(p) + 1);
    if name.len() == 0 {
        None
    } else {
        Some(name)
    }
}

/// `b` appended to `a` as a further component; an empty `b` adds nothing.
pub open spec fn join_path(a: Seq<char>, b: Seq<char>) -> Seq<char> {
    if b.len() == 0 {
        a
    } else if a.len() > 0 && a.last() == '/' {
        a + b
    } else {
        a + seq!['/'] + b
    }
}

/// What remains of `p` below `base`, compared component by component.
pub open spec fn strip_prefix_of(p: Seq<char>, base: Seq<char>) -> Option<Seq<char>> {
    if base.len() > 0 && base.last() == '/' && base.is_prefix_of(p) {
        Some(p.skip(base.len() as int))
    } else if p == base {
        Some(Seq::empty())
    } else if (base + seq!['/']).is_prefix_of(p) {
        Some(p.skip(base.len() as int + 1))
    } else {
        None
    }
}

/// A host path as the user addresses it: below the host mount point it is
/// re-rooted at `cwd`; any other path is kept as it is.
pub open spec fn to_user_path(cwd: Seq<char>, p: Seq<char>) -> Seq<char> {
    match strip_prefix_of(p, host_root()) {
        Some(rel) => join_path(cwd, rel),
        None => p,
    }
}

/// The host path of a user directory under `cwd`, if it lies there.
pub open spec fn to_host_path(cwd: Seq<char>, p: Seq<char>) -> Option<Seq<char>> {
    match strip_prefix_of(p, cwd) {
        Some(rel) => Some(join_path(host_root(), rel)),
        None => None,
    }
}

/// A hidden entry: its name starts with a dot, and it is not `.config`.
pub open spec fn is_hidden_spec(p: Seq<char>) -> bool {
    match file_name_of(p) {
        Some(n) => n[0] == '.' && n != seq!['.', 'c', 'o', 'n', 'f', 'i', 'g'],
        None => false,
    }
}

fn last_sep_index(p: &str) -> (r: Option<usize>)
    ensures
        r is None <==> last_sep(p@) < 0,
        r matches Some(k) ==> k == last_sep(p@),
{
    let n = p.unicode_len();
    let mut found: Option<usize> = None;
    let mut i: usize = 0;
    while i < n
        invariant
            n == p@.len(),
            i <= n,
            found is None <==> last_sep(p@.take(i as int)) < 0,
            found matches Some(k) ==> k == last_sep(p@.take(i as int)),
        decreases n - i,
    {
        let c = p.get_char(i);
        assert(p@.take(i + 1).drop_last() =~= p@.take(i as int));
        if c == '/' {
            found = Some(i);
        }
        i = i + 1;
    }
    assert(p@.take(n as int) =~= p@);
    found
}

/// Whether `prefix` is a prefix of `p`, character by character.
fn has_prefix(p: &str, prefix: &str) -> (r: bool)
    ensures
        r == prefix@.is_prefix_of(p@),
{
    let n = p.unicode_len();
    let m = prefix.unicode_len();
    if m > n {
        return false;
    }
    let mut i: usize = 0;
    while i < m
        invariant
            n == p@.len(),
            m == prefix@.len(),
            m <= n,
            i <= m,
            forall|j: int| 0 <= j < i ==> prefix@[j] == p@[j],
        decreases m - i,
    {
        if p.get_char(i) != prefix.get_char(i) {
            return false;
        }
        i = i + 1;
    }
    true
}

fn parent_in(p: &str) -> (r: Option<String>)
    ensures
        r is Some == parent_plain(p@) is Some,
        r matches Some(s) ==> parent_plain(p@) == Some(s@),
{
    let n = p.unicode_len();
    if n == 0 {
        return None;
    }
    proof {
        lemma_last_sep_bounds(p@);
        reveal_strlit("/");
    }
    match last_sep_index(p) {
        None => {
            let e = String::new();
            Some(e)
        },
        Some(k) => {
            if k == 0 {
                if n == 1 {
                    None
                } else {
                    let root = String::from_str("/");
                    assert(root@ =~= seq!['/']);
                    Some(root)
                }
            } else {
                let s = String::from_str(p.substring_char(0, k));
                assert(s@ =~= p@.take(k as int));
                Some(s)
            }
        },
    }
}

fn file_name_in(p: &str) -> (r: Option<String>)
    ensures
        r is Some == file_name_plain(p@) is Some,
        r matches Some(s) ==> file_name_plain(p@) == Some(s@),
{
    let n = p.unicode_len();
    proof {
        lemma_last_sep_bounds(p@);
    }
    let start: usize = match last_sep_index(p) {
        None => 0,
        Some(k) => k + 1,
    };
    if start == n {
        return None;
    }
    let s = String::from_str(p.substring_char(start, n));
    assert(s@ =~= p@.skip(last_sep(p@) + 1));
    Some(s)
}


/// `p` without its trailing `/.` components.
fn without_cur(p: &str) -> (r: &str)
    ensures
        r@ == strip_cur(p@),
{
    let mut n = p.unicode_len();
    assert(p@.take(n as int) =~= p@);
    while n >= 2 && p.get_char(n - 1) == '.' && p.get_char(n - 2) == '/'
        invariant
            n <= p@.len(),
            strip_cur(p@) == strip_cur(p@.take(n as int)),
        decreases n,
    {
        assert(p@.take(n as int).take(n - 2) =~= p@.take(n - 2));
        n = n - 2;
    }
    p.substring_char(0, n)
}

/// The directory that holds `p`.
pub fn parent(p: &str) -> (r: Option<String>)
    ensures
        r is Some == parent_of(p@) is Some,
        r matches Some(s) ==> parent_of(p@) == Some(s@),
{
    parent_in(without_cur(p))
}

/// The last component of `p`.
pub fn file_name(p: &str) -> (r: Option<String>)
    ensures
        r is Some == file_name_of(p@) is Some,
        r matches Some(s) ==> file_name_of(p@) == Some(s@),
{
    match file_name_in(without_cur(p)) {
        Some(n) => {
            let dot = String::from_str(".");
            let dotdot = String::from_str("..");
            proof {
                reveal_strlit(".");
                reveal_strlit("..");
            }
            assert(dot@ =~= seq!['.']);
            assert(dotdot@ =~= seq!['.', '.']);
            if n == dot || n == dotdot {
                None
            } else {
                Some(n)
            }
        },
        None => None,
    }
}

/// `b` appended to `a` as a further component.
pub fn join(a: &str, b: &str) -> (r: String)
    ensures
        r@ == join_path(a@, b@),
{
    let n = a.unicode_len();
    let mut r = String::from_str(a);
    if b.unicode_len() == 0 {
        return r;
    }
    if !(n > 0 && a.get_char(n - 1) == '/') {
        r.append("/");
        proof {
            reveal_strlit("/");
        }
    }
    r.append(b);
    r
}

/// What remains of `p` below `base`.
pub fn strip_prefix(p: &str, base: &str) -> (r: Option<String>)
    ensures
        r is Some == strip_prefix_of(p@, base@) is Some,
        r matches Some(s) ==> strip_prefix_of(p@, base@) == Some(s@),
{
    let n = p.unicode_len();
    let m = base.unicode_len();
    if m > 0 && base.get_char(m - 1) == '/' && has_prefix(p, base) {
        return Some(String::from_str(p.substring_char(m, n)));
    }
    if has_prefix(p, base) && m == n {
        assert(p@ =~= base@);
        return Some(String::new());
    }
    if has_prefix(p, base) && m < n && p.get_char(m) == '/' {
        assert((base@ + seq!['/']).is_prefix_of(p@));
        let s = String::from_str(p.substring_char(m + 1, n));
        assert(s@ =~= p@.skip(m + 1));
        return Some(s);
    }
    assert(p@ != base@ ==> !(base@ + seq!['/']).is_prefix_of(p@) || false) by {
        if (base@ + seq!['/']).is_prefix_of(p@) {
            assert(p@[m as int] == (base@ + seq!['/'])[m as int]);
            assert forall|j: int| 0 <= j < m implies base@[j] == p@[j] by {
                assert((base@ + seq!['/'])[j] == base@[j]);
            }
        }
    }
    None
}

/// A host path as the user addresses it.
pub fn user_path(cwd: &str, p: &str) -> (r: String)
    ensures
        r@ == to_user_path(cwd@, p@),
{
    proof {
        reveal_strlit("/host");
    }
    assert(HOST_ROOT@ =~= host_root());
    match strip_prefix(p, HOST_ROOT) {
        Some(rel) => join(cwd, rel.as_str()),
        None => String::from_str(p),
    }
}

/// The host path of a user directory under `cwd`.
pub fn host_path(cwd: &str, p: &str) -> (r: Option<String>)
    ensures
        r is Some == to_host_path(cwd@, p@) is Some,
        r matches Some(s) ==> to_host_path(cwd@, p@) == Some(s@),
{
    proof {
        reveal_strlit("/host");
    }
    assert(HOST_ROOT@ =~= host_root());
    match strip_prefix(p, cwd) {
        Some(rel) => Some(join(HOST_ROOT, rel.as_str())),
        None => None,
    }
}

/// Whether the entry at `p` is hidden from discovery.
pub fn is_hidden(p: &str) -> (r: bool)
    ensures
        r == is_hidden_spec(p@),
{
    match file_name(p) {
        None => false,
        Some(name) => {
            let dot_config = String::from_str(".config");
            proof {
                reveal_strlit(".config");
            }
            assert(dot_config@ =~= seq!['.', 'c', 'o', 'n', 'f', 'i', 'g']);
            name.as_str().get_char(0) == '.' && !(name == dot_config)
        },
    }
}

} // verus!
