//! Plugin configuration: root directories, direct directories, marker files
//! and the layout of new sessions, read from key/value settings.
use vstd::prelude::*;
use crate::lists::{lemma_strs_push, strs};
use crate::path::{host_root, HOST_ROOT};

verus! {

/// The layout a new session opens with: a built-in one by name, or a file.
pub enum Layout {
    BuiltIn(String),
    File(String),
}

/// Whether `l` is built in, and its name or path.
pub open spec fn layout_view(l: Layout) -> (bool, Seq<char>) {
    match l {
        Layout::BuiltIn(n) => (true, n@),
        Layout::File(p) => (false, p@),
    }
}

pub struct Config {
    /// Directories whose children are searched for projects.
    pub root_dirs: Vec<String>,
    /// Directories offered as they are, without a search.
    pub dirs: Vec<String>,
    pub layout: Layout,
    /// Names of the files that mark a project directory.
    pub root_files: Vec<String>,
}

/// `s` cut at each `;`: one piece more than there are separators.
pub open spec fn split_semis(s: Seq<char>) -> Seq<Seq<char>>
    decreases s.len(),
{
    if s.len() == 0 {
        seq![Seq::empty()]
    } else {
        let parts = split_semis(s.drop_last());
        if s.last() == ';' {
            parts.push(Seq::empty())
        } else {
            parts.update(parts.len() - 1, parts.last().push(s.last()))
        }
    }
}

/// `s` without its leading colons.
pub open spec fn trim_colons(s: Seq<char>) -> Seq<char>
    decreases s.len(),
{
    if s.len() > 0 && s[0] == ':' {
        trim_colons(s.drop_first())
    } else {
        s
    }
}

/// A layout setting: `:name` (or more colons) names a built-in layout, any
/// other text is a layout file.
pub open spec fn layout_of(s: Seq<char>) -> (bool, Seq<char>) {
    if s.len() > 0 && s[0] == ':' {
        (true, trim_colons(s))
    } else {
        (false, s)
    }
}

pub open spec fn default_layout() -> (bool, Seq<char>) {
    (true, seq!['d', 'e', 'f', 'a', 'u', 'l', 't'])
}

pub open spec fn default_root_files() -> Seq<Seq<char>> {
    seq![seq!['.', 'g', 'i', 't']]
}

pub open spec fn setting_views(v: Seq<(String, String)>) -> Seq<(Seq<char>, Seq<char>)> {
    v.map_values(|p: (String, String)| (p.0@, p.1@))
}

/// The value of the last setting named `key`.
pub open spec fn setting(v: Seq<(Seq<char>, Seq<char>)>, key: Seq<char>) -> Option<Seq<char>>
    decreases v.len(),
{
    if v.len() == 0 {
        None
    } else if v.last().0 == key {
        Some(v.last().1)
    } else {
        setting(v.drop_last(), key)
    }
}

/// `s` cut at each `;`, empty pieces included.
pub fn split_semicolons(s: &str) -> (r: Vec<String>)
    ensures
        strs(r@) == split_semis(s@),
{
    let n = s.unicode_len();
    let mut parts: Vec<String> = Vec::new();
    let mut start: usize = 0;
    let mut i: usize = 0;
    assert(s@.take(0) =~= Seq::<char>::empty());
    assert(strs(parts@).push(s@.subrange(0, 0)) =~~= seq![Seq::<char>::empty()]);
    while i < n
        invariant
            n == s@.len(),
            start <= i <= n,
            strs(parts@).push(s@.subrange(start as int, i as int)) == split_semis(s@.take(i as int)),
        decreases n - i,
    {
        let ghost prev = split_semis(s@.take(i as int));
        assert(s@.take(i + 1).drop_last() =~= s@.take(i as int));
        if s.get_char(i) == ';' {
            let piece = String::from_str(s.substring_char(start, i));
            proof {
                lemma_strs_push(parts@, piece);
            }
            parts.push(piece);
            start = i + 1;
            assert(s@.subrange(start as int, i + 1) =~= Seq::<char>::empty());
            assert(strs(parts@).push(s@.subrange(start as int, i + 1)) =~~= prev.push(
                Seq::empty(),
            ));
        } else {
            assert(s@.subrange(start as int, i + 1) =~= s@.subrange(start as int, i as int).push(
                s@[i as int],
            ));
            assert(strs(parts@).push(s@.subrange(start as int, i + 1)) =~~= prev.update(
                prev.len() - 1,
                prev.last().push(s@[i as int]),
            ));
        }
        i = i + 1;
    }
    let last = String::from_str(s.substring_char(start, n));
    proof {
        lemma_strs_push(parts@, last);
    }
    parts.push(last);
    assert(s@.take(n as int) =~= s@);
    parts
}

/// The directories of a `;`-separated setting.
pub fn parse_dirs(dirs: &str) -> (r: Vec<String>)
    ensures
        strs(r@) == split_semis(dirs@),
{
    split_semicolons(dirs)
}

/// The marker file names of a `;`-separated setting.
pub fn parse_root_files(root_files: &str) -> (r: Vec<String>)
    ensures
        strs(r@) == split_semis(root_files@),
{
    split_semicolons(root_files)
}

/// The layout of a layout setting.
pub fn parse_layout(layout: &str) -> (r: Layout)
    ensures
        layout_view(r) == layout_of(layout@),
{
    let n = layout.unicode_len();
    let mut i: usize = 0;
    assert(layout@.skip(0) =~= layout@);
    while i < n && layout.get_char(i) == ':'
        invariant
            n == layout@.len(),
            i <= n,
            trim_colons(layout@) == trim_colons(layout@.skip(i as int)),
            forall|j: int| 0 <= j < i ==> layout@[j] == ':',
        decreases n - i,
    {
        assert(layout@.skip(i as int).drop_first() =~= layout@.skip(i + 1));
        i = i + 1;
    }
    assert(layout@.skip(0) =~= layout@);
    if i > 0 {
        let name = String::from_str(layout.substring_char(i, n));
        assert(name@ =~= layout@.skip(i as int));
        Layout::BuiltIn(name)
    } else {
        Layout::File(String::from_str(layout))
    }
}

fn lookup(settings: &Vec<(String, String)>, key: &str) -> (r: Option<String>)
    ensures
        r is Some == setting(setting_views(settings@), key@) is Some,
        r matches Some(v) ==> setting(setting_views(settings@), key@) == Some(v@),
{
    let ghost sv = setting_views(settings@);
    let k = String::from_str(key);
    let mut r: Option<String> = None;
    let mut i: usize = 0;
    while i < settings.len()
        invariant
            i <= settings.len(),
            sv == setting_views(settings@),
            k@ == key@,
            r is Some == setting(sv.take(i as int), key@) is Some,
            r matches Some(v) ==> setting(sv.take(i as int), key@) == Some(v@),
        decreases settings.len() - i,
    {
        assert(sv.take(i + 1).drop_last() =~= sv.take(i as int));
        if settings[i].0 == k {
            r = Some(settings[i].1.clone());
        }
        i = i + 1;
    }
    assert(sv.take(settings.len() as int) =~= sv);
    r
}

fn default_layout_exec() -> (r: Layout)
    ensures
        layout_view(r) == default_layout(),
{
    proof {
        reveal_strlit("default");
    }
    let r = Layout::BuiltIn(String::from_str("default"));
    assert(layout_view(r).1 =~= default_layout().1);
    r
}

fn default_root_files_exec() -> (r: Vec<String>)
    ensures
        strs(r@) == default_root_files(),
{
    proof {
        reveal_strlit(".git");
    }
    let mut r: Vec<String> = Vec::new();
    r.push(String::from_str(".git"));
    assert(strs(r@) =~~= default_root_files());
    r
}

fn default_root_dirs_exec() -> (r: Vec<String>)
    ensures
        strs(r@) == seq![host_root()],
{
    proof {
        reveal_strlit("/host");
    }
    let mut r: Vec<String> = Vec::new();
    r.push(String::from_str(HOST_ROOT));
    assert(HOST_ROOT@ =~= host_root());
    assert(strs(r@) =~~= seq![host_root()]);
    r
}

impl Config {
    /// The configuration of a set of settings. Each key falls back to its
    /// default on its own: `root_dirs` to the host mount point, `dirs` to
    /// none, `session_layout` to the built-in `default`, `root_files` to
    /// `.git`.
    pub fn from_settings(settings: &Vec<(String, String)>) -> (r: Config)
        ensures
            strs(r.root_dirs@) == (match setting(setting_views(settings@), "root_dirs"@) {
                Some(v) => split_semis(v),
                None => seq![host_root()],
            }),
            strs(r.dirs@) == (match setting(setting_views(settings@), "dirs"@) {
                Some(v) => split_semis(v),
                None => Seq::empty(),
            }),
            layout_view(r.layout) == (match setting(setting_views(settings@), "session_layout"@) {
                Some(v) => layout_of(v),
                None => default_layout(),
            }),
            strs(r.root_files@) == (match setting(setting_views(settings@), "root_files"@) {
                Some(v) => split_semis(v),
                None => default_root_files(),
            }),
    {
        let root_dirs = match lookup(settings, "root_dirs") {
            Some(v) => parse_dirs(v.as_str()),
            None => default_root_dirs_exec(),
        };
        let dirs = match lookup(settings, "dirs") {
            Some(v) => parse_dirs(v.as_str()),
            None => {
                let e: Vec<String> = Vec::new();
                assert(strs(e@) =~= Seq::<Seq<char>>::empty());
                e
            },
        };
        let layout = match lookup(settings, "session_layout") {
            Some(v) => parse_layout(v.as_str()),
            None => default_layout_exec(),
        };
        let root_files = match lookup(settings, "root_files") {
            Some(v) => parse_root_files(v.as_str()),
            None => default_root_files_exec(),
        };
        Config { root_dirs, dirs, layout, root_files }
    }
}

impl Default for Config {
    fn default() -> (r: Config)
        ensures
            strs(r.root_dirs@) == seq![host_root()],
            r.dirs@.len() == 0,
            layout_view(r.layout) == default_layout(),
            strs(r.root_files@) == default_root_files(),
    {
        Config {
            root_dirs: default_root_dirs_exec(),
            dirs: Vec::new(),
            layout: default_layout_exec(),
            root_files: default_root_files_exec(),
        }
    }
}

} // verus!
