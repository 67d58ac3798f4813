//! The picker: two screens (directories and sessions), one search text, and
//! the decisions taken on each event. The host calls are left to the caller,
//! who performs the returned actions and scans.
use vstd::prelude::*;
use crate::config::{layout_view, Config, Layout};
use crate::discovery::{candidates, entries, initial, lemma_step_inv, step, Discovery, DirEntry, DiscoveryState};
use crate::lists::strs;
use crate::path::{file_name, file_name_of, host_root, join, join_path, strip_prefix, strip_prefix_of, HOST_ROOT};
use crate::select::{moved_down, moved_up, refiltered, row_views, selected, window_rows, ListRow, ListState, SelectList};
use crate::sesslist::{
    current_name, reported_sessions, session_label, session_names, current_session,
    sessions_from_update, AliveSession, SessList,
};

verus! {

#[derive(Clone, Copy, PartialEq, Eq, Structural)]
pub enum Screen {
    SearchDirs,
    SearchSessions,
}

impl Default for Screen {
    fn default() -> (r: Screen)
        ensures
            r == Screen::SearchDirs,
    {
        Screen::SearchDirs
    }
}

/// A key press, as far as the picker tells keys apart.
pub enum Key {
    /// Switch screens.
    Tab,
    /// Close the picker.
    Esc,
    /// Cursor down (Ctrl-N).
    Down,
    /// Cursor up (Ctrl-P).
    Up,
    /// Close the selected session (Ctrl-X).
    Kill,
    /// Take the selected item.
    Enter,
    Backspace,
    Char(char),
    Other,
}

/// What the caller is to do on the host.
pub enum Action {
    Close,
    KillSession(String),
    SwitchSession(String),
    /// Open a session named `name` in `cwd`; its layout is the file at
    /// `layout_path` if there is one (see [`Picker::layout_for`]).
    SwitchToDir { name: String, cwd: String, layout_path: String },
}

pub enum ActionView {
    Close,
    KillSession(Seq<char>),
    SwitchSession(Seq<char>),
    SwitchToDir(Seq<char>, Seq<char>, Seq<char>),
}

impl View for Action {
    type V = ActionView;

    open spec fn view(&self) -> ActionView {
        match self {
            Action::Close => ActionView::Close,
            Action::KillSession(n) => ActionView::KillSession(n@),
            Action::SwitchSession(n) => ActionView::SwitchSession(n@),
            Action::SwitchToDir { name, cwd, layout_path } => ActionView::SwitchToDir(
                name@,
                cwd@,
                layout_path@,
            ),
        }
    }
}

pub open spec fn action_views(v: Seq<Action>) -> Seq<ActionView> {
    v.map_values(|a: Action| a@)
}

/// Where a project's own layout file would be, as a host path.
pub open spec fn layout_path_of(dir: Seq<char>) -> Seq<char> {
    let rel = match strip_prefix_of(dir, seq!['/']) {
        Some(r) => r,
        None => dir,
    };
    join_path(join_path(host_root(), rel), seq!['l', 'a', 'y', 'o', 'u', 't', '.', 'k', 'd', 'l'])
}

/// Taking directory `dir`: switch to a session named after it unless that is
/// the current session (or it has no name), then close.
pub open spec fn dir_actions(dir: Seq<char>, current: Seq<char>) -> Seq<ActionView> {
    match file_name_of(dir) {
        Some(n) if n != current => seq![
            ActionView::SwitchToDir(n, dir, layout_path_of(dir)),
            ActionView::Close,
        ],
        _ => seq![ActionView::Close],
    }
}

/// Taking session `name`: switch to it unless it is the current one, then close.
pub open spec fn session_actions(name: Seq<char>, current: Seq<char>) -> Seq<ActionView> {
    if name != current {
        seq![ActionView::SwitchSession(name), ActionView::Close]
    } else {
        seq![ActionView::Close]
    }
}

/// The picker as a value.
pub struct PickerState {
    pub screen: Screen,
    pub text: Seq<char>,
    pub dump: Seq<char>,
    pub current: Seq<char>,
    pub dirs: ListState,
    pub sess: ListState,
    pub sessions: Seq<(Seq<char>, Seq<char>, bool, bool)>,
    pub engine: DiscoveryState,
}

/// The search text after a backspace.
pub open spec fn erased(t: Seq<char>) -> Seq<char> {
    if t.len() == 0 {
        t
    } else {
        t.drop_last()
    }
}

/// The picker after the search text became `t`: the shown screen's list is
/// refiltered, the other one is left as it is.
pub open spec fn with_text(p: PickerState, t: Seq<char>) -> PickerState {
    if p.screen == Screen::SearchDirs {
        PickerState { text: t, dirs: refiltered(p.dirs, p.dirs.source, t), ..p }
    } else {
        PickerState { text: t, sess: refiltered(p.sess, p.sess.source, t), ..p }
    }
}

/// The picker after a key: the new state and the actions.
pub open spec fn on_key_spec(p: PickerState, key: Key) -> (PickerState, Seq<ActionView>) {
    let on_dirs = p.screen == Screen::SearchDirs;
    match key {
        Key::Tab => (
            PickerState {
                text: p.dump,
                dump: p.text,
                screen: if on_dirs {
                    Screen::SearchSessions
                } else {
                    Screen::SearchDirs
                },
                ..p
            },
            Seq::empty(),
        ),
        Key::Esc => (p, seq![ActionView::Close]),
        Key::Down => (
            if on_dirs {
                PickerState { dirs: moved_down(p.dirs), ..p }
            } else {
                PickerState { sess: moved_down(p.sess), ..p }
            },
            Seq::empty(),
        ),
        Key::Up => (
            if on_dirs {
                PickerState { dirs: moved_up(p.dirs), ..p }
            } else {
                PickerState { sess: moved_up(p.sess), ..p }
            },
            Seq::empty(),
        ),
        Key::Kill => (
            p,
            match selected(p.sess) {
                Some(n) if !on_dirs => seq![ActionView::KillSession(n)],
                _ => Seq::empty(),
            },
        ),
        Key::Enter => (
            p,
            if on_dirs {
                match selected(p.dirs) {
                    Some(d) => dir_actions(d, p.current),
                    None => Seq::empty(),
                }
            } else {
                match selected(p.sess) {
                    Some(n) => session_actions(n, p.current),
                    None => Seq::empty(),
                }
            },
        ),
        Key::Backspace => (with_text(p, erased(p.text)), Seq::empty()),
        Key::Char(c) => (with_text(p, p.text.push(c)), Seq::empty()),
        Key::Other => (p, Seq::empty()),
    }
}

/// Relies on `String::push`: the character is appended at the end.
#[verifier::external_body]
fn push_char(s: &mut String, c: char)
    ensures
        final(s)@ == old(s)@.push(c),
{
    s.push(c);
}

/// The name of a directory's session, and where its layout file would be.
pub fn dir_switch(dir: &String, current: &String) -> (r: Vec<Action>)
    ensures
        action_views(r@) == dir_actions(dir@, current@),
{
    let mut out: Vec<Action> = Vec::new();
    match file_name(dir.as_str()) {
        Some(name) => {
            if !(name == *current) {
                proof {
                    reveal_strlit("/");
                    reveal_strlit("/host");
                    reveal_strlit("layout.kdl");
                }
                assert(HOST_ROOT@ =~= host_root());
                let rel = match strip_prefix(dir.as_str(), "/") {
                    Some(r) => r,
                    None => dir.clone(),
                };
                assert("/"@ =~= seq!['/']);
                let base = join(HOST_ROOT, rel.as_str());
                let layout_path = join(base.as_str(), "layout.kdl");
                assert(layout_path@ =~= layout_path_of(dir@));
                out.push(Action::SwitchToDir { name, cwd: dir.clone(), layout_path });
            }
        },
        None => {},
    }
    out.push(Action::Close);
    assert(action_views(out@) =~= dir_actions(dir@, current@));
    out
}

/// Switching to session `name`: suppressed when it is the current session.
pub fn session_switch(name: &String, current: &String) -> (r: Vec<Action>)
    ensures
        action_views(r@) == session_actions(name@, current@),
{
    let mut out: Vec<Action> = Vec::new();
    if !(*name == *current) {
        out.push(Action::SwitchSession(name.clone()));
    }
    out.push(Action::Close);
    assert(action_views(out@) =~= session_actions(name@, current@));
    out
}

pub struct Picker {
    layout: Layout,
    discovery: Discovery,
    dirlist: SelectList,
    sesslist: SessList,
    text: String,
    text_dump: String,
    screen: Screen,
    current_session: String,
}

impl View for Picker {
    type V = PickerState;

    closed spec fn view(&self) -> PickerState {
        PickerState {
            screen: self.screen,
            text: self.text@,
            dump: self.text_dump@,
            current: self.current_session@,
            dirs: self.dirlist@,
            sess: self.sesslist.state(),
            sessions: self.sesslist.sessions(),
            engine: self.discovery@,
        }
    }
}

impl Picker {
    pub closed spec fn layout_spec(&self) -> (bool, Seq<char>) {
        layout_view(self.layout)
    }

    /// The parts hold their own invariants, and the directory list shows
    /// exactly the projects found so far.
    pub open spec fn wf(&self) -> bool {
        &&& self@.dirs.inv()
        &&& self@.sess.inv()
        &&& self@.sess.source == session_names(self@.sessions)
        &&& self@.engine.inv()
        &&& self@.dirs.source == self@.engine.valid
    }

    /// Loads the picker: discovery starts from the configuration (the
    /// returned paths are to be scanned), the directory list shows the
    /// configured directories, and the directory screen is shown with an
    /// empty search text.
    pub fn load(cwd: &str, config: &Config) -> (r: (Picker, Vec<String>))
        ensures
            r.0.wf(),
            r.0@.engine == initial(
                cwd@,
                strs(config.root_dirs@),
                strs(config.dirs@),
                strs(config.root_files@),
            ),
            strs(r.1@) == r.0@.engine.roots,
            r.0@.dirs.source == r.0@.engine.valid,
            r.0@.dirs.term.len() == 0,
            r.0@.dirs.cursor == 0,
            r.0@.sess.filtered.len() == 0,
            r.0@.sess.term.len() == 0,
            r.0@.sessions.len() == 0,
            r.0@.screen == Screen::SearchDirs,
            r.0@.text.len() == 0,
            r.0@.dump.len() == 0,
            r.0@.current.len() == 0,
            r.0.layout_spec() == layout_view(config.layout),
    {
        let (discovery, plan) = Discovery::new(
            cwd,
            &config.root_dirs,
            &config.dirs,
            &config.root_files,
        );
        let mut dirlist = SelectList::new();
        match plan.publish {
            Some(v) => {
                dirlist.update_source(v);
            },
            None => {},
        }
        let p = Picker {
            layout: copy_layout(&config.layout),
            discovery,
            dirlist,
            sesslist: SessList::new(),
            text: String::new(),
            text_dump: String::new(),
            screen: Screen::SearchDirs,
            current_session: String::new(),
        };
        assert(p@.dirs.source =~= p@.engine.valid);
        assert(p@.sess.source =~= session_names(p@.sessions));
        (p, plan.scans)
    }

    /// Handles a filesystem-update batch; the returned paths are to be
    /// scanned. The directory list takes the projects when there are more.
    pub fn on_filesystem_update(&mut self, batch: &Vec<DirEntry>) -> (scans: Vec<String>)
        requires
            old(self).wf(),
        ensures
            final(self).wf(),
            final(self)@.engine == step(old(self)@.engine, entries(batch@)),
            strs(scans@) == candidates(old(self)@.engine, entries(batch@)),
            final(self)@.dirs == (if final(self)@.engine.valid.len() > old(
                self,
            )@.engine.valid.len() {
                refiltered(old(self)@.dirs, final(self)@.engine.valid, old(self)@.dirs.term)
            } else {
                old(self)@.dirs
            }),
            final(self)@ == (PickerState {
                engine: final(self)@.engine,
                dirs: final(self)@.dirs,
                ..old(self)@
            }),
            final(self).layout_spec() == old(self).layout_spec(),
    {
        proof {
            lemma_step_inv(self@.engine, entries(batch@));
        }
        let plan = self.discovery.process_filesystem_update(batch);
        match plan.publish {
            Some(v) => {
                self.dirlist.update_source(v);
            },
            None => {
                assert(self@.engine.valid =~= old(self)@.engine.valid);
            },
        }
        plan.scans
    }

    /// Handles a session report: the session list is rebuilt from it and the
    /// current session noted.
    pub fn on_session_update(&mut self, alive: &Vec<AliveSession>, resurrectable: &Vec<String>)
        requires
            old(self).wf(),
        ensures
            final(self).wf(),
            final(self)@.sessions == reported_sessions(alive@, resurrectable@),
            final(self)@.current == current_name(alive@, old(self)@.current),
            final(self)@.sess == refiltered(
                old(self)@.sess,
                session_names(reported_sessions(alive@, resurrectable@)),
                old(self)@.sess.term,
            ),
            final(self)@ == (PickerState {
                sessions: final(self)@.sessions,
                current: final(self)@.current,
                sess: final(self)@.sess,
                ..old(self)@
            }),
            final(self).layout_spec() == old(self).layout_spec(),
    {
        self.current_session = current_session(alive, &self.current_session);
        let sessions = sessions_from_update(alive, resurrectable);
        self.sesslist.update_sessions(sessions);
    }

    /// Handles a key press; the returned actions are to be performed in order.
    pub fn on_key(&mut self, key: Key) -> (r: Vec<Action>)
        requires
            old(self).wf(),
        ensures
            final(self).wf(),
            (final(self)@, action_views(r@)) == on_key_spec(old(self)@, key),
            final(self).layout_spec() == old(self).layout_spec(),
    {
        let on_dirs = self.screen == Screen::SearchDirs;
        let mut none: Vec<Action> = Vec::new();
        assert(action_views(none@) =~= Seq::<ActionView>::empty());
        match key {
            Key::Tab => {
                std::mem::swap(&mut self.text, &mut self.text_dump);
                self.screen = if on_dirs {
                    Screen::SearchSessions
                } else {
                    Screen::SearchDirs
                };
                none
            },
            Key::Esc => {
                none.push(Action::Close);
                assert(action_views(none@) =~= seq![ActionView::Close]);
                none
            },
            Key::Down => {
                if on_dirs {
                    self.dirlist.handle_down();
                } else {
                    self.sesslist.handle_down();
                }
                none
            },
            Key::Up => {
                if on_dirs {
                    self.dirlist.handle_up();
                } else {
                    self.sesslist.handle_up();
                }
                none
            },
            Key::Kill => {
                if !on_dirs {
                    match self.sesslist.kill_selected() {
                        Some(n) => {
                            none.push(Action::KillSession(n));
                            assert(action_views(none@) =~= seq![ActionView::KillSession(n@)]);
                        },
                        None => {},
                    }
                }
                none
            },
            Key::Enter => {
                if on_dirs {
                    match self.dirlist.get_selected() {
                        Some(d) => dir_switch(&d, &self.current_session),
                        None => none,
                    }
                } else {
                    match self.sesslist.get_selected() {
                        Some(n) => session_switch(&n, &self.current_session),
                        None => none,
                    }
                }
            },
            Key::Backspace => {
                let n = self.text.as_str().unicode_len();
                if n > 0 {
                    let shorter = String::from_str(self.text.as_str().substring_char(0, n - 1));
                    assert(shorter@ =~= erased(old(self)@.text));
                    self.text = shorter;
                }
                self.refilter_active();
                none
            },
            Key::Char(c) => {
                push_char(&mut self.text, c);
                self.refilter_active();
                none
            },
            Key::Other => none,
        }
    }

    fn refilter_active(&mut self)
        requires
            old(self).wf(),
        ensures
            final(self).wf(),
            final(self)@ == with_text(old(self)@, old(self)@.text),
            final(self).layout_spec() == old(self).layout_spec(),
    {
        if self.screen == Screen::SearchDirs {
            self.dirlist.set_search_term(self.text.as_str());
        } else {
            self.sesslist.set_search_term(self.text.as_str());
        }
    }

    /// The layout of a session opened on a project: the project's own layout
    /// file when it exists, else the configured layout.
    pub fn layout_for(&self, layout_path: &String, exists: bool) -> (r: Layout)
        ensures
            layout_view(r) == (if exists {
                (false, layout_path@)
            } else {
                self.layout_spec()
            }),
    {
        if exists {
            Layout::File(layout_path.clone())
        } else {
            copy_layout(&self.layout)
        }
    }

    /// The shown list in a window of `rows` lines, less four lines kept for
    /// the search text and margins.
    pub fn render(&self, rows: usize, cols: usize) -> (r: Vec<ListRow>)
        ensures
            self@.screen == Screen::SearchDirs ==> row_views(r@) == window_rows(
                self@.dirs,
                list_rows(rows as int),
                self@.dirs.filtered,
            ),
            self@.screen == Screen::SearchSessions ==> row_views(r@) == window_rows(
                self@.sess,
                list_rows(rows as int),
                self@.sess.filtered.map_values(|n: Seq<char>| session_label(self@.sessions, n)),
            ),
    {
        let list_rows: usize = if rows >= 4 {
            rows - 4
        } else {
            0
        };
        if self.screen == Screen::SearchDirs {
            self.dirlist.render(list_rows)
        } else {
            self.sesslist.render(list_rows, cols)
        }
    }

    pub fn screen(&self) -> (r: Screen)
        ensures
            r == self@.screen,
    {
        self.screen
    }

    /// The search text of the shown screen.
    pub fn search_text(&self) -> (r: String)
        ensures
            r@ == self@.text,
    {
        self.text.clone()
    }

    pub fn current_session(&self) -> (r: String)
        ensures
            r@ == self@.current,
    {
        self.current_session.clone()
    }

    pub fn dir_list(&self) -> (r: &SelectList)
        ensures
            r@ == self@.dirs,
    {
        &self.dirlist
    }

    pub fn sess_list(&self) -> (r: &SessList)
        ensures
            r.state() == self@.sess,
            r.sessions() == self@.sessions,
    {
        &self.sesslist
    }

    pub fn discovery(&self) -> (r: &Discovery)
        ensures
            r@ == self@.engine,
    {
        &self.discovery
    }
}

/// Lines left to a list in a window of `rows` lines.
pub open spec fn list_rows(rows: int) -> int {
    if rows >= 4 {
        rows - 4
    } else {
        0
    }
}

fn copy_layout(l: &Layout) -> (r: Layout)
    ensures
        layout_view(r) == layout_view(*l),
{
    match l {
        Layout::BuiltIn(n) => Layout::BuiltIn(n.clone()),
        Layout::File(p) => Layout::File(p.clone()),
    }
}

} // verus!
