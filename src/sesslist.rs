//! Sessions: the list the host reports, and the selectable list over them.
use vstd::prelude::*;
use crate::lists::{lemma_strs_push, strs};
use crate::select::{
    moved_down, moved_up, refiltered, row_views, selected, window_rows, ListRow,
    ListState, SelectList,
};

verus! {

/// The icon of a session that is running.
pub const ALIVE_ICON: &'static str = "\u{f011} ";

/// The icon of a closed session that can be brought back.
pub const RESURRECTABLE_ICON: &'static str = "\u{f0904}";

/// A session as the list shows it.
pub struct Session {
    pub name: String,
    pub icon: String,
    pub is_current: bool,
    pub resurrectable: bool,
}

impl View for Session {
    type V = (Seq<char>, Seq<char>, bool, bool);

    open spec fn view(&self) -> (Seq<char>, Seq<char>, bool, bool) {
        (self.name@, self.icon@, self.is_current, self.resurrectable)
    }
}

pub open spec fn session_views(v: Seq<Session>) -> Seq<(Seq<char>, Seq<char>, bool, bool)> {
    v.map_values(|s: Session| s@)
}

/// A running session as the host reports it.
pub struct AliveSession {
    pub name: String,
    pub is_current: bool,
}

/// The sessions of one host report: the running ones in reported order, then
/// the resurrectable ones in reported order, each with its category's icon.
pub open spec fn reported_sessions(
    alive: Seq<AliveSession>,
    resurrectable: Seq<String>,
) -> Seq<(Seq<char>, Seq<char>, bool, bool)> {
    alive.map_values(|a: AliveSession| (a.name@, ALIVE_ICON@, a.is_current, false))
        + resurrectable.map_values(|n: String| (n@, RESURRECTABLE_ICON@, false, true))
}

/// The name of the last running session marked current, or `prev` if none is.
pub open spec fn current_name(alive: Seq<AliveSession>, prev: Seq<char>) -> Seq<char>
    decreases alive.len(),
{
    if alive.len() == 0 {
        prev
    } else if alive.last().is_current {
        alive.last().name@
    } else {
        current_name(alive.drop_last(), prev)
    }
}

/// Builds the session list of one host report.
pub fn sessions_from_update(alive: &Vec<AliveSession>, resurrectable: &Vec<String>) -> (r: Vec<
    Session,
>)
    ensures
        session_views(r@) == reported_sessions(alive@, resurrectable@),
{
    let ghost target = reported_sessions(alive@, resurrectable@);
    let mut out: Vec<Session> = Vec::new();
    let mut i: usize = 0;
    while i < alive.len()
        invariant
            i <= alive.len(),
            target == reported_sessions(alive@, resurrectable@),
            session_views(out@) == target.take(i as int),
        decreases alive.len() - i,
    {
        let s = Session {
            name: alive[i].name.clone(),
            icon: String::from_str(ALIVE_ICON),
            is_current: alive[i].is_current,
            resurrectable: false,
        };
        let ghost before = out@;
        out.push(s);
        assert(session_views(out@) =~= session_views(before).push(s@));
        assert(target.take(i + 1) =~= target.take(i as int).push(target[i as int]));
        i = i + 1;
    }
    let mut j: usize = 0;
    while j < resurrectable.len()
        invariant
            j <= resurrectable.len(),
            target == reported_sessions(alive@, resurrectable@),
            session_views(out@) == target.take(alive.len() + j),
        decreases resurrectable.len() - j,
    {
        let s = Session {
            name: resurrectable[j].clone(),
            icon: String::from_str(RESURRECTABLE_ICON),
            is_current: false,
            resurrectable: true,
        };
        let ghost before = out@;
        out.push(s);
        assert(session_views(out@) =~= session_views(before).push(s@));
        assert(target.take(alive.len() + j + 1) =~= target.take(alive.len() + j).push(
            target[alive.len() + j],
        ));
        j = j + 1;
    }
    assert(target.take(alive.len() + resurrectable.len()) =~= target);
    out
}

/// The current session after a host report: the one it marks current, else
/// the one that was current before.
pub fn current_session(alive: &Vec<AliveSession>, prev: &String) -> (r: String)
    ensures
        r@ == current_name(alive@, prev@),
{
    let mut r = prev.clone();
    let mut i: usize = 0;
    while i < alive.len()
        invariant
            i <= alive.len(),
            r@ == current_name(alive@.take(i as int), prev@),
        decreases alive.len() - i,
    {
        assert(alive@.take(i + 1).drop_last() =~= alive@.take(i as int));
        if alive[i].is_current {
            r = alive[i].name.clone();
        }
        i = i + 1;
    }
    assert(alive@.take(alive.len() as int) =~= alive@);
    r
}

/// The icon of the last session named `n`; empty if there is none.
pub open spec fn icon_of(ss: Seq<(Seq<char>, Seq<char>, bool, bool)>, n: Seq<char>) -> Seq<char>
    decreases ss.len(),
{
    if ss.len() == 0 {
        Seq::empty()
    } else if ss.last().0 == n {
        ss.last().1
    } else {
        icon_of(ss.drop_last(), n)
    }
}

/// How a session is shown: its icon, a space, its name.
pub open spec fn session_label(ss: Seq<(Seq<char>, Seq<char>, bool, bool)>, n: Seq<char>) -> Seq<
    char,
> {
    icon_of(ss, n) + seq![' '] + n
}

pub open spec fn session_names(ss: Seq<(Seq<char>, Seq<char>, bool, bool)>) -> Seq<Seq<char>> {
    ss.map_values(|s: (Seq<char>, Seq<char>, bool, bool)| s.0)
}

/// The selectable list of sessions, filtered by name.
pub struct SessList {
    sessions: Vec<Session>,
    list: SelectList,
}

impl SessList {
    pub closed spec fn sessions(&self) -> Seq<(Seq<char>, Seq<char>, bool, bool)> {
        session_views(self.sessions@)
    }

    pub closed spec fn state(&self) -> ListState {
        self.list@
    }

    pub open spec fn wf(&self) -> bool {
        &&& self.state().inv()
        &&& self.state().source == session_names(self.sessions())
    }

    pub fn new() -> (r: SessList)
        ensures
            r.wf(),
            r.sessions().len() == 0,
            r.state().filtered.len() == 0,
            r.state().term.len() == 0,
            r.state().cursor == 0,
    {
        let r = SessList { sessions: Vec::new(), list: SelectList::new() };
        assert(r.state().source =~= session_names(r.sessions()));
        r
    }

    /// Forgets all sessions and puts the cursor on 0. The search term is
    /// cleared too.
    pub fn reset(&mut self)
        ensures
            final(self).wf(),
            final(self).sessions().len() == 0,
            final(self).state().filtered.len() == 0,
            final(self).state().term.len() == 0,
            final(self).state().cursor == 0,
    {
        *self = SessList::new();
    }

    /// Replaces the sessions; the view is refiltered and the cursor clamped.
    pub fn update_sessions(&mut self, sessions: Vec<Session>)
        requires
            old(self).wf(),
        ensures
            final(self).wf(),
            final(self).sessions() == session_views(sessions@),
            final(self).state() == refiltered(
                old(self).state(),
                session_names(session_views(sessions@)),
                old(self).state().term,
            ),
    {
        let ghost sv = session_views(sessions@);
        let mut names: Vec<String> = Vec::new();
        let mut i: usize = 0;
        while i < sessions.len()
            invariant
                i <= sessions.len(),
                sv == session_views(sessions@),
                strs(names@) == session_names(sv).take(i as int),
            decreases sessions.len() - i,
        {
            proof {
                lemma_strs_push(names@, sessions@[i as int].name);
            }
            names.push(sessions[i].name.clone());
            assert(session_names(sv).take(i + 1) =~= session_names(sv).take(i as int).push(
                sessions@[i as int].name@,
            ));
            i = i + 1;
        }
        assert(session_names(sv).take(sessions.len() as int) =~= session_names(sv));
        self.sessions = sessions;
        self.list.update_source(names);
    }

    pub fn handle_up(&mut self)
        requires
            old(self).wf(),
        ensures
            final(self).wf(),
            final(self).sessions() == old(self).sessions(),
            final(self).state() == moved_up(old(self).state()),
    {
        self.list.handle_up();
    }

    pub fn handle_down(&mut self)
        requires
            old(self).wf(),
        ensures
            final(self).wf(),
            final(self).sessions() == old(self).sessions(),
            final(self).state() == moved_down(old(self).state()),
    {
        self.list.handle_down();
    }

    /// The name of the session under the cursor.
    pub fn get_selected(&self) -> (r: Option<String>)
        ensures
            r is Some == selected(self.state()) is Some,
            r matches Some(s) ==> selected(self.state()) == Some(s@),
    {
        self.list.get_selected()
    }

    /// The session to close: the one under the cursor, if any.
    pub fn kill_selected(&self) -> (r: Option<String>)
        ensures
            r is Some == selected(self.state()) is Some,
            r matches Some(s) ==> selected(self.state()) == Some(s@),
    {
        self.get_selected()
    }

    pub fn set_search_term(&mut self, term: &str)
        requires
            old(self).wf(),
        ensures
            final(self).wf(),
            final(self).sessions() == old(self).sessions(),
            final(self).state() == refiltered(old(self).state(), old(self).state().source, term@),
    {
        self.list.set_search_term(term);
    }

    /// Recomputes the view from the sessions and the search term.
    pub fn filter(&mut self)
        requires
            old(self).wf(),
        ensures
            final(self).wf(),
            final(self).sessions() == old(self).sessions(),
            final(self).state() == refiltered(
                old(self).state(),
                old(self).state().source,
                old(self).state().term,
            ),
    {
        self.list.filter();
    }

    /// The current view, as session names.
    pub fn filtered(&self) -> (r: Vec<String>)
        ensures
            strs(r@) == self.state().filtered,
    {
        self.list.filtered()
    }

    /// The window of `rows` lines: each shown session as its icon, a space
    /// and its name. The width is not used: lines are not cut.
    pub fn render(&self, rows: usize, cols: usize) -> (r: Vec<ListRow>)
        ensures
            row_views(r@) == window_rows(
                self.state(),
                rows as int,
                self.state().filtered.map_values(|n: Seq<char>| session_label(self.sessions(), n)),
            ),
    {
        let filtered = self.list.filtered();
        let ghost fv = strs(filtered@);
        let ghost ls = fv.map_values(|n: Seq<char>| session_label(self.sessions(), n));
        let mut labels: Vec<String> = Vec::new();
        let mut i: usize = 0;
        while i < filtered.len()
            invariant
                i <= filtered.len(),
                fv == strs(filtered@),
                ls == fv.map_values(|n: Seq<char>| session_label(self.sessions(), n)),
                strs(labels@) == ls.take(i as int),
            decreases filtered.len() - i,
        {
            let icon = self.icon_for(&filtered[i]);
            let mut text = icon;
            text.append(" ");
            text.append(filtered[i].as_str());
            proof {
                reveal_strlit(" ");
                lemma_strs_push(labels@, text);
            }
            assert(text@ =~= session_label(self.sessions(), fv[i as int]));
            labels.push(text);
            assert(ls.take(i + 1) =~= ls.take(i as int).push(ls[i as int]));
            i = i + 1;
        }
        assert(ls.take(filtered.len() as int) =~= ls);
        self.list.render_labeled(rows, &labels)
    }

    fn icon_for(&self, name: &String) -> (r: String)
        ensures
            r@ == icon_of(self.sessions(), name@),
    {
        let ghost ss = self.sessions();
        let mut i: usize = self.sessions.len();
        assert(ss.take(i as int) =~= ss);
        while i > 0
            invariant
                i <= self.sessions.len(),
                ss == session_views(self.sessions@),
                icon_of(ss, name@) == icon_of(ss.take(i as int), name@),
            decreases i,
        {
            assert(ss.take(i as int).drop_last() =~= ss.take(i - 1));
            if self.sessions[i - 1].name == *name {
                return self.sessions[i - 1].icon.clone();
            }
            i = i - 1;
        }
        String::new()
    }
}

} // verus!
