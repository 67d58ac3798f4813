//! A list with a cursor over its fuzzy-filtered view.
use vstd::prelude::*;
use crate::fuzzy::{fuzzy, fuzzy_filter};
use crate::lists::{copy_strs, strs};

verus! {

/// One line of a rendered list: its text, and whether it is the cursor's.
pub struct ListRow {
    pub text: String,
    pub selected: bool,
}

impl View for ListRow {
    type V = (Seq<char>, bool);

    open spec fn view(&self) -> (Seq<char>, bool) {
        (self.text@, self.selected)
    }
}

pub open spec fn row_views(v: Seq<ListRow>) -> Seq<(Seq<char>, bool)> {
    v.map_values(|r: ListRow| r@)
}

/// A list as a value: its source, the search term, the filtered view of the
/// source, and the cursor into that view.
pub struct ListState {
    pub source: Seq<Seq<char>>,
    pub term: Seq<char>,
    pub filtered: Seq<Seq<char>>,
    pub cursor: int,
}

impl ListState {
    pub open spec fn inv(self) -> bool {
        &&& self.filtered == fuzzy(self.source, self.term)
        &&& self.cursor == 0 || 0 <= self.cursor < self.filtered.len()
    }
}

/// The cursor kept within a view of `n` items: the last item when it would
/// be past it, 0 when the view is empty.
pub open spec fn clamp_cursor(c: int, n: int) -> int {
    if n == 0 {
        0
    } else if c >= n {
        n - 1
    } else {
        c
    }
}

/// The list with a new source (or search term): the view is recomputed and
/// the cursor clamped to it.
pub open spec fn refiltered(st: ListState, source: Seq<Seq<char>>, term: Seq<char>) -> ListState {
    let f = fuzzy(source, term);
    ListState { source, term, filtered: f, cursor: clamp_cursor(st.cursor, f.len() as int) }
}

pub open spec fn moved_down(st: ListState) -> ListState {
    if st.cursor + 1 < st.filtered.len() {
        ListState { cursor: st.cursor + 1, ..st }
    } else {
        st
    }
}

pub open spec fn moved_up(st: ListState) -> ListState {
    if st.cursor > 0 {
        ListState { cursor: st.cursor - 1, ..st }
    } else {
        st
    }
}

/// `n` presses of "down".
pub open spec fn pressed_down(st: ListState, n: nat) -> ListState
    decreases n,
{
    if n == 0 {
        st
    } else {
        moved_down(pressed_down(st, (n - 1) as nat))
    }
}

pub open spec fn selected(st: ListState) -> Option<Seq<char>> {
    if 0 <= st.cursor < st.filtered.len() {
        Some(st.filtered[st.cursor])
    } else {
        None
    }
}

/// First item shown in a window of `rows` lines: the cursor sits in the
/// middle where it can, and the window does not run past the end.
pub open spec fn window_start(cursor: int, rows: int, len: int) -> int {
    let back = if rows == 0 {
        0
    } else {
        (rows - 1) / 2
    };
    let a = if cursor >= back {
        cursor - back
    } else {
        0
    };
    let b = if len >= rows {
        len - rows
    } else {
        0
    };
    if a <= b {
        a
    } else {
        b
    }
}

pub open spec fn window_end(cursor: int, rows: int, len: int) -> int {
    let from = window_start(cursor, rows, len);
    if from + rows <= len {
        from + rows
    } else {
        len
    }
}

/// The blank lines that fill a window of `rows` lines over `len` items.
pub open spec fn blank_rows(rows: int, len: int) -> Seq<(Seq<char>, bool)> {
    Seq::new(
        (if rows > len {
            rows - len
        } else {
            0
        }) as nat,
        |i: int| (Seq::<char>::empty(), false),
    )
}

/// The rendered window: blank lines first, then the shown items under their
/// labels, the cursor's alone marked.
pub open spec fn window_rows(
    st: ListState,
    rows: int,
    labels: Seq<Seq<char>>,
) -> Seq<(Seq<char>, bool)> {
    let len = st.filtered.len() as int;
    let from = window_start(st.cursor, rows, len);
    let end = window_end(st.cursor, rows, len);
    blank_rows(rows, len) + Seq::new(
        (end - from) as nat,
        |k: int| (labels[from + k], from + k == st.cursor),
    )
}

pub proof fn lemma_window_bounds(cursor: int, rows: int, len: int)
    requires
        0 <= cursor,
        0 <= rows,
        0 <= len,
    ensures
        0 <= window_start(cursor, rows, len) <= window_end(cursor, rows, len) <= len,
        window_end(cursor, rows, len) - window_start(cursor, rows, len) <= rows,
{
}

/// Pressing "down" any number of times leaves the cursor on the last item,
/// or on 0 in an empty view, and never past the end.
pub proof fn lemma_down_stops_at_end(st: ListState, n: nat)
    requires
        st.inv(),
        n >= st.filtered.len(),
    ensures
        pressed_down(st, n).cursor == (if st.filtered.len() == 0 {
            0
        } else {
            st.filtered.len() - 1
        }),
        pressed_down(st, n).inv(),
        st.filtered.len() == 0 ==> selected(pressed_down(st, n)) is None,
{
    lemma_pressed_down(st, n);
}

pub proof fn lemma_pressed_down(st: ListState, n: nat)
    requires
        st.inv(),
    ensures
        pressed_down(st, n).inv(),
        pressed_down(st, n).filtered == st.filtered,
        pressed_down(st, n).cursor == (if st.filtered.len() == 0 {
            0
        } else if st.cursor + n < st.filtered.len() {
            st.cursor + n
        } else {
            st.filtered.len() - 1
        }),
    decreases n,
{
    if n > 0 {
        lemma_pressed_down(st, (n - 1) as nat);
    }
}

/// A new source whose view is shorter than the cursor moves the cursor to the
/// last item, not back to the first.
pub proof fn lemma_shrink_keeps_end(st: ListState, source: Seq<Seq<char>>)
    requires
        st.inv(),
        0 < fuzzy(source, st.term).len() <= st.cursor,
    ensures
        refiltered(st, source, st.term).cursor == fuzzy(source, st.term).len() - 1,
        refiltered(st, source, st.term).inv(),
{
}

/// The shared list of directories and sessions.
pub struct SelectList {
    source: Vec<String>,
    search_term: String,
    filtered: Vec<String>,
    cursor: usize,
}

impl View for SelectList {
    type V = ListState;

    closed spec fn view(&self) -> ListState {
        ListState {
            source: strs(self.source@),
            term: self.search_term@,
            filtered: strs(self.filtered@),
            cursor: self.cursor as int,
        }
    }
}

impl SelectList {
    pub open spec fn wf(&self) -> bool {
        self@.inv()
    }

    /// An empty list with an empty search term.
    pub fn new() -> (r: SelectList)
        ensures
            r.wf(),
            r@.source.len() == 0,
            r@.term.len() == 0,
            r@.filtered.len() == 0,
            r@.cursor == 0,
    {
        let r = SelectList {
            source: Vec::new(),
            search_term: String::new(),
            filtered: Vec::new(),
            cursor: 0,
        };
        assert(r@.source =~= Seq::<Seq<char>>::empty());
        assert(r@.filtered =~= Seq::<Seq<char>>::empty());
        r
    }

    /// Clears source, search term and view, and puts the cursor on 0.
    pub fn reset(&mut self)
        ensures
            final(self).wf(),
            final(self)@.source.len() == 0,
            final(self)@.term.len() == 0,
            final(self)@.filtered.len() == 0,
            final(self)@.cursor == 0,
    {
        *self = SelectList::new();
    }

    /// Recomputes the view from the current source and search term, and
    /// clamps the cursor to it.
    pub fn filter(&mut self)
        ensures
            final(self).wf(),
            final(self)@ == refiltered(old(self)@, old(self)@.source, old(self)@.term),
    {
        self.filtered = fuzzy_filter(&self.source, self.search_term.as_str());
        let n = self.filtered.len();
        if n == 0 {
            self.cursor = 0;
        } else if self.cursor >= n {
            self.cursor = n - 1;
        }
    }

    /// Replaces the source; the view follows and the cursor is clamped.
    pub fn update_source(&mut self, source: Vec<String>)
        ensures
            final(self).wf(),
            final(self)@ == refiltered(old(self)@, strs(source@), old(self)@.term),
    {
        self.source = source;
        self.filter();
    }

    /// Replaces the search term; the view follows and the cursor is clamped.
    pub fn set_search_term(&mut self, term: &str)
        ensures
            final(self).wf(),
            final(self)@ == refiltered(old(self)@, old(self)@.source, term@),
    {
        self.search_term = String::from_str(term);
        self.filter();
    }

    /// Moves the cursor one item up, if it is not on the first.
    pub fn handle_up(&mut self)
        requires
            old(self).wf(),
        ensures
            final(self).wf(),
            final(self)@ == moved_up(old(self)@),
    {
        if self.cursor > 0 {
            self.cursor = self.cursor - 1;
        }
    }

    /// Moves the cursor one item down, if it is not on the last.
    pub fn handle_down(&mut self)
        requires
            old(self).wf(),
        ensures
            final(self).wf(),
            final(self)@ == moved_down(old(self)@),
    {
        if self.filtered.len() > 0 && self.cursor < self.filtered.len() - 1 {
            self.cursor = self.cursor + 1;
        }
    }

    /// The item under the cursor, if the view has one there.
    pub fn get_selected(&self) -> (r: Option<String>)
        ensures
            r is Some == selected(self@) is Some,
            r matches Some(s) ==> selected(self@) == Some(s@),
    {
        if self.cursor < self.filtered.len() {
            Some(self.filtered[self.cursor].clone())
        } else {
            None
        }
    }

    /// The current view.
    pub fn filtered(&self) -> (r: Vec<String>)
        ensures
            strs(r@) == self@.filtered,
    {
        copy_strs(&self.filtered)
    }

    /// The cursor's position in the view.
    pub fn cursor(&self) -> (r: usize)
        ensures
            r == self@.cursor,
    {
        self.cursor
    }

    /// The shown part of the view in a window of `rows` lines: its first
    /// index and the index past its last.
    pub fn window(&self, rows: usize) -> (r: (usize, usize))
        ensures
            r.0 == window_start(self@.cursor, rows as int, self@.filtered.len() as int),
            r.1 == window_end(self@.cursor, rows as int, self@.filtered.len() as int),
    {
        let len = self.filtered.len();
        let back: usize = if rows == 0 {
            0
        } else {
            (rows - 1) / 2
        };
        let a: usize = if self.cursor >= back {
            self.cursor - back
        } else {
            0
        };
        let b: usize = if len >= rows {
            len - rows
        } else {
            0
        };
        let from = if a <= b {
            a
        } else {
            b
        };
        let end = if from <= len && rows <= len - from {
            from + rows
        } else {
            len
        };
        (from, end)
    }

    /// The window of `rows` lines as text: each shown item as it is.
    pub fn render(&self, rows: usize) -> (r: Vec<ListRow>)
        ensures
            row_views(r@) == window_rows(self@, rows as int, self@.filtered),
    {
        self.render_labeled(rows, &self.filtered)
    }

    /// The window of `rows` lines as text, each shown item under its label
    /// (`labels[i]` for the view's item `i`).
    pub fn render_labeled(&self, rows: usize, labels: &Vec<String>) -> (r: Vec<ListRow>)
        requires
            labels@.len() == self@.filtered.len(),
        ensures
            row_views(r@) == window_rows(self@, rows as int, strs(labels@)),
    {
        let (from, end) = self.window(rows);
        let mut out = blank_lines(rows, self.filtered.len());
        let ghost blanks = row_views(out@);
        let ghost st = self@;
        let ghost ls = strs(labels@);
        proof {
            lemma_window_bounds(st.cursor, rows as int, st.filtered.len() as int);
        }
        let mut i: usize = from;
        while i < end
            invariant
                st == self@,
                ls == strs(labels@),
                labels@.len() == self.filtered@.len(),
                from <= i <= end <= self.filtered.len(),
                row_views(out@) == blanks + Seq::new(
                    (i - from) as nat,
                    |k: int| (ls[from + k], from + k == st.cursor),
                ),
            decreases end - i,
        {
            let row = ListRow { text: labels[i].clone(), selected: i == self.cursor };
            let ghost before = out@;
            out.push(row);
            assert(row_views(out@) =~= row_views(before).push(row@));
            assert(Seq::new(
                (i + 1 - from) as nat,
                |k: int| (ls[from + k], from + k == st.cursor),
            ) =~= Seq::new((i - from) as nat, |k: int| (ls[from + k], from + k == st.cursor)).push(
                (ls[i as int], i == st.cursor),
            ));
            i = i + 1;
        }
        out
    }
}

/// The blank lines that fill a window of `rows` lines over `len` items.
pub fn blank_lines(rows: usize, len: usize) -> (r: Vec<ListRow>)
    ensures
        row_views(r@) == blank_rows(rows as int, len as int),
{
    let missing: usize = if rows > len {
        rows - len
    } else {
        0
    };
    let mut out: Vec<ListRow> = Vec::new();
    let mut i: usize = 0;
    while i < missing
        invariant
            i <= missing,
            row_views(out@) == Seq::new(i as nat, |j: int| (Seq::<char>::empty(), false)),
        decreases missing - i,
    {
        let ghost before = out@;
        let row = ListRow { text: String::new(), selected: false };
        out.push(row);
        assert(row_views(out@) =~= row_views(before).push(row@));
        assert(row_views(out@) =~= Seq::new((i + 1) as nat, |j: int| (Seq::<char>::empty(), false)));
        i = i + 1;
    }
    out
}

} // verus!
