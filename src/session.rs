//! The review session: selection, focus, changeset visibility and scrolling
//! over a fixed catalog of commits.
//!
//! The session never fetches a changeset itself. An operation that makes the
//! shown changeset stale clears it and hands back the request for the new one;
//! the caller fetches it and passes the outcome to `load_changeset`.
use vstd::prelude::*;

use crate::catalog::CommitRecord;
use crate::classify::{changeset_lines, fetched_view, shows_changeset, ClassifiedLine};

verus! {

/// How much of the selected commit's changeset is shown.
#[derive(Clone, Copy, Debug, PartialEq, Eq, Structural)]
pub enum DiffMode {
    Hidden,
    Stat,
    Full,
}

/// The pane that receives navigation input.
#[derive(Clone, Copy, Debug, PartialEq, Eq, Structural)]
pub enum Focus {
    CommitList,
    DiffPane,
}

/// One input event of the interactive session.
#[derive(Clone, Copy, Debug, PartialEq, Eq, Structural)]
pub enum Input {
    Quit,
    Down,
    Up,
    CycleDiff,
    ToggleFocus,
    PageDown,
    PageUp,
}

/// A changeset that the session needs: the commit's full hash, and whether
/// the full patch (rather than the stat summary) is wanted.
#[derive(Debug)]
pub struct ChangesetRequest {
    pub hash: String,
    pub full: bool,
}

/// The number of lines that one page moves the changeset view.
pub const PAGE_LINES: usize = 10;

/// The abstract state of a session.
pub ghost struct SessionView {
    pub commits: Seq<CommitRecord>,
    pub selected: Option<int>,
    pub mode: DiffMode,
    pub lines: Seq<ClassifiedLine>,
    pub scroll: int,
    pub focus: Focus,
    pub quit: bool,
}

/// The index after `i` in a circular list of `n` items.
pub open spec fn next_index(i: int, n: int) -> int {
    if i + 1 >= n {
        0
    } else {
        i + 1
    }
}

/// The index before `i` in a circular list of `n` items.
pub open spec fn prev_index(i: int, n: int) -> int {
    if i == 0 {
        n - 1
    } else {
        i - 1
    }
}

/// The changeset mode that follows `m` in the cycle Hidden, Stat, Full.
pub open spec fn next_mode(m: DiffMode) -> DiffMode {
    match m {
        DiffMode::Hidden => DiffMode::Stat,
        DiffMode::Stat => DiffMode::Full,
        DiffMode::Full => DiffMode::Hidden,
    }
}

/// The scroll offset `s` brought into `[0, max(1, n) - 1]`.
pub open spec fn clamp_scroll(s: int, n: int) -> int {
    if n <= 0 || s < 0 {
        0
    } else if s < n {
        s
    } else {
        n - 1
    }
}

/// The view of a changeset request.
pub open spec fn request_view(r: Option<ChangesetRequest>) -> Option<(Seq<char>, bool)> {
    match r {
        Some(q) => Some((q.hash@, q.full)),
        None => None,
    }
}

impl SessionView {
    /// The scroll offset lies in `[0, max(1, number of lines))`.
    pub open spec fn scroll_in_range(self) -> bool {
        0 <= self.scroll && (self.scroll == 0 || self.scroll < self.lines.len())
    }

    /// The invariant of every session.
    pub open spec fn wf(self) -> bool {
        &&& (self.selected is None <==> self.commits.len() == 0)
        &&& (self.selected matches Some(i) ==> 0 <= i < self.commits.len())
        &&& self.scroll_in_range()
        &&& (self.focus == Focus::DiffPane ==> self.mode != DiffMode::Hidden)
        &&& (self.mode == DiffMode::Hidden ==> self.lines.len() == 0)
        &&& (self.selected is None ==> self.lines.len() == 0)
    }

    /// The state with the shown changeset dropped, awaiting a new one.
    pub open spec fn cleared(self) -> SessionView {
        SessionView { lines: Seq::empty(), scroll: 0, ..self }
    }

    /// The changeset that this state should show, if any.
    pub open spec fn request(self) -> Option<(Seq<char>, bool)> {
        match self.selected {
            Some(i) => if self.mode == DiffMode::Hidden {
                None
            } else {
                Some((self.commits[i].full_hash@, self.mode == DiffMode::Full))
            },
            None => None,
        }
    }

    pub open spec fn after_next(self) -> SessionView {
        match self.focus {
            Focus::CommitList => match self.selected {
                Some(i) => SessionView {
                    selected: Some(next_index(i, self.commits.len() as int)),
                    ..self
                }.cleared(),
                None => self,
            },
            Focus::DiffPane => if self.scroll + 1 < self.lines.len() {
                SessionView { scroll: self.scroll + 1, ..self }
            } else {
                self
            },
        }
    }

    pub open spec fn after_previous(self) -> SessionView {
        match self.focus {
            Focus::CommitList => match self.selected {
                Some(i) => SessionView {
                    selected: Some(prev_index(i, self.commits.len() as int)),
                    ..self
                }.cleared(),
                None => self,
            },
            Focus::DiffPane => if self.scroll > 0 {
                SessionView { scroll: self.scroll - 1, ..self }
            } else {
                self
            },
        }
    }

    pub open spec fn after_cycle(self) -> SessionView {
        let m = next_mode(self.mode);
        SessionView {
            mode: m,
            focus: if m == DiffMode::Hidden {
                Focus::CommitList
            } else {
                self.focus
            },
            ..self
        }.cleared()
    }

    pub open spec fn after_toggle_focus(self) -> SessionView {
        if self.mode == DiffMode::Hidden {
            self
        } else {
            SessionView {
                focus: match self.focus {
                    Focus::CommitList => Focus::DiffPane,
                    Focus::DiffPane => Focus::CommitList,
                },
                ..self
            }
        }
    }

    pub open spec fn after_page_down(self) -> SessionView {
        if self.focus == Focus::DiffPane {
            SessionView {
                scroll: clamp_scroll(self.scroll + PAGE_LINES, self.lines.len() as int),
                ..self
            }
        } else {
            self
        }
    }

    pub open spec fn after_page_up(self) -> SessionView {
        if self.focus == Focus::DiffPane {
            SessionView {
                scroll: if self.scroll >= PAGE_LINES {
                    self.scroll - PAGE_LINES
                } else {
                    0
                },
                ..self
            }
        } else {
            self
        }
    }

    pub open spec fn after_quit(self) -> SessionView {
        SessionView { quit: true, ..self }
    }

    /// The state after one input event.
    pub open spec fn after_input(self, input: Input) -> SessionView {
        match input {
            Input::Quit => self.after_quit(),
            Input::Down => self.after_next(),
            Input::Up => self.after_previous(),
            Input::CycleDiff => self.after_cycle(),
            Input::ToggleFocus => self.after_toggle_focus(),
            Input::PageDown => self.after_page_down(),
            Input::PageUp => self.after_page_up(),
        }
    }

    /// Whether the input makes the shown changeset stale.
    pub open spec fn refreshes(self, input: Input) -> bool {
        match input {
            Input::Down | Input::Up => self.focus == Focus::CommitList && self.selected is Some,
            Input::CycleDiff => true,
            _ => false,
        }
    }

    /// The request that an operation hands back: the new state's changeset
    /// when the operation made the old one stale, else none.
    pub open spec fn request_after(self, input: Input) -> Option<(Seq<char>, bool)> {
        if self.refreshes(input) {
            self.after_input(input).request()
        } else {
            None
        }
    }
}

/// The interactive session over a catalog of commits.
pub struct Session {
    commits: Vec<CommitRecord>,
    selected: Option<usize>,
    mode: DiffMode,
    lines: Vec<ClassifiedLine>,
    scroll: usize,
    focus: Focus,
    quit: bool,
}

impl View for Session {
    type V = SessionView;

    closed spec fn view(&self) -> SessionView {
        SessionView {
            commits: self.commits@,
            selected: match self.selected {
                Some(i) => Some(i as int),
                None => None,
            },
            mode: self.mode,
            lines: self.lines@,
            scroll: self.scroll as int,
            focus: self.focus,
            quit: self.quit,
        }
    }
}

impl Session {
    #[verifier::type_invariant]
    spec fn inv(&self) -> bool {
        self@.wf()
    }

    /// A session over `commits`: the first commit selected, the stat summary
    /// shown (not yet fetched), the commit list focused.
    pub fn new(commits: Vec<CommitRecord>) -> (r: Session)
        ensures
            r@.commits == commits@,
            r@.selected == (if commits@.len() == 0 {
                None
            } else {
                Some(0int)
            }),
            r@.mode == DiffMode::Stat,
            r@.lines.len() == 0,
            r@.scroll == 0,
            r@.focus == Focus::CommitList,
            !r@.quit,
            r@.wf(),
    {
        let selected = if commits.len() == 0 {
            None
        } else {
            Some(0)
        };
        Session {
            commits,
            selected,
            mode: DiffMode::Stat,
            lines: Vec::new(),
            scroll: 0,
            focus: Focus::CommitList,
            quit: false,
        }
    }

    /// The changeset that the session should show now, if any.
    pub fn changeset_request(&self) -> (r: Option<ChangesetRequest>)
        ensures
            request_view(r) == self@.request(),
    {
        proof {
            use_type_invariant(self);
        }
        request_for(&self.commits, self.selected, self.mode)
    }

    /// Down: in the commit list, selects the next commit (after the last comes
    /// the first); in the changeset pane, scrolls one line down, stopping at
    /// the last line.
    pub fn select_next(&mut self) -> (r: Option<ChangesetRequest>)
        ensures
            final(self)@ == old(self)@.after_next(),
            request_view(r) == old(self)@.request_after(Input::Down),
            final(self)@.wf(),
    {
        proof {
            use_type_invariant(&*self);
            lemma_step_keeps_invariant(self@, Input::Down);
        }
        match self.focus {
            Focus::CommitList => match self.selected {
                Some(i) => {
                    let j = if i >= self.commits.len() - 1 {
                        0
                    } else {
                        i + 1
                    };
                    self.scroll = 0;
                    self.lines = Vec::new();
                    self.selected = Some(j);
                    request_for(&self.commits, self.selected, self.mode)
                },
                None => None,
            },
            Focus::DiffPane => {
                if self.lines.len() > 0 && self.scroll < self.lines.len() - 1 {
                    self.scroll = self.scroll + 1;
                }
                None
            },
        }
    }

    /// Up: in the commit list, selects the previous commit (before the first
    /// comes the last); in the changeset pane, scrolls one line up, stopping
    /// at the first line.
    pub fn select_previous(&mut self) -> (r: Option<ChangesetRequest>)
        ensures
            final(self)@ == old(self)@.after_previous(),
            request_view(r) == old(self)@.request_after(Input::Up),
            final(self)@.wf(),
    {
        proof {
            use_type_invariant(&*self);
            lemma_step_keeps_invariant(self@, Input::Up);
        }
        match self.focus {
            Focus::CommitList => match self.selected {
                Some(i) => {
                    let j = if i == 0 {
                        self.commits.len() - 1
                    } else {
                        i - 1
                    };
                    self.scroll = 0;
                    self.lines = Vec::new();
                    self.selected = Some(j);
                    request_for(&self.commits, self.selected, self.mode)
                },
                None => None,
            },
            Focus::DiffPane => {
                if self.scroll > 0 {
                    self.scroll = self.scroll - 1;
                }
                None
            },
        }
    }

    /// Advances the changeset mode Hidden, Stat, Full, Hidden; hiding the
    /// changeset gives the focus back to the commit list.
    pub fn cycle_diff_mode(&mut self) -> (r: Option<ChangesetRequest>)
        ensures
            final(self)@ == old(self)@.after_cycle(),
            request_view(r) == old(self)@.request_after(Input::CycleDiff),
            final(self)@.wf(),
    {
        proof {
            use_type_invariant(&*self);
            lemma_step_keeps_invariant(self@, Input::CycleDiff);
        }
        let mode = match self.mode {
            DiffMode::Hidden => DiffMode::Stat,
            DiffMode::Stat => DiffMode::Full,
            DiffMode::Full => DiffMode::Hidden,
        };
        self.scroll = 0;
        self.lines = Vec::new();
        if mode == DiffMode::Hidden {
            self.focus = Focus::CommitList;
        }
        self.mode = mode;
        request_for(&self.commits, self.selected, self.mode)
    }

    /// Swaps the focused pane, unless the changeset is hidden.
    pub fn toggle_focus(&mut self)
        ensures
            final(self)@ == old(self)@.after_toggle_focus(),
            old(self)@.mode == DiffMode::Hidden ==> final(self)@ == old(self)@,
            final(self)@.wf(),
    {
        proof {
            use_type_invariant(&*self);
            lemma_step_keeps_invariant(self@, Input::ToggleFocus);
        }
        if self.mode != DiffMode::Hidden {
            self.focus = match self.focus {
                Focus::CommitList => Focus::DiffPane,
                Focus::DiffPane => Focus::CommitList,
            };
        }
    }

    /// In the changeset pane, scrolls a page down, stopping at the last line.
    pub fn page_down(&mut self)
        ensures
            final(self)@ == old(self)@.after_page_down(),
            final(self)@.wf(),
    {
        proof {
            use_type_invariant(&*self);
            lemma_step_keeps_invariant(self@, Input::PageDown);
        }
        if self.focus == Focus::DiffPane {
            let n = self.lines.len();
            let last = if n == 0 {
                0
            } else {
                n - 1
            };
            self.scroll = if self.scroll < last && last - self.scroll > PAGE_LINES {
                self.scroll + PAGE_LINES
            } else {
                last
            };
        }
    }

    /// In the changeset pane, scrolls a page up, stopping at the first line.
    pub fn page_up(&mut self)
        ensures
            final(self)@ == old(self)@.after_page_up(),
            final(self)@.wf(),
    {
        proof {
            use_type_invariant(&*self);
            lemma_step_keeps_invariant(self@, Input::PageUp);
        }
        if self.focus == Focus::DiffPane {
            self.scroll = if self.scroll >= PAGE_LINES {
                self.scroll - PAGE_LINES
            } else {
                0
            };
        }
    }

    /// Marks the session as finished.
    pub fn request_quit(&mut self)
        ensures
            final(self)@ == old(self)@.after_quit(),
            final(self)@.wf(),
    {
        proof {
            use_type_invariant(&*self);
            lemma_step_keeps_invariant(self@, Input::Quit);
        }
        self.quit = true;
    }

    /// Applies one input event; returns the changeset to fetch when the event
    /// made the shown one stale.
    pub fn handle(&mut self, input: Input) -> (r: Option<ChangesetRequest>)
        ensures
            final(self)@ == old(self)@.after_input(input),
            request_view(r) == old(self)@.request_after(input),
            final(self)@.wf(),
    {
        match input {
            Input::Quit => {
                self.request_quit();
                None
            },
            Input::Down => self.select_next(),
            Input::Up => self.select_previous(),
            Input::CycleDiff => self.cycle_diff_mode(),
            Input::ToggleFocus => {
                self.toggle_focus();
                None
            },
            Input::PageDown => {
                self.page_down();
                None
            },
            Input::PageUp => {
                self.page_up();
                None
            },
        }
    }

    /// Shows the outcome of a changeset fetch: its classified lines, or one
    /// line that says it failed. With the changeset hidden or no commit
    /// selected nothing is shown. The scroll offset is clamped to the new lines.
    pub fn load_changeset(&mut self, fetched: Option<&str>)
        ensures
            final(self)@.commits == old(self)@.commits,
            final(self)@.selected == old(self)@.selected,
            final(self)@.mode == old(self)@.mode,
            final(self)@.focus == old(self)@.focus,
            final(self)@.quit == old(self)@.quit,
            old(self)@.request() is None ==> final(self)@.lines.len() == 0,
            old(self)@.request() is Some ==> shows_changeset(final(self)@.lines, fetched_view(fetched)),
            final(self)@.scroll == clamp_scroll(old(self)@.scroll, final(self)@.lines.len() as int),
            final(self)@.wf(),
    {
        proof {
            use_type_invariant(&*self);
        }
        let previous = self.scroll;
        self.scroll = 0;
        if self.mode == DiffMode::Hidden || self.selected.is_none() {
            self.lines = Vec::new();
        } else {
            self.lines = changeset_lines(fetched);
        }
        let n = self.lines.len();
        if n > 0 {
            self.scroll = if previous >= n {
                n - 1
            } else {
                previous
            };
        }
    }

    /// Whether the session has been asked to finish.
    pub fn should_quit(&self) -> (r: bool)
        ensures
            r == self@.quit,
    {
        self.quit
    }

    /// The index of the selected commit; none when there are no commits.
    pub fn selected(&self) -> (r: Option<usize>)
        ensures
            r matches Some(i) ==> self@.selected == Some(i as int),
            r is None ==> self@.selected is None,
    {
        self.selected
    }

    /// The selected commit, if any.
    pub fn selected_commit(&self) -> (r: Option<&CommitRecord>)
        ensures
            r matches Some(c) ==> self@.selected matches Some(i) && *c == self@.commits[i],
            r is None ==> self@.selected is None,
    {
        proof {
            use_type_invariant(self);
        }
        match self.selected {
            Some(i) => Some(&self.commits[i]),
            None => None,
        }
    }

    pub fn diff_mode(&self) -> (r: DiffMode)
        ensures
            r == self@.mode,
    {
        self.mode
    }

    pub fn focus(&self) -> (r: Focus)
        ensures
            r == self@.focus,
    {
        self.focus
    }

    pub fn scroll(&self) -> (r: usize)
        ensures
            r == self@.scroll,
    {
        self.scroll
    }

    /// The classified lines of the shown changeset.
    pub fn lines(&self) -> (r: &Vec<ClassifiedLine>)
        ensures
            r@ == self@.lines,
    {
        &self.lines
    }

    /// The commits of the session, in catalog order.
    pub fn commits(&self) -> (r: &Vec<CommitRecord>)
        ensures
            r@ == self@.commits,
    {
        &self.commits
    }
}

fn request_for(commits: &Vec<CommitRecord>, selected: Option<usize>, mode: DiffMode) -> (r: Option<
    ChangesetRequest,
>)
    requires
        selected matches Some(i) ==> i < commits@.len(),
    ensures
        request_view(r) == (SessionView {
            commits: commits@,
            selected: match selected {
                Some(i) => Some(i as int),
                None => None,
            },
            mode,
            lines: Seq::empty(),
            scroll: 0,
            focus: Focus::CommitList,
            quit: false,
        }).request(),
{
    match selected {
        Some(i) => {
            if mode == DiffMode::Hidden {
                None
            } else {
                Some(ChangesetRequest { hash: commits[i].full_hash.clone(), full: mode == DiffMode::Full })
            }
        },
        None => None,
    }
}

/// Every input keeps the session's invariant; in particular the scroll offset
/// stays in `[0, max(1, number of shown lines))`.
pub proof fn lemma_step_keeps_invariant(s: SessionView, input: Input)
    requires
        s.wf(),
    ensures
        s.after_input(input).wf(),
        0 <= s.after_input(input).scroll,
        s.after_input(input).scroll == 0 || s.after_input(input).scroll < s.after_input(input).lines.len(),
{
}

/// The state after `k` Down events.
pub open spec fn after_next_times(s: SessionView, k: nat) -> SessionView
    decreases k,
{
    if k == 0 {
        s
    } else {
        after_next_times(s, (k - 1) as nat).after_next()
    }
}

proof fn lemma_next_times_selection(s: SessionView, k: nat)
    requires
        s.wf(),
        s.selected is Some,
        k <= s.commits.len(),
    ensures
        after_next_times(s, k).wf(),
        after_next_times(s, k).commits == s.commits,
        after_next_times(s, k).focus == s.focus,
        s.focus == Focus::CommitList ==> after_next_times(s, k).selected == Some(
            if s.selected->0 + k < s.commits.len() {
                s.selected->0 + k
            } else {
                s.selected->0 + k - s.commits.len()
            },
        ),
        s.focus == Focus::DiffPane ==> after_next_times(s, k).selected == s.selected,
    decreases k,
{
    if k > 0 {
        lemma_next_times_selection(s, (k - 1) as nat);
        lemma_step_keeps_invariant(after_next_times(s, (k - 1) as nat), Input::Down);
    }
}

/// Pressing Down as many times as there are commits brings the selection
/// back to where it started.
pub proof fn lemma_next_cycles(s: SessionView)
    requires
        s.wf(),
        s.commits.len() > 0,
    ensures
        after_next_times(s, s.commits.len()).selected == s.selected,
{
    lemma_next_times_selection(s, s.commits.len());
}

/// Three changes of the changeset mode restore it; a change that hides the
/// changeset moves the focus to the commit list.
pub proof fn lemma_cycle_three(s: SessionView)
    ensures
        s.after_cycle().after_cycle().after_cycle().mode == s.mode,
        s.after_cycle().mode == DiffMode::Hidden ==> s.after_cycle().focus == Focus::CommitList,
{
}

/// With the changeset hidden, toggling the focus changes nothing.
pub proof fn lemma_toggle_hidden_noop(s: SessionView)
    requires
        s.mode == DiffMode::Hidden,
    ensures
        s.after_toggle_focus() == s,
{
}

/// Without commits, Down and Up change nothing and nothing is selected.
pub proof fn lemma_empty_navigation(s: SessionView)
    requires
        s.wf(),
        s.commits.len() == 0,
    ensures
        s.after_next() == s,
        s.after_previous() == s,
        s.selected is None,
        s.request() is None,
{
}

} // verus!
