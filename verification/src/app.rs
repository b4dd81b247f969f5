//! The viewer's state machine: focus, file selection, preview scrolling,
//! overlays with their search input, and the requests that the front end
//! takes and acts on.

use vstd::prelude::*;

use crate::diagram::DisplayMode;
use crate::text::{char_utf8_width, char_width, lemma_utf8_len_concat, lemma_utf8_len_take_next, utf8_len};

verus! {

/// Which pane receives movement keys.
#[derive(Clone, Copy, Debug, PartialEq, Eq, Structural)]
pub enum Focus {
    FileTree,
    Preview,
}

/// A modal list shown above the panes.
#[derive(Clone, Copy, Debug, PartialEq, Eq, Structural)]
pub enum Overlay {
    Toc,
    FileSearch,
    PageSearch,
}

/// Input to the state machine, as read from the terminal.
#[derive(Clone, Copy, Debug, PartialEq, Eq, Structural)]
pub enum AppEvent {
    MoveDown,
    MoveUp,
    Activate,
    ToggleFocus,
    Reload,
    Resize,
    Tick,
    Quit,
    Back,
    Forward,
    OpenToc,
    OpenFileSearch,
    OpenPageSearch,
    NextResult,
    PreviousResult,
    Input(char),
    Backspace,
    CursorStart,
    CursorEnd,
    CursorLeft,
    CursorRight,
    DeleteForward,
    KillToEnd,
    KillToStart,
    ToggleTreeNode,
    Escape,
}

/// The abstract state of an [`App`]. The query cursor is a character index.
pub struct AppView {
    pub focus: Focus,
    pub is_running: bool,
    pub selected_file_index: usize,
    pub file_count: usize,
    pub tree_cursor: usize,
    pub tree_rows: Seq<Option<usize>>,
    pub preview_scroll: usize,
    pub activation_requested: bool,
    pub reload_requested: bool,
    pub back_requested: bool,
    pub forward_requested: bool,
    pub overlay: Option<Overlay>,
    pub query: Seq<char>,
    pub query_cursor: nat,
    pub selected_result: usize,
    pub result_count: usize,
    pub overlay_submission: Option<Overlay>,
    pub next_page_match_requested: bool,
    pub previous_page_match_requested: bool,
    pub tree_toggle_requested: bool,
    pub display_mode: DisplayMode,
}

/// The viewer state.
#[derive(Debug)]
pub struct App {
    focus: Focus,
    is_running: bool,
    selected_file_index: usize,
    file_count: usize,
    tree_cursor: usize,
    tree_rows: Vec<Option<usize>>,
    preview_scroll: usize,
    activation_requested: bool,
    reload_requested: bool,
    back_requested: bool,
    forward_requested: bool,
    overlay: Option<Overlay>,
    query: Vec<char>,
    query_cursor: usize,
    query_cursor_bytes: usize,
    query_bytes: usize,
    selected_result: usize,
    result_count: usize,
    overlay_submission: Option<Overlay>,
    next_page_match_requested: bool,
    previous_page_match_requested: bool,
    tree_toggle_requested: bool,
    display_mode: DisplayMode,
}

impl View for App {
    type V = AppView;

    closed spec fn view(&self) -> AppView {
        AppView {
            focus: self.focus,
            is_running: self.is_running,
            selected_file_index: self.selected_file_index,
            file_count: self.file_count,
            tree_cursor: self.tree_cursor,
            tree_rows: self.tree_rows@,
            preview_scroll: self.preview_scroll,
            activation_requested: self.activation_requested,
            reload_requested: self.reload_requested,
            back_requested: self.back_requested,
            forward_requested: self.forward_requested,
            overlay: self.overlay,
            query: self.query@,
            query_cursor: self.query_cursor as nat,
            selected_result: self.selected_result,
            result_count: self.result_count,
            overlay_submission: self.overlay_submission,
            next_page_match_requested: self.next_page_match_requested,
            previous_page_match_requested: self.previous_page_match_requested,
            tree_toggle_requested: self.tree_toggle_requested,
            display_mode: self.display_mode,
        }
    }
}

/// The other way of showing Mermaid diagrams.
pub open spec fn toggled(mode: DisplayMode) -> DisplayMode {
    match mode {
        DisplayMode::Rendered => DisplayMode::Source,
        DisplayMode::Source => DisplayMode::Rendered,
    }
}

/// `n - 1`, stopping at zero.
pub open spec fn pred_sat(n: usize) -> usize {
    if n == 0 { 0 } else { (n - 1) as usize }
}

/// `n + 1`, stopping at `usize::MAX`.
pub open spec fn succ_sat(n: usize) -> usize {
    if n == usize::MAX { n } else { (n + 1) as usize }
}

pub open spec fn min_usize(a: usize, b: usize) -> usize {
    if a <= b { a } else { b }
}

/// One step down (clamped to the last of `count` positions) or up (clamped to zero).
pub open spec fn step_within(position: usize, count: usize, down: bool) -> usize {
    if down {
        min_usize(succ_sat(position), pred_sat(count))
    } else {
        pred_sat(position)
    }
}

/// The index of the first row that shows file `file`, if any.
pub open spec fn first_row_of(rows: Seq<Option<usize>>, file: usize) -> Option<int>
    decreases rows.len(),
{
    if rows.len() == 0 {
        None
    } else {
        match first_row_of(rows.drop_last(), file) {
            Some(i) => Some(i),
            None => if rows.last() == Some(file) { Some(rows.len() - 1) } else { None },
        }
    }
}

/// A first-row result points at a matching row and no earlier row matches.
pub proof fn lemma_first_row_of(rows: Seq<Option<usize>>, file: usize)
    ensures
        first_row_of(rows, file) matches Some(i) ==> 0 <= i < rows.len() && rows[i] == Some(file)
            && forall|j: int| 0 <= j < i ==> rows[j] != Some(file),
        first_row_of(rows, file) is None ==> forall|j: int|
            0 <= j < rows.len() ==> rows[j] != Some(file),
    decreases rows.len(),
{
    if rows.len() > 0 {
        lemma_first_row_of(rows.drop_last(), file);
        assert forall|j: int| 0 <= j < rows.len() - 1 implies rows.drop_last()[j] == rows[j] by {}
    }
}

impl AppView {
    /// The query cursor as a byte offset into the UTF-8 text of the query.
    pub open spec fn query_cursor_bytes(self) -> nat {
        utf8_len(self.query.take(self.query_cursor as int))
    }

    /// The state after a new file count, with the selection clamped into range.
    pub open spec fn with_file_count(self, file_count: usize) -> AppView {
        AppView {
            file_count,
            selected_file_index: min_usize(self.selected_file_index, pred_sat(file_count)),
            ..self
        }
    }

    /// The state after a move of the cursor within the file tree (or, with no
    /// rows, of the file selection itself).
    pub open spec fn after_tree_move(self, down: bool) -> AppView {
        if self.tree_rows.len() == 0 {
            self.with_selection(step_within(self.selected_file_index, self.file_count, down))
        } else {
            let cursor = step_within(self.tree_cursor, self.tree_rows.len() as usize, down);
            AppView { tree_cursor: cursor, ..self }.with_selection(
                match self.tree_rows[cursor as int] {
                    Some(file) => file,
                    None => self.selected_file_index,
                },
            )
        }
    }

    /// Selects `file`; a different file resets the preview to its top.
    pub open spec fn with_selection(self, file: usize) -> AppView {
        AppView {
            selected_file_index: file,
            preview_scroll: if file != self.selected_file_index {
                0
            } else {
                self.preview_scroll
            },
            ..self
        }
    }

    pub open spec fn after_move_down(self) -> AppView {
        match self.focus {
            Focus::FileTree => self.after_tree_move(true),
            Focus::Preview => AppView { preview_scroll: succ_sat(self.preview_scroll), ..self },
        }
    }

    pub open spec fn after_move_up(self) -> AppView {
        match self.focus {
            Focus::FileTree => self.after_tree_move(false),
            Focus::Preview => AppView { preview_scroll: pred_sat(self.preview_scroll), ..self },
        }
    }

    pub open spec fn after_activate(self) -> AppView {
        if self.focus == Focus::FileTree && self.tree_cursor < self.tree_rows.len()
            && self.tree_rows[self.tree_cursor as int] is None {
            AppView { tree_toggle_requested: true, ..self }
        } else {
            AppView { activation_requested: true, ..self }
        }
    }

    pub open spec fn after_toggle_focus(self) -> AppView {
        AppView {
            focus: match self.focus {
                Focus::FileTree => Focus::Preview,
                Focus::Preview => Focus::FileTree,
            },
            ..self
        }
    }

    pub open spec fn after_open_overlay(self, overlay: Overlay) -> AppView {
        AppView {
            overlay: Some(overlay),
            query: Seq::empty(),
            query_cursor: 0,
            selected_result: 0,
            ..self
        }
    }

    pub open spec fn after_close_overlay(self) -> AppView {
        AppView { overlay: None, result_count: 0, ..self }
    }

    /// Whether one more character of width `c` still fits the byte offsets.
    pub open spec fn can_insert(self, c: char) -> bool {
        utf8_len(self.query) + char_width(c) <= usize::MAX
    }

    pub open spec fn after_insert(self, c: char) -> AppView {
        if self.can_insert(c) {
            AppView {
                query: self.query.insert(self.query_cursor as int, c),
                query_cursor: self.query_cursor + 1,
                selected_result: 0,
                ..self
            }
        } else {
            self
        }
    }

    pub open spec fn after_backspace(self) -> AppView {
        if self.query_cursor > 0 {
            AppView {
                query: self.query.remove(self.query_cursor - 1),
                query_cursor: (self.query_cursor - 1) as nat,
                selected_result: 0,
                ..self
            }
        } else {
            self
        }
    }

    pub open spec fn after_delete_forward(self) -> AppView {
        if self.query_cursor < self.query.len() {
            AppView {
                query: self.query.remove(self.query_cursor as int),
                selected_result: 0,
                ..self
            }
        } else {
            self
        }
    }

    /// The state after an event while an overlay is open.
    pub open spec fn after_overlay_event(self, event: AppEvent) -> AppView {
        match event {
            AppEvent::Escape => self.after_close_overlay(),
            AppEvent::Activate => AppView {
                overlay_submission: self.overlay,
                ..self
            }.after_close_overlay(),
            AppEvent::MoveDown | AppEvent::NextResult => AppView {
                selected_result: min_usize(
                    succ_sat(self.selected_result),
                    pred_sat(self.result_count),
                ),
                ..self
            },
            AppEvent::MoveUp | AppEvent::PreviousResult => AppView {
                selected_result: pred_sat(self.selected_result),
                ..self
            },
            AppEvent::Input(c) => self.after_insert(c),
            AppEvent::Backspace => self.after_backspace(),
            AppEvent::DeleteForward => self.after_delete_forward(),
            AppEvent::CursorStart => AppView { query_cursor: 0, ..self },
            AppEvent::CursorEnd => AppView { query_cursor: self.query.len(), ..self },
            AppEvent::CursorLeft => AppView {
                query_cursor: if self.query_cursor > 0 {
                    (self.query_cursor - 1) as nat
                } else {
                    0
                },
                ..self
            },
            AppEvent::CursorRight => AppView {
                query_cursor: if self.query_cursor < self.query.len() {
                    self.query_cursor + 1
                } else {
                    self.query_cursor
                },
                ..self
            },
            AppEvent::KillToEnd => AppView {
                query: self.query.take(self.query_cursor as int),
                ..self
            },
            AppEvent::KillToStart => AppView {
                query: self.query.skip(self.query_cursor as int),
                query_cursor: 0,
                ..self
            },
            _ => self,
        }
    }

    /// The state after an event while no overlay is open.
    pub open spec fn after_pane_event(self, event: AppEvent) -> AppView {
        match event {
            AppEvent::MoveDown | AppEvent::Input('j') => self.after_move_down(),
            AppEvent::MoveUp | AppEvent::Input('k') => self.after_move_up(),
            AppEvent::Activate => self.after_activate(),
            AppEvent::ToggleFocus => self.after_toggle_focus(),
            AppEvent::Reload => AppView { reload_requested: true, ..self },
            AppEvent::Quit | AppEvent::Input('q') => AppView { is_running: false, ..self },
            AppEvent::Back | AppEvent::Input('[') => AppView { back_requested: true, ..self },
            AppEvent::Forward | AppEvent::Input(']') => AppView {
                forward_requested: true,
                ..self
            },
            AppEvent::OpenToc | AppEvent::Input('t') => self.after_open_overlay(Overlay::Toc),
            AppEvent::OpenFileSearch | AppEvent::Input('f') => self.after_open_overlay(
                Overlay::FileSearch,
            ),
            AppEvent::OpenPageSearch | AppEvent::Input('/') => self.after_open_overlay(
                Overlay::PageSearch,
            ),
            AppEvent::Input('n') => AppView { next_page_match_requested: true, ..self },
            AppEvent::Input('N') => AppView { previous_page_match_requested: true, ..self },
            AppEvent::Input('m') => AppView { display_mode: toggled(self.display_mode), ..self },
            AppEvent::Input(' ') | AppEvent::ToggleTreeNode => if self.focus == Focus::FileTree {
                AppView { tree_toggle_requested: true, ..self }
            } else {
                self
            },
            _ => self,
        }
    }

    /// The state after `event`.
    pub open spec fn after_event(self, event: AppEvent) -> AppView {
        if self.overlay is Some {
            self.after_overlay_event(event)
        } else {
            self.after_pane_event(event)
        }
    }

    /// The state after the selection jumps to `file_index` at `scroll`.
    pub open spec fn after_navigate(self, file_index: usize, scroll: usize) -> AppView {
        let selected = min_usize(file_index, pred_sat(self.file_count));
        AppView {
            selected_file_index: selected,
            tree_cursor: match first_row_of(self.tree_rows, selected) {
                Some(i) => i as usize,
                None => self.tree_cursor,
            },
            preview_scroll: scroll,
            focus: Focus::Preview,
            ..self
        }
    }

    /// The state after the file tree shows `rows`.
    pub open spec fn with_tree_rows(self, rows: Seq<Option<usize>>) -> AppView {
        AppView {
            tree_rows: rows,
            tree_cursor: match first_row_of(rows, self.selected_file_index) {
                Some(i) => i as usize,
                None => min_usize(self.tree_cursor, pred_sat(rows.len() as usize)),
            },
            ..self
        }
    }

    /// The query cursor lies on a character of the query, and the tree cursor
    /// on a row (or at zero when there are no rows).
    pub open spec fn is_consistent(self) -> bool {
        &&& self.query_cursor <= self.query.len()
        &&& utf8_len(self.query) <= usize::MAX
        &&& self.tree_rows.len() <= usize::MAX
        &&& (self.tree_rows.len() == 0 ==> self.tree_cursor == 0)
        &&& (self.tree_rows.len() > 0 ==> self.tree_cursor < self.tree_rows.len())
    }
}

impl App {
    /// The internal invariant: the byte offsets agree with the characters.
    pub closed spec fn wf(&self) -> bool {
        &&& self@.is_consistent()
        &&& self.query_cursor_bytes == self@.query_cursor_bytes()
        &&& self.query_bytes == utf8_len(self.query@)
    }

    pub proof fn lemma_wf_consistent(&self)
        requires
            self.wf(),
        ensures
            self@.is_consistent(),
    {
    }

    /// A running viewer with the file tree focused and nothing selected yet.
    pub fn new() -> (app: Self)
        ensures
            app.wf(),
            app@ == (AppView {
                focus: Focus::FileTree,
                is_running: true,
                selected_file_index: 0,
                file_count: usize::MAX,
                tree_cursor: 0,
                tree_rows: Seq::empty(),
                preview_scroll: 0,
                activation_requested: false,
                reload_requested: false,
                back_requested: false,
                forward_requested: false,
                overlay: None,
                query: Seq::empty(),
                query_cursor: 0,
                selected_result: 0,
                result_count: 0,
                overlay_submission: None,
                next_page_match_requested: false,
                previous_page_match_requested: false,
                tree_toggle_requested: false,
                display_mode: DisplayMode::Rendered,
            }),
    {
        let app = App {
            focus: Focus::FileTree,
            is_running: true,
            selected_file_index: 0,
            file_count: usize::MAX,
            tree_cursor: 0,
            tree_rows: Vec::new(),
            preview_scroll: 0,
            activation_requested: false,
            reload_requested: false,
            back_requested: false,
            forward_requested: false,
            overlay: None,
            query: Vec::new(),
            query_cursor: 0,
            query_cursor_bytes: 0,
            query_bytes: 0,
            selected_result: 0,
            result_count: 0,
            overlay_submission: None,
            next_page_match_requested: false,
            previous_page_match_requested: false,
            tree_toggle_requested: false,
            display_mode: DisplayMode::Rendered,
        };
        assert(app.query@.take(0) =~= Seq::<char>::empty());
        app
    }

    pub fn focus(&self) -> (focus: Focus)
        ensures
            focus == self@.focus,
    {
        self.focus
    }

    /// Whether Mermaid diagrams show rendered or as source; `m` switches.
    pub fn display_mode(&self) -> (mode: DisplayMode)
        ensures
            mode == self@.display_mode,
    {
        self.display_mode
    }

    pub fn is_running(&self) -> (running: bool)
        ensures
            running == self@.is_running,
    {
        self.is_running
    }

    pub fn selected_file_index(&self) -> (index: usize)
        ensures
            index == self@.selected_file_index,
    {
        self.selected_file_index
    }

    pub fn tree_cursor(&self) -> (cursor: usize)
        ensures
            cursor == self@.tree_cursor,
    {
        self.tree_cursor
    }

    /// Moves the tree cursor to `cursor`, clamped to the last row.
    pub fn set_tree_cursor(&mut self, cursor: usize)
        requires
            old(self).wf(),
        ensures
            final(self).wf(),
            final(self)@ == (AppView {
                tree_cursor: min_usize(cursor, pred_sat(old(self)@.tree_rows.len() as usize)),
                ..old(self)@
            }),
    {
        let last = if self.tree_rows.len() == 0 { 0 } else { self.tree_rows.len() - 1 };
        self.tree_cursor = if cursor <= last { cursor } else { last };
    }

    pub fn preview_scroll(&self) -> (scroll: usize)
        ensures
            scroll == self@.preview_scroll,
    {
        self.preview_scroll
    }

    pub fn overlay(&self) -> (overlay: Option<Overlay>)
        ensures
            overlay == self@.overlay,
    {
        self.overlay
    }

    /// The search input typed into the open overlay.
    pub fn query(&self) -> (query: String)
        ensures
            query@ == self@.query,
    {
        crate::text::string_from_chars(&self.query)
    }

    /// The input cursor as a byte offset into [`App::query`].
    pub fn query_cursor(&self) -> (cursor: usize)
        requires
            self.wf(),
        ensures
            cursor == self@.query_cursor_bytes(),
    {
        self.query_cursor_bytes
    }

    pub fn selected_result(&self) -> (index: usize)
        ensures
            index == self@.selected_result,
    {
        self.selected_result
    }

    /// Records how many files the workspace holds and clamps the selection.
    pub fn set_file_count(&mut self, file_count: usize)
        requires
            old(self).wf(),
        ensures
            final(self).wf(),
            final(self)@ == old(self)@.with_file_count(file_count),
    {
        self.file_count = file_count;
        let last = if file_count == 0 { 0 } else { file_count - 1 };
        if self.selected_file_index > last {
            self.selected_file_index = last;
        }
    }

    /// The first row that shows `file`, searched from the top.
    fn row_of(&self, file: usize) -> (row: Option<usize>)
        ensures
            row matches Some(i) ==> first_row_of(self.tree_rows@, file) == Some(i as int),
            row is None ==> first_row_of(self.tree_rows@, file) is None,
    {
        let mut i: usize = 0;
        while i < self.tree_rows.len()
            invariant
                i <= self.tree_rows.len(),
                first_row_of(self.tree_rows@.take(i as int), file) is None,
            decreases self.tree_rows.len() - i,
        {
            let found = match self.tree_rows[i] {
                Some(f) => f == file,
                None => false,
            };
            assert(self.tree_rows@.take(i + 1).drop_last() =~= self.tree_rows@.take(i as int));
            if found {
                proof {
                    lemma_first_row_prefix(self.tree_rows@, file, i + 1);
                }
                return Some(i);
            }
            i = i + 1;
        }
        assert(self.tree_rows@.take(i as int) =~= self.tree_rows@);
        None
    }

    /// Replaces the rows of the file tree and puts the cursor on the selected
    /// file's row, or clamps it when that file has no row.
    pub fn set_tree_rows(&mut self, rows: Vec<Option<usize>>)
        requires
            old(self).wf(),
        ensures
            final(self).wf(),
            final(self)@ == old(self)@.with_tree_rows(rows@),
    {
        let row_count = rows.len();
        self.tree_rows = rows;
        assert(self.tree_rows@.len() == row_count);
        let row = self.row_of(self.selected_file_index);
        proof {
            lemma_first_row_of(self.tree_rows@, self.selected_file_index);
        }
        match row {
            Some(i) => {
                self.tree_cursor = i;
            },
            None => {
                let last = if self.tree_rows.len() == 0 { 0 } else { self.tree_rows.len() - 1 };
                if self.tree_cursor > last {
                    self.tree_cursor = last;
                }
            },
        }
    }

    /// Records how many results the open overlay lists and clamps the selection.
    pub fn set_result_count(&mut self, count: usize)
        requires
            old(self).wf(),
        ensures
            final(self).wf(),
            final(self)@ == (AppView {
                result_count: count,
                selected_result: min_usize(old(self)@.selected_result, pred_sat(count)),
                ..old(self)@
            }),
    {
        self.result_count = count;
        let last = if count == 0 { 0 } else { count - 1 };
        if self.selected_result > last {
            self.selected_result = last;
        }
    }

    /// Shows file `file_index` (clamped to the file count) at `scroll` and
    /// focuses the preview.
    #[verifier::rlimit(60)]
    pub fn navigate_to(&mut self, file_index: usize, scroll: usize)
        requires
            old(self).wf(),
        ensures
            final(self).wf(),
            final(self)@ == old(self)@.after_navigate(file_index, scroll),
    {
        let last = if self.file_count == 0 { 0 } else { self.file_count - 1 };
        self.selected_file_index = if file_index <= last { file_index } else { last };
        let row = self.row_of(self.selected_file_index);
        proof {
            lemma_first_row_of(self.tree_rows@, self.selected_file_index);
        }
        if let Some(i) = row {
            self.tree_cursor = i;
        }
        self.preview_scroll = scroll;
        self.focus = Focus::Preview;
    }

    pub fn take_activation_request(&mut self) -> (requested: bool)
        requires
            old(self).wf(),
        ensures
            final(self).wf(),
            requested == old(self)@.activation_requested,
            final(self)@ == (AppView { activation_requested: false, ..old(self)@ }),
    {
        let requested = self.activation_requested;
        self.activation_requested = false;
        requested
    }

    pub fn take_reload_request(&mut self) -> (requested: bool)
        requires
            old(self).wf(),
        ensures
            final(self).wf(),
            requested == old(self)@.reload_requested,
            final(self)@ == (AppView { reload_requested: false, ..old(self)@ }),
    {
        let requested = self.reload_requested;
        self.reload_requested = false;
        requested
    }

    pub fn take_back_request(&mut self) -> (requested: bool)
        requires
            old(self).wf(),
        ensures
            final(self).wf(),
            requested == old(self)@.back_requested,
            final(self)@ == (AppView { back_requested: false, ..old(self)@ }),
    {
        let requested = self.back_requested;
        self.back_requested = false;
        requested
    }

    pub fn take_forward_request(&mut self) -> (requested: bool)
        requires
            old(self).wf(),
        ensures
            final(self).wf(),
            requested == old(self)@.forward_requested,
            final(self)@ == (AppView { forward_requested: false, ..old(self)@ }),
    {
        let requested = self.forward_requested;
        self.forward_requested = false;
        requested
    }

    pub fn take_overlay_submission(&mut self) -> (submission: Option<Overlay>)
        requires
            old(self).wf(),
        ensures
            final(self).wf(),
            submission == old(self)@.overlay_submission,
            final(self)@ == (AppView { overlay_submission: None, ..old(self)@ }),
    {
        let submission = self.overlay_submission;
        self.overlay_submission = None;
        submission
    }

    pub fn take_next_page_match_request(&mut self) -> (requested: bool)
        requires
            old(self).wf(),
        ensures
            final(self).wf(),
            requested == old(self)@.next_page_match_requested,
            final(self)@ == (AppView { next_page_match_requested: false, ..old(self)@ }),
    {
        let requested = self.next_page_match_requested;
        self.next_page_match_requested = false;
        requested
    }

    pub fn take_previous_page_match_request(&mut self) -> (requested: bool)
        requires
            old(self).wf(),
        ensures
            final(self).wf(),
            requested == old(self)@.previous_page_match_requested,
            final(self)@ == (AppView { previous_page_match_requested: false, ..old(self)@ }),
    {
        let requested = self.previous_page_match_requested;
        self.previous_page_match_requested = false;
        requested
    }

    pub fn take_tree_toggle_request(&mut self) -> (requested: bool)
        requires
            old(self).wf(),
        ensures
            final(self).wf(),
            requested == old(self)@.tree_toggle_requested,
            final(self)@ == (AppView { tree_toggle_requested: false, ..old(self)@ }),
    {
        let requested = self.tree_toggle_requested;
        self.tree_toggle_requested = false;
        requested
    }

    /// Applies one event. With an overlay open, every event goes to the
    /// overlay and its search input.
    pub fn update(&mut self, event: AppEvent)
        requires
            old(self).wf(),
        ensures
            final(self).wf(),
            final(self)@ == old(self)@.after_event(event),
    {
        if self.overlay.is_some() {
            self.update_overlay(event);
        } else {
            self.update_panes(event);
        }
    }

    #[verifier::rlimit(60)]
    fn update_panes(&mut self, event: AppEvent)
        requires
            old(self).wf(),
            old(self)@.overlay is None,
        ensures
            final(self).wf(),
            final(self)@ == old(self)@.after_pane_event(event),
    {
        match event {
            AppEvent::MoveDown => self.move_down(),
            AppEvent::MoveUp => self.move_up(),
            AppEvent::Activate => self.activate_tree_item(),
            AppEvent::ToggleFocus => self.toggle_focus(),
            AppEvent::Reload => self.reload_requested = true,
            AppEvent::Quit => self.is_running = false,
            AppEvent::Back => self.back_requested = true,
            AppEvent::Forward => self.forward_requested = true,
            AppEvent::OpenToc => self.open_overlay(Overlay::Toc),
            AppEvent::OpenFileSearch => self.open_overlay(Overlay::FileSearch),
            AppEvent::OpenPageSearch => self.open_overlay(Overlay::PageSearch),
            AppEvent::Input(c) => self.update_key(c),
            AppEvent::ToggleTreeNode => {
                if self.focus == Focus::FileTree {
                    self.tree_toggle_requested = true;
                }
            },
            _ => {},
        }
    }

    /// A typed character outside overlays: the single-key commands.
    #[verifier::rlimit(40)]
    fn update_key(&mut self, c: char)
        requires
            old(self).wf(),
            old(self)@.overlay is None,
        ensures
            final(self).wf(),
            final(self)@ == old(self)@.after_pane_event(AppEvent::Input(c)),
    {
        if c == 'j' {
            self.move_down();
        } else if c == 'k' {
            self.move_up();
        } else if c == 'q' {
            self.is_running = false;
        } else if c == '[' {
            self.back_requested = true;
        } else if c == ']' {
            self.forward_requested = true;
        } else if c == 't' {
            self.open_overlay(Overlay::Toc);
        } else if c == 'f' {
            self.open_overlay(Overlay::FileSearch);
        } else if c == '/' {
            self.open_overlay(Overlay::PageSearch);
        } else if c == 'n' {
            self.next_page_match_requested = true;
        } else if c == 'N' {
            self.previous_page_match_requested = true;
        } else if c == 'm' {
            self.display_mode = match self.display_mode {
                DisplayMode::Rendered => DisplayMode::Source,
                DisplayMode::Source => DisplayMode::Rendered,
            };
        } else if c == ' ' && self.focus == Focus::FileTree {
            self.tree_toggle_requested = true;
        }
    }

    fn update_overlay(&mut self, event: AppEvent)
        requires
            old(self).wf(),
            old(self)@.overlay is Some,
        ensures
            final(self).wf(),
            final(self)@ == old(self)@.after_overlay_event(event),
    {
        match event {
            AppEvent::Escape => self.close_overlay(),
            AppEvent::Activate => self.submit_overlay(),
            AppEvent::MoveDown | AppEvent::NextResult => self.select_next_result(),
            AppEvent::MoveUp | AppEvent::PreviousResult => self.select_previous_result(),
            AppEvent::Input(c) => self.insert_query_character(c),
            AppEvent::Backspace => self.delete_query_character_before_cursor(),
            AppEvent::DeleteForward => self.delete_query_character_at_cursor(),
            AppEvent::CursorStart => self.move_query_cursor_to_start(),
            AppEvent::CursorEnd => self.move_query_cursor_to_end(),
            AppEvent::CursorLeft => self.move_query_cursor_left(),
            AppEvent::CursorRight => self.move_query_cursor_right(),
            AppEvent::KillToEnd => self.kill_query_to_end(),
            AppEvent::KillToStart => self.kill_query_to_start(),
            _ => {},
        }
    }

    fn submit_overlay(&mut self)
        requires
            old(self).wf(),
        ensures
            final(self).wf(),
            final(self)@ == (AppView {
                overlay_submission: old(self)@.overlay,
                ..old(self)@
            }).after_close_overlay(),
    {
        self.overlay_submission = self.overlay;
        self.close_overlay();
    }

    fn select_next_result(&mut self)
        requires
            old(self).wf(),
        ensures
            final(self).wf(),
            final(self)@ == (AppView {
                selected_result: min_usize(
                    succ_sat(old(self)@.selected_result),
                    pred_sat(old(self)@.result_count),
                ),
                ..old(self)@
            }),
    {
        let next = if self.selected_result == usize::MAX {
            self.selected_result
        } else {
            self.selected_result + 1
        };
        let last = if self.result_count == 0 { 0 } else { self.result_count - 1 };
        self.selected_result = if next <= last { next } else { last };
    }

    fn select_previous_result(&mut self)
        requires
            old(self).wf(),
        ensures
            final(self).wf(),
            final(self)@ == (AppView {
                selected_result: pred_sat(old(self)@.selected_result),
                ..old(self)@
            }),
    {
        if self.selected_result > 0 {
            self.selected_result = self.selected_result - 1;
        }
    }

    fn move_query_cursor_to_start(&mut self)
        requires
            old(self).wf(),
        ensures
            final(self).wf(),
            final(self)@ == (AppView { query_cursor: 0, ..old(self)@ }),
    {
        self.query_cursor = 0;
        self.query_cursor_bytes = 0;
        assert(self.query@.take(0) =~= Seq::<char>::empty());
    }

    fn move_query_cursor_to_end(&mut self)
        requires
            old(self).wf(),
        ensures
            final(self).wf(),
            final(self)@ == (AppView { query_cursor: old(self)@.query.len(), ..old(self)@ }),
    {
        self.query_cursor = self.query.len();
        self.query_cursor_bytes = self.query_bytes;
        assert(self.query@.take(self.query@.len() as int) =~= self.query@);
    }

    fn move_query_cursor_left(&mut self)
        requires
            old(self).wf(),
        ensures
            final(self).wf(),
            final(self)@ == (AppView {
                query_cursor: if old(self)@.query_cursor > 0 {
                    (old(self)@.query_cursor - 1) as nat
                } else {
                    0
                },
                ..old(self)@
            }),
    {
        if self.query_cursor > 0 {
            let w = char_utf8_width(self.query[self.query_cursor - 1]);
            proof {
                lemma_utf8_len_take_next(self.query@, self.query_cursor - 1);
            }
            self.query_cursor = self.query_cursor - 1;
            self.query_cursor_bytes = self.query_cursor_bytes - w;
        }
    }

    fn move_query_cursor_right(&mut self)
        requires
            old(self).wf(),
        ensures
            final(self).wf(),
            final(self)@ == (AppView {
                query_cursor: if old(self)@.query_cursor < old(self)@.query.len() {
                    old(self)@.query_cursor + 1
                } else {
                    old(self)@.query_cursor
                },
                ..old(self)@
            }),
    {
        if self.query_cursor < self.query.len() {
            let w = char_utf8_width(self.query[self.query_cursor]);
            proof {
                lemma_utf8_len_take_next(self.query@, self.query_cursor as int);
                lemma_prefix_le(self.query@, self.query_cursor + 1);
            }
            self.query_cursor = self.query_cursor + 1;
            self.query_cursor_bytes = self.query_cursor_bytes + w;
        }
    }

    fn kill_query_to_end(&mut self)
        requires
            old(self).wf(),
        ensures
            final(self).wf(),
            final(self)@ == (AppView {
                query: old(self)@.query.take(old(self)@.query_cursor as int),
                ..old(self)@
            }),
    {
        self.query.truncate(self.query_cursor);
        self.query_bytes = self.query_cursor_bytes;
        assert(self.query@.take(self.query_cursor as int) =~= self.query@);
    }

    fn kill_query_to_start(&mut self)
        requires
            old(self).wf(),
        ensures
            final(self).wf(),
            final(self)@ == (AppView {
                query: old(self)@.query.skip(old(self)@.query_cursor as int),
                query_cursor: 0,
                ..old(self)@
            }),
    {
        proof {
            lemma_utf8_len_concat(
                self.query@.take(self.query_cursor as int),
                self.query@.skip(self.query_cursor as int),
            );
            assert(self.query@.take(self.query_cursor as int) + self.query@.skip(
                self.query_cursor as int,
            ) =~= self.query@);
        }
        let rest = self.query.split_off(self.query_cursor);
        self.query = rest;
        self.query_bytes = self.query_bytes - self.query_cursor_bytes;
        self.query_cursor = 0;
        self.query_cursor_bytes = 0;
        assert(self.query@.take(0) =~= Seq::<char>::empty());
    }

    fn open_overlay(&mut self, overlay: Overlay)
        requires
            old(self).wf(),
        ensures
            final(self).wf(),
            final(self)@ == old(self)@.after_open_overlay(overlay),
    {
        self.overlay = Some(overlay);
        self.query.clear();
        self.query_cursor = 0;
        self.query_cursor_bytes = 0;
        self.query_bytes = 0;
        self.selected_result = 0;
        assert(self.query@.take(0) =~= Seq::<char>::empty());
    }

    fn close_overlay(&mut self)
        requires
            old(self).wf(),
        ensures
            final(self).wf(),
            final(self)@ == old(self)@.after_close_overlay(),
    {
        self.overlay = None;
        self.result_count = 0;
    }

    fn insert_query_character(&mut self, character: char)
        requires
            old(self).wf(),
        ensures
            final(self).wf(),
            final(self)@ == old(self)@.after_insert(character),
    {
        let w = char_utf8_width(character);
        if self.query_bytes > usize::MAX - w {
            return;
        }
        let ghost old_query = self.query@;
        let k = self.query_cursor;
        proof {
            lemma_insert_widths(old_query, k as int, character);
        }
        self.query.insert(k, character);
        assert(k < self.query.len());
        proof {
            lemma_prefix_le(self.query@, k + 1);
        }
        self.query_cursor = k + 1;
        self.query_cursor_bytes = self.query_cursor_bytes + w;
        self.query_bytes = self.query_bytes + w;
        self.selected_result = 0;
    }

    fn delete_query_character_before_cursor(&mut self)
        requires
            old(self).wf(),
        ensures
            final(self).wf(),
            final(self)@ == old(self)@.after_backspace(),
    {
        if self.query_cursor > 0 {
            let k = self.query_cursor - 1;
            let ghost old_query = self.query@;
            let w = char_utf8_width(self.query[k]);
            proof {
                lemma_remove_widths(old_query, k as int);
            }
            self.query.remove(k);
            self.query_cursor = k;
            self.query_cursor_bytes = self.query_cursor_bytes - w;
            self.query_bytes = self.query_bytes - w;
            self.selected_result = 0;
        }
    }

    fn delete_query_character_at_cursor(&mut self)
        requires
            old(self).wf(),
        ensures
            final(self).wf(),
            final(self)@ == old(self)@.after_delete_forward(),
    {
        if self.query_cursor < self.query.len() {
            let k = self.query_cursor;
            let ghost old_query = self.query@;
            let w = char_utf8_width(self.query[k]);
            proof {
                lemma_remove_widths(old_query, k as int);
            }
            self.query.remove(k);
            self.query_bytes = self.query_bytes - w;
            self.selected_result = 0;
        }
    }

    fn move_down(&mut self)
        requires
            old(self).wf(),
        ensures
            final(self).wf(),
            final(self)@ == old(self)@.after_move_down(),
    {
        match self.focus {
            Focus::FileTree => self.move_tree_cursor(true),
            Focus::Preview => {
                if self.preview_scroll < usize::MAX {
                    self.preview_scroll = self.preview_scroll + 1;
                }
            },
        }
    }

    fn move_up(&mut self)
        requires
            old(self).wf(),
        ensures
            final(self).wf(),
            final(self)@ == old(self)@.after_move_up(),
    {
        match self.focus {
            Focus::FileTree => self.move_tree_cursor(false),
            Focus::Preview => {
                if self.preview_scroll > 0 {
                    self.preview_scroll = self.preview_scroll - 1;
                }
            },
        }
    }

    fn toggle_focus(&mut self)
        requires
            old(self).wf(),
        ensures
            final(self).wf(),
            final(self)@ == old(self)@.after_toggle_focus(),
    {
        self.focus = match self.focus {
            Focus::FileTree => Focus::Preview,
            Focus::Preview => Focus::FileTree,
        };
    }

    fn activate_tree_item(&mut self)
        requires
            old(self).wf(),
        ensures
            final(self).wf(),
            final(self)@ == old(self)@.after_activate(),
    {
        let on_directory = self.focus == Focus::FileTree && self.tree_cursor < self.tree_rows.len()
            && self.tree_rows[self.tree_cursor].is_none();
        if on_directory {
            self.tree_toggle_requested = true;
        } else {
            self.activation_requested = true;
        }
    }

    fn move_tree_cursor(&mut self, down: bool)
        requires
            old(self).wf(),
        ensures
            final(self).wf(),
            final(self)@ == old(self)@.after_tree_move(down),
    {
        if self.tree_rows.len() == 0 {
            self.move_file_selection(down);
        } else {
            self.move_tree_row(down);
        }
    }

    #[verifier::rlimit(60)]
    fn move_file_selection(&mut self, down: bool)
        requires
            old(self).wf(),
            old(self)@.tree_rows.len() == 0,
        ensures
            final(self).wf(),
            final(self)@ == old(self)@.after_tree_move(down),
    {
        let previous_file_index = self.selected_file_index;
        if down {
            let next = if self.selected_file_index == usize::MAX {
                self.selected_file_index
            } else {
                self.selected_file_index + 1
            };
            let last = if self.file_count == 0 { 0 } else { self.file_count - 1 };
            self.selected_file_index = if next <= last { next } else { last };
        } else if self.selected_file_index > 0 {
            self.selected_file_index = self.selected_file_index - 1;
        }
        if self.selected_file_index != previous_file_index {
            self.preview_scroll = 0;
        }
    }

    #[verifier::rlimit(60)]
    fn move_tree_row(&mut self, down: bool)
        requires
            old(self).wf(),
            old(self)@.tree_rows.len() > 0,
        ensures
            final(self).wf(),
            final(self)@ == old(self)@.after_tree_move(down),
    {
        let ghost before = self@;
        let previous_file_index = self.selected_file_index;
        let max = self.tree_rows.len() - 1;
        let cursor = if down {
            let next = if self.tree_cursor == usize::MAX {
                self.tree_cursor
            } else {
                self.tree_cursor + 1
            };
            if next <= max { next } else { max }
        } else if self.tree_cursor > 0 {
            self.tree_cursor - 1
        } else {
            0
        };
        let selected = match self.tree_rows[cursor] {
            Some(file_index) => file_index,
            None => previous_file_index,
        };
        let scroll = if selected != previous_file_index { 0 } else { self.preview_scroll };
        self.tree_cursor = cursor;
        self.selected_file_index = selected;
        self.preview_scroll = scroll;
    }
}

/// A first match found in a prefix is the first match of the whole sequence.
proof fn lemma_first_row_prefix(rows: Seq<Option<usize>>, file: usize, k: int)
    requires
        0 <= k <= rows.len(),
        first_row_of(rows.take(k), file) is Some,
    ensures
        first_row_of(rows, file) == first_row_of(rows.take(k), file),
    decreases rows.len() - k,
{
    if k < rows.len() {
        assert(rows.take(k + 1).drop_last() =~= rows.take(k));
        lemma_first_row_prefix(rows, file, k + 1);
    } else {
        assert(rows.take(k) =~= rows);
    }
}

/// A prefix is never longer in bytes than the whole text.
proof fn lemma_prefix_le(s: Seq<char>, k: int)
    requires
        0 <= k <= s.len(),
    ensures
        utf8_len(s.take(k)) <= utf8_len(s),
{
    lemma_utf8_len_concat(s.take(k), s.skip(k));
    assert(s.take(k) + s.skip(k) =~= s);
}

proof fn lemma_insert_widths(s: Seq<char>, k: int, c: char)
    requires
        0 <= k <= s.len(),
    ensures
        utf8_len(s.insert(k, c)) == utf8_len(s) + char_width(c),
        utf8_len(s.insert(k, c).take(k + 1)) == utf8_len(s.take(k)) + char_width(c),
{
    let t = s.insert(k, c);
    lemma_utf8_len_concat(s.take(k), s.skip(k));
    assert(s.take(k) + s.skip(k) =~= s);
    lemma_utf8_len_concat(t.take(k + 1), t.skip(k + 1));
    assert(t.take(k + 1) + t.skip(k + 1) =~= t);
    assert(t.skip(k + 1) =~= s.skip(k));
    assert(t.take(k + 1).drop_last() =~= s.take(k));
}

proof fn lemma_remove_widths(s: Seq<char>, k: int)
    requires
        0 <= k < s.len(),
    ensures
        utf8_len(s.remove(k)) + char_width(s[k]) == utf8_len(s),
        utf8_len(s.remove(k).take(k)) == utf8_len(s.take(k)),
        utf8_len(s.take(k)) + char_width(s[k]) == utf8_len(s.take(k + 1)),
{
    let t = s.remove(k);
    lemma_utf8_len_concat(s.take(k + 1), s.skip(k + 1));
    assert(s.take(k + 1) + s.skip(k + 1) =~= s);
    lemma_utf8_len_concat(t.take(k), t.skip(k));
    assert(t.take(k) + t.skip(k) =~= t);
    assert(t.skip(k) =~= s.skip(k + 1));
    assert(t.take(k) =~= s.take(k));
    lemma_utf8_len_take_next(s, k);
}

/// While an overlay is open, no event moves the selection, the tree cursor,
/// the preview or the focus, and none stops the viewer: keys such as `j`, `k`
/// and `q` are typed into the search input instead.
pub proof fn law_overlay_keeps_panes(v: AppView, event: AppEvent)
    requires
        v.overlay is Some,
    ensures
        v.after_event(event).selected_file_index == v.selected_file_index,
        v.after_event(event).tree_cursor == v.tree_cursor,
        v.after_event(event).tree_rows == v.tree_rows,
        v.after_event(event).preview_scroll == v.preview_scroll,
        v.after_event(event).focus == v.focus,
        v.after_event(event).is_running == v.is_running,
{
}

/// Every event keeps the state consistent: the query cursor stays within the
/// query and the tree cursor on a row.
#[verifier::rlimit(60)]
pub proof fn law_events_keep_consistency(v: AppView, event: AppEvent)
    requires
        v.is_consistent(),
    ensures
        v.after_event(event).is_consistent(),
{
    if v.overlay is Some {
        match event {
            AppEvent::Input(c) => {
                if v.can_insert(c) {
                    lemma_insert_widths(v.query, v.query_cursor as int, c);
                }
            },
            AppEvent::Backspace => {
                if v.query_cursor > 0 {
                    lemma_remove_widths(v.query, v.query_cursor - 1);
                }
            },
            AppEvent::DeleteForward => {
                if v.query_cursor < v.query.len() {
                    lemma_remove_widths(v.query, v.query_cursor as int);
                }
            },
            AppEvent::KillToEnd => {
                lemma_prefix_le(v.query, v.query_cursor as int);
            },
            AppEvent::KillToStart => {
                lemma_utf8_len_concat(v.query.take(v.query_cursor as int), v.query.skip(v.query_cursor as int));
                assert(v.query.take(v.query_cursor as int) + v.query.skip(v.query_cursor as int) =~= v.query);
            },
            _ => {},
        }
    }
}

/// Typing a character and then deleting it with Backspace gives back the
/// query and the cursor (when the character fits the byte offsets).
pub proof fn law_backspace_undoes_input(v: AppView, c: char)
    requires
        v.is_consistent(),
        v.overlay is Some,
        v.can_insert(c),
    ensures
        v.after_event(AppEvent::Input(c)).after_event(AppEvent::Backspace).query == v.query,
        v.after_event(AppEvent::Input(c)).after_event(AppEvent::Backspace).query_cursor
            == v.query_cursor,
{
    let w = v.after_event(AppEvent::Input(c));
    assert(w.query.remove(v.query_cursor as int) =~= v.query);
}

/// Moving the input cursor left and then right returns it to where it was,
/// unless it was already at the start.
pub proof fn law_cursor_left_right(v: AppView)
    requires
        v.is_consistent(),
        v.overlay is Some,
        v.query_cursor > 0,
    ensures
        v.after_event(AppEvent::CursorLeft).after_event(AppEvent::CursorRight) == v,
{
}

/// Opening an overlay starts an empty search with the first result selected.
pub proof fn law_open_overlay_starts_empty(v: AppView, event: AppEvent)
    requires
        v.overlay is None,
        event == AppEvent::OpenToc || event == AppEvent::OpenFileSearch || event
            == AppEvent::OpenPageSearch,
    ensures
        v.after_event(event).overlay is Some,
        v.after_event(event).query.len() == 0,
        v.after_event(event).query_cursor == 0,
        v.after_event(event).selected_result == 0,
{
}

/// Escape closes the overlay and submits nothing; Enter closes it and submits
/// the overlay that was open.
pub proof fn law_overlay_close_and_submit(v: AppView)
    requires
        v.overlay is Some,
    ensures
        v.after_event(AppEvent::Escape).overlay is None,
        v.after_event(AppEvent::Escape).overlay_submission == v.overlay_submission,
        v.after_event(AppEvent::Activate).overlay is None,
        v.after_event(AppEvent::Activate).overlay_submission == v.overlay,
{
}

/// Moving through overlay results never selects past the last result.
pub proof fn law_results_stay_in_range(v: AppView)
    requires
        v.overlay is Some,
        v.result_count > 0,
        v.selected_result < v.result_count,
    ensures
        v.after_event(AppEvent::NextResult).selected_result < v.result_count,
        v.after_event(AppEvent::PreviousResult).selected_result < v.result_count,
{
}

/// Jumping to a location selects a file within the file count, shows it at
/// the requested scroll with the preview focused, and keeps the tree cursor
/// on a row that shows the selected file whenever one does.
pub proof fn law_navigate_selects_in_range(v: AppView, file_index: usize, scroll: usize)
    requires
        v.is_consistent(),
        v.file_count > 0,
    ensures
        v.after_navigate(file_index, scroll).selected_file_index < v.file_count,
        v.after_navigate(file_index, scroll).preview_scroll == scroll,
        v.after_navigate(file_index, scroll).focus == Focus::Preview,
        first_row_of(v.tree_rows, v.after_navigate(file_index, scroll).selected_file_index)
            is Some ==> v.after_navigate(file_index, scroll).tree_rows[v.after_navigate(
            file_index,
            scroll,
        ).tree_cursor as int] == Some(v.after_navigate(file_index, scroll).selected_file_index),
{
    let selected = v.after_navigate(file_index, scroll).selected_file_index;
    lemma_first_row_of(v.tree_rows, selected);
    if let Some(i) = first_row_of(v.tree_rows, selected) {
        assert(i < v.tree_rows.len());
        assert(i as usize == i);
    }
}

/// Outside overlays, `m` switches Mermaid diagrams between rendered and
/// source views and changes nothing else; pressing it twice switches back.
pub proof fn law_m_switches_diagram_view(v: AppView)
    requires
        v.overlay is None,
    ensures
        v.after_event(AppEvent::Input('m')) == (AppView { display_mode: toggled(v.display_mode), ..v }),
        v.after_event(AppEvent::Input('m')).display_mode != v.display_mode,
        v.after_event(AppEvent::Input('m')).after_event(AppEvent::Input('m')) == v,
{
}

/// In an open overlay the editing keys move the input cursor and cut the
/// query as their names say, and the cursor stays on a character boundary
/// within the query: Control-A to the start, Control-E to the end, Control-B
/// and Control-F one character back or forward (staying put at either end),
/// Control-K cuts from the cursor to the end, Control-U from the start to
/// the cursor, which then stands at the start.
pub proof fn law_overlay_editing(v: AppView)
    requires
        v.is_consistent(),
        v.overlay is Some,
    ensures
        v.after_event(AppEvent::CursorStart).query_cursor == 0,
        v.after_event(AppEvent::CursorEnd).query_cursor == v.query.len(),
        v.after_event(AppEvent::CursorLeft).query_cursor == if v.query_cursor > 0 {
            v.query_cursor - 1
        } else {
            0
        },
        v.after_event(AppEvent::CursorRight).query_cursor == if v.query_cursor < v.query.len() {
            v.query_cursor + 1
        } else {
            v.query_cursor + 0
        },
        v.after_event(AppEvent::KillToEnd).query == v.query.take(v.query_cursor as int),
        v.after_event(AppEvent::KillToEnd).query_cursor == v.query_cursor,
        v.after_event(AppEvent::KillToStart).query == v.query.skip(v.query_cursor as int),
        v.after_event(AppEvent::KillToStart).query_cursor == 0,
        forall|e: AppEvent| #[trigger] v.after_event(e).is_consistent(),
{
    assert forall|e: AppEvent| #[trigger] v.after_event(e).is_consistent() by {
        law_events_keep_consistency(v, e);
    }
}

} // verus!
