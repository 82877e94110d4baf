//! The state of the input areas and of the application, and how each event
//! moves it: history navigation, finished background work, and what follows
//! a pick in the result viewer.
use vstd::prelude::*;
use std::collections::VecDeque;
use crate::query::QueryResult;
use crate::text::{chars_of, trim, trim_chars, string_of};
use crate::tui::{oneliner_spec, normalize_sql_to_oneliner, SelectedRecord, SkimAction};
use crate::query::{is_set_command, is_set_command_spec};
use crate::tui::shell::BastionTarget;

verus! {

/// The most entries an input history keeps; the oldest goes first.
pub const MAX_SQL_HISTORY: usize = 100;

/// The character count of `s`.
fn char_count(s: &String) -> (n: usize)
    ensures
        n == s@.len(),
{
    let v = chars_of(s.as_str());
    v.len()
}

// ---------------------------------------------------------------------------
// Shell input and its history
// ---------------------------------------------------------------------------

/// The shell input area.
pub struct ShellInputState {
    /// The text being typed.
    pub text: String,
    /// Cursor position, in characters.
    pub cursor_position: usize,
    /// Start of the selection, in characters.
    pub selection_start: Option<usize>,
    /// Text cut with Ctrl+K / Ctrl+U.
    pub kill_buffer: String,
    /// Commands run, newest last.
    pub history: VecDeque<String>,
    /// The history entry shown, when browsing it.
    pub history_index: Option<usize>,
    /// The text that was being typed when browsing began.
    pub history_draft: String,
    /// A command waiting to be run.
    pub pending_command: Option<String>,
}

/// The shell input area as values.
pub struct ShellModel {
    pub text: Seq<char>,
    pub cursor: nat,
    pub selection_start: Option<usize>,
    pub kill_buffer: Seq<char>,
    pub history: Seq<Seq<char>>,
    pub history_index: Option<nat>,
    pub draft: Seq<char>,
    pub pending_command: Option<Seq<char>>,
}

impl View for ShellInputState {
    type V = ShellModel;

    open spec fn view(&self) -> ShellModel {
        ShellModel {
            text: self.text@,
            cursor: self.cursor_position as nat,
            selection_start: self.selection_start,
            kill_buffer: self.kill_buffer@,
            history: self.history@.map_values(|s: String| s@),
            history_index: match self.history_index {
                Some(i) => Some(i as nat),
                None => None,
            },
            draft: self.history_draft@,
            pending_command: match self.pending_command {
                Some(c) => Some(c@),
                None => None,
            },
        }
    }
}

impl ShellModel {
    /// The browsed entry, if any, is an entry of the history.
    pub open spec fn wf(self) -> bool {
        self.history_index matches Some(i) ==> i < self.history.len()
    }

    /// The history after recording `cmd` (trimmed): appended unless it
    /// repeats the newest entry, the oldest dropped beyond the limit.
    pub open spec fn recorded(self, cmd: Seq<char>) -> Seq<Seq<char>> {
        let h = self.history;
        if h.len() > 0 && h.last() == cmd {
            h
        } else if h.len() + 1 > MAX_SQL_HISTORY {
            h.push(cmd).drop_first()
        } else {
            h.push(cmd)
        }
    }

    /// After running `cmd`: an empty (after trimming) command changes
    /// nothing; otherwise it is recorded and browsing ends.
    pub open spec fn add_to_history_spec(self, cmd: Seq<char>) -> ShellModel {
        let c = trim(cmd);
        if c.len() == 0 {
            self
        } else {
            ShellModel {
                history: self.recorded(c),
                history_index: None,
                draft: Seq::empty(),
                ..self
            }
        }
    }

    /// Up: starts browsing at the newest entry (keeping the typed text
    /// aside), or moves to the next older entry; nothing past the oldest or
    /// in an empty history.
    pub open spec fn prev_spec(self) -> ShellModel {
        let h = self.history;
        if h.len() == 0 {
            self
        } else {
            match self.history_index {
                None => ShellModel {
                    draft: self.text,
                    history_index: Some((h.len() - 1) as nat),
                    text: h.last(),
                    cursor: h.last().len(),
                    ..self
                },
                Some(i) => if i > 0 {
                    ShellModel {
                        history_index: Some((i - 1) as nat),
                        text: h[i - 1],
                        cursor: h[i - 1].len(),
                        ..self
                    }
                } else {
                    self
                },
            }
        }
    }

    /// Down: moves to the next newer entry, or past the newest back to the
    /// text that was being typed; nothing when not browsing.
    pub open spec fn next_spec(self) -> ShellModel {
        match self.history_index {
            None => self,
            Some(i) => if i + 1 < self.history.len() {
                ShellModel {
                    history_index: Some(i + 1),
                    text: self.history[i + 1 as int],
                    cursor: self.history[i + 1 as int].len(),
                    ..self
                }
            } else {
                ShellModel {
                    history_index: None,
                    text: self.draft,
                    cursor: self.draft.len(),
                    draft: Seq::empty(),
                    ..self
                }
            },
        }
    }
}

impl ShellInputState {
    /// Records a command that was run (see `ShellModel::add_to_history_spec`).
    pub fn add_to_shell_history(&mut self, cmd: &str)
        ensures
            final(self)@ == old(self)@.add_to_history_spec(cmd@),
    {
        let ghost before = self@;
        let v = chars_of(cmd);
        let t = trim_chars(&v);
        if t.len() == 0 {
            return;
        }
        let c = string_of(&t);
        let n = self.history.len();
        let repeats = n > 0 && self.history[n - 1] == c;
        proof {
            if n > 0 {
                assert(before.history.last() == self.history@[n - 1]@);
            }
        }
        if !repeats {
            self.history.push_back(c);
            assert(self.history@.map_values(|s: String| s@) =~= before.history.push(t@));
            if self.history.len() > MAX_SQL_HISTORY {
                let _ = self.history.pop_front();
                assert(self.history@.map_values(|s: String| s@) =~= before.history.push(
                    t@,
                ).drop_first());
            }
        }
        self.history_index = None;
        self.history_draft = String::new();
        assert(self@ =~= before.add_to_history_spec(cmd@)) by {
            assert(self@.history =~= before.recorded(t@));
        }
    }

    /// Up in the history (see `ShellModel::prev_spec`).
    pub fn shell_history_prev(&mut self)
        requires
            old(self)@.wf(),
        ensures
            final(self)@ == old(self)@.prev_spec(),
    {
        let ghost before = self@;
        let n = self.history.len();
        if n == 0 {
            return;
        }
        match self.history_index {
            None => {
                self.history_draft = self.text.clone();
                let idx = n - 1;
                self.history_index = Some(idx);
                self.text = self.history[idx].clone();
            },
            Some(idx) => {
                if idx > 0 {
                    let new_idx = idx - 1;
                    self.history_index = Some(new_idx);
                    self.text = self.history[new_idx].clone();
                } else {
                    return;
                }
            },
        }
        self.cursor_position = char_count(&self.text);
        assert(self@ =~= before.prev_spec());
    }

    /// Down in the history (see `ShellModel::next_spec`).
    pub fn shell_history_next(&mut self)
        requires
            old(self)@.wf(),
        ensures
            final(self)@ == old(self)@.next_spec(),
    {
        let ghost before = self@;
        match self.history_index {
            Some(idx) => {
                let n = self.history.len();
                assert(before.history.len() == self.history@.len());
                if idx + 1 < n {
                    let new_idx = idx + 1;
                    self.history_index = Some(new_idx);
                    self.text = self.history[new_idx].clone();
                } else {
                    self.history_index = None;
                    self.text = self.history_draft.clone();
                    self.history_draft = String::new();
                }
                self.cursor_position = char_count(&self.text);
                assert(self@ =~= before.next_spec());
            },
            None => {},
        }
    }
}


/// No entry repeats the one before it.
pub open spec fn no_adjacent_repeats(h: Seq<Seq<char>>) -> bool {
    forall|i: int| 0 < i < h.len() ==> #[trigger] h[i] != h[i - 1]
}

/// Recording, going up and going down keep the browsed entry inside the
/// history.
pub proof fn lemma_shell_history_keeps_wf(m: ShellModel, cmd: Seq<char>)
    requires
        m.wf(),
    ensures
        m.add_to_history_spec(cmd).wf(),
        m.prev_spec().wf(),
        m.next_spec().wf(),
{
}

/// Recording a command: the history stays within `MAX_SQL_HISTORY` entries,
/// never holds the same command twice in a row, and ends with the trimmed
/// command when it is not blank.
pub proof fn lemma_shell_history_record(m: ShellModel, cmd: Seq<char>)
    requires
        m.history.len() <= MAX_SQL_HISTORY,
        no_adjacent_repeats(m.history),
    ensures
        m.add_to_history_spec(cmd).history.len() <= MAX_SQL_HISTORY,
        no_adjacent_repeats(m.add_to_history_spec(cmd).history),
        trim(cmd).len() > 0 ==> m.add_to_history_spec(cmd).history.last() == trim(cmd),
        trim(cmd).len() > 0 ==> m.add_to_history_spec(cmd).history_index is None,
{
    let c = trim(cmd);
    let h = m.history;
    if c.len() > 0 && !(h.len() > 0 && h.last() == c) {
        let p = h.push(c);
        assert forall|i: int| 0 < i < p.len() implies #[trigger] p[i] != p[i - 1] by {
            if i == p.len() - 1 {
                assert(p[i - 1] == h.last());
            } else {
                assert(p[i] == h[i] && p[i - 1] == h[i - 1]);
            }
        }
        if h.len() + 1 > MAX_SQL_HISTORY {
            let d = p.drop_first();
            assert forall|i: int| 0 < i < d.len() implies #[trigger] d[i] != d[i - 1] by {
                assert(d[i] == p[i + 1] && d[i - 1] == p[i]);
            }
        }
    }
}

/// Going up out of fresh input and back down restores the text being typed,
/// with the cursor at its end, and leaves the history.
pub proof fn lemma_shell_history_up_down_restores(m: ShellModel)
    requires
        m.wf(),
        m.history_index is None,
        m.history.len() > 0,
    ensures
        m.prev_spec().next_spec().text == m.text,
        m.prev_spec().next_spec().cursor == m.text.len(),
        m.prev_spec().next_spec().history_index is None,
        m.prev_spec().next_spec().history == m.history,
{
}

/// Going down undoes going up while browsing: the same entry is shown again.
pub proof fn lemma_shell_history_down_undoes_up(m: ShellModel, i: nat)
    requires
        m.wf(),
        m.history_index == Some(i),
        i > 0,
    ensures
        m.prev_spec().next_spec().history_index == Some(i),
        m.prev_spec().next_spec().text == m.history[i as int],
{
}


impl ShellInputState {
    /// An empty shell input with no history.
    pub fn new() -> (r: Self)
        ensures
            r@.text.len() == 0,
            r@.cursor == 0,
            r@.selection_start is None,
            r@.kill_buffer.len() == 0,
            r@.history.len() == 0,
            r@.history_index is None,
            r@.draft.len() == 0,
            r@.pending_command is None,
    {
        let r = ShellInputState {
            text: String::new(),
            cursor_position: 0,
            selection_start: None,
            kill_buffer: String::new(),
            history: VecDeque::new(),
            history_index: None,
            history_draft: String::new(),
            pending_command: None,
        };
        assert(r@.history =~= Seq::<Seq<char>>::empty());
        r
    }
}

// ---------------------------------------------------------------------------
// Input focus and the prompt area
// ---------------------------------------------------------------------------

/// Which input area has the focus.
#[derive(Debug, Clone, Copy, PartialEq, Eq, Structural)]
pub enum InputFocus {
    /// The SQL input (the default).
    Sql,
    /// The shell input.
    Shell,
    /// The natural-language prompt input.
    Prompt,
}

impl Default for InputFocus {
    fn default() -> (f: Self)
        ensures
            f == InputFocus::Sql,
    {
        InputFocus::Sql
    }
}

/// The prompt input area, whose requests turn text into SQL.
pub struct PromptInputState {
    /// The text being typed.
    pub text: String,
    /// Cursor position, in characters.
    pub cursor_position: usize,
    /// Start of the selection, in characters.
    pub selection_start: Option<usize>,
    /// Text cut with Ctrl+K / Ctrl+U.
    pub kill_buffer: String,
    /// A request is running.
    pub is_processing: bool,
    /// The error of the last request.
    pub last_error: Option<String>,
    /// Frame counter of the loading animation.
    pub loading_tick: u8,
}

impl PromptInputState {
    /// An empty prompt input with no request running.
    pub fn new() -> (r: Self)
        ensures
            r.text@.len() == 0,
            r.cursor_position == 0,
            r.selection_start is None,
            r.kill_buffer@.len() == 0,
            !r.is_processing,
            r.last_error is None,
            r.loading_tick == 0,
    {
        PromptInputState {
            text: String::new(),
            cursor_position: 0,
            selection_start: None,
            kill_buffer: String::new(),
            is_processing: false,
            last_error: None,
            loading_tick: 0,
        }
    }

    /// One frame of the loading animation: while a request runs the counter
    /// steps on, wrapping at 256.
    pub fn tick_loading(&mut self)
        ensures
            final(self).loading_tick == (if old(self).is_processing {
                ((old(self).loading_tick + 1) % 256) as u8
            } else {
                old(self).loading_tick
            }),
            final(self).text == old(self).text,
            final(self).cursor_position == old(self).cursor_position,
            final(self).selection_start == old(self).selection_start,
            final(self).kill_buffer == old(self).kill_buffer,
            final(self).is_processing == old(self).is_processing,
            final(self).last_error == old(self).last_error,
    {
        if self.is_processing {
            self.loading_tick = self.loading_tick.wrapping_add(1);
        }
    }

    /// Takes in how a request ended. Either way the request is over and the
    /// animation stops. Generated SQL comes back on one line, with its
    /// cursor position at the end, for the SQL input, which then gets the
    /// focus; an error message is kept for display and the focus stays.
    pub fn finish_request(&mut self, outcome: Result<String, String>, focus: &mut InputFocus) -> (r: Option<(String, usize)>)
        ensures
            *final(focus) == (if outcome is Ok {
                InputFocus::Sql
            } else {
                *old(focus)
            }),
            !final(self).is_processing,
            final(self).loading_tick == 0,
            final(self).text == old(self).text,
            final(self).cursor_position == old(self).cursor_position,
            final(self).selection_start == old(self).selection_start,
            final(self).kill_buffer == old(self).kill_buffer,
            match outcome {
                Ok(sql) => final(self).last_error is None && (r matches Some(p) && p.0@
                    == oneliner_spec(sql@) && p.1 == p.0@.len()),
                Err(message) => final(self).last_error == Some(message) && r is None,
            },
    {
        self.is_processing = false;
        self.loading_tick = 0;
        match outcome {
            Ok(sql) => {
                let text = normalize_sql_to_oneliner(sql.as_str());
                let cursor = char_count(&text);
                self.last_error = None;
                *focus = InputFocus::Sql;
                Some((text, cursor))
            },
            Err(message) => {
                self.last_error = Some(message);
                None
            },
        }
    }
}

// ---------------------------------------------------------------------------
// Application state
// ---------------------------------------------------------------------------

/// The completion popup: its candidates (`I` is a completion item), the one
/// selected, and the token being completed.
pub struct CompletionState<I> {
    pub candidates: Vec<I>,
    pub selected_index: usize,
    pub current_token: String,
}

/// The state of the application; `M` is the live connection (its pool and
/// settings) and `C` a configured connection.
#[allow(inconsistent_fields)]
pub enum AppState<M, C> {
    /// Choosing a connection.
    Selecting { connections: Vec<C>, selected_index: usize },
    /// Connecting in the background.
    Connecting { connection_name: String, spinner_frame: u8 },
    /// Connected, waiting for SQL.
    Connected { manager: M },
    /// A query runs.
    Executing { query: String },
    /// A result is shown; the connection goes back when it is closed.
    ShowingResult { result: QueryResult, manager: Option<M> },
    /// A displayed query streams its rows to the viewer.
    StreamingQuery { manager: M, sql: String, timeout_secs: u64 },
    /// Picking columns for a `SELECT`.
    SelectingColumns { manager: M, timeout_secs: u64 },
    /// An error is shown; the state to go back to is kept.
    Error { message: String, previous_state: Box<AppState<M, C>> },
}

impl<M, C> AppState<M, C> {
    /// The connection held by the states that hold one.
    pub fn manager(&self) -> (r: Option<&M>)
        ensures
            match self {
                AppState::Connected { manager } => r == Some(manager),
                AppState::StreamingQuery { manager, .. } => r == Some(manager),
                AppState::SelectingColumns { manager, .. } => r == Some(manager),
                AppState::ShowingResult { manager: Some(m), .. } => r == Some(m),
                _ => r is None,
            },
    {
        match self {
            AppState::Connected { manager } => Some(manager),
            AppState::StreamingQuery { manager, .. } => Some(manager),
            AppState::SelectingColumns { manager, .. } => Some(manager),
            AppState::ShowingResult { manager: Some(m), .. } => Some(m),
            _ => None,
        }
    }

    /// The connection when waiting for SQL (which decides read-only mode;
    /// any other state falls back to the command-line flag).
    pub fn connected_manager(&self) -> (r: Option<&M>)
        ensures
            match self {
                AppState::Connected { manager } => r == Some(manager),
                _ => r is None,
            },
    {
        match self {
            AppState::Connected { manager } => Some(manager),
            _ => None,
        }
    }

    /// One frame of the connecting spinner.
    pub fn advance_spinner(&mut self)
        ensures
            match *old(self) {
                AppState::Connecting { connection_name, spinner_frame } => *final(self)
                    == AppState::<M, C>::Connecting {
                    connection_name,
                    spinner_frame: ((spinner_frame + 1) % 256) as u8,
                },
                _ => *final(self) == *old(self),
            },
    {
        match self {
            AppState::Connecting { spinner_frame, .. } => {
                *spinner_frame = spinner_frame.wrapping_add(1);
            },
            _ => {},
        }
    }
}

/// Starts running `query`: the connection leaves the state (which becomes
/// `Executing`) for the background task. Only `Connected` and a shown result
/// that kept its connection can start one; any other state comes back
/// unchanged as the error.
pub fn begin_query<M, C>(state: AppState<M, C>, query: String) -> (r: Result<
    (AppState<M, C>, M),
    AppState<M, C>,
>)
    ensures
        match state {
            AppState::Connected { manager } => r == Ok::<_, AppState<M, C>>(
                (AppState::<M, C>::Executing { query }, manager),
            ),
            AppState::ShowingResult { manager: Some(m), .. } => r == Ok::<_, AppState<M, C>>(
                (AppState::<M, C>::Executing { query }, m),
            ),
            _ => r == Err::<(AppState<M, C>, M), _>(state),
        },
{
    match state {
        AppState::Connected { manager } => Ok((AppState::Executing { query }, manager)),
        AppState::ShowingResult { manager: Some(m), .. } => Ok((AppState::Executing { query }, m)),
        other => Err(other),
    }
}

/// The SQL input area; `I` is a completion item.
pub struct SqlInputState<I> {
    /// The SQL being typed.
    pub text: String,
    /// Cursor position, in characters.
    pub cursor_position: usize,
    /// Start of the selection, in characters.
    pub selection_start: Option<usize>,
    /// The SQL last run (the viewer reads the table of a drill-down from it).
    pub last_sql: String,
    /// SQL run, newest last.
    pub history: VecDeque<String>,
    /// The history entry shown, when browsing it.
    pub history_index: Option<usize>,
    /// The text that was being typed when browsing began.
    pub history_draft: String,
    /// Text cut with Ctrl+K / Ctrl+U.
    pub kill_buffer: String,
    /// The completion popup, when shown.
    pub completion_state: Option<CompletionState<I>>,
}

impl<I> SqlInputState<I> {
    /// An empty SQL input with no history and nothing run yet.
    pub fn new() -> (r: Self)
        ensures
            r.text@.len() == 0,
            r.cursor_position == 0,
            r.selection_start is None,
            r.last_sql@.len() == 0,
            r.history@.len() == 0,
            r.history_index is None,
            r.history_draft@.len() == 0,
            r.kill_buffer@.len() == 0,
            r.completion_state is None,
    {
        SqlInputState {
            text: String::new(),
            cursor_position: 0,
            selection_start: None,
            last_sql: String::new(),
            history: VecDeque::new(),
            history_index: None,
            history_draft: String::new(),
            kill_buffer: String::new(),
            completion_state: None,
        }
    }
}

/// Why the SQL input could not be run.
#[derive(Debug, PartialEq, Eq, Structural)]
pub enum StartQueryError {
    /// No connection is at hand (the state holds none that a query can use).
    NoConnection,
}

impl StartQueryError {
    /// The message shown for the error.
    pub fn message(&self) -> (r: String)
        ensures
            r@ == "接続がありません"@,
    {
        match self {
            StartQueryError::NoConnection => string_of(&chars_of("接続がありません")),
        }
    }
}

/// Runs the SQL input: with a connection at hand (`Connected`, or a shown
/// result that kept it) the state becomes `Executing` the input's text, the
/// connection and the text go to the background task, and the text is kept
/// as the last SQL run. Without one the state comes back unchanged with
/// `NoConnection`, and the input is left as it was.
pub fn execute_sql_input<M, C, I>(state: AppState<M, C>, input: &mut SqlInputState<I>) -> (r: Result<(AppState<M, C>, M, String), (AppState<M, C>, StartQueryError)>)
    ensures
        match state {
            AppState::Connected { manager } => {
                &&& r matches Ok((st, m, q)) && st == (AppState::<M, C>::Executing {
                    query: old(input).text,
                }) && m == manager && q == old(input).text
                &&& *final(input) == (SqlInputState { last_sql: old(input).text, ..*old(input) })
            },
            AppState::ShowingResult { manager: Some(manager), .. } => {
                &&& r matches Ok((st, m, q)) && st == (AppState::<M, C>::Executing {
                    query: old(input).text,
                }) && m == manager && q == old(input).text
                &&& *final(input) == (SqlInputState { last_sql: old(input).text, ..*old(input) })
            },
            _ => {
                &&& r matches Err((st, e)) && st == state && e == StartQueryError::NoConnection
                &&& *final(input) == *old(input)
            },
        },
{
    let query = input.text.clone();
    match begin_query(state, query) {
        Ok((executing, manager)) => {
            let q = input.text.clone();
            input.last_sql = input.text.clone();
            Ok((executing, manager, q))
        },
        Err(state) => Err((state, StartQueryError::NoConnection)),
    }
}

/// The state the application starts in: choosing among `connections`, the
/// first one selected.
pub fn initial_state<M, C>(connections: Vec<C>) -> (r: AppState<M, C>)
    ensures
        r == (AppState::<M, C>::Selecting { connections, selected_index: 0 }),
{
    AppState::Selecting { connections, selected_index: 0 }
}

/// How a background query ended.
pub enum QueryOutcome {
    /// It returned rows (or ran a command).
    Finished(QueryResult),
    /// It failed, was cancelled or crashed; the message says which.
    Failed(String),
}

/// What a finished query leads to.
pub struct QueryCompletion<M, C> {
    /// The next state.
    pub state: AppState<M, C>,
    /// The SQL input is emptied.
    pub clear_sql_input: bool,
    /// The schema now selected, when a command selected one (the table
    /// shown in the breadcrumb is then forgotten).
    pub new_schema: Option<String>,
    /// The table list used for completion is read again.
    pub refresh_table_cache: bool,
}

/// The state after a background query ended, given the connection it used.
/// A failure shows its message and goes back to `Connected`; a result to
/// display is shown; a command (`SET` and the like) returns to `Connected`,
/// takes the schema it selected (`search_path_schema`, the reading of the
/// query by `extract_search_path_from_set_sql`) and has the table list read
/// again.
pub fn complete_query<M, C>(manager: M, outcome: QueryOutcome, search_path_schema: Option<String>) -> (r: QueryCompletion<M, C>)
    ensures
        match outcome {
            QueryOutcome::Failed(message) => {
                &&& r.state == AppState::<M, C>::Error {
                    message,
                    previous_state: Box::new(AppState::Connected { manager }),
                }
                &&& !r.clear_sql_input
                &&& r.new_schema is None
                &&& !r.refresh_table_cache
            },
            QueryOutcome::Finished(result) => if result.should_display {
                &&& r.state == AppState::<M, C>::ShowingResult { result, manager: Some(manager) }
                &&& r.clear_sql_input
                &&& r.new_schema is None
                &&& !r.refresh_table_cache
            } else {
                &&& r.state == AppState::<M, C>::Connected { manager }
                &&& r.clear_sql_input
                &&& r.new_schema == search_path_schema
                &&& r.refresh_table_cache
            },
        },
{
    match outcome {
        QueryOutcome::Failed(message) => QueryCompletion {
            state: AppState::Error {
                message,
                previous_state: Box::new(AppState::Connected { manager }),
            },
            clear_sql_input: false,
            new_schema: None,
            refresh_table_cache: false,
        },
        QueryOutcome::Finished(result) => {
            if result.should_display {
                QueryCompletion {
                    state: AppState::ShowingResult { result, manager: Some(manager) },
                    clear_sql_input: true,
                    new_schema: None,
                    refresh_table_cache: false,
                }
            } else {
                QueryCompletion {
                    state: AppState::Connected { manager },
                    clear_sql_input: true,
                    new_schema: search_path_schema,
                    refresh_table_cache: true,
                }
            }
        },
    }
}

/// What the end of the background connection attempt leads to.
pub struct ConnectionCompletion<M, C> {
    /// The next state.
    pub state: AppState<M, C>,
    /// The table list used for completion is read for the first time.
    pub init_completion_cache: bool,
}

/// The state after the background connection attempt ended: `Connected`,
/// with the completion cache filled in the background, or the error shown
/// over a fresh connection list.
pub fn connection_finished<M, C>(connections: Vec<C>, outcome: Result<M, String>) -> (r: ConnectionCompletion<M, C>)
    ensures
        match outcome {
            Ok(manager) => r.state == AppState::<M, C>::Connected { manager }
                && r.init_completion_cache,
            Err(message) => r.state == AppState::<M, C>::Error {
                message,
                previous_state: Box::new(AppState::Selecting { connections, selected_index: 0 }),
            } && !r.init_completion_cache,
        },
{
    match outcome {
        Ok(manager) => ConnectionCompletion {
            state: AppState::Connected { manager },
            init_completion_cache: true,
        },
        Err(message) => ConnectionCompletion {
            state: AppState::Error {
                message,
                previous_state: Box::new(AppState::Selecting { connections, selected_index: 0 }),
            },
            init_completion_cache: false,
        },
    }
}

/// What the background task of a query ended with.
pub enum QueryTaskEnd {
    /// The query returned a result, or an error whose message is given.
    Returned(Result<QueryResult, String>),
    /// The task was cancelled.
    Cancelled,
    /// The task failed otherwise (it panicked); the message says how.
    Crashed(String),
}

/// Why a query shows an error.
#[derive(Debug)]
pub enum QueryFailure {
    /// The database refused or failed the query.
    Failed { detail: String },
    /// The task was cancelled while running `query`.
    Cancelled { query: String },
    /// The task ended abnormally.
    TaskFailed { detail: String },
}

/// The result of a finished query task, or which failure it is shown as: a
/// query error as failed, a cancelled task with the query it ran, any other
/// end of the task as a task failure.
pub fn classify_query_end(query: String, end: QueryTaskEnd) -> (r: Result<QueryResult, QueryFailure>)
    ensures
        match end {
            QueryTaskEnd::Returned(Ok(result)) => r == Ok::<_, QueryFailure>(result),
            QueryTaskEnd::Returned(Err(detail)) => r == Err::<QueryResult, _>(
                QueryFailure::Failed { detail },
            ),
            QueryTaskEnd::Cancelled => r == Err::<QueryResult, _>(QueryFailure::Cancelled { query }),
            QueryTaskEnd::Crashed(detail) => r == Err::<QueryResult, _>(
                QueryFailure::TaskFailed { detail },
            ),
        },
{
    match end {
        QueryTaskEnd::Returned(Ok(result)) => Ok(result),
        QueryTaskEnd::Returned(Err(detail)) => Err(QueryFailure::Failed { detail }),
        QueryTaskEnd::Cancelled => Err(QueryFailure::Cancelled { query }),
        QueryTaskEnd::Crashed(detail) => Err(QueryFailure::TaskFailed { detail }),
    }
}

// ---------------------------------------------------------------------------
// After the result viewer
// ---------------------------------------------------------------------------

/// What happens to the SQL input.
pub enum SqlInputChange {
    /// Left as it is.
    Keep,
    /// Emptied, cursor at 0.
    Clear,
    /// Replaced, cursor at the end; `record` says whether it also enters
    /// the SQL history.
    Replace { text: String, cursor_position: usize, record: bool },
}

/// What runs next.
#[derive(Debug, PartialEq, Eq, Structural)]
pub enum NextStep {
    /// Nothing; wait for input.
    Idle,
    /// Run the SQL input as a query.
    Execute,
    /// Stream the SQL input to the viewer.
    Stream,
    /// Leave the application.
    Quit,
}

/// The decision taken when the result viewer closes.
pub struct ViewerFollowUp {
    /// `Some` shows this error over the connection (which the state keeps).
    pub error: Option<String>,
    pub input: SqlInputChange,
    /// `Some` replaces the row shown next to the input.
    pub selected_record: Option<Option<SelectedRecord>>,
    pub next: NextStep,
}

/// The SQL input replaced by `text`.
pub open spec fn replaced_by(c: SqlInputChange, text: Seq<char>, record: bool) -> bool {
    &&& c matches SqlInputChange::Replace { text: t, cursor_position, record: rec }
    &&& t@ == text
    &&& cursor_position == text.len()
    &&& rec == record
}

/// After the viewer of a streamed query closes. An error (the query
/// failed or timed out) is shown over the connection, the input kept. A
/// drill-down statement becomes the input and is recorded, then runs (as a
/// command when it is a `SET`, else streamed); a picked row puts its
/// `WHERE` template in the input and shows the row; closing without a pick
/// empties the input.
pub fn after_streaming_viewer(outcome: Result<Option<SkimAction>, String>) -> (r: ViewerFollowUp)
    ensures
        match outcome {
            Err(message) => {
                &&& r.error == Some(message)
                &&& r.input is Keep
                &&& r.selected_record is None
                &&& r.next == NextStep::Idle
            },
            Ok(Some(SkimAction::DrillDown(sql))) => {
                &&& r.error is None
                &&& replaced_by(r.input, sql@, true)
                &&& r.selected_record matches Some(None)
                &&& r.next == if is_set_command_spec(sql@) {
                    NextStep::Execute
                } else {
                    NextStep::Stream
                }
            },
            Ok(Some(SkimAction::SelectRecord { where_template, record })) => {
                &&& r.error is None
                &&& replaced_by(r.input, where_template@, false)
                &&& r.selected_record == Some(Some(record))
                &&& r.next == NextStep::Idle
            },
            Ok(None) => {
                &&& r.error is None
                &&& r.input is Clear
                &&& r.selected_record is None
                &&& r.next == NextStep::Idle
            },
        },
{
    match outcome {
        Err(message) => ViewerFollowUp {
            error: Some(message),
            input: SqlInputChange::Keep,
            selected_record: None,
            next: NextStep::Idle,
        },
        Ok(Some(SkimAction::DrillDown(sql))) => {
            let set = is_set_command(sql.as_str());
            let cursor = char_count(&sql);
            ViewerFollowUp {
                error: None,
                input: SqlInputChange::Replace { text: sql, cursor_position: cursor, record: true },
                selected_record: Some(None),
                next: if set {
                    NextStep::Execute
                } else {
                    NextStep::Stream
                },
            }
        },
        Ok(Some(SkimAction::SelectRecord { where_template, record })) => {
            let cursor = char_count(&where_template);
            ViewerFollowUp {
                error: None,
                input: SqlInputChange::Replace {
                    text: where_template,
                    cursor_position: cursor,
                    record: false,
                },
                selected_record: Some(Some(record)),
                next: NextStep::Idle,
            }
        },
        Ok(None) => ViewerFollowUp {
            error: None,
            input: SqlInputChange::Clear,
            selected_record: None,
            next: NextStep::Idle,
        },
    }
}

/// After the viewer of a finished query closes. Without the connection the
/// application quits. Otherwise a drill-down statement becomes the input,
/// is recorded and runs; a picked row puts its `WHERE` template in the input
/// and shows the row; closing without a pick leaves the input as it was.
pub fn after_result_viewer(action: Option<SkimAction>, has_connection: bool) -> (r: ViewerFollowUp)
    ensures
        r.error is None,
        !has_connection ==> r.input is Keep && r.selected_record is None && r.next == NextStep::Quit,
        has_connection ==> match action {
            Some(SkimAction::DrillDown(sql)) => {
                &&& replaced_by(r.input, sql@, true)
                &&& r.selected_record matches Some(None)
                &&& r.next == NextStep::Execute
            },
            Some(SkimAction::SelectRecord { where_template, record }) => {
                &&& replaced_by(r.input, where_template@, false)
                &&& r.selected_record == Some(Some(record))
                &&& r.next == NextStep::Idle
            },
            None => {
                &&& r.input is Keep
                &&& r.selected_record is None
                &&& r.next == NextStep::Idle
            },
        },
{
    if !has_connection {
        return ViewerFollowUp {
            error: None,
            input: SqlInputChange::Keep,
            selected_record: None,
            next: NextStep::Quit,
        };
    }
    match action {
        Some(SkimAction::DrillDown(sql)) => {
            let cursor = char_count(&sql);
            ViewerFollowUp {
                error: None,
                input: SqlInputChange::Replace { text: sql, cursor_position: cursor, record: true },
                selected_record: Some(None),
                next: NextStep::Execute,
            }
        },
        Some(SkimAction::SelectRecord { where_template, record }) => {
            let cursor = char_count(&where_template);
            ViewerFollowUp {
                error: None,
                input: SqlInputChange::Replace {
                    text: where_template,
                    cursor_position: cursor,
                    record: false,
                },
                selected_record: Some(Some(record)),
                next: NextStep::Idle,
            }
        },
        None => ViewerFollowUp {
            error: None,
            input: SqlInputChange::Keep,
            selected_record: None,
            next: NextStep::Idle,
        },
    }
}

/// After picking columns for a `SELECT`. An error (reading the tables or
/// columns failed) is shown over the connection; the generated `SELECT`
/// becomes the input, with the cursor at its end, and runs at once (it is
/// not recorded); a cancelled pick changes nothing.
pub fn after_column_selection(outcome: Result<Option<String>, String>) -> (r: ViewerFollowUp)
    ensures
        r.selected_record is None,
        match outcome {
            Err(message) => {
                &&& r.error == Some(message)
                &&& r.input is Keep
                &&& r.next == NextStep::Idle
            },
            Ok(Some(sql)) => {
                &&& r.error is None
                &&& replaced_by(r.input, sql@, false)
                &&& r.next == NextStep::Execute
            },
            Ok(None) => {
                &&& r.error is None
                &&& r.input is Keep
                &&& r.next == NextStep::Idle
            },
        },
{
    match outcome {
        Err(message) => ViewerFollowUp {
            error: Some(message),
            input: SqlInputChange::Keep,
            selected_record: None,
            next: NextStep::Idle,
        },
        Ok(Some(sql)) => {
            let cursor = char_count(&sql);
            ViewerFollowUp {
                error: None,
                input: SqlInputChange::Replace { text: sql, cursor_position: cursor, record: false },
                selected_record: None,
                next: NextStep::Execute,
            }
        },
        Ok(None) => ViewerFollowUp {
            error: None,
            input: SqlInputChange::Keep,
            selected_record: None,
            next: NextStep::Idle,
        },
    }
}

// ---------------------------------------------------------------------------
// Shutdown, read-only mode and connecting
// ---------------------------------------------------------------------------

/// How long a running query may finish after a shutdown request, in ms.
pub const SHUTDOWN_GRACE_MS: u64 = 5000;

/// How often a running query is polled while shutting down, in ms.
pub const SHUTDOWN_POLL_MS: u64 = 100;

/// One step of shutting down.
#[derive(Debug, PartialEq, Eq, Structural)]
pub enum ShutdownAction {
    /// Nothing runs (any more): quit.
    Quit,
    /// A query runs and the grace period is not over: poll it, and sleep
    /// `SHUTDOWN_POLL_MS` if it still runs.
    WaitAndPoll,
    /// A query still runs after the grace period: abort it, then quit.
    AbortAndQuit,
}

/// What a shutdown request does, `elapsed_ms` after it came, depending on
/// whether a query is still executing: it waits at most `SHUTDOWN_GRACE_MS`
/// for the query, then aborts it.
pub fn shutdown_step(executing: bool, elapsed_ms: u64) -> (r: ShutdownAction)
    ensures
        r == if !executing {
            ShutdownAction::Quit
        } else if elapsed_ms < SHUTDOWN_GRACE_MS {
            ShutdownAction::WaitAndPoll
        } else {
            ShutdownAction::AbortAndQuit
        },
{
    if !executing {
        ShutdownAction::Quit
    } else if elapsed_ms < SHUTDOWN_GRACE_MS {
        ShutdownAction::WaitAndPoll
    } else {
        ShutdownAction::AbortAndQuit
    }
}

/// Read-only mode for a connection: the command-line `--readonly` flag
/// applies to every connection, and a connection can be read-only itself.
pub fn effective_readonly(cli: bool, conn: bool) -> (r: bool)
    ensures
        r == (cli || conn),
{
    cli || conn
}

/// What choosing a connection starts.
pub struct ConnectingStart<M, C> {
    /// `Connecting`, spinner at its first frame.
    pub state: AppState<M, C>,
    /// The connection name shown in the breadcrumb.
    pub connection_name: String,
    /// The bastion host shown in the breadcrumb, when connecting through one.
    pub bastion_name: Option<String>,
    /// Whether the connection is opened read-only.
    pub readonly: bool,
}

/// Choosing connection `name` (through `bastion`, if any) starts connecting
/// in the background, read-only when the command line or the connection
/// asks for it.
pub fn begin_connecting<M, C>(name: String, bastion: Option<&BastionTarget>, cli_readonly: bool, conn_readonly: bool) -> (r: ConnectingStart<M, C>)
    ensures
        r.state == (AppState::<M, C>::Connecting { connection_name: name, spinner_frame: 0 }),
        r.connection_name == name,
        r.bastion_name == (match bastion {
            Some(b) => Some(b.host),
            None => None::<String>,
        }),
        r.readonly == (cli_readonly || conn_readonly),
{
    let bastion_name = match bastion {
        Some(b) => Some(b.host.clone()),
        None => None,
    };
    let readonly = effective_readonly(cli_readonly, conn_readonly);
    ConnectingStart {
        state: AppState::Connecting { connection_name: name.clone(), spinner_frame: 0 },
        connection_name: name,
        bastion_name,
        readonly,
    }
}

} // verus!
