use poshgre::query::QueryResult;
use poshgre::tui::shell::{shell_invocation, BastionTarget};
use poshgre::tui::state::{
    after_column_selection, after_result_viewer, after_streaming_viewer, begin_connecting,
    begin_query, classify_query_end, complete_query, connection_finished, effective_readonly,
    shutdown_step, AppState, InputFocus, NextStep, PromptInputState, QueryFailure, QueryOutcome,
    QueryTaskEnd, ShellInputState, ShutdownAction, SqlInputChange, MAX_SQL_HISTORY,
};
use poshgre::tui::state::{execute_sql_input, initial_state, SqlInputState, StartQueryError};
use poshgre::tui::{determine_skim_action, SelectedRecord, SkimAction};
use std::time::Duration;

#[test]
fn shell_history_records_and_browses() {
    let mut shell = ShellInputState::new();
    shell.add_to_shell_history("  ls -l  ");
    shell.add_to_shell_history("ls -l");
    shell.add_to_shell_history("   ");
    shell.add_to_shell_history("pwd");
    assert_eq!(shell.history.iter().cloned().collect::<Vec<_>>(), vec!["ls -l", "pwd"]);

    shell.text = "draft".to_string();
    shell.shell_history_prev();
    assert_eq!(shell.text, "pwd");
    assert_eq!(shell.history_index, Some(1));
    shell.shell_history_prev();
    assert_eq!(shell.text, "ls -l");
    assert_eq!(shell.cursor_position, 5);
    shell.shell_history_prev();
    assert_eq!(shell.text, "ls -l");
    assert_eq!(shell.history_index, Some(0));
    shell.shell_history_next();
    assert_eq!(shell.text, "pwd");
    shell.shell_history_next();
    assert_eq!(shell.text, "draft");
    assert_eq!(shell.history_index, None);
    assert_eq!(shell.history_draft, "");
    assert_eq!(shell.cursor_position, 5);
    shell.shell_history_next();
    assert_eq!(shell.text, "draft");
}

#[test]
fn shell_history_is_bounded() {
    let mut shell = ShellInputState::new();
    for i in 0..(MAX_SQL_HISTORY + 5) {
        shell.add_to_shell_history(&format!("cmd {}", i));
    }
    assert_eq!(shell.history.len(), MAX_SQL_HISTORY);
    assert_eq!(shell.history[0], "cmd 5");
    assert_eq!(shell.history[MAX_SQL_HISTORY - 1], format!("cmd {}", MAX_SQL_HISTORY + 4));
}

#[test]
fn empty_history_prev_does_nothing() {
    let mut shell = ShellInputState::new();
    shell.text = "x".to_string();
    shell.shell_history_prev();
    assert_eq!(shell.text, "x");
    assert_eq!(shell.history_index, None);
}

#[test]
fn prompt_request_finishes() {
    let mut prompt = PromptInputState::new();
    prompt.is_processing = true;
    prompt.tick_loading();
    prompt.tick_loading();
    assert_eq!(prompt.loading_tick, 2);
    prompt.loading_tick = 255;
    prompt.tick_loading();
    assert_eq!(prompt.loading_tick, 0);
    let mut focus = InputFocus::Prompt;
    let r = prompt.finish_request(Ok("SELECT *\n  FROM t\n".to_string()), &mut focus);
    assert_eq!(r, Some(("SELECT * FROM t".to_string(), 15)));
    assert_eq!(focus, InputFocus::Sql);
    assert!(!prompt.is_processing);
    assert_eq!(prompt.last_error, None);
    prompt.is_processing = true;
    prompt.loading_tick = 9;
    let mut focus = InputFocus::Prompt;
    let r = prompt.finish_request(Err("boom".to_string()), &mut focus);
    assert_eq!(r, None);
    assert_eq!(focus, InputFocus::Prompt);
    assert_eq!(prompt.last_error, Some("boom".to_string()));
    assert_eq!(prompt.loading_tick, 0);
    prompt.tick_loading();
    assert_eq!(prompt.loading_tick, 0);
    assert_eq!(InputFocus::default(), InputFocus::Sql);
}

fn result(should_display: bool) -> QueryResult {
    QueryResult {
        columns: vec!["a".to_string()],
        rows: vec![],
        execution_time: Duration::from_millis(1),
        should_display,
    }
}

#[test]
fn query_lifecycle() {
    let state: AppState<u32, ()> = AppState::Connected { manager: 7 };
    let (state, manager) = match begin_query(state, "SELECT 1".to_string()) {
        Ok(x) => x,
        Err(_) => panic!("connected state starts a query"),
    };
    assert!(matches!(state, AppState::Executing { ref query } if query == "SELECT 1"));
    assert_eq!(manager, 7);
    assert!(begin_query::<u32, ()>(state, "x".to_string()).is_err());

    let done = complete_query::<u32, ()>(7, QueryOutcome::Finished(result(true)), None);
    assert!(matches!(done.state, AppState::ShowingResult { manager: Some(7), .. }));
    assert!(done.clear_sql_input && !done.refresh_table_cache);

    let done = complete_query::<u32, ()>(
        7,
        QueryOutcome::Finished(result(false)),
        Some("s".to_string()),
    );
    assert!(matches!(done.state, AppState::Connected { manager: 7 }));
    assert_eq!(done.new_schema, Some("s".to_string()));
    assert!(done.refresh_table_cache);

    let done = complete_query::<u32, ()>(7, QueryOutcome::Failed("bad".to_string()), None);
    match done.state {
        AppState::Error { message, previous_state } => {
            assert_eq!(message, "bad");
            assert!(matches!(*previous_state, AppState::Connected { manager: 7 }));
        }
        _ => panic!("a failure shows an error"),
    }
    assert!(!done.clear_sql_input);

    let shown: AppState<u32, ()> = AppState::ShowingResult { result: result(true), manager: Some(3) };
    assert_eq!(shown.manager(), Some(&3));
    assert_eq!(shown.connected_manager(), None);
}

#[test]
fn connecting_lifecycle() {
    let mut state: AppState<u32, &str> =
        AppState::Connecting { connection_name: "db".to_string(), spinner_frame: 255 };
    state.advance_spinner();
    assert!(matches!(state, AppState::Connecting { spinner_frame: 0, .. }));
    let done = connection_finished::<u32, &str>(vec!["a"], Ok(1));
    assert!(matches!(done.state, AppState::Connected { manager: 1 }));
    assert!(done.init_completion_cache);
    let done = connection_finished::<u32, &str>(vec!["a"], Err("refused".to_string()));
    assert!(!done.init_completion_cache);
    match done.state {
        AppState::Error { message, previous_state } => {
            assert_eq!(message, "refused");
            assert!(matches!(*previous_state, AppState::Selecting { selected_index: 0, .. }));
        }
        _ => panic!("a failed connection shows an error"),
    }
}

#[test]
fn viewer_follow_ups() {
    let f = after_streaming_viewer(Ok(Some(SkimAction::DrillDown("SET search_path TO \"x\"".to_string()))));
    assert_eq!(f.next, NextStep::Execute);
    assert!(matches!(f.input, SqlInputChange::Replace { cursor_position: 22, record: true, .. }));
    let f = after_streaming_viewer(Ok(Some(SkimAction::DrillDown("SELECT * FROM \"t\"".to_string()))));
    assert_eq!(f.next, NextStep::Stream);
    let f = after_streaming_viewer(Ok(None));
    assert!(matches!(f.input, SqlInputChange::Clear));
    assert_eq!(f.error, None);
    let f = after_streaming_viewer(Err("timeout".to_string()));
    assert_eq!(f.error, Some("timeout".to_string()));
    assert!(matches!(f.input, SqlInputChange::Keep));
    assert_eq!(f.next, NextStep::Idle);
    let record = SelectedRecord { columns: vec![("a".to_string(), "1".to_string())] };
    let f = after_result_viewer(
        Some(SkimAction::SelectRecord { where_template: "w".to_string(), record }),
        true,
    );
    assert_eq!(f.next, NextStep::Idle);
    assert!(matches!(f.selected_record, Some(Some(_))));
    let f = after_result_viewer(None, false);
    assert_eq!(f.next, NextStep::Quit);
    let f = after_result_viewer(Some(SkimAction::DrillDown("SELECT 1".to_string())), true);
    assert_eq!(f.next, NextStep::Execute);
}

fn strings(v: &[&str]) -> Vec<String> {
    v.iter().map(|s| s.to_string()).collect()
}

#[test]
fn skim_actions() {
    match determine_skim_action("schema_name", "my\"s", &[], &[], None) {
        SkimAction::DrillDown(sql) => assert_eq!(sql, "SET search_path TO \"my\"\"s\""),
        _ => panic!(),
    }
    match determine_skim_action("tablename", "users", &[], &[], None) {
        SkimAction::DrillDown(sql) => assert_eq!(sql, "SELECT * FROM \"users\""),
        _ => panic!(),
    }
    match determine_skim_action(
        "id",
        "O'Brien",
        &strings(&["id", "name"]),
        &strings(&["O'Brien"]),
        Some("public.users"),
    ) {
        SkimAction::SelectRecord { where_template, record } => {
            assert_eq!(where_template, "SELECT * FROM \"public\".\"users\" WHERE \"id\" = 'O''Brien'");
            assert_eq!(record.columns, vec![("id".to_string(), "O'Brien".to_string())]);
        }
        _ => panic!(),
    }
    match determine_skim_action("c", "v", &[], &[], None) {
        SkimAction::SelectRecord { where_template, .. } => {
            assert_eq!(where_template, "SELECT * FROM \"?\" WHERE \"c\" = 'v'")
        }
        _ => panic!(),
    }
}

#[test]
fn column_selection_follow_up() {
    let f = after_column_selection(Ok(Some("SELECT \"a\" FROM \"t\"".to_string())));
    assert_eq!(f.error, None);
    assert_eq!(f.next, NextStep::Execute);
    assert!(matches!(f.input, SqlInputChange::Replace { cursor_position: 19, record: false, .. }));
    let f = after_column_selection(Ok(None));
    assert!(matches!(f.input, SqlInputChange::Keep));
    assert_eq!(f.next, NextStep::Idle);
    let f = after_column_selection(Err("no tables".to_string()));
    assert_eq!(f.error, Some("no tables".to_string()));
    assert_eq!(f.next, NextStep::Idle);
}

#[test]
fn shutdown_policy() {
    assert_eq!(shutdown_step(false, 0), ShutdownAction::Quit);
    assert_eq!(shutdown_step(false, 9000), ShutdownAction::Quit);
    assert_eq!(shutdown_step(true, 0), ShutdownAction::WaitAndPoll);
    assert_eq!(shutdown_step(true, 4999), ShutdownAction::WaitAndPoll);
    assert_eq!(shutdown_step(true, 5000), ShutdownAction::AbortAndQuit);
}

#[test]
fn readonly_and_connecting() {
    assert!(!effective_readonly(false, false));
    assert!(effective_readonly(true, false));
    assert!(effective_readonly(false, true));
    let bastion = BastionTarget {
        host: "bastion.example".to_string(),
        port: 22,
        user: "ops".to_string(),
        key_path: None,
    };
    let start = begin_connecting::<u32, ()>("prod".to_string(), Some(&bastion), true, false);
    assert!(matches!(start.state, AppState::Connecting { ref connection_name, spinner_frame: 0 } if connection_name == "prod"));
    assert_eq!(start.connection_name, "prod");
    assert_eq!(start.bastion_name, Some("bastion.example".to_string()));
    assert!(start.readonly);
    let start = begin_connecting::<u32, ()>("dev".to_string(), None, false, false);
    assert_eq!(start.bastion_name, None);
    assert!(!start.readonly);
}

#[test]
fn query_failures_classified() {
    assert!(matches!(
        classify_query_end("q".to_string(), QueryTaskEnd::Returned(Err("syntax".to_string()))),
        Err(QueryFailure::Failed { ref detail }) if detail == "syntax"
    ));
    assert!(matches!(
        classify_query_end("SELECT 1".to_string(), QueryTaskEnd::Cancelled),
        Err(QueryFailure::Cancelled { ref query }) if query == "SELECT 1"
    ));
    assert!(matches!(
        classify_query_end("q".to_string(), QueryTaskEnd::Crashed("panic".to_string())),
        Err(QueryFailure::TaskFailed { ref detail }) if detail == "panic"
    ));
    assert!(matches!(
        classify_query_end("q".to_string(), QueryTaskEnd::Returned(Ok(result(true)))),
        Ok(_)
    ));
}

#[test]
fn shell_commands_run_on_the_bastion() {
    let (program, args) = shell_invocation(None, "ls -l | wc");
    assert_eq!(program, "sh");
    assert_eq!(args, vec!["-c", "ls -l | wc"]);
    let mut bastion = BastionTarget {
        host: "b.example".to_string(),
        port: 2222,
        user: "ops".to_string(),
        key_path: None,
    };
    let (program, args) = shell_invocation(Some(&bastion), "uptime");
    assert_eq!(program, "ssh");
    assert_eq!(args, vec!["-p", "2222", "ops@b.example", "uptime"]);
    bastion.key_path = Some("/k/id".to_string());
    bastion.port = 0;
    let (_, args) = shell_invocation(Some(&bastion), "df -h");
    assert_eq!(args, vec!["-p", "0", "ops@b.example", "-i", "/k/id", "df -h"]);
}

#[test]
fn sql_input_runs_with_a_connection() {
    let mut input: SqlInputState<()> = SqlInputState::new();
    input.text = "SELECT * FROM users".to_string();
    input.cursor_position = 19;
    let state: AppState<u32, ()> = AppState::Connected { manager: 4 };
    match execute_sql_input(state, &mut input) {
        Ok((AppState::Executing { query }, manager, task_sql)) => {
            assert_eq!(query, "SELECT * FROM users");
            assert_eq!(manager, 4);
            assert_eq!(task_sql, "SELECT * FROM users");
        }
        _ => panic!("a connected state runs the input"),
    }
    assert_eq!(input.last_sql, "SELECT * FROM users");
    assert_eq!(input.text, "SELECT * FROM users");
    assert_eq!(input.cursor_position, 19);

    let mut input: SqlInputState<()> = SqlInputState::new();
    input.text = "SELECT 2".to_string();
    input.last_sql = "SELECT 1".to_string();
    let state: AppState<u32, ()> = AppState::Connecting { connection_name: "db".to_string(), spinner_frame: 3 };
    match execute_sql_input(state, &mut input) {
        Err((AppState::Connecting { spinner_frame: 3, .. }, e)) => {
            assert_eq!(e, StartQueryError::NoConnection);
            assert_eq!(e.message(), "接続がありません");
        }
        _ => panic!("without a connection the state comes back"),
    }
    assert_eq!(input.last_sql, "SELECT 1");

    let shown: AppState<u32, ()> = AppState::ShowingResult { result: result(true), manager: Some(9) };
    let mut input: SqlInputState<()> = SqlInputState::new();
    input.text = "SELECT 3".to_string();
    assert!(matches!(execute_sql_input(shown, &mut input), Ok((_, 9, _))));
    assert_eq!(input.last_sql, "SELECT 3");
    let gone: AppState<u32, ()> = AppState::ShowingResult { result: result(true), manager: None };
    assert!(execute_sql_input(gone, &mut input).is_err());
}

#[test]
fn starts_by_selecting() {
    match initial_state::<u32, &str>(vec!["a", "b"]) {
        AppState::Selecting { connections, selected_index } => {
            assert_eq!(connections, vec!["a", "b"]);
            assert_eq!(selected_index, 0);
        }
        _ => panic!(),
    }
}
