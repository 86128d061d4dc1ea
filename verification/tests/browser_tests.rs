use localai_cli::actions::{backend_actions, model_actions, path_param_names, Action};
use localai_cli::browser::{App, Event, KeyCode, KeyPress, Popup, ResultKind, ResultView, Step};
use localai_cli::discover::{Doc, Operation, PathItem};
use localai_cli::input::InputState;
use localai_cli::json::Json;

fn op(summary: Option<&str>, tags: &[&str]) -> Operation {
    Operation {
        summary: summary.map(|s| s.to_string()),
        tags: tags.iter().map(|t| t.to_string()).collect(),
        parameters: Vec::new(),
        consumes: Vec::new(),
        produces: Vec::new(),
    }
}

fn item() -> PathItem {
    PathItem { get: None, post: None, put: None, delete: None, patch: None, head: None }
}

fn doc() -> Doc {
    let mut a = item();
    a.get = Some(op(Some("List models"), &["models"]));
    let mut b = item();
    b.get = Some(op(None, &["jobs", "models"]));
    b.post = Some(op(Some("Cancel"), &["jobs"]));
    let mut c = item();
    c.post = Some(op(Some("Apply"), &["apply"]));
    Doc {
        paths: vec![
            ("/v1/models".to_string(), a),
            ("/models/jobs/{uuid}".to_string(), b),
            ("/models/apply".to_string(), c),
        ],
        definitions: Vec::new(),
    }
}

fn key(code: KeyCode) -> KeyPress {
    KeyPress { code, ctrl: false }
}

fn press(app: &mut App, code: KeyCode) -> Step {
    let k = key(code);
    assert!(app.key_allowed(k));
    app.handle_key(k)
}

#[test]
fn path_params_are_found() {
    assert_eq!(path_param_names("/models/jobs/{uuid}"), vec!["uuid".to_string()]);
    assert_eq!(
        path_param_names("/a/{x}/b/{}/c/{y"),
        vec!["x".to_string(), "y".to_string()]
    );
    assert!(path_param_names("/plain").is_empty());
}

#[test]
fn action_get_fills_params() {
    let a = Action::get("Job", "/jobs/{id}");
    assert_eq!(a.name, "Job");
    assert_eq!(a.method, "GET");
    assert_eq!(a.path, "/jobs/{id}");
    assert_eq!(a.params, vec!["id".to_string()]);
}

#[test]
fn fixed_actions_mirror_the_cli() {
    let m: Vec<(String, String)> = model_actions().into_iter().map(|a| (a.name, a.path)).collect();
    assert_eq!(
        m,
        vec![
            ("List".to_string(), "/v1/models".to_string()),
            ("Available".to_string(), "/models/available".to_string()),
            ("Galleries".to_string(), "/models/galleries".to_string()),
            ("Jobs".to_string(), "/models/jobs".to_string()),
            ("Job by UUID".to_string(), "/models/jobs/{uuid}".to_string()),
        ]
    );
    let b = backend_actions();
    assert_eq!(b.len(), 6);
    assert_eq!(b[0].name, "List");
    assert_eq!(b[0].path, "/backends");
    assert_eq!(b[2].path, "/backends/known");
    assert_eq!(b[5].params, vec!["uuid".to_string()]);
}

#[test]
fn new_app_state() {
    let app = App::new(&doc());
    assert_eq!(app.tab, 0);
    assert_eq!(app.selections, vec![Some(0), Some(0), Some(0), Some(0)]);
    assert_eq!(
        app.status,
        "Tab: switch panel  j/k: move  Enter: run  r: refresh  J/K: scroll result  q: quit"
    );
    let eps: Vec<(String, String)> =
        app.endpoint_actions.iter().map(|a| (a.name.clone(), a.path.clone())).collect();
    assert_eq!(
        eps,
        vec![
            ("/models/jobs/{uuid}".to_string(), "/models/jobs/{uuid}".to_string()),
            ("List models".to_string(), "/v1/models".to_string()),
        ]
    );
    assert_eq!(app.tags, vec!["apply".to_string(), "jobs".to_string(), "models".to_string()]);
    assert!(app.tag_endpoints[0].is_empty());
    assert_eq!(
        app.tag_endpoints[1],
        vec![("/models/jobs/{uuid}".to_string(), String::new())]
    );
    assert_eq!(
        app.tag_endpoints[2],
        vec![
            ("/models/jobs/{uuid}".to_string(), String::new()),
            ("/v1/models".to_string(), "List models".to_string()),
        ]
    );
    assert_eq!(app.popup, Popup::Closed);
    assert!(app.pending.is_none());
    assert_eq!(app.result.kind, ResultKind::Empty);
}

#[test]
fn empty_doc_leaves_lists_unselected() {
    let app = App::new(&Doc { paths: Vec::new(), definitions: Vec::new() });
    assert_eq!(app.selections, vec![Some(0), Some(0), None, None]);
}

#[test]
fn tabs_wrap_around() {
    let mut app = App::new(&doc());
    assert_eq!(press(&mut app, KeyCode::BackTab), Step::Continue);
    assert_eq!(app.tab, 3);
    assert_eq!(press(&mut app, KeyCode::Tab), Step::Continue);
    assert_eq!(app.tab, 0);
    press(&mut app, KeyCode::Char('3'));
    assert_eq!(app.tab, 2);
}

#[test]
fn selection_stays_in_the_list() {
    let mut app = App::new(&doc());
    press(&mut app, KeyCode::Up);
    assert_eq!(app.selected(), Some(0));
    press(&mut app, KeyCode::PageDown);
    assert_eq!(app.selected(), Some(4));
    press(&mut app, KeyCode::Char('j'));
    assert_eq!(app.selected(), Some(4));
    press(&mut app, KeyCode::Char('k'));
    assert_eq!(app.selected(), Some(3));
}

#[test]
fn moving_on_the_tags_tab_resets_the_scroll() {
    let mut app = App::new(&doc());
    app.tab = 3;
    app.result_scroll = 5;
    app.move_list(1);
    assert_eq!(app.selected(), Some(1));
    assert_eq!(app.result_scroll, 0);
}

#[test]
fn enter_fetches_an_action_without_parameters() {
    let mut app = App::new(&doc());
    assert_eq!(press(&mut app, KeyCode::Enter), Step::Fetch);
    assert_eq!(app.fetch_path(), Some("/v1/models".to_string()));
    assert_eq!(app.status, "GET /v1/models …");
    assert_eq!(app.popup, Popup::Closed);
}

#[test]
fn template_action_prompts_then_fetches() {
    let mut app = App::new(&doc());
    app.move_list(4);
    assert_eq!(press(&mut app, KeyCode::Enter), Step::Continue);
    assert_eq!(app.popup, Popup::Input);
    assert_eq!(app.input.label, "uuid");
    assert_eq!(app.status, "Enter value for parameter: uuid");
    for ch in "abz".chars() {
        assert_eq!(press(&mut app, KeyCode::Char(ch)), Step::Continue);
    }
    assert_eq!(app.input.value, "abz");
    press(&mut app, KeyCode::Left);
    press(&mut app, KeyCode::Backspace);
    assert_eq!(app.input.value, "az");
    assert_eq!(app.input.cursor, 1);
    assert_eq!(press(&mut app, KeyCode::Enter), Step::Fetch);
    assert_eq!(app.popup, Popup::Closed);
    assert_eq!(app.fetch_path(), Some("/models/jobs/az".to_string()));
    assert_eq!(app.status, "GET /models/jobs/az …");
}

#[test]
fn escape_cancels_the_prompt() {
    let mut app = App::new(&doc());
    app.move_list(4);
    press(&mut app, KeyCode::Enter);
    assert_eq!(press(&mut app, KeyCode::Esc), Step::Continue);
    assert_eq!(app.popup, Popup::Closed);
    assert!(app.pending.is_none());
    assert_eq!(app.status, "Cancelled.");
    assert_eq!(app.fetch_path(), None);
}

#[test]
fn quitting_keys() {
    let mut app = App::new(&doc());
    assert_eq!(press(&mut app, KeyCode::Char('q')), Step::Quit);
    assert_eq!(press(&mut app, KeyCode::Esc), Step::Quit);
    app.move_list(4);
    press(&mut app, KeyCode::Enter);
    // In the popup `q` cancels instead of quitting; with Control it is text.
    let ctrl_q = KeyPress { code: KeyCode::Char('q'), ctrl: true };
    assert_eq!(app.handle_key(ctrl_q), Step::Continue);
    assert_eq!(app.input.value, "q");
    assert_eq!(press(&mut app, KeyCode::Char('q')), Step::Continue);
    assert_eq!(app.popup, Popup::Closed);
    assert!(app.pending.is_none());
    assert_eq!(app.status, "Cancelled.");
    let ctrl_c = KeyPress { code: KeyCode::Char('c'), ctrl: true };
    assert_eq!(app.handle_key(ctrl_c), Step::Quit);
}

#[test]
fn refresh_runs_only_plain_actions() {
    let mut app = App::new(&doc());
    assert_eq!(press(&mut app, KeyCode::Char('r')), Step::Fetch);
    app.finish_fetch(Ok(Json::Array(Vec::new())));
    app.move_list(4);
    assert_eq!(press(&mut app, KeyCode::Char('r')), Step::Continue);
    assert!(app.pending.is_none());
    app.tab = 3;
    assert_eq!(press(&mut app, KeyCode::Char('r')), Step::Continue);
    assert_eq!(press(&mut app, KeyCode::Enter), Step::Continue);
}

#[test]
fn finished_fetch_shows_a_table() {
    let mut app = App::new(&doc());
    press(&mut app, KeyCode::Enter);
    let body = Json::Object(vec![(
        "data".to_string(),
        Json::Array(vec![
            Json::Object(vec![("id".to_string(), Json::String("a".to_string()))]),
            Json::Object(vec![("id".to_string(), Json::String("b".to_string()))]),
        ]),
    )]);
    app.finish_fetch(Ok(body));
    assert_eq!(app.status, "OK   GET /v1/models  (2 rows)");
    assert_eq!(app.result.kind, ResultKind::Table);
    assert_eq!(app.result.headers, vec!["id".to_string()]);
    assert_eq!(app.result.path, "/v1/models");
    assert!(app.pending.is_none());
    assert_eq!(app.result_title(), " GET /v1/models ");
}

#[test]
fn finished_fetch_without_data() {
    let mut app = App::new(&doc());
    press(&mut app, KeyCode::Enter);
    app.finish_fetch(Ok(Json::Object(Vec::new())));
    assert_eq!(app.result.kind, ResultKind::Empty);
    assert_eq!(app.result.text, "No data.");
    assert_eq!(app.status, "OK   GET /v1/models  (0 rows)");
    assert_eq!(app.result_placeholder(), "No data.");
}

#[test]
fn failed_fetch_shows_the_error() {
    let mut app = App::new(&doc());
    press(&mut app, KeyCode::Enter);
    app.finish_fetch(Err("HTTP 500 Internal Server Error: boom".to_string()));
    assert_eq!(app.status, "FAIL GET /v1/models");
    assert_eq!(app.result.kind, ResultKind::Error);
    assert_eq!(app.result.text, "HTTP 500 Internal Server Error: boom");
}

#[test]
fn scrolling_is_bounded() {
    let mut app = App::new(&doc());
    app.result.set_error("1\n2\n3\n4\n5".to_string(), "/x");
    app.scroll_result(3, 2);
    assert_eq!(app.result_scroll, 3);
    app.scroll_result(3, 2);
    assert_eq!(app.result_scroll, 3);
    app.scroll_result(-10, 2);
    assert_eq!(app.result_scroll, 0);
    app.scroll_result(3, 20);
    assert_eq!(app.result_scroll, 0);
}

#[test]
fn paste_goes_into_the_popup() {
    let mut app = App::new(&doc());
    assert_eq!(app.handle_event(Event::Paste("ignored".to_string())), Step::Continue);
    assert_eq!(app.input.value, "");
    app.move_list(4);
    press(&mut app, KeyCode::Enter);
    assert_eq!(app.handle_event(Event::Paste("né".to_string())), Step::Continue);
    assert_eq!(app.input.value, "né");
    assert_eq!(app.input.cursor, 3);
}

#[test]
fn key_releases_are_ignored() {
    let mut app = App::new(&doc());
    let ev = Event::Key { key: key(KeyCode::Char('q')), is_press: false };
    assert_eq!(app.handle_event(ev), Step::Continue);
    let ev = Event::Key { key: key(KeyCode::Char('q')), is_press: true };
    assert_eq!(app.handle_event(ev), Step::Quit);
    assert_eq!(app.handle_event(Event::Other), Step::Continue);
}

#[test]
fn typing_then_deleting_restores_the_input() {
    let mut input = InputState::new("label".to_string());
    input.insert('a');
    input.insert('é');
    assert_eq!(input.value, "aé");
    assert_eq!(input.cursor, 3);
    input.backspace();
    assert_eq!(input.value, "a");
    assert_eq!(input.cursor, 1);
    input.backspace();
    input.backspace();
    assert_eq!(input.value, "");
    assert_eq!(input.cursor, 0);
}

#[test]
fn cursor_moves_within_the_value() {
    let mut input = InputState::new(String::new());
    input.paste("abc");
    input.move_cursor(1);
    assert_eq!(input.cursor, 3);
    input.move_cursor(-5);
    assert_eq!(input.cursor, 0);
    input.move_cursor(2);
    assert_eq!(input.cursor, 2);
}

#[test]
fn non_ascii_characters_are_typed_whole() {
    let mut app = App::new(&doc());
    app.move_list(4);
    press(&mut app, KeyCode::Enter);
    press(&mut app, KeyCode::Char('é'));
    assert_eq!(app.input.cursor, 2);
    press(&mut app, KeyCode::Char('x'));
    assert_eq!(app.input.value, "éx");
    assert_eq!(app.input.cursor, 3);
    press(&mut app, KeyCode::Left);
    press(&mut app, KeyCode::Char('ü'));
    assert_eq!(app.input.value, "éüx");
    assert_eq!(app.input.cursor, 4);
    // Left moves one byte, into the middle of `ü`: typing there is refused,
    // and Backspace removes the character that starts one byte back.
    press(&mut app, KeyCode::Left);
    assert_eq!(app.input.cursor, 3);
    assert!(!app.key_allowed(key(KeyCode::Char('y'))));
    press(&mut app, KeyCode::Backspace);
    assert_eq!(app.input.value, "éx");
    assert_eq!(app.input.cursor, 2);
}

#[test]
fn tags_tab_scrolls_over_the_tag_endpoints() {
    let mut app = App::new(&doc());
    app.tab = 3;
    // The tags are apply, jobs, models; "models" has two GET endpoints.
    app.move_list(2);
    assert_eq!(app.tags[2], "models");
    assert_eq!(app.tag_endpoints[2].len(), 2);
    app.result.set_error("1\n2\n3\n4\n5\n6".to_string(), "/x");
    app.scroll_result(3, 1);
    assert_eq!(app.result_scroll, 1);
    app.scroll_result(-3, 0);
    assert_eq!(app.result_scroll, 0);
    app.scroll_result(5, 0);
    assert_eq!(app.result_scroll, 2);
}

#[test]
fn finishing_without_a_pending_fetch_changes_nothing() {
    let mut app = App::new(&doc());
    app.finish_fetch(Err("late".to_string()));
    assert_eq!(app.result.kind, ResultKind::Empty);
    assert_eq!(app.result.text, "");
    assert_eq!(
        app.status,
        "Tab: switch panel  j/k: move  Enter: run  r: refresh  J/K: scroll result  q: quit"
    );
}

#[test]
fn error_after_a_table_clears_it() {
    let mut app = App::new(&doc());
    press(&mut app, KeyCode::Enter);
    app.finish_fetch(Ok(Json::Array(vec![Json::String("x".to_string())])));
    assert_eq!(app.result.kind, ResultKind::Table);
    assert_eq!(app.result.text, "");
    assert!(!app.result.headers.is_empty());
    press(&mut app, KeyCode::Enter);
    app.finish_fetch(Err("boom".to_string()));
    assert!(app.result.headers.is_empty());
    assert!(app.result.rows.is_empty());
    assert_eq!(app.result.text, "boom");
}

#[test]
fn result_view_default_is_empty() {
    let r = ResultView::default();
    assert_eq!(r.kind, ResultKind::Empty);
    assert!(r.headers.is_empty() && r.rows.is_empty() && r.text.is_empty() && r.path.is_empty());
}
