use localai_cli::actions::Action;
use localai_cli::browser::App;
use localai_cli::discover::Doc;
use localai_cli::panels::{
    action_item_parts, endpoint_item_parts, list_title, tab_title, table_footer, table_window,
    tag_footer, tag_window,
};
use localai_cli::text::{
    count_lines, decimal_string, eq_ignore_ascii_case_str, is_blank_str, join_strings,
    pad_right_string, replace_first,
};

#[test]
fn decimal_rendering() {
    assert_eq!(decimal_string(0), "0");
    assert_eq!(decimal_string(7), "7");
    assert_eq!(decimal_string(1234), "1234");
    assert_eq!(decimal_string(usize::MAX), usize::MAX.to_string());
}

#[test]
fn line_counting() {
    assert_eq!(count_lines(""), 0);
    assert_eq!(count_lines("a"), 1);
    assert_eq!(count_lines("a\n"), 1);
    assert_eq!(count_lines("a\nb"), 2);
    assert_eq!(count_lines("\n\n"), 2);
    assert_eq!(count_lines("a\r\nb\r\n"), 2);
}

#[test]
fn blank_texts() {
    assert!(is_blank_str(""));
    assert!(is_blank_str(" \t\r\n\u{3000}\u{a0}"));
    assert!(!is_blank_str(" x "));
}

#[test]
fn padding_and_joining() {
    assert_eq!(pad_right_string("ab", 5), "ab   ");
    assert_eq!(pad_right_string("abcdef", 3), "abcdef");
    assert_eq!(join_strings(&vec!["a".to_string(), "b".to_string()], ", "), "a, b");
    assert_eq!(join_strings(&Vec::new(), ", "), "");
}

#[test]
fn ascii_case_insensitive_equality() {
    assert!(eq_ignore_ascii_case_str("Models", "mODELS"));
    assert!(!eq_ignore_ascii_case_str("É", "é"));
    assert!(!eq_ignore_ascii_case_str("model", "models"));
}

#[test]
fn replacing_the_first_occurrence() {
    assert_eq!(replace_first("/a/{id}/b/{id}", "{id}", "7"), "/a/7/b/{id}");
    assert_eq!(replace_first("/a", "{id}", "7"), "/a");
    assert_eq!(replace_first("abc", "", "X"), "Xabc");
}

#[test]
fn tab_and_list_titles() {
    assert_eq!(tab_title(0), " Models ");
    assert_eq!(tab_title(3), " Tags ");
    assert_eq!(list_title(2), " Endpoints (GET) ");
    assert_eq!(list_title(9), " ");
}

#[test]
fn list_entry_texts() {
    let a = Action::get("Job by UUID", "/models/jobs/{uuid}");
    assert_eq!(
        action_item_parts(&a),
        vec![
            "GET   ".to_string(),
            " ".to_string(),
            "Job by UUID".to_string(),
            "  ".to_string(),
            "/models/jobs/{uuid}".to_string(),
            "  ✎uuid".to_string(),
        ]
    );
    let b = Action::get("A summary that is far too long to show", "/x");
    assert_eq!(
        endpoint_item_parts(&b),
        vec!["A summary that is far too…".to_string(), "  ".to_string(), "/x".to_string()]
    );
    assert_eq!(action_item_parts(&b)[2], "A summary that is far…");
    assert_eq!(action_item_parts(&b).len(), 5);
}

#[test]
fn table_windows_and_footers() {
    // 10 rows in a panel of 7 lines: 5 body rows.
    assert_eq!(table_window(0, 10, 7), (0, 5, 5));
    assert_eq!(table_window(8, 10, 7), (5, 10, 5));
    assert_eq!(table_window(3, 2, 7), (0, 2, 5));
    assert_eq!(table_window(0, 3, 1), (0, 0, 0));
    assert_eq!(table_footer(5, 10, 10, 5), " 6–10 of 10 rows ");
    assert_eq!(table_footer(0, 2, 2, 5), " 2 rows ");
}

#[test]
fn tag_windows_and_footers() {
    assert_eq!(tag_window(9, 4, 2), (3, 4, 1));
    assert_eq!(tag_window(0, 4, 10), (0, 4, 8));
    assert_eq!(tag_footer(3, 4, 4, 1), " 4–4 of 4 ");
    assert_eq!(tag_footer(0, 4, 4, 8), " 4 endpoints ");
}

#[test]
fn panel_titles() {
    let mut app = App::new(&Doc { paths: Vec::new(), definitions: Vec::new() });
    assert_eq!(app.result_title(), " Result ");
    assert_eq!(app.result_placeholder(), "Run an action with Enter.");
    assert_eq!(app.tag_panel_title(), " Endpoints ");
    app.tags.push("models".to_string());
    app.tag_endpoints.push(Vec::new());
    app.selections[3] = Some(0);
    assert_eq!(app.tag_panel_title(), " Endpoints tagged “models” ");
    app.status = "ready".to_string();
    assert_eq!(app.status_line(), " ready ");
    assert_eq!(app.popup_title(), " Parameter:  ");
}
