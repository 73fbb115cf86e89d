use frame_engine::script::{
    contains_text, is_api_var, line_gutter, new_script_key, parsed_warnings, script_check, script_matches,
    script_warnings,
    status_line, unknown_variables,
    ScriptError, VariableUse,
};

fn use_of(name: &str, line: usize, column: usize) -> VariableUse {
    VariableUse { name: name.to_string(), line: Some(line), column: Some(column) }
}

#[test]
fn vocabulary() {
    assert!(is_api_var(&"pos".to_string()));
    assert!(is_api_var(&"cb".to_string()));
    assert!(!is_api_var(&"poz".to_string()));
}

#[test]
fn unknown_names_reported_once_in_order() {
    let declared = vec!["speed".to_string()];
    let used = vec![
        use_of("poz", 1, 1),
        use_of("pos", 1, 9),
        use_of("speed", 2, 1),
        use_of("hti", 3, 4),
        use_of("poz", 4, 2),
    ];
    let out = unknown_variables(&declared, &used);
    assert_eq!(out.len(), 2);
    assert_eq!(out[0].message, "unknown variable 'poz' — not part of the script API");
    assert_eq!((out[0].line, out[0].column), (Some(1), Some(1)));
    assert_eq!(out[1].message, "unknown variable 'hti' — not part of the script API");
    assert_eq!((out[1].line, out[1].column), (Some(3), Some(4)));
    assert!(unknown_variables(&declared, &vec![use_of("t", 1, 1)]).is_empty());
}

#[test]
fn new_script_key_is_trimmed() {
    assert_eq!(new_script_key("  spin \n").as_deref(), Some("spin"));
    assert_eq!(new_script_key("   "), None);
    assert_eq!(new_script_key(""), None);
}

#[test]
fn status_line_leads_with_location() {
    let e = |line, column| ScriptError { line, column, message: "oops".to_string() };
    assert_eq!(status_line(&e(Some(3), Some(14))), "line 3, col 14: oops");
    assert_eq!(status_line(&e(Some(7), None)), "line 7: oops");
    assert_eq!(status_line(&e(None, Some(2))), "oops");
}

#[test]
fn gutter_numbers_every_line_right_aligned() {
    assert_eq!(line_gutter(""), "1");
    assert_eq!(line_gutter("a\nb"), "1\n2");
    let ten_lines = "x\n".repeat(9);
    assert_eq!(line_gutter(&ten_lines), " 1\n 2\n 3\n 4\n 5\n 6\n 7\n 8\n 9\n10");
}

#[test]
fn picker_filter_ignores_case() {
    assert!(script_matches("SpinAround", "spin"));
    assert!(script_matches("Spin", "SP"));
    assert!(script_matches("anything", ""));
    assert!(!script_matches("bounce", "spin"));
}

#[test]
fn substring_search() {
    assert!(contains_text("hello world", "o w"));
    assert!(contains_text("abc", ""));
    assert!(!contains_text("abc", "abcd"));
    assert!(!contains_text("abc", "ac"));
}

#[test]
fn syntax_check_reports_position() {
    assert!(script_check("pos.x = pos.x + 1.0;").is_ok());
    let err = script_check("let a = ;").unwrap_err();
    assert_eq!(err.line, Some(1));
    assert!(err.column.is_some());
    assert!(!err.message.is_empty());
}

#[test]
fn warnings_from_source() {
    let ws = script_warnings("let speed = 2.0;\npoz.x = speed;\nif hti { poz.y = t; }");
    let messages: Vec<&str> = ws.iter().map(|w| w.message.as_str()).collect();
    assert_eq!(
        messages,
        vec![
            "unknown variable 'poz' — not part of the script API",
            "unknown variable 'hti' — not part of the script API",
        ]
    );
    assert_eq!(ws[0].line, Some(2));
    assert_eq!(ws[1].line, Some(3));
    assert!(script_warnings("let = oops").is_empty());
    assert!(script_warnings("let v = m::q;").is_empty());
    assert!(script_warnings("pos.x = px + t;").is_empty());
}

#[test]
fn warnings_from_a_parse_in_its_order() {
    let declared = vec!["speed".to_string()];
    let parsed = vec![
        ("poz".to_string(), Some(2), Some(1), false),
        ("q".to_string(), Some(2), Some(9), true),
        ("speed".to_string(), Some(2), Some(12), false),
        ("hti".to_string(), Some(3), Some(4), false),
        ("poz".to_string(), Some(3), Some(10), false),
    ];
    let ws = parsed_warnings(&declared, &parsed);
    assert_eq!(ws.len(), 2);
    assert_eq!(ws[0].message, "unknown variable 'poz' — not part of the script API");
    assert_eq!((ws[0].line, ws[0].column), (Some(2), Some(1)));
    assert_eq!(ws[1].message, "unknown variable 'hti' — not part of the script API");
    assert_eq!((ws[1].line, ws[1].column), (Some(3), Some(4)));
}
