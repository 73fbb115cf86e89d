use frame_engine::editor::{
    new_project_name, push_log_line, remember_project, MAX_LOG_LINES, MAX_RECENT_PROJECTS,
};

#[test]
fn opened_project_moves_to_front() {
    let mut roots = vec!["/a".to_string(), "/b".to_string(), "/c".to_string()];
    remember_project(&mut roots, "/b".to_string());
    assert_eq!(roots, vec!["/b".to_string(), "/a".to_string(), "/c".to_string()]);
    remember_project(&mut roots, "/d".to_string());
    assert_eq!(roots[0], "/d");
    assert_eq!(roots.len(), 4);
}

#[test]
fn recent_list_is_capped() {
    let mut roots: Vec<String> = (0..MAX_RECENT_PROJECTS).map(|i| format!("/p{i}")).collect();
    remember_project(&mut roots, "/new".to_string());
    assert_eq!(roots.len(), MAX_RECENT_PROJECTS);
    assert_eq!(roots[0], "/new");
    assert_eq!(roots[1], "/p0");
    assert!(!roots.contains(&format!("/p{}", MAX_RECENT_PROJECTS - 1)));
}

#[test]
fn log_drops_oldest_line() {
    let mut lines: Vec<String> = Vec::new();
    for i in 0..MAX_LOG_LINES + 2 {
        push_log_line(&mut lines, format!("line {i}"));
    }
    assert_eq!(lines.len(), MAX_LOG_LINES);
    assert_eq!(lines[0], "line 2");
    assert_eq!(lines[MAX_LOG_LINES - 1], format!("line {}", MAX_LOG_LINES + 1));
}

use frame_engine::editor::{parse_recent_projects, pick_scene, recent_projects_text};

#[test]
fn recent_projects_file_round_trip() {
    let roots = vec!["/home/a/game".to_string(), "/srv/b".to_string()];
    let text = recent_projects_text(&roots);
    assert_eq!(text, "/home/a/game\n/srv/b");
    assert_eq!(parse_recent_projects(&text), roots);
    assert_eq!(recent_projects_text(&Vec::new()), "");
}

#[test]
fn recent_projects_file_is_trimmed_and_skips_blanks() {
    let parsed = parse_recent_projects("  /a  \r\n\n\t\n/b\n");
    assert_eq!(parsed, vec!["/a".to_string(), "/b".to_string()]);
    assert!(parse_recent_projects("").is_empty());
}

#[test]
fn scene_is_first_ron_file_other_than_manifest() {
    let names: Vec<String> =
        ["project.ron", "zeta.ron", "notes.txt", "alpha.ron", ".ron", "alpha.ron.bak"]
            .iter()
            .map(|s| s.to_string())
            .collect();
    assert_eq!(pick_scene(&names), Some(3));
    let none: Vec<String> = vec!["project.ron".to_string(), "readme".to_string()];
    assert_eq!(pick_scene(&none), None);
}

#[test]
fn new_project_name_checks() {
    assert_eq!(
        new_project_name("  Forest Level "),
        Ok(("Forest Level".to_string(), "Forest Level.ron".to_string()))
    );
    assert_eq!(new_project_name("   "), Err("Type a project name first".to_string()));
    assert_eq!(new_project_name("a/b"), Err("Project name can't contain slashes".to_string()));
    assert_eq!(new_project_name("a\\b"), Err("Project name can't contain slashes".to_string()));
}

#[test]
fn reopened_project_matches_as_a_path() {
    let mut roots = vec!["/p/".to_string(), "/a//b".to_string(), "/c".to_string()];
    remember_project(&mut roots, "/p".to_string());
    assert_eq!(roots, vec!["/p".to_string(), "/a//b".to_string(), "/c".to_string()]);
    remember_project(&mut roots, "/a/b".to_string());
    assert_eq!(roots, vec!["/a/b".to_string(), "/p".to_string(), "/c".to_string()]);
}
