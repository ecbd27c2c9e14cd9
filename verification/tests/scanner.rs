use envsentinel::env::scanner::select_candidates;
use envsentinel::fs::ignore::should_ignore;
use envsentinel::fs::paths::{file_name, is_absolute, join_path, normalize, path_parts, paths_equal};

fn strings(items: &[&str]) -> Vec<String> {
    items.iter().map(|s| s.to_string()).collect()
}

#[test]
fn discovers_common_env_files_and_skips_ignored_directories() {
    let root = "/tmp/envsentinel-scanner";
    // the files found under the root, relative to it
    let entries = strings(&[
        ".env",
        ".env.example",
        "config/.env.local",
        "node_modules/.env",
    ]);

    let candidates = select_candidates(root, &entries, &strings(&["node_modules", "target", "dist"]));

    assert!(candidates.contains(&format!("{}/.env", root)));
    assert!(candidates.contains(&format!("{}/.env.example", root)));
    assert!(candidates.contains(&format!("{}/config/.env.local", root)));
    assert!(!candidates.contains(&format!("{}/node_modules/.env", root)));
}

#[test]
fn only_dot_env_and_its_variants_are_candidates() {
    let entries = strings(&["bad.env", ".env", ".envrc", ".env.", ".env.x", "a/.env/b", "dist/.env.local", "x/../.env"]);
    let candidates = select_candidates("/r", &entries, &strings(&["build/dist"]));
    assert_eq!(candidates, strings(&["/r/.env", "/r/.env.x", "/r/x/../.env"]));
}

#[test]
fn candidates_come_in_text_order_whatever_order_the_walk_gave() {
    let entries = strings(&["z/.env", ".env.local", "a/.env", ".env", "B/.env"]);
    let candidates = select_candidates("/r", &entries, &Vec::new());
    assert_eq!(candidates, strings(&["/r/.env", "/r/.env.local", "/r/B/.env", "/r/a/.env", "/r/z/.env"]));
    let mut reversed = entries.clone();
    reversed.reverse();
    assert_eq!(select_candidates("/r", &reversed, &Vec::new()), candidates);
}

#[test]
fn ignore_matches_any_component_against_the_file_name_of_ignored_directories() {
    let ignore = strings(&["node_modules", "/abs/target/", "..", "."]);
    assert!(should_ignore("a/node_modules/b/.env", &ignore));
    assert!(should_ignore("target", &ignore));
    assert!(!should_ignore("a/targets/.env", &ignore));
    assert!(!should_ignore("../x/.env", &ignore));
    assert!(!should_ignore("./.env", &ignore));
    assert!(!should_ignore("anything", &Vec::new()));
}

#[test]
fn path_helpers_follow_unix_path_rules() {
    assert_eq!(join_path("/root", ".env"), "/root/.env");
    assert_eq!(join_path("/root/", ".env"), "/root/.env");
    assert_eq!(join_path("", ".env"), ".env");
    assert_eq!(join_path("/root", "/abs/.env"), "/abs/.env");
    assert_eq!(join_path("/root", ""), "/root/");
    assert!(is_absolute("/x"));
    assert!(!is_absolute("x/y"));
    assert_eq!(file_name("a/b/"), Some("b".to_string()));
    assert_eq!(file_name("a/."), Some("a".to_string()));
    assert_eq!(file_name("a/.."), None);
    assert_eq!(file_name("/"), None);
    assert_eq!(file_name(""), None);
    assert_eq!(file_name(".env.example"), Some(".env.example".to_string()));
    assert_eq!(path_parts("/a//./b/../c"), strings(&["a", "b", "..", "c"]));
    assert_eq!(normalize("a/b"), "a/b");
}

#[test]
fn paths_compare_by_their_components() {
    assert!(paths_equal("/r/./.env.example", "/r/.env.example"));
    assert!(paths_equal("/r//a/", "/r/a"));
    assert!(!paths_equal("/r/a", "r/a"));
    assert!(!paths_equal("./a", "a"));
    assert!(paths_equal(".//a", "./a"));
    assert!(!paths_equal("a/../b", "b"));
    assert!(!paths_equal("/r/a", "/r/b"));
}
