use ananicy_rule_o_matic::domain::models::AppConfig;
use ananicy_rule_o_matic::domain::RuleRepository as RuleSource;
use ananicy_rule_o_matic::infrastructure::config_repository::ConfigRepository;
use ananicy_rule_o_matic::infrastructure::fs_repo::FsRuleRepository;
use ananicy_rule_o_matic::infrastructure::rule_repository::{
    load_dir, load_file, RuleFile, RuleRepository,
};
use ananicy_rule_o_matic::path::{category, has_rules_extension, join_path, path_key_of};

fn file(path: &str, content: Option<&str>) -> RuleFile {
    RuleFile { path: path.to_string(), content: content.map(|c| c.to_string()) }
}

#[test]
fn category_is_the_name_of_the_parent_directory() {
    assert_eq!(category("/etc/ananicy.d/00-default/games/steam.rules"), "games");
    assert_eq!(category("/etc/ananicy.d/a.rules"), "ananicy.d");
    assert_eq!(category("dir/a.rules"), "dir");
    assert_eq!(category("/a.rules"), "");
    assert_eq!(category("a.rules"), "");
    assert_eq!(category(""), "");
    assert_eq!(category("./a.rules"), "");
    assert_eq!(category("./x/a.rules"), "x");
    assert_eq!(category("x/./a.rules"), "x");
    assert_eq!(category("x//a.rules"), "x");
    assert_eq!(category("x/../a.rules"), "");
    assert_eq!(category("x/y/"), "x");
    for p in ["/etc/ananicy.d/00-default/games/steam.rules", "/a.rules", "a.rules", "./a.rules",
        "x/./a.rules", "x/../a.rules", "x//a.rules", "x/y/", "a/b/..", "/", ".", ".."]
    {
        let std_says = std::path::Path::new(p)
            .parent()
            .and_then(|d| d.file_name())
            .and_then(|n| n.to_str())
            .unwrap_or("");
        assert_eq!(category(p), std_says, "{:?}", p);
    }
}

#[test]
fn rule_files_end_with_the_suffix() {
    for p in ["a.rules", "/x/y/a.rules", "a.b.rules", "..rules", "x.rules/", "/d.rules/."] {
        assert!(has_rules_extension(p), "{:?}", p);
    }
    for p in ["", ".rules", "/x/.rules", "rules", "a.rules.txt", "a.rule", "a.RULES", "a.rules/b",
        "readme.txt", "a.rules ", "/", ".."]
    {
        assert!(!has_rules_extension(p), "{:?}", p);
    }
    for p in ["a.rules", ".rules", "..rules", "x.rules/", "a.rules/b", "/d.rules/.", "a.b.rules", ""] {
        let std_says = std::path::Path::new(p).extension().map_or(false, |e| e == "rules");
        assert_eq!(has_rules_extension(p), std_says, "{:?}", p);
    }
}

#[test]
fn path_key_is_the_pieces_between_separators() {
    let key: Vec<String> = path_key_of("/a/b.rules").into_iter().map(|k| k.into_iter().collect()).collect();
    assert_eq!(key, vec!["", "a", "b.rules"]);
}

#[test]
fn join_path_adds_one_separator_where_needed() {
    assert_eq!(join_path("/home/u", ".config/ananicy.d"), "/home/u/.config/ananicy.d");
    assert_eq!(join_path("/home/u/", "config.toml"), "/home/u/config.toml");
    assert_eq!(join_path("", "config.toml"), "config.toml");
    assert_eq!(join_path("/", "config.toml"), "/config.toml");
    assert_eq!(join_path(".", "x"), "./x");
}

#[test]
fn default_config_names_the_three_directories() {
    let config = AppConfig::default_for_home(Some("/home/alice".to_string()));
    assert_eq!(
        config.rule_paths,
        vec!["/etc/ananicy.d", "/usr/lib/ananicy.d", "/home/alice/.config/ananicy.d"]
    );
    let config = AppConfig::default_for_home(None);
    assert_eq!(config.rule_paths, vec!["/etc/ananicy.d", "/usr/lib/ananicy.d", "./.config/ananicy.d"]);
}

#[test]
fn rule_paths_are_added_once_and_removed_at_their_first_place() {
    let mut config = AppConfig { rule_paths: vec!["/a".to_string(), "/b".to_string()] };
    assert!(config.add_rule_path("/c".to_string()));
    assert!(!config.add_rule_path("/a".to_string()));
    assert_eq!(config.rule_paths, vec!["/a", "/b", "/c"]);
    assert!(config.remove_rule_path(&"/b".to_string()));
    assert!(!config.remove_rule_path(&"/b".to_string()));
    assert_eq!(config.rule_paths, vec!["/a", "/c"]);
    let mut twice = AppConfig { rule_paths: vec!["/x".to_string(), "/y".to_string(), "/x".to_string()] };
    assert!(twice.remove_rule_path(&"/x".to_string()));
    assert_eq!(twice.rule_paths, vec!["/y", "/x"]);
}

#[test]
fn config_file_lies_in_the_chosen_or_the_platform_directory() {
    let platform = Some("/home/u/.config/ananicy-rule-o-matic".to_string());
    assert_eq!(
        ConfigRepository::new().config_path_in(platform.clone()).as_deref(),
        Some("/home/u/.config/ananicy-rule-o-matic/config.toml")
    );
    assert_eq!(ConfigRepository::new().config_path_in(None), None);
    let chosen = ConfigRepository::new_with_base_path("/tmp/t/subdir/another_subdir".to_string());
    assert_eq!(
        chosen.config_path_in(platform).as_deref(),
        Some("/tmp/t/subdir/another_subdir/config.toml")
    );
    assert_eq!(chosen.config_path_in(None).as_deref(), Some("/tmp/t/subdir/another_subdir/config.toml"));
    assert_eq!(chosen.get_config_path().as_deref(), Some("/tmp/t/subdir/another_subdir/config.toml"));
    if let Some(path) = ConfigRepository::new().get_config_path() {
        assert!(path.ends_with("/config.toml"));
        assert!(path.contains("ananicy-rule-o-matic"));
    }
}

#[test]
fn default_config_of_this_machine() {
    let config = AppConfig::default();
    assert_eq!(config.rule_paths.len(), 3);
    assert_eq!(config.rule_paths[0], "/etc/ananicy.d");
    assert_eq!(config.rule_paths[1], "/usr/lib/ananicy.d");
    assert!(config.rule_paths[2].ends_with(".config/ananicy.d"));
    assert!(!config.rule_paths.is_empty());
    assert!(config.rule_paths.contains(&"/etc/ananicy.d".to_string()));
}

#[test]
fn a_file_contributes_only_if_it_is_a_readable_rule_file() {
    assert_eq!(load_file(&file("/r/a.rules", Some("{\"name\":\"a\"}"))).len(), 1);
    assert_eq!(load_file(&file("/r/a.rules", None)).len(), 0);
    assert_eq!(load_file(&file("/r/a.txt", Some("{\"name\":\"a\"}"))).len(), 0);
    assert_eq!(load_file(&file("/r/.rules", Some("{\"name\":\"a\"}"))).len(), 0);
}

#[test]
fn files_of_a_directory_load_in_path_order() {
    let files = vec![
        file("/r/b/z.rules", Some("{\"name\":\"4\"}")),
        file("/r/a-b/x.rules", Some("{\"name\":\"3\"}")),
        file("/r/a/y.rules", Some("{\"name\":\"2\"}\n{\"name\":\"2b\"}")),
        file("/r/a", None),
        file("/r/a/x.rules", Some("{\"name\":\"1\"}")),
        file("/r/a/x.rules.bak", Some("{\"name\":\"no\"}")),
    ];
    let names: Vec<String> = load_dir(&files).into_iter().map(|r| r.data.name.unwrap()).collect();
    assert_eq!(names, vec!["1", "2", "2b", "3", "4"]);
    let mut sorted: Vec<std::path::PathBuf> = files.iter().map(|f| std::path::PathBuf::from(&f.path)).collect();
    sorted.sort();
    assert_eq!(sorted[1], std::path::PathBuf::from("/r/a/x.rules"));
    assert_eq!(sorted[4], std::path::PathBuf::from("/r/a-b/x.rules"));
}

#[test]
fn files_are_kept_with_the_directory_they_were_found_under() {
    let mut repository = RuleRepository::new(vec!["/low".to_string(), "/high".to_string()]);
    assert_eq!(repository.base_paths(), &vec!["/low".to_string(), "/high".to_string()]);
    assert!(repository.add_file(1, "/high/a.rules".to_string(), Some("{\"name\":\"h\"}".to_string())));
    assert!(repository.add_file(0, "/low/z.rules".to_string(), Some("{\"name\":\"l\"}".to_string())));
    assert!(!repository.add_file(2, "/else/a.rules".to_string(), Some("{\"name\":\"e\"}".to_string())));
    assert_eq!(repository.load_rules_from_dir(0).len(), 1);
    assert_eq!(repository.load_rules_from_dir(1)[0].data.name.as_deref(), Some("h"));
    assert!(repository.load_rules_from_dir(2).is_empty());
    let names: Vec<String> = repository.load_all().into_iter().map(|r| r.data.name.unwrap()).collect();
    assert_eq!(names, vec!["l", "h"]);
}

#[test]
fn loading_twice_gives_the_same_rules() {
    let mut repository = RuleRepository::new(vec!["/r".to_string()]);
    repository.add_file(0, "/r/b.rules".to_string(), Some("# c\n{\"name\":\"b\",\"nice\":1}".to_string()));
    repository.add_file(0, "/r/a.rules".to_string(), Some("{\"name\":\"a\"}\n{bad}".to_string()));
    let first = format!("{:?}", repository.load_all());
    let second = format!("{:?}", repository.load_all());
    assert_eq!(first, second);
    assert!(first.contains("\"a\"") && first.contains("\"b\""));
}

#[test]
fn the_source_loads_in_path_order_however_the_files_were_found() {
    let second = ("/d/b.rules", "{\"name\":\"second\"}");
    let first = ("/d/a.rules", "{\"name\":\"first\"}");
    for found in [[second, first], [first, second]] {
        let mut repository = FsRuleRepository::new(vec!["/d".to_string()]);
        for (path, content) in found {
            assert!(repository.add_file(0, path.to_string(), Some(content.to_string())));
        }
        let rules = repository.load_all();
        let names: Vec<Option<&str>> = rules.iter().map(|r| r.data.name.as_deref()).collect();
        assert_eq!(names, vec![Some("first"), Some("second")]);
        assert!(rules.iter().all(|r| !r.shadowed));
    }
}

#[test]
fn the_source_keeps_the_order_of_the_directories() {
    let mut repository = FsRuleRepository::new(vec!["/z".to_string(), "/missing".to_string(), "/a".to_string()]);
    assert!(repository.add_file(2, "/a/x.rules".to_string(), Some("{\"name\":\"high\"}".to_string())));
    assert!(repository.add_file(0, "/z/x.rules".to_string(), Some("{\"name\":\"low\"}".to_string())));
    assert!(!repository.add_file(5, "/r/c.rules".to_string(), None));
    let names: Vec<String> = repository.load_all().into_iter().map(|r| r.data.name.unwrap()).collect();
    assert_eq!(names, vec!["low", "high"]);
    assert!(FsRuleRepository::new(vec!["/path/to/nowhere".to_string()]).load_all().is_empty());
}
