use ananicy_rule_o_matic::infrastructure::rule_repository::RuleRepository;

fn repository_with(base: &str, files: &[(&str, &str)]) -> RuleRepository {
    let mut repository = RuleRepository::new(vec![base.to_string()]);
    for (name, content) in files {
        let path = format!("{}/{}", base, name);
        assert!(repository.add_file(0, path, Some(content.to_string())));
    }
    repository
}

#[test]
fn test_load_rules_simple() {
    let content = r#"{"name": "test_process", "type": "Game"}"#;
    let rule_repository = repository_with("/tmp/rules", &[("test.rules", content)]);
    let rules = rule_repository.load_all();

    assert_eq!(rules.len(), 1);
    assert_eq!(rules[0].data.name.as_deref(), Some("test_process"));
    assert_eq!(rules[0].data.rule_type.as_deref(), Some("Game"));
    assert_eq!(rules[0].source_file, "/tmp/rules/test.rules");
}

#[test]
fn test_load_rules_multiple_files() {
    let content1 = r#"{"name": "proc1", "nice": -5}"#;
    let content2 = r#"{"name": "proc2", "nice": 10}"#;
    let rule_repository =
        repository_with("/tmp/rules", &[("02_test.rules", content2), ("01_test.rules", content1)]);
    let rules = rule_repository.load_all();

    assert_eq!(rules.len(), 2);
    assert_eq!(rules[0].data.name.as_deref(), Some("proc1"));
    assert_eq!(rules[1].data.name.as_deref(), Some("proc2"));
    assert_eq!(rules[0].data.nice, Some(-5));
    assert_eq!(rules[1].data.nice, Some(10));
}

#[test]
fn test_load_rules_multiple_directories() {
    let mut rule_repository = RuleRepository::new(vec!["/tmp/dir1".to_string(), "/tmp/dir2".to_string()]);
    rule_repository.add_file(1, "/tmp/dir2/test2.rules".to_string(), Some(r#"{"name": "proc2"}"#.to_string()));
    rule_repository.add_file(0, "/tmp/dir1/test1.rules".to_string(), Some(r#"{"name": "proc1"}"#.to_string()));
    let rules = rule_repository.load_all();

    assert_eq!(rules.len(), 2);
    assert_eq!(rules[0].data.name.as_deref(), Some("proc1"));
    assert_eq!(rules[1].data.name.as_deref(), Some("proc2"));
}

#[test]
fn test_ignore_non_rule_files() {
    let rule_repository = repository_with(
        "/tmp/rules",
        &[("test.rules", r#"{"name": "valid"}"#), ("readme.txt", "This is not a rule file")],
    );
    let rules = rule_repository.load_all();

    assert_eq!(rules.len(), 1);
    assert_eq!(rules[0].data.name.as_deref(), Some("valid"));
}

#[test]
fn test_comments_parsing() {
    let content = r#"
# This is a comment
{"name": "proc1"}

# Another comment
# spanning two lines
{"name": "proc2"}
"#;
    let rule_repository = repository_with("/tmp/rules", &[("comments.rules", content)]);
    let rules = rule_repository.load_all();

    assert_eq!(rules.len(), 2);

    assert_eq!(rules[0].data.name.as_deref(), Some("proc1"));
    assert_eq!(rules[0].context_comment.as_deref(), Some("# This is a comment"));

    assert_eq!(rules[1].data.name.as_deref(), Some("proc2"));
    assert_eq!(
        rules[1].context_comment.as_deref(),
        Some(
            "# Another comment
# spanning two lines"
        )
    );
}

#[test]
fn test_block_comments_parsing() {
    let content = r#"
# Common comment
{"name": "proc1"}
{"name": "proc2"}

# Separate comment
{"name": "proc3"}
"#;
    let rule_repository = repository_with("/tmp/rules", &[("block_comments.rules", content)]);
    let rules = rule_repository.load_all();

    assert_eq!(rules.len(), 3);

    assert_eq!(rules[0].data.name.as_deref(), Some("proc1"));
    assert_eq!(rules[0].context_comment.as_deref(), Some("# Common comment"));

    assert_eq!(rules[1].data.name.as_deref(), Some("proc2"));
    assert_eq!(rules[1].context_comment.as_deref(), Some("# Common comment"));

    assert_eq!(rules[2].data.name.as_deref(), Some("proc3"));
    assert_eq!(rules[2].context_comment.as_deref(), Some("# Separate comment"));
}

#[test]
fn test_invalid_json_lines_skipped() {
    let content = r#"
{"name": "valid1"}
{invalid json}
{"name": "valid2"}
not even json
"#;
    let rule_repository = repository_with("/tmp/rules", &[("invalid.rules", content)]);
    let rules = rule_repository.load_all();

    assert_eq!(rules.len(), 2);
    assert_eq!(rules[0].data.name.as_deref(), Some("valid1"));
    assert_eq!(rules[1].data.name.as_deref(), Some("valid2"));
}

#[test]
fn test_non_existent_directory() {
    let non_existent = String::from("/path/to/nowhere/hopefully");
    let rule_repository = RuleRepository::new(vec![non_existent]);
    let rules = rule_repository.load_all();

    assert!(rules.is_empty());
}

#[test]
fn test_empty_directory() {
    let rule_repository = RuleRepository::new(vec!["/tmp/empty".to_string()]);
    let rules = rule_repository.load_all();

    assert!(rules.is_empty());
}
