use envsync::overrides::parse_override;
use envsync::overrides::Overrides;
use envsync::paths::sample_file_path;
use envsync::sample::create_sample_content;

#[test]
fn test_create_sample_content() {
    let env_file = "DB_HOST=localhost\nDB_USER=root\nDB_PASSWORD=secret\nDB_NAME=database";

    let mut examples = Overrides::new();
    examples.insert("DB_HOST".to_string(), "localhost".to_string());

    let sample_content = create_sample_content(env_file.to_string(), &examples);

    assert_eq!(
        sample_content,
        "DB_HOST=localhost\nDB_USER=<DB_USER>\nDB_PASSWORD=<DB_PASSWORD>\nDB_NAME=<DB_NAME>\n"
    );
}

#[test]
fn test_placeholders_without_overrides() {
    let examples = Overrides::new();
    let out = create_sample_content("FOO=1\nBAR=2\nBAZ=3\n".to_string(), &examples);
    assert_eq!(out, "FOO=<FOO>\nBAR=<BAR>\nBAZ=<BAZ>\n");
}

#[test]
fn test_override_replaces_placeholder() {
    let mut examples = Overrides::new();
    examples.insert("BAR".to_string(), "123".to_string());
    let out = create_sample_content("FOO=1\nBAR=2\nBAZ=3\n".to_string(), &examples);
    assert_eq!(out, "FOO=<FOO>\nBAR=123\nBAZ=<BAZ>\n");
}

#[test]
fn test_line_count_preserved() {
    let input = "# comment\n\nA=1\n   \t\nB=2";
    let examples = Overrides::new();
    let out = create_sample_content(input.to_string(), &examples);
    assert_eq!(out.lines().count(), input.lines().count());
}

#[test]
fn test_comments_and_blanks_kept() {
    let examples = Overrides::new();
    let out = create_sample_content("# a comment\n   \nA=1".to_string(), &examples);
    assert_eq!(out, "# a comment\n   \nA=<A>\n");
}

#[test]
fn test_line_without_equals_becomes_its_own_name() {
    let examples = Overrides::new();
    let out = create_sample_content("FOO".to_string(), &examples);
    assert_eq!(out, "FOO=<FOO>\n");
}

#[test]
fn test_name_stops_at_first_equals() {
    let examples = Overrides::new();
    let out = create_sample_content("A=B=C\n".to_string(), &examples);
    assert_eq!(out, "A=<A>\n");
}

#[test]
fn test_crlf_separators() {
    let examples = Overrides::new();
    let out = create_sample_content("A=1\r\nB=2".to_string(), &examples);
    assert_eq!(out, "A=<A>\nB=<B>\n");
}

#[test]
fn test_empty_input_gives_empty_output() {
    let examples = Overrides::new();
    let out = create_sample_content(String::new(), &examples);
    assert_eq!(out, "");
}

#[test]
fn test_generation_is_deterministic() {
    let mut examples = Overrides::new();
    examples.insert("B".to_string(), "x".to_string());
    let input = "# c\nA=1\nB=2";
    let first = create_sample_content(input.to_string(), &examples);
    let second = create_sample_content(input.to_string(), &examples);
    assert_eq!(first, second);
}

#[test]
fn test_override_last_write_wins() {
    let mut examples = Overrides::new();
    examples.insert("A".to_string(), "first".to_string());
    examples.insert("A".to_string(), "second".to_string());
    let out = create_sample_content("A=1".to_string(), &examples);
    assert_eq!(out, "A=second\n");
}

#[test]
fn test_get_missing_name() {
    let mut examples = Overrides::new();
    examples.insert("A".to_string(), "1".to_string());
    assert!(examples.get(&"B".to_string()).is_none());
    assert_eq!(examples.get(&"A".to_string()), Some(&"1".to_string()));
}

#[test]
fn test_sample_file_path_default() {
    assert_eq!(sample_file_path(".env"), Some(".env.sample".to_string()));
}

#[test]
fn test_sample_file_path_in_directory() {
    assert_eq!(
        sample_file_path("config/.env"),
        Some("config/.env.sample".to_string())
    );
}

#[test]
fn test_sample_file_path_without_filename() {
    assert_eq!(sample_file_path("config/"), None);
    assert_eq!(sample_file_path(""), None);
    assert_eq!(sample_file_path(".."), None);
    assert_eq!(sample_file_path("."), None);
}

#[test]
fn test_parse_override() {
    assert_eq!(
        parse_override("BAR=123"),
        Some(("BAR".to_string(), "123".to_string()))
    );
}

#[test]
fn test_parse_override_without_equals() {
    assert_eq!(parse_override("BAR"), None);
}

#[test]
fn test_parse_override_keeps_first_segment_after_equals() {
    assert_eq!(
        parse_override("A=b=c"),
        Some(("A".to_string(), "b".to_string()))
    );
}
