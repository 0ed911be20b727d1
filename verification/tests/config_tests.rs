use todo::config::{config_from_str, config_to_toml, parse_config, Config, RawConfig};

fn cfg(filename: &str, extension: &str, editor: &str, flags: &[&str]) -> Config {
    Config {
        filename: filename.to_string(),
        extension: extension.to_string(),
        editor: editor.to_string(),
        flags: flags.iter().map(|s| s.to_string()).collect(),
    }
}

#[test]
fn default_config_values() {
    let c = Config::default();
    assert_eq!(c.filename, "todo");
    assert_eq!(c.extension, ".md");
    assert_eq!(c.editor, "$EDITOR");
    assert!(c.flags.is_empty());
}

#[test]
fn from_raw_fills_missing_keys() {
    let raw = RawConfig { filename: None, extension: None, editor: None, flags: None };
    let c = Config::from_raw(raw);
    assert_eq!(c.filename, "todo");
    assert_eq!(c.extension, ".md");
    assert_eq!(c.editor, "$EDITOR");
    assert!(c.flags.is_empty());
    let raw = RawConfig {
        filename: Some("notes".to_string()),
        extension: None,
        editor: Some("vi".to_string()),
        flags: None,
    };
    let c = Config::from_raw(raw);
    assert_eq!(c.filename, "notes");
    assert_eq!(c.extension, ".md");
    assert_eq!(c.editor, "vi");
}

#[test]
fn same_as_compares_every_field() {
    let a = cfg("todo", ".md", "vi", &["-a"]);
    let b = cfg("todo", ".md", "vi", &["-a"]);
    assert!(a.same_as(&b));
    assert!(!a.same_as(&cfg("todo", ".md", "vi", &["-b"])));
    assert!(!a.same_as(&cfg("todo", ".md", "vi", &[])));
    assert!(!a.same_as(&cfg("todo", ".md", "emacs", &["-a"])));
}

#[test]
fn names_changed_looks_at_name_and_extension() {
    let a = cfg("todo", ".md", "vi", &[]);
    let b = cfg("todo", ".md", "emacs", &["-nw"]);
    assert!(!Config::names_changed(&a, &b));
    let c = cfg("notes", ".md", "vi", &[]);
    assert!(Config::names_changed(&a, &c));
    let d = cfg("todo", ".txt", "vi", &[]);
    assert!(Config::names_changed(&a, &d));
}

#[test]
fn emit_exact_text() {
    let c = cfg("todo", ".md", "$EDITOR", &[]);
    let s = config_to_toml(&c);
    assert_eq!(
        s,
        "filename = \"todo\"\nextension = \".md\"\neditor = \"$EDITOR\"\nflags = []"
    );
}

#[test]
fn emit_escapes_quotes_and_backslashes() {
    let c = cfg("a\"b", ".md", "c:\\bin", &["x y", "q\"q"]);
    let s = config_to_toml(&c);
    assert_eq!(
        s,
        "filename = \"a\\\"b\"\nextension = \".md\"\neditor = \"c:\\\\bin\"\nflags = [\"x y\", \"q\\\"q\"]"
    );
}

#[test]
fn parse_reads_what_emit_wrote() {
    let c = cfg("notes", ".txt", "emacs", &["-nw", "--quick"]);
    let s = config_to_toml(&c);
    let back = config_from_str(&s);
    assert_eq!(back.filename, c.filename);
    assert_eq!(back.extension, c.extension);
    assert_eq!(back.editor, c.editor);
    assert_eq!(back.flags, c.flags);
}

#[test]
fn round_trip_with_escapes() {
    let c = cfg("we\"ird", ".m\\d", "$EDITOR", &["a\"b\\c"]);
    let s = config_to_toml(&c);
    let back = config_from_str(&s);
    assert_eq!(back.filename, c.filename);
    assert_eq!(back.extension, c.extension);
    assert_eq!(back.editor, c.editor);
    assert_eq!(back.flags, c.flags);
}

#[test]
fn emit_escapes_newlines() {
    let c = cfg("todo", ".md", "a\nb", &["x\ry"]);
    let s = config_to_toml(&c);
    assert_eq!(
        s,
        "filename = \"todo\"\nextension = \".md\"\neditor = \"a\\nb\"\nflags = [\"x\\ry\"]"
    );
}

#[test]
fn round_trip_with_newlines() {
    let c = cfg("to\ndo", ".m\rd", "line1\nline2", &["a\nb", "c\td"]);
    let s = config_to_toml(&c);
    let back = config_from_str(&s);
    assert_eq!(back.filename, c.filename);
    assert_eq!(back.extension, c.extension);
    assert_eq!(back.editor, c.editor);
    assert_eq!(back.flags, c.flags);
}

#[test]
fn parse_accepts_flexible_spacing() {
    let rc = parse_config("filename=\"x\"").expect("no spaces around the equals sign");
    assert_eq!(rc.filename.as_deref(), Some("x"));
    let rc = parse_config("editor   =\t\"vi\"").expect("extra blanks around the equals sign");
    assert_eq!(rc.editor.as_deref(), Some("vi"));
    let rc = parse_config("  flags = []  ").expect("a trimmed entry line");
    assert_eq!(rc.flags, Some(Vec::new()));
}

#[test]
fn parse_tolerates_blank_lines_and_comments() {
    let s = "# the config\n\nfilename = \"x\"\n\n# done\neditor = \"vi\"";
    let rc = parse_config(s).expect("well-formed");
    assert_eq!(rc.filename.as_deref(), Some("x"));
    assert_eq!(rc.extension, None);
    assert_eq!(rc.editor.as_deref(), Some("vi"));
    assert_eq!(rc.flags, None);
}

#[test]
fn parse_rejects_malformed_text() {
    assert!(parse_config("filename = unquoted").is_none());
    assert!(parse_config("filename = \"open").is_none());
    assert!(parse_config("filename = \"a\"\nfilename = \"b\"").is_none());
    assert!(parse_config("unknown = \"v\"").is_none());
    assert!(parse_config("filename = \"bad\\escape\"").is_none());
    assert!(parse_config("flags = [\"a\" \"b\"]").is_none());
}

#[test]
fn malformed_text_falls_back_to_defaults() {
    let c = config_from_str("not a config at all");
    assert_eq!(c.filename, "todo");
    assert_eq!(c.extension, ".md");
    assert_eq!(c.editor, "$EDITOR");
    assert!(c.flags.is_empty());
}

#[test]
fn parse_empty_array() {
    let rc = parse_config("flags = []").expect("well-formed");
    assert_eq!(rc.flags, Some(Vec::new()));
}

#[test]
fn emitted_text_is_valid_toml() {
    let c = cfg("no\"tes", ".txt", "path\\to\\editor", &["-a", "b c\nd"]);
    let s = config_to_toml(&c);
    let v: toml::Value = toml::from_str(&s).expect("the emitted text parses as TOML");
    assert_eq!(v["filename"].as_str(), Some("no\"tes"));
    assert_eq!(v["extension"].as_str(), Some(".txt"));
    assert_eq!(v["editor"].as_str(), Some("path\\to\\editor"));
    let flags: Vec<&str> =
        v["flags"].as_array().unwrap().iter().map(|x| x.as_str().unwrap()).collect();
    assert_eq!(flags, vec!["-a", "b c\nd"]);
}

#[test]
fn hand_written_toml_subset_parses() {
    let s = "filename = \"todo\"\nextension = \".md\"\neditor = \"$EDITOR\"\nflags = [\"-n\"]";
    let c = config_from_str(s);
    assert_eq!(c.filename, "todo");
    assert_eq!(c.flags, vec!["-n".to_string()]);
}
