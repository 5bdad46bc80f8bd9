use unlocker::config::RunConfigSer;
use unlocker::errs::LoadError;
use unlocker::errs::ParseError;
use unlocker::load::config_file_path;
use unlocker::load::parse_profile;

fn strings(items: &[&str]) -> Vec<String> {
    items.iter().map(|s| s.to_string()).collect()
}

#[test]
fn parse_work_profile() {
    let text = "before = [\"echo\", \"unlocking\"]\nafter = [\"echo\", \"locking\"]\n";
    let cfg = parse_profile("work".to_string(), text).unwrap();
    assert_eq!(cfg.name, "work");
    assert_eq!(cfg.before, strings(&["echo", "unlocking"]));
    assert_eq!(cfg.after, strings(&["echo", "locking"]));
}

#[test]
fn parse_empty_lists() {
    let text = "before = []\nafter = []\n";
    let cfg = parse_profile("vpn".to_string(), text).unwrap();
    assert_eq!(cfg.name, "vpn");
    assert!(cfg.before.is_empty());
    assert!(cfg.after.is_empty());
}

#[test]
fn parse_keeps_file_order_of_arguments() {
    let text = "before = [\"z\", \"a\", \"m\"]\nafter = [\"one\"]\n";
    let cfg = parse_profile("p".to_string(), text).unwrap();
    assert_eq!(cfg.before, strings(&["z", "a", "m"]));
    assert_eq!(cfg.after, strings(&["one"]));
}

#[test]
fn parse_field_order_is_irrelevant() {
    let text = "after = [\"lock\"]\nbefore = [\"unlock\"]\n";
    let cfg = parse_profile("p".to_string(), text).unwrap();
    assert_eq!(cfg.before, strings(&["unlock"]));
    assert_eq!(cfg.after, strings(&["lock"]));
}

#[test]
fn parse_accepts_toml_comments_and_multiline_arrays() {
    let text = "# setup\nbefore = [\n  \"echo\",\n  \"hi\",\n]\nafter = [] # nothing\n";
    let cfg = parse_profile("p".to_string(), text).unwrap();
    assert_eq!(cfg.before, strings(&["echo", "hi"]));
    assert!(cfg.after.is_empty());
}

#[test]
fn parse_rejects_unknown_field() {
    let text = "before = []\nafter = []\nextra = 1\n";
    let err = parse_profile("p".to_string(), text).unwrap_err();
    match err {
        ParseError::UnknownField(f) => assert_eq!(f, "extra"),
        _ => panic!("expected an unknown-field rejection"),
    }
}

#[test]
fn parse_rejects_misspelled_field() {
    let text = "befor = [\"echo\"]\nafter = []\n";
    let err = parse_profile("p".to_string(), text).unwrap_err();
    match err {
        ParseError::UnknownField(f) => assert_eq!(f, "befor"),
        _ => panic!("expected an unknown-field rejection"),
    }
}

#[test]
fn parse_rejects_missing_before() {
    let text = "after = []\n";
    let err = parse_profile("p".to_string(), text).unwrap_err();
    match err {
        ParseError::MissingField(f) => assert_eq!(f, "before"),
        _ => panic!("expected a missing-field rejection"),
    }
}

#[test]
fn parse_rejects_missing_after() {
    let text = "before = []\n";
    let err = parse_profile("p".to_string(), text).unwrap_err();
    match err {
        ParseError::MissingField(f) => assert_eq!(f, "after"),
        _ => panic!("expected a missing-field rejection"),
    }
}

#[test]
fn parse_rejects_empty_document() {
    let err = parse_profile("p".to_string(), "").unwrap_err();
    assert!(matches!(err, ParseError::MissingField(_)));
}

#[test]
fn parse_rejects_non_array_field() {
    let text = "before = \"echo\"\nafter = []\n";
    let err = parse_profile("p".to_string(), text).unwrap_err();
    match err {
        ParseError::NotStringArray(f) => assert_eq!(f, "before"),
        _ => panic!("expected a not-an-array rejection"),
    }
}

#[test]
fn parse_rejects_non_string_element() {
    let text = "before = [\"echo\"]\nafter = [\"echo\", 3]\n";
    let err = parse_profile("p".to_string(), text).unwrap_err();
    match err {
        ParseError::NotStringArray(f) => assert_eq!(f, "after"),
        _ => panic!("expected a not-an-array rejection"),
    }
}

#[test]
fn parse_rejects_malformed_text() {
    let err = parse_profile("p".to_string(), "before = [").unwrap_err();
    assert!(matches!(err, ParseError::Syntax(_)));
}

#[test]
fn fill_stamps_the_callers_name() {
    let ser = RunConfigSer { before: strings(&["a"]), after: strings(&["b"]) };
    let cfg = ser.fill("My Profile".to_string());
    assert_eq!(cfg.name, "My Profile");
    assert_eq!(cfg.before, strings(&["a"]));
    assert_eq!(cfg.after, strings(&["b"]));
}

#[test]
fn config_path_lies_under_the_unlocker_directory() {
    match config_file_path("work") {
        Ok(p) => assert!(p.ends_with("/unlocker/work.toml")),
        Err(e) => assert!(matches!(e, LoadError::NoConfigDir)),
    }
}

#[test]
fn rejection_messages_name_the_field() {
    let unknown = ParseError::UnknownField("extra".to_string());
    assert_eq!(unknown.message(), "unrecognized field `extra`");
    let missing = ParseError::MissingField("after".to_string());
    assert_eq!(missing.message(), "missing field `after`");
    let bad = ParseError::NotStringArray("before".to_string());
    assert_eq!(bad.message(), "field `before` is not an array of strings");
    let syntax = ParseError::Syntax("oops".to_string());
    assert_eq!(syntax.message(), "invalid TOML: oops");
}

#[test]
fn load_error_messages_describe_the_failure() {
    assert_eq!(
        LoadError::NoConfigDir.message(),
        "no user configuration directory is available"
    );
    assert_eq!(
        LoadError::Io("denied".to_string()).message(),
        "cannot read the profile's file: denied"
    );
    assert_eq!(
        LoadError::Parse(ParseError::Syntax("bad".to_string())).message(),
        "invalid TOML: bad"
    );
}
