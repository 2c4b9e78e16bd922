use confget::descriptor::{parse_config, RawDescriptor};
use confget::errors::ConfigError;
use confget::format::{output_dotenv, output_json, render};
use confget::resolve::{command_outcome, Resolver, Step};

fn value_raw(value: &str) -> RawDescriptor {
    RawDescriptor {
        source: String::from("value"),
        program: None,
        args: None,
        value: Some(String::from(value)),
    }
}

fn cmd_raw(program: &str, args: &[&str]) -> RawDescriptor {
    RawDescriptor {
        source: String::from("cmd"),
        program: Some(String::from(program)),
        args: Some(args.iter().map(|a| String::from(*a)).collect()),
        value: None,
    }
}

/// Resolves every key against literal-only descriptors, checking that no
/// step ever asks for a command.
fn resolve_literals(entries: Vec<(String, RawDescriptor)>, key_list: &str) -> Result<Vec<(String, String)>, ConfigError> {
    let map = parse_config(entries).expect("descriptors should parse");
    let mut r = Resolver::new(map, key_list);
    loop {
        match r.step() {
            Step::Finished => return Ok(r.into_resolved()),
            Step::Resolved => {}
            Step::RunCommand { .. } => panic!("literal-only mapping asked for a command"),
            Step::Failed { error } => return Err(error),
        }
    }
}

#[test]
fn literal_only_never_asks_for_commands() {
    let entries = vec![
        (String::from("a"), value_raw("1")),
        (String::from("b"), value_raw("2")),
        (String::from("c"), value_raw("3")),
    ];
    let resolved = resolve_literals(entries, "c,a,b").unwrap();
    assert_eq!(
        resolved,
        vec![
            (String::from("c"), String::from("3")),
            (String::from("a"), String::from("1")),
            (String::from("b"), String::from("2")),
        ]
    );
}

#[test]
fn missing_key_fails_with_key_not_found() {
    let entries = vec![(String::from("a"), value_raw("1"))];
    let err = resolve_literals(entries, "a,b").unwrap_err();
    match &err {
        ConfigError::KeyNotFound { key } => assert_eq!(key, "b"),
        _ => panic!("expected KeyNotFound"),
    }
    assert_eq!(err.message(), "Key 'b' not found in source config");
}

#[test]
fn empty_key_list_looks_up_the_empty_key() {
    let entries = vec![(String::from("a"), value_raw("1"))];
    let err = resolve_literals(entries, "").unwrap_err();
    match &err {
        ConfigError::KeyNotFound { key } => assert_eq!(key, ""),
        _ => panic!("expected KeyNotFound"),
    }
    assert_eq!(err.message(), "Key '' not found in source config");
}

#[test]
fn empty_key_can_be_defined() {
    let entries = vec![(String::from(""), value_raw("blank"))];
    let resolved = resolve_literals(entries, "").unwrap();
    assert_eq!(output_dotenv(&resolved), "=blank\n");
}

#[test]
fn duplicate_requested_key_resolves_once() {
    let entries = vec![(String::from("a"), value_raw("1"))];
    let resolved = resolve_literals(entries, "a,a").unwrap();
    assert_eq!(resolved, vec![(String::from("a"), String::from("1"))]);
}

#[test]
fn greeting_scenario_renders_dotenv() {
    let entries = vec![(String::from("greeting"), value_raw("hi"))];
    let resolved = resolve_literals(entries, "greeting").unwrap();
    let out = render(&resolved, &String::from("dotenv"));
    assert_eq!(out, "greeting=hi\n");
}

#[test]
fn command_scenario_renders_json_with_trailing_newline() {
    let entries = vec![(String::from("now"), cmd_raw("echo", &["hello"]))];
    let map = parse_config(entries).expect("descriptors should parse");
    let mut r = Resolver::new(map, "now");
    match r.step() {
        Step::RunCommand { program, args } => {
            assert_eq!(program, "echo");
            assert_eq!(args, vec![String::from("hello")]);
        }
        _ => panic!("expected a command to run"),
    }
    assert!(r.is_pending());
    let fed = r.feed(b"hello\n".to_vec(), Vec::new());
    assert!(fed.is_none());
    match r.step() {
        Step::Finished => {}
        _ => panic!("expected the run to finish"),
    }
    let resolved = r.into_resolved();
    let out = render(&resolved, &String::from("json"));
    assert_eq!(out, "{\"now\":\"hello\\n\"}");
}

#[test]
fn run_fails_before_touching_keys_after_a_missing_one() {
    let entries = vec![(String::from("a"), value_raw("1"))];
    let err = resolve_literals(entries, "a,b").unwrap_err();
    match err {
        ConfigError::KeyNotFound { key } => assert_eq!(key, "b"),
        _ => panic!("expected KeyNotFound"),
    }
}

#[test]
fn stderr_bytes_fail_resolution_even_with_stdout() {
    let out = command_outcome(b"fine\n".to_vec(), b"oops".to_vec());
    match out {
        Err(ConfigError::Command { ref stderr }) => assert_eq!(stderr, "oops"),
        _ => panic!("expected CommandError"),
    }
    let err = command_outcome(b"fine\n".to_vec(), b"oops".to_vec()).unwrap_err();
    assert_eq!(err.message(), "Error running command: oops");
}

#[test]
fn quiet_command_output_is_kept_verbatim() {
    let out = command_outcome(b"two words\n".to_vec(), Vec::new()).unwrap();
    assert_eq!(out, "two words\n");
}

#[test]
fn invalid_utf8_output_is_an_encoding_error() {
    let out = command_outcome(vec![0xff, 0xfe], Vec::new());
    match out {
        Err(ConfigError::Encoding) => {}
        _ => panic!("expected an encoding error"),
    }
}

#[test]
fn feed_reports_the_command_error() {
    let entries = vec![(String::from("k"), cmd_raw("prog", &[]))];
    let map = parse_config(entries).expect("descriptors should parse");
    let mut r = Resolver::new(map, "k");
    match r.step() {
        Step::RunCommand { program, args } => {
            assert_eq!(program, "prog");
            assert!(args.is_empty());
        }
        _ => panic!("expected a command to run"),
    }
    let fed = r.feed(b"value\n".to_vec(), b"warning: noise\n".to_vec());
    match fed {
        Some(ConfigError::Command { ref stderr }) => assert_eq!(stderr, "warning: noise\n"),
        _ => panic!("expected CommandError"),
    }
}

#[test]
fn invalid_utf8_on_stderr_is_replaced_in_the_message() {
    let err = command_outcome(Vec::new(), vec![b'b', b'a', b'd', b' ', 0xff]).unwrap_err();
    match &err {
        ConfigError::Command { stderr } => assert_eq!(stderr, "bad \u{fffd}"),
        _ => panic!("expected CommandError"),
    }
    assert_eq!(err.message(), "Error running command: bad \u{fffd}");
}

#[test]
fn later_descriptor_for_the_same_key_wins() {
    let entries = vec![
        (String::from("k"), value_raw("first")),
        (String::from("k"), value_raw("second")),
    ];
    let resolved = resolve_literals(entries, "k").unwrap();
    assert_eq!(resolved, vec![(String::from("k"), String::from("second"))]);
}

#[test]
fn unknown_source_tag_is_a_parse_error() {
    let raw = RawDescriptor {
        source: String::from("file"),
        program: None,
        args: None,
        value: Some(String::from("x")),
    };
    let err = parse_config(vec![(String::from("k"), raw)]).err().expect("should fail");
    match &err {
        ConfigError::Parse { message } => {
            assert_eq!(message, "Invalid descriptor for key 'k'");
        }
        _ => panic!("expected a parse error"),
    }
    assert_eq!(err.message(), "Invalid descriptor for key 'k'");
}

#[test]
fn cmd_without_program_is_a_parse_error() {
    let raw = RawDescriptor {
        source: String::from("cmd"),
        program: None,
        args: Some(vec![String::from("x")]),
        value: None,
    };
    let err = parse_config(vec![(String::from("k"), raw)]).err().expect("should fail");
    match err {
        ConfigError::Parse { message } => {
            assert_eq!(message, "Invalid descriptor for key 'k'");
        }
        _ => panic!("expected a parse error"),
    }
}

#[test]
fn absent_value_defaults_to_empty_string() {
    let raw = RawDescriptor {
        source: String::from("value"),
        program: None,
        args: None,
        value: None,
    };
    let resolved = resolve_literals(vec![(String::from("k"), raw)], "k").unwrap();
    assert_eq!(resolved, vec![(String::from("k"), String::new())]);
}

#[test]
fn absent_args_default_to_no_arguments() {
    let raw = RawDescriptor {
        source: String::from("cmd"),
        program: Some(String::from("prog")),
        args: None,
        value: None,
    };
    let map = parse_config(vec![(String::from("k"), raw)]).unwrap();
    let mut r = Resolver::new(map, "k");
    match r.step() {
        Step::RunCommand { program, args } => {
            assert_eq!(program, "prog");
            assert!(args.is_empty());
        }
        _ => panic!("expected a command to run"),
    }
}

#[test]
fn io_exec_and_encoding_errors_carry_their_messages() {
    let io = ConfigError::Io { message: String::from("No such file or directory (os error 2)") };
    assert_eq!(io.message(), "No such file or directory (os error 2)");
    let exec = ConfigError::Exec { message: String::from("permission denied") };
    assert_eq!(exec.message(), "permission denied");
    assert_eq!(ConfigError::Encoding.message(), "Command output is not valid UTF-8");
}

#[test]
fn json_round_trips_through_a_json_parser() {
    let entries = vec![
        (String::from("plain"), value_raw("hello")),
        (String::from("tricky"), value_raw("a \"quoted\" \\ line\nwith\ttabs")),
        (String::from("empty"), value_raw("")),
    ];
    let resolved = resolve_literals(entries, "plain,tricky,empty").unwrap();
    let out = output_json(&resolved);
    let parsed: serde_json::Value = serde_json::from_str(&out).expect("output should be valid JSON");
    let obj = parsed.as_object().expect("output should be a JSON object");
    assert_eq!(obj.len(), resolved.len());
    for (key, value) in &resolved {
        let got = obj.get(key).expect("every resolved key should be present");
        assert_eq!(got.as_str().expect("every value should be a string"), value);
    }
}
