use atref::cli::{
    after_write, describe_human, describe_json, help_text, json_string, needs_config, needs_cwd, parse_args, path_to_resolve, run, unknown_key,
    CliOutcome, Command, Execution, Inputs, Loaded, Reply,
};
use atref::config::Config;

fn args(parts: &[&str]) -> Vec<String> {
    parts.iter().map(|s| s.to_string()).collect()
}

fn inputs(config: Loaded, absolute: Result<String, String>) -> Inputs {
    Inputs {
        config,
        cwd: Ok(r"D:\cwd".to_string()),
        absolute,
    }
}

fn exec(parts: &[&str], config: Loaded, absolute: Result<String, String>) -> Execution {
    let cmd = parse_args(&args(parts));
    run(&cmd, "0.5.1", r"C:\cfg\config.json", r"C:\Users\me", &inputs(config, absolute))
}

fn base() -> Config {
    Config::default_with_home(r"C:\Users\me".to_string())
}

fn change(r: &Reply) -> (String, String, String, bool) {
    match r {
        Reply::Change(a, k, v, c) => (a.clone(), k.clone(), v.clone(), *c),
        _ => panic!("not a change report"),
    }
}

fn failure(r: &Reply) -> String {
    match r {
        Reply::Failed(e) => e.clone(),
        _ => panic!("not a failure"),
    }
}

#[test]
fn dispatches_each_command() {
    assert!(matches!(parse_args(&args(&["--version"])), Command::Version));
    assert!(matches!(parse_args(&args(&["-V"])), Command::Version));
    assert!(matches!(parse_args(&args(&["-h"])), Command::Help));
    assert!(matches!(parse_args(&args(&["describe"])), Command::Describe));
    assert!(matches!(parse_args(&args(&["add"])), Command::AddFolder(None)));
    assert!(matches!(parse_args(&args(&["add", "x"])), Command::AddFolder(Some(_))));
    assert!(matches!(parse_args(&args(&["config"])), Command::Get(None)));
    assert!(matches!(parse_args(&args(&["config", "get"])), Command::Get(None)));
    assert!(matches!(parse_args(&args(&["config", "get", "chord"])), Command::Get(Some(_))));
    assert!(matches!(parse_args(&args(&["config", "set", "a", "b"])), Command::SetValue(_, _)));
    assert!(matches!(parse_args(&args(&["config", "add", "a", "b"])), Command::AddValue(_, _)));
    assert!(matches!(
        parse_args(&args(&["config", "remove", "a", "b"])),
        Command::RemoveValue(_, _)
    ));
    assert!(matches!(parse_args(&args(&["a", "b", "c", "d", "e"])), Command::TooMany(_)));
    assert!(matches!(parse_args(&args(&["describe", "x"])), Command::Unknown(_)));
    assert!(matches!(parse_args(&args(&["config", "get", "a", "b"])), Command::Unknown(_)));
}

#[test]
fn unknown_command_and_key_error() {
    let e = exec(&["frobnicate"], Loaded::Missing, Err(String::new()));
    assert_eq!(
        failure(&e.reply),
        "unknown command: frobnicate\nrun `atref describe` (JSON) or `atref --help`."
    );
    let e = exec(&["config", "get", "nope"], Loaded::Missing, Err(String::new()));
    assert_eq!(failure(&e.reply), unknown_key("nope"));
    let e = exec(&["--version"], Loaded::Missing, Err(String::new()));
    assert!(matches!(e.reply, Reply::Text(ref t) if t == "atref 0.5.1"));
    let e = exec(&["a", "b", "c", "d", "e"], Loaded::Missing, Err(String::new()));
    assert_eq!(failure(&e.reply), "too many arguments: a b c d e");
}

#[test]
fn help_ends_with_the_config_path() {
    let h = help_text(r"C:\cfg\config.json");
    assert!(h.starts_with("atref \u{2014} global file-reference picker."));
    assert!(h.ends_with("config: C:\\cfg\\config.json"));
}

#[test]
fn get_one_key_and_whole_config() {
    let e = exec(&["config", "get", "git_aware"], Loaded::Parsed(base()), Err(String::new()));
    assert!(matches!(e.reply, Reply::Flag(true)));
    assert!(e.write.is_none());
    let e = exec(&["config", "get", "folders"], Loaded::Missing, Err(String::new()));
    assert!(matches!(e.reply, Reply::Strings(ref v) if v == &vec![r"C:\Users\me".to_string()]));
    let e = exec(&["config"], Loaded::Missing, Err(String::new()));
    assert!(matches!(e.reply, Reply::WholeConfig(_)));
}

#[test]
fn unreadable_config_is_an_error() {
    let e = exec(&["config", "get"], Loaded::Failed("bad json".to_string()), Err(String::new()));
    assert_eq!(failure(&e.reply), "bad json");
    let mut c = base();
    c.folders.clear();
    let e = exec(&["config", "get"], Loaded::Parsed(c), Err(String::new()));
    assert_eq!(failure(&e.reply), "`folders` must list at least one directory");
}

#[test]
fn set_chord_validates() {
    let e = exec(&["config", "set", "chord", "Control+Shift+P"], Loaded::Missing, Err(String::new()));
    let written = e.write.expect("a valid chord is written");
    assert_eq!(written.chord, "Control+Shift+P");
    let bad = exec(&["config", "set", "chord", "@@@"], Loaded::Missing, Err(String::new()));
    assert!(bad.write.is_none(), "nothing written on invalid");
    assert!(failure(&bad.reply).contains("invalid chord"));
}

#[test]
fn set_git_aware_bool_only() {
    let e = exec(&["config", "set", "git_aware", "false"], Loaded::Missing, Err(String::new()));
    assert!(!e.write.expect("written").git_aware);
    let bad = exec(&["config", "set", "git_aware", "nope"], Loaded::Missing, Err(String::new()));
    assert!(bad.write.is_none());
    assert_eq!(failure(&bad.reply), "`git_aware` must be true or false, got 'nope'");
    let list = exec(&["config", "set", "folders", "x"], Loaded::Missing, Err(String::new()));
    assert!(failure(&list.reply).contains("is a list"));
}

#[test]
fn add_folder_creates_default_and_normalizes_and_is_idempotent() {
    let e = exec(
        &["config", "add", "folders", "proj"],
        Loaded::Missing,
        Ok(r"D:\cwd\proj".to_string()),
    );
    assert_eq!(change(&e.reply), ("add".to_string(), "folders".to_string(), r"D:\cwd\proj".to_string(), true));
    let c2 = e.write.expect("config written from the default");
    assert_eq!(c2.folders, vec![r"C:\Users\me".to_string(), r"D:\cwd\proj".to_string()]);
    assert_eq!(c2.exclude, base().exclude);
    let again = exec(
        &["config", "add", "folders", "proj"],
        Loaded::Parsed(c2.clone()),
        Ok(r"D:\cwd\proj".to_string()),
    );
    assert!(again.write.is_none(), "idempotent");
    assert!(!change(&again.reply).3);
    assert_eq!(c2.folders.iter().filter(|f| f.as_str() == r"D:\cwd\proj").count(), 1);
}

#[test]
fn get_one_key() {
    let set = exec(&["config", "set", "git_aware", "true"], Loaded::Missing, Err(String::new()));
    let written = set.write.expect("written");
    let e = exec(&["config", "get", "git_aware"], Loaded::Parsed(written), Err(String::new()));
    assert!(matches!(e.reply, Reply::Flag(true)));
}

#[test]
fn remove_last_folder_is_refused() {
    let e = exec(
        &["config", "remove", "folders", r"C:\Users\me"],
        Loaded::Missing,
        Ok(r"C:\Users\me".to_string()),
    );
    assert!(e.write.is_none());
    assert!(failure(&e.reply).contains("last folder"));
}

#[test]
fn exclude_add_remove_idempotent() {
    let e = exec(&["config", "add", "exclude", "dist"], Loaded::Missing, Err(String::new()));
    let c2 = e.write.expect("written");
    assert!(c2.exclude.contains(&"dist".to_string()));
    let again = exec(&["config", "add", "exclude", "dist"], Loaded::Parsed(c2.clone()), Err(String::new()));
    assert!(!change(&again.reply).3);
    let rm = exec(&["config", "remove", "exclude", "dist"], Loaded::Parsed(c2), Err(String::new()));
    let c3 = rm.write.expect("written");
    assert_eq!(c3.exclude, base().exclude);
    let gone = exec(&["config", "remove", "exclude", "ghost"], Loaded::Missing, Err(String::new()));
    assert!(gone.write.is_none());
    assert!(!change(&gone.reply).3);
    let scalar = exec(&["config", "add", "chord", "x"], Loaded::Missing, Err(String::new()));
    assert!(failure(&scalar.reply).contains("is a scalar"));
}

#[test]
fn add_shortcut_adds_folder_and_defaults_to_cwd() {
    let cmd = parse_args(&args(&["add"]));
    assert!(needs_config(&cmd));
    assert!(needs_cwd(&cmd));
    let cwd: Result<String, String> = Ok(r"D:\cwd".to_string());
    assert_eq!(path_to_resolve(&cmd, &cwd), Some(r"D:\cwd".to_string()));
    let e = run(&cmd, "0.5.1", "cfg", "home", &inputs(Loaded::Missing, Ok(r"D:\cwd".to_string())));
    assert!(e.write.expect("written").folders.contains(&r"D:\cwd".to_string()));
    let nocwd = Inputs {
        config: Loaded::Missing,
        cwd: Err("gone".to_string()),
        absolute: Err(String::new()),
    };
    let e = run(&cmd, "0.5.1", "cfg", "home", &nocwd);
    assert_eq!(failure(&e.reply), "cannot resolve current directory: gone");
}

#[test]
fn a_failed_write_replaces_the_report() {
    let r = after_write(Reply::Flag(true), Err("disk full".to_string()));
    assert_eq!(failure(&r), "disk full");
    let r = after_write(Reply::Flag(true), Ok(()));
    assert!(matches!(r, Reply::Flag(true)));
}

#[test]
fn outcomes_carry_exit_codes() {
    let ok = CliOutcome::ok("x".to_string());
    assert_eq!((ok.stdout.as_str(), ok.stderr.as_str(), ok.code), ("x", "", 0));
    let err = CliOutcome::err("bad".to_string());
    assert_eq!((err.stdout.as_str(), err.stderr.as_str(), err.code), ("", "bad", 2));
}

#[test]
fn adding_then_removing_a_folder_restores_the_config() {
    let added = exec(&["config", "add", "folders", "p"], Loaded::Missing, Ok(r"D:\p".to_string()));
    let c2 = added.write.expect("written");
    let removed = exec(&["config", "remove", "folders", "p"], Loaded::Parsed(c2), Ok(r"D:\p".to_string()));
    let c3 = removed.write.expect("written");
    assert_eq!(c3.folders, base().folders);
    assert_eq!(c3.exclude, base().exclude);
    assert_eq!(c3.chord, base().chord);
}

#[test]
fn describe_human_prints_a_readable_schema() {
    assert!(matches!(parse_args(&args(&["describe", "--human"])), Command::DescribeHuman));
    assert!(matches!(parse_args(&args(&["describe", "--json"])), Command::Unknown(_)));
    let e = exec(&["describe", "--human"], Loaded::Missing, Err(String::new()));
    assert!(e.write.is_none());
    let text = match e.reply {
        Reply::Text(t) => t,
        _ => panic!("describe --human prints text"),
    };
    assert_eq!(text, describe_human(r"C:\cfg\config.json"));
    assert!(text.starts_with("atref \u{2014} global file-reference picker"));
    for field in ["folders", "exclude", "chord", "git_aware"] {
        assert!(text.contains(field));
    }
    assert!(text.ends_with("config: C:\\cfg\\config.json"));
    let out = CliOutcome::ok(text);
    assert_eq!(out.code, 0);
}

#[test]
fn folders_compare_as_paths() {
    let mut c = base();
    c.folders = vec![r"D:\proj".to_string(), r"D:\other".to_string()];
    let again = exec(&["config", "add", "folders", r"D:\proj\"], Loaded::Parsed(c.clone()), Ok(r"D:\proj\".to_string()));
    assert!(again.write.is_none(), "a trailing separator names the same folder");
    let rm = exec(&["config", "remove", "folders", r"d:/proj/"], Loaded::Parsed(c), Ok(r"d:/proj/".to_string()));
    assert_eq!(rm.write.expect("written").folders, vec![r"D:\other".to_string()]);
}

#[test]
fn describe_is_valid_json_with_fields_and_path() {
    let e = exec(&["describe"], Loaded::Missing, Err(String::new()));
    assert!(e.write.is_none());
    let text = match e.reply {
        Reply::Text(t) => t,
        _ => panic!("describe prints text"),
    };
    assert_eq!(text, describe_json(r"C:\cfg\config.json"));
    let v: serde_json::Value = serde_json::from_str(&text).expect("valid JSON");
    assert!(v["commands"]["describe"].is_string());
    for key in ["folders", "exclude", "chord", "git_aware"] {
        assert!(v["fields"][key]["kind"].is_string(), "field {key} present");
    }
    assert_eq!(v["config_path"].as_str(), Some(r"C:\cfg\config.json"));
    assert_eq!(v["usage"].as_str(), Some("atref <command> [args] [--human]"));
    // Exactly serde_json's pretty form of the same document.
    assert_eq!(serde_json::to_string_pretty(&v).unwrap(), text);
}

#[test]
fn json_strings_escape_as_serde_json_does() {
    for s in ["plain", r"C:\Users\me", "quote \" here", "tab\tnl\ncr\r", "\u{1}\u{1f}\u{8}\u{c}", "café ✓", "\u{7f}"] {
        assert_eq!(json_string(s), serde_json::to_string(s).unwrap(), "{s:?}");
    }
}
