use steam_shim::args::{parse_args, parse_key_val, parse_positional, str_eq, EnvPair, ParseError};
use steam_shim::envs::{lookup_env, merge_env};
use steam_shim::launch::{forwarded_exit_code, plan_invocation, resolve, ChildStatus, Invocation};

fn strs(xs: &[&str]) -> Vec<String> {
    xs.iter().map(|x| x.to_string()).collect()
}

fn pair(k: &str, v: &str) -> EnvPair {
    EnvPair { key: k.to_string(), value: v.to_string() }
}

#[test]
fn parse_key_val_splits_at_first_eq() {
    let p = parse_key_val("FOO=bar").unwrap();
    assert_eq!(p.key, "FOO");
    assert_eq!(p.value, "bar");

    let p = parse_key_val("A=B=C").unwrap();
    assert_eq!(p.key, "A");
    assert_eq!(p.value, "B=C");

    let p = parse_key_val("FOO=").unwrap();
    assert_eq!(p.key, "FOO");
    assert_eq!(p.value, "");

    let p = parse_key_val("=bar").unwrap();
    assert_eq!(p.key, "");
    assert_eq!(p.value, "bar");
}

#[test]
fn parse_key_val_without_eq_is_an_error() {
    match parse_key_val("FOO") {
        Err(ParseError::MissingSeparator(s)) => assert_eq!(s, "FOO"),
        _ => panic!("expected a missing-separator error"),
    }
}

#[test]
fn str_eq_agrees_with_equality() {
    assert!(str_eq("", ""));
    assert!(str_eq("abc", "abc"));
    assert!(!str_eq("abc", "abd"));
    assert!(!str_eq("abc", "ab"));
}

#[test]
fn parse_collects_env_pairs_in_order() {
    let v = strs(&["-e", "FOO=bar", "--env", "BAZ=qux", "--", "/bin/game"]);
    let req = parse_args(&v).unwrap();
    assert_eq!(req.env.len(), 2);
    assert_eq!(req.env[0].key, "FOO");
    assert_eq!(req.env[0].value, "bar");
    assert_eq!(req.env[1].key, "BAZ");
    assert_eq!(req.env[1].value, "qux");
    assert!(req.custom_exe.is_none());
    assert_eq!(req.steam_command, strs(&["/bin/game"]));
}

#[test]
fn parse_env_value_without_eq_is_an_error() {
    let v = strs(&["-e", "NOEQ", "--", "/bin/game"]);
    match parse_args(&v) {
        Err(ParseError::MissingSeparator(s)) => assert_eq!(s, "NOEQ"),
        _ => panic!("expected a missing-separator error"),
    }
}

#[test]
fn parse_flag_without_value_is_an_error() {
    match parse_args(&strs(&["-e"])) {
        Err(ParseError::MissingValue(s)) => assert_eq!(s, "-e"),
        _ => panic!("expected a missing-value error"),
    }
    match parse_args(&strs(&["--custom-exe"])) {
        Err(ParseError::MissingValue(s)) => assert_eq!(s, "--custom-exe"),
        _ => panic!("expected a missing-value error"),
    }
}

#[test]
fn parse_unknown_token_is_an_error() {
    let v = strs(&["-x", "--", "/bin/game"]);
    match parse_args(&v) {
        Err(ParseError::UnexpectedToken(s)) => assert_eq!(s, "-x"),
        _ => panic!("expected an unexpected-token error"),
    }
}

#[test]
fn parse_last_custom_exe_wins() {
    let v = strs(&["-c", "/a", "-c", "/b", "--", "/bin/game"]);
    let req = parse_args(&v).unwrap();
    assert_eq!(req.custom_exe.as_deref(), Some("/b"));
}

#[test]
fn parse_keeps_tail_verbatim() {
    // Everything after `--` is tail, even tokens that look like flags.
    let v = strs(&["--", "-e", "X=1"]);
    let req = parse_args(&v).unwrap();
    assert_eq!(req.steam_command, strs(&["-e", "X=1"]));
    assert!(req.env.is_empty());
}

#[test]
fn resolve_runs_first_tail_element_with_rest_as_args() {
    let v = strs(&["--", "/bin/game", "a1", "a2"]);
    let req = parse_args(&v).unwrap();
    let plan = resolve(req).unwrap();
    assert_eq!(plan.exe, "/bin/game");
    assert_eq!(plan.args, strs(&["a1", "a2"]));
    assert!(plan.env.is_empty());
}

#[test]
fn override_strips_original_executable() {
    // `launcher -c /path/custom -- /path/original extra` spawns
    // `/path/custom extra`, never `/path/custom /path/original extra`.
    let v = strs(&["-c", "/path/custom", "--", "/path/original", "extra"]);
    let req = parse_args(&v).unwrap();
    let plan = resolve(req).unwrap();
    assert_eq!(plan.exe, "/path/custom");
    assert_eq!(plan.args, strs(&["extra"]));
}

#[test]
fn empty_tail_plans_no_launch() {
    match plan_invocation(&strs(&["-e", "A=1", "--"])) {
        Invocation::EmptyTail => {}
        _ => panic!("expected an empty-tail invocation"),
    }
    match plan_invocation(&strs(&[])) {
        Invocation::EmptyTail => {}
        _ => panic!("expected an empty-tail invocation"),
    }
}

#[test]
fn bad_args_plan_no_launch() {
    match plan_invocation(&strs(&["-e", "NOEQ", "--", "/bin/game"])) {
        Invocation::BadArgs(ParseError::MissingSeparator(s)) => assert_eq!(s, "NOEQ"),
        _ => panic!("expected a bad-args invocation"),
    }
}

#[test]
fn echo_invocation_scenario() {
    // `launcher -e FOO=bar -- /bin/echo hi` spawns `/bin/echo hi` with
    // FOO=bar set; when the child exits 0, the launcher forwards 0.
    let v = strs(&["-e", "FOO=bar", "--", "/bin/echo", "hi"]);
    let plan = match plan_invocation(&v) {
        Invocation::Launch(p) => p,
        _ => panic!("expected a launch plan"),
    };
    assert_eq!(plan.exe, "/bin/echo");
    assert_eq!(plan.args, strs(&["hi"]));
    assert_eq!(plan.env.len(), 1);
    assert_eq!(plan.env[0].key, "FOO");
    assert_eq!(plan.env[0].value, "bar");
    assert_eq!(forwarded_exit_code(&ChildStatus::Exited(0)), Some(0));
}

#[test]
fn exit_codes_pass_through_exactly() {
    assert_eq!(forwarded_exit_code(&ChildStatus::Exited(0)), Some(0));
    assert_eq!(forwarded_exit_code(&ChildStatus::Exited(1)), Some(1));
    assert_eq!(forwarded_exit_code(&ChildStatus::Exited(7)), Some(7));
    assert_eq!(forwarded_exit_code(&ChildStatus::Exited(255)), Some(255));
    assert_eq!(forwarded_exit_code(&ChildStatus::Signaled), None);
}

#[test]
fn positional_preset_replaces_and_drops_original() {
    let v = strs(&["/path/custom", "/path/original", "extra"]);
    let req = parse_positional(&v).unwrap();
    assert_eq!(req.custom_exe.as_deref(), Some("/path/custom"));
    assert!(req.env.is_empty());
    let plan = resolve(req).unwrap();
    assert_eq!(plan.exe, "/path/custom");
    assert_eq!(plan.args, strs(&["extra"]));
    assert!(parse_positional(&strs(&[])).is_none());
}

#[test]
fn env_override_wins_over_inherited() {
    let inherited = vec![pair("FOO", "old"), pair("KEEP", "kept")];
    let extra = vec![pair("FOO", "bar"), pair("NEW", "n")];
    let merged = merge_env(inherited, &extra);
    assert_eq!(lookup_env(&merged, "FOO").as_deref(), Some("bar"));
    assert_eq!(lookup_env(&merged, "KEEP").as_deref(), Some("kept"));
    assert_eq!(lookup_env(&merged, "NEW").as_deref(), Some("n"));
    assert_eq!(lookup_env(&merged, "ABSENT"), None);
}

#[test]
fn later_duplicate_env_pair_wins() {
    let extra = vec![pair("K", "1"), pair("K", "2")];
    let merged = merge_env(Vec::new(), &extra);
    assert_eq!(lookup_env(&merged, "K").as_deref(), Some("2"));
}
