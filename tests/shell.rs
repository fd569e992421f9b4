use polina_vfs::shell::{Commands, SystemCall};

fn strings(v: &[&str]) -> Vec<String> {
    v.iter().map(|s| s.to_string()).collect()
}

fn env(pairs: &[(&str, &str)]) -> Vec<(String, String)> {
    pairs.iter().map(|(k, v)| (k.to_string(), v.to_string())).collect()
}

#[test]
fn parses_commands_and_arguments() {
    match Commands::parse_from_string("  ls \t a\u{3000}b  ".to_string()) {
        Commands::Ls(args, extra) => {
            assert_eq!(args, strings(&["a", "b"]));
            assert!(extra.is_none());
        }
        other => panic!("unexpected {:?}", other),
    }
    assert!(matches!(Commands::parse_from_string("cd".to_string()), Commands::Cd(a, None) if a.is_empty()));
    assert!(matches!(Commands::parse_from_string("exit".to_string()), Commands::Exit));
    assert!(matches!(Commands::parse_from_string("clear".to_string()), Commands::Clear));
    assert!(matches!(Commands::parse_from_string("whoami".to_string()), Commands::Whoami));
    assert!(matches!(Commands::parse_from_string("history".to_string()), Commands::History));
    assert!(matches!(Commands::parse_from_string("chown a b".to_string()), Commands::Chown(a) if a == strings(&["a", "b"])));
}

#[test]
fn blank_and_comment_lines_do_nothing() {
    assert!(matches!(Commands::parse_from_string("".to_string()), Commands::Null));
    assert!(matches!(Commands::parse_from_string(" \n ".to_string()), Commands::Null));
    assert!(matches!(Commands::parse_from_string("  #ls".to_string()), Commands::Null));
}

#[test]
fn unknown_command_is_not_found() {
    match Commands::parse_from_string("LS x".to_string()) {
        Commands::NotFound(t) => assert_eq!(t, "LS"),
        other => panic!("unexpected {:?}", other),
    }
    let calls = Commands::NotFound("foo".to_string()).execute(&vec![]);
    assert_eq!(calls.len(), 3);
    assert!(matches!(&calls[0], SystemCall::DisplayNewLine));
    assert!(matches!(&calls[1], SystemCall::Display(t) if t == "foo: command not found"));
    assert!(matches!(&calls[2], SystemCall::DisplayNewLine));
}

#[test]
fn environment_substitution() {
    let cmd = Commands::Ls(strings(&["$HOME", "x"]), None);
    let calls = cmd.execute(&env(&[("HOME", "/x")]));
    assert!(matches!(&calls[0], SystemCall::DisplayNewLine));
    assert!(matches!(&calls[1], SystemCall::ListDir(a) if *a == strings(&["/x", "x"])));
    let calls = cmd.execute(&vec![]);
    assert!(matches!(&calls[1], SystemCall::ListDir(a) if *a == strings(&["$HOME", "x"])));
}

#[test]
fn dollar_signs_are_dropped_from_the_key() {
    let cmd = Commands::Cd(strings(&["$$HO$ME"]), None);
    let out = cmd.format_command_args_to_env(&strings(&["$$HO$ME"]), &env(&[("HOME", "/h")]), None);
    assert_eq!(out, strings(&["/h"]));
    let calls = cmd.execute(&env(&[("HOME", "/h")]));
    assert!(matches!(&calls[1], SystemCall::ChangeDir(a) if *a == strings(&["/h"])));
}

#[test]
fn extra_variables_apply_to_plain_arguments_only() {
    let extra = env(&[("docs", "/docs"), ("$HOME", "never")]);
    let cmd = Commands::Cd(strings(&["docs", "$HOME", "other"]), Some(extra));
    let calls = cmd.execute(&env(&[("HOME", "/x")]));
    assert!(matches!(&calls[1], SystemCall::ChangeDir(a) if *a == strings(&["/docs", "/x", "other"])));
    let calls = cmd.execute(&vec![]);
    assert!(matches!(&calls[1], SystemCall::ChangeDir(a) if *a == strings(&["/docs", "$HOME", "other"])));
}

#[test]
fn simple_command_effects() {
    assert!(matches!(Commands::Exit.execute(&vec![]).as_slice(), [SystemCall::Exit]));
    assert!(matches!(Commands::Clear.execute(&vec![]).as_slice(), [SystemCall::Clear]));
    assert!(matches!(Commands::Null.execute(&vec![]).as_slice(), [SystemCall::DisplayNewLine]));
    assert!(matches!(
        Commands::Whoami.execute(&vec![]).as_slice(),
        [SystemCall::DisplayNewLine, SystemCall::Whoami, SystemCall::DisplayNewLine]
    ));
    assert!(matches!(
        Commands::History.execute(&vec![]).as_slice(),
        [SystemCall::DisplayNewLine, SystemCall::History, SystemCall::DisplayNewLine]
    ));
}

#[test]
fn chown_effects() {
    let calls = Commands::Chown(strings(&["root", "home.pl"])).execute(&vec![]);
    assert_eq!(calls.len(), 2);
    assert!(matches!(&calls[0], SystemCall::ChangeOwner(a) if *a == strings(&["root", "home.pl"])));
    assert!(matches!(&calls[1], SystemCall::DisplayNewLine));
    for args in [strings(&[]), strings(&["a"]), strings(&["a", "b", "c"])] {
        let calls = Commands::Chown(args).execute(&vec![]);
        assert_eq!(calls.len(), 5);
        assert!(matches!(&calls[1], SystemCall::Display(t) if t == "chown: need 2 arguments"));
        assert!(matches!(&calls[3], SystemCall::Display(t) if t == "example: chown root home.pl"));
        assert!(matches!(&calls[0], SystemCall::DisplayNewLine));
        assert!(matches!(&calls[2], SystemCall::DisplayNewLine));
        assert!(matches!(&calls[4], SystemCall::DisplayNewLine));
    }
}

#[test]
fn last_command_frame_is_text_after_last_prompt() {
    let p = "[u@polina]# ";
    assert_eq!(Commands::get_last_command_frame(p, "[u@polina]# ls\n[u@polina]# cd x"), "cd x");
    assert_eq!(Commands::get_last_command_frame(p, "no prompt here"), "no prompt here");
    assert_eq!(Commands::get_last_command_frame(p, "[u@polina]# "), "");
    assert_eq!(Commands::get_last_command_frame("aa", "aaa"), "a");
    assert_eq!(Commands::get_last_command_frame("", "abc"), "");
}
