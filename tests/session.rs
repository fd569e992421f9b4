use polina_vfs::session::{get_shell_prefix, Output, Session};
use polina_vfs::storage::{DiskEntry, VFS};

fn file(name: &str) -> DiskEntry {
    DiskEntry::File { name: name.to_string() }
}

fn dir(name: &str, entries: Vec<DiskEntry>) -> DiskEntry {
    DiskEntry::Dir { name: name.to_string(), entries }
}

fn session() -> Session {
    let listing = vec![dir("docs", vec![file("a.txt"), dir("sub", vec![])]), file("home.pl")];
    Session::new(Some(VFS::new("ilya".to_string(), "./storage".to_string(), listing)))
}

fn texts(out: &[Output]) -> String {
    let mut s = String::new();
    for o in out {
        match o {
            Output::Text(t) => s.push_str(t),
            Output::Clear => s.push_str("<clear>"),
            Output::Exit => s.push_str("<exit>"),
        }
    }
    s
}

#[test]
fn prompt_names_user_and_system() {
    assert_eq!(get_shell_prefix(&"ilya".to_string()), "[ilya@polina]# ");
}

#[test]
fn cd_then_ls_then_missing_cd() {
    let mut s = session();
    let out = s.submit("cd docs".to_string(), &vec![]);
    assert_eq!(texts(&out), "\n[ilya@polina]# ");
    let out = s.submit("ls".to_string(), &vec![]);
    assert_eq!(texts(&out), "\na.txt sub \n[ilya@polina]# ");
    let out = s.submit("cd missing".to_string(), &vec![]);
    assert_eq!(texts(&out), "\ncd: dir not found: missing\n[ilya@polina]# ");
    assert_eq!(s.vfs.as_ref().unwrap().current_path, "/docs");
}

#[test]
fn ls_error_is_followed_by_the_prompt() {
    let mut s = session();
    let out = s.submit("ls nowhere".to_string(), &vec![]);
    assert_eq!(texts(&out), "\nls: dir not found: nowhere\n[ilya@polina]# ");
    let out = s.submit("ls docs/sub".to_string(), &vec![]);
    assert_eq!(texts(&out), "\n[ilya@polina]# ");
}

#[test]
fn without_storage_vfs_commands_report_it() {
    let mut s = Session::new(None);
    assert_eq!(s.user, "");
    let out = s.submit("ls".to_string(), &vec![]);
    assert_eq!(texts(&out), "\nVFS storage not set\n[@polina]# ");
    let out = s.submit("cd /".to_string(), &vec![]);
    assert_eq!(texts(&out), "\nVFS storage not set\n[@polina]# ");
    let out = s.submit("chown a b".to_string(), &vec![]);
    assert_eq!(texts(&out), "VFS storage not set\n\n[@polina]# ");
    let out = s.submit("whoami".to_string(), &vec![]);
    assert_eq!(texts(&out), "\n\n[@polina]# ");
}

#[test]
fn whoami_clear_exit_and_unknown() {
    let mut s = session();
    assert_eq!(texts(&s.submit("whoami".to_string(), &vec![])), "\nilya\n[ilya@polina]# ");
    assert_eq!(texts(&s.submit("clear".to_string(), &vec![])), "<clear>[ilya@polina]# ");
    assert_eq!(texts(&s.submit("exit".to_string(), &vec![])), "<exit>");
    assert_eq!(
        texts(&s.submit("dance now".to_string(), &vec![])),
        "\ndance: command not found\n[ilya@polina]# "
    );
    assert_eq!(texts(&s.submit("# note".to_string(), &vec![])), "\n[ilya@polina]# ");
}

#[test]
fn chown_sets_owner_and_bad_chown_changes_nothing() {
    let mut s = session();
    let out = s.submit("chown root home.pl".to_string(), &vec![]);
    assert_eq!(texts(&out), "\n[ilya@polina]# ");
    let vfs = s.vfs.as_ref().unwrap();
    assert_eq!(vfs.list_dir(vec![]).unwrap()[1].owner(), "root");
    let out = s.submit("chown docs".to_string(), &vec![]);
    assert_eq!(
        texts(&out),
        "\nchown: need 2 arguments\nexample: chown root home.pl\n[ilya@polina]# "
    );
    let vfs = s.vfs.as_ref().unwrap();
    assert_eq!(vfs.list_dir(vec![]).unwrap()[0].owner(), "ilya");
    assert_eq!(vfs.list_dir(vec![]).unwrap()[1].owner(), "root");
    let out = s.submit("chown root nothing".to_string(), &vec![]);
    assert_eq!(texts(&out), "chown: dir not found: nothing\n\n[ilya@polina]# ");
}

#[test]
fn history_keeps_the_most_recent_thirty() {
    let mut s = session();
    for i in 0..35 {
        s.submit(format!("cmd{}", i), &vec![]);
    }
    assert_eq!(s.history.len(), 30);
    for i in 0..30 {
        assert_eq!(s.history.get(i), &format!("cmd{}", i + 5));
    }
}

#[test]
fn history_lists_numbered_lines() {
    let mut s = session();
    s.submit("ls".to_string(), &vec![]);
    s.submit("whoami\n".to_string(), &vec![]);
    assert_eq!(s.history_lines(), "1: ls2: whoami");
    let out = s.submit("history".to_string(), &vec![]);
    assert_eq!(texts(&out), "\n1: ls2: whoami\n3: history\n[ilya@polina]# ");
    for _ in 0..8 {
        s.submit("x".to_string(), &vec![]);
    }
    assert!(s.history_lines().ends_with("10: x11: x"));
}

#[test]
fn environment_reaches_cd() {
    let mut s = session();
    let env = vec![("D".to_string(), "/docs/sub".to_string())];
    assert_eq!(texts(&s.submit("cd $D".to_string(), &env)), "\n[ilya@polina]# ");
    assert_eq!(s.vfs.as_ref().unwrap().current_path, "/docs/sub");
}

#[test]
fn startup_script_skips_comment_lines() {
    let lines = vec!["ls".to_string(), "#c".to_string(), "".to_string(), " #x".to_string(), "cd /".to_string()];
    assert_eq!(
        polina_vfs::session::startup_commands(lines),
        vec!["ls".to_string(), "".to_string(), " #x".to_string(), "cd /".to_string()]
    );
}
