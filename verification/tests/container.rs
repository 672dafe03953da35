use lithos::container::{
    convert_namespaces, join_path, Command, Environment, Namespace, Namespaces, CLONE_NEWIPC,
    CLONE_NEWNET, CLONE_NEWNS, CLONE_NEWPID, CLONE_NEWUSER, CLONE_NEWUTS,
};
use lithos::id_map::IdMap;

#[test]
fn namespaces_have_their_numbers() {
    let all = [
        Namespace::NewMount,
        Namespace::NewUts,
        Namespace::NewIpc,
        Namespace::NewUser,
        Namespace::NewPid,
        Namespace::NewNet,
    ];
    for (i, ns) in all.iter().enumerate() {
        assert_eq!(ns.to_uint(), i);
        assert_eq!(Namespace::from_uint(i), *ns);
    }
}

#[test]
fn clone_flags_are_those_of_linux() {
    assert_eq!(CLONE_NEWNS, 0x00020000);
    assert_eq!(CLONE_NEWUTS, 0x04000000);
    assert_eq!(CLONE_NEWIPC, 0x08000000);
    assert_eq!(CLONE_NEWUSER, 0x10000000);
    assert_eq!(CLONE_NEWPID, 0x20000000);
    assert_eq!(CLONE_NEWNET, 0x40000000);
}

#[test]
fn namespace_sets_convert_to_flags() {
    let mut set = Namespaces::new();
    assert_eq!(convert_namespaces(set), 0);
    set.insert(Namespace::NewMount);
    set.insert(Namespace::NewPid);
    set.insert(Namespace::NewMount);
    assert!(set.contains(Namespace::NewMount));
    assert!(!set.contains(Namespace::NewNet));
    assert_eq!(convert_namespaces(set), 0x20020000);
    set.insert(Namespace::NewUts);
    set.insert(Namespace::NewIpc);
    set.insert(Namespace::NewUser);
    set.insert(Namespace::NewNet);
    assert_eq!(convert_namespaces(set), 0x7c020000);
}

#[test]
fn paths_are_joined_with_one_slash() {
    assert_eq!(join_path("/a", "b"), "/a/b");
    assert_eq!(join_path("/a/", "b"), "/a/b");
    assert_eq!(join_path("/", "tmp"), "/tmp");
    assert_eq!(join_path("", "tmp"), "tmp");
}

#[test]
fn environment_is_sorted_by_name() {
    let mut env = Environment::new();
    env.insert("PATH".to_string(), "/bin".to_string());
    env.insert("HOME".to_string(), "/".to_string());
    env.insert("TERM".to_string(), "dumb".to_string());
    env.insert("HOME".to_string(), "/root".to_string());
    env.insert("A".to_string(), "".to_string());
    env.insert("PATHS".to_string(), "x".to_string());
    env.insert("".to_string(), "empty".to_string());
    assert_eq!(env.len(), 6);
    assert_eq!(
        env.assignments(),
        vec!["=empty", "A=", "HOME=/root", "PATH=/bin", "PATHS=x", "TERM=dumb"]
    );
}

#[test]
fn environment_orders_by_code_point() {
    let mut env = Environment::new();
    for name in ["b", "a", "B", "\u{e9}", "z", "aa", "Z"] {
        env.insert(name.to_string(), "1".to_string());
    }
    let mut want: Vec<String> =
        ["b", "a", "B", "\u{e9}", "z", "aa", "Z"].iter().map(|s| s.to_string()).collect();
    want.sort();
    let want: Vec<String> = want.iter().map(|s| format!("{}=1", s)).collect();
    assert_eq!(env.assignments(), want);
}

#[test]
fn new_command_runs_the_program_as_root() {
    let c = Command::new("web".to_string(), "/bin/sleep", "/work");
    assert_eq!(c.name, "web");
    assert_eq!(c.executable, "/bin/sleep");
    assert_eq!(c.arguments, vec!["/bin/sleep"]);
    assert_eq!(c.workdir, "/work");
    assert_eq!(c.user_id, 0);
    assert_eq!(c.group_id, 0);
    assert!(c.restore_sigmask);
    assert_eq!(c.chroot, None);
    assert_eq!(c.uid_map, None);
    assert_eq!(c.output, None);
    assert_eq!(c.environment.len(), 0);
    assert_eq!(convert_namespaces(c.namespaces), 0);
}

#[test]
fn command_builders_set_their_fields() {
    let mut c = Command::new("web".to_string(), "/bin/sleep", "/");
    c.set_user(1000, 100);
    c.chroot("/var/lib/root");
    c.set_workdir("/srv");
    c.keep_sigmask();
    c.arg("3600");
    c.args(&vec!["-v".to_string(), "x y".to_string()]);
    c.set_env("B".to_string(), "2".to_string());
    c.update_env(&vec![
        ("A".to_string(), "1".to_string()),
        ("B".to_string(), "3".to_string()),
    ]);
    c.set_output("/log/out");
    c.container();
    assert_eq!(c.user_id, 1000);
    assert_eq!(c.group_id, 100);
    assert_eq!(c.chroot.as_deref(), Some("/var/lib/root"));
    assert_eq!(c.tmp_old_root.as_deref(), Some("/var/lib/root/tmp"));
    assert_eq!(c.old_root_relative.as_deref(), Some("/tmp"));
    assert_eq!(c.workdir, "/srv");
    assert!(!c.restore_sigmask);
    assert_eq!(c.arguments, vec!["/bin/sleep", "3600", "-v", "x y"]);
    assert_eq!(c.output.as_deref(), Some("/log/out"));
    let p = c.prepare();
    assert_eq!(p.namespaces, 0x2c020000);
    assert_eq!(p.user_id, 1000);
    assert_eq!(p.group_id, 100);
    assert_eq!(p.restore_sigmask, 0);
    assert_eq!(p.logprefix, "ERROR:lithos::container.c: [web]");
    assert_eq!(p.fs_root.as_deref(), Some("/var/lib/root"));
    assert_eq!(p.tmp_old_root.as_deref(), Some("/var/lib/root/tmp"));
    assert_eq!(p.old_root_relative.as_deref(), Some("/tmp"));
    assert_eq!(p.exec_path, "/bin/sleep");
    assert_eq!(p.exec_args, vec!["/bin/sleep", "3600", "-v", "x y"]);
    assert_eq!(p.exec_environ, vec!["A=1", "B=3"]);
    assert_eq!(p.workdir, "/srv");
    assert_eq!(p.output.as_deref(), Some("/log/out"));
}

#[test]
fn mount_namespace_alone() {
    let mut c = Command::new("x".to_string(), "/bin/true", "/");
    c.mount_ns();
    assert_eq!(c.prepare().namespaces, 0x00020000);
    assert_eq!(c.prepare().restore_sigmask, 1);
}

#[test]
fn user_namespace_compiles_the_maps() {
    let mut c = Command::new("x".to_string(), "/bin/true", "/");
    c.user_ns(
        &vec![IdMap { inside: 0, outside: 1000, count: 1 }],
        &vec![IdMap { inside: 0, outside: 100, count: 2 }, IdMap { inside: 5, outside: 7, count: 9 }],
    );
    assert_eq!(c.prepare().namespaces, 0x10000000);
    assert_eq!(c.uid_map, Some(b"0 1000 1\n".to_vec()));
    assert_eq!(c.gid_map, Some(b"0 100 2\n5 7 9\n".to_vec()));
    let writes = c.init_container(4321);
    assert_eq!(writes.len(), 2);
    assert_eq!(writes[0].path, "/proc/4321/uid_map");
    assert_eq!(writes[0].data, b"0 1000 1\n".to_vec());
    assert_eq!(writes[1].path, "/proc/4321/gid_map");
    assert_eq!(writes[1].data, b"0 100 2\n5 7 9\n".to_vec());
    c.chroot("/root/fs");
    let writes = c.init_container(7);
    assert_eq!(writes[0].path, "/root/fs/proc/7/uid_map");
    assert_eq!(writes[1].path, "/root/fs/proc/7/gid_map");
}

#[test]
fn no_user_namespace_writes_nothing() {
    let c = Command::new("x".to_string(), "/bin/true", "/");
    assert!(c.init_container(1).is_empty());
}
