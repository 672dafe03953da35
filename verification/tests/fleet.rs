use lithos::container::Namespace;
use lithos::fleet::{
    instance_name, is_supervised, knot_arguments, knot_environment, knot_namespaces,
    log_file_name, new_process, processes_file, sandbox_name, socket_credentials, Instance,
    Owners,
};
use lithos::id_map::IdMap;
use lithos::knot::Kind;
use lithos::recover::classify;
use lithos::socket_pool::{Addr, Host, TcpPort};
use lithos::tree::Found;

#[test]
fn sandboxes_are_yaml_files() {
    assert_eq!(sandbox_name("web.yaml").as_deref(), Some("web"));
    assert_eq!(sandbox_name("a.b.yaml").as_deref(), Some("a.b"));
    assert_eq!(sandbox_name(".yaml").as_deref(), Some(""));
    assert_eq!(sandbox_name("web.yml"), None);
    assert_eq!(sandbox_name("web.yaml~"), None);
    assert_eq!(sandbox_name("yaml"), None);
}

#[test]
fn files_default_to_the_sandbox_name() {
    assert_eq!(processes_file(None, "web"), "web.yaml");
    assert_eq!(processes_file(Some("other.yaml"), "web"), "other.yaml");
    assert_eq!(log_file_name(None, "web"), "web.log");
    assert_eq!(log_file_name(Some("x.log"), "web"), "x.log");
}

#[test]
fn only_daemons_are_supervised() {
    assert!(is_supervised(Kind::Daemon));
    assert!(!is_supervised(Kind::Command));
}

#[test]
fn instance_names() {
    assert_eq!(instance_name("web", "api", 0), "web/api.0");
    assert_eq!(instance_name("web", "api", 12), "web/api.12");
}

fn owners<'a>(
    user: Option<u32>,
    default_user: Option<u32>,
    s: &'a Vec<IdMap>,
    c: &'a Vec<IdMap>,
) -> Owners<'a> {
    Owners {
        user,
        default_user,
        group: Some(5),
        default_group: Some(6),
        sandbox_uid_map: s,
        sandbox_gid_map: s,
        container_uid_map: c,
        container_gid_map: c,
    }
}

#[test]
fn socket_owner_is_the_mapped_user() {
    let none = Vec::new();
    let sandbox = vec![IdMap { inside: 0, outside: 100000, count: 10 }];
    let container = vec![IdMap { inside: 0, outside: 5000, count: 100 }];
    assert_eq!(socket_credentials(owners(Some(3), Some(4), &none, &none)), (3, 5));
    assert_eq!(socket_credentials(owners(None, Some(4), &none, &none)), (4, 5));
    assert_eq!(socket_credentials(owners(None, None, &none, &none)), (0, 5));
    assert_eq!(socket_credentials(owners(Some(3), None, &sandbox, &container)), (100003, 100005));
    assert_eq!(socket_credentials(owners(Some(3), None, &none, &container)), (5003, 5005));
    assert_eq!(socket_credentials(owners(Some(50), None, &sandbox, &container)), (0, 100005));
    let o = Owners { group: None, default_group: None, ..owners(Some(1), None, &none, &none) };
    assert_eq!(socket_credentials(o), (1, 0));
}

#[test]
fn socket_owner_looks_at_the_uid_map_only() {
    let none = Vec::new();
    let gids = vec![IdMap { inside: 0, outside: 700, count: 10 }];
    let o = Owners { sandbox_gid_map: &gids, ..owners(Some(3), None, &none, &none) };
    assert_eq!(socket_credentials(o), (3, 5));
}

#[test]
fn process_record_of_an_instance() {
    let port = TcpPort {
        port: 8080,
        host: Host::V4(0),
        fd: 3,
        reuse_addr: true,
        reuse_port: false,
        listen_backlog: 128,
        set_non_block: false,
        external: true,
    };
    let p = new_process(
        Instance {
            sandbox: "web",
            family: "api",
            index: 1,
            config: "{}".to_string(),
            restart_timeout: 1_000,
            ports: vec![port, TcpPort { port: 8081, ..port }],
            socket_cred: (1000, 100),
            bridged_network: true,
        },
        50_000,
    );
    assert_eq!(p.name, "web/api.1");
    assert_eq!(p.base_name, ("web".to_string(), "api".to_string()));
    assert_eq!(p.config, "{}");
    assert_eq!(p.restart_timeout, 1_000);
    assert_eq!(p.restart_min, 51_000);
    assert_eq!(p.ports.len(), 2);
    assert_eq!(
        p.addresses,
        vec![Addr { host: Host::V4(0), port: 8080 }, Addr { host: Host::V4(0), port: 8081 }]
    );
    assert_eq!(p.socket_cred, (1000, 100));
    assert!(p.bridged_network);
}

#[test]
fn launcher_arguments_put_the_name_first() {
    assert_eq!(
        knot_arguments("web/api.0", "/etc/m.yaml", "{\"a\":1}", false, None),
        vec!["--name", "web/api.0", "--master", "/etc/m.yaml", "--config", "{\"a\":1}"]
    );
    assert_eq!(
        knot_arguments("n", "m", "c", true, Some("DEBUG")),
        vec!["--name", "n", "--master", "m", "--config", "c", "--log-stderr", "--log-level=DEBUG"]
    );
    assert_eq!(
        knot_arguments("n", "m", "c", false, Some("INFO")),
        vec!["--name", "n", "--master", "m", "--config", "c", "--log-level=INFO"]
    );
}

#[test]
fn a_tree_recognises_its_launchers() {
    let mut cmdline = String::from("/usr/bin/lithos_knot\0");
    for a in knot_arguments("web/api.0", "/etc/m.yaml", "{\"a\":1}", true, Some("WARN")) {
        cmdline.push_str(&a);
        cmdline.push('\0');
    }
    match classify(&cmdline, "/etc/m.yaml") {
        Found::Normal { name, config } => {
            assert_eq!(name, "web/api.0");
            assert_eq!(config, "{\"a\":1}");
        }
        _ => panic!("not recognised"),
    }
}

#[test]
fn launcher_environment_is_small() {
    let pair = |k: &str, v: &str| (k.to_string(), v.to_string());
    assert_eq!(knot_environment(None, None, None), vec![pair("TERM", "dumb")]);
    assert_eq!(
        knot_environment(Some("xterm".to_string()), Some("debug".to_string()), Some("1".to_string())),
        vec![pair("TERM", "xterm"), pair("RUST_LOG", "debug"), pair("RUST_BACKTRACE", "1")]
    );
    assert_eq!(
        knot_environment(None, None, Some("full".to_string())),
        vec![pair("TERM", "dumb"), pair("RUST_BACKTRACE", "full")]
    );
}

#[test]
fn launchers_get_four_namespaces() {
    assert_eq!(
        knot_namespaces(),
        vec![Namespace::NewMount, Namespace::NewUts, Namespace::NewIpc, Namespace::NewPid]
    );
}
