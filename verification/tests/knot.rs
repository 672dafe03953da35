use lithos::container::Namespace;
use lithos::id_map::{IdMap, Range};
use lithos::knot::{
    check_group, check_ids, check_kind, check_user, holds_code, id_map_source, is_clean_end,
    keeps_net_bind_service, limits, log_level, output_plan, sandbox_of, scope_name, secret_source,
    syslog_name, workload_environment, workload_namespaces, Controller, ExitStatus, IdRequest,
    Kind, LogLevel, MapSource, Next, Output, SecretSource, StartError, Supervision, EXIT_ABNORMAL,
    EXIT_HANGING, SIGKILL, SIGTERM,
};

fn allowed() -> Vec<Range> {
    vec![Range { start: 1000, end: 1999 }]
}

#[test]
fn signal_numbers_are_those_of_linux() {
    assert_eq!(SIGTERM, 15);
    assert_eq!(SIGKILL, 9);
    assert_eq!(EXIT_HANGING, 3);
    assert_eq!(EXIT_ABNORMAL, 2);
}

#[test]
fn kinds_must_agree() {
    assert_eq!(check_kind(Kind::Daemon, Kind::Daemon), Ok(()));
    assert_eq!(check_kind(Kind::Command, Kind::Command), Ok(()));
    let e = check_kind(Kind::Daemon, Kind::Command).unwrap_err();
    assert_eq!(e, StartError::KindMismatch(Kind::Daemon, Kind::Command));
    assert_eq!(e.message(), "Container type mismatch Daemon != Command");
}

#[test]
fn user_without_map_must_be_allowed() {
    let map = Vec::new();
    assert_eq!(check_user(Some(1000), None, &map, &allowed()), Ok(1000));
    assert_eq!(check_user(Some(1999), Some(5), &map, &allowed()), Ok(1999));
    assert_eq!(check_user(None, Some(1500), &map, &allowed()), Ok(1500));
    assert_eq!(
        check_user(Some(2000), None, &map, &allowed()),
        Err(StartError::UserNotAllowed(2000))
    );
    assert_eq!(check_user(None, None, &map, &allowed()), Err(StartError::NoUser));
}

#[test]
fn user_with_map_must_be_mapped() {
    let map = vec![IdMap { inside: 0, outside: 1000, count: 10 }];
    assert_eq!(check_user(Some(9), None, &map, &allowed()), Ok(9));
    assert_eq!(check_user(Some(10), None, &map, &allowed()), Err(StartError::UserNotMapped(10)));
    assert_eq!(
        check_user(Some(1000), None, &map, &allowed()),
        Err(StartError::UserNotMapped(1000))
    );
}

#[test]
fn group_errors_name_the_group() {
    let map = vec![IdMap { inside: 0, outside: 1000, count: 10 }];
    assert_eq!(check_group(Some(3), None, &map, &allowed()), Ok(3));
    assert_eq!(check_group(Some(11), None, &map, &allowed()), Err(StartError::GroupNotMapped(11)));
    assert_eq!(
        check_group(Some(11), None, &Vec::new(), &allowed()),
        Err(StartError::GroupNotAllowed(11))
    );
    assert_eq!(check_group(None, None, &map, &allowed()), Err(StartError::NoGroup));
}

#[test]
fn ids_are_judged_user_first_then_group_then_maps() {
    let none = Vec::new();
    let good = vec![IdMap { inside: 0, outside: 1000, count: 10 }];
    let wide = vec![IdMap { inside: 0, outside: 1000, count: 5000 }];
    let a = allowed();
    let req = |own, map| IdRequest { own, default: None, map, allowed: &a };
    assert_eq!(check_ids(req(Some(1000), &none), req(Some(1001), &none)), Ok((1000, 1001)));
    assert_eq!(check_ids(req(Some(1), &good), req(Some(2), &good)), Ok((1, 2)));
    assert_eq!(
        check_ids(req(Some(1), &none), req(Some(2), &none)),
        Err(StartError::UserNotAllowed(1))
    );
    assert_eq!(
        check_ids(req(Some(1000), &none), req(None, &none)),
        Err(StartError::NoGroup)
    );
    assert_eq!(check_ids(req(Some(1), &wide), req(Some(2), &good)), Err(StartError::BadUidMap));
    assert_eq!(check_ids(req(Some(1), &good), req(Some(2), &wide)), Err(StartError::BadGidMap));
    assert_eq!(
        check_ids(req(Some(1), &wide), req(Some(20), &good)),
        Err(StartError::GroupNotMapped(20))
    );
}

#[test]
fn refusals_have_their_messages() {
    assert_eq!(
        StartError::UserNotMapped(70000).message(),
        "User is not in mapped range (uid: 70000)"
    );
    assert_eq!(StartError::UserNotAllowed(0).message(), "User is not in allowed range (uid: 0)");
    assert_eq!(StartError::NoUser.message(), "No user id specified and no default is found");
    assert_eq!(
        StartError::GroupNotMapped(4294967295).message(),
        "Group is not in mapped range (gid: 4294967295)"
    );
    assert_eq!(StartError::GroupNotAllowed(12).message(), "Group is not in allowed range (gid: 12)");
    assert_eq!(StartError::NoGroup.message(), "No group id specified and no default is found");
    assert_eq!(
        StartError::BadUidMap.message(),
        "Bad uid mapping (probably doesn't match allow_users)"
    );
    assert_eq!(
        StartError::BadGidMap.message(),
        "Bad gid mapping (probably doesn't match allow_groups)"
    );
    assert_eq!(
        StartError::SecretsExclusive.message(),
        "secret-environ and secret-environ-file settings are mutually exclusive"
    );
}

#[test]
fn scope_name_writes_slashes_as_colons() {
    assert_eq!(scope_name("lithos", "web/api.0"), "lithos/web:api.0.scope");
    assert_eq!(scope_name("a/b", "x/y/z.1"), "a/b/x:y:z.1.scope");
    assert_eq!(scope_name("p", "plain"), "p/plain.scope");
}

#[test]
fn sandbox_is_the_part_before_the_first_slash() {
    assert_eq!(sandbox_of("web/api.0"), "web");
    assert_eq!(sandbox_of("web/a/b"), "web");
    assert_eq!(sandbox_of("alone"), "alone");
    assert_eq!(sandbox_of("/x"), "");
    assert_eq!(sandbox_of(""), "");
}

#[test]
fn syslog_name_joins_with_a_hyphen() {
    assert_eq!(syslog_name("lithos", "web"), "lithos-web");
}

#[test]
fn limits_are_memory_swap_and_cpu() {
    let l = limits(1073741824, 1024);
    assert_eq!(l.len(), 3);
    assert_eq!(l[0].controller, Controller::Memory);
    assert_eq!(l[0].file, "memory.limit_in_bytes");
    assert_eq!(l[0].value, "1073741824");
    assert!(!l[0].if_exists);
    assert_eq!(l[1].controller, Controller::Memory);
    assert_eq!(l[1].file, "memory.memsw.limit_in_bytes");
    assert_eq!(l[1].value, "1073741824");
    assert!(l[1].if_exists);
    assert_eq!(l[2].controller, Controller::Cpu);
    assert_eq!(l[2].file, "cpu.shares");
    assert_eq!(l[2].value, "1024");
    assert!(!l[2].if_exists);
}

#[test]
fn secrets_come_from_one_place() {
    assert_eq!(secret_source(false, 0), Ok(SecretSource::Nothing));
    assert_eq!(secret_source(false, 2), Ok(SecretSource::Inline));
    assert_eq!(secret_source(true, 0), Ok(SecretSource::File));
    assert_eq!(secret_source(true, 1), Err(StartError::SecretsExclusive));
}

#[test]
fn sandbox_maps_come_before_container_maps() {
    let none: Vec<IdMap> = Vec::new();
    let some = vec![IdMap { inside: 0, outside: 1, count: 1 }];
    assert_eq!(id_map_source(&some, &none, &some, &some), MapSource::Sandbox);
    assert_eq!(id_map_source(&none, &some, &none, &none), MapSource::Sandbox);
    assert_eq!(id_map_source(&none, &none, &some, &none), MapSource::Container);
    assert_eq!(id_map_source(&none, &none, &none, &some), MapSource::Container);
    assert_eq!(id_map_source(&none, &none, &none, &none), MapSource::Unmapped);
}

#[test]
fn output_goes_where_the_container_says() {
    assert_eq!(output_plan(true, true), Output::Inherit);
    assert_eq!(output_plan(true, false), Output::Inherit);
    assert_eq!(output_plan(false, true), Output::OwnFile);
    assert_eq!(output_plan(false, false), Output::HostLog);
}

#[test]
fn environment_is_term_then_container_then_lithos() {
    let env = workload_environment(
        None,
        vec![("A".to_string(), "1".to_string()), ("TERM".to_string(), "x".to_string())],
        "web/api.0",
        "/cfg/api.yaml",
    );
    let want: Vec<(String, String)> = [
        ("TERM", "dumb"),
        ("A", "1"),
        ("TERM", "x"),
        ("LITHOS_NAME", "web/api.0"),
        ("LITHOS_CONFIG", "/cfg/api.yaml"),
    ]
    .iter()
    .map(|(k, v)| (k.to_string(), v.to_string()))
    .collect();
    assert_eq!(env, want);
    let env = workload_environment(Some("xterm".to_string()), Vec::new(), "n", "c");
    assert_eq!(env[0], ("TERM".to_string(), "xterm".to_string()));
    assert_eq!(env.len(), 3);
}

#[test]
fn log_level_falls_back_to_warn() {
    assert_eq!(log_level(Some(LogLevel::Debug), Some(LogLevel::Error), None), LogLevel::Debug);
    assert_eq!(log_level(None, Some(LogLevel::Error), Some(LogLevel::Info)), LogLevel::Error);
    assert_eq!(log_level(None, None, Some(LogLevel::Trace)), LogLevel::Trace);
    assert_eq!(log_level(None, None, None), LogLevel::Warn);
}

#[test]
fn workloads_get_their_namespaces_and_bridged_ones_a_network() {
    let own = vec![Namespace::NewMount, Namespace::NewUts, Namespace::NewIpc, Namespace::NewPid];
    assert_eq!(workload_namespaces(false), own);
    let mut bridged = own.clone();
    bridged.push(Namespace::NewNet);
    assert_eq!(workload_namespaces(true), bridged);
    assert!(keeps_net_bind_service(true));
    assert!(!keeps_net_bind_service(false));
}

#[test]
fn exit_status_tells_code_from_signal() {
    assert_eq!(ExitStatus::Exited(3).code(), Some(3));
    assert_eq!(ExitStatus::Exited(3).signal(), None);
    assert_eq!(ExitStatus::Signaled(9).code(), None);
    assert_eq!(ExitStatus::Signaled(9).signal(), Some(9));
}

#[test]
fn clean_ends() {
    let none = Vec::new();
    let codes = vec![0, 7];
    assert!(holds_code(&codes, 7));
    assert!(!holds_code(&codes, 1));
    assert!(is_clean_end(Kind::Daemon, &none, ExitStatus::Signaled(15)));
    assert!(!is_clean_end(Kind::Daemon, &none, ExitStatus::Signaled(9)));
    assert!(!is_clean_end(Kind::Daemon, &none, ExitStatus::Exited(0)));
    assert!(is_clean_end(Kind::Command, &none, ExitStatus::Exited(0)));
    assert!(!is_clean_end(Kind::Command, &none, ExitStatus::Exited(1)));
    assert!(is_clean_end(Kind::Daemon, &codes, ExitStatus::Exited(7)));
    assert!(!is_clean_end(Kind::Command, &codes, ExitStatus::Exited(1)));
}

#[test]
fn supervision_starts_abnormal() {
    let s = Supervision::new(Kind::Daemon, true);
    assert!(!s.should_exit);
    assert_eq!(s.exit_code, 2);
    assert_eq!(s.wait_until(), None);
    assert!(Supervision::new(Kind::Daemon, false).should_exit);
    assert!(Supervision::new(Kind::Command, true).should_exit);
}

#[test]
fn hanging_workload_exits_with_three_at_the_deadline() {
    let mut s = Supervision::new(Kind::Daemon, true);
    s.begin(1_000);
    s.spawned(77);
    assert_eq!(s.terminate(), Some(77));
    s.forwarded(true, 1_500, 2_000);
    assert_eq!(s.wait_until(), Some(3_500));
    // a second request to stop does not move the deadline
    assert_eq!(s.terminate(), None);
    s.forwarded(true, 2_000, 2_000);
    s.interrupted();
    s.reaped(78, ExitStatus::Exited(0), 2_100, Kind::Daemon, &Vec::new());
    assert_eq!(s.wait_until(), Some(3_500));
    assert_eq!(s.finish(3_500, 1_000), Next::Exit(3));
}

#[test]
fn the_deadline_counts_from_the_first_request_even_if_undelivered() {
    let mut s = Supervision::new(Kind::Daemon, true);
    s.begin(0);
    s.spawned(5);
    assert_eq!(s.terminate(), Some(5));
    s.forwarded(false, 1_000, 2_000);
    assert!(s.killed);
    assert!(!s.delivered);
    assert_eq!(s.wait_until(), Some(3_000));
    assert_eq!(s.terminate(), None);
    s.forwarded(true, 1_500, 2_000);
    assert_eq!(s.wait_until(), Some(3_000));
    assert!(!s.delivered);
    assert_eq!(s.finish(3_000, 1_000), Next::Exit(3));
}

#[test]
fn a_new_run_hands_the_request_on_again() {
    let mut s = Supervision::new(Kind::Daemon, true);
    s.begin(0);
    s.spawned(5);
    assert_eq!(s.terminate(), Some(5));
    s.forwarded(true, 10, 100);
    assert!(s.delivered);
    s.begin(500);
    s.spawned(6);
    assert_eq!(s.wait_until(), None);
    assert_eq!(s.terminate(), Some(6));
    s.forwarded(true, 600, 100);
    assert_eq!(s.wait_until(), Some(700));
}

#[test]
fn stopped_workload_exits_with_zero() {
    let mut s = Supervision::new(Kind::Daemon, true);
    s.begin(0);
    s.spawned(5);
    assert_eq!(s.terminate(), Some(5));
    s.forwarded(true, 10, 5_000);
    s.reaped(5, ExitStatus::Exited(1), 20, Kind::Daemon, &Vec::new());
    assert_eq!(s.wait_until(), Some(20));
    assert_eq!(s.finish(20, 1_000), Next::Exit(0));
}

#[test]
fn crashed_daemon_restarts_after_the_timeout() {
    let mut s = Supervision::new(Kind::Daemon, true);
    s.begin(10_000);
    s.spawned(5);
    s.reaped(5, ExitStatus::Exited(1), 10_300, Kind::Daemon, &Vec::new());
    assert_eq!(s.exit_code, 2);
    assert_eq!(s.finish(10_300, 1_000), Next::Restart(700));
    assert_eq!(s.finish(11_000, 1_000), Next::Restart(0));
    assert_eq!(s.finish(12_000, 1_000), Next::Restart(0));
    s.begin(11_000);
    assert_eq!(s.child, None);
    assert!(!s.dead);
    assert_eq!(s.wait_until(), None);
}

#[test]
fn crashed_command_exits_with_two() {
    let mut s = Supervision::new(Kind::Command, false);
    s.begin(0);
    s.spawned(5);
    s.reaped(5, ExitStatus::Exited(1), 3, Kind::Command, &Vec::new());
    assert_eq!(s.finish(3, 1_000), Next::Exit(2));
}

#[test]
fn command_that_ends_with_zero_exits_with_zero() {
    let mut s = Supervision::new(Kind::Command, false);
    s.begin(0);
    s.spawned(5);
    s.reaped(5, ExitStatus::Exited(0), 3, Kind::Command, &Vec::new());
    assert_eq!(s.finish(3, 1_000), Next::Exit(0));
}

#[test]
fn interrupt_makes_the_launcher_exit_with_its_code() {
    let mut s = Supervision::new(Kind::Daemon, true);
    s.begin(0);
    s.spawned(5);
    s.interrupted();
    assert_eq!(s.wait_until(), None);
    s.reaped(5, ExitStatus::Signaled(2), 9, Kind::Daemon, &Vec::new());
    assert_eq!(s.finish(9, 1_000), Next::Exit(2));
}
