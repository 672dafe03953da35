use lithos::pattern::group;
use lithos::recover::{
    check_pid_file, check_probed, classify, fd_candidates, holds_pid, is_child, list_proc,
    pid_file_content, pid_of_group, PidCheck, STAT_PATTERN,
};
use lithos::tree::Found;

fn names(v: &[&str]) -> Vec<String> {
    v.iter().map(|s| s.to_string()).collect()
}

#[test]
fn stat_names_the_parent() {
    let stat = "4321 (lithos_knot) S 1234 4321 4321 0 -1 4194560 1 0\n";
    assert!(is_child(stat, 1234));
    assert!(!is_child(stat, 4321));
    assert!(!is_child(stat, 123));
    assert!(is_child("7 (a b) R 1 ", 1));
}

#[test]
fn stat_of_another_shape_names_nobody() {
    assert!(!is_child("", 0));
    assert!(!is_child("4321 lithos_knot S 1234 1", 1234));
    assert!(!is_child("x 4321 (k) S 1234 1", 1234));
    assert!(!is_child("4321 (k) S 1234", 1234));
    assert!(!is_child("4321 (k) S 99999999999 1", 1));
}

#[test]
fn the_stat_pattern_is_anchored() {
    assert!(STAT_PATTERN.starts_with('^'));
}

#[test]
fn groups_are_read_as_pids() {
    let found = Some(vec![Some("a.12".to_string()), Some("12".to_string()), None]);
    assert_eq!(group(&found, 0).map(|s| s.as_str()), Some("a.12"));
    assert_eq!(group(&found, 2), None);
    assert_eq!(group(&found, 3), None);
    assert_eq!(group(&None, 0), None);
    assert_eq!(pid_of_group(&found, 1), Some(12));
    assert_eq!(pid_of_group(&found, 0), None);
    assert_eq!(pid_of_group(&found, 2), None);
    assert_eq!(pid_of_group(&found, 9), None);
    assert_eq!(pid_of_group(&None, 1), None);
}

#[test]
fn inherited_descriptors_start_at_three() {
    let fds = fd_candidates(&names(&["0", "1", "2", "3", "17", "x", "-4", "+5", "4294967296", ""]));
    assert_eq!(fds, vec![3, 17, 5]);
    assert_eq!(fd_candidates(&Vec::new()), Vec::<i32>::new());
}

#[test]
fn proc_listings_merge_without_repeats() {
    let mut pids = Vec::new();
    list_proc(&mut pids, &names(&["1", "self", "20", "cpuinfo", "300"]));
    assert_eq!(pids, vec![1, 20, 300]);
    list_proc(&mut pids, &names(&["20", "1", "400", "400", "001"]));
    assert_eq!(pids, vec![1, 20, 300, 400]);
    assert!(holds_pid(&pids, 300));
    assert!(!holds_pid(&pids, 2));
}

#[test]
fn pid_file_of_this_process_is_left_alone() {
    assert_eq!(check_pid_file(Some("123\n"), 123), PidCheck::Ours);
    assert_eq!(check_pid_file(Some("  123 \t\n"), 123), PidCheck::Ours);
}

#[test]
fn pid_file_of_another_process_is_probed() {
    assert_eq!(check_pid_file(Some("124\n"), 123), PidCheck::Probe(124));
    assert_eq!(check_pid_file(Some("-1"), 123), PidCheck::Probe(-1));
}

#[test]
fn unreadable_pid_file_is_claimed() {
    assert_eq!(check_pid_file(None, 123), PidCheck::Claim);
    assert_eq!(check_pid_file(Some(""), 123), PidCheck::Claim);
    assert_eq!(check_pid_file(Some("12 3"), 123), PidCheck::Claim);
    assert_eq!(check_pid_file(Some("pid"), 123), PidCheck::Claim);
    assert_eq!(check_pid_file(Some("2147483648"), 123), PidCheck::Claim);
}

#[test]
fn a_live_master_stops_the_start() {
    assert_eq!(
        check_probed(124, true),
        Err("Master pid is 124. And there is alive process with that pid.".to_string())
    );
    assert_eq!(check_probed(124, false), Ok(()));
}

#[test]
fn pid_file_holds_the_pid_and_a_line_end() {
    assert_eq!(pid_file_content(4711), "4711\n");
    assert_eq!(pid_file_content(0), "0\n");
    assert_eq!(pid_file_content(i32::MIN), "-2147483648\n");
}

#[test]
fn a_launcher_is_known_by_its_command_line() {
    let cmdline = "/usr/bin/lithos_knot\0--name\0web/api.0\0--master\0/etc/lithos/master.yaml\0--config\0{\"a\":1}\0--log-stderr\0";
    match classify(cmdline, "/etc/lithos/master.yaml") {
        Found::Normal { name, config } => {
            assert_eq!(name, "web/api.0");
            assert_eq!(config, "{\"a\":1}");
        }
        _ => panic!("not a launcher"),
    }
    let bare = "lithos_knot\0--name\0n\0--master\0m\0--config\0c";
    assert!(matches!(classify(bare, "m"), Found::Normal { .. }));
}

#[test]
fn other_command_lines_are_unidentified() {
    let other_master = "lithos_knot\0--name\0n\0--master\0m2\0--config\0c\0";
    assert!(matches!(classify(other_master, "m"), Found::Unidentified));
    let other_program = "/bin/sleep\0--name\0n\0--master\0m\0--config\0c\0";
    assert!(matches!(classify(other_program, "m"), Found::Unidentified));
    let short = "lithos_knot\0--name\0n\0--master\0m\0--config\0";
    assert!(matches!(classify(short, "m"), Found::Unidentified));
    let reordered = "lithos_knot\0--master\0m\0--name\0n\0--config\0c\0";
    assert!(matches!(classify(reordered, "m"), Found::Unidentified));
    assert!(matches!(classify("sleep\03600\0", "m"), Found::Unidentified));
}

#[test]
fn no_command_line_means_a_zombie() {
    assert!(matches!(classify("", "m"), Found::Zombie));
    assert!(matches!(classify("\0", "m"), Found::Zombie));
}
