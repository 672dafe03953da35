use lithos::dangling::{
    cgroup_probes, check_cgroup, check_state_dir, judge_cgroup, judge_state_dir, state_dir_probes,
    sweep_cgroups, sweep_state_dirs, Check,
};

fn names(v: &[&str]) -> Vec<String> {
    v.iter().map(|s| s.to_string()).collect()
}

#[test]
fn checks_remove_or_keep() {
    let alive = vec![10, 20];
    assert!(!Check::Keep.is_removed(&alive));
    assert!(!Check::Skip.is_removed(&alive));
    assert!(Check::Remove.is_removed(&alive));
    assert!(!Check::Probe(10).is_removed(&alive));
    assert!(Check::Probe(11).is_removed(&alive));
}

#[test]
fn state_dir_of_an_instance_stays() {
    let keep = names(&["web/api.0", "web/cmd.fix.7"]);
    assert_eq!(check_state_dir(&keep, "web", "api.0"), Check::Keep);
    assert_eq!(check_state_dir(&keep, "web", "cmd.fix.7"), Check::Keep);
    assert_eq!(check_state_dir(&keep, "web", "api.1"), Check::Remove);
    assert_eq!(check_state_dir(&keep, "db", "api.0"), Check::Remove);
}

#[test]
fn state_dir_of_a_command_depends_on_its_process() {
    let keep = names(&["web/api.0"]);
    assert_eq!(check_state_dir(&keep, "web", "cmd.fix.731"), Check::Probe(731));
    assert_eq!(check_state_dir(&keep, "web", "cmd.a.b.9"), Check::Probe(9));
    assert_eq!(check_state_dir(&keep, "web", "cmd.fix"), Check::Remove);
    assert_eq!(check_state_dir(&keep, "web", "cmd.fix.12x"), Check::Remove);
    assert_eq!(check_state_dir(&keep, "web", "cmd.fix.99999999999"), Check::Remove);
    assert_eq!(check_state_dir(&keep, "web", "xcmd.fix.12"), Check::Remove);
}

#[test]
fn state_dirs_are_judged_from_what_the_pattern_found() {
    let keep = names(&["web/api.0"]);
    let found = Some(vec![Some(".5".to_string()), Some("5".to_string())]);
    assert_eq!(judge_state_dir(&keep, "web", "cmd.x.5", &found), Check::Probe(5));
    assert_eq!(judge_state_dir(&keep, "web", "cmd.x.5", &None), Check::Remove);
    assert_eq!(judge_state_dir(&keep, "web", "api.0", &found), Check::Keep);
    assert_eq!(judge_state_dir(&keep, "web", "other.5", &found), Check::Remove);
}

#[test]
fn sweep_spares_the_sandbox_with_a_valid_dir() {
    let keep = names(&["web/api.0"]);
    let procs = names(&["api.0", "api.1", "cmd.fix.30", "cmd.gone.31"]);
    assert_eq!(state_dir_probes(&keep, "web", &procs), vec![30, 31]);
    let s = sweep_state_dirs(&keep, "web", &procs, &vec![30]);
    assert_eq!(s.remove, names(&["api.1", "cmd.gone.31"]));
    assert!(!s.remove_sandbox);
}

#[test]
fn sweep_takes_a_sandbox_without_valid_dirs() {
    let keep = names(&["web/api.0"]);
    let procs = names(&["proc.0", "cmd.x.8"]);
    let s = sweep_state_dirs(&keep, "ghost", &procs, &Vec::new());
    assert_eq!(s.remove, procs);
    assert!(s.remove_sandbox);
    let s = sweep_state_dirs(&keep, "ghost", &Vec::new(), &Vec::new());
    assert!(s.remove.is_empty());
    assert!(s.remove_sandbox);
}

#[test]
fn cgroup_of_an_instance_stays_while_it_is_configured() {
    let keep = names(&["web/api.0", "my-box/long_name.12"]);
    assert_eq!(check_cgroup(&keep, "web:api.0.scope"), Check::Keep);
    assert_eq!(check_cgroup(&keep, "my-box:long_name.12.scope"), Check::Keep);
    assert_eq!(check_cgroup(&keep, "web:api.1.scope"), Check::Remove);
    assert_eq!(check_cgroup(&keep, "ghost:proc.0.scope"), Check::Remove);
}

#[test]
fn cgroup_of_a_command_depends_on_its_process() {
    let keep = names(&["web/api.0"]);
    assert_eq!(check_cgroup(&keep, "web:cmd.fix.731.scope"), Check::Probe(731));
    assert_eq!(check_cgroup(&keep, "web:cmd.fix.99999999999.scope"), Check::Remove);
}

#[test]
fn foreign_cgroups_are_skipped() {
    let keep = names(&["web/api.0"]);
    assert_eq!(check_cgroup(&keep, "system.slice"), Check::Skip);
    assert_eq!(check_cgroup(&keep, "web:api.0"), Check::Skip);
    assert_eq!(check_cgroup(&keep, "web:api.scope"), Check::Skip);
    assert_eq!(check_cgroup(&keep, "web/api.0.scope"), Check::Skip);
    assert_eq!(check_cgroup(&keep, "a b:api.0.scope"), Check::Skip);
}

#[test]
fn cgroups_are_judged_from_what_the_patterns_found() {
    let keep = names(&["web/api.0"]);
    let child = Some(vec![
        Some("web:api.0.scope".to_string()),
        Some("web".to_string()),
        Some("api.0".to_string()),
    ]);
    let cmd = Some(vec![
        Some("web:cmd.x.5.scope".to_string()),
        Some("web".to_string()),
        Some("5".to_string()),
    ]);
    assert_eq!(judge_cgroup(&keep, &child, &None), Check::Keep);
    assert_eq!(judge_cgroup(&keep, &child, &cmd), Check::Keep);
    assert_eq!(judge_cgroup(&keep, &None, &cmd), Check::Probe(5));
    assert_eq!(judge_cgroup(&keep, &None, &None), Check::Skip);
    assert_eq!(judge_cgroup(&keep, &Some(vec![None, None, None]), &cmd), Check::Skip);
    let odd = Some(vec![Some("x".to_string()), Some("web".to_string()), Some("x".to_string())]);
    assert_eq!(judge_cgroup(&keep, &None, &odd), Check::Remove);
}

#[test]
fn cgroup_sweep_removes_dangling_groups() {
    let keep = names(&["web/api.0"]);
    let files = names(&[
        "web:api.0.scope",
        "ghost:proc.0.scope",
        "web:cmd.fix.30.scope",
        "web:cmd.fix.31.scope",
        "user.slice",
    ]);
    assert_eq!(cgroup_probes(&keep, &files), vec![30, 31]);
    assert_eq!(
        sweep_cgroups(&keep, &files, &vec![31]),
        names(&["ghost:proc.0.scope", "web:cmd.fix.30.scope"])
    );
}
