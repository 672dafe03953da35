use lithos::config_log::{log_line, needs_rotation, rotation_plan, FileOp, CONFIG_LOG_SIZE};

fn show(ops: &[FileOp]) -> Vec<String> {
    ops.iter()
        .map(|op| match op {
            FileOp::Remove(a) => format!("rm {}", a),
            FileOp::Rename(a, b) => format!("mv {} {}", a, b),
        })
        .collect()
}

#[test]
fn logs_rotate_above_ten_mebibytes() {
    assert_eq!(CONFIG_LOG_SIZE, 10 * 1024 * 1024);
    assert!(!needs_rotation(0));
    assert!(!needs_rotation(10_485_760));
    assert!(needs_rotation(10_485_761));
}

#[test]
fn rotation_shifts_every_older_log() {
    assert_eq!(
        show(&rotation_plan("web.log", 3)),
        vec![
            "rm web.log.3",
            "mv web.log.2 web.log.3",
            "mv web.log.1 web.log.2",
            "mv web.log web.log.1",
        ]
    );
}

#[test]
fn rotation_with_one_older_log() {
    assert_eq!(show(&rotation_plan("a", 1)), vec!["rm a.1", "mv a a.1"]);
}

#[test]
fn rotation_without_older_logs() {
    assert_eq!(show(&rotation_plan("a", 0)), vec!["rm a.0", "mv a a.0"]);
}

#[test]
fn rotation_of_many_logs() {
    let ops = show(&rotation_plan("x", 100));
    assert_eq!(ops.len(), 101);
    assert_eq!(ops[0], "rm x.100");
    assert_eq!(ops[1], "mv x.99 x.100");
    assert_eq!(ops[99], "mv x.1 x.2");
    assert_eq!(ops[100], "mv x x.1");
}

#[test]
fn log_line_is_time_space_json() {
    assert_eq!(log_line("2017-01-01T00:00:00Z", "{\"a\":1}"), "2017-01-01T00:00:00Z {\"a\":1}\n");
}
