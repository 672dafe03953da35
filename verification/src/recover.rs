//! What a tree that starts finds left over from the tree before it: the
//! master's pid file, the sockets it has inherited, and the children that
//! still run.

use crate::pattern::{captured, captures, group, group_text, match_text};
use crate::text::{
    after_last, i32_value, parse_i32, pieces, push_signed, signed_decimal,
    split_terminated, tail_after, texts, trim, trimmed,
};
use crate::tree::Found;
use vstd::prelude::*;
use vstd::string::*;

verus! {

/// The shape of `/proc/<pid>/stat` up to the parent's pid, which is the
/// one group: the pid, the command in brackets, the state, the parent.
pub const STAT_PATTERN: &'static str = "^\\d+\\s+\\([^)]*\\)\\s+\\S+\\s+(\\d+)\\s";

/// The pid that group 1 of a match writes.
pub open spec fn pid_in(found: Option<Seq<Option<Seq<char>>>>, n: int) -> Option<i32> {
    match group_text(found, n) {
        Some(t) => i32_value(t),
        None => None,
    }
}

/// The pid that group `n` of a match writes, if there is a match and the
/// group writes one.
pub fn pid_of_group(found: &Option<Vec<Option<String>>>, n: usize) -> (pid: Option<i32>)
    ensures
        pid == pid_in(match_text(*found), n as int),
{
    match group(found, n) {
        Some(t) => parse_i32(t.as_str()),
        None => None,
    }
}

/// Is the process whose `/proc/<pid>/stat` reads `stat` a child of process
/// `ppid`? It is if the text has the shape [`STAT_PATTERN`] and the parent
/// that it names is `ppid`.
pub fn is_child(stat: &str, ppid: i32) -> (r: bool)
    ensures
        r == (pid_in(captured(STAT_PATTERN@, stat@), 1) == Some(ppid)),
{
    let found = captures(STAT_PATTERN, stat);
    match pid_of_group(&found, 1) {
        Some(p) => p == ppid,
        None => false,
    }
}

/// The descriptor that an entry of `/proc/self/fd` names, if it may be an
/// inherited socket: the first three descriptors are the standard streams.
pub open spec fn inherited_fd(name: Seq<char>) -> Option<i32> {
    match i32_value(name) {
        Some(fd) => if fd >= 3 {
            Some(fd)
        } else {
            None
        },
        None => None,
    }
}

/// The descriptors that the entries `names` name, in order.
pub open spec fn fds_in(names: Seq<Seq<char>>) -> Seq<i32>
    decreases names.len(),
{
    if names.len() == 0 {
        Seq::<i32>::empty()
    } else {
        match inherited_fd(names.last()) {
            Some(fd) => fds_in(names.drop_last()).push(fd),
            None => fds_in(names.drop_last()),
        }
    }
}

/// The descriptors among the entries of `/proc/self/fd` that may be
/// sockets which the tree has inherited.
pub fn fd_candidates(names: &Vec<String>) -> (fds: Vec<i32>)
    ensures
        fds@ == fds_in(texts(names@)),
{
    let mut fds: Vec<i32> = Vec::new();
    let mut i: usize = 0;
    assert(texts(names@).take(0) =~= Seq::<Seq<char>>::empty());
    while i < names.len()
        invariant
            i <= names.len(),
            fds@ == fds_in(texts(names@).take(i as int)),
        decreases names.len() - i,
    {
        proof {
            let t = texts(names@);
            assert(t.take(i as int + 1).drop_last() =~= t.take(i as int));
            assert(t.take(i as int + 1).last() == names@[i as int]@);
        }
        match parse_i32(names[i].as_str()) {
            Some(fd) => {
                if fd >= 3 {
                    fds.push(fd);
                }
            },
            None => {},
        }
        i += 1;
    }
    assert(texts(names@).take(names.len() as int) =~= texts(names@));
    fds
}

/// The pids `known`, and behind them each pid that the entries `names`
/// of `/proc` name and that did not come before.
pub open spec fn pids_in(names: Seq<Seq<char>>, known: Seq<i32>) -> Seq<i32>
    decreases names.len(),
{
    if names.len() == 0 {
        known
    } else {
        let before = pids_in(names.drop_last(), known);
        match i32_value(names.last()) {
            Some(pid) => if before.contains(pid) {
                before
            } else {
                before.push(pid)
            },
            None => before,
        }
    }
}

/// Is `pid` one of `pids`?
pub fn holds_pid(pids: &Vec<i32>, pid: i32) -> (r: bool)
    ensures
        r == pids@.contains(pid),
{
    let mut i: usize = 0;
    while i < pids.len()
        invariant
            i <= pids.len(),
            forall|k: int| 0 <= k < i ==> pids@[k] != pid,
        decreases pids.len() - i,
    {
        if pids[i] == pid {
            return true;
        }
        i += 1;
    }
    false
}

/// Adds to `pids` the processes that the entries `names` of `/proc` name.
/// A listing may be added any number of times: no pid is held twice.
pub fn list_proc(pids: &mut Vec<i32>, names: &Vec<String>)
    ensures
        final(pids)@ == pids_in(texts(names@), old(pids)@),
{
    let mut i: usize = 0;
    assert(texts(names@).take(0) =~= Seq::<Seq<char>>::empty());
    while i < names.len()
        invariant
            i <= names.len(),
            pids@ == pids_in(texts(names@).take(i as int), old(pids)@),
        decreases names.len() - i,
    {
        proof {
            let t = texts(names@);
            assert(t.take(i as int + 1).drop_last() =~= t.take(i as int));
            assert(t.take(i as int + 1).last() == names@[i as int]@);
        }
        match parse_i32(names[i].as_str()) {
            Some(pid) => {
                if !holds_pid(pids, pid) {
                    pids.push(pid);
                }
            },
            None => {},
        }
        i += 1;
    }
    assert(texts(names@).take(names.len() as int) =~= texts(names@));
}

/// What the master's pid file says about who runs.
#[derive(Clone, Copy, Debug, PartialEq, Eq, Structural)]
pub enum PidCheck {
    /// The file names this process: nothing is to be done.
    Ours,
    /// The file names another process: whether the tree may run depends
    /// on whether that process is alive.
    Probe(i32),
    /// The file is missing or names no process: this process writes it.
    Claim,
}

/// The verdict on a pid file with the content `content`, `None` standing
/// for a file that is missing or cannot be read, in process `mypid`.
pub open spec fn pid_check_spec(content: Option<Seq<char>>, mypid: i32) -> PidCheck {
    match content {
        None => PidCheck::Claim,
        Some(text) => match i32_value(trimmed(text)) {
            None => PidCheck::Claim,
            Some(pid) => if pid == mypid {
                PidCheck::Ours
            } else {
                PidCheck::Probe(pid)
            },
        },
    }
}

/// Decides what to do about the master's pid file.
pub fn check_pid_file(content: Option<&str>, mypid: i32) -> (r: PidCheck)
    ensures
        r == pid_check_spec(
            match content {
                Some(text) => Some(text@),
                None => None,
            },
            mypid,
        ),
{
    match content {
        None => PidCheck::Claim,
        Some(text) => match parse_i32(trim(text)) {
            None => PidCheck::Claim,
            Some(pid) => if pid == mypid {
                PidCheck::Ours
            } else {
                PidCheck::Probe(pid)
            },
        },
    }
}

/// The refusal to run beside a live master with pid `pid`.
pub open spec fn conflict_message(pid: i32) -> Seq<char> {
    "Master pid is "@ + signed_decimal(pid as int)
        + ". And there is alive process with that pid."@
}

/// After the process `pid` that the pid file names was probed: a tree
/// does not start beside a live one, and takes the place of a dead one.
pub fn check_probed(pid: i32, is_alive: bool) -> (r: Result<(), String>)
    ensures
        is_alive ==> r is Err && r->Err_0@ == conflict_message(pid),
        !is_alive ==> r is Ok,
{
    if is_alive {
        let mut s = String::from_str("Master pid is ");
        push_signed(&mut s, pid as i64);
        s.append(". And there is alive process with that pid.");
        Err(s)
    } else {
        Ok(())
    }
}

/// What the tree writes into its pid file: its pid and a line end.
pub fn pid_file_content(mypid: i32) -> (s: String)
    ensures
        s@ == signed_decimal(mypid as int) + "\n"@,
{
    let mut s = String::new();
    push_signed(&mut s, mypid as i64);
    s.append("\n");
    assert(s@ =~= signed_decimal(mypid as int) + "\n"@);
    s
}

/// What a command line shows a process to be.
pub enum Shape {
    /// A launcher, started for the instance `name` with the configuration
    /// `config`.
    Launcher { name: Seq<char>, config: Seq<char> },
    /// A process that has ended.
    Ended,
    /// Anything else.
    Other,
}

/// What the command line `tokens` of a child process shows it to be, for
/// a tree whose master configuration is the file `master`. A process
/// without a command line has ended. A launcher is a program whose file
/// is named `lithos_knot`, called with the options `--name`, `--master`
/// and `--config` in this order, each followed by its value, and with this
/// tree's `master`; it is known by the values of `--name` and `--config`.
pub open spec fn shape_of(tokens: Seq<Seq<char>>, master: Seq<char>) -> Shape {
    if tokens.len() == 0 || tokens[0].len() == 0 {
        Shape::Ended
    } else if tokens.len() >= 7 && after_last(tokens[0], '/') == "lithos_knot"@ && tokens[1]
        == "--name"@ && tokens[3] == "--master"@ && tokens[4] == master && tokens[5]
        == "--config"@ {
        Shape::Launcher { name: tokens[2], config: tokens[6] }
    } else {
        Shape::Other
    }
}

/// The shape that `found` reports; none for a process that could not be
/// read.
pub open spec fn shape_found(found: Found) -> Option<Shape> {
    match found {
        Found::Normal { name, config } => Some(Shape::Launcher { name: name@, config: config@ }),
        Found::Zombie => Some(Shape::Ended),
        Found::Unidentified => Some(Shape::Other),
        Found::Error => None,
    }
}

fn is_text(s: &String, lit: &str) -> (r: bool)
    ensures
        r == (s@ == lit@),
{
    let l = lit.to_owned();
    *s == l
}

/// Reads what a child process is from the content `cmdline` of its
/// `/proc/<pid>/cmdline`, where a zero byte ends each argument.
pub fn classify(cmdline: &str, master: &str) -> (found: Found)
    ensures
        shape_found(found) == Some(shape_of(pieces(cmdline@, '\0'), master@)),
{
    let tokens = split_terminated(cmdline, '\0');
    let ghost t = texts(tokens@);
    if tokens.len() == 0 {
        return Found::Zombie;
    }
    assert(t[0] == tokens@[0]@);
    if tokens[0].as_str().unicode_len() == 0 {
        return Found::Zombie;
    }
    if tokens.len() < 7 {
        return Found::Unidentified;
    }
    assert(t[1] == tokens@[1]@);
    assert(t[2] == tokens@[2]@);
    assert(t[3] == tokens@[3]@);
    assert(t[4] == tokens@[4]@);
    assert(t[5] == tokens@[5]@);
    assert(t[6] == tokens@[6]@);
    let program = tail_after(tokens[0].as_str(), '/').to_owned();
    if is_text(&program, "lithos_knot") && is_text(&tokens[1], "--name") && is_text(
        &tokens[3],
        "--master",
    ) && is_text(&tokens[4], master) && is_text(&tokens[5], "--config") {
        Found::Normal { name: tokens[2].clone(), config: tokens[6].clone() }
    } else {
        Found::Unidentified
    }
}

} // verus!
