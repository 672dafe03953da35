//! What to clear away when the tree starts: state directories and control
//! groups that no instance of the present configuration accounts for.

use crate::pattern::{captured, captures, group, group_text, match_text};
use crate::recover::{holds_pid, pid_in, pid_of_group};
use crate::text::{has_prefix, holds_text, texts};
use vstd::prelude::*;
use vstd::string::*;

verus! {

/// The end of the name of a command's state directory, `cmd.<name>.<pid>`:
/// the pid of the command is the one group.
pub const CMD_DIR_PATTERN: &'static str = "\\.(\\d+)$";

/// The name of the control group of an instance,
/// `<sandbox>:<family>.<number>.scope`: the sandbox and the rest of the
/// instance's name are the two groups.
pub const CHILD_GROUP_PATTERN: &'static str = "^([\\w-]+):([\\w-]+\\.\\d+)\\.scope$";

/// The name of the control group of a command,
/// `<sandbox>:cmd.<name>.<pid>.scope`: the sandbox and the pid are the two
/// groups.
pub const CMD_GROUP_PATTERN: &'static str = "^([\\w-]+):cmd\\.[\\w-]+\\.(\\d+)\\.scope$";

/// What to do about a directory or a control group.
#[derive(Clone, Copy, Debug, PartialEq, Eq, Structural)]
pub enum Check {
    /// It belongs to an instance: keep it.
    Keep,
    /// It belongs to the command with this pid: keep it if that process
    /// is alive, else remove it.
    Probe(i32),
    /// Nothing accounts for it: remove it.
    Remove,
    /// It is not the tree's: leave it alone.
    Skip,
}

impl Check {
    /// Is the thing removed, given the processes `alive` that were found
    /// alive?
    pub open spec fn removes(self, alive: Seq<i32>) -> bool {
        match self {
            Check::Keep => false,
            Check::Probe(pid) => !alive.contains(pid),
            Check::Remove => true,
            Check::Skip => false,
        }
    }

    /// Is the thing removed, given the processes `alive` that were found
    /// alive?
    pub fn is_removed(&self, alive: &Vec<i32>) -> (r: bool)
        ensures
            r == self.removes(alive@),
    {
        match *self {
            Check::Keep => false,
            Check::Probe(pid) => !holds_pid(alive, pid),
            Check::Remove => true,
            Check::Skip => false,
        }
    }
}

/// The name of the instance whose state lies in `proc_name` below the
/// directory of `sandbox`.
pub open spec fn instance_of(sandbox: Seq<char>, proc_name: Seq<char>) -> Seq<char> {
    sandbox + "/"@ + proc_name
}

/// What to do about the state directory `proc_name` of `sandbox`, where
/// `names` are the instances to keep and `found` is what
/// [`CMD_DIR_PATTERN`] finds in `proc_name`.
pub open spec fn dir_check(
    names: Seq<Seq<char>>,
    sandbox: Seq<char>,
    proc_name: Seq<char>,
    found: Option<Seq<Option<Seq<char>>>>,
) -> Check {
    if names.contains(instance_of(sandbox, proc_name)) {
        Check::Keep
    } else if "cmd."@.is_prefix_of(proc_name) {
        match pid_in(found, 1) {
            Some(pid) => Check::Probe(pid),
            None => Check::Remove,
        }
    } else {
        Check::Remove
    }
}

/// Judges a state directory, given what [`CMD_DIR_PATTERN`] finds in its
/// name.
pub fn judge_state_dir(
    names: &Vec<String>,
    sandbox: &str,
    proc_name: &str,
    found: &Option<Vec<Option<String>>>,
) -> (r: Check)
    ensures
        r == dir_check(texts(names@), sandbox@, proc_name@, match_text(*found)),
{
    let mut name = sandbox.to_owned();
    name.append("/");
    name.append(proc_name);
    assert(name@ =~= instance_of(sandbox@, proc_name@));
    if holds_text(names, &name) {
        Check::Keep
    } else if has_prefix(proc_name, "cmd.") {
        match pid_of_group(found, 1) {
            Some(pid) => Check::Probe(pid),
            None => Check::Remove,
        }
    } else {
        Check::Remove
    }
}

/// What to do about the state directory `proc_name` of `sandbox`.
pub open spec fn state_dir_check(names: Seq<Seq<char>>, sandbox: Seq<char>, proc_name: Seq<char>) -> Check {
    dir_check(names, sandbox, proc_name, captured(CMD_DIR_PATTERN@, proc_name))
}

/// Judges a state directory: that of an instance to keep stays; that of a
/// command stays while the command runs; any other goes.
pub fn check_state_dir(names: &Vec<String>, sandbox: &str, proc_name: &str) -> (r: Check)
    ensures
        r == state_dir_check(texts(names@), sandbox@, proc_name@),
{
    let found = captures(CMD_DIR_PATTERN, proc_name);
    judge_state_dir(names, sandbox, proc_name, &found)
}

/// The processes to probe before the state directories `procs` of
/// `sandbox` are swept, in order.
pub open spec fn dir_probes(names: Seq<Seq<char>>, sandbox: Seq<char>, procs: Seq<Seq<char>>) -> Seq<i32>
    decreases procs.len(),
{
    if procs.len() == 0 {
        Seq::<i32>::empty()
    } else {
        match state_dir_check(names, sandbox, procs.last()) {
            Check::Probe(pid) => dir_probes(names, sandbox, procs.drop_last()).push(pid),
            _ => dir_probes(names, sandbox, procs.drop_last()),
        }
    }
}

/// The state directories among `procs` of `sandbox` that are removed, in
/// order.
pub open spec fn doomed_dirs(
    names: Seq<Seq<char>>,
    sandbox: Seq<char>,
    procs: Seq<Seq<char>>,
    alive: Seq<i32>,
) -> Seq<Seq<char>>
    decreases procs.len(),
{
    if procs.len() == 0 {
        Seq::<Seq<char>>::empty()
    } else if state_dir_check(names, sandbox, procs.last()).removes(alive) {
        doomed_dirs(names, sandbox, procs.drop_last(), alive).push(procs.last())
    } else {
        doomed_dirs(names, sandbox, procs.drop_last(), alive)
    }
}

/// The processes to probe before the state directories `procs` of
/// `sandbox` are swept.
pub fn state_dir_probes(names: &Vec<String>, sandbox: &str, procs: &Vec<String>) -> (pids: Vec<i32>)
    ensures
        pids@ == dir_probes(texts(names@), sandbox@, texts(procs@)),
{
    let mut pids: Vec<i32> = Vec::new();
    let mut i: usize = 0;
    assert(texts(procs@).take(0) =~= Seq::<Seq<char>>::empty());
    while i < procs.len()
        invariant
            i <= procs.len(),
            pids@ == dir_probes(texts(names@), sandbox@, texts(procs@).take(i as int)),
        decreases procs.len() - i,
    {
        proof {
            let t = texts(procs@);
            assert(t.take(i as int + 1).drop_last() =~= t.take(i as int));
            assert(t.take(i as int + 1).last() == procs@[i as int]@);
        }
        match check_state_dir(names, sandbox, procs[i].as_str()) {
            Check::Probe(pid) => {
                pids.push(pid);
            },
            _ => {},
        }
        i += 1;
    }
    assert(texts(procs@).take(procs.len() as int) =~= texts(procs@));
    pids
}

/// What a sweep of one sandbox's state directories removes.
pub struct Sweep {
    /// The directories to remove.
    pub remove: Vec<String>,
    /// Whether the sandbox's own directory goes too: it does when none of
    /// its directories stays.
    pub remove_sandbox: bool,
}

/// Sweeps the state directories `procs` of `sandbox`, where `alive` holds
/// the probed processes that were found alive.
pub fn sweep_state_dirs(names: &Vec<String>, sandbox: &str, procs: &Vec<String>, alive: &Vec<i32>) -> (s:
    Sweep)
    ensures
        texts(s.remove@) == doomed_dirs(texts(names@), sandbox@, texts(procs@), alive@),
        s.remove_sandbox == (s.remove@.len() == procs@.len()),
{
    let mut remove: Vec<String> = Vec::new();
    let mut valid: usize = 0;
    let mut i: usize = 0;
    assert(texts(procs@).take(0) =~= Seq::<Seq<char>>::empty());
    assert(texts(remove@) =~= Seq::<Seq<char>>::empty());
    while i < procs.len()
        invariant
            i <= procs.len(),
            valid + remove@.len() == i,
            texts(remove@) == doomed_dirs(
                texts(names@),
                sandbox@,
                texts(procs@).take(i as int),
                alive@,
            ),
        decreases procs.len() - i,
    {
        proof {
            let t = texts(procs@);
            assert(t.take(i as int + 1).drop_last() =~= t.take(i as int));
            assert(t.take(i as int + 1).last() == procs@[i as int]@);
        }
        let check = check_state_dir(names, sandbox, procs[i].as_str());
        if check.is_removed(alive) {
            let ghost before = texts(remove@);
            remove.push(procs[i].clone());
            assert(texts(remove@) =~= before.push(procs@[i as int]@));
        } else {
            valid += 1;
        }
        i += 1;
    }
    assert(texts(procs@).take(procs.len() as int) =~= texts(procs@));
    Sweep { remove, remove_sandbox: valid == 0 }
}

/// What to do about the control group `filename`, where `names` are the
/// instances to keep, `child` is what [`CHILD_GROUP_PATTERN`] finds in the
/// name and `cmd` what [`CMD_GROUP_PATTERN`] finds. The group of an
/// instance stays if the instance is to be kept; the group of a command
/// stays while the command runs; a name of neither shape is not touched.
pub open spec fn group_check(
    names: Seq<Seq<char>>,
    child: Option<Seq<Option<Seq<char>>>>,
    cmd: Option<Seq<Option<Seq<char>>>>,
) -> Check {
    if child is Some {
        match (group_text(child, 1), group_text(child, 2)) {
            (Some(sandbox), Some(rest)) => if names.contains(instance_of(sandbox, rest)) {
                Check::Keep
            } else {
                Check::Remove
            },
            _ => Check::Skip,
        }
    } else if cmd is Some {
        match pid_in(cmd, 2) {
            Some(pid) => Check::Probe(pid),
            None => Check::Remove,
        }
    } else {
        Check::Skip
    }
}

/// Judges a control group, given what the two patterns find in its name.
pub fn judge_cgroup(
    names: &Vec<String>,
    child: &Option<Vec<Option<String>>>,
    cmd: &Option<Vec<Option<String>>>,
) -> (r: Check)
    ensures
        r == group_check(texts(names@), match_text(*child), match_text(*cmd)),
{
    if child.is_some() {
        match (group(child, 1), group(child, 2)) {
            (Some(sandbox), Some(rest)) => {
                let mut name = sandbox.clone();
                name.append("/");
                name.append(rest.as_str());
                assert(name@ =~= instance_of(sandbox@, rest@));
                if holds_text(names, &name) {
                    Check::Keep
                } else {
                    Check::Remove
                }
            },
            _ => Check::Skip,
        }
    } else if cmd.is_some() {
        match pid_of_group(cmd, 2) {
            Some(pid) => Check::Probe(pid),
            None => Check::Remove,
        }
    } else {
        Check::Skip
    }
}

/// What to do about the control group `filename`.
pub open spec fn cgroup_check(names: Seq<Seq<char>>, filename: Seq<char>) -> Check {
    group_check(
        names,
        captured(CHILD_GROUP_PATTERN@, filename),
        captured(CMD_GROUP_PATTERN@, filename),
    )
}

/// Judges the control group `filename` below the tree's own group.
pub fn check_cgroup(names: &Vec<String>, filename: &str) -> (r: Check)
    ensures
        r == cgroup_check(texts(names@), filename@),
{
    let child = captures(CHILD_GROUP_PATTERN, filename);
    let cmd = captures(CMD_GROUP_PATTERN, filename);
    judge_cgroup(names, &child, &cmd)
}

/// The processes to probe before the control groups `files` are swept, in
/// order.
pub open spec fn group_probes(names: Seq<Seq<char>>, files: Seq<Seq<char>>) -> Seq<i32>
    decreases files.len(),
{
    if files.len() == 0 {
        Seq::<i32>::empty()
    } else {
        match cgroup_check(names, files.last()) {
            Check::Probe(pid) => group_probes(names, files.drop_last()).push(pid),
            _ => group_probes(names, files.drop_last()),
        }
    }
}

/// The control groups among `files` that are removed, in order.
pub open spec fn doomed_groups(names: Seq<Seq<char>>, files: Seq<Seq<char>>, alive: Seq<i32>) -> Seq<
    Seq<char>,
>
    decreases files.len(),
{
    if files.len() == 0 {
        Seq::<Seq<char>>::empty()
    } else if cgroup_check(names, files.last()).removes(alive) {
        doomed_groups(names, files.drop_last(), alive).push(files.last())
    } else {
        doomed_groups(names, files.drop_last(), alive)
    }
}

/// The processes to probe before the control groups `files` are swept.
pub fn cgroup_probes(names: &Vec<String>, files: &Vec<String>) -> (pids: Vec<i32>)
    ensures
        pids@ == group_probes(texts(names@), texts(files@)),
{
    let mut pids: Vec<i32> = Vec::new();
    let mut i: usize = 0;
    assert(texts(files@).take(0) =~= Seq::<Seq<char>>::empty());
    while i < files.len()
        invariant
            i <= files.len(),
            pids@ == group_probes(texts(names@), texts(files@).take(i as int)),
        decreases files.len() - i,
    {
        proof {
            let t = texts(files@);
            assert(t.take(i as int + 1).drop_last() =~= t.take(i as int));
            assert(t.take(i as int + 1).last() == files@[i as int]@);
        }
        match check_cgroup(names, files[i].as_str()) {
            Check::Probe(pid) => {
                pids.push(pid);
            },
            _ => {},
        }
        i += 1;
    }
    assert(texts(files@).take(files.len() as int) =~= texts(files@));
    pids
}

/// The control groups among `files` to remove, where `alive` holds the
/// probed processes that were found alive.
pub fn sweep_cgroups(names: &Vec<String>, files: &Vec<String>, alive: &Vec<i32>) -> (remove: Vec<String>)
    ensures
        texts(remove@) == doomed_groups(texts(names@), texts(files@), alive@),
{
    let mut remove: Vec<String> = Vec::new();
    let mut i: usize = 0;
    assert(texts(files@).take(0) =~= Seq::<Seq<char>>::empty());
    assert(texts(remove@) =~= Seq::<Seq<char>>::empty());
    while i < files.len()
        invariant
            i <= files.len(),
            texts(remove@) == doomed_groups(texts(names@), texts(files@).take(i as int), alive@),
        decreases files.len() - i,
    {
        proof {
            let t = texts(files@);
            assert(t.take(i as int + 1).drop_last() =~= t.take(i as int));
            assert(t.take(i as int + 1).last() == files@[i as int]@);
        }
        let check = check_cgroup(names, files[i].as_str());
        if check.is_removed(alive) {
            let ghost before = texts(remove@);
            remove.push(files[i].clone());
            assert(texts(remove@) =~= before.push(files@[i as int]@));
        }
        i += 1;
    }
    assert(texts(files@).take(files.len() as int) =~= texts(files@));
    remove
}

} // verus!
