//! The log of accepted configurations, one file for each sandbox, which is
//! rotated when it has grown too large.

use crate::text::{decimal, push_decimal};
use vstd::prelude::*;
use vstd::string::*;

verus! {

/// The size in bytes above which a configuration log is rotated.
pub const CONFIG_LOG_SIZE: u64 = 10_485_760;

/// Is a log of `len` bytes rotated before the next line is written?
pub fn needs_rotation(len: u64) -> (r: bool)
    ensures
        r == (len > CONFIG_LOG_SIZE),
{
    len > CONFIG_LOG_SIZE
}

/// One step of a rotation. A file that a step does not find is no error.
pub enum FileOp {
    /// Remove this file.
    Remove(String),
    /// Rename the first file to the second.
    Rename(String, String),
}

/// A step of a rotation, with the names as text.
pub enum Step {
    Remove(Seq<char>),
    Rename(Seq<char>, Seq<char>),
}

/// The steps of `ops`, with the names as text.
pub open spec fn steps_of(ops: Seq<FileOp>) -> Seq<Step> {
    Seq::new(
        ops.len(),
        |i: int|
            match ops[i] {
                FileOp::Remove(a) => Step::Remove(a@),
                FileOp::Rename(a, b) => Step::Rename(a@, b@),
            },
    )
}

/// The name of the `i`-th older log of `name`.
pub open spec fn numbered(name: Seq<char>, i: nat) -> Seq<char> {
    name + "."@ + decimal(i)
}

/// The steps that rotate the log `name`, of which `max` older files are
/// kept: the oldest file goes, each other older file gets the next
/// number, the oldest of them first, and the log itself becomes the older
/// file with the number 1.
pub open spec fn rotation(name: Seq<char>, max: nat) -> Seq<Step> {
    seq![Step::Remove(numbered(name, max))] + Seq::new(
        if max >= 1 {
            (max - 1) as nat
        } else {
            0
        },
        |k: int| Step::Rename(numbered(name, (max - 1 - k) as nat), numbered(name, (max - k) as nat)),
    ) + seq![Step::Rename(name, numbered(name, if max >= 1 { 1 } else { 0 }))]
}

fn numbered_name(name: &str, i: u32) -> (s: String)
    ensures
        s@ == numbered(name@, i as nat),
{
    let mut s = name.to_owned();
    s.append(".");
    push_decimal(&mut s, i as u64);
    assert(s@ =~= numbered(name@, i as nat));
    s
}

/// The steps that rotate the log `name`, of which `max_logs` older files
/// are kept. The caller takes them in order, goes on after a step that
/// fails, and then opens the log anew.
pub fn rotation_plan(name: &str, max_logs: u32) -> (ops: Vec<FileOp>)
    ensures
        steps_of(ops@) == rotation(name@, max_logs as nat),
{
    let ghost want = rotation(name@, max_logs as nat);
    let mut ops: Vec<FileOp> = Vec::new();
    ops.push(FileOp::Remove(numbered_name(name, max_logs)));
    let mut i: u32 = if max_logs >= 1 {
        max_logs - 1
    } else {
        0
    };
    while i >= 1
        invariant
            i <= max_logs,
            max_logs >= 1 ==> i < max_logs,
            max_logs == 0 ==> i == 0,
            want == rotation(name@, max_logs as nat),
            ops@.len() == (if max_logs >= 1 {
                max_logs - i
            } else {
                1
            }),
            forall|k: int| 0 <= k < ops@.len() ==> steps_of(ops@)[k] == want[k],
        decreases i,
    {
        let ghost before = steps_of(ops@);
        let ghost n = ops@.len() as int;
        ops.push(FileOp::Rename(numbered_name(name, i), numbered_name(name, i + 1)));
        proof {
            assert(steps_of(ops@)[n] == Step::Rename(
                numbered(name@, i as nat),
                numbered(name@, (i + 1) as nat),
            ));
            assert(want[n] == Step::Rename(
                numbered(name@, (max_logs - 1 - (n - 1)) as nat),
                numbered(name@, (max_logs - (n - 1)) as nat),
            ));
            assert forall|k: int| 0 <= k < ops@.len() implies steps_of(ops@)[k] == want[k] by {
                if k < n {
                    assert(steps_of(ops@)[k] == before[k]);
                }
            }
        }
        i -= 1;
    }
    let ghost before = steps_of(ops@);
    let ghost n = ops@.len() as int;
    let first: u32 = if max_logs >= 1 {
        1
    } else {
        0
    };
    ops.push(FileOp::Rename(name.to_owned(), numbered_name(name, first)));
    proof {
        assert forall|k: int| 0 <= k < ops@.len() implies steps_of(ops@)[k] == want[k] by {
            if k < n {
                assert(steps_of(ops@)[k] == before[k]);
            }
        }
        assert(steps_of(ops@) =~= want);
    }
    ops
}

/// The line that records the configuration `json` accepted at `time`.
pub fn log_line(time: &str, json: &str) -> (line: String)
    ensures
        line@ == time@ + " "@ + json@ + "\n"@,
{
    let mut line = time.to_owned();
    line.append(" ");
    line.append(json);
    line.append("\n");
    assert(line@ =~= time@ + " "@ + json@ + "\n"@);
    line
}

} // verus!
