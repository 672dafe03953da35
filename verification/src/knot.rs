//! The launcher of one container instance: the checks it makes before it
//! starts the workload, the names and settings it derives, and the state
//! machine by which it supervises the workload.

use crate::container::Namespace;
use crate::id_map::{
    check_mapping, check_mapping_spec, in_mapping, in_mapping_spec, in_range, in_range_spec, IdMap,
    Range,
};
use crate::text::{before_first, decimal, head_before, push_decimal, push_replaced, replaced};
use vstd::prelude::*;
use vstd::string::*;

verus! {

/// The number of the signal that asks a process to stop.
pub const SIGTERM: i32 = 15;

/// The number of the signal that stops a process at once.
pub const SIGKILL: i32 = 9;

/// The exit code of a launcher whose workload outlived the kill timeout.
pub const EXIT_HANGING: i32 = 3;

/// The exit code of a launcher whose workload ended abnormally.
pub const EXIT_ABNORMAL: i32 = 2;

/// What a container is: a long-running daemon or a command that runs once.
#[derive(Clone, Copy, Debug, PartialEq, Eq, Structural)]
pub enum Kind {
    Daemon,
    Command,
}

/// How a process ended: by itself, with an exit code, or killed by a
/// signal.
#[derive(Clone, Copy, Debug, PartialEq, Eq, Structural)]
pub enum ExitStatus {
    Exited(i32),
    Signaled(i32),
}

impl ExitStatus {
    /// The exit code, if the process ended by itself.
    pub fn code(&self) -> (c: Option<i32>)
        ensures
            c == (match *self {
                ExitStatus::Exited(e) => Some(e),
                ExitStatus::Signaled(_) => None,
            }),
    {
        match *self {
            ExitStatus::Exited(e) => Some(e),
            ExitStatus::Signaled(_) => None,
        }
    }

    /// The signal, if one killed the process.
    pub fn signal(&self) -> (s: Option<i32>)
        ensures
            s == (match *self {
                ExitStatus::Exited(_) => None,
                ExitStatus::Signaled(sig) => Some(sig),
            }),
    {
        match *self {
            ExitStatus::Exited(_) => None,
            ExitStatus::Signaled(sig) => Some(sig),
        }
    }
}

/// Why a container is refused before its workload starts.
#[derive(Clone, Copy, Debug, PartialEq, Eq, Structural)]
pub enum StartError {
    /// The container declares another kind than the process entry.
    KindMismatch(Kind, Kind),
    /// The user id is outside the container's uid map.
    UserNotMapped(u32),
    /// The user id is outside the sandbox's allowed users.
    UserNotAllowed(u32),
    /// Neither the container nor the sandbox names a user id.
    NoUser,
    /// The group id is outside the container's gid map.
    GroupNotMapped(u32),
    /// The group id is outside the sandbox's allowed groups.
    GroupNotAllowed(u32),
    /// Neither the container nor the sandbox names a group id.
    NoGroup,
    /// The uid map leaves the sandbox's allowed users.
    BadUidMap,
    /// The gid map leaves the sandbox's allowed groups.
    BadGidMap,
    /// Secrets are given both inline and in a file.
    SecretsExclusive,
}

/// The name of a kind, as messages show it.
pub open spec fn kind_name(k: Kind) -> Seq<char> {
    match k {
        Kind::Daemon => "Daemon"@,
        Kind::Command => "Command"@,
    }
}

fn push_kind(s: &mut String, k: Kind)
    ensures
        final(s)@ == old(s)@ + kind_name(k),
{
    match k {
        Kind::Daemon => s.append("Daemon"),
        Kind::Command => s.append("Command"),
    }
}

impl StartError {
    /// The text of the refusal.
    pub open spec fn message_spec(self) -> Seq<char> {
        match self {
            StartError::KindMismatch(a, b) => "Container type mismatch "@ + kind_name(a) + " != "@
                + kind_name(b),
            StartError::UserNotMapped(id) => "User is not in mapped range (uid: "@ + decimal(
                id as nat,
            ) + ")"@,
            StartError::UserNotAllowed(id) => "User is not in allowed range (uid: "@ + decimal(
                id as nat,
            ) + ")"@,
            StartError::NoUser => "No user id specified and no default is found"@,
            StartError::GroupNotMapped(id) => "Group is not in mapped range (gid: "@ + decimal(
                id as nat,
            ) + ")"@,
            StartError::GroupNotAllowed(id) => "Group is not in allowed range (gid: "@ + decimal(
                id as nat,
            ) + ")"@,
            StartError::NoGroup => "No group id specified and no default is found"@,
            StartError::BadUidMap => "Bad uid mapping (probably doesn't match allow_users)"@,
            StartError::BadGidMap => "Bad gid mapping (probably doesn't match allow_groups)"@,
            StartError::SecretsExclusive =>
                "secret-environ and secret-environ-file settings are mutually exclusive"@,
        }
    }

    /// The text of the refusal.
    pub fn message(&self) -> (s: String)
        ensures
            s@ == self.message_spec(),
    {
        match *self {
            StartError::KindMismatch(a, b) => {
                let mut s = String::from_str("Container type mismatch ");
                push_kind(&mut s, a);
                s.append(" != ");
                push_kind(&mut s, b);
                s
            },
            StartError::UserNotMapped(id) => {
                let mut s = String::from_str("User is not in mapped range (uid: ");
                push_decimal(&mut s, id as u64);
                s.append(")");
                s
            },
            StartError::UserNotAllowed(id) => {
                let mut s = String::from_str("User is not in allowed range (uid: ");
                push_decimal(&mut s, id as u64);
                s.append(")");
                s
            },
            StartError::NoUser => String::from_str("No user id specified and no default is found"),
            StartError::GroupNotMapped(id) => {
                let mut s = String::from_str("Group is not in mapped range (gid: ");
                push_decimal(&mut s, id as u64);
                s.append(")");
                s
            },
            StartError::GroupNotAllowed(id) => {
                let mut s = String::from_str("Group is not in allowed range (gid: ");
                push_decimal(&mut s, id as u64);
                s.append(")");
                s
            },
            StartError::NoGroup => String::from_str(
                "No group id specified and no default is found",
            ),
            StartError::BadUidMap => String::from_str(
                "Bad uid mapping (probably doesn't match allow_users)",
            ),
            StartError::BadGidMap => String::from_str(
                "Bad gid mapping (probably doesn't match allow_groups)",
            ),
            StartError::SecretsExclusive => String::from_str(
                "secret-environ and secret-environ-file settings are mutually exclusive",
            ),
        }
    }
}

/// A container may run as the kind that its process entry declares, and as
/// no other.
pub fn check_kind(container: Kind, declared: Kind) -> (r: Result<(), StartError>)
    ensures
        container == declared ==> r == Ok::<(), StartError>(()),
        container != declared ==> r == Err::<(), StartError>(
            StartError::KindMismatch(container, declared),
        ),
{
    if container == declared {
        Ok(())
    } else {
        Err(StartError::KindMismatch(container, declared))
    }
}

/// The identifier that a container runs under: its own, or else the
/// sandbox's default.
pub open spec fn chosen_id(own: Option<u32>, default: Option<u32>) -> Option<u32> {
    if own is Some {
        own
    } else {
        default
    }
}

/// An identifier may be used if the container's map holds it or, where the
/// container has no map, if the sandbox allows it.
pub open spec fn id_usable(id: u32, map: Seq<IdMap>, allowed: Seq<Range>) -> bool {
    if map.len() > 0 {
        in_mapping_spec(map, id)
    } else {
        in_range_spec(allowed, id)
    }
}

/// The user that a container runs as, or why it may not run.
pub open spec fn user_verdict(
    own: Option<u32>,
    default: Option<u32>,
    map: Seq<IdMap>,
    allowed: Seq<Range>,
) -> Result<u32, StartError> {
    match chosen_id(own, default) {
        None => Err(StartError::NoUser),
        Some(id) => if id_usable(id, map, allowed) {
            Ok(id)
        } else if map.len() > 0 {
            Err(StartError::UserNotMapped(id))
        } else {
            Err(StartError::UserNotAllowed(id))
        },
    }
}

/// The group that a container runs as, or why it may not run.
pub open spec fn group_verdict(
    own: Option<u32>,
    default: Option<u32>,
    map: Seq<IdMap>,
    allowed: Seq<Range>,
) -> Result<u32, StartError> {
    match chosen_id(own, default) {
        None => Err(StartError::NoGroup),
        Some(id) => if id_usable(id, map, allowed) {
            Ok(id)
        } else if map.len() > 0 {
            Err(StartError::GroupNotMapped(id))
        } else {
            Err(StartError::GroupNotAllowed(id))
        },
    }
}

/// What a container asks for and what its sandbox grants, for users or for
/// groups.
pub struct IdRequest<'a> {
    /// The identifier that the container names, if any.
    pub own: Option<u32>,
    /// The sandbox's default identifier, if any.
    pub default: Option<u32>,
    /// The container's identifier map.
    pub map: &'a Vec<IdMap>,
    /// The ranges that the sandbox allows.
    pub allowed: &'a Vec<Range>,
}

impl<'a> IdRequest<'a> {
    /// The request names an identifier that may be used, and its map stays
    /// within what the sandbox allows.
    pub open spec fn granted(self) -> bool {
        &&& chosen_id(self.own, self.default) is Some
        &&& id_usable(chosen_id(self.own, self.default)->0, self.map@, self.allowed@)
        &&& check_mapping_spec(self.allowed@, self.map@)
    }
}

/// The user and group that a container runs as, or the first reason why it
/// may not run: the user is judged first, then the group, then the uid map,
/// then the gid map.
pub open spec fn ids_verdict(users: IdRequest, groups: IdRequest) -> Result<(u32, u32), StartError> {
    match user_verdict(users.own, users.default, users.map@, users.allowed@) {
        Err(e) => Err(e),
        Ok(uid) => match group_verdict(groups.own, groups.default, groups.map@, groups.allowed@) {
            Err(e) => Err(e),
            Ok(gid) => if !check_mapping_spec(users.allowed@, users.map@) {
                Err(StartError::BadUidMap)
            } else if !check_mapping_spec(groups.allowed@, groups.map@) {
                Err(StartError::BadGidMap)
            } else {
                Ok((uid, gid))
            },
        },
    }
}

/// Decides the user that a container runs as.
pub fn check_user(own: Option<u32>, default: Option<u32>, map: &Vec<IdMap>, allowed: &Vec<Range>) -> (r:
    Result<u32, StartError>)
    ensures
        r == user_verdict(own, default, map@, allowed@),
{
    let chosen = if own.is_some() {
        own
    } else {
        default
    };
    match chosen {
        None => Err(StartError::NoUser),
        Some(id) => {
            if map.len() > 0 {
                if in_mapping(map, id) {
                    Ok(id)
                } else {
                    Err(StartError::UserNotMapped(id))
                }
            } else if in_range(allowed, id) {
                Ok(id)
            } else {
                Err(StartError::UserNotAllowed(id))
            }
        },
    }
}

/// Decides the group that a container runs as.
pub fn check_group(own: Option<u32>, default: Option<u32>, map: &Vec<IdMap>, allowed: &Vec<Range>) -> (r:
    Result<u32, StartError>)
    ensures
        r == group_verdict(own, default, map@, allowed@),
{
    let chosen = if own.is_some() {
        own
    } else {
        default
    };
    match chosen {
        None => Err(StartError::NoGroup),
        Some(id) => {
            if map.len() > 0 {
                if in_mapping(map, id) {
                    Ok(id)
                } else {
                    Err(StartError::GroupNotMapped(id))
                }
            } else if in_range(allowed, id) {
                Ok(id)
            } else {
                Err(StartError::GroupNotAllowed(id))
            }
        },
    }
}

/// Decides the user and group that a container runs as. It runs exactly
/// when both requests are granted.
pub fn check_ids(users: IdRequest, groups: IdRequest) -> (r: Result<(u32, u32), StartError>)
    ensures
        r == ids_verdict(users, groups),
        r is Ok <==> users.granted() && groups.granted(),
        r is Ok ==> r->Ok_0 == (
            chosen_id(users.own, users.default)->0,
            chosen_id(groups.own, groups.default)->0,
        ),
{
    let uid = match check_user(users.own, users.default, users.map, users.allowed) {
        Ok(uid) => uid,
        Err(e) => {
            return Err(e);
        },
    };
    let gid = match check_group(groups.own, groups.default, groups.map, groups.allowed) {
        Ok(gid) => gid,
        Err(e) => {
            return Err(e);
        },
    };
    if !check_mapping(users.allowed, users.map) {
        return Err(StartError::BadUidMap);
    }
    if !check_mapping(groups.allowed, groups.map) {
        return Err(StartError::BadGidMap);
    }
    Ok((uid, gid))
}

/// A container starts only with identifiers that its sandbox grants: with
/// no map of its own, its identifier lies in an allowed range; with a map,
/// the map holds the identifier and stays within the allowed ranges.
pub proof fn lemma_started_ids_granted(users: IdRequest, groups: IdRequest)
    requires
        ids_verdict(users, groups) is Ok,
    ensures
        ids_verdict(users, groups)->Ok_0.0 == chosen_id(users.own, users.default)->0,
        ids_verdict(users, groups)->Ok_0.1 == chosen_id(groups.own, groups.default)->0,
        users.map@.len() == 0 ==> in_range_spec(
            users.allowed@,
            ids_verdict(users, groups)->Ok_0.0,
        ),
        users.map@.len() > 0 ==> check_mapping_spec(users.allowed@, users.map@) && in_mapping_spec(
            users.map@,
            ids_verdict(users, groups)->Ok_0.0,
        ),
        groups.map@.len() == 0 ==> in_range_spec(
            groups.allowed@,
            ids_verdict(users, groups)->Ok_0.1,
        ),
        groups.map@.len() > 0 ==> check_mapping_spec(groups.allowed@, groups.map@)
            && in_mapping_spec(groups.map@, ids_verdict(users, groups)->Ok_0.1),
{
}

/// The control group of one instance: under `parent`, the instance's name
/// with every `/` written as `:`, and the suffix `.scope`.
pub open spec fn scope_name_spec(parent: Seq<char>, name: Seq<char>) -> Seq<char> {
    parent + "/"@ + replaced(name, '/', ":"@) + ".scope"@
}

/// The name of the control group that the instance `name` joins.
pub fn scope_name(parent: &str, name: &str) -> (r: String)
    ensures
        r@ == scope_name_spec(parent@, name@),
{
    let mut r = parent.to_owned();
    r.append("/");
    push_replaced(&mut r, name, '/', ":");
    r.append(".scope");
    r
}

/// A controller of the control-group hierarchy.
#[derive(Clone, Copy, Debug, PartialEq, Eq, Structural)]
pub enum Controller {
    Memory,
    Cpu,
}

/// One limit to write into a control file of the instance's group.
pub struct Limit {
    pub controller: Controller,
    /// The name of the control file.
    pub file: String,
    /// The decimal value to write.
    pub value: String,
    /// Whether a missing control file is passed over in silence.
    pub if_exists: bool,
}

/// What `limits` returns for a memory limit and a cpu share: the memory
/// limit, the same limit for memory and swap where the kernel offers that
/// file, and the cpu shares.
pub open spec fn limits_spec(memory_limit: u64, cpu_shares: u64, l: Seq<Limit>) -> bool {
    &&& l.len() == 3
    &&& l[0].controller == Controller::Memory
    &&& l[0].file@ == "memory.limit_in_bytes"@
    &&& l[0].value@ == decimal(memory_limit as nat)
    &&& !l[0].if_exists
    &&& l[1].controller == Controller::Memory
    &&& l[1].file@ == "memory.memsw.limit_in_bytes"@
    &&& l[1].value@ == decimal(memory_limit as nat)
    &&& l[1].if_exists
    &&& l[2].controller == Controller::Cpu
    &&& l[2].file@ == "cpu.shares"@
    &&& l[2].value@ == decimal(cpu_shares as nat)
    &&& !l[2].if_exists
}

/// The limits to apply to an instance's control group, in the order in
/// which they are written. A limit that cannot be written does not stop the
/// launch.
pub fn limits(memory_limit: u64, cpu_shares: u64) -> (l: Vec<Limit>)
    ensures
        limits_spec(memory_limit, cpu_shares, l@),
{
    let mut memory = String::new();
    push_decimal(&mut memory, memory_limit);
    let mut swap = String::new();
    push_decimal(&mut swap, memory_limit);
    let mut shares = String::new();
    push_decimal(&mut shares, cpu_shares);
    let mut l: Vec<Limit> = Vec::new();
    l.push(
        Limit {
            controller: Controller::Memory,
            file: String::from_str("memory.limit_in_bytes"),
            value: memory,
            if_exists: false,
        },
    );
    l.push(
        Limit {
            controller: Controller::Memory,
            file: String::from_str("memory.memsw.limit_in_bytes"),
            value: swap,
            if_exists: true,
        },
    );
    l.push(
        Limit {
            controller: Controller::Cpu,
            file: String::from_str("cpu.shares"),
            value: shares,
            if_exists: false,
        },
    );
    assert(memory@ =~= decimal(memory_limit as nat));
    assert(swap@ =~= decimal(memory_limit as nat));
    assert(shares@ =~= decimal(cpu_shares as nat));
    l
}

/// Where a container's secrets come from.
#[derive(Clone, Copy, Debug, PartialEq, Eq, Structural)]
pub enum SecretSource {
    /// The container has no secrets: no key is read.
    Nothing,
    /// The secrets stand in the container's configuration.
    Inline,
    /// The secrets stand in a file of the image.
    File,
}

/// Where the secrets come from, given whether a secrets file is named and
/// how many secrets stand inline. To give both is an error.
pub fn secret_source(has_file: bool, inline: usize) -> (r: Result<SecretSource, StartError>)
    ensures
        has_file && inline > 0 ==> r == Err::<SecretSource, StartError>(
            StartError::SecretsExclusive,
        ),
        has_file && inline == 0 ==> r == Ok::<SecretSource, StartError>(SecretSource::File),
        !has_file && inline > 0 ==> r == Ok::<SecretSource, StartError>(SecretSource::Inline),
        !has_file && inline == 0 ==> r == Ok::<SecretSource, StartError>(SecretSource::Nothing),
{
    if has_file {
        if inline > 0 {
            Err(StartError::SecretsExclusive)
        } else {
            Ok(SecretSource::File)
        }
    } else if inline > 0 {
        Ok(SecretSource::Inline)
    } else {
        Ok(SecretSource::Nothing)
    }
}

/// Which identifier maps the workload's user namespace gets.
#[derive(Clone, Copy, Debug, PartialEq, Eq, Structural)]
pub enum MapSource {
    /// The sandbox's maps.
    Sandbox,
    /// The container's maps.
    Container,
    /// None: no user namespace is set up.
    Unmapped,
}

/// The sandbox's maps come before the container's; either pair counts as
/// soon as its uid map or its gid map has an entry.
pub fn id_map_source(
    sandbox_uid: &Vec<IdMap>,
    sandbox_gid: &Vec<IdMap>,
    container_uid: &Vec<IdMap>,
    container_gid: &Vec<IdMap>,
) -> (r: MapSource)
    ensures
        sandbox_uid@.len() > 0 || sandbox_gid@.len() > 0 ==> r == MapSource::Sandbox,
        sandbox_uid@.len() == 0 && sandbox_gid@.len() == 0 && (container_uid@.len() > 0
            || container_gid@.len() > 0) ==> r == MapSource::Container,
        sandbox_uid@.len() == 0 && sandbox_gid@.len() == 0 && container_uid@.len() == 0
            && container_gid@.len() == 0 ==> r == MapSource::Unmapped,
{
    if sandbox_uid.len() > 0 || sandbox_gid.len() > 0 {
        MapSource::Sandbox
    } else if container_uid.len() > 0 || container_gid.len() > 0 {
        MapSource::Container
    } else {
        MapSource::Unmapped
    }
}

/// Where the workload's standard output and error go.
#[derive(Clone, Copy, Debug, PartialEq, Eq, Structural)]
pub enum Output {
    /// They stay the launcher's own.
    Inherit,
    /// The container's own file, opened anew at each start.
    OwnFile,
    /// The sandbox's log of starts and stops on the host.
    HostLog,
}

/// An interactive container keeps the launcher's output. Any other writes
/// to its own file if it names one, else to the sandbox's host log.
pub fn output_plan(interactive: bool, has_file: bool) -> (r: Output)
    ensures
        interactive ==> r == Output::Inherit,
        !interactive && has_file ==> r == Output::OwnFile,
        !interactive && !has_file ==> r == Output::HostLog,
{
    if interactive {
        Output::Inherit
    } else if has_file {
        Output::OwnFile
    } else {
        Output::HostLog
    }
}

/// The views of a list of variable assignments.
pub open spec fn assignments(v: Seq<(String, String)>) -> Seq<(Seq<char>, Seq<char>)> {
    Seq::new(v.len(), |i: int| (v[i].0@, v[i].1@))
}

/// The workload's environment, as assignments made in this order to an
/// empty environment: `TERM`, the launcher's own or `dumb`; the
/// container's variables; `LITHOS_NAME`; `LITHOS_CONFIG`.
pub open spec fn environment_spec(
    term: Option<Seq<char>>,
    environ: Seq<(Seq<char>, Seq<char>)>,
    name: Seq<char>,
    config: Seq<char>,
) -> Seq<(Seq<char>, Seq<char>)> {
    seq![("TERM"@, if term is Some { term->0 } else { "dumb"@ })] + environ + seq![
        ("LITHOS_NAME"@, name),
        ("LITHOS_CONFIG"@, config),
    ]
}

/// The text of a string that may be absent.
pub open spec fn text_of(o: Option<String>) -> Option<Seq<char>> {
    match o {
        Some(t) => Some(t@),
        None => None,
    }
}

/// The assignments that make the workload's environment. A later
/// assignment to a name replaces an earlier one.
pub fn workload_environment(
    term: Option<String>,
    environ: Vec<(String, String)>,
    name: &str,
    config: &str,
) -> (env: Vec<(String, String)>)
    ensures
        assignments(env@) == environment_spec(
            text_of(term),
            assignments(environ@),
            name@,
            config@,
        ),
{
    let ghost want = environment_spec(text_of(term), assignments(environ@), name@, config@);
    let mut env: Vec<(String, String)> = Vec::new();
    let term_value = match term {
        Some(t) => t,
        None => String::from_str("dumb"),
    };
    env.push((String::from_str("TERM"), term_value));
    let mut environ = environ;
    env.append(&mut environ);
    env.push((String::from_str("LITHOS_NAME"), name.to_owned()));
    env.push((String::from_str("LITHOS_CONFIG"), config.to_owned()));
    assert(assignments(env@) =~= want);
    env
}

/// Does an exit with code `c` count as normal? With a list of normal exit
/// codes, the code must be on it; without one, only a command may end,
/// and only with code 0.
pub open spec fn normal_code(kind: Kind, codes: Seq<i32>, c: i32) -> bool {
    if codes.len() == 0 {
        kind != Kind::Daemon && c == 0
    } else {
        codes.contains(c)
    }
}

/// Does a workload that ended with `status` leave the launcher's exit code
/// at zero? It does if the stop signal killed it, or if it ended with a
/// normal code.
pub open spec fn clean_end(kind: Kind, codes: Seq<i32>, status: ExitStatus) -> bool {
    match status {
        ExitStatus::Signaled(sig) => sig == SIGTERM,
        ExitStatus::Exited(c) => normal_code(kind, codes, c),
    }
}

/// Is `c` one of `codes`?
pub fn holds_code(codes: &Vec<i32>, c: i32) -> (r: bool)
    ensures
        r == codes@.contains(c),
{
    let mut i: usize = 0;
    while i < codes.len()
        invariant
            i <= codes.len(),
            forall|k: int| 0 <= k < i ==> codes@[k] != c,
        decreases codes.len() - i,
    {
        if codes[i] == c {
            return true;
        }
        i += 1;
    }
    false
}

/// Decides whether a workload's end was a clean one.
pub fn is_clean_end(kind: Kind, codes: &Vec<i32>, status: ExitStatus) -> (r: bool)
    ensures
        r == clean_end(kind, codes@, status),
{
    match status {
        ExitStatus::Signaled(sig) => sig == SIGTERM,
        ExitStatus::Exited(c) => {
            if codes.len() == 0 {
                kind != Kind::Daemon && c == 0
            } else {
                holds_code(codes, c)
            }
        },
    }
}

/// What the launcher does once its wait for signals has ended.
#[derive(Clone, Copy, Debug, PartialEq, Eq, Structural)]
pub enum Next {
    /// Exit with this code.
    Exit(i32),
    /// Sleep for so many milliseconds, then start the workload again.
    Restart(u64),
}

/// What the launcher keeps track of while it supervises its workload. Times
/// are instants of a monotonic clock, in milliseconds.
#[derive(Clone, Copy, Debug)]
pub struct Supervision {
    /// Whether the launcher exits when the workload has ended.
    pub should_exit: bool,
    /// The code that the launcher then exits with.
    pub exit_code: i32,
    /// The workload's process, once it is started.
    pub child: Option<i32>,
    /// When the current run began.
    pub start: u64,
    /// Whether a request to stop was handed on to the workload in this
    /// run. It is handed on once, at the first request.
    pub killed: bool,
    /// Whether the workload got the request that was handed on.
    pub delivered: bool,
    /// Whether the workload has ended and was reaped.
    pub dead: bool,
    /// Until when the launcher waits for signals: without end if `None`.
    pub deadline: Option<u64>,
}

impl Supervision {
    /// Before the first run: nothing is started, the exit code stands at
    /// [`EXIT_ABNORMAL`]. Only a daemon that is restarted in place goes on
    /// after its workload has ended.
    pub open spec fn initial(kind: Kind, restart_process_only: bool) -> Supervision {
        Supervision {
            should_exit: kind != Kind::Daemon || !restart_process_only,
            exit_code: EXIT_ABNORMAL,
            child: None,
            start: 0,
            killed: false,
            delivered: false,
            dead: false,
            deadline: None,
        }
    }

    /// A run begins at `now`: no workload yet, no deadline.
    pub open spec fn begun(self, now: u64) -> Supervision {
        Supervision {
            child: None,
            start: now,
            killed: false,
            delivered: false,
            dead: false,
            deadline: None,
            ..self
        }
    }

    /// The workload runs as process `pid`.
    pub open spec fn with_child(self, pid: i32) -> Supervision {
        Supervision { child: Some(pid), ..self }
    }

    /// An interrupt from the terminal: it reaches the workload by itself,
    /// so the launcher only notes that it exits afterwards.
    pub open spec fn on_interrupt(self) -> Supervision {
        Supervision { should_exit: true, ..self }
    }

    /// A request to stop: the launcher will exit, with code zero.
    pub open spec fn on_terminate(self) -> Supervision {
        Supervision { should_exit: true, exit_code: 0, ..self }
    }

    /// The process to hand a request to stop on to: the workload at the
    /// first request of a run, nobody at a later one.
    pub open spec fn forward_to(self) -> Option<i32> {
        if self.killed {
            None
        } else {
            self.child
        }
    }

    /// The first request to stop was handed on at `now`, and `delivered`
    /// says whether the workload got it: from `now` the workload has
    /// `kill_timeout` milliseconds to end, whether it got the request or
    /// not. The deadline then stands: a report on a later request changes
    /// nothing.
    pub open spec fn on_forwarded(self, delivered: bool, now: u64, kill_timeout: u64) -> Supervision {
        if self.killed {
            self
        } else {
            Supervision {
                killed: true,
                delivered,
                deadline: Some((now + kill_timeout) as u64),
                ..self
            }
        }
    }

    /// Process `pid` was reaped at `now`. If it is the workload, the
    /// workload is dead, a clean end sets the exit code to zero, and the
    /// wait for signals ends at once.
    pub open spec fn on_reaped(self, pid: i32, clean: bool, now: u64) -> Supervision {
        if self.child == Some(pid) {
            Supervision {
                dead: true,
                exit_code: if clean {
                    0
                } else {
                    self.exit_code
                },
                deadline: Some(now),
                ..self
            }
        } else {
            self
        }
    }

    /// What follows when the wait for signals ends at `now`: a workload
    /// that is still alive has outlived the kill timeout, and the launcher
    /// exits with [`EXIT_HANGING`]. After a dead one the launcher exits
    /// with its exit code, or sleeps until `restart_timeout` milliseconds
    /// have passed since the run began and starts it again.
    pub open spec fn outcome(self, now: u64, restart_timeout: u64) -> Next {
        if !self.dead {
            Next::Exit(EXIT_HANGING)
        } else if self.should_exit {
            Next::Exit(self.exit_code)
        } else if now - self.start >= restart_timeout {
            Next::Restart(0)
        } else {
            Next::Restart((restart_timeout - (now - self.start)) as u64)
        }
    }

    /// The state before the first run.
    pub fn new(kind: Kind, restart_process_only: bool) -> (s: Supervision)
        ensures
            s == Supervision::initial(kind, restart_process_only),
    {
        Supervision {
            should_exit: kind != Kind::Daemon || !restart_process_only,
            exit_code: EXIT_ABNORMAL,
            child: None,
            start: 0,
            killed: false,
            delivered: false,
            dead: false,
            deadline: None,
        }
    }

    /// Begins a run at `now`.
    pub fn begin(&mut self, now: u64)
        ensures
            *final(self) == old(self).begun(now),
    {
        self.child = None;
        self.start = now;
        self.killed = false;
        self.delivered = false;
        self.dead = false;
        self.deadline = None;
    }

    /// Notes the workload's process.
    pub fn spawned(&mut self, pid: i32)
        ensures
            *final(self) == old(self).with_child(pid),
    {
        self.child = Some(pid);
    }

    /// Until when to wait for the next signal: without end if `None`.
    pub fn wait_until(&self) -> (t: Option<u64>)
        ensures
            t == self.deadline,
    {
        self.deadline
    }

    /// Handles an interrupt from the terminal.
    pub fn interrupted(&mut self)
        ensures
            *final(self) == old(self).on_interrupt(),
    {
        self.should_exit = true;
    }

    /// Handles a request to stop, and returns the process to hand it on
    /// to: the workload at the first request of a run, nobody after that.
    /// The caller sends the signal and reports with
    /// [`Supervision::forwarded`].
    pub fn terminate(&mut self) -> (to: Option<i32>)
        ensures
            *final(self) == old(self).on_terminate(),
            to == old(self).forward_to(),
    {
        self.should_exit = true;
        self.exit_code = 0;
        if self.killed {
            None
        } else {
            self.child
        }
    }

    /// Notes that the first request to stop was handed on at `now`, and
    /// arms the kill timeout, which no later request moves.
    pub fn forwarded(&mut self, delivered: bool, now: u64, kill_timeout: u64)
        requires
            now + kill_timeout <= u64::MAX,
        ensures
            *final(self) == old(self).on_forwarded(delivered, now, kill_timeout),
    {
        if !self.killed {
            self.killed = true;
            self.delivered = delivered;
            self.deadline = Some(now + kill_timeout);
        }
    }

    /// Notes that process `pid` ended with `status` and was reaped at
    /// `now`.
    pub fn reaped(&mut self, pid: i32, status: ExitStatus, now: u64, kind: Kind, normal_exit_codes: &Vec<i32>)
        ensures
            *final(self) == old(self).on_reaped(
                pid,
                clean_end(kind, normal_exit_codes@, status),
                now,
            ),
    {
        if self.child == Some(pid) {
            self.dead = true;
            if is_clean_end(kind, normal_exit_codes, status) {
                self.exit_code = 0;
            }
            self.deadline = Some(now);
        }
    }

    /// Decides what follows when the wait for signals has ended at `now`.
    pub fn finish(&self, now: u64, restart_timeout: u64) -> (next: Next)
        requires
            self.start <= now,
        ensures
            next == self.outcome(now, restart_timeout),
    {
        if !self.dead {
            Next::Exit(EXIT_HANGING)
        } else if self.should_exit {
            Next::Exit(self.exit_code)
        } else if now - self.start >= restart_timeout {
            Next::Restart(0)
        } else {
            Next::Restart(restart_timeout - (now - self.start))
        }
    }
}

/// The kill timeout counts from the first request to stop. Once that
/// request was handed on at `t`, whether the workload got it or not, the
/// launcher waits until `t + kill_timeout` and no longer: a later request is
/// not handed on again, and neither it nor an interrupt nor the end of
/// another process moves the deadline. A workload that has not ended by
/// then makes the launcher exit with [`EXIT_HANGING`].
pub proof fn lemma_kill_timeout(
    s: Supervision,
    delivered: bool,
    t: u64,
    kill_timeout: u64,
    other: i32,
    clean: bool,
    later: bool,
    at: u64,
    now: u64,
    restart_timeout: u64,
)
    requires
        t + kill_timeout <= u64::MAX,
        !s.killed,
        !s.dead,
        s.child != Some(other),
    ensures
        ({
            let armed = s.on_terminate().on_forwarded(delivered, t, kill_timeout);
            &&& armed.deadline == Some((t + kill_timeout) as u64)
            &&& armed.forward_to() is None
            &&& armed.on_terminate().forward_to() is None
            &&& armed.on_terminate().on_forwarded(later, at, kill_timeout) == armed.on_terminate()
            &&& armed.on_terminate().deadline == armed.deadline
            &&& armed.on_interrupt().deadline == armed.deadline
            &&& armed.on_interrupt().forward_to() is None
            &&& armed.on_reaped(other, clean, at).deadline == armed.deadline
            &&& armed.on_reaped(other, clean, at).forward_to() is None
            &&& armed.outcome(now, restart_timeout) == Next::Exit(EXIT_HANGING)
            &&& armed.on_terminate().outcome(now, restart_timeout) == Next::Exit(EXIT_HANGING)
            &&& armed.on_interrupt().outcome(now, restart_timeout) == Next::Exit(EXIT_HANGING)
            &&& armed.on_reaped(other, clean, at).outcome(now, restart_timeout) == Next::Exit(
                EXIT_HANGING,
            )
        }),
{
}

/// The launcher exits with code zero after a request to stop, and after a
/// clean end of its workload; any other end leaves the code as it was.
pub proof fn lemma_exit_code(s: Supervision, pid: i32, clean: bool, at: u64)
    ensures
        s.on_terminate().exit_code == 0,
        s.child == Some(pid) && clean ==> s.on_reaped(pid, clean, at).exit_code == 0,
        !clean ==> s.on_reaped(pid, clean, at).exit_code == s.exit_code,
        s.child != Some(pid) ==> s.on_reaped(pid, clean, at).exit_code == s.exit_code,
        s.on_interrupt().exit_code == s.exit_code,
{
}

/// The sandbox of the instance `name`: what stands before the first `/`
/// of the name.
pub fn sandbox_of(name: &str) -> (sandbox: String)
    ensures
        sandbox@ == before_first(name@, '/'),
{
    head_before(name, '/')
}

/// The name under which a sandbox's launchers write to the system log:
/// the master's name for it, a hyphen, the sandbox.
pub fn syslog_name(app_name: &str, sandbox: &str) -> (name: String)
    ensures
        name@ == app_name@ + "-"@ + sandbox@,
{
    let mut name = app_name.to_owned();
    name.append("-");
    name.append(sandbox);
    assert(name@ =~= app_name@ + "-"@ + sandbox@);
    name
}

/// How much is logged.
#[derive(Clone, Copy, Debug, PartialEq, Eq, Structural)]
pub enum LogLevel {
    Error,
    Warn,
    Info,
    Debug,
    Trace,
}

/// The level at which a program logs: what its command line says, else
/// what the sandbox says, else what the master configuration says, else
/// warnings and errors. A setting that names no level counts as absent.
pub fn log_level(cli: Option<LogLevel>, sandbox: Option<LogLevel>, master: Option<LogLevel>) -> (level:
    LogLevel)
    ensures
        cli is Some ==> level == cli->0,
        cli is None && sandbox is Some ==> level == sandbox->0,
        cli is None && sandbox is None && master is Some ==> level == master->0,
        cli is None && sandbox is None && master is None ==> level == LogLevel::Warn,
{
    match cli {
        Some(l) => l,
        None => match sandbox {
            Some(l) => l,
            None => match master {
                Some(l) => l,
                None => LogLevel::Warn,
            },
        },
    }
}

/// The namespaces of a workload: mounts, host name, IPC and pids of its
/// own always, and a network of its own for a bridged container.
pub open spec fn workload_namespaces_spec(bridged: bool) -> Seq<Namespace> {
    seq![Namespace::NewMount, Namespace::NewUts, Namespace::NewIpc, Namespace::NewPid] + (if bridged {
        seq![Namespace::NewNet]
    } else {
        Seq::<Namespace>::empty()
    })
}

/// The namespaces that a launcher gives its workload at each start.
pub fn workload_namespaces(bridged: bool) -> (ns: Vec<Namespace>)
    ensures
        ns@ == workload_namespaces_spec(bridged),
{
    let mut ns: Vec<Namespace> = Vec::new();
    ns.push(Namespace::NewMount);
    ns.push(Namespace::NewUts);
    ns.push(Namespace::NewIpc);
    ns.push(Namespace::NewPid);
    if bridged {
        ns.push(Namespace::NewNet);
    }
    assert(ns@ =~= workload_namespaces_spec(bridged));
    ns
}

/// Does the workload keep the right to bind ports below 1024? Only in a
/// network of its own.
pub fn keeps_net_bind_service(bridged: bool) -> (r: bool)
    ensures
        r == bridged,
{
    bridged
}

} // verus!
