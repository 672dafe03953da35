//! How the tree makes its instances from the configuration: their names,
//! the owner of their sockets, and the command line of their launchers.

use crate::container::Namespace;
use crate::id_map::{map_id, map_id_spec, IdMap};
use crate::knot::{chosen_id, text_of, Kind};
use crate::recover::{shape_of, Shape};
use crate::socket_pool::{Addr, TcpPort};
use crate::text::{decimal, has_suffix, push_decimal, texts};
use crate::tree::Process;
use vstd::prelude::*;
use vstd::string::*;

verus! {

/// The sandbox that the file `file_name` of the sandboxes directory
/// configures: the name without its ending `.yaml`. Other files configure
/// none.
pub open spec fn sandbox_name_spec(file_name: Seq<char>) -> Option<Seq<char>> {
    if ".yaml"@.is_suffix_of(file_name) {
        Some(file_name.take(file_name.len() - 5))
    } else {
        None
    }
}

/// The sandbox that a file of the sandboxes directory configures.
pub fn sandbox_name(file_name: &str) -> (name: Option<String>)
    ensures
        text_of(name) == sandbox_name_spec(file_name@),
{
    proof {
        reveal_strlit(".yaml");
    }
    if has_suffix(file_name, ".yaml") {
        let n = file_name.unicode_len();
        let stem = file_name.substring_char(0, n - 5);
        assert(stem@ =~= file_name@.take(file_name@.len() - 5));
        Some(stem.to_owned())
    } else {
        None
    }
}

/// The file of the processes directory that lists a sandbox's processes:
/// the one that the sandbox names, or else the sandbox's name with the
/// ending `.yaml`.
pub fn processes_file(config_file: Option<&str>, sandbox: &str) -> (file: String)
    ensures
        match config_file {
            Some(f) => file@ == f@,
            None => file@ == sandbox@ + ".yaml"@,
        },
{
    match config_file {
        Some(f) => f.to_owned(),
        None => {
            let mut file = sandbox.to_owned();
            file.append(".yaml");
            file
        },
    }
}

/// The log of a sandbox: the name that the sandbox gives, or else the
/// sandbox's name with the ending `.log`.
pub fn log_file_name(log_file: Option<&str>, sandbox: &str) -> (file: String)
    ensures
        match log_file {
            Some(f) => file@ == f@,
            None => file@ == sandbox@ + ".log"@,
        },
{
    match log_file {
        Some(f) => f.to_owned(),
        None => {
            let mut file = sandbox.to_owned();
            file.append(".log");
            file
        },
    }
}

/// Does the tree keep processes of this kind running? Only daemons.
pub fn is_supervised(kind: Kind) -> (r: bool)
    ensures
        r == (kind == Kind::Daemon),
{
    kind == Kind::Daemon
}

/// The identifier on the host for `id`: what `map` makes of it, or 0 if
/// the map does not hold it.
pub open spec fn mapped_or_root(map: Seq<IdMap>, id: u32) -> u32 {
    match map_id_spec(map, id) {
        Some(outside) => outside,
        None => 0,
    }
}

/// The user and group on the host that own the sockets of a container:
/// the container's own user and group, else the sandbox's defaults, else
/// 0; translated by the sandbox's maps if it has a uid map, else by the
/// container's if it has one.
pub open spec fn socket_owner(
    user: Option<u32>,
    default_user: Option<u32>,
    group: Option<u32>,
    default_group: Option<u32>,
    sandbox_uid: Seq<IdMap>,
    sandbox_gid: Seq<IdMap>,
    container_uid: Seq<IdMap>,
    container_gid: Seq<IdMap>,
) -> (u32, u32) {
    let uid = match chosen_id(user, default_user) {
        Some(id) => id,
        None => 0,
    };
    let gid = match chosen_id(group, default_group) {
        Some(id) => id,
        None => 0,
    };
    if sandbox_uid.len() > 0 {
        (mapped_or_root(sandbox_uid, uid), mapped_or_root(sandbox_gid, gid))
    } else if container_uid.len() > 0 {
        (mapped_or_root(container_uid, uid), mapped_or_root(container_gid, gid))
    } else {
        (uid, gid)
    }
}

fn pick(own: Option<u32>, default: Option<u32>) -> (id: u32)
    ensures
        id == (match chosen_id(own, default) {
            Some(id) => id,
            None => 0,
        }),
{
    match own {
        Some(id) => id,
        None => match default {
            Some(id) => id,
            None => 0,
        },
    }
}

fn translate_or_root(map: &Vec<IdMap>, id: u32) -> (r: u32)
    ensures
        r == mapped_or_root(map@, id),
{
    match map_id(map, id) {
        Some(outside) => outside,
        None => 0,
    }
}

/// The identifiers of a container and of its sandbox.
pub struct Owners<'a> {
    pub user: Option<u32>,
    pub default_user: Option<u32>,
    pub group: Option<u32>,
    pub default_group: Option<u32>,
    pub sandbox_uid_map: &'a Vec<IdMap>,
    pub sandbox_gid_map: &'a Vec<IdMap>,
    pub container_uid_map: &'a Vec<IdMap>,
    pub container_gid_map: &'a Vec<IdMap>,
}

/// The user and group on the host that own the sockets of a container.
pub fn socket_credentials(o: Owners) -> (cred: (u32, u32))
    ensures
        cred == socket_owner(
            o.user,
            o.default_user,
            o.group,
            o.default_group,
            o.sandbox_uid_map@,
            o.sandbox_gid_map@,
            o.container_uid_map@,
            o.container_gid_map@,
        ),
{
    let uid = pick(o.user, o.default_user);
    let gid = pick(o.group, o.default_group);
    if o.sandbox_uid_map.len() > 0 {
        (translate_or_root(o.sandbox_uid_map, uid), translate_or_root(o.sandbox_gid_map, gid))
    } else if o.container_uid_map.len() > 0 {
        (translate_or_root(o.container_uid_map, uid), translate_or_root(o.container_gid_map, gid))
    } else {
        (uid, gid)
    }
}

/// The name of instance `index` of the process family `family` in
/// `sandbox`.
pub open spec fn instance_name_spec(sandbox: Seq<char>, family: Seq<char>, index: nat) -> Seq<char> {
    sandbox + "/"@ + family + "."@ + decimal(index)
}

/// The name of an instance.
pub fn instance_name(sandbox: &str, family: &str, index: u64) -> (name: String)
    ensures
        name@ == instance_name_spec(sandbox@, family@, index as nat),
{
    let mut name = sandbox.to_owned();
    name.append("/");
    name.append(family);
    name.append(".");
    push_decimal(&mut name, index);
    assert(name@ =~= instance_name_spec(sandbox@, family@, index as nat));
    name
}

/// The addresses of `ports`, in order.
pub open spec fn addresses(ports: Seq<TcpPort>) -> Seq<Addr> {
    Seq::new(ports.len(), |i: int| ports[i].addr_spec())
}

/// What the tree knows of an instance when it reads the configuration.
pub struct Instance<'a> {
    pub sandbox: &'a str,
    pub family: &'a str,
    pub index: u64,
    /// The instance's configuration as its launcher gets it.
    pub config: String,
    /// In milliseconds.
    pub restart_timeout: u64,
    pub ports: Vec<TcpPort>,
    pub socket_cred: (u32, u32),
    pub bridged_network: bool,
}

/// The record of an instance read at `now`: it may start again
/// `restart_timeout` after `now`.
pub fn new_process(i: Instance, now: u64) -> (p: Process)
    requires
        now + i.restart_timeout <= u64::MAX,
    ensures
        p.name@ == instance_name_spec(i.sandbox@, i.family@, i.index as nat),
        p.base_name.0@ == i.sandbox@,
        p.base_name.1@ == i.family@,
        p.config == i.config,
        p.restart_timeout == i.restart_timeout,
        p.restart_min == now + i.restart_timeout,
        p.ports == i.ports,
        p.addresses@ == addresses(i.ports@),
        p.socket_cred == i.socket_cred,
        p.bridged_network == i.bridged_network,
{
    let mut addrs: Vec<Addr> = Vec::new();
    let mut k: usize = 0;
    while k < i.ports.len()
        invariant
            k <= i.ports.len(),
            addrs@.len() == k,
            forall|j: int| 0 <= j < k ==> addrs@[j] == i.ports@[j].addr_spec(),
        decreases i.ports.len() - k,
    {
        addrs.push(i.ports[k].addr());
        k += 1;
    }
    assert(addrs@ =~= addresses(i.ports@));
    Process {
        name: instance_name(i.sandbox, i.family, i.index),
        base_name: (i.sandbox.to_owned(), i.family.to_owned()),
        config: i.config,
        restart_timeout: i.restart_timeout,
        restart_min: now + i.restart_timeout,
        ports: i.ports,
        addresses: addrs,
        socket_cred: i.socket_cred,
        bridged_network: i.bridged_network,
    }
}

/// The arguments of a launcher behind the program's name: the instance's
/// name first, so that a list of processes shows it, then the master
/// configuration and the instance's configuration, then what the tree was
/// told about logging.
pub open spec fn arguments_spec(
    name: Seq<char>,
    master: Seq<char>,
    config: Seq<char>,
    log_stderr: bool,
    log_level: Option<Seq<char>>,
) -> Seq<Seq<char>> {
    seq!["--name"@, name, "--master"@, master, "--config"@, config] + (if log_stderr {
        seq!["--log-stderr"@]
    } else {
        Seq::<Seq<char>>::empty()
    }) + (match log_level {
        Some(level) => seq!["--log-level="@ + level],
        None => Seq::<Seq<char>>::empty(),
    })
}

/// The arguments with which the tree starts the launcher of an instance.
pub fn knot_arguments(
    name: &str,
    master: &str,
    config: &str,
    log_stderr: bool,
    log_level: Option<&str>,
) -> (args: Vec<String>)
    ensures
        texts(args@) == arguments_spec(
            name@,
            master@,
            config@,
            log_stderr,
            match log_level {
                Some(l) => Some(l@),
                None => None,
            },
        ),
{
    let mut args: Vec<String> = Vec::new();
    args.push(String::from_str("--name"));
    args.push(name.to_owned());
    args.push(String::from_str("--master"));
    args.push(master.to_owned());
    args.push(String::from_str("--config"));
    args.push(config.to_owned());
    if log_stderr {
        args.push(String::from_str("--log-stderr"));
    }
    match log_level {
        Some(level) => {
            let mut a = String::from_str("--log-level=");
            a.append(level);
            args.push(a);
        },
        None => {},
    }
    assert(texts(args@) =~= arguments_spec(
        name@,
        master@,
        config@,
        log_stderr,
        match log_level {
            Some(l) => Some(l@),
            None => None,
        },
    ));
    args
}

/// The environment of a launcher, as assignments to an empty environment:
/// `TERM`, the tree's own or `dumb`, and the tree's `RUST_LOG` and
/// `RUST_BACKTRACE` if it has them.
pub open spec fn launcher_environment(
    term: Option<Seq<char>>,
    rust_log: Option<Seq<char>>,
    rust_backtrace: Option<Seq<char>>,
) -> Seq<(Seq<char>, Seq<char>)> {
    seq![("TERM"@, match term {
        Some(t) => t,
        None => "dumb"@,
    })] + (match rust_log {
        Some(v) => seq![("RUST_LOG"@, v)],
        None => Seq::<(Seq<char>, Seq<char>)>::empty(),
    }) + (match rust_backtrace {
        Some(v) => seq![("RUST_BACKTRACE"@, v)],
        None => Seq::<(Seq<char>, Seq<char>)>::empty(),
    })
}

/// The environment with which the tree starts a launcher.
pub fn knot_environment(
    term: Option<String>,
    rust_log: Option<String>,
    rust_backtrace: Option<String>,
) -> (env: Vec<(String, String)>)
    ensures
        crate::knot::assignments(env@) == launcher_environment(
            text_of(term),
            text_of(rust_log),
            text_of(rust_backtrace),
        ),
{
    let ghost want = launcher_environment(text_of(term), text_of(rust_log), text_of(rust_backtrace));
    let mut env: Vec<(String, String)> = Vec::new();
    let term_value = match term {
        Some(t) => t,
        None => String::from_str("dumb"),
    };
    env.push((String::from_str("TERM"), term_value));
    match rust_log {
        Some(v) => {
            env.push((String::from_str("RUST_LOG"), v));
        },
        None => {},
    }
    match rust_backtrace {
        Some(v) => {
            env.push((String::from_str("RUST_BACKTRACE"), v));
        },
        None => {},
    }
    assert(crate::knot::assignments(env@) =~= want);
    env
}

/// The namespaces that the tree gives each launcher for itself. A network
/// namespace is not among them: the sockets that the tree hands down live
/// in the host's.
pub fn knot_namespaces() -> (ns: Vec<Namespace>)
    ensures
        ns@ == seq![
            Namespace::NewMount,
            Namespace::NewUts,
            Namespace::NewIpc,
            Namespace::NewPid,
        ],
{
    let mut ns: Vec<Namespace> = Vec::new();
    ns.push(Namespace::NewMount);
    ns.push(Namespace::NewUts);
    ns.push(Namespace::NewIpc);
    ns.push(Namespace::NewPid);
    assert(ns@ =~= seq![
        Namespace::NewMount,
        Namespace::NewUts,
        Namespace::NewIpc,
        Namespace::NewPid,
    ]);
    ns
}

/// A tree recognises the launchers that it has started: the command line
/// of a launcher, made of the program `lithos_knot` and the arguments for
/// an instance, shows the instance's name and configuration.
pub proof fn lemma_launcher_recognised(
    program: Seq<char>,
    name: Seq<char>,
    master: Seq<char>,
    config: Seq<char>,
    log_stderr: bool,
    log_level: Option<Seq<char>>,
)
    requires
        program.len() > 0,
        crate::text::after_last(program, '/') == "lithos_knot"@,
    ensures
        shape_of(
            seq![program] + arguments_spec(name, master, config, log_stderr, log_level),
            master,
        ) == (Shape::Launcher { name, config }),
{
    let tokens = seq![program] + arguments_spec(name, master, config, log_stderr, log_level);
    assert(tokens[0] == program);
    assert(tokens[1] == "--name"@);
    assert(tokens[2] == name);
    assert(tokens[3] == "--master"@);
    assert(tokens[4] == master);
    assert(tokens[5] == "--config"@);
    assert(tokens[6] == config);
}

} // verus!
