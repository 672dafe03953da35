//! A command to run in a container: what is set on it, and the plain
//! values that starting it takes.

use crate::id_map::IdMap;
use crate::text::{
    decimal, is_ascii_text, lemma_decimal_ascii, lemma_text_order_total,
    lemma_text_order_transitive, push_decimal, push_signed, signed_decimal, text_less, text_lt,
};
use vstd::prelude::*;
use vstd::string::*;

verus! {

/// A kind of namespace that a command can get for itself.
#[derive(Clone, Copy, Debug, PartialEq, Eq, Structural)]
pub enum Namespace {
    NewMount,
    NewUts,
    NewIpc,
    NewUser,
    NewPid,
    NewNet,
}

/// The flag of `clone(2)` for a new mount namespace.
pub const CLONE_NEWNS: i32 = 0x0002_0000;

/// The flag of `clone(2)` for a new host and domain name.
pub const CLONE_NEWUTS: i32 = 0x0400_0000;

/// The flag of `clone(2)` for new System V IPC objects.
pub const CLONE_NEWIPC: i32 = 0x0800_0000;

/// The flag of `clone(2)` for a new user namespace.
pub const CLONE_NEWUSER: i32 = 0x1000_0000;

/// The flag of `clone(2)` for a new pid namespace.
pub const CLONE_NEWPID: i32 = 0x2000_0000;

/// The flag of `clone(2)` for a new network namespace.
pub const CLONE_NEWNET: i32 = 0x4000_0000;

impl Namespace {
    /// The number of the namespace kind.
    pub open spec fn index(self) -> int {
        match self {
            Namespace::NewMount => 0,
            Namespace::NewUts => 1,
            Namespace::NewIpc => 2,
            Namespace::NewUser => 3,
            Namespace::NewPid => 4,
            Namespace::NewNet => 5,
        }
    }

    /// The flag of `clone(2)` that asks for the namespace.
    pub open spec fn flag(self) -> int {
        match self {
            Namespace::NewMount => CLONE_NEWNS as int,
            Namespace::NewUts => CLONE_NEWUTS as int,
            Namespace::NewIpc => CLONE_NEWIPC as int,
            Namespace::NewUser => CLONE_NEWUSER as int,
            Namespace::NewPid => CLONE_NEWPID as int,
            Namespace::NewNet => CLONE_NEWNET as int,
        }
    }

    /// The number of the namespace kind.
    pub fn to_uint(&self) -> (n: usize)
        ensures
            n == self.index(),
    {
        match *self {
            Namespace::NewMount => 0,
            Namespace::NewUts => 1,
            Namespace::NewIpc => 2,
            Namespace::NewUser => 3,
            Namespace::NewPid => 4,
            Namespace::NewNet => 5,
        }
    }

    /// The namespace kind with the number `val`.
    pub fn from_uint(val: usize) -> (ns: Namespace)
        requires
            val < 6,
        ensures
            ns.index() == val,
    {
        if val == 0 {
            Namespace::NewMount
        } else if val == 1 {
            Namespace::NewUts
        } else if val == 2 {
            Namespace::NewIpc
        } else if val == 3 {
            Namespace::NewUser
        } else if val == 4 {
            Namespace::NewPid
        } else {
            Namespace::NewNet
        }
    }
}

/// A set of namespace kinds.
#[derive(Clone, Copy, Debug, PartialEq, Eq, Structural)]
pub struct Namespaces {
    pub mount: bool,
    pub uts: bool,
    pub ipc: bool,
    pub user: bool,
    pub pid: bool,
    pub net: bool,
}

impl Namespaces {
    /// Is `ns` in the set?
    pub open spec fn has(self, ns: Namespace) -> bool {
        match ns {
            Namespace::NewMount => self.mount,
            Namespace::NewUts => self.uts,
            Namespace::NewIpc => self.ipc,
            Namespace::NewUser => self.user,
            Namespace::NewPid => self.pid,
            Namespace::NewNet => self.net,
        }
    }

    /// The flags of all namespaces in the set. Each flag is a bit of its
    /// own, so that their sum is their union.
    pub open spec fn flags(self) -> int {
        (if self.mount {
            CLONE_NEWNS as int
        } else {
            0
        }) + (if self.uts {
            CLONE_NEWUTS as int
        } else {
            0
        }) + (if self.ipc {
            CLONE_NEWIPC as int
        } else {
            0
        }) + (if self.user {
            CLONE_NEWUSER as int
        } else {
            0
        }) + (if self.pid {
            CLONE_NEWPID as int
        } else {
            0
        }) + (if self.net {
            CLONE_NEWNET as int
        } else {
            0
        })
    }

    /// The empty set.
    pub fn new() -> (s: Namespaces)
        ensures
            forall|ns: Namespace| !s.has(ns),
    {
        Namespaces { mount: false, uts: false, ipc: false, user: false, pid: false, net: false }
    }

    /// Is `ns` in the set?
    pub fn contains(&self, ns: Namespace) -> (r: bool)
        ensures
            r == self.has(ns),
    {
        match ns {
            Namespace::NewMount => self.mount,
            Namespace::NewUts => self.uts,
            Namespace::NewIpc => self.ipc,
            Namespace::NewUser => self.user,
            Namespace::NewPid => self.pid,
            Namespace::NewNet => self.net,
        }
    }

    /// Puts `ns` into the set.
    pub fn insert(&mut self, ns: Namespace)
        ensures
            forall|other: Namespace| final(self).has(other) == (other == ns || old(self).has(other)),
    {
        match ns {
            Namespace::NewMount => {
                self.mount = true;
            },
            Namespace::NewUts => {
                self.uts = true;
            },
            Namespace::NewIpc => {
                self.ipc = true;
            },
            Namespace::NewUser => {
                self.user = true;
            },
            Namespace::NewPid => {
                self.pid = true;
            },
            Namespace::NewNet => {
                self.net = true;
            },
        }
    }
}

/// The flag of `ns` if `set` holds it, else no flag.
pub open spec fn flag_in(set: Namespaces, ns: Namespace) -> u32 {
    if set.has(ns) {
        ns.flag() as u32
    } else {
        0
    }
}

/// The flags of a set are the union of the flags of its namespaces: each
/// flag is a bit of its own.
pub proof fn lemma_flags_are_union(set: Namespaces)
    ensures
        set.flags() == (flag_in(set, Namespace::NewMount) | flag_in(set, Namespace::NewUts)
            | flag_in(set, Namespace::NewIpc) | flag_in(set, Namespace::NewUser) | flag_in(
            set,
            Namespace::NewPid,
        ) | flag_in(set, Namespace::NewNet)),
        0 <= set.flags() <= i32::MAX,
{
    let a = flag_in(set, Namespace::NewMount);
    let b = flag_in(set, Namespace::NewUts);
    let c = flag_in(set, Namespace::NewIpc);
    let d = flag_in(set, Namespace::NewUser);
    let e = flag_in(set, Namespace::NewPid);
    let f = flag_in(set, Namespace::NewNet);
    assert(a + b + c + d + e + f == (a | b | c | d | e | f)) by (bit_vector)
        requires
            a == 0 || a == 0x0002_0000,
            b == 0 || b == 0x0400_0000,
            c == 0 || c == 0x0800_0000,
            d == 0 || d == 0x1000_0000,
            e == 0 || e == 0x2000_0000,
            f == 0 || f == 0x4000_0000,
    ;
}

/// The flags of `clone(2)` for the namespaces of `set`.
pub fn convert_namespaces(set: Namespaces) -> (ns: i32)
    ensures
        ns == set.flags(),
{
    let mut ns: i32 = 0;
    if set.mount {
        ns = ns + CLONE_NEWNS;
    }
    if set.uts {
        ns = ns + CLONE_NEWUTS;
    }
    if set.ipc {
        ns = ns + CLONE_NEWIPC;
    }
    if set.user {
        ns = ns + CLONE_NEWUSER;
    }
    if set.pid {
        ns = ns + CLONE_NEWPID;
    }
    if set.net {
        ns = ns + CLONE_NEWNET;
    }
    ns
}

/// One line of an identifier map as the kernel reads it: the three
/// numbers of the entry, a space between them, a line end behind them.
pub open spec fn map_line(m: IdMap) -> Seq<char> {
    decimal(m.inside as nat) + " "@ + decimal(m.outside as nat) + " "@ + decimal(m.count as nat)
        + "\n"@
}

/// The text of an identifier map as the kernel reads it: a line for each
/// entry.
pub open spec fn map_text(map: Seq<IdMap>) -> Seq<char>
    decreases map.len(),
{
    if map.len() == 0 {
        Seq::<char>::empty()
    } else {
        map_text(map.drop_last()) + map_line(map.last())
    }
}

/// The text of an identifier map is made of ASCII characters.
pub proof fn lemma_map_text_ascii(map: Seq<IdMap>)
    ensures
        vstd::utf8::is_ascii_chars(map_text(map)),
    decreases map.len(),
{
    if map.len() > 0 {
        lemma_map_text_ascii(map.drop_last());
        let m = map.last();
        lemma_decimal_ascii(m.inside as nat);
        lemma_decimal_ascii(m.outside as nat);
        lemma_decimal_ascii(m.count as nat);
        reveal_strlit(" ");
        reveal_strlit("\n");
    }
}

/// The bytes to write into `uid_map` or `gid_map` of a process, for the
/// identifier map `src_map`: its text, each character in one byte.
pub fn compile_map(src_map: &Vec<IdMap>) -> (bytes: Vec<u8>)
    ensures
        bytes@ == vstd::utf8::encode_utf8(map_text(src_map@)),
        is_ascii_text(bytes@, map_text(src_map@)),
{
    let mut lines = String::new();
    let mut i: usize = 0;
    assert(src_map@.take(0) =~= Seq::<IdMap>::empty());
    while i < src_map.len()
        invariant
            i <= src_map.len(),
            lines@ == map_text(src_map@.take(i as int)),
        decreases src_map.len() - i,
    {
        let item = src_map[i];
        let ghost before = lines@;
        proof {
            assert(src_map@.take(i as int + 1).drop_last() =~= src_map@.take(i as int));
            assert(src_map@.take(i as int + 1).last() == item);
        }
        push_decimal(&mut lines, item.inside as u64);
        lines.append(" ");
        push_decimal(&mut lines, item.outside as u64);
        lines.append(" ");
        push_decimal(&mut lines, item.count as u64);
        lines.append("\n");
        assert(lines@ =~= before + map_line(item));
        i += 1;
    }
    assert(src_map@.take(src_map.len() as int) =~= src_map@);
    proof {
        lemma_map_text_ascii(src_map@);
        vstd::utf8::is_ascii_chars_encode_utf8(map_text(src_map@));
    }
    lines.as_str().as_bytes_vec()
}

/// The names of `vars` go up strictly in the order of strings.
pub open spec fn sorted_by_name(vars: Seq<(String, String)>) -> bool {
    forall|i: int, j: int| 0 <= i < j < vars.len() ==> text_lt(vars[i].0@, vars[j].0@)
}

/// How many variables at the head of `vars`, counted from index `from`,
/// have a name that comes before `name`.
pub open spec fn names_before(vars: Seq<(String, String)>, name: Seq<char>, from: int) -> int
    decreases vars.len() - from,
{
    if 0 <= from < vars.len() && text_lt(vars[from].0@, name) {
        1 + names_before(vars, name, from + 1)
    } else {
        0
    }
}

/// The place of the variable `name` among `vars`: where it stands, or
/// where it goes in.
pub open spec fn place_of(vars: Seq<(String, String)>, name: Seq<char>) -> int {
    names_before(vars, name, 0)
}

/// `vars` holds a variable named `name`.
pub open spec fn is_set(vars: Seq<(String, String)>, name: Seq<char>) -> bool {
    0 <= place_of(vars, name) < vars.len() && vars[place_of(vars, name)].0@ == name
}

/// `vars` after `name` was set to `value`: the variable takes the place of
/// the one of that name, or goes in where the order of names puts it.
pub open spec fn with_var(vars: Seq<(String, String)>, name: String, value: String) -> Seq<
    (String, String),
> {
    if is_set(vars, name@) {
        vars.update(place_of(vars, name@), (name, value))
    } else {
        vars.insert(place_of(vars, name@), (name, value))
    }
}

/// In a sorted list, the place of a name splits the names into those
/// before it and those that are not.
pub proof fn lemma_place_of(vars: Seq<(String, String)>, name: Seq<char>, from: int)
    requires
        sorted_by_name(vars),
        0 <= from <= vars.len(),
    ensures
        0 <= names_before(vars, name, from),
        from + names_before(vars, name, from) <= vars.len(),
        forall|i: int|
            from <= i < from + names_before(vars, name, from) ==> text_lt(
                (#[trigger] vars[i]).0@,
                name,
            ),
        forall|i: int|
            from + names_before(vars, name, from) <= i < vars.len() ==> !text_lt(
                (#[trigger] vars[i]).0@,
                name,
            ),
    decreases vars.len() - from,
{
    if from < vars.len() && text_lt(vars[from].0@, name) {
        lemma_place_of(vars, name, from + 1);
    } else if from < vars.len() {
        assert forall|i: int| from <= i < vars.len() implies !text_lt(
            (#[trigger] vars[i]).0@,
            name,
        ) by {
            if i > from && text_lt(vars[i].0@, name) {
                lemma_text_order_transitive(vars[from].0@, vars[i].0@, name);
            }
        }
    }
}

/// Setting a variable keeps a sorted list sorted.
pub proof fn lemma_with_var_sorted(vars: Seq<(String, String)>, name: String, value: String)
    requires
        sorted_by_name(vars),
    ensures
        sorted_by_name(with_var(vars, name, value)),
{
    let p = place_of(vars, name@);
    let out = with_var(vars, name, value);
    lemma_place_of(vars, name@, 0);
    assert forall|i: int, j: int| 0 <= i < j < out.len() implies text_lt(out[i].0@, out[j].0@) by {
        if is_set(vars, name@) {
            assert(out[i].0@ == vars[i].0@);
            assert(out[j].0@ == vars[j].0@);
        } else {
            if j < p {
                assert(out[i] == vars[i] && out[j] == vars[j]);
            } else if j == p {
                assert(out[i] == vars[i]);
            } else if i < p {
                assert(out[i] == vars[i] && out[j] == vars[j - 1]);
            } else if i == p {
                assert(out[j] == vars[j - 1]);
                lemma_text_order_total(vars[j - 1].0@, name@);
                if j - 1 > p {
                    lemma_text_order_total(vars[p].0@, name@);
                    lemma_text_order_transitive(name@, vars[p].0@, vars[j - 1].0@);
                }
            } else {
                assert(out[i] == vars[i - 1] && out[j] == vars[j - 1]);
            }
        }
    }
}

/// The variables of a command's environment, in the order of their names.
/// No name occurs twice.
pub struct Environment {
    vars: Vec<(String, String)>,
}

impl View for Environment {
    type V = Seq<(String, String)>;

    /// The variables, each a name and a value, in the order of the names.
    closed spec fn view(&self) -> Seq<(String, String)> {
        self.vars@
    }
}

impl Environment {
    #[verifier::type_invariant]
    spec fn well_formed(self) -> bool {
        sorted_by_name(self.vars@)
    }

    /// No variables.
    pub fn new() -> (e: Environment)
        ensures
            e@ == Seq::<(String, String)>::empty(),
    {
        Environment { vars: Vec::new() }
    }

    /// The number of variables.
    pub fn len(&self) -> (n: usize)
        ensures
            n == self@.len(),
            sorted_by_name(self@),
    {
        proof {
            use_type_invariant(self);
        }
        self.vars.len()
    }

    /// Sets the variable `name` to `value`.
    pub fn insert(&mut self, name: String, value: String)
        ensures
            final(self)@ == with_var(old(self)@, name, value),
            sorted_by_name(final(self)@),
    {
        proof {
            use_type_invariant(&*self);
            lemma_place_of(self.vars@, name@, 0);
            lemma_with_var_sorted(self.vars@, name, value);
        }
        let mut vars: Vec<(String, String)> = Vec::new();
        core::mem::swap(&mut self.vars, &mut vars);
        let mut p: usize = 0;
        while p < vars.len() && text_less(vars[p].0.as_str(), name.as_str())
            invariant
                p <= vars.len(),
                place_of(vars@, name@) == p + names_before(vars@, name@, p as int),
            decreases vars.len() - p,
        {
            p += 1;
        }
        if p < vars.len() && vars[p].0 == name {
            vars.set(p, (name, value));
        } else {
            vars.insert(p, (name, value));
        }
        self.vars = vars;
    }

    /// The assignments `NAME=value`, in the order of the names.
    pub fn assignments(&self) -> (out: Vec<String>)
        ensures
            out@.len() == self@.len(),
            forall|i: int|
                0 <= i < self@.len() ==> (#[trigger] out@[i])@ == self@[i].0@ + "="@ + self@[i].1@,
    {
        let mut out: Vec<String> = Vec::new();
        let mut i: usize = 0;
        while i < self.vars.len()
            invariant
                i <= self.vars.len(),
                out@.len() == i,
                forall|k: int|
                    0 <= k < i ==> (#[trigger] out@[k])@ == self.vars@[k].0@ + "="@
                        + self.vars@[k].1@,
            decreases self.vars.len() - i,
        {
            let mut s = self.vars[i].0.clone();
            s.append("=");
            s.append(self.vars[i].1.as_str());
            out.push(s);
            i += 1;
        }
        out
    }
}

/// The path of `leaf` below the directory `dir`.
pub open spec fn joined(dir: Seq<char>, leaf: Seq<char>) -> Seq<char> {
    if dir.len() == 0 {
        leaf
    } else if dir.last() == '/' {
        dir + leaf
    } else {
        dir + "/"@ + leaf
    }
}

/// The path of `leaf` below the directory `dir`.
pub fn join_path(dir: &str, leaf: &str) -> (path: String)
    ensures
        path@ == joined(dir@, leaf@),
{
    let n = dir.unicode_len();
    let mut path = dir.to_owned();
    if n > 0 && dir.get_char(n - 1) != '/' {
        path.append("/");
    }
    path.append(leaf);
    assert(path@ =~= joined(dir@, leaf@));
    path
}

/// A command to run in a container.
pub struct Command {
    /// The name by which messages about the command call it.
    pub name: String,
    /// The directory that becomes the command's root, if it gets one.
    pub chroot: Option<String>,
    /// Where the old root is put while the root changes, seen from outside.
    pub tmp_old_root: Option<String>,
    /// The same place, seen from the new root.
    pub old_root_relative: Option<String>,
    /// The program to run.
    pub executable: String,
    /// Its arguments; the first is the program itself.
    pub arguments: Vec<String>,
    /// Its environment.
    pub environment: Environment,
    /// The namespaces that it gets for itself.
    pub namespaces: Namespaces,
    /// Whether the signal mask is reset before the program runs.
    pub restore_sigmask: bool,
    pub user_id: u32,
    pub group_id: u32,
    /// The directory in which the program starts.
    pub workdir: String,
    /// The text of the uid map, if the command gets a user namespace.
    pub uid_map: Option<Vec<u8>>,
    /// The text of the gid map, if the command gets a user namespace.
    pub gid_map: Option<Vec<u8>>,
    /// The file that takes the program's output, if any.
    pub output: Option<String>,
}

/// The plain values that starting a command takes.
pub struct CCommand {
    /// The flags of `clone(2)` for the command's namespaces.
    pub namespaces: i32,
    pub user_id: u32,
    pub group_id: u32,
    /// 1 if the signal mask is reset before the program runs, else 0.
    pub restore_sigmask: i32,
    /// What stands before each message about the command.
    pub logprefix: String,
    pub fs_root: Option<String>,
    pub tmp_old_root: Option<String>,
    pub old_root_relative: Option<String>,
    pub exec_path: String,
    pub exec_args: Vec<String>,
    /// The environment as assignments `NAME=value`, in the order of the
    /// names.
    pub exec_environ: Vec<String>,
    pub workdir: String,
    pub output: Option<String>,
}

/// The text of a string that may be absent.
pub open spec fn opt_text(o: Option<String>) -> Option<Seq<char>> {
    match o {
        Some(s) => Some(s@),
        None => None,
    }
}

/// The bytes of a map text that may be absent.
pub open spec fn opt_bytes(o: Option<Vec<u8>>) -> Option<Seq<u8>> {
    match o {
        Some(b) => Some(b@),
        None => None,
    }
}

fn clone_opt(o: &Option<String>) -> (r: Option<String>)
    ensures
        opt_text(r) == opt_text(*o),
{
    match o {
        Some(s) => Some(s.clone()),
        None => None,
    }
}

/// One file to write when a command's user namespace is set up.
pub struct MapWrite {
    /// The path of the file.
    pub path: String,
    /// What to write.
    pub data: Vec<u8>,
}

impl Command {
    /// The directory of process `pid` in the `proc` file system that the
    /// command's starter sees: below the command's root if it has one.
    pub open spec fn proc_dir(self, pid: i32) -> Seq<char> {
        match self.chroot {
            Some(root) => joined(joined(root@, "proc"@), signed_decimal(pid as int)),
            None => joined("/proc"@, signed_decimal(pid as int)),
        }
    }

    /// A command that runs the program `cmd` in the directory `workdir`:
    /// with the program as its one argument, an empty environment, no
    /// namespaces, user and group 0, and a signal mask that is reset.
    pub fn new(name: String, cmd: &str, workdir: &str) -> (c: Command)
        ensures
            c.name == name,
            c.chroot is None,
            c.tmp_old_root is None,
            c.old_root_relative is None,
            c.executable@ == cmd@,
            c.arguments@.len() == 1,
            c.arguments@[0]@ == cmd@,
            c.environment@ == Seq::<(String, String)>::empty(),
            forall|ns: Namespace| !c.namespaces.has(ns),
            c.restore_sigmask,
            c.user_id == 0,
            c.group_id == 0,
            c.workdir@ == workdir@,
            c.uid_map is None,
            c.gid_map is None,
            c.output is None,
    {
        let mut arguments: Vec<String> = Vec::new();
        arguments.push(cmd.to_owned());
        Command {
            name,
            chroot: None,
            tmp_old_root: None,
            old_root_relative: None,
            executable: cmd.to_owned(),
            arguments,
            environment: Environment::new(),
            namespaces: Namespaces::new(),
            restore_sigmask: true,
            user_id: 0,
            group_id: 0,
            workdir: workdir.to_owned(),
            uid_map: None,
            gid_map: None,
            output: None,
        }
    }

    /// Sets the user and the group that the program runs as.
    pub fn set_user(&mut self, uid: u32, gid: u32)
        ensures
            *final(self) == (Command { user_id: uid, group_id: gid, ..*old(self) }),
    {
        self.user_id = uid;
        self.group_id = gid;
    }

    /// Makes `dir` the program's root. The old root is put on `tmp` below
    /// it, which the program sees as `/tmp`.
    pub fn chroot(&mut self, dir: &str)
        ensures
            opt_text(final(self).chroot) == Some(dir@),
            opt_text(final(self).tmp_old_root) == Some(joined(dir@, "tmp"@)),
            opt_text(final(self).old_root_relative) == Some("/tmp"@),
            *final(self) == (Command {
                chroot: final(self).chroot,
                tmp_old_root: final(self).tmp_old_root,
                old_root_relative: final(self).old_root_relative,
                ..*old(self)
            }),
    {
        self.chroot = Some(dir.to_owned());
        self.tmp_old_root = Some(join_path(dir, "tmp"));
        self.old_root_relative = Some(String::from_str("/tmp"));
    }

    /// Sets the directory in which the program starts.
    pub fn set_workdir(&mut self, dir: &str)
        ensures
            final(self).workdir@ == dir@,
            *final(self) == (Command { workdir: final(self).workdir, ..*old(self) }),
    {
        self.workdir = dir.to_owned();
    }

    /// Leaves the signal mask as the starter has it.
    pub fn keep_sigmask(&mut self)
        ensures
            *final(self) == (Command { restore_sigmask: false, ..*old(self) }),
    {
        self.restore_sigmask = false;
    }

    /// Adds an argument.
    pub fn arg(&mut self, arg: &str)
        ensures
            final(self).arguments@.len() == old(self).arguments@.len() + 1,
            final(self).arguments@.last()@ == arg@,
            final(self).arguments@.drop_last() == old(self).arguments@,
            *final(self) == (Command { arguments: final(self).arguments, ..*old(self) }),
    {
        self.arguments.push(arg.to_owned());
        assert(self.arguments@.drop_last() =~= old(self).arguments@);
    }

    /// Adds arguments, in order.
    pub fn args(&mut self, args: &Vec<String>)
        ensures
            final(self).arguments@.len() == old(self).arguments@.len() + args@.len(),
            final(self).arguments@.take(old(self).arguments@.len() as int) == old(self).arguments@,
            forall|i: int|
                0 <= i < args@.len() ==> (#[trigger] final(self).arguments@[old(
                    self,
                ).arguments@.len() + i])@ == args@[i]@,
            *final(self) == (Command { arguments: final(self).arguments, ..*old(self) }),
    {
        let ghost before = self.arguments@;
        let mut i: usize = 0;
        while i < args.len()
            invariant
                i <= args.len(),
                self.arguments@.len() == before.len() + i,
                self.arguments@.take(before.len() as int) == before,
                forall|k: int|
                    0 <= k < i ==> (#[trigger] self.arguments@[before.len() + k])@ == args@[k]@,
                *self == (Command { arguments: self.arguments, ..*old(self) }),
            decreases args.len() - i,
        {
            let ghost prev = self.arguments@;
            self.arguments.push(args[i].clone());
            assert(self.arguments@.take(before.len() as int) =~= prev.take(before.len() as int));
            i += 1;
        }
    }

    /// Sets a variable of the environment.
    pub fn set_env(&mut self, key: String, value: String)
        ensures
            final(self).environment@ == with_var(old(self).environment@, key, value),
            *final(self) == (Command { environment: final(self).environment, ..*old(self) }),
    {
        self.environment.insert(key, value);
    }

    /// Sets the file that takes the program's output.
    pub fn set_output(&mut self, filename: &str)
        ensures
            opt_text(final(self).output) == Some(filename@),
            *final(self) == (Command { output: final(self).output, ..*old(self) }),
    {
        self.output = Some(filename.to_owned());
    }

    /// Sets each variable of `env`, in order.
    pub fn update_env(&mut self, env: &Vec<(String, String)>)
        ensures
            final(self).environment@ == with_vars(old(self).environment@, env@),
            *final(self) == (Command { environment: final(self).environment, ..*old(self) }),
    {
        let mut i: usize = 0;
        assert(env@.take(0) =~= Seq::<(String, String)>::empty());
        while i < env.len()
            invariant
                i <= env.len(),
                self.environment@ == with_vars(old(self).environment@, env@.take(i as int)),
                *self == (Command { environment: self.environment, ..*old(self) }),
            decreases env.len() - i,
        {
            proof {
                assert(env@.take(i as int + 1).drop_last() =~= env@.take(i as int));
                assert(env@.take(i as int + 1).last() == env@[i as int]);
            }
            self.environment.insert(env[i].0.clone(), env[i].1.clone());
            i += 1;
        }
        assert(env@.take(env.len() as int) =~= env@);
    }

    /// Gives the program the namespaces of a container: mounts, host
    /// name, IPC and pids.
    pub fn container(&mut self)
        ensures
            forall|ns: Namespace|
                final(self).namespaces.has(ns) == (old(self).namespaces.has(ns) || ns
                    == Namespace::NewMount || ns == Namespace::NewUts || ns == Namespace::NewIpc
                    || ns == Namespace::NewPid),
            *final(self) == (Command { namespaces: final(self).namespaces, ..*old(self) }),
    {
        self.namespaces.insert(Namespace::NewMount);
        self.namespaces.insert(Namespace::NewUts);
        self.namespaces.insert(Namespace::NewIpc);
        self.namespaces.insert(Namespace::NewPid);
    }

    /// Gives the program a mount namespace.
    pub fn mount_ns(&mut self)
        ensures
            forall|ns: Namespace|
                final(self).namespaces.has(ns) == (old(self).namespaces.has(ns) || ns
                    == Namespace::NewMount),
            *final(self) == (Command { namespaces: final(self).namespaces, ..*old(self) }),
    {
        self.namespaces.insert(Namespace::NewMount);
    }

    /// Gives the program a user namespace with these identifier maps.
    pub fn user_ns(&mut self, uid_map: &Vec<IdMap>, gid_map: &Vec<IdMap>)
        ensures
            forall|ns: Namespace|
                final(self).namespaces.has(ns) == (old(self).namespaces.has(ns) || ns
                    == Namespace::NewUser),
            opt_bytes(final(self).uid_map) == Some(vstd::utf8::encode_utf8(map_text(uid_map@))),
            opt_bytes(final(self).gid_map) == Some(vstd::utf8::encode_utf8(map_text(gid_map@))),
            *final(self) == (Command {
                namespaces: final(self).namespaces,
                uid_map: final(self).uid_map,
                gid_map: final(self).gid_map,
                ..*old(self)
            }),
    {
        self.namespaces.insert(Namespace::NewUser);
        self.uid_map = Some(compile_map(uid_map));
        self.gid_map = Some(compile_map(gid_map));
    }

    /// The plain values that starting the command takes.
    pub fn prepare(&self) -> (c: CCommand)
        ensures
            c.namespaces == self.namespaces.flags(),
            c.user_id == self.user_id,
            c.group_id == self.group_id,
            c.restore_sigmask == (if self.restore_sigmask {
                1i32
            } else {
                0i32
            }),
            c.logprefix@ == "ERROR:lithos::container.c: ["@ + self.name@ + "]"@,
            opt_text(c.fs_root) == opt_text(self.chroot),
            opt_text(c.tmp_old_root) == opt_text(self.tmp_old_root),
            opt_text(c.old_root_relative) == opt_text(self.old_root_relative),
            c.exec_path@ == self.executable@,
            c.exec_args@.len() == self.arguments@.len(),
            forall|i: int|
                0 <= i < self.arguments@.len() ==> (#[trigger] c.exec_args@[i])@
                    == self.arguments@[i]@,
            c.exec_environ@.len() == self.environment@.len(),
            forall|i: int|
                0 <= i < self.environment@.len() ==> (#[trigger] c.exec_environ@[i])@
                    == self.environment@[i].0@ + "="@ + self.environment@[i].1@,
            c.workdir@ == self.workdir@,
            opt_text(c.output) == opt_text(self.output),
    {
        let mut logprefix = String::from_str("ERROR:lithos::container.c: [");
        logprefix.append(self.name.as_str());
        logprefix.append("]");
        let mut exec_args: Vec<String> = Vec::new();
        let mut i: usize = 0;
        while i < self.arguments.len()
            invariant
                i <= self.arguments.len(),
                exec_args@.len() == i,
                forall|k: int| 0 <= k < i ==> (#[trigger] exec_args@[k])@ == self.arguments@[k]@,
            decreases self.arguments.len() - i,
        {
            exec_args.push(self.arguments[i].clone());
            i += 1;
        }
        CCommand {
            namespaces: convert_namespaces(self.namespaces),
            user_id: self.user_id,
            group_id: self.group_id,
            restore_sigmask: if self.restore_sigmask {
                1
            } else {
                0
            },
            logprefix,
            fs_root: clone_opt(&self.chroot),
            tmp_old_root: clone_opt(&self.tmp_old_root),
            old_root_relative: clone_opt(&self.old_root_relative),
            exec_path: self.executable.clone(),
            exec_args,
            exec_environ: self.environment.assignments(),
            workdir: self.workdir.clone(),
            output: clone_opt(&self.output),
        }
    }

    /// The files to write once the program runs as process `pid`, before
    /// it is let go on: `uid_map`, then `gid_map`, in the process's
    /// directory in `proc`, each only if the command has that map.
    pub fn init_container(&self, pid: i32) -> (writes: Vec<MapWrite>)
        ensures
            writes@.len() == (if self.uid_map is Some {
                1int
            } else {
                0int
            }) + (if self.gid_map is Some {
                1int
            } else {
                0int
            }),
            self.uid_map is Some ==> writes@[0].path@ == joined(self.proc_dir(pid), "uid_map"@)
                && writes@[0].data@ == self.uid_map->0@,
            self.gid_map is Some ==> writes@.last().path@ == joined(
                self.proc_dir(pid),
                "gid_map"@,
            ) && writes@.last().data@ == self.gid_map->0@,
    {
        let mut pidstr = String::new();
        push_signed(&mut pidstr, pid as i64);
        assert(pidstr@ =~= signed_decimal(pid as int));
        let proc_path = match &self.chroot {
            Some(root) => {
                let p = join_path(root.as_str(), "proc");
                join_path(p.as_str(), pidstr.as_str())
            },
            None => join_path("/proc", pidstr.as_str()),
        };
        let mut writes: Vec<MapWrite> = Vec::new();
        match &self.uid_map {
            Some(data) => {
                writes.push(
                    MapWrite { path: join_path(proc_path.as_str(), "uid_map"), data: data.clone() },
                );
            },
            None => {},
        }
        match &self.gid_map {
            Some(data) => {
                writes.push(
                    MapWrite { path: join_path(proc_path.as_str(), "gid_map"), data: data.clone() },
                );
            },
            None => {},
        }
        writes
    }
}

/// `vars` after each of `env` was set, in order.
pub open spec fn with_vars(vars: Seq<(String, String)>, env: Seq<(String, String)>) -> Seq<
    (String, String),
>
    decreases env.len(),
{
    if env.len() == 0 {
        vars
    } else {
        with_var(with_vars(vars, env.drop_last()), env.last().0, env.last().1)
    }
}

} // verus!
