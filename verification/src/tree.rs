//! The tree supervisor: the children it keeps alive, the actions it has
//! queued, and how both change when an action falls due, a child ends or
//! a signal arrives.

use crate::knot::{ExitStatus, SIGTERM};
use crate::socket_pool::{idle_fds, in_use, Addr, Socket, SocketPool, TcpPort};
use crate::timer_queue::{actions, due_count, Queue};
use crate::text::texts;
use vstd::prelude::*;
use vstd::string::*;

verus! {

/// One container instance as the tree knows it.
pub struct Process {
    /// The full name: sandbox, `/`, process family, `.`, instance number.
    pub name: String,
    /// The sandbox and the process family.
    pub base_name: (String, String),
    /// The instance's configuration as it stands on the launcher's command
    /// line.
    pub config: String,
    /// How long after a start the next start may follow, in milliseconds.
    pub restart_timeout: u64,
    /// The earliest instant of the next start.
    pub restart_min: u64,
    /// The listening ports that the container declares.
    pub ports: Vec<TcpPort>,
    /// The addresses of those ports.
    pub addresses: Vec<Addr>,
    /// The user and group that own the sockets opened for the instance.
    pub socket_cred: (u32, u32),
    /// Whether the container has a network of its own.
    pub bridged_network: bool,
}

/// A child process of the tree.
pub enum Child {
    /// The launcher of a configured instance.
    Process(Process),
    /// A launcher found running that no configured instance accounts for,
    /// known by its name only.
    Unidentified(String),
}

/// An action that waits in the queue.
pub enum Timeout {
    /// Start this instance.
    Start(Process),
    /// Kill this process if it is still a child.
    Kill(i32),
}

impl Child {
    /// The instance name of the child.
    pub open spec fn name_spec(self) -> Seq<char> {
        match self {
            Child::Process(p) => p.name@,
            Child::Unidentified(name) => name@,
        }
    }

    /// The instance name of the child.
    pub fn get_name<'x>(&'x self) -> (name: &'x str)
        ensures
            name@ == self.name_spec(),
    {
        match self {
            Child::Process(p) => p.name.as_str(),
            Child::Unidentified(name) => name.as_str(),
        }
    }
}

/// No two entries of `s` belong to one process.
pub open spec fn distinct_pids(s: Seq<(i32, Child)>) -> bool {
    forall|i: int, j: int| 0 <= i < j < s.len() ==> s[i].0 != s[j].0
}

/// The index in `s` of the entry of process `pid`, or the length of `s`.
pub open spec fn slot(s: Seq<(i32, Child)>, pid: i32) -> int
    decreases s.len(),
{
    if s.len() == 0 {
        0
    } else if s[0].0 == pid {
        0
    } else {
        1 + slot(s.drop_first(), pid)
    }
}

/// `slot(s, pid)` is the first index at which an entry of `pid` stands.
pub proof fn lemma_slot(s: Seq<(i32, Child)>, pid: i32)
    ensures
        0 <= slot(s, pid) <= s.len(),
        slot(s, pid) < s.len() ==> s[slot(s, pid)].0 == pid,
        forall|i: int| 0 <= i < slot(s, pid) ==> s[i].0 != pid,
    decreases s.len(),
{
    if s.len() > 0 && s[0].0 != pid {
        let t = s.drop_first();
        lemma_slot(t, pid);
        assert forall|i: int| 0 <= i < slot(s, pid) implies s[i].0 != pid by {
            if i > 0 {
                assert(s[i] == t[i - 1]);
            }
        }
    }
}

/// Process `pid` is one of the children `s`.
pub open spec fn alive(s: Seq<(i32, Child)>, pid: i32) -> bool {
    slot(s, pid) < s.len()
}

/// The child that runs as process `pid`.
pub open spec fn child_at(s: Seq<(i32, Child)>, pid: i32) -> Option<Child> {
    if alive(s, pid) {
        Some(s[slot(s, pid)].1)
    } else {
        None
    }
}

/// `s` with `child` as process `pid`: in the place of the entry that `pid`
/// had, or in the last place if it had none.
pub open spec fn with_child(s: Seq<(i32, Child)>, pid: i32, child: Child) -> Seq<(i32, Child)> {
    if alive(s, pid) {
        s.update(slot(s, pid), (pid, child))
    } else {
        s.push((pid, child))
    }
}

/// `s` without the entry of process `pid`.
pub open spec fn without_child(s: Seq<(i32, Child)>, pid: i32) -> Seq<(i32, Child)> {
    if alive(s, pid) {
        s.remove(slot(s, pid))
    } else {
        s
    }
}

/// The processes of the children `s`, in order.
pub open spec fn pids_of(s: Seq<(i32, Child)>) -> Seq<i32> {
    Seq::new(s.len(), |i: int| s[i].0)
}

/// The addresses that the children `s` have sockets for: those of every
/// configured instance among them, in order.
pub open spec fn addresses_of(s: Seq<(i32, Child)>) -> Seq<Addr>
    decreases s.len(),
{
    if s.len() == 0 {
        Seq::<Addr>::empty()
    } else {
        addresses_of(s.drop_last()) + (match s.last().1 {
            Child::Process(p) => p.addresses@,
            Child::Unidentified(_) => Seq::<Addr>::empty(),
        })
    }
}

/// The live children of the tree, each under the number of its process.
pub struct Children {
    entries: Vec<(i32, Child)>,
}

impl View for Children {
    type V = Seq<(i32, Child)>;

    /// The children, in the order in which their processes came in.
    closed spec fn view(&self) -> Seq<(i32, Child)> {
        self.entries@
    }
}

impl Children {
    #[verifier::type_invariant]
    spec fn well_formed(self) -> bool {
        distinct_pids(self.entries@)
    }

    /// No children.
    pub fn new() -> (c: Children)
        ensures
            c@ == Seq::<(i32, Child)>::empty(),
    {
        Children { entries: Vec::new() }
    }

    /// The number of children.
    pub fn len(&self) -> (n: usize)
        ensures
            n == self@.len(),
            distinct_pids(self@),
    {
        proof {
            use_type_invariant(self);
        }
        self.entries.len()
    }

    fn find(&self, pid: i32) -> (k: usize)
        ensures
            k == slot(self@, pid),
            k <= self@.len(),
    {
        let mut k: usize = 0;
        while k < self.entries.len() && self.entries[k].0 != pid
            invariant
                k <= self.entries.len(),
                forall|i: int| 0 <= i < k ==> self.entries@[i].0 != pid,
            decreases self.entries.len() - k,
        {
            k += 1;
        }
        proof {
            lemma_slot(self.entries@, pid);
        }
        k
    }

    /// Is process `pid` one of the children?
    pub fn contains_key(&self, pid: i32) -> (r: bool)
        ensures
            r == alive(self@, pid),
    {
        let k = self.find(pid);
        k < self.entries.len()
    }

    /// The child that runs as process `pid`.
    pub fn get(&self, pid: i32) -> (c: Option<&Child>)
        ensures
            match c {
                Some(child) => child_at(self@, pid) == Some(*child),
                None => child_at(self@, pid) is None,
            },
    {
        let k = self.find(pid);
        if k < self.entries.len() {
            Some(&self.entries[k].1)
        } else {
            None
        }
    }

    /// Notes `child` as process `pid`. A child noted for `pid` before
    /// leaves, and is returned.
    pub fn insert(&mut self, pid: i32, child: Child) -> (was: Option<Child>)
        ensures
            final(self)@ == with_child(old(self)@, pid, child),
            was == child_at(old(self)@, pid),
            distinct_pids(final(self)@),
    {
        proof {
            use_type_invariant(&*self);
            lemma_slot(self.entries@, pid);
        }
        let k = self.find(pid);
        let mut entries: Vec<(i32, Child)> = Vec::new();
        core::mem::swap(&mut self.entries, &mut entries);
        let was = if k < entries.len() {
            let old_entry = entries.remove(k);
            entries.insert(k, (pid, child));
            assert(entries@ =~= old(self)@.update(k as int, (pid, child)));
            Some(old_entry.1)
        } else {
            entries.push((pid, child));
            None
        };
        self.entries = entries;
        was
    }

    /// Takes out the child that runs as process `pid`.
    pub fn remove(&mut self, pid: i32) -> (was: Option<Child>)
        ensures
            final(self)@ == without_child(old(self)@, pid),
            was == child_at(old(self)@, pid),
            distinct_pids(final(self)@),
            !alive(final(self)@, pid),
    {
        proof {
            use_type_invariant(&*self);
            lemma_slot(self.entries@, pid);
        }
        let k = self.find(pid);
        let mut entries: Vec<(i32, Child)> = Vec::new();
        core::mem::swap(&mut self.entries, &mut entries);
        let was = if k < entries.len() {
            let old_entry = entries.remove(k);
            Some(old_entry.1)
        } else {
            None
        };
        proof {
            lemma_slot(entries@, pid);
        }
        self.entries = entries;
        was
    }

    /// The processes of all children, in order.
    pub fn pids(&self) -> (v: Vec<i32>)
        ensures
            v@ == pids_of(self@),
    {
        let mut v: Vec<i32> = Vec::new();
        let mut i: usize = 0;
        while i < self.entries.len()
            invariant
                i <= self.entries.len(),
                v@.len() == i,
                forall|k: int| 0 <= k < i ==> v@[k] == self.entries@[k].0,
            decreases self.entries.len() - i,
        {
            v.push(self.entries[i].0);
            i += 1;
        }
        assert(v@ =~= pids_of(self@));
        v
    }

    /// The addresses that the children have sockets for.
    pub fn used_addresses(&self) -> (v: Vec<Addr>)
        ensures
            v@ == addresses_of(self@),
    {
        let mut v: Vec<Addr> = Vec::new();
        let mut i: usize = 0;
        assert(self.entries@.take(0) =~= Seq::<(i32, Child)>::empty());
        while i < self.entries.len()
            invariant
                i <= self.entries.len(),
                v@ == addresses_of(self.entries@.take(i as int)),
            decreases self.entries.len() - i,
        {
            proof {
                assert(self.entries@.take(i as int + 1).drop_last() =~= self.entries@.take(
                    i as int,
                ));
                assert(self.entries@.take(i as int + 1).last() == self.entries@[i as int]);
            }
            match &self.entries[i].1 {
                Child::Process(p) => {
                    let ghost before = v@;
                    let mut j: usize = 0;
                    while j < p.addresses.len()
                        invariant
                            j <= p.addresses.len(),
                            v@ == before + p.addresses@.take(j as int),
                        decreases p.addresses.len() - j,
                    {
                        v.push(p.addresses[j]);
                        assert(p.addresses@.take(j as int + 1) =~= p.addresses@.take(
                            j as int,
                        ).push(p.addresses@[j as int]));
                        j += 1;
                    }
                    assert(p.addresses@.take(p.addresses.len() as int) =~= p.addresses@);
                },
                Child::Unidentified(_) => {
                    assert(v@ + Seq::<Addr>::empty() =~= v@);
                },
            }
            i += 1;
        }
        assert(self.entries@.take(self.entries.len() as int) =~= self.entries@);
        v
    }
}

/// What the tree counts. Counters only go up, and start again at zero
/// when they overflow; gauges go up and down.
#[derive(Clone, Copy, Debug, PartialEq, Eq, Structural)]
pub struct Metrics {
    /// Counter: starts of the tree itself.
    pub restarts: u64,
    /// Gauge: sandboxes read.
    pub sandboxes: i64,
    /// Gauge: instances configured.
    pub containers: i64,
    /// Gauge: actions in the queue.
    pub queue: i64,
    /// Counter: launchers that the tree tried to start.
    pub started: u64,
    /// Counter: launchers that could not be started or ended in failure.
    pub failures: u64,
    /// Counter: launchers that ended.
    pub deaths: u64,
    /// Gauge: launchers of configured instances that run.
    pub running: i64,
    /// Gauge: children that no configured instance accounts for.
    pub unknown: i64,
}

/// A counter after one more event.
pub open spec fn count_up(x: u64) -> u64 {
    if x == u64::MAX {
        0
    } else {
        (x + 1) as u64
    }
}

/// A gauge after it went up by one.
pub open spec fn gauge_up(x: i64) -> i64 {
    if x == i64::MAX {
        i64::MIN
    } else {
        (x + 1) as i64
    }
}

/// A gauge after it went down by one.
pub open spec fn gauge_down(x: i64) -> i64 {
    if x == i64::MIN {
        i64::MAX
    } else {
        (x - 1) as i64
    }
}

/// A length as a gauge shows it.
pub open spec fn gauge_of(n: nat) -> i64 {
    if n <= i64::MAX {
        n as i64
    } else {
        i64::MAX
    }
}

fn counted(x: u64) -> (r: u64)
    ensures
        r == count_up(x),
{
    if x == u64::MAX {
        0
    } else {
        x + 1
    }
}

fn raised(x: i64) -> (r: i64)
    ensures
        r == gauge_up(x),
{
    if x == i64::MAX {
        i64::MIN
    } else {
        x + 1
    }
}

fn lowered(x: i64) -> (r: i64)
    ensures
        r == gauge_down(x),
{
    if x == i64::MIN {
        i64::MAX
    } else {
        x - 1
    }
}

fn as_gauge(n: usize) -> (r: i64)
    ensures
        r == gauge_of(n as nat),
{
    if n as u64 <= i64::MAX as u64 {
        n as i64
    } else {
        i64::MAX
    }
}

impl Metrics {
    /// All counters and gauges at zero.
    pub fn new() -> (m: Metrics)
        ensures
            m == (Metrics {
                restarts: 0,
                sandboxes: 0,
                containers: 0,
                queue: 0,
                started: 0,
                failures: 0,
                deaths: 0,
                running: 0,
                unknown: 0,
            }),
    {
        Metrics {
            restarts: 0,
            sandboxes: 0,
            containers: 0,
            queue: 0,
            started: 0,
            failures: 0,
            deaths: 0,
            running: 0,
            unknown: 0,
        }
    }

    /// The counts at the start of a tree that has read `sandboxes`
    /// sandboxes with `containers` instances, given the counts that an
    /// earlier tree left: one more restart, nothing running yet.
    pub fn at_start(self, containers: usize, sandboxes: usize) -> (m: Metrics)
        ensures
            m == (Metrics {
                restarts: count_up(self.restarts),
                containers: gauge_of(containers as nat),
                sandboxes: gauge_of(sandboxes as nat),
                running: 0,
                ..self
            }),
    {
        Metrics {
            restarts: counted(self.restarts),
            containers: as_gauge(containers),
            sandboxes: as_gauge(sandboxes),
            running: 0,
            ..self
        }
    }
}

/// How the attempt to start an instance ended.
#[derive(Clone, Copy, Debug, PartialEq, Eq, Structural)]
pub enum Started {
    /// Its sockets could not be opened; no launcher was started.
    NoSockets,
    /// The launcher could not be started.
    NoSpawn,
    /// The launcher runs as this process.
    Running(i32),
}

/// A signal that the tree waits for.
#[derive(Clone, Copy, Debug, PartialEq, Eq, Structural)]
pub enum Signal {
    /// An interrupt from the terminal, which reaches the children too.
    Interrupt,
    /// A request to stop, which reaches the tree alone.
    Terminate,
    /// A child has ended.
    ChildEnded,
}

/// What the tree does about a signal.
pub enum Reaction {
    /// Reap the children that ended.
    Reap,
    /// Leave the normal loop for the shutdown loop, after sending the
    /// request to stop to these processes.
    Shutdown(Vec<i32>),
}

/// What a reaped process was, and what is left to clean up after it.
pub enum Reaped {
    /// The launcher of a configured instance.
    Process {
        name: String,
        sandbox: String,
        family: String,
        /// Whether the instance starts again, so that only its state
        /// directory is cleaned.
        temporary: bool,
        /// Whether its end counts as a failure.
        failed: bool,
    },
    /// A launcher that no configured instance accounted for.
    Unidentified { name: String },
    /// No child of the tree.
    Unknown,
}

/// The state of the tree, as the contracts see it.
pub struct TreeState {
    pub queue: Seq<(u64, Timeout)>,
    pub children: Seq<(i32, Child)>,
    pub sockets: Seq<Socket>,
    pub metrics: Metrics,
}

/// The tree supervisor's state.
pub struct Tree {
    /// The actions that wait for their time.
    pub queue: Queue<Timeout>,
    /// The children that run.
    pub children: Children,
    /// The listening sockets held for the children.
    pub sockets: SocketPool,
    /// The counts published.
    pub metrics: Metrics,
}

impl View for Tree {
    type V = TreeState;

    open spec fn view(&self) -> TreeState {
        TreeState {
            queue: self.queue@,
            children: self.children@,
            sockets: self.sockets@,
            metrics: self.metrics,
        }
    }
}

/// `q` after `action` was queued for `deadline`, behind what is due then
/// or earlier.
pub open spec fn queued(q: Seq<(u64, Timeout)>, deadline: u64, action: Timeout) -> Seq<
    (u64, Timeout),
> {
    q.insert(due_count(q, deadline) as int, (deadline, action))
}

/// The earliest instant at which `child`, started at `now`, starts again.
pub open spec fn restart_at(child: Process, now: u64) -> u64 {
    (now + child.restart_timeout) as u64
}

/// Does the end `status` of a launcher count as a failure? While the tree
/// runs, every end but an exit with code zero does: a launcher turns a
/// normal end of its workload into that. While the tree shuts down, an end
/// by the request to stop does.
pub open spec fn counts_as_failure(status: ExitStatus, shutting_down: bool) -> bool {
    if shutting_down {
        status == ExitStatus::Signaled(SIGTERM)
    } else {
        status != ExitStatus::Exited(0)
    }
}

impl TreeState {
    /// The state after the attempt to start `child` at `now` ended with
    /// `result`. A launcher that runs is a child, and may start again
    /// `restart_timeout` after `now`. An instance that did not start is
    /// queued for that instant.
    pub open spec fn after_start(self, child: Process, result: Started, now: u64) -> TreeState {
        let again = restart_at(child, now);
        match result {
            Started::NoSockets => {
                let queue = queued(self.queue, again, Timeout::Start(child));
                TreeState {
                    queue,
                    metrics: Metrics { queue: gauge_of(queue.len()), ..self.metrics },
                    ..self
                }
            },
            Started::NoSpawn => {
                let queue = queued(self.queue, again, Timeout::Start(child));
                TreeState {
                    queue,
                    metrics: Metrics {
                        queue: gauge_of(queue.len()),
                        started: count_up(self.metrics.started),
                        failures: count_up(self.metrics.failures),
                        deaths: count_up(self.metrics.deaths),
                        ..self.metrics
                    },
                    ..self
                }
            },
            Started::Running(pid) => TreeState {
                children: with_child(
                    self.children,
                    pid,
                    Child::Process(Process { restart_min: again, ..child }),
                ),
                metrics: Metrics {
                    queue: gauge_of(self.queue.len()),
                    started: count_up(self.metrics.started),
                    running: gauge_up(self.metrics.running),
                    ..self.metrics
                },
                ..self
            },
        }
    }

    /// The state after process `pid` ended with `status` and was reaped.
    /// The launcher of a configured instance leaves the children; while
    /// the tree runs it is queued to start at its earliest instant. A
    /// launcher without a configured instance leaves the children. A
    /// process that is no child changes nothing.
    pub open spec fn after_reap(self, pid: i32, status: ExitStatus, shutting_down: bool) -> TreeState {
        match child_at(self.children, pid) {
            None => self,
            Some(Child::Unidentified(_)) => TreeState {
                children: without_child(self.children, pid),
                metrics: Metrics { unknown: gauge_down(self.metrics.unknown), ..self.metrics },
                ..self
            },
            Some(Child::Process(p)) => {
                let queue = if shutting_down {
                    self.queue
                } else {
                    queued(self.queue, p.restart_min, Timeout::Start(p))
                };
                TreeState {
                    queue,
                    children: without_child(self.children, pid),
                    metrics: Metrics {
                        deaths: count_up(self.metrics.deaths),
                        failures: if counts_as_failure(status, shutting_down) {
                            count_up(self.metrics.failures)
                        } else {
                            self.metrics.failures
                        },
                        running: gauge_down(self.metrics.running),
                        queue: if shutting_down {
                            self.metrics.queue
                        } else {
                            gauge_of(queue.len())
                        },
                        ..self.metrics
                    },
                    ..self
                }
            },
        }
    }

    /// The state after the processes `zombies` were reaped one after the
    /// other.
    pub open spec fn after_reaps(self, zombies: Seq<(i32, ExitStatus)>, shutting_down: bool) -> TreeState
        decreases zombies.len(),
    {
        if zombies.len() == 0 {
            self
        } else {
            self.after_reaps(zombies.drop_last(), shutting_down).after_reap(
                zombies.last().0,
                zombies.last().1,
                shutting_down,
            )
        }
    }
}

/// Does `r` report the reaping of `child`, as process `pid` of the
/// children, with the end `status`?
pub open spec fn reports(r: Reaped, child: Option<Child>, status: ExitStatus, shutting_down: bool) -> bool {
    match child {
        None => r is Unknown,
        Some(Child::Unidentified(n)) => (r matches Reaped::Unidentified { name } && name@ == n@),
        Some(Child::Process(p)) => {
            &&& r matches Reaped::Process { name, sandbox, family, temporary, failed }
            &&& name@ == p.name@
            &&& sandbox@ == p.base_name.0@
            &&& family@ == p.base_name.1@
            &&& temporary == !shutting_down
            &&& failed == counts_as_failure(status, shutting_down)
        },
    }
}

impl Tree {
    /// A tree without children, sockets or queued actions.
    pub fn new(metrics: Metrics) -> (t: Tree)
        ensures
            t@ == (TreeState {
                queue: Seq::<(u64, Timeout)>::empty(),
                children: Seq::<(i32, Child)>::empty(),
                sockets: Seq::<Socket>::empty(),
                metrics,
            }),
    {
        Tree { queue: Queue::new(), children: Children::new(), sockets: SocketPool::new(), metrics }
    }

    /// Takes the actions that are due at `now` out of the queue, in the
    /// order of their deadlines.
    pub fn due(&mut self, now: u64) -> (due: Vec<Timeout>)
        ensures
            due@ == actions(old(self).queue@.take(due_count(old(self).queue@, now) as int)),
            final(self)@ == (TreeState {
                queue: old(self).queue@.skip(due_count(old(self).queue@, now) as int),
                ..old(self)@
            }),
            forall|i: int| 0 <= i < due@.len() ==> (#[trigger] old(self).queue@[i]).0 <= now,
            forall|i: int|
                0 <= i < final(self).queue@.len() ==> (#[trigger] final(self).queue@[i]).0 > now,
    {
        self.queue.pop_until(now)
    }

    /// Is the process of a due `Kill` action still to be killed? Only a
    /// process that is still a child is.
    pub fn should_kill(&self, pid: i32) -> (r: bool)
        ensures
            r == alive(self.children@, pid),
    {
        self.children.contains_key(pid)
    }

    /// Notes how the attempt to start `child` at `now` ended.
    pub fn started(&mut self, child: Process, result: Started, now: u64)
        requires
            now + child.restart_timeout <= u64::MAX,
        ensures
            final(self)@ == old(self)@.after_start(child, result, now),
    {
        let again: u64 = now + child.restart_timeout;
        match result {
            Started::NoSockets => {
                self.queue.add(again, Timeout::Start(child));
                self.metrics.queue = as_gauge(self.queue.len());
            },
            Started::NoSpawn => {
                self.queue.add(again, Timeout::Start(child));
                self.metrics.started = counted(self.metrics.started);
                self.metrics.failures = counted(self.metrics.failures);
                self.metrics.deaths = counted(self.metrics.deaths);
                self.metrics.queue = as_gauge(self.queue.len());
            },
            Started::Running(pid) => {
                let mut child = child;
                child.restart_min = again;
                self.children.insert(pid, Child::Process(child));
                self.metrics.started = counted(self.metrics.started);
                self.metrics.running = raised(self.metrics.running);
                self.metrics.queue = as_gauge(self.queue.len());
            },
        }
    }

    /// Drops the sockets that no child has an address for, and returns
    /// their descriptors, which the caller closes.
    pub fn close_unused_sockets(&mut self) -> (closed: Vec<i32>)
        ensures
            closed@ == idle_fds(old(self).sockets@, addresses_of(old(self).children@)),
            final(self)@ == (TreeState {
                sockets: in_use(old(self).sockets@, addresses_of(old(self).children@)),
                ..old(self)@
            }),
    {
        let used = self.children.used_addresses();
        self.sockets.gc(&used)
    }

    /// Until when to wait for the next signal: until the first queued
    /// action is due, or without end if nothing is queued.
    pub fn wait_until(&self) -> (t: Option<u64>)
        ensures
            self.queue@.len() == 0 ==> t is None,
            self.queue@.len() > 0 ==> t == Some(self.queue@[0].0),
    {
        self.queue.peek_time()
    }

    /// What the tree does about a signal while it runs: it reaps after a
    /// child's end, and goes on to shut down after an interrupt or a
    /// request to stop; only the request to stop is sent on to all
    /// children.
    pub fn on_signal(&self, signal: Signal) -> (r: Reaction)
        ensures
            signal == Signal::ChildEnded ==> r is Reap,
            signal == Signal::Interrupt ==> (r matches Reaction::Shutdown(pids) && pids@
                == Seq::<i32>::empty()),
            signal == Signal::Terminate ==> (r matches Reaction::Shutdown(pids) && pids@
                == pids_of(self.children@)),
    {
        match signal {
            Signal::ChildEnded => Reaction::Reap,
            Signal::Interrupt => Reaction::Shutdown(Vec::new()),
            Signal::Terminate => Reaction::Shutdown(self.children.pids()),
        }
    }

    /// The processes to send the request to stop to, for a signal that
    /// arrives while the tree shuts down: all children for a request to
    /// stop, none for any other signal.
    pub fn on_signal_in_shutdown(&self, signal: Signal) -> (pids: Vec<i32>)
        ensures
            signal == Signal::Terminate ==> pids@ == pids_of(self.children@),
            signal != Signal::Terminate ==> pids@ == Seq::<i32>::empty(),
    {
        match signal {
            Signal::Terminate => self.children.pids(),
            _ => Vec::new(),
        }
    }

    /// Has the shutdown come to its end? It has when no child is left.
    pub fn is_done(&self) -> (r: bool)
        ensures
            r == (self.children@.len() == 0),
    {
        self.children.len() == 0
    }

    /// Notes that process `pid` ended with `status` and was reaped, while
    /// the tree runs or while it shuts down.
    pub fn reaped(&mut self, pid: i32, status: ExitStatus, shutting_down: bool) -> (r: Reaped)
        ensures
            final(self)@ == old(self)@.after_reap(pid, status, shutting_down),
            reports(r, child_at(old(self).children@, pid), status, shutting_down),
    {
        let failed = if shutting_down {
            status == ExitStatus::Signaled(SIGTERM)
        } else {
            status != ExitStatus::Exited(0)
        };
        match self.children.remove(pid) {
            None => Reaped::Unknown,
            Some(Child::Unidentified(name)) => {
                self.metrics.unknown = lowered(self.metrics.unknown);
                Reaped::Unidentified { name }
            },
            Some(Child::Process(p)) => {
                let name = p.name.clone();
                let sandbox = p.base_name.0.clone();
                let family = p.base_name.1.clone();
                self.metrics.deaths = counted(self.metrics.deaths);
                if failed {
                    self.metrics.failures = counted(self.metrics.failures);
                }
                self.metrics.running = lowered(self.metrics.running);
                if !shutting_down {
                    let at = p.restart_min;
                    self.queue.add(at, Timeout::Start(p));
                    self.metrics.queue = as_gauge(self.queue.len());
                }
                Reaped::Process { name, sandbox, family, temporary: !shutting_down, failed }
            },
        }
    }

    /// Notes the end of every process of `zombies`, in order, and reports
    /// on each.
    pub fn reap_all(&mut self, zombies: &Vec<(i32, ExitStatus)>, shutting_down: bool) -> (out: Vec<Reaped>)
        ensures
            final(self)@ == old(self)@.after_reaps(zombies@, shutting_down),
            out@.len() == zombies@.len(),
            forall|i: int|
                0 <= i < zombies@.len() ==> reports(
                    #[trigger] out@[i],
                    child_at(
                        old(self)@.after_reaps(zombies@.take(i), shutting_down).children,
                        zombies@[i].0,
                    ),
                    zombies@[i].1,
                    shutting_down,
                ),
    {
        let mut out: Vec<Reaped> = Vec::new();
        let mut i: usize = 0;
        assert(zombies@.take(0) =~= Seq::<(i32, ExitStatus)>::empty());
        while i < zombies.len()
            invariant
                i <= zombies.len(),
                out@.len() == i,
                self@ == old(self)@.after_reaps(zombies@.take(i as int), shutting_down),
                forall|k: int|
                    0 <= k < i ==> reports(
                        #[trigger] out@[k],
                        child_at(
                            old(self)@.after_reaps(zombies@.take(k), shutting_down).children,
                            zombies@[k].0,
                        ),
                        zombies@[k].1,
                        shutting_down,
                    ),
            decreases zombies.len() - i,
        {
            proof {
                assert(zombies@.take(i as int + 1).drop_last() =~= zombies@.take(i as int));
                assert(zombies@.take(i as int + 1).last() == zombies@[i as int]);
            }
            let r = self.reaped(zombies[i].0, zombies[i].1, shutting_down);
            out.push(r);
            i += 1;
        }
        assert(zombies@.take(zombies.len() as int) =~= zombies@);
        out
    }
}

/// What the command line of a child process shows it to be.
pub enum Found {
    /// A launcher, with the instance name and the configuration that it
    /// was started with.
    Normal { name: String, config: String },
    /// A process that has ended and waits to be reaped.
    Zombie,
    /// A process whose command line could not be read.
    Error,
    /// A process that does not look like a launcher.
    Unidentified,
}

/// The index in `pending` of the first instance named `name`, or the
/// length of `pending`.
pub open spec fn pending_slot(pending: Seq<Process>, name: Seq<char>) -> int
    decreases pending.len(),
{
    if pending.len() == 0 {
        0
    } else if pending[0].name@ == name {
        0
    } else {
        1 + pending_slot(pending.drop_first(), name)
    }
}

/// `pending_slot(pending, name)` is the first index at which an instance
/// named `name` stands.
pub proof fn lemma_pending_slot(pending: Seq<Process>, name: Seq<char>)
    ensures
        0 <= pending_slot(pending, name) <= pending.len(),
        pending_slot(pending, name) < pending.len() ==> pending[pending_slot(
            pending,
            name,
        )].name@ == name,
        forall|i: int| 0 <= i < pending_slot(pending, name) ==> pending[i].name@ != name,
    decreases pending.len(),
{
    if pending.len() > 0 && pending[0].name@ != name {
        let t = pending.drop_first();
        lemma_pending_slot(t, name);
        assert forall|i: int| 0 <= i < pending_slot(pending, name) implies pending[i].name@
            != name by {
            if i > 0 {
                assert(pending[i] == t[i - 1]);
            }
        }
    }
}

/// Where the recovery of running children stands.
pub struct Recovery {
    /// The tree.
    pub tree: TreeState,
    /// The configured instances that no running launcher accounts for yet.
    pub pending: Seq<Process>,
    /// The processes to send the request to stop to.
    pub signals: Seq<i32>,
}

impl Recovery {
    /// Recovery after the child process `pid` was looked at. A launcher
    /// of a pending instance is taken on as that instance; it is asked to
    /// stop if it was started with another configuration than the
    /// instance has now, so that it starts again with the new one. A
    /// launcher of no pending instance is taken on by its name alone and
    /// asked to stop. A process that is no launcher is asked to stop, and
    /// a `Kill` is queued for it at `kill_timeout` after `now`. A zombie
    /// or an unreadable process is left alone.
    pub open spec fn step(self, pid: i32, found: Found, now: u64, kill_timeout: u64) -> Recovery {
        match found {
            Found::Normal { name, config } => {
                let k = pending_slot(self.pending, name@);
                if k < self.pending.len() {
                    let child = self.pending[k];
                    Recovery {
                        tree: TreeState {
                            children: with_child(self.tree.children, pid, Child::Process(child)),
                            metrics: Metrics {
                                running: gauge_up(self.tree.metrics.running),
                                ..self.tree.metrics
                            },
                            ..self.tree
                        },
                        pending: self.pending.remove(k),
                        signals: if child.config@ != config@ {
                            self.signals.push(pid)
                        } else {
                            self.signals
                        },
                    }
                } else {
                    Recovery {
                        tree: TreeState {
                            children: with_child(
                                self.tree.children,
                                pid,
                                Child::Unidentified(name),
                            ),
                            metrics: Metrics {
                                unknown: gauge_up(self.tree.metrics.unknown),
                                ..self.tree.metrics
                            },
                            ..self.tree
                        },
                        signals: self.signals.push(pid),
                        ..self
                    }
                }
            },
            Found::Zombie => self,
            Found::Error => self,
            Found::Unidentified => Recovery {
                tree: TreeState {
                    queue: queued(
                        self.tree.queue,
                        (now + kill_timeout) as u64,
                        Timeout::Kill(pid),
                    ),
                    metrics: Metrics {
                        unknown: gauge_up(self.tree.metrics.unknown),
                        ..self.tree.metrics
                    },
                    ..self.tree
                },
                signals: self.signals.push(pid),
                ..self
            },
        }
    }

    /// Recovery after the child processes `found` were looked at in order.
    pub open spec fn steps(self, found: Seq<(i32, Found)>, now: u64, kill_timeout: u64) -> Recovery
        decreases found.len(),
    {
        if found.len() == 0 {
            self
        } else {
            self.steps(found.drop_last(), now, kill_timeout).step(
                found.last().0,
                found.last().1,
                now,
                kill_timeout,
            )
        }
    }

    /// Every process of `found` is the launcher of an instance that is
    /// pending when its turn comes, started with the configuration that
    /// the instance has now.
    pub open spec fn all_current(self, found: Seq<(i32, Found)>, now: u64, kill_timeout: u64) -> bool
        decreases found.len(),
    {
        if found.len() == 0 {
            true
        } else {
            let before = self.steps(found.drop_last(), now, kill_timeout);
            &&& self.all_current(found.drop_last(), now, kill_timeout)
            &&& found.last().1 matches Found::Normal { name, config }
            &&& pending_slot(before.pending, name@) < before.pending.len()
            &&& before.pending[pending_slot(before.pending, name@)].config@ == config@
        }
    }
}

/// The queue after each of `pending` was queued to start at `now`, in
/// order.
pub open spec fn scheduled(q: Seq<(u64, Timeout)>, pending: Seq<Process>, now: u64) -> Seq<
    (u64, Timeout),
>
    decreases pending.len(),
{
    if pending.len() == 0 {
        q
    } else {
        queued(scheduled(q, pending.drop_last(), now), now, Timeout::Start(pending.last()))
    }
}

/// Finds the first instance named `name`.
pub fn find_pending(pending: &Vec<Process>, name: &String) -> (k: usize)
    ensures
        k == pending_slot(pending@, name@),
        k <= pending@.len(),
{
    let mut k: usize = 0;
    while k < pending.len() && !(pending[k].name == *name)
        invariant
            k <= pending.len(),
            forall|i: int| 0 <= i < k ==> pending@[i].name@ != name@,
        decreases pending.len() - k,
    {
        k += 1;
    }
    proof {
        lemma_pending_slot(pending@, name@);
    }
    k
}

impl Tree {
    /// Takes on the child processes `found`, which an earlier tree left
    /// running, and returns the processes to send the request to stop to.
    /// What stays in `pending` has no launcher and is to be started.
    pub fn recover_processes(
        &mut self,
        pending: &mut Vec<Process>,
        found: &Vec<(i32, Found)>,
        now: u64,
        kill_timeout: u64,
    ) -> (signals: Vec<i32>)
        requires
            now + kill_timeout <= u64::MAX,
        ensures
            (Recovery { tree: final(self)@, pending: final(pending)@, signals: signals@ }) == (Recovery {
                tree: old(self)@,
                pending: old(pending)@,
                signals: Seq::<i32>::empty(),
            }).steps(found@, now, kill_timeout),
    {
        let ghost start = Recovery {
            tree: self@,
            pending: pending@,
            signals: Seq::<i32>::empty(),
        };
        let mut signals: Vec<i32> = Vec::new();
        let mut i: usize = 0;
        assert(found@.take(0) =~= Seq::<(i32, Found)>::empty());
        while i < found.len()
            invariant
                i <= found.len(),
                now + kill_timeout <= u64::MAX,
                (Recovery { tree: self@, pending: pending@, signals: signals@ }) == start.steps(
                    found@.take(i as int),
                    now,
                    kill_timeout,
                ),
            decreases found.len() - i,
        {
            proof {
                assert(found@.take(i as int + 1).drop_last() =~= found@.take(i as int));
                assert(found@.take(i as int + 1).last() == found@[i as int]);
            }
            let pid = found[i].0;
            match &found[i].1 {
                Found::Normal { name, config } => {
                    let k = find_pending(pending, name);
                    if k < pending.len() {
                        let child = pending.remove(k);
                        if !(child.config == *config) {
                            signals.push(pid);
                        }
                        self.metrics.running = raised(self.metrics.running);
                        self.children.insert(pid, Child::Process(child));
                    } else {
                        self.children.insert(pid, Child::Unidentified(name.clone()));
                        signals.push(pid);
                        self.metrics.unknown = raised(self.metrics.unknown);
                    }
                },
                Found::Zombie => {},
                Found::Error => {},
                Found::Unidentified => {
                    signals.push(pid);
                    self.queue.add(now + kill_timeout, Timeout::Kill(pid));
                    self.metrics.unknown = raised(self.metrics.unknown);
                },
            }
            i += 1;
        }
        assert(found@.take(found.len() as int) =~= found@);
        signals
    }

    /// Queues every instance of `pending` to start at `now`.
    pub fn schedule_new_workers(&mut self, pending: Vec<Process>, now: u64)
        ensures
            final(self)@ == (TreeState {
                queue: scheduled(old(self).queue@, pending@, now),
                metrics: Metrics {
                    queue: gauge_of(scheduled(old(self).queue@, pending@, now).len()),
                    ..old(self).metrics
                },
                ..old(self)@
            }),
    {
        let ghost all = pending@;
        let mut pending = pending;
        let ghost mut done: int = 0;
        assert(all.take(0) =~= Seq::<Process>::empty());
        while pending.len() > 0
            invariant
                0 <= done <= all.len(),
                pending@ == all.skip(done),
                self.queue@ == scheduled(old(self).queue@, all.take(done), now),
                self.children@ == old(self).children@,
                self.sockets@ == old(self).sockets@,
                self.metrics == old(self).metrics,
            decreases pending.len(),
        {
            proof {
                assert(all.take(done + 1).drop_last() =~= all.take(done));
                assert(all.take(done + 1).last() == all[done]);
                assert(pending@[0] == all[done]);
                assert(pending@.remove(0) =~= all.skip(done + 1));
            }
            let p = pending.remove(0);
            self.queue.add(now, Timeout::Start(p));
            proof {
                done = done + 1;
            }
        }
        assert(all.take(done) =~= all);
        self.metrics.queue = as_gauge(self.queue.len());
    }
}

/// A child stays a child when another process is noted, and the process
/// noted is a child.
pub proof fn lemma_with_child_alive(s: Seq<(i32, Child)>, pid: i32, child: Child, other: i32)
    ensures
        alive(with_child(s, pid, child), pid),
        alive(s, other) ==> alive(with_child(s, pid, child), other),
{
    let t = with_child(s, pid, child);
    lemma_slot(s, pid);
    lemma_slot(s, other);
    lemma_slot(t, pid);
    lemma_slot(t, other);
    if alive(s, pid) {
        assert(t[slot(s, pid)].0 == pid);
        if alive(s, other) {
            assert(t[slot(s, other)].0 == other);
        }
    } else {
        assert(t[s.len() as int].0 == pid);
        if alive(s, other) {
            assert(t[slot(s, other)].0 == other);
        }
    }
}

/// A tree that starts again while its configuration has not changed takes
/// on every launcher that it finds, asks none of them to stop, and queues
/// nothing against them.
pub proof fn lemma_recover_unchanged(
    start: Recovery,
    found: Seq<(i32, Found)>,
    now: u64,
    kill_timeout: u64,
)
    requires
        start.all_current(found, now, kill_timeout),
    ensures
        start.steps(found, now, kill_timeout).signals == start.signals,
        start.steps(found, now, kill_timeout).tree.queue == start.tree.queue,
        forall|k: int|
            0 <= k < found.len() ==> alive(
                start.steps(found, now, kill_timeout).tree.children,
                (#[trigger] found[k]).0,
            ),
        forall|pid: i32|
            alive(start.tree.children, pid) ==> alive(
                start.steps(found, now, kill_timeout).tree.children,
                pid,
            ),
    decreases found.len(),
{
    if found.len() > 0 {
        let init = found.drop_last();
        lemma_recover_unchanged(start, init, now, kill_timeout);
        let before = start.steps(init, now, kill_timeout);
        let after = start.steps(found, now, kill_timeout);
        let pid = found.last().0;
        assert(after == before.step(pid, found.last().1, now, kill_timeout));
        assert forall|k: int| 0 <= k < found.len() implies alive(
            after.tree.children,
            (#[trigger] found[k]).0,
        ) by {
            if k < init.len() {
                assert(init[k] == found[k]);
                lemma_with_child_alive(
                    before.tree.children,
                    pid,
                    Child::Process(
                        before.pending[pending_slot(
                            before.pending,
                            found.last().1->Normal_name@,
                        )],
                    ),
                    found[k].0,
                );
            } else {
                lemma_with_child_alive(
                    before.tree.children,
                    pid,
                    Child::Process(
                        before.pending[pending_slot(
                            before.pending,
                            found.last().1->Normal_name@,
                        )],
                    ),
                    pid,
                );
            }
        }
        assert forall|p: i32| alive(start.tree.children, p) implies alive(
            after.tree.children,
            p,
        ) by {
            lemma_with_child_alive(
                before.tree.children,
                pid,
                Child::Process(
                    before.pending[pending_slot(before.pending, found.last().1->Normal_name@)],
                ),
                p,
            );
        }
    }
}

/// The child noted for a process is the child found for it.
pub proof fn lemma_child_noted(s: Seq<(i32, Child)>, pid: i32, child: Child)
    ensures
        child_at(with_child(s, pid, child), pid) == Some(child),
{
    let t = with_child(s, pid, child);
    lemma_slot(s, pid);
    lemma_slot(t, pid);
    if alive(s, pid) {
        assert(t[slot(s, pid)].0 == pid);
        assert forall|i: int| 0 <= i < slot(s, pid) implies t[i].0 != pid by {
            assert(t[i] == s[i]);
        }
    } else {
        assert(t[s.len() as int].0 == pid);
        assert forall|i: int| 0 <= i < s.len() implies t[i].0 != pid by {
            assert(t[i] == s[i]);
        }
    }
}

/// A daemon starts again no sooner than its restart timeout after its
/// last start: when a launcher that was started at `now` ends while the
/// tree runs, its instance is queued for `now` plus the timeout, and is
/// not among what is due before.
pub proof fn lemma_restart_after_timeout(
    s: TreeState,
    child: Process,
    pid: i32,
    now: u64,
    status: ExitStatus,
    t: u64,
)
    requires
        now + child.restart_timeout <= u64::MAX,
        crate::timer_queue::ordered(s.queue),
        t < now + child.restart_timeout,
    ensures
        ({
            let ended = s.after_start(child, Started::Running(pid), now).after_reap(
                pid,
                status,
                false,
            );
            let at = due_count(s.queue, restart_at(child, now)) as int;
            &&& 0 <= at <= s.queue.len()
            &&& ended.queue == s.queue.insert(
                at,
                (
                    restart_at(child, now),
                    Timeout::Start(Process { restart_min: restart_at(child, now), ..child }),
                ),
            )
            &&& due_count(ended.queue, t) <= at
        }),
{
    let started = s.after_start(child, Started::Running(pid), now);
    let again = restart_at(child, now);
    let kept = Process { restart_min: again, ..child };
    lemma_child_noted(s.children, pid, Child::Process(kept));
    let ended = started.after_reap(pid, status, false);
    let at = due_count(s.queue, again) as int;
    crate::timer_queue::lemma_due_count(s.queue, again);
    assert(ended.queue == s.queue.insert(at, (again, Timeout::Start(kept))));
    assert(crate::timer_queue::ordered(ended.queue)) by {
        assert forall|i: int, j: int| 0 <= i <= j < ended.queue.len() implies ended.queue[i].0
            <= ended.queue[j].0 by {
            if i < at {
                assert(ended.queue[i] == s.queue[i]);
            } else if i > at {
                assert(ended.queue[i] == s.queue[i - 1]);
            }
            if j < at {
                assert(ended.queue[j] == s.queue[j]);
            } else if j > at {
                assert(ended.queue[j] == s.queue[j - 1]);
            }
        }
    }
    crate::timer_queue::lemma_due_count(ended.queue, t);
    if due_count(ended.queue, t) > at {
        assert(ended.queue[at].0 <= t);
    }
}

/// The instance names of the children `s`, in order.
pub open spec fn child_names(s: Seq<(i32, Child)>) -> Seq<Seq<char>> {
    Seq::new(s.len(), |i: int| s[i].1.name_spec())
}

/// The names of the instances `pending`, in order.
pub open spec fn process_names(pending: Seq<Process>) -> Seq<Seq<char>> {
    Seq::new(pending.len(), |i: int| pending[i].name@)
}

impl Children {
    /// The instance names of all children, in order.
    pub fn names(&self) -> (v: Vec<String>)
        ensures
            texts(v@) == child_names(self@),
    {
        let mut v: Vec<String> = Vec::new();
        let mut i: usize = 0;
        while i < self.entries.len()
            invariant
                i <= self.entries.len(),
                v@.len() == i,
                forall|k: int| 0 <= k < i ==> v@[k]@ == self.entries@[k].1.name_spec(),
            decreases self.entries.len() - i,
        {
            let name = self.entries[i].1.get_name().to_owned();
            v.push(name);
            i += 1;
        }
        assert(texts(v@) =~= child_names(self@));
        v
    }
}

/// The instances whose state directories and control groups are kept when
/// a tree that starts clears away what an earlier tree left: those whose
/// launchers run, and those that are about to be started.
pub fn kept_names(children: &Children, pending: &Vec<Process>) -> (names: Vec<String>)
    ensures
        texts(names@) == child_names(children@) + process_names(pending@),
{
    let mut names = children.names();
    let ghost first = texts(names@);
    let mut i: usize = 0;
    while i < pending.len()
        invariant
            i <= pending.len(),
            names@.len() == first.len() + i,
            forall|k: int| 0 <= k < first.len() ==> names@[k]@ == first[k],
            forall|k: int| 0 <= k < i ==> names@[first.len() + k]@ == pending@[k].name@,
        decreases pending.len() - i,
    {
        names.push(pending[i].name.clone());
        i += 1;
    }
    assert(texts(names@) =~= child_names(children@) + process_names(pending@));
    names
}

} // verus!
