//! The pool of listening sockets that the tree supervisor owns and hands
//! down to its children, keyed by the address that each socket is bound to.

use vstd::prelude::*;

verus! {

/// The host part of an address: an IPv4 or an IPv6 address as a number.
#[derive(Clone, Copy, Debug, PartialEq, Eq, Structural)]
pub enum Host {
    V4(u32),
    V6(u128),
}

/// An address that a socket listens on.
#[derive(Clone, Copy, Debug, PartialEq, Eq, Structural)]
pub struct Addr {
    pub host: Host,
    pub port: u16,
}

/// One listening port that a container declares.
#[derive(Clone, Copy, Debug, PartialEq, Eq, Structural)]
pub struct TcpPort {
    pub port: u16,
    pub host: Host,
    /// The descriptor under which the workload finds the socket; 0 stands
    /// for its standard input.
    pub fd: i32,
    pub reuse_addr: bool,
    pub reuse_port: bool,
    pub listen_backlog: usize,
    pub set_non_block: bool,
    /// Whether the socket is opened on the host also for a container with a
    /// network of its own.
    pub external: bool,
}

impl TcpPort {
    /// The address that the port listens on.
    pub open spec fn addr_spec(self) -> Addr {
        Addr { host: self.host, port: self.port }
    }

    /// The address that the port listens on.
    pub fn addr(&self) -> (a: Addr)
        ensures
            a == self.addr_spec(),
    {
        Addr { host: self.host, port: self.port }
    }

    /// Whether the tree hands this port down: every port of a container on
    /// the host's network, only the external ports of a bridged one.
    pub open spec fn selected(self, bridged: bool) -> bool {
        !bridged || self.external
    }
}

/// An open listening socket: its descriptor and the address it is bound to.
#[derive(Clone, Copy, Debug, PartialEq, Eq, Structural)]
pub struct Socket {
    pub fd: i32,
    pub addr: Addr,
}

/// No two sockets of `s` are bound to one address.
pub open spec fn distinct(s: Seq<Socket>) -> bool {
    forall|i: int, j: int| 0 <= i < j < s.len() ==> s[i].addr != s[j].addr
}

/// The index in `s` of the socket bound to `addr`, or the length of `s`.
pub open spec fn position(s: Seq<Socket>, addr: Addr) -> int
    decreases s.len(),
{
    if s.len() == 0 {
        0
    } else if s[0].addr == addr {
        0
    } else {
        1 + position(s.drop_first(), addr)
    }
}

/// `position(s, addr)` is the first index at which a socket bound to `addr`
/// stands.
pub proof fn lemma_position(s: Seq<Socket>, addr: Addr)
    ensures
        0 <= position(s, addr) <= s.len(),
        position(s, addr) < s.len() ==> s[position(s, addr)].addr == addr,
        forall|i: int| 0 <= i < position(s, addr) ==> s[i].addr != addr,
    decreases s.len(),
{
    if s.len() > 0 && s[0].addr != addr {
        let t = s.drop_first();
        lemma_position(t, addr);
        assert forall|i: int| 0 <= i < position(s, addr) implies s[i].addr != addr by {
            if i > 0 {
                assert(s[i] == t[i - 1]);
            }
        }
    }
}

/// Some socket of `s` is bound to `addr`.
pub open spec fn bound(s: Seq<Socket>, addr: Addr) -> bool {
    position(s, addr) < s.len()
}

/// The descriptor of the socket of `s` that is bound to `addr`.
pub open spec fn fd_at(s: Seq<Socket>, addr: Addr) -> Option<i32> {
    if bound(s, addr) {
        Some(s[position(s, addr)].fd)
    } else {
        None
    }
}

/// `s` after a socket `fd` bound to `addr` has come in: it takes the place
/// of the socket bound to `addr`, or the last place if there was none.
pub open spec fn with_socket(s: Seq<Socket>, addr: Addr, fd: i32) -> Seq<Socket> {
    if bound(s, addr) {
        s.update(position(s, addr), Socket { fd, addr })
    } else {
        s.push(Socket { fd, addr })
    }
}

/// The sockets of `s` whose address is one of `used`.
pub open spec fn in_use(s: Seq<Socket>, used: Seq<Addr>) -> Seq<Socket> {
    s.filter(|x: Socket| used.contains(x.addr))
}

/// The descriptors of the sockets of `s` whose address is none of `used`.
pub open spec fn idle_fds(s: Seq<Socket>, used: Seq<Addr>) -> Seq<i32> {
    s.filter(|x: Socket| !used.contains(x.addr)).map_values(|x: Socket| x.fd)
}

/// `x` is one of the first `n` sockets of `s`.
pub open spec fn among_first(s: Seq<Socket>, n: int, x: Socket) -> bool {
    exists|m: int| 0 <= m < n && m < s.len() && #[trigger] s[m] == x
}

/// Is `addr` one of `addrs`?
pub fn holds_addr(addrs: &Vec<Addr>, addr: Addr) -> (r: bool)
    ensures
        r == addrs@.contains(addr),
{
    let mut i: usize = 0;
    while i < addrs.len()
        invariant
            i <= addrs.len(),
            forall|k: int| 0 <= k < i ==> addrs@[k] != addr,
        decreases addrs.len() - i,
    {
        if addrs[i] == addr {
            return true;
        }
        i += 1;
    }
    false
}

/// The listening sockets that the tree holds, at most one for an address.
pub struct SocketPool {
    sockets: Vec<Socket>,
}

impl View for SocketPool {
    type V = Seq<Socket>;

    /// The sockets, in the order in which their addresses came in.
    closed spec fn view(&self) -> Seq<Socket> {
        self.sockets@
    }
}

impl SocketPool {
    #[verifier::type_invariant]
    spec fn well_formed(self) -> bool {
        distinct(self.sockets@)
    }

    /// An empty pool.
    pub fn new() -> (p: SocketPool)
        ensures
            p@ == Seq::<Socket>::empty(),
    {
        SocketPool { sockets: Vec::new() }
    }

    /// The number of sockets.
    pub fn len(&self) -> (n: usize)
        ensures
            n == self@.len(),
            distinct(self@),
    {
        proof {
            use_type_invariant(self);
        }
        self.sockets.len()
    }

    /// The sockets, in the order in which their addresses came in.
    pub fn sockets(&self) -> (v: Vec<Socket>)
        ensures
            v@ == self@,
            distinct(self@),
    {
        proof {
            use_type_invariant(self);
        }
        self.sockets.clone()
    }

    fn find(&self, addr: Addr) -> (k: usize)
        ensures
            k == position(self@, addr),
            k <= self@.len(),
    {
        let mut k: usize = 0;
        while k < self.sockets.len() && self.sockets[k].addr != addr
            invariant
                k <= self.sockets.len(),
                forall|i: int| 0 <= i < k ==> self.sockets@[i].addr != addr,
            decreases self.sockets.len() - k,
        {
            k += 1;
        }
        proof {
            lemma_position(self.sockets@, addr);
        }
        k
    }

    /// The descriptor of the socket bound to `addr`, if the pool holds one.
    pub fn get(&self, addr: Addr) -> (fd: Option<i32>)
        ensures
            fd == fd_at(self@, addr),
    {
        let k = self.find(addr);
        if k < self.sockets.len() {
            Some(self.sockets[k].fd)
        } else {
            None
        }
    }

    /// Does the pool hold a socket bound to `addr`?
    pub fn contains(&self, addr: Addr) -> (r: bool)
        ensures
            r == bound(self@, addr),
    {
        let k = self.find(addr);
        k < self.sockets.len()
    }

    /// Puts the socket `fd`, bound to `addr`, into the pool. A socket that
    /// the pool held for `addr` leaves it, and its descriptor is returned.
    pub fn insert(&mut self, addr: Addr, fd: i32) -> (old_fd: Option<i32>)
        ensures
            final(self)@ == with_socket(old(self)@, addr, fd),
            old_fd == fd_at(old(self)@, addr),
            distinct(final(self)@),
    {
        proof {
            use_type_invariant(&*self);
            lemma_position(self.sockets@, addr);
        }
        let k = self.find(addr);
        let mut sockets: Vec<Socket> = Vec::new();
        core::mem::swap(&mut self.sockets, &mut sockets);
        let old_fd = if k < sockets.len() {
            let was = sockets[k].fd;
            sockets.set(k, Socket { fd, addr });
            Some(was)
        } else {
            sockets.push(Socket { fd, addr });
            None
        };
        self.sockets = sockets;
        old_fd
    }

    /// Drops every socket whose address is none of `used`, and returns the
    /// descriptors of the dropped sockets, which the caller closes.
    pub fn gc(&mut self, used: &Vec<Addr>) -> (closed: Vec<i32>)
        ensures
            final(self)@ == in_use(old(self)@, used@),
            closed@ == idle_fds(old(self)@, used@),
            distinct(final(self)@),
            forall|a: Addr| bound(final(self)@, a) ==> used@.contains(a),
    {
        proof {
            use_type_invariant(&*self);
        }
        let ghost all = self.sockets@;
        let ghost keep = |x: Socket| used@.contains(x.addr);
        let ghost idle = |x: Socket| !used@.contains(x.addr);
        let ghost fd_of = |x: Socket| x.fd;
        let mut sockets: Vec<Socket> = Vec::new();
        core::mem::swap(&mut self.sockets, &mut sockets);
        let mut kept: Vec<Socket> = Vec::new();
        let mut closed: Vec<i32> = Vec::new();
        let mut i: usize = 0;
        proof {
            assert(all.take(0) =~= Seq::<Socket>::empty());
            reveal(Seq::filter);
            assert(all.take(0).filter(keep) =~= Seq::<Socket>::empty());
            assert(all.take(0).filter(idle).map_values(fd_of) =~= Seq::<i32>::empty());
        }
        while i < sockets.len()
            invariant
                i <= sockets.len(),
                sockets@ == all,
                distinct(all),
                keep == |x: Socket| used@.contains(x.addr),
                idle == |x: Socket| !used@.contains(x.addr),
                fd_of == |x: Socket| x.fd,
                kept@ == all.take(i as int).filter(keep),
                closed@ == all.take(i as int).filter(idle).map_values(fd_of),
                forall|k: int| 0 <= k < kept@.len() ==> among_first(all, i as int, #[trigger] kept@[k]),
                distinct(kept@),
                forall|k: int| 0 <= k < kept@.len() ==> used@.contains(#[trigger] kept@[k].addr),
            decreases sockets.len() - i,
        {
            let s = sockets[i];
            proof {
                let done = all.take(i as int);
                assert(all.take(i as int + 1) =~= done.push(s));
                done.lemma_filter_push(s, keep);
                done.lemma_filter_push(s, idle);
            }
            let ghost before = kept@;
            if holds_addr(used, s.addr) {
                kept.push(s);
                proof {
                    assert forall|a: int, b: int| 0 <= a < b < kept@.len() implies kept@[a].addr
                        != kept@[b].addr by {
                        if b == kept@.len() - 1 {
                            assert(among_first(all, i as int, before[a]));
                            let m = choose|m: int|
                                0 <= m < i && m < all.len() && #[trigger] all[m] == before[a];
                            assert(all[m].addr != all[i as int].addr);
                        } else {
                            assert(before[a].addr != before[b].addr);
                        }
                    }
                    assert forall|k: int| 0 <= k < kept@.len() implies among_first(
                        all,
                        i as int + 1,
                        #[trigger] kept@[k],
                    ) by {
                        if k == kept@.len() - 1 {
                            assert(all[i as int] == kept@[k]);
                        } else {
                            assert(among_first(all, i as int, before[k]));
                            let m = choose|m: int|
                                0 <= m < i && m < all.len() && #[trigger] all[m] == before[k];
                            assert(all[m] == kept@[k]);
                        }
                    }
                }
            } else {
                closed.push(s.fd);
                proof {
                    let f = all.take(i as int).filter(idle);
                    assert(f.push(s).map_values(fd_of) =~= f.map_values(fd_of).push(s.fd));
                    assert forall|k: int| 0 <= k < kept@.len() implies among_first(
                        all,
                        i as int + 1,
                        #[trigger] kept@[k],
                    ) by {
                        assert(among_first(all, i as int, before[k]));
                        let m = choose|m: int|
                            0 <= m < i && m < all.len() && #[trigger] all[m] == before[k];
                        assert(all[m] == kept@[k]);
                    }
                }
            }
            i += 1;
        }
        proof {
            assert(all.take(sockets.len() as int) =~= all);
            assert forall|a: Addr| bound(kept@, a) implies used@.contains(a) by {
                lemma_position(kept@, a);
                assert(kept@[position(kept@, a)].addr == a);
            }
        }
        self.sockets = kept;
        closed
    }
}

/// One step in making a listening socket ready.
#[derive(Clone, Copy, Debug, PartialEq, Eq, Structural)]
pub enum SocketStep {
    /// Allow the address to be bound again soon after it was freed.
    ReuseAddr,
    /// Allow several sockets to be bound to the address.
    ReusePort,
    /// Bind the socket to the address.
    Bind(Addr),
    /// Listen, with this backlog.
    Listen(usize),
    /// Let the socket stay open in a program that the process starts.
    ClearCloexec,
    /// Make the socket non-blocking.
    NonBlock,
}

/// The steps that make a new socket ready for the port `cfg`, in order.
/// The socket is handed on to other programs only once it listens.
pub open spec fn steps_spec(cfg: TcpPort) -> Seq<SocketStep> {
    (if cfg.reuse_addr {
        seq![SocketStep::ReuseAddr]
    } else {
        Seq::<SocketStep>::empty()
    }) + (if cfg.reuse_port {
        seq![SocketStep::ReusePort]
    } else {
        Seq::<SocketStep>::empty()
    }) + seq![
        SocketStep::Bind(cfg.addr_spec()),
        SocketStep::Listen(cfg.listen_backlog),
        SocketStep::ClearCloexec,
    ] + (if cfg.set_non_block {
        seq![SocketStep::NonBlock]
    } else {
        Seq::<SocketStep>::empty()
    })
}

/// The steps to take on a new socket for the port `cfg`. The caller makes
/// the socket, takes the steps in order, and closes the socket as soon as a
/// step fails.
pub fn socket_steps(cfg: &TcpPort) -> (steps: Vec<SocketStep>)
    ensures
        steps@ == steps_spec(*cfg),
{
    let mut steps: Vec<SocketStep> = Vec::new();
    if cfg.reuse_addr {
        steps.push(SocketStep::ReuseAddr);
    }
    if cfg.reuse_port {
        steps.push(SocketStep::ReusePort);
    }
    steps.push(SocketStep::Bind(cfg.addr()));
    steps.push(SocketStep::Listen(cfg.listen_backlog));
    steps.push(SocketStep::ClearCloexec);
    if cfg.set_non_block {
        steps.push(SocketStep::NonBlock);
    }
    assert(steps@ =~= steps_spec(*cfg));
    steps
}

/// A socket to open before a child starts.
#[derive(Clone, Copy, Debug, PartialEq, Eq, Structural)]
pub struct Opening {
    pub port: TcpPort,
    /// Whether the socket goes into the pool. A socket that shares its
    /// port is opened for one child and not kept.
    pub cached: bool,
}

/// Some opening of `o` puts a socket for `addr` into the pool.
pub open spec fn opens_cached(o: Seq<Opening>, addr: Addr) -> bool {
    exists|i: int| 0 <= i < o.len() && (#[trigger] o[i]).cached && o[i].port.addr_spec() == addr
}

/// The sockets to open for a child with the ports `ports`, in the order of
/// the ports: for each port that is handed down, a socket of its own if it
/// shares its port, else a socket for the pool unless the pool has one for
/// the address or is about to get one.
pub open spec fn openings(pool: Seq<Socket>, ports: Seq<TcpPort>, bridged: bool) -> Seq<Opening>
    decreases ports.len(),
{
    if ports.len() == 0 {
        Seq::<Opening>::empty()
    } else {
        let head = openings(pool, ports.drop_last(), bridged);
        let p = ports.last();
        if !p.selected(bridged) {
            head
        } else if p.reuse_port {
            head.push(Opening { port: p, cached: false })
        } else if bound(pool, p.addr_spec()) || opens_cached(head, p.addr_spec()) {
            head
        } else {
            head.push(Opening { port: p, cached: true })
        }
    }
}

/// Why the sockets of a child cannot be handed down.
#[derive(Clone, Copy, Debug, PartialEq, Eq, Structural)]
pub enum PortError {
    /// A port asks for descriptor 1 or 2, which are the child's output.
    ReservedFd(i32),
    /// A port asks for a descriptor below zero, which is none.
    InvalidFd(i32),
    /// No open socket is at hand for this address.
    NotOpen(Addr),
}

/// Where a child finds a socket that is handed down to it.
#[derive(Clone, Copy, Debug, PartialEq, Eq, Structural)]
pub enum Target {
    /// As its standard input.
    Stdin,
    /// Under this descriptor, which is 3 or greater.
    Descriptor(i32),
}

/// A socket to duplicate into a child: `fd` becomes what `target` says.
#[derive(Clone, Copy, Debug, PartialEq, Eq, Structural)]
pub struct Attach {
    pub target: Target,
    pub fd: i32,
}

/// Where a child finds the socket of a port configured with the
/// descriptor `fd`: 0 stands for the standard input, 1 and 2 are the
/// child's output and are rejected, and so is a number below zero.
pub open spec fn target_of(fd: i32) -> Result<Target, PortError> {
    if fd == 0 {
        Ok(Target::Stdin)
    } else if fd == 1 || fd == 2 {
        Err(PortError::ReservedFd(fd))
    } else if fd < 0 {
        Err(PortError::InvalidFd(fd))
    } else {
        Ok(Target::Descriptor(fd))
    }
}

/// Decides where a child finds the socket of a port configured with the
/// descriptor `fd`.
pub fn port_target(fd: i32) -> (r: Result<Target, PortError>)
    ensures
        r == target_of(fd),
{
    if fd == 0 {
        Ok(Target::Stdin)
    } else if fd == 1 || fd == 2 {
        Err(PortError::ReservedFd(fd))
    } else if fd < 0 {
        Err(PortError::InvalidFd(fd))
    } else {
        Ok(Target::Descriptor(fd))
    }
}

/// The socket that serves the port `p`: one of `fresh`, the sockets opened
/// for this child alone, if the port is shared, else the pool's.
pub open spec fn source_fd(pool: Seq<Socket>, fresh: Seq<Socket>, p: TcpPort) -> Option<i32> {
    if p.reuse_port {
        fd_at(fresh, p.addr_spec())
    } else {
        fd_at(pool, p.addr_spec())
    }
}

/// What is handed down to a child with the ports `ports`, in the order of
/// the ports, or the first reason why that cannot be done.
pub open spec fn attach_spec(
    pool: Seq<Socket>,
    fresh: Seq<Socket>,
    ports: Seq<TcpPort>,
    bridged: bool,
) -> Result<Seq<Attach>, PortError>
    decreases ports.len(),
{
    if ports.len() == 0 {
        Ok(Seq::<Attach>::empty())
    } else {
        let p = ports.last();
        match attach_spec(pool, fresh, ports.drop_last(), bridged) {
            Err(e) => Err(e),
            Ok(head) => if !p.selected(bridged) {
                Ok(head)
            } else {
                match target_of(p.fd) {
                    Err(e) => Err(e),
                    Ok(target) => match source_fd(pool, fresh, p) {
                        None => Err(PortError::NotOpen(p.addr_spec())),
                        Some(fd) => Ok(head.push(Attach { target, fd })),
                    },
                }
            },
        }
    }
}

/// The descriptor of the socket of `sockets` that is bound to `addr`.
pub fn fd_among(sockets: &Vec<Socket>, addr: Addr) -> (fd: Option<i32>)
    ensures
        fd == fd_at(sockets@, addr),
{
    let mut k: usize = 0;
    while k < sockets.len() && sockets[k].addr != addr
        invariant
            k <= sockets.len(),
            forall|i: int| 0 <= i < k ==> sockets@[i].addr != addr,
        decreases sockets.len() - k,
    {
        k += 1;
    }
    proof {
        lemma_position(sockets@, addr);
    }
    if k < sockets.len() {
        Some(sockets[k].fd)
    } else {
        None
    }
}

impl SocketPool {
    /// The sockets to open before a child with the ports `ports` starts.
    /// The caller opens them in order, puts each cached one into the pool
    /// with [`SocketPool::insert`], and keeps the others for this child.
    pub fn ensure_for(&self, ports: &Vec<TcpPort>, bridged: bool) -> (plan: Vec<Opening>)
        ensures
            plan@ == openings(self@, ports@, bridged),
    {
        let mut plan: Vec<Opening> = Vec::new();
        let mut planned: Vec<Addr> = Vec::new();
        let mut i: usize = 0;
        assert(ports@.take(0) =~= Seq::<TcpPort>::empty());
        while i < ports.len()
            invariant
                i <= ports.len(),
                plan@ == openings(self@, ports@.take(i as int), bridged),
                forall|a: Addr| planned@.contains(a) <==> opens_cached(plan@, a),
            decreases ports.len() - i,
        {
            let p = ports[i];
            let ghost head = plan@;
            let ghost was = planned@;
            proof {
                assert(ports@.take(i as int + 1).drop_last() =~= ports@.take(i as int));
                assert(ports@.take(i as int + 1).last() == p);
            }
            if !bridged || p.external {
                if p.reuse_port {
                    plan.push(Opening { port: p, cached: false });
                    proof {
                        assert forall|a: Addr| opens_cached(plan@, a) implies opens_cached(
                            head,
                            a,
                        ) by {
                            let k = choose|k: int|
                                0 <= k < plan@.len() && (#[trigger] plan@[k]).cached
                                    && plan@[k].port.addr_spec() == a;
                            assert(head[k] == plan@[k]);
                        }
                        assert forall|a: Addr| opens_cached(head, a) implies opens_cached(
                            plan@,
                            a,
                        ) by {
                            let k = choose|k: int|
                                0 <= k < head.len() && (#[trigger] head[k]).cached
                                    && head[k].port.addr_spec() == a;
                            assert(plan@[k] == head[k]);
                        }
                    }
                } else if !self.contains(p.addr()) && !holds_addr(&planned, p.addr()) {
                    plan.push(Opening { port: p, cached: true });
                    planned.push(p.addr());
                    proof {
                        assert forall|a: Addr| opens_cached(plan@, a) implies planned@.contains(
                            a,
                        ) by {
                            let k = choose|k: int|
                                0 <= k < plan@.len() && (#[trigger] plan@[k]).cached
                                    && plan@[k].port.addr_spec() == a;
                            if k < head.len() {
                                assert(head[k] == plan@[k]);
                                assert(opens_cached(head, a));
                                assert(was.contains(a));
                                let m = choose|m: int| 0 <= m < was.len() && was[m] == a;
                                assert(planned@[m] == a);
                            } else {
                                assert(planned@[planned@.len() - 1] == a);
                            }
                        }
                        assert forall|a: Addr| planned@.contains(a) implies opens_cached(
                            plan@,
                            a,
                        ) by {
                            let m = choose|m: int| 0 <= m < planned@.len() && planned@[m] == a;
                            if m < was.len() {
                                assert(was[m] == a);
                                assert(was.contains(a));
                                let k = choose|k: int|
                                    0 <= k < head.len() && (#[trigger] head[k]).cached
                                        && head[k].port.addr_spec() == a;
                                assert(plan@[k] == head[k]);
                            } else {
                                assert(plan@[plan@.len() - 1].cached);
                            }
                        }
                    }
                }
            }
            i += 1;
        }
        assert(ports@.take(ports.len() as int) =~= ports@);
        plan
    }

    /// What to hand down to a child with the ports `ports`: for each port
    /// that is handed down, the socket to duplicate and the descriptor that
    /// it becomes. `fresh` holds the sockets opened for this child alone.
    pub fn attach_to_command(&self, fresh: &Vec<Socket>, ports: &Vec<TcpPort>, bridged: bool) -> (plan:
        Result<Vec<Attach>, PortError>)
        ensures
            plan is Ok ==> attach_spec(self@, fresh@, ports@, bridged) == Ok::<
                Seq<Attach>,
                PortError,
            >(plan->Ok_0@),
            plan is Err ==> attach_spec(self@, fresh@, ports@, bridged) == Err::<
                Seq<Attach>,
                PortError,
            >(plan->Err_0),
    {
        let mut plan: Vec<Attach> = Vec::new();
        let mut i: usize = 0;
        assert(ports@.take(0) =~= Seq::<TcpPort>::empty());
        while i < ports.len()
            invariant
                i <= ports.len(),
                attach_spec(self@, fresh@, ports@.take(i as int), bridged) == Ok::<
                    Seq<Attach>,
                    PortError,
                >(plan@),
            decreases ports.len() - i,
        {
            let p = ports[i];
            proof {
                assert(ports@.take(i as int + 1).drop_last() =~= ports@.take(i as int));
                assert(ports@.take(i as int + 1).last() == p);
                lemma_attach_error_stays(self@, fresh@, ports@, bridged, i as int + 1);
            }
            if !bridged || p.external {
                let target = match port_target(p.fd) {
                    Ok(target) => target,
                    Err(e) => {
                        return Err(e);
                    },
                };
                let source = if p.reuse_port {
                    fd_among(fresh, p.addr())
                } else {
                    self.get(p.addr())
                };
                match source {
                    None => {
                        return Err(PortError::NotOpen(p.addr()));
                    },
                    Some(fd) => {
                        plan.push(Attach { target, fd });
                    },
                }
            }
            i += 1;
        }
        assert(ports@.take(ports.len() as int) =~= ports@);
        Ok(plan)
    }

    /// The least and the greatest descriptor in the pool: a child closes
    /// every descriptor between them that was not handed down to it.
    pub fn fd_span(&self) -> (span: Option<(i32, i32)>)
        ensures
            match span {
                None => self@.len() == 0,
                Some((lo, hi)) => {
                    &&& forall|i: int|
                        0 <= i < self@.len() ==> lo <= (#[trigger] self@[i]).fd <= hi
                    &&& exists|i: int| 0 <= i < self@.len() && (#[trigger] self@[i]).fd == lo
                    &&& exists|i: int| 0 <= i < self@.len() && (#[trigger] self@[i]).fd == hi
                },
            },
    {
        if self.sockets.len() == 0 {
            return None;
        }
        let mut lo: i32 = self.sockets[0].fd;
        let mut hi: i32 = self.sockets[0].fd;
        let mut i: usize = 1;
        while i < self.sockets.len()
            invariant
                1 <= i <= self.sockets.len(),
                forall|k: int| 0 <= k < i ==> lo <= (#[trigger] self.sockets@[k]).fd <= hi,
                exists|k: int| 0 <= k < i && (#[trigger] self.sockets@[k]).fd == lo,
                exists|k: int| 0 <= k < i && (#[trigger] self.sockets@[k]).fd == hi,
            decreases self.sockets.len() - i,
        {
            let fd = self.sockets[i].fd;
            if fd < lo {
                lo = fd;
            }
            if fd > hi {
                hi = fd;
            }
            i += 1;
        }
        Some((lo, hi))
    }
}

/// Once a port cannot be handed down, no later port changes that.
pub proof fn lemma_attach_error_stays(
    pool: Seq<Socket>,
    fresh: Seq<Socket>,
    ports: Seq<TcpPort>,
    bridged: bool,
    n: int,
)
    requires
        0 <= n <= ports.len(),
    ensures
        attach_spec(pool, fresh, ports.take(n), bridged) is Err ==> attach_spec(
            pool,
            fresh,
            ports,
            bridged,
        ) == attach_spec(pool, fresh, ports.take(n), bridged),
    decreases ports.len() - n,
{
    if n < ports.len() {
        assert(ports.take(n + 1).drop_last() =~= ports.take(n));
        lemma_attach_error_stays(pool, fresh, ports, bridged, n + 1);
    } else {
        assert(ports.take(n) =~= ports);
    }
}

/// `s` after each socket of `found` has come in, in order.
pub open spec fn with_sockets(s: Seq<Socket>, found: Seq<Socket>) -> Seq<Socket>
    decreases found.len(),
{
    if found.len() == 0 {
        s
    } else {
        with_socket(with_sockets(s, found.drop_last()), found.last().addr, found.last().fd)
    }
}

/// The descriptors that leave `s` while the sockets `found` come in, in
/// order: each time a socket comes in for an address that has one.
pub open spec fn displaced(s: Seq<Socket>, found: Seq<Socket>) -> Seq<i32>
    decreases found.len(),
{
    if found.len() == 0 {
        Seq::<i32>::empty()
    } else {
        match fd_at(with_sockets(s, found.drop_last()), found.last().addr) {
            Some(fd) => displaced(s, found.drop_last()).push(fd),
            None => displaced(s, found.drop_last()),
        }
    }
}

impl SocketPool {
    /// Takes on the sockets `found` that the process has inherited, in
    /// order. Of two sockets bound to one address the later one stays;
    /// the descriptors of the others are returned.
    pub fn recover_from_self(&mut self, found: &Vec<Socket>) -> (dropped: Vec<i32>)
        ensures
            final(self)@ == with_sockets(old(self)@, found@),
            dropped@ == displaced(old(self)@, found@),
            distinct(final(self)@),
    {
        let mut dropped: Vec<i32> = Vec::new();
        let mut i: usize = 0;
        assert(found@.take(0) =~= Seq::<Socket>::empty());
        proof {
            use_type_invariant(&*self);
        }
        while i < found.len()
            invariant
                i <= found.len(),
                self@ == with_sockets(old(self)@, found@.take(i as int)),
                dropped@ == displaced(old(self)@, found@.take(i as int)),
                distinct(self@),
            decreases found.len() - i,
        {
            proof {
                assert(found@.take(i as int + 1).drop_last() =~= found@.take(i as int));
                assert(found@.take(i as int + 1).last() == found@[i as int]);
            }
            match self.insert(found[i].addr, found[i].fd) {
                Some(fd) => {
                    dropped.push(fd);
                },
                None => {},
            }
            i += 1;
        }
        assert(found@.take(found.len() as int) =~= found@);
        dropped
    }
}

/// The ports of `ports` that are handed down but served by a socket of the
/// child's own network: none for a container on the host's network, those
/// that are not external for a bridged one.
pub open spec fn internal(ports: Seq<TcpPort>) -> Seq<TcpPort> {
    ports.filter(|p: TcpPort| !p.external)
}

/// The ports that a bridged container opens for itself, inside its own
/// network namespace, before the workload runs.
pub fn internal_ports(ports: &Vec<TcpPort>) -> (out: Vec<TcpPort>)
    ensures
        out@ == internal(ports@),
{
    let ghost keep = |p: TcpPort| !p.external;
    let mut out: Vec<TcpPort> = Vec::new();
    let mut i: usize = 0;
    proof {
        assert(ports@.take(0) =~= Seq::<TcpPort>::empty());
        reveal(Seq::filter);
        assert(ports@.take(0).filter(keep) =~= Seq::<TcpPort>::empty());
    }
    while i < ports.len()
        invariant
            i <= ports.len(),
            keep == |p: TcpPort| !p.external,
            out@ == ports@.take(i as int).filter(keep),
        decreases ports.len() - i,
    {
        let p = ports[i];
        proof {
            assert(ports@.take(i as int + 1) =~= ports@.take(i as int).push(p));
            ports@.take(i as int).lemma_filter_push(p, keep);
        }
        if !p.external {
            out.push(p);
        }
        i += 1;
    }
    assert(ports@.take(ports.len() as int) =~= ports@);
    out
}

/// For one address the tree holds one socket and hands that one down to
/// every child: two children get different sockets for an address only
/// where a port shares its address and each child has a socket of its
/// own.
pub proof fn lemma_one_socket_per_address(
    pool: Seq<Socket>,
    fresh_a: Seq<Socket>,
    fresh_b: Seq<Socket>,
    p: TcpPort,
    q: TcpPort,
)
    requires
        p.addr_spec() == q.addr_spec(),
        source_fd(pool, fresh_a, p) is Some,
        source_fd(pool, fresh_b, q) is Some,
        source_fd(pool, fresh_a, p) != source_fd(pool, fresh_b, q),
    ensures
        p.reuse_port || q.reuse_port,
{
}

/// What goes into the pool for a child is a socket for an address that
/// the pool lacks: the pool never comes to hold two sockets for one
/// address.
pub proof fn lemma_openings_are_new(pool: Seq<Socket>, ports: Seq<TcpPort>, bridged: bool, i: int)
    requires
        0 <= i < openings(pool, ports, bridged).len(),
        openings(pool, ports, bridged)[i].cached,
    ensures
        !bound(pool, openings(pool, ports, bridged)[i].port.addr_spec()),
        !openings(pool, ports, bridged)[i].port.reuse_port,
        forall|j: int|
            0 <= j < i && (#[trigger] openings(pool, ports, bridged)[j]).cached ==> openings(
                pool,
                ports,
                bridged,
            )[j].port.addr_spec() != openings(pool, ports, bridged)[i].port.addr_spec(),
    decreases ports.len(),
{
    if ports.len() > 0 {
        let head = openings(pool, ports.drop_last(), bridged);
        let all = openings(pool, ports, bridged);
        if i < head.len() {
            assert(all[i] == head[i]);
            lemma_openings_are_new(pool, ports.drop_last(), bridged, i);
            assert forall|j: int| 0 <= j < i && (#[trigger] all[j]).cached implies all[j].port.addr_spec()
                != all[i].port.addr_spec() by {
                assert(all[j] == head[j]);
            }
        } else {
            assert forall|j: int| 0 <= j < i && (#[trigger] all[j]).cached implies all[j].port.addr_spec()
                != all[i].port.addr_spec() by {
                assert(all[j] == head[j]);
                if head[j].port.addr_spec() == all[i].port.addr_spec() {
                    assert(opens_cached(head, all[i].port.addr_spec()));
                }
            }
        }
    }
}

/// The descriptors of `sockets`, in order.
pub open spec fn fds_of(sockets: Seq<Socket>) -> Seq<i32> {
    Seq::new(sockets.len(), |i: int| sockets[i].fd)
}

/// What follows the attempt to open one socket of a plan.
pub enum Progress {
    /// The next socket of the plan is opened.
    GoOn,
    /// The child is not started now. The sockets opened for it alone are
    /// of no use: their descriptors are to be closed.
    GiveUp(Vec<i32>),
}

impl SocketPool {
    /// Notes how the attempt to open the socket of `opening` ended, where
    /// `outcome` is the new descriptor, or `None` if the socket could not
    /// be opened, and `fresh` holds the sockets opened so far for this
    /// child alone. A new socket goes into the pool if the opening is a
    /// cached one, else to `fresh`. After the first socket that cannot be
    /// opened no other is tried: what went into the pool stays there, and
    /// `fresh` is emptied.
    pub fn opened(&mut self, fresh: &mut Vec<Socket>, opening: Opening, outcome: Option<i32>) -> (next:
        Progress)
        ensures
            distinct(final(self)@),
            match outcome {
                Some(fd) => {
                    &&& next is GoOn
                    &&& opening.cached ==> final(self)@ == with_socket(
                        old(self)@,
                        opening.port.addr_spec(),
                        fd,
                    ) && final(fresh)@ == old(fresh)@
                    &&& !opening.cached ==> final(self)@ == old(self)@ && final(fresh)@ == old(
                        fresh,
                    )@.push(Socket { fd, addr: opening.port.addr_spec() })
                },
                None => {
                    &&& final(self)@ == old(self)@
                    &&& final(fresh)@ == Seq::<Socket>::empty()
                    &&& next matches Progress::GiveUp(fds)
                    &&& fds@ == fds_of(old(fresh)@)
                },
            },
    {
        proof {
            use_type_invariant(&*self);
        }
        match outcome {
            Some(fd) => {
                if opening.cached {
                    self.insert(opening.port.addr(), fd);
                } else {
                    fresh.push(Socket { fd, addr: opening.port.addr() });
                }
                Progress::GoOn
            },
            None => {
                let mut fds: Vec<i32> = Vec::new();
                let mut i: usize = 0;
                while i < fresh.len()
                    invariant
                        i <= fresh.len(),
                        fresh@ == old(fresh)@,
                        fds@.len() == i,
                        forall|k: int| 0 <= k < i ==> fds@[k] == fresh@[k].fd,
                    decreases fresh.len() - i,
                {
                    fds.push(fresh[i].fd);
                    i += 1;
                }
                assert(fds@ =~= fds_of(old(fresh)@));
                fresh.clear();
                Progress::GiveUp(fds)
            },
        }
    }
}

} // verus!
