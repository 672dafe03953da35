use lithos::socket_pool::{
    fd_among, holds_addr, internal_ports, port_target, socket_steps, Addr, Attach, Host, Opening,
    PortError, Progress, Socket, SocketPool, SocketStep, Target, TcpPort,
};

fn addr(port: u16) -> Addr {
    Addr { host: Host::V4(0x7f000001), port }
}

fn port(port: u16, fd: i32) -> TcpPort {
    TcpPort {
        port,
        host: Host::V4(0x7f000001),
        fd,
        reuse_addr: true,
        reuse_port: false,
        listen_backlog: 128,
        set_non_block: false,
        external: false,
    }
}

#[test]
fn port_knows_its_address() {
    assert_eq!(port(80, 3).addr(), addr(80));
    let v6 = TcpPort { host: Host::V6(1), ..port(80, 3) };
    assert_eq!(v6.addr(), Addr { host: Host::V6(1), port: 80 });
    assert_ne!(v6.addr(), addr(80));
}

#[test]
fn insert_keeps_one_socket_per_address() {
    let mut pool = SocketPool::new();
    assert_eq!(pool.len(), 0);
    assert_eq!(pool.insert(addr(80), 5), None);
    assert_eq!(pool.insert(addr(81), 6), None);
    assert_eq!(pool.insert(addr(80), 9), Some(5));
    assert_eq!(pool.len(), 2);
    assert_eq!(pool.get(addr(80)), Some(9));
    assert_eq!(pool.get(addr(81)), Some(6));
    assert_eq!(pool.get(addr(82)), None);
    assert!(pool.contains(addr(81)));
    assert!(!pool.contains(addr(82)));
    assert_eq!(
        pool.sockets(),
        vec![Socket { fd: 9, addr: addr(80) }, Socket { fd: 6, addr: addr(81) }]
    );
}

#[test]
fn recover_keeps_the_later_of_two_sockets() {
    let mut pool = SocketPool::new();
    let dropped = pool.recover_from_self(&vec![
        Socket { fd: 3, addr: addr(80) },
        Socket { fd: 4, addr: addr(443) },
        Socket { fd: 5, addr: addr(80) },
    ]);
    assert_eq!(dropped, vec![3]);
    assert_eq!(pool.get(addr(80)), Some(5));
    assert_eq!(pool.get(addr(443)), Some(4));
    assert_eq!(pool.len(), 2);
}

#[test]
fn gc_closes_what_no_child_uses() {
    let mut pool = SocketPool::new();
    pool.insert(addr(1), 10);
    pool.insert(addr(2), 11);
    pool.insert(addr(3), 12);
    pool.insert(addr(4), 13);
    let closed = pool.gc(&vec![addr(3), addr(1), addr(3), addr(9)]);
    assert_eq!(closed, vec![11, 13]);
    assert_eq!(
        pool.sockets(),
        vec![Socket { fd: 10, addr: addr(1) }, Socket { fd: 12, addr: addr(3) }]
    );
    assert_eq!(pool.gc(&Vec::new()), vec![10, 12]);
    assert_eq!(pool.len(), 0);
    assert_eq!(pool.gc(&vec![addr(1)]), Vec::<i32>::new());
}

#[test]
fn steps_follow_the_port_settings() {
    let p = port(8080, 3);
    assert_eq!(
        socket_steps(&p),
        vec![
            SocketStep::ReuseAddr,
            SocketStep::Bind(addr(8080)),
            SocketStep::Listen(128),
            SocketStep::ClearCloexec,
        ]
    );
    let q = TcpPort { reuse_addr: false, reuse_port: true, set_non_block: true, ..p };
    assert_eq!(
        socket_steps(&q),
        vec![
            SocketStep::ReusePort,
            SocketStep::Bind(addr(8080)),
            SocketStep::Listen(128),
            SocketStep::ClearCloexec,
            SocketStep::NonBlock,
        ]
    );
    let r = TcpPort { reuse_port: true, listen_backlog: 1, ..p };
    assert_eq!(
        socket_steps(&r),
        vec![
            SocketStep::ReuseAddr,
            SocketStep::ReusePort,
            SocketStep::Bind(addr(8080)),
            SocketStep::Listen(1),
            SocketStep::ClearCloexec,
        ]
    );
}

#[test]
fn ensure_for_opens_what_the_pool_lacks() {
    let mut pool = SocketPool::new();
    pool.insert(addr(80), 5);
    let shared = TcpPort { reuse_port: true, ..port(90, 4) };
    let ports = vec![port(80, 3), port(81, 0), shared, port(81, 7)];
    assert_eq!(
        pool.ensure_for(&ports, false),
        vec![
            Opening { port: port(81, 0), cached: true },
            Opening { port: shared, cached: false },
        ]
    );
}

#[test]
fn bridged_containers_get_only_external_ports() {
    let pool = SocketPool::new();
    let outer = TcpPort { external: true, ..port(80, 3) };
    let ports = vec![port(81, 4), outer];
    assert_eq!(pool.ensure_for(&ports, true), vec![Opening { port: outer, cached: true }]);
    assert_eq!(
        pool.ensure_for(&ports, false),
        vec![
            Opening { port: port(81, 4), cached: true },
            Opening { port: outer, cached: true },
        ]
    );
    assert_eq!(internal_ports(&ports), vec![port(81, 4)]);
    assert_eq!(internal_ports(&vec![outer]), Vec::<TcpPort>::new());
}

#[test]
fn attach_maps_sockets_to_the_configured_descriptors() {
    let mut pool = SocketPool::new();
    pool.insert(addr(80), 5);
    pool.insert(addr(81), 6);
    let shared = TcpPort { reuse_port: true, ..port(90, 4) };
    let fresh = vec![Socket { fd: 20, addr: addr(90) }];
    let ports = vec![port(81, 0), shared, port(80, 3)];
    assert_eq!(
        pool.attach_to_command(&fresh, &ports, false),
        Ok(vec![
            Attach { target: Target::Stdin, fd: 6 },
            Attach { target: Target::Descriptor(4), fd: 20 },
            Attach { target: Target::Descriptor(3), fd: 5 },
        ])
    );
    assert_eq!(pool.attach_to_command(&fresh, &ports, true), Ok(Vec::new()));
}

#[test]
fn descriptors_one_and_two_are_rejected() {
    let mut pool = SocketPool::new();
    pool.insert(addr(80), 5);
    pool.insert(addr(81), 6);
    let none = Vec::new();
    assert_eq!(
        pool.attach_to_command(&none, &vec![port(80, 3), port(81, 1)], false),
        Err(PortError::ReservedFd(1))
    );
    assert_eq!(
        pool.attach_to_command(&none, &vec![port(81, 2), port(80, 1)], false),
        Err(PortError::ReservedFd(2))
    );
    let inner = port(81, 2);
    assert_eq!(pool.attach_to_command(&none, &vec![inner], true), Ok(Vec::new()));
}

#[test]
fn a_port_without_a_socket_cannot_be_attached() {
    let pool = SocketPool::new();
    let shared = TcpPort { reuse_port: true, ..port(90, 4) };
    assert_eq!(
        pool.attach_to_command(&Vec::new(), &vec![port(80, 3)], false),
        Err(PortError::NotOpen(addr(80)))
    );
    let mut full = SocketPool::new();
    full.insert(addr(90), 7);
    assert_eq!(
        full.attach_to_command(&Vec::new(), &vec![shared], false),
        Err(PortError::NotOpen(addr(90)))
    );
}

#[test]
fn fd_span_is_least_and_greatest() {
    let mut pool = SocketPool::new();
    assert_eq!(pool.fd_span(), None);
    pool.insert(addr(1), 12);
    assert_eq!(pool.fd_span(), Some((12, 12)));
    pool.insert(addr(2), 7);
    pool.insert(addr(3), 30);
    pool.insert(addr(4), 9);
    assert_eq!(pool.fd_span(), Some((7, 30)));
}

#[test]
fn lookups_in_plain_lists() {
    let socks = vec![Socket { fd: 3, addr: addr(1) }, Socket { fd: 4, addr: addr(1) }];
    assert_eq!(fd_among(&socks, addr(1)), Some(3));
    assert_eq!(fd_among(&socks, addr(2)), None);
    assert!(holds_addr(&vec![addr(1), addr(2)], addr(2)));
    assert!(!holds_addr(&vec![addr(1), addr(2)], addr(3)));
}

#[test]
fn targets_of_configured_descriptors() {
    assert_eq!(port_target(0), Ok(Target::Stdin));
    assert_eq!(port_target(1), Err(PortError::ReservedFd(1)));
    assert_eq!(port_target(2), Err(PortError::ReservedFd(2)));
    assert_eq!(port_target(3), Ok(Target::Descriptor(3)));
    assert_eq!(port_target(i32::MAX), Ok(Target::Descriptor(i32::MAX)));
    assert_eq!(port_target(-1), Err(PortError::InvalidFd(-1)));
}

#[test]
fn a_descriptor_below_zero_is_rejected() {
    let mut pool = SocketPool::new();
    pool.insert(addr(80), 5);
    assert_eq!(
        pool.attach_to_command(&Vec::new(), &vec![port(80, -7)], false),
        Err(PortError::InvalidFd(-7))
    );
}

#[test]
fn opened_sockets_go_to_the_pool_or_to_the_child() {
    let mut pool = SocketPool::new();
    let mut fresh = Vec::new();
    let shared = TcpPort { reuse_port: true, ..port(90, 4) };
    let next = pool.opened(&mut fresh, Opening { port: port(80, 3), cached: true }, Some(11));
    assert!(matches!(next, Progress::GoOn));
    let next = pool.opened(&mut fresh, Opening { port: shared, cached: false }, Some(12));
    assert!(matches!(next, Progress::GoOn));
    let next = pool.opened(&mut fresh, Opening { port: shared, cached: false }, Some(13));
    assert!(matches!(next, Progress::GoOn));
    assert_eq!(pool.sockets(), vec![Socket { fd: 11, addr: addr(80) }]);
    assert_eq!(
        fresh,
        vec![Socket { fd: 12, addr: addr(90) }, Socket { fd: 13, addr: addr(90) }]
    );
}

#[test]
fn the_first_failed_opening_gives_the_start_up() {
    let mut pool = SocketPool::new();
    let mut fresh = Vec::new();
    let shared = TcpPort { reuse_port: true, ..port(90, 4) };
    pool.opened(&mut fresh, Opening { port: port(80, 3), cached: true }, Some(11));
    pool.opened(&mut fresh, Opening { port: shared, cached: false }, Some(12));
    let next = pool.opened(&mut fresh, Opening { port: port(81, 5), cached: true }, None);
    assert!(matches!(next, Progress::GiveUp(fds) if fds == vec![12]));
    assert!(fresh.is_empty());
    assert_eq!(pool.sockets(), vec![Socket { fd: 11, addr: addr(80) }]);
    let next = pool.opened(&mut fresh, Opening { port: port(81, 5), cached: true }, None);
    assert!(matches!(next, Progress::GiveUp(fds) if fds.is_empty()));
}
