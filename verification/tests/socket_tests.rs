use kernel::net::socket::{
    accept4_flags_valid, iov_capacity, iov_chunks, is_loopback, is_unspecified, next_send_chunk,
    partial_or_error, recv_flags_valid, send_flags_valid, socket_matches_listener, AcceptStep, RecvStep,
    SockAddrIn, SocketTable, SocketType, TcpState, UdpState, AF_INET, AF_INET6, AF_UNIX, FIONBIO, POLLHUP, POLLIN,
    POLLOUT, SOCK_CLOEXEC, SOCK_DGRAM, SOCK_NONBLOCK, SOCK_SEQPACKET, SOCK_STREAM,
};
use kernel::syscall::errno::Errno;

fn tcp(table: &mut SocketTable) -> usize {
    table.open(AF_INET, SOCK_STREAM, 0).expect("socket").0
}

fn listener(table: &mut SocketTable, port: u16) -> usize {
    let id = tcp(table);
    table.bind(id, SockAddrIn::new([0, 0, 0, 0], port)).expect("bind");
    table.listen(id, 4).expect("listen");
    id
}

#[test]
fn sockaddr_round_trips_through_bytes() {
    let address = SockAddrIn::new([127, 0, 0, 1], 8080);
    assert_eq!(address.port(), 8080);
    assert_eq!(address.addr(), [127, 0, 0, 1]);
    let bytes = address.as_bytes();
    assert_eq!(bytes.len(), 16);
    assert_eq!(&bytes[0..4], &[2, 0, 0x1f, 0x90]);
    assert_eq!(&bytes[4..8], &[127, 0, 0, 1]);
    let back = SockAddrIn::from_bytes(&bytes).expect("decode");
    assert_eq!(back.port(), 8080);
    assert_eq!(back.addr(), [127, 0, 0, 1]);
    assert!(SockAddrIn::from_bytes(&bytes[..15]).is_none());
    let mut inet6 = bytes.clone();
    inet6[0] = 10;
    assert!(SockAddrIn::from_bytes(&inet6).is_none());
}

#[test]
fn loopback_and_listener_matching() {
    assert!(is_unspecified([0, 0, 0, 0]));
    assert!(!is_unspecified([0, 0, 0, 1]));
    assert!(is_loopback([127, 1, 2, 3]));
    assert!(is_loopback([0, 0, 0, 0]));
    assert!(!is_loopback([10, 0, 0, 1]));
    let any = SockAddrIn::new([0, 0, 0, 0], 80);
    let exact = SockAddrIn::new([127, 0, 0, 1], 80);
    assert!(socket_matches_listener(any, SockAddrIn::new([127, 0, 0, 1], 80)));
    assert!(socket_matches_listener(exact, SockAddrIn::new([127, 0, 0, 1], 80)));
    assert!(!socket_matches_listener(exact, SockAddrIn::new([127, 0, 0, 2], 80)));
    assert!(!socket_matches_listener(any, SockAddrIn::new([127, 0, 0, 1], 81)));
}

#[test]
fn socket_creation_checks_domain_and_type() {
    let mut table = SocketTable::new();
    assert_eq!(table.open(AF_UNIX, SOCK_STREAM, 0), Err(Errno::Eafnosupport));
    assert_eq!(table.open(AF_INET, SOCK_SEQPACKET, 0), Err(Errno::Einval));
    assert_eq!(table.open(AF_INET, SOCK_STREAM, 0), Ok((1, false)));
    assert_eq!(table.open(AF_INET6, SOCK_DGRAM | SOCK_CLOEXEC, 0), Ok((2, true)));
    assert_eq!(table.open(AF_INET, SOCK_STREAM | SOCK_NONBLOCK, 0), Ok((3, false)));
    let unbound = table.getsockname(1).expect("name");
    assert_eq!(unbound.addr(), [0, 0, 0, 0]);
    assert_eq!(unbound.port(), 0);
    assert_eq!(table.getsockname(99), Err(Errno::Ebadf));
}

#[test]
fn bind_listen_state_machine() {
    let mut table = SocketTable::new();
    let id = tcp(&mut table);
    assert_eq!(table.listen(id, 1), Err(Errno::Einval));
    let address = SockAddrIn::new([127, 0, 0, 1], 5000);
    table.bind(id, address).expect("bind");
    assert_eq!(table.bind(id, address), Err(Errno::Einval));
    assert_eq!(table.getsockname(id).expect("name").port(), 5000);
    table.listen(id, 2).expect("listen");
    assert_eq!(table.getpeername(id), Err(Errno::Einval));
    assert_eq!(table.bind(42, address), Err(Errno::Ebadf));
    let udp = table.open(AF_INET, SOCK_DGRAM, 0).expect("udp").0;
    table.bind(udp, address).expect("udp bind");
    assert_eq!(table.listen(udp, 1), Err(Errno::Einval));
}

#[test]
fn connect_accept_and_exchange_data() {
    let mut table = SocketTable::new();
    let server = listener(&mut table, 7000);
    let client = tcp(&mut table);
    assert_eq!(table.accept_step(server, false), AcceptStep::Wait);
    table.connect(client, SockAddrIn::new([127, 0, 0, 1], 7000)).expect("connect");
    let local = table.getsockname(client).expect("client name");
    assert_eq!(local.addr(), [127, 0, 0, 1]);
    assert_eq!(local.port(), 49152);
    assert_eq!(table.getpeername(client).expect("client peer").port(), 7000);

    let accepted = match table.accept_step(server, false) {
        AcceptStep::Accepted { id, peer } => {
            assert_eq!(peer.port(), 49152);
            id
        }
        other => panic!("unexpected {:?}", other),
    };
    assert_eq!(accepted, 3);
    assert_eq!(table.accept_step(server, false), AcceptStep::Wait);

    assert_eq!(table.queue_to_peer(client, b"hello"), Ok(5));
    assert_eq!(table.poll(accepted, POLLIN | POLLOUT), POLLIN | POLLOUT);
    match table.receive(accepted, 3, true, false, false) {
        RecvStep::Data { data, .. } => assert_eq!(data, b"hel"),
        _ => panic!("peek"),
    }
    match table.receive(accepted, 3, false, false, false) {
        RecvStep::Data { data, peer } => {
            assert_eq!(data, b"hel");
            assert_eq!(peer.port(), 49152);
        }
        _ => panic!("read"),
    }
    match table.receive(accepted, 100, false, false, false) {
        RecvStep::Data { data, .. } => assert_eq!(data, b"lo"),
        _ => panic!("read rest"),
    }
    assert!(matches!(table.receive(accepted, 100, false, false, false), RecvStep::Wait));
    assert!(matches!(table.receive(accepted, 100, false, true, false), RecvStep::Failed(Errno::Eagain)));
    assert!(matches!(table.receive(accepted, 100, false, false, true), RecvStep::Failed(Errno::Eintr)));

    assert_eq!(table.queue_to_peer(accepted, b"pong"), Ok(4));
    match table.receive(client, 10, false, false, false) {
        RecvStep::Data { data, .. } => assert_eq!(data, b"pong"),
        _ => panic!("client read"),
    }
}

#[test]
fn connect_errors() {
    let mut table = SocketTable::new();
    let client = tcp(&mut table);
    assert_eq!(table.connect(client, SockAddrIn::new([10, 0, 0, 1], 80)), Err(Errno::Eafnosupport));
    assert_eq!(table.connect(client, SockAddrIn::new([127, 0, 0, 1], 80)), Err(Errno::Eagain));
    assert_eq!(table.connect(77, SockAddrIn::new([127, 0, 0, 1], 80)), Err(Errno::Ebadf));
    let udp = table.open(AF_INET, SOCK_DGRAM, 0).expect("udp").0;
    assert_eq!(table.connect(udp, SockAddrIn::new([127, 0, 0, 1], 80)), Err(Errno::Einval));
}

#[test]
fn connected_socket_connects_again_without_change() {
    let mut table = SocketTable::new();
    let _server = listener(&mut table, 9000);
    let client = tcp(&mut table);
    table.connect(client, SockAddrIn::new([127, 0, 0, 1], 9000)).expect("connect");
    assert_eq!(table.connect(client, SockAddrIn::new([127, 0, 0, 1], 1)), Ok(()));
}

#[test]
fn backlog_limits_pending_connections() {
    let mut table = SocketTable::new();
    let server = tcp(&mut table);
    table.bind(server, SockAddrIn::new([127, 0, 0, 1], 6000)).expect("bind");
    table.listen(server, 0).expect("listen");
    let first = tcp(&mut table);
    let second = tcp(&mut table);
    table.connect(first, SockAddrIn::new([127, 0, 0, 1], 6000)).expect("first");
    assert_eq!(table.connect(second, SockAddrIn::new([127, 0, 0, 1], 6000)), Err(Errno::Eagain));
}

#[test]
fn accept_skips_connections_that_were_closed() {
    let mut table = SocketTable::new();
    let server = listener(&mut table, 7100);
    let a = tcp(&mut table);
    let b = tcp(&mut table);
    table.connect(a, SockAddrIn::new([127, 0, 0, 1], 7100)).expect("a");
    table.connect(b, SockAddrIn::new([127, 0, 0, 1], 7100)).expect("b");
    // server sides are 4 (for a) and 5 (for b)
    table.close(4);
    match table.accept_step(server, false) {
        AcceptStep::Accepted { id, .. } => assert_eq!(id, 5),
        other => panic!("unexpected {:?}", other),
    }
    table.set_nonblock(server, true);
    assert_eq!(table.accept_step(server, false), AcceptStep::Failed(Errno::Eagain));
    assert_eq!(table.accept_step(server, true), AcceptStep::Failed(Errno::Eintr));
    assert_eq!(table.accept_step(a, false), AcceptStep::Failed(Errno::Einval));
    assert_eq!(table.accept_step(99, false), AcceptStep::Failed(Errno::Ebadf));
}

#[test]
fn close_and_shutdown_end_the_stream() {
    let mut table = SocketTable::new();
    let (left, right, cloexec) = table.open_pair(AF_UNIX, SOCK_STREAM | SOCK_CLOEXEC, 0, 0x1000).expect("pair");
    assert!(cloexec);
    assert_eq!(table.queue_to_peer(left, b"x"), Ok(1));
    table.close(left);
    assert_eq!(table.poll(right, POLLIN | POLLHUP | POLLOUT), POLLIN | POLLHUP | POLLOUT);
    match table.receive(right, 10, false, false, false) {
        RecvStep::Data { data, .. } => assert_eq!(data, b"x"),
        _ => panic!("data before end"),
    }
    assert!(matches!(table.receive(right, 10, false, false, false), RecvStep::EndOfStream));
    assert_eq!(table.queue_to_peer(right, b"y"), Err(Errno::Epipe));
    assert!(matches!(table.receive(left, 10, false, false, false), RecvStep::Failed(Errno::Ebadf)));
    assert_eq!(table.poll(left, POLLIN | POLLOUT), POLLOUT);

    let (a, b, _) = table.open_pair(AF_UNIX, SOCK_SEQPACKET, 0, 0x1000).expect("pair");
    table.shutdown(a).expect("shutdown");
    assert_eq!(table.queue_to_peer(a, b"z"), Err(Errno::Epipe));
    assert!(matches!(table.receive(b, 1, false, false, false), RecvStep::EndOfStream));
    assert_eq!(table.shutdown(1234), Err(Errno::Ebadf));
}

#[test]
fn socket_pair_ends_are_each_others_peers() {
    let mut table = SocketTable::new();
    let (a, b, cloexec) = table.open_pair(AF_UNIX, SOCK_DGRAM | SOCK_NONBLOCK, 0, 1).expect("pair");
    assert!(!cloexec);
    assert_eq!(b, a + 1);
    assert_eq!(table.getpeername(a).expect("peer").addr(), [127, 0, 0, 1]);
    assert!(matches!(table.receive(a, 4, false, false, false), RecvStep::Failed(Errno::Eagain)));
    assert_eq!(table.open_pair(AF_INET, SOCK_STREAM, 0, 1), Err(Errno::Einval));
    assert_eq!(table.open_pair(AF_UNIX, SOCK_STREAM, 6, 1), Err(Errno::Einval));
    assert_eq!(table.open_pair(AF_UNIX, SOCK_STREAM, 0, 0), Err(Errno::Einval));
    assert_eq!(table.open_pair(AF_UNIX, 9, 0, 1), Err(Errno::Einval));
}

#[test]
fn udp_socket_queues_to_itself() {
    let mut table = SocketTable::new();
    let udp = table.open(AF_INET, SOCK_DGRAM, 0).expect("udp").0;
    assert_eq!(table.queue_to_peer(udp, b"loop"), Ok(4));
    match table.receive(udp, 10, false, false, false) {
        RecvStep::Data { data, peer } => {
            assert_eq!(data, b"loop");
            assert_eq!(peer.addr(), [127, 0, 0, 1]);
            assert_eq!(peer.port(), 0);
        }
        _ => panic!("udp read"),
    }
    let stream = tcp(&mut table);
    assert_eq!(table.queue_to_peer(stream, b"no"), Err(Errno::Einval));
    assert_eq!(table.queue_to_peer(500, b"no"), Err(Errno::Ebadf));
}

#[test]
fn ephemeral_ports_advance_and_bound_addresses_are_completed() {
    let mut table = SocketTable::new();
    let _server = listener(&mut table, 7300);
    let first = tcp(&mut table);
    table.connect(first, SockAddrIn::new([127, 0, 0, 1], 7300)).expect("first");
    let second = tcp(&mut table);
    table.bind(second, SockAddrIn::new([0, 0, 0, 0], 0)).expect("bind any");
    table.connect(second, SockAddrIn::new([127, 0, 0, 1], 7300)).expect("second");
    let name = table.getsockname(second).expect("name");
    assert_eq!(name.addr(), [127, 0, 0, 1]);
    assert_eq!(name.port(), 49153);
    let third = tcp(&mut table);
    table.bind(third, SockAddrIn::new([127, 0, 0, 9], 4444)).expect("bind fixed");
    table.connect(third, SockAddrIn::new([127, 0, 0, 1], 7300)).expect("third");
    let fixed = table.getsockname(third).expect("name");
    assert_eq!(fixed.addr(), [127, 0, 0, 9]);
    assert_eq!(fixed.port(), 4444);
}

#[test]
fn socket_states_are_visible() {
    let mut table = SocketTable::new();
    let udp = table.open(AF_INET, SOCK_DGRAM, 0).expect("udp").0;
    let stream = tcp(&mut table);
    let _ = (udp, stream);
    let state_udp = SocketType::Udp(UdpState::Created);
    let state_tcp = SocketType::Tcp(TcpState::Created);
    assert_ne!(format!("{:?}", state_udp), format!("{:?}", state_tcp));
}

#[test]
fn flag_and_iovec_helpers() {
    assert!(send_flags_valid(0x40 | 0x4000 | 0x4));
    assert!(!send_flags_valid(0x2));
    assert!(recv_flags_valid(0x2 | 0x40 | 0x4000_0000));
    assert!(!recv_flags_valid(0x4000));
    assert!(accept4_flags_valid(SOCK_CLOEXEC | SOCK_NONBLOCK));
    assert!(!accept4_flags_valid(1));
    assert_eq!(iov_capacity(&[10, 20, 30]), 60);
    assert_eq!(iov_capacity(&[usize::MAX, 5]), usize::MAX);
    assert_eq!(iov_capacity(&[]), 0);
    assert_eq!(iov_chunks(25, &[10, 10, 10]), vec![10, 10, 5]);
    assert_eq!(iov_chunks(5, &[0, 3, 10, 4]), vec![0, 3, 2]);
    assert_eq!(iov_chunks(0, &[4]), Vec::<usize>::new());
    assert_eq!(next_send_chunk(10000, 0), 4096);
    assert_eq!(next_send_chunk(10000, 8192), 1808);
    assert_eq!(partial_or_error(0, -14), -14);
    assert_eq!(partial_or_error(7, -14), 7);
}

#[test]
fn fionbio_switches_non_blocking_mode() {
    let mut table = SocketTable::new();
    let (left, _right, _) = table.open_pair(AF_UNIX, SOCK_STREAM, 0, 0x1000).expect("pair");
    assert!(matches!(table.receive(left, 8, false, false, false), RecvStep::Wait));
    assert_eq!(table.ioctl(left, FIONBIO, Some(1)), Ok(0));
    assert!(matches!(table.receive(left, 8, false, false, false), RecvStep::Failed(Errno::Eagain)));
    assert_eq!(table.ioctl(left, FIONBIO, None), Ok(0));
    assert!(matches!(table.receive(left, 8, false, false, false), RecvStep::Failed(Errno::Eagain)));
    assert_eq!(table.ioctl(left, FIONBIO, Some(0)), Ok(0));
    assert!(matches!(table.receive(left, 8, false, false, false), RecvStep::Wait));
    assert_eq!(table.ioctl(left, 0x5401, Some(1)), Err(Errno::Enotty));
    assert_eq!(table.ioctl(99, FIONBIO, Some(1)), Ok(0));
}
