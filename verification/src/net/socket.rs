//! IPv4 socket addresses and the socket layer's wait queues.
use vstd::prelude::*;

use crate::syscall::errno::Errno;
use crate::task::wait_queue::WaitQueue;

verus! {

pub const AF_INET: usize = 2;
pub const AF_INET6: usize = 10;
pub const AF_UNIX: usize = 1;
pub const SOCK_STREAM: usize = 1;
pub const SOCK_DGRAM: usize = 2;
pub const SOCK_SEQPACKET: usize = 5;
pub const IPPROTO_TCP: usize = 6;
pub const IPPROTO_UDP: usize = 17;

/// The size of a `sockaddr_in`.
pub const SOCKADDR_IN_SIZE: usize = 16;

/// `sockaddr_in`: the port is kept in network byte order, as the
/// little-endian targets store it.
#[derive(Clone, Copy, Debug, PartialEq, Eq)]
pub struct SockAddrIn {
    pub sin_family: u16,
    pub sin_port: u16,
    pub sin_addr: [u8; 4],
    pub sin_zero: [u8; 8],
}

/// A 16-bit value with its two bytes exchanged.
pub open spec fn swap16(value: u16) -> u16 {
    ((value >> 8u16) | (value << 8u16)) as u16
}

fn swap_bytes16(value: u16) -> (swapped: u16)
    ensures
        swapped == swap16(value),
{
    (value >> 8u16) | (value << 8u16)
}

/// The 16 bytes of a `sockaddr_in` in memory.
pub open spec fn sockaddr_bytes(family: u16, port: u16, addr: Seq<u8>) -> Seq<u8> {
    seq![(family & 0xff) as u8, (family >> 8u16) as u8, (port >> 8u16) as u8, (port & 0xff) as u8]
        + addr + Seq::new(8, |i: int| 0u8)
}

impl SockAddrIn {
    pub open spec fn spec_port(&self) -> u16 {
        swap16(self.sin_port)
    }

    /// The IPv4 address `addr`, port `port`.
    pub fn new(addr: [u8; 4], port: u16) -> (address: SockAddrIn)
        ensures
            address.sin_family == AF_INET,
            address.spec_port() == port,
            address.sin_addr@ == addr@,
            address.sin_zero@ == Seq::new(8, |i: int| 0u8),
    {
        let zero: [u8; 8] = [0, 0, 0, 0, 0, 0, 0, 0];
        proof {
            assert(swap16(swap16(port)) == port) by (bit_vector);
            assert(zero@ =~= Seq::new(8, |i: int| 0u8));
        }
        SockAddrIn { sin_family: AF_INET as u16, sin_port: swap_bytes16(port), sin_addr: addr, sin_zero: zero }
    }

    /// The port in host byte order.
    pub fn port(&self) -> (port: u16)
        ensures
            port == self.spec_port(),
    {
        swap_bytes16(self.sin_port)
    }

    pub fn addr(&self) -> (addr: [u8; 4])
        ensures
            addr@ == self.sin_addr@,
    {
        self.sin_addr
    }

    /// The 16 bytes of the structure as user space sees them.
    pub fn as_bytes(&self) -> (bytes: Vec<u8>)
        ensures
            bytes@.len() == SOCKADDR_IN_SIZE,
            bytes@.subrange(0, 8) == sockaddr_bytes(self.sin_family, self.spec_port(), self.sin_addr@).subrange(0, 8),
            bytes@.subrange(8, 16) == self.sin_zero@,
    {
        let port = self.port();
        let mut bytes: Vec<u8> = Vec::new();
        bytes.push((self.sin_family & 0xff) as u8);
        bytes.push((self.sin_family >> 8u16) as u8);
        bytes.push((port >> 8u16) as u8);
        bytes.push((port & 0xff) as u8);
        let mut i: usize = 0;
        while i < 4
            invariant
                i <= 4,
                bytes@.len() == 4 + i,
                bytes@.subrange(0, 4) == seq![(self.sin_family & 0xff) as u8, (self.sin_family >> 8u16) as u8,
                    (port >> 8u16) as u8, (port & 0xff) as u8],
                forall|k: int| 0 <= k < i ==> #[trigger] bytes@[4 + k] == self.sin_addr@[k],
            decreases 4 - i,
        {
            bytes.push(self.sin_addr[i]);
            i = i + 1;
        }
        let mut j: usize = 0;
        while j < 8
            invariant
                j <= 8,
                bytes@.len() == 8 + j,
                bytes@.subrange(0, 4) == seq![(self.sin_family & 0xff) as u8, (self.sin_family >> 8u16) as u8,
                    (port >> 8u16) as u8, (port & 0xff) as u8],
                forall|k: int| 0 <= k < 4 ==> #[trigger] bytes@[4 + k] == self.sin_addr@[k],
                forall|k: int| 0 <= k < j ==> #[trigger] bytes@[8 + k] == self.sin_zero@[k],
            decreases 8 - j,
        {
            bytes.push(self.sin_zero[j]);
            j = j + 1;
        }
        proof {
            let expected = sockaddr_bytes(self.sin_family, port, self.sin_addr@);
            assert forall|k: int| 0 <= k < 8 implies bytes@.subrange(0, 8)[k] == expected.subrange(0, 8)[k] by {
                if k < 4 {
                    assert(bytes@.subrange(0, 4)[k] == bytes@[k]);
                } else {
                    assert(bytes@[4 + (k - 4)] == self.sin_addr@[k - 4]);
                }
            }
            assert(bytes@.subrange(0, 8) =~= expected.subrange(0, 8));
            assert forall|k: int| 0 <= k < 8 implies bytes@.subrange(8, 16)[k] == self.sin_zero@[k] by {
                assert(bytes@[8 + k] == self.sin_zero@[k]);
            }
            assert(bytes@.subrange(8, 16) =~= self.sin_zero@);
        }
        bytes
    }

    /// Reads a `sockaddr_in` from user bytes: too short, or not `AF_INET`,
    /// gives `None`.
    pub fn from_bytes(bytes: &[u8]) -> (address: Option<SockAddrIn>)
        ensures
            bytes@.len() < SOCKADDR_IN_SIZE ==> address is None,
            bytes@.len() >= SOCKADDR_IN_SIZE ==> ({
                let family = (bytes@[0] as u16) | ((bytes@[1] as u16) << 8u16);
                &&& family != AF_INET ==> address is None
                &&& family == AF_INET ==> address is Some && address.unwrap().sin_family == family
                    && address.unwrap().spec_port() == (((bytes@[2] as u16) << 8u16) | (bytes@[3] as u16))
                    && address.unwrap().sin_addr@ == bytes@.subrange(4, 8)
                    && address.unwrap().sin_zero@ == bytes@.subrange(8, 16)
            }),
    {
        if bytes.len() < SOCKADDR_IN_SIZE {
            return None;
        }
        let family = (bytes[0] as u16) | ((bytes[1] as u16) << 8u16);
        if family != AF_INET as u16 {
            return None;
        }
        let port = ((bytes[2] as u16) << 8u16) | (bytes[3] as u16);
        let addr: [u8; 4] = [bytes[4], bytes[5], bytes[6], bytes[7]];
        let zero: [u8; 8] = [bytes[8], bytes[9], bytes[10], bytes[11], bytes[12], bytes[13], bytes[14], bytes[15]];
        proof {
            assert(swap16(swap16(port)) == port) by (bit_vector);
            assert(addr@ =~= bytes@.subrange(4, 8));
            assert(zero@ =~= bytes@.subrange(8, 16));
        }
        Some(SockAddrIn { sin_family: family, sin_port: swap_bytes16(port), sin_addr: addr, sin_zero: zero })
    }
}

pub open spec fn unspecified(addr: Seq<u8>) -> bool {
    addr == seq![0u8, 0u8, 0u8, 0u8]
}

/// Whether `addr` is 0.0.0.0.
pub fn is_unspecified(addr: [u8; 4]) -> (unspecified_address: bool)
    ensures
        unspecified_address == unspecified(addr@),
{
    let result = addr[0] == 0 && addr[1] == 0 && addr[2] == 0 && addr[3] == 0;
    proof {
        if result {
            assert(addr@ =~= seq![0u8, 0u8, 0u8, 0u8]);
        } else {
            assert(addr@[0] != 0 || addr@[1] != 0 || addr@[2] != 0 || addr@[3] != 0);
        }
    }
    result
}

/// Whether `addr` stays on this machine: 127.x.x.x, or 0.0.0.0.
pub fn is_loopback(addr: [u8; 4]) -> (local: bool)
    ensures
        local == (addr@[0] == 127 || unspecified(addr@)),
{
    addr[0] == 127 || is_unspecified(addr)
}

/// Whether a listener bound to `local` accepts a connection to `dest`: same
/// port, and an unspecified or equal address.
pub fn socket_matches_listener(local: SockAddrIn, dest: SockAddrIn) -> (matches_listener: bool)
    ensures
        matches_listener == (local.spec_port() == dest.spec_port()
            && (unspecified(local.sin_addr@) || local.sin_addr@ == dest.sin_addr@)),
{
    let local_addr = local.addr();
    let dest_addr = dest.addr();
    let same = local_addr[0] == dest_addr[0] && local_addr[1] == dest_addr[1] && local_addr[2] == dest_addr[2]
        && local_addr[3] == dest_addr[3];
    proof {
        if same {
            assert(local.sin_addr@ =~= dest.sin_addr@);
        } else if local.sin_addr@ == dest.sin_addr@ {
            assert(local_addr@[0] == dest_addr@[0]);
        }
    }
    local.port() == dest.port() && (is_unspecified(local_addr) || same)
}

/// The first ephemeral port.
pub const EPHEMERAL_PORT_BASE: usize = 49152;

/// The ephemeral port handed out for allocation counter value `raw`: ports
/// cycle through 49152..=65535.
pub fn ephemeral_port_for(raw: usize) -> (port: u16)
    requires
        raw >= EPHEMERAL_PORT_BASE,
    ensures
        port == EPHEMERAL_PORT_BASE + (raw - EPHEMERAL_PORT_BASE) % 16384,
        49152 <= port,
{
    (49152 + ((raw - 49152) % 16384)) as u16
}

/// Wakes every task waiting to accept a connection and every task waiting
/// for socket data.
pub fn wake_all_waiters(accept_waiters: &mut WaitQueue, io_waiters: &mut WaitQueue) -> (woken: usize)
    requires
        old(accept_waiters).wf(),
        old(io_waiters).wf(),
        old(accept_waiters).spec_waiters().len() + old(io_waiters).spec_waiters().len() <= usize::MAX,
    ensures
        final(accept_waiters).wf(),
        final(io_waiters).wf(),
        final(accept_waiters).spec_waiters().len() == 0,
        final(io_waiters).spec_waiters().len() == 0,
        woken == old(accept_waiters).spec_waiters().len() + old(io_waiters).spec_waiters().len(),
{
    let accepted = accept_waiters.wake_all();
    let io = io_waiters.wake_all();
    accepted + io
}

/// A TCP socket's connection state.
#[derive(Clone, Copy, Debug, PartialEq, Eq)]
pub enum TcpState {
    Created,
    Bound { local: SockAddrIn },
    Listening { local: SockAddrIn, backlog: usize },
    Connected { local: SockAddrIn, peer: SockAddrIn, peer_id: usize },
}

/// A UDP socket's state.
#[derive(Clone, Copy, Debug, PartialEq, Eq)]
pub enum UdpState {
    Created,
    Bound { local: SockAddrIn },
}

#[derive(Clone, Copy, Debug, PartialEq, Eq)]
pub enum SocketType {
    Tcp(TcpState),
    Udp(UdpState),
}

/// One socket of the table.
pub struct Socket {
    pub id: usize,
    pub domain: usize,
    pub sock_type: usize,
    pub protocol: usize,
    pub state: SocketType,
    /// Connections waiting in `accept`, oldest first; only a listening
    /// socket has any.
    pub pending: Vec<usize>,
    /// Bytes received and not yet read.
    pub recv_buf: Vec<u8>,
    pub peer_closed: bool,
    pub nonblock: bool,
}

/// What a socket holds, as values.
pub struct SocketView {
    pub id: usize,
    pub domain: usize,
    pub sock_type: usize,
    pub protocol: usize,
    pub state: SocketType,
    pub pending: Seq<usize>,
    pub recv: Seq<u8>,
    pub peer_closed: bool,
    pub nonblock: bool,
}

impl View for Socket {
    type V = SocketView;

    open spec fn view(&self) -> SocketView {
        SocketView {
            id: self.id,
            domain: self.domain,
            sock_type: self.sock_type,
            protocol: self.protocol,
            state: self.state,
            pending: self.pending@,
            recv: self.recv_buf@,
            peer_closed: self.peer_closed,
            nonblock: self.nonblock,
        }
    }
}

/// The state a new socket starts in: datagram sockets are UDP, everything
/// else TCP.
pub open spec fn initial_state(sock_type: usize) -> SocketType {
    if sock_type == SOCK_DGRAM {
        SocketType::Udp(UdpState::Created)
    } else {
        SocketType::Tcp(TcpState::Created)
    }
}

/// A freshly created socket.
pub open spec fn fresh_socket(id: usize, domain: usize, sock_type: usize, protocol: usize) -> SocketView {
    SocketView {
        id,
        domain,
        sock_type,
        protocol,
        state: initial_state(sock_type),
        pending: Seq::empty(),
        recv: Seq::empty(),
        peer_closed: false,
        nonblock: false,
    }
}

fn new_socket(id: usize, domain: usize, sock_type: usize, protocol: usize) -> (socket: Socket)
    ensures
        socket@ == fresh_socket(id, domain, sock_type, protocol),
{
    let state = if sock_type == SOCK_DGRAM {
        SocketType::Udp(UdpState::Created)
    } else {
        SocketType::Tcp(TcpState::Created)
    };
    Socket {
        id,
        domain,
        sock_type,
        protocol,
        state,
        pending: Vec::new(),
        recv_buf: Vec::new(),
        peer_closed: false,
        nonblock: false,
    }
}

/// Socket ids in strictly ascending order (so each occurs once).
pub open spec fn ids_ascending(sockets: Seq<SocketView>) -> bool {
    forall|i: int, j: int| 0 <= i < j < sockets.len() ==> #[trigger] sockets[i].id < #[trigger] sockets[j].id
}

/// Where the socket `id` stands in the table, if it is there.
pub open spec fn index_of(sockets: Seq<SocketView>, id: usize) -> Option<int> {
    if exists|i: int| 0 <= i < sockets.len() && #[trigger] sockets[i].id == id {
        Some(choose|i: int| 0 <= i < sockets.len() && #[trigger] sockets[i].id == id)
    } else {
        None
    }
}

proof fn lemma_index_of(sockets: Seq<SocketView>, id: usize, i: int)
    requires
        ids_ascending(sockets),
        0 <= i < sockets.len(),
        sockets[i].id == id,
    ensures
        index_of(sockets, id) == Some(i),
{
    let j = choose|j: int| 0 <= j < sockets.len() && #[trigger] sockets[j].id == id;
    assert(sockets[j].id == id);
    if j < i {
        assert(sockets[j].id < sockets[i].id);
    } else if i < j {
        assert(sockets[i].id < sockets[j].id);
    }
}

/// The first ephemeral port and the number of them.
pub const EPHEMERAL_PORT_COUNT: u16 = 16384;

/// The port after `port` in the ephemeral range, wrapping to its start.
pub open spec fn next_ephemeral(port: u16) -> u16 {
    if port >= 65535 {
        EPHEMERAL_PORT_BASE as u16
    } else {
        (port + 1) as u16
    }
}

/// All sockets, with the id and ephemeral-port counters.
pub struct SocketTable {
    sockets: Vec<Socket>,
    next_id: usize,
    next_port: u16,
}

impl View for SocketTable {
    type V = Seq<SocketView>;

    closed spec fn view(&self) -> Seq<SocketView> {
        self.sockets@.map_values(|socket: Socket| socket@)
    }
}

impl SocketTable {
    /// The id the next socket gets.
    pub closed spec fn spec_next_id(&self) -> usize {
        self.next_id
    }

    /// The port the next ephemeral binding gets.
    pub closed spec fn spec_next_port(&self) -> u16 {
        self.next_port
    }

    pub open spec fn wf(&self) -> bool {
        &&& ids_ascending(self@)
        &&& forall|i: int| 0 <= i < self@.len() ==> #[trigger] self@[i].id < self.spec_next_id()
        &&& self.spec_next_id() >= 1
        &&& EPHEMERAL_PORT_BASE <= self.spec_next_port()
    }

    /// An empty table: ids start at 1, ports at 49152.
    pub fn new() -> (table: Self)
        ensures
            table.wf(),
            table@ == Seq::<SocketView>::empty(),
            table.spec_next_id() == 1,
            table.spec_next_port() == EPHEMERAL_PORT_BASE,
    {
        let table = SocketTable { sockets: Vec::new(), next_id: 1, next_port: 49152 };
        proof {
            assert(table@ =~= Seq::<SocketView>::empty());
        }
        table
    }

    proof fn lemma_view(&self)
        ensures
            self@.len() == self.sockets@.len(),
            forall|i: int| 0 <= i < self.sockets@.len() ==> #[trigger] self@[i] == self.sockets@[i]@,
    {
    }

    /// Where socket `id` stands.
    fn find(&self, id: usize) -> (index: Option<usize>)
        requires
            self.wf(),
        ensures
            match index {
                Some(i) => index_of(self@, id) == Some(i as int) && i < self@.len(),
                None => index_of(self@, id) is None,
            },
    {
        proof {
            self.lemma_view();
        }
        let mut i: usize = 0;
        while i < self.sockets.len()
            invariant
                self.wf(),
                i <= self.sockets@.len(),
                self@.len() == self.sockets@.len(),
                forall|k: int| 0 <= k < self.sockets@.len() ==> #[trigger] self@[k] == self.sockets@[k]@,
                forall|k: int| 0 <= k < i ==> #[trigger] self@[k].id != id,
            decreases self.sockets@.len() - i,
        {
            if self.sockets[i].id == id {
                proof {
                    lemma_index_of(self@, id, i as int);
                }
                return Some(i);
            }
            i = i + 1;
        }
        proof {
            assert(!(exists|k: int| 0 <= k < self@.len() && #[trigger] self@[k].id == id));
        }
        None
    }
    /// Replaces the state of the socket at `index`.
    fn set_state(&mut self, index: usize, state: SocketType)
        requires
            old(self).wf(),
            index < old(self)@.len(),
        ensures
            final(self).wf(),
            final(self)@ == old(self)@.update(index as int, SocketView { state, ..old(self)@[index as int] }),
            final(self).spec_next_id() == old(self).spec_next_id(),
            final(self).spec_next_port() == old(self).spec_next_port(),
    {
        proof {
            self.lemma_view();
        }
        self.sockets[index].state = state;
        proof {
            self.lemma_view();
            assert(self@ =~= old(self)@.update(index as int, SocketView { state, ..old(self)@[index as int] }));
        }
    }

    /// Marks the socket at `index` as cut off from its peer.
    fn set_peer_closed(&mut self, index: usize)
        requires
            old(self).wf(),
            index < old(self)@.len(),
        ensures
            final(self).wf(),
            final(self)@ == old(self)@.update(index as int, SocketView { peer_closed: true, ..old(self)@[index as int] }),
            final(self).spec_next_id() == old(self).spec_next_id(),
            final(self).spec_next_port() == old(self).spec_next_port(),
    {
        proof {
            self.lemma_view();
        }
        self.sockets[index].peer_closed = true;
        proof {
            self.lemma_view();
            assert(self@ =~= old(self)@.update(index as int, SocketView { peer_closed: true, ..old(self)@[index as int] }));
        }
    }

    /// Binds a created socket to `addr`.
    pub fn bind(&mut self, id: usize, addr: SockAddrIn) -> (result: Result<(), Errno>)
        requires
            old(self).wf(),
        ensures
            final(self).wf(),
            final(self).spec_next_id() == old(self).spec_next_id(),
            final(self).spec_next_port() == old(self).spec_next_port(),
            match index_of(old(self)@, id) {
                None => result == Err::<(), Errno>(Errno::Ebadf) && final(self)@ == old(self)@,
                Some(i) => match old(self)@[i].state {
                    SocketType::Tcp(TcpState::Created) => result is Ok && final(self)@ == old(self)@.update(
                        i, SocketView { state: SocketType::Tcp(TcpState::Bound { local: addr }), ..old(self)@[i] }),
                    SocketType::Udp(UdpState::Created) => result is Ok && final(self)@ == old(self)@.update(
                        i, SocketView { state: SocketType::Udp(UdpState::Bound { local: addr }), ..old(self)@[i] }),
                    _ => result == Err::<(), Errno>(Errno::Einval) && final(self)@ == old(self)@,
                },
            },
    {
        proof {
            self.lemma_view();
        }
        let index = match self.find(id) {
            Some(index) => index,
            None => {
                return Err(Errno::Ebadf);
            },
        };
        match self.sockets[index].state {
            SocketType::Tcp(TcpState::Created) => {
                self.set_state(index, SocketType::Tcp(TcpState::Bound { local: addr }));
                Ok(())
            },
            SocketType::Udp(UdpState::Created) => {
                self.set_state(index, SocketType::Udp(UdpState::Bound { local: addr }));
                Ok(())
            },
            _ => Err(Errno::Einval),
        }
    }

    /// Turns a bound TCP socket into a listener with an empty accept queue.
    pub fn listen(&mut self, id: usize, backlog: usize) -> (result: Result<(), Errno>)
        requires
            old(self).wf(),
        ensures
            final(self).wf(),
            final(self).spec_next_id() == old(self).spec_next_id(),
            final(self).spec_next_port() == old(self).spec_next_port(),
            match index_of(old(self)@, id) {
                None => result == Err::<(), Errno>(Errno::Ebadf) && final(self)@ == old(self)@,
                Some(i) => match old(self)@[i].state {
                    SocketType::Tcp(TcpState::Bound { local }) => result is Ok && final(self)@ == old(self)@.update(
                        i,
                        SocketView {
                            state: SocketType::Tcp(TcpState::Listening { local, backlog }),
                            pending: Seq::empty(),
                            ..old(self)@[i]
                        },
                    ),
                    _ => result == Err::<(), Errno>(Errno::Einval) && final(self)@ == old(self)@,
                },
            },
    {
        proof {
            self.lemma_view();
        }
        let index = match self.find(id) {
            Some(index) => index,
            None => {
                return Err(Errno::Ebadf);
            },
        };
        match self.sockets[index].state {
            SocketType::Tcp(TcpState::Bound { local }) => {
                self.sockets[index].state = SocketType::Tcp(TcpState::Listening { local, backlog });
                self.sockets[index].pending = Vec::new();
                proof {
                    self.lemma_view();
                    assert(self@ =~= old(self)@.update(
                        index as int,
                        SocketView {
                            state: SocketType::Tcp(TcpState::Listening { local, backlog }),
                            pending: Seq::empty(),
                            ..old(self)@[index as int]
                        },
                    ));
                }
                Ok(())
            },
            _ => Err(Errno::Einval),
        }
    }

    /// The local address of a socket; an unbound one reports 0.0.0.0:0.
    pub fn getsockname(&self, id: usize) -> (result: Result<SockAddrIn, Errno>)
        requires
            self.wf(),
        ensures
            match index_of(self@, id) {
                None => result == Err::<SockAddrIn, Errno>(Errno::Ebadf),
                Some(i) => result is Ok && match local_address(self@[i].state) {
                    Some(local) => result == Ok::<SockAddrIn, Errno>(local),
                    None => is_address(result->Ok_0, seq![0u8, 0u8, 0u8, 0u8], 0),
                },
            },
    {
        proof {
            self.lemma_view();
        }
        let index = match self.find(id) {
            Some(index) => index,
            None => {
                return Err(Errno::Ebadf);
            },
        };
        let address = match self.sockets[index].state {
            SocketType::Tcp(TcpState::Bound { local }) => local,
            SocketType::Tcp(TcpState::Listening { local, .. }) => local,
            SocketType::Tcp(TcpState::Connected { local, .. }) => local,
            SocketType::Udp(UdpState::Bound { local }) => local,
            _ => {
                let unbound = SockAddrIn::new([0, 0, 0, 0], 0);
                proof {
                    assert(unbound.sin_addr@ =~= seq![0u8, 0u8, 0u8, 0u8]);
                }
                unbound
            },
        };
        Ok(address)
    }

    /// The address of a connected socket's peer.
    pub fn getpeername(&self, id: usize) -> (result: Result<SockAddrIn, Errno>)
        requires
            self.wf(),
        ensures
            match index_of(self@, id) {
                None => result == Err::<SockAddrIn, Errno>(Errno::Ebadf),
                Some(i) => match self@[i].state {
                    SocketType::Tcp(TcpState::Connected { peer, .. }) => result == Ok::<SockAddrIn, Errno>(peer),
                    _ => result == Err::<SockAddrIn, Errno>(Errno::Einval),
                },
            },
    {
        proof {
            self.lemma_view();
        }
        let index = match self.find(id) {
            Some(index) => index,
            None => {
                return Err(Errno::Ebadf);
            },
        };
        match self.sockets[index].state {
            SocketType::Tcp(TcpState::Connected { peer, .. }) => Ok(peer),
            _ => Err(Errno::Einval),
        }
    }

    /// Sets or clears non-blocking mode (`FIONBIO`); an unknown id is
    /// ignored.
    pub fn set_nonblock(&mut self, id: usize, nonblock: bool)
        requires
            old(self).wf(),
        ensures
            final(self).wf(),
            final(self).spec_next_id() == old(self).spec_next_id(),
            final(self).spec_next_port() == old(self).spec_next_port(),
            match index_of(old(self)@, id) {
                None => final(self)@ == old(self)@,
                Some(i) => final(self)@ == old(self)@.update(i, SocketView { nonblock, ..old(self)@[i] }),
            },
    {
        proof {
            self.lemma_view();
        }
        if let Some(index) = self.find(id) {
            self.sockets[index].nonblock = nonblock;
            proof {
                self.lemma_view();
                assert(self@ =~= old(self)@.update(index as int, SocketView { nonblock, ..old(self)@[index as int] }));
            }
        }
    }

    /// `ioctl` on a socket: only `FIONBIO` is known; it sets non-blocking
    /// mode from the `int` the caller points at (`value`, none for a null
    /// pointer, which changes nothing) and answers 0. Other commands are
    /// not a terminal's (`Enotty`).
    pub fn ioctl(&mut self, id: usize, cmd: usize, value: Option<i32>) -> (result: Result<usize, Errno>)
        requires
            old(self).wf(),
        ensures
            final(self).wf(),
            final(self).spec_next_id() == old(self).spec_next_id(),
            final(self).spec_next_port() == old(self).spec_next_port(),
            cmd != FIONBIO ==> result == Err::<usize, Errno>(Errno::Enotty) && final(self)@ == old(self)@,
            cmd == FIONBIO ==> result == Ok::<usize, Errno>(0) && match (value, index_of(old(self)@, id)) {
                (Some(v), Some(i)) => final(self)@ == old(self)@.update(i, SocketView { nonblock: v != 0, ..old(self)@[i] }),
                _ => final(self)@ == old(self)@,
            },
    {
        if cmd != FIONBIO {
            return Err(Errno::Enotty);
        }
        if let Some(v) = value {
            self.set_nonblock(id, v != 0);
        }
        Ok(0)
    }

    /// Marks the peer of the socket at `index` (if it has one that is still
    /// in the table) as cut off.
    fn close_peer_of(&mut self, index: usize)
        requires
            old(self).wf(),
            index < old(self)@.len(),
        ensures
            final(self).wf(),
            final(self).spec_next_id() == old(self).spec_next_id(),
            final(self).spec_next_port() == old(self).spec_next_port(),
            final(self)@ == mark_peer_closed(old(self)@, connected_peer(old(self)@[index as int].state)),
    {
        proof {
            self.lemma_view();
        }
        if let SocketType::Tcp(TcpState::Connected { peer_id, .. }) = self.sockets[index].state {
            if let Some(peer_index) = self.find(peer_id) {
                self.set_peer_closed(peer_index);
            }
        }
    }

    /// Shuts a socket down in both directions: it and its peer see the end
    /// of the stream.
    pub fn shutdown(&mut self, id: usize) -> (result: Result<(), Errno>)
        requires
            old(self).wf(),
        ensures
            final(self).wf(),
            final(self).spec_next_id() == old(self).spec_next_id(),
            final(self).spec_next_port() == old(self).spec_next_port(),
            match index_of(old(self)@, id) {
                None => result == Err::<(), Errno>(Errno::Ebadf) && final(self)@ == old(self)@,
                Some(i) => result is Ok && final(self)@ == ({
                    let marked = mark_peer_closed(old(self)@, connected_peer(old(self)@[i].state));
                    marked.update(i, SocketView { peer_closed: true, ..marked[i] })
                }),
            },
    {
        let index = match self.find(id) {
            Some(index) => index,
            None => {
                return Err(Errno::Ebadf);
            },
        };
        self.close_peer_of(index);
        self.set_peer_closed(index);
        Ok(())
    }

    /// Removes a socket; its peer sees the end of the stream. An unknown id
    /// is ignored.
    pub fn close(&mut self, id: usize)
        requires
            old(self).wf(),
        ensures
            final(self).wf(),
            final(self).spec_next_id() == old(self).spec_next_id(),
            final(self).spec_next_port() == old(self).spec_next_port(),
            match index_of(old(self)@, id) {
                None => final(self)@ == old(self)@,
                Some(i) => final(self)@ == mark_peer_closed(old(self)@, connected_peer(old(self)@[i].state)).remove(i),
            },
            !present(final(self)@, id),
    {
        let index = match self.find(id) {
            Some(index) => index,
            None => {
                return ;
            },
        };
        self.close_peer_of(index);
        let ghost marked = self@;
        proof {
            self.lemma_view();
        }
        let _ = self.sockets.remove(index);
        proof {
            self.lemma_view();
            assert(self@ =~= marked.remove(index as int));
            assert forall|a: int, b: int| 0 <= a < b < self@.len() implies #[trigger] self@[a].id < #[trigger] self@[b].id by {
                let oa = if a < index { a } else { a + 1 };
                let ob = if b < index { b } else { b + 1 };
                assert(marked[oa].id < marked[ob].id);
            }
            assert forall|a: int| 0 <= a < self@.len() implies #[trigger] self@[a].id < self.spec_next_id() by {
                let oa = if a < index { a } else { a + 1 };
                assert(marked[oa].id < self.spec_next_id());
            }
            assert(marked[index as int].id == id);
            assert forall|a: int| 0 <= a < self@.len() implies #[trigger] self@[a].id != id by {
                let oa = if a < index { a } else { a + 1 };
                assert(marked[oa].id != marked[index as int].id);
            }
        }
    }

    /// The readiness of a socket among `requested`: writable always,
    /// readable when data or end of stream is there, hung up when the peer
    /// is gone.
    pub fn poll(&self, id: usize, requested: u32) -> (ready: u32)
        requires
            self.wf(),
        ensures
            ready == (match index_of(self@, id) {
                None => POLLOUT,
                Some(i) => poll_events(self@[i]),
            }) & requested,
    {
        proof {
            self.lemma_view();
        }
        let mut events: u32 = POLLOUT;
        if let Some(index) = self.find(id) {
            let socket = &self.sockets[index];
            let readable: u32 = if socket.recv_buf.len() > 0 || socket.peer_closed { POLLIN } else { 0 };
            let hung_up: u32 = if socket.peer_closed { POLLHUP } else { 0 };
            events = POLLOUT | readable | hung_up;
        }
        events & requested
    }
    /// Appends a new socket under the next id and advances the id counter.
    fn insert_socket(&mut self, socket: Socket)
        requires
            old(self).wf(),
            socket.id == old(self).spec_next_id(),
            old(self).spec_next_id() < usize::MAX,
        ensures
            final(self).wf(),
            final(self)@ == old(self)@.push(socket@),
            final(self).spec_next_id() == old(self).spec_next_id() + 1,
            final(self).spec_next_port() == old(self).spec_next_port(),
    {
        proof {
            self.lemma_view();
        }
        let ghost added = socket@;
        self.sockets.push(socket);
        self.next_id = self.next_id + 1;
        proof {
            self.lemma_view();
            assert(self@ =~= old(self)@.push(added));
        }
    }

    /// Queues connection `conn` on the listener at `index`.
    fn push_pending(&mut self, index: usize, conn: usize)
        requires
            old(self).wf(),
            index < old(self)@.len(),
        ensures
            final(self).wf(),
            final(self)@ == old(self)@.update(
                index as int,
                SocketView { pending: old(self)@[index as int].pending.push(conn), ..old(self)@[index as int] },
            ),
            final(self).spec_next_id() == old(self).spec_next_id(),
            final(self).spec_next_port() == old(self).spec_next_port(),
    {
        proof {
            self.lemma_view();
        }
        self.sockets[index].pending.push(conn);
        proof {
            self.lemma_view();
            assert(self@ =~= old(self)@.update(
                index as int,
                SocketView { pending: old(self)@[index as int].pending.push(conn), ..old(self)@[index as int] },
            ));
        }
    }

    /// Creates a socket (`socket(2)`): returns its id and whether the
    /// descriptor is to be closed on exec.
    pub fn open(&mut self, domain: usize, sock_type: usize, protocol: usize) -> (result: Result<(usize, bool), Errno>)
        requires
            old(self).wf(),
        ensures
            final(self).wf(),
            final(self).spec_next_port() == old(self).spec_next_port(),
            domain != AF_INET && domain != AF_INET6 ==> result == Err::<(usize, bool), Errno>(Errno::Eafnosupport),
            (domain == AF_INET || domain == AF_INET6) && base_type(sock_type) != SOCK_STREAM
                && base_type(sock_type) != SOCK_DGRAM ==> result == Err::<(usize, bool), Errno>(Errno::Einval),
            (domain == AF_INET || domain == AF_INET6) && (base_type(sock_type) == SOCK_STREAM || base_type(sock_type)
                == SOCK_DGRAM) && old(self).spec_next_id() == usize::MAX ==> result == Err::<(usize, bool), Errno>(
                Errno::Eexist),
            result is Err ==> final(self)@ == old(self)@ && final(self).spec_next_id() == old(self).spec_next_id(),
            (domain == AF_INET || domain == AF_INET6) && (base_type(sock_type) == SOCK_STREAM || base_type(sock_type)
                == SOCK_DGRAM) && old(self).spec_next_id() < usize::MAX ==> {
                &&& result == Ok::<(usize, bool), Errno>((old(self).spec_next_id(), sock_type & SOCK_CLOEXEC != 0))
                &&& final(self).spec_next_id() == old(self).spec_next_id() + 1
                &&& final(self)@ == old(self)@.push(
                    SocketView {
                        nonblock: sock_type & SOCK_NONBLOCK != 0,
                        ..fresh_socket(
                            old(self).spec_next_id(),
                            domain,
                            base_type(sock_type),
                            default_protocol(base_type(sock_type), protocol),
                        )
                    },
                )
            },
    {
        if domain != AF_INET && domain != AF_INET6 {
            return Err(Errno::Eafnosupport);
        }
        let wants_cloexec = sock_type & SOCK_CLOEXEC != 0;
        let wants_nonblock = sock_type & SOCK_NONBLOCK != 0;
        let base = sock_type & !(SOCK_CLOEXEC | SOCK_NONBLOCK);
        if base != SOCK_STREAM && base != SOCK_DGRAM {
            return Err(Errno::Einval);
        }
        let protocol = if protocol == 0 {
            if base == SOCK_STREAM {
                IPPROTO_TCP
            } else {
                IPPROTO_UDP
            }
        } else {
            protocol
        };
        if self.next_id == usize::MAX {
            return Err(Errno::Eexist);
        }
        let id = self.next_id;
        let mut socket = new_socket(id, domain, base, protocol);
        socket.nonblock = wants_nonblock;
        self.insert_socket(socket);
        Ok((id, wants_cloexec))
    }

    /// Creates a connected pair of local sockets (`socketpair(2)`): returns
    /// their ids and whether the descriptors are to be closed on exec.
    pub fn open_pair(&mut self, domain: usize, sock_type: usize, protocol: usize, pair_address: usize) -> (result:
        Result<(usize, usize, bool), Errno>)
        requires
            old(self).wf(),
        ensures
            final(self).wf(),
            final(self).spec_next_port() == old(self).spec_next_port(),
            domain != AF_UNIX || protocol != 0 || pair_address == 0 || (base_type(sock_type) != SOCK_STREAM
                && base_type(sock_type) != SOCK_DGRAM && base_type(sock_type) != SOCK_SEQPACKET)
                ==> result == Err::<(usize, usize, bool), Errno>(Errno::Einval),
            result is Err ==> final(self)@ == old(self)@ && final(self).spec_next_id() == old(self).spec_next_id(),
            !(domain != AF_UNIX || protocol != 0 || pair_address == 0 || (base_type(sock_type) != SOCK_STREAM
                && base_type(sock_type) != SOCK_DGRAM && base_type(sock_type) != SOCK_SEQPACKET)) ==> {
                let first = old(self).spec_next_id();
                let second = (first + 1) as usize;
                if first >= usize::MAX - 1 {
                    result == Err::<(usize, usize, bool), Errno>(Errno::Eexist)
                } else {
                    &&& result == Ok::<(usize, usize, bool), Errno>((first, second, sock_type & SOCK_CLOEXEC != 0))
                    &&& final(self).spec_next_id() == first + 2
                    &&& final(self)@.len() == old(self)@.len() + 2
                    &&& final(self)@.subrange(0, old(self)@.len() as int) == old(self)@
                    &&& pair_end(final(self)@[old(self)@.len() as int], first, second, base_type(sock_type),
                        sock_type & SOCK_NONBLOCK != 0)
                    &&& pair_end(final(self)@[old(self)@.len() + 1int], second, first, base_type(sock_type),
                        sock_type & SOCK_NONBLOCK != 0)
                }
            },
    {
        if domain != AF_UNIX || protocol != 0 || pair_address == 0 {
            return Err(Errno::Einval);
        }
        let wants_cloexec = sock_type & SOCK_CLOEXEC != 0;
        let wants_nonblock = sock_type & SOCK_NONBLOCK != 0;
        let base = sock_type & !(SOCK_CLOEXEC | SOCK_NONBLOCK);
        if base != SOCK_STREAM && base != SOCK_DGRAM && base != SOCK_SEQPACKET {
            return Err(Errno::Einval);
        }
        if self.next_id >= usize::MAX - 1 {
            return Err(Errno::Eexist);
        }
        let first_id = self.next_id;
        let second_id = self.next_id + 1;
        let local = SockAddrIn::new([127, 0, 0, 1], 0);
        proof {
            assert(local.sin_addr@ =~= seq![127u8, 0u8, 0u8, 1u8]);
        }
        let mut first = new_socket(first_id, AF_UNIX, base, 0);
        let mut second = new_socket(second_id, AF_UNIX, base, 0);
        first.nonblock = wants_nonblock;
        second.nonblock = wants_nonblock;
        first.state = SocketType::Tcp(TcpState::Connected { local, peer: local, peer_id: second_id });
        second.state = SocketType::Tcp(TcpState::Connected { local, peer: local, peer_id: first_id });
        let ghost before = self@;
        self.insert_socket(first);
        let ghost middle = self@;
        self.insert_socket(second);
        proof {
            assert(self@.subrange(0, before.len() as int) =~= before);
            assert(self@[before.len() as int] == middle[before.len() as int]);
        }
        Ok((first_id, second_id, wants_cloexec))
    }

    /// Appends `input` to what the peer of socket `id` will read (a UDP
    /// socket queues to itself); returns the number of bytes queued.
    pub fn queue_to_peer(&mut self, id: usize, input: &[u8]) -> (result: Result<usize, Errno>)
        requires
            old(self).wf(),
        ensures
            final(self).wf(),
            final(self).spec_next_id() == old(self).spec_next_id(),
            final(self).spec_next_port() == old(self).spec_next_port(),
            result is Err ==> final(self)@ == old(self)@,
            match index_of(old(self)@, id) {
                None => result == Err::<usize, Errno>(Errno::Ebadf),
                Some(i) => if old(self)@[i].peer_closed {
                    result == Err::<usize, Errno>(Errno::Epipe)
                } else {
                    match send_target(id, old(self)@[i].state) {
                        None => result == Err::<usize, Errno>(Errno::Einval),
                        Some(target) => match index_of(old(self)@, target) {
                            None => result == Err::<usize, Errno>(Errno::Epipe),
                            Some(j) => if old(self)@[j].peer_closed {
                                result == Err::<usize, Errno>(Errno::Epipe)
                            } else {
                                &&& result == Ok::<usize, Errno>(input@.len() as usize)
                                &&& final(self)@ == old(self)@.update(
                                    j,
                                    SocketView { recv: old(self)@[j].recv + input@, ..old(self)@[j] },
                                )
                            },
                        },
                    }
                },
            },
    {
        proof {
            self.lemma_view();
        }
        let index = match self.find(id) {
            Some(index) => index,
            None => {
                return Err(Errno::Ebadf);
            },
        };
        if self.sockets[index].peer_closed {
            return Err(Errno::Epipe);
        }
        let target = match self.sockets[index].state {
            SocketType::Tcp(TcpState::Connected { peer_id, .. }) => peer_id,
            SocketType::Udp(_) => id,
            _ => {
                return Err(Errno::Einval);
            },
        };
        let peer = match self.find(target) {
            Some(peer) => peer,
            None => {
                return Err(Errno::Epipe);
            },
        };
        if self.sockets[peer].peer_closed {
            return Err(Errno::Epipe);
        }
        self.sockets[peer].recv_buf.extend_from_slice(input);
        proof {
            self.lemma_view();
            let before = old(self)@[peer as int].recv;
            assert(self@[peer as int].recv =~= before + input@) by {
                assert forall|k: int| 0 <= k < self@[peer as int].recv.len() implies self@[peer as int].recv[k] == (
                before + input@)[k] by {
                    if k >= before.len() {
                        assert(self.sockets@[peer as int].recv_buf@[k] == input@[k - before.len()]);
                    }
                }
            }
            assert(self@ =~= old(self)@.update(
                peer as int,
                SocketView { recv: old(self)@[peer as int].recv + input@, ..old(self)@[peer as int] },
            ));
        }
        Ok(input.len())
    }
    /// Replaces the receive buffer of the socket at `index`.
    fn set_recv(&mut self, index: usize, recv: Vec<u8>)
        requires
            old(self).wf(),
            index < old(self)@.len(),
        ensures
            final(self).wf(),
            final(self)@ == old(self)@.update(index as int, SocketView { recv: recv@, ..old(self)@[index as int] }),
            final(self).spec_next_id() == old(self).spec_next_id(),
            final(self).spec_next_port() == old(self).spec_next_port(),
    {
        proof {
            self.lemma_view();
        }
        let ghost bytes = recv@;
        self.sockets[index].recv_buf = recv;
        proof {
            self.lemma_view();
            assert(self@ =~= old(self)@.update(index as int, SocketView { recv: bytes, ..old(self)@[index as int] }));
        }
    }

    /// Replaces the accept queue of the socket at `index`.
    fn set_pending(&mut self, index: usize, pending: Vec<usize>)
        requires
            old(self).wf(),
            index < old(self)@.len(),
        ensures
            final(self).wf(),
            final(self)@ == old(self)@.update(index as int, SocketView { pending: pending@, ..old(self)@[index as int] }),
            final(self).spec_next_id() == old(self).spec_next_id(),
            final(self).spec_next_port() == old(self).spec_next_port(),
    {
        proof {
            self.lemma_view();
        }
        let ghost ids = pending@;
        self.sockets[index].pending = pending;
        proof {
            self.lemma_view();
            assert(self@ =~= old(self)@.update(index as int, SocketView { pending: ids, ..old(self)@[index as int] }));
        }
    }

    /// One attempt to receive at most `capacity` bytes from socket `id`
    /// (`read`, `recvfrom`, `recvmsg`). With `peek` the bytes stay queued.
    /// An empty buffer ends the stream once the peer is gone, and otherwise
    /// asks the caller to wait, unless the caller or the socket is
    /// non-blocking. A pending signal (`interrupted`) wins over everything.
    pub fn receive(&mut self, id: usize, capacity: usize, peek: bool, caller_nonblock: bool, interrupted: bool) -> (step:
        RecvStep)
        requires
            old(self).wf(),
        ensures
            final(self).wf(),
            final(self).spec_next_id() == old(self).spec_next_id(),
            final(self).spec_next_port() == old(self).spec_next_port(),
            !(step is Data) ==> final(self)@ == old(self)@,
            interrupted ==> step == RecvStep::Failed(Errno::Eintr),
            !interrupted ==> match index_of(old(self)@, id) {
                None => step == RecvStep::Failed(Errno::Ebadf),
                Some(i) => {
                    let socket = old(self)@[i];
                    if socket.recv.len() == 0 {
                        if socket.peer_closed {
                            step == RecvStep::EndOfStream
                        } else if caller_nonblock || socket.nonblock {
                            step == RecvStep::Failed(Errno::Eagain)
                        } else {
                            step == RecvStep::Wait
                        }
                    } else {
                        let n = if capacity < socket.recv.len() { capacity as int } else { socket.recv.len() as int };
                        match step {
                            RecvStep::Data { data, peer } => {
                                &&& data@ == socket.recv.subrange(0, n)
                                &&& reported_peer(socket.state, peer)
                                &&& final(self)@ == if peek {
                                    old(self)@
                                } else {
                                    old(self)@.update(
                                        i,
                                        SocketView { recv: socket.recv.subrange(n, socket.recv.len() as int), ..socket },
                                    )
                                }
                            },
                            _ => false,
                        }
                    }
                },
            },
    {
        proof {
            self.lemma_view();
        }
        if interrupted {
            return RecvStep::Failed(Errno::Eintr);
        }
        let index = match self.find(id) {
            Some(index) => index,
            None => {
                return RecvStep::Failed(Errno::Ebadf);
            },
        };
        let length = self.sockets[index].recv_buf.len();
        if length == 0 {
            if self.sockets[index].peer_closed {
                return RecvStep::EndOfStream;
            }
            if caller_nonblock || self.sockets[index].nonblock {
                return RecvStep::Failed(Errno::Eagain);
            }
            return RecvStep::Wait;
        }
        let n = if capacity < length { capacity } else { length };
        let data = copy_range(&self.sockets[index].recv_buf, 0, n);
        let peer = match self.sockets[index].state {
            SocketType::Tcp(TcpState::Connected { peer, .. }) => peer,
            _ => {
                let loopback = SockAddrIn::new([127, 0, 0, 1], 0);
                proof {
                    assert(loopback.sin_addr@ =~= seq![127u8, 0u8, 0u8, 1u8]);
                }
                loopback
            },
        };
        if !peek {
            let rest = copy_range(&self.sockets[index].recv_buf, n, length);
            self.set_recv(index, rest);
        }
        RecvStep::Data { data, peer }
    }

    /// One attempt to accept a connection on listener `id`: the oldest
    /// queued connection that still exists is taken off the queue (queued
    /// ids that no longer exist are dropped on the way). An empty queue asks
    /// the caller to wait, or fails for a non-blocking listener.
    pub fn accept_step(&mut self, id: usize, interrupted: bool) -> (step: AcceptStep)
        requires
            old(self).wf(),
        ensures
            final(self).wf(),
            final(self).spec_next_id() == old(self).spec_next_id(),
            final(self).spec_next_port() == old(self).spec_next_port(),
            interrupted ==> step == AcceptStep::Failed(Errno::Eintr) && final(self)@ == old(self)@,
            !interrupted ==> match index_of(old(self)@, id) {
                None => step == AcceptStep::Failed(Errno::Ebadf) && final(self)@ == old(self)@,
                Some(i) => {
                    let listener = old(self)@[i];
                    match listener.state {
                        SocketType::Tcp(TcpState::Listening { .. }) => match first_present(old(self)@, listener.pending) {
                            None => {
                                &&& final(self)@ == old(self)@.update(i, SocketView { pending: Seq::empty(), ..listener })
                                &&& step == if listener.nonblock {
                                    AcceptStep::Failed(Errno::Eagain)
                                } else {
                                    AcceptStep::Wait
                                }
                            },
                            Some(k) => {
                                &&& final(self)@ == old(self)@.update(
                                    i,
                                    SocketView {
                                        pending: listener.pending.subrange(k + 1, listener.pending.len() as int),
                                        ..listener
                                    },
                                )
                                &&& step == accepted_step(
                                    listener.pending[k],
                                    old(self)@[index_of(old(self)@, listener.pending[k]).unwrap()].state,
                                )
                            },
                        },
                        _ => step == AcceptStep::Failed(Errno::Einval) && final(self)@ == old(self)@,
                    }
                },
            },
    {
        proof {
            self.lemma_view();
        }
        if interrupted {
            return AcceptStep::Failed(Errno::Eintr);
        }
        let index = match self.find(id) {
            Some(index) => index,
            None => {
                return AcceptStep::Failed(Errno::Ebadf);
            },
        };
        match self.sockets[index].state {
            SocketType::Tcp(TcpState::Listening { .. }) => {},
            _ => {
                return AcceptStep::Failed(Errno::Einval);
            },
        }
        let ghost pending = old(self)@[index as int].pending;
        let count = self.sockets[index].pending.len();
        let mut k: usize = 0;
        while k < count
            invariant
                self.wf(),
                *self == *old(self),
                index < self@.len(),
                self@.len() == self.sockets@.len(),
                forall|m: int| 0 <= m < self.sockets@.len() ==> #[trigger] self@[m] == self.sockets@[m]@,
                pending == self@[index as int].pending,
                count == pending.len(),
                !interrupted,
                index_of(old(self)@, id) == Some(index as int),
                is_listening(old(self)@[index as int].state),
                k <= count,
                forall|m: int| 0 <= m < k ==> !#[trigger] present(self@, pending[m]),
            decreases count - k,
        {
            let candidate = self.sockets[index].pending[k];
            if let Some(found) = self.find(candidate) {
                let step = match self.sockets[found].state {
                    SocketType::Tcp(TcpState::Connected { peer, .. }) => AcceptStep::Accepted { id: candidate, peer },
                    _ => AcceptStep::Failed(Errno::Einval),
                };
                proof {
                    assert(present(self@, pending[k as int]));
                    lemma_first_present(self@, pending, k as int);
                }
                let rest = copy_range(&self.sockets[index].pending, k + 1, count);
                self.set_pending(index, rest);
                return step;
            }
            k = k + 1;
        }
        proof {
            lemma_none_present(self@, pending);
        }
        let nonblock = self.sockets[index].nonblock;
        let emptied: Vec<usize> = Vec::new();
        proof {
            assert(emptied@ =~= Seq::<usize>::empty());
        }
        self.set_pending(index, emptied);
        if nonblock {
            AcceptStep::Failed(Errno::Eagain)
        } else {
            AcceptStep::Wait
        }
    }

    /// Hands out the next ephemeral port.
    fn take_ephemeral_port(&mut self) -> (port: u16)
        requires
            old(self).wf(),
        ensures
            final(self).wf(),
            port == old(self).spec_next_port(),
            final(self).spec_next_port() == next_ephemeral(old(self).spec_next_port()),
            final(self)@ == old(self)@,
            final(self).spec_next_id() == old(self).spec_next_id(),
    {
        let port = self.next_port;
        self.next_port = if port >= 65535 {
            49152
        } else {
            port + 1
        };
        port
    }

    /// The first listener (by id) that takes a connection to `dest`.
    fn find_listener(&self, dest: SockAddrIn) -> (index: Option<usize>)
        requires
            self.wf(),
        ensures
            match index {
                Some(l) => first_listener(self@, dest) == Some(l as int),
                None => first_listener(self@, dest) is None,
            },
    {
        proof {
            self.lemma_view();
        }
        let mut k: usize = 0;
        while k < self.sockets.len()
            invariant
                self.wf(),
                k <= self.sockets@.len(),
                self@.len() == self.sockets@.len(),
                forall|m: int| 0 <= m < self.sockets@.len() ==> #[trigger] self@[m] == self.sockets@[m]@,
                forall|m: int| 0 <= m < k ==> !#[trigger] accepts_connection(self@[m], dest),
            decreases self.sockets@.len() - k,
        {
            let accepts = match self.sockets[k].state {
                SocketType::Tcp(TcpState::Listening { local, backlog }) => {
                    let limit = if backlog == 0 {
                        1
                    } else {
                        backlog
                    };
                    socket_matches_listener(local, dest) && self.sockets[k].pending.len() < limit
                },
                _ => false,
            };
            if accepts {
                proof {
                    assert(accepts_connection(self@[k as int], dest));
                    lemma_first_listener(self@, dest, k as int);
                }
                return Some(k);
            }
            k = k + 1;
        }
        None
    }

    /// Connects socket `id` to the listener that takes `dest`
    /// (`connect(2)`, loopback only): an unbound socket gets 127.0.0.1 and
    /// an ephemeral port, a new socket for the server side is queued on the
    /// listener, and the two are each other's peers. Connecting a connected
    /// socket again succeeds and does nothing.
    pub fn connect(&mut self, id: usize, dest: SockAddrIn) -> (result: Result<(), Errno>)
        requires
            old(self).wf(),
        ensures
            final(self).wf(),
            match index_of(old(self)@, id) {
                None => result == Err::<(), Errno>(Errno::Ebadf) && final(self)@ == old(self)@
                    && final(self).spec_next_id() == old(self).spec_next_id() && final(self).spec_next_port()
                    == old(self).spec_next_port(),
                Some(i) => {
                    let state = old(self)@[i].state;
                    if is_connected(state) {
                        result is Ok && final(self)@ == old(self)@ && final(self).spec_next_id() == old(
                            self,
                        ).spec_next_id() && final(self).spec_next_port() == old(self).spec_next_port()
                    } else if !can_connect(state) {
                        result == Err::<(), Errno>(Errno::Einval) && final(self)@ == old(self)@
                            && final(self).spec_next_id() == old(self).spec_next_id() && final(self).spec_next_port()
                            == old(self).spec_next_port()
                    } else {
                        &&& final(self).spec_next_port() == if uses_ephemeral_port(state) {
                            next_ephemeral(old(self).spec_next_port())
                        } else {
                            old(self).spec_next_port()
                        }
                        &&& if !loopback(dest.sin_addr@) {
                            result == Err::<(), Errno>(Errno::Eafnosupport) && final(self)@ == old(self)@
                                && final(self).spec_next_id() == old(self).spec_next_id()
                        } else {
                            match first_listener(old(self)@, dest) {
                                None => result == Err::<(), Errno>(Errno::Eagain) && final(self)@ == old(self)@
                                    && final(self).spec_next_id() == old(self).spec_next_id(),
                                Some(l) => if old(self).spec_next_id() == usize::MAX {
                                    result == Err::<(), Errno>(Errno::Eexist) && final(self)@ == old(self)@
                                        && final(self).spec_next_id() == old(self).spec_next_id()
                                } else {
                                    &&& result is Ok
                                    &&& final(self).spec_next_id() == old(self).spec_next_id() + 1
                                    &&& match final(self)@[i].state {
                                        SocketType::Tcp(TcpState::Connected { local, peer, peer_id }) => {
                                            &&& connect_source(state, old(self).spec_next_port(), local)
                                            &&& peer == dest
                                            &&& peer_id == old(self).spec_next_id()
                                            &&& final(self)@ == old(self)@.update(
                                                i,
                                                SocketView { state: final(self)@[i].state, ..old(self)@[i] },
                                            ).update(
                                                l,
                                                SocketView {
                                                    pending: old(self)@[l].pending.push(old(self).spec_next_id()),
                                                    ..old(self)@[l]
                                                },
                                            ).push(accepted_socket(old(self).spec_next_id(), dest, local, id))
                                        },
                                        _ => false,
                                    }
                                },
                            }
                        }
                    }
                },
            },
    {
        proof {
            self.lemma_view();
        }
        let index = match self.find(id) {
            Some(index) => index,
            None => {
                return Err(Errno::Ebadf);
            },
        };
        let state = self.sockets[index].state;
        let local = match state {
            SocketType::Tcp(TcpState::Created) => {
                let port = self.take_ephemeral_port();
                let fresh = SockAddrIn::new([127, 0, 0, 1], port);
                proof {
                    assert(fresh.sin_addr@ =~= seq![127u8, 0u8, 0u8, 1u8]);
                }
                fresh
            },
            SocketType::Tcp(TcpState::Bound { local }) => {
                let mut source = local;
                if source.port() == 0 {
                    let port = self.take_ephemeral_port();
                    source.sin_port = swap_bytes16(port);
                    proof {
                        assert(swap16(swap16(port)) == port) by (bit_vector);
                    }
                }
                if is_unspecified(source.addr()) {
                    source.sin_addr = [127, 0, 0, 1];
                    proof {
                        assert(source.sin_addr@ =~= seq![127u8, 0u8, 0u8, 1u8]);
                    }
                }
                source
            },
            SocketType::Tcp(TcpState::Connected { .. }) => {
                return Ok(());
            },
            _ => {
                return Err(Errno::Einval);
            },
        };
        if !is_loopback(dest.addr()) {
            return Err(Errno::Eafnosupport);
        }
        let listener = match self.find_listener(dest) {
            Some(listener) => listener,
            None => {
                return Err(Errno::Eagain);
            },
        };
        if self.next_id == usize::MAX {
            return Err(Errno::Eexist);
        }
        let accepted_id = self.next_id;
        let mut accepted = new_socket(accepted_id, AF_INET, SOCK_STREAM, IPPROTO_TCP);
        accepted.state = SocketType::Tcp(TcpState::Connected { local: dest, peer: local, peer_id: id });
        proof {
            assert(accepted@ == accepted_socket(accepted_id, dest, local, id));
        }
        self.set_state(index, SocketType::Tcp(TcpState::Connected { local, peer: dest, peer_id: accepted_id }));
        self.push_pending(listener, accepted_id);
        self.insert_socket(accepted);
        Ok(())
    }

}

/// Whether a listener bound to `local` takes a connection to `dest`.
pub open spec fn listener_matches(local: SockAddrIn, dest: SockAddrIn) -> bool {
    local.spec_port() == dest.spec_port() && (unspecified(local.sin_addr@) || local.sin_addr@ == dest.sin_addr@)
}

/// Whether `socket` listens on a matching address and has room in its
/// accept queue (a backlog of 0 counts as 1).
pub open spec fn accepts_connection(socket: SocketView, dest: SockAddrIn) -> bool {
    match socket.state {
        SocketType::Tcp(TcpState::Listening { local, backlog }) => listener_matches(local, dest)
            && socket.pending.len() < (if backlog == 0 { 1 } else { backlog }),
        _ => false,
    }
}

/// The position of the first socket that takes a connection to `dest`.
pub open spec fn first_listener(sockets: Seq<SocketView>, dest: SockAddrIn) -> Option<int> {
    if exists|l: int|
        0 <= l < sockets.len() && #[trigger] accepts_connection(sockets[l], dest) && forall|m: int|
            0 <= m < l ==> !#[trigger] accepts_connection(sockets[m], dest) {
        Some(
            choose|l: int|
                0 <= l < sockets.len() && #[trigger] accepts_connection(sockets[l], dest) && forall|m: int|
                    0 <= m < l ==> !#[trigger] accepts_connection(sockets[m], dest),
        )
    } else {
        None
    }
}

proof fn lemma_first_listener(sockets: Seq<SocketView>, dest: SockAddrIn, l: int)
    requires
        0 <= l < sockets.len(),
        accepts_connection(sockets[l], dest),
        forall|m: int| 0 <= m < l ==> !#[trigger] accepts_connection(sockets[m], dest),
    ensures
        first_listener(sockets, dest) == Some(l),
{
    let c = choose|c: int|
        0 <= c < sockets.len() && #[trigger] accepts_connection(sockets[c], dest) && forall|m: int|
            0 <= m < c ==> !#[trigger] accepts_connection(sockets[m], dest);
    assert(accepts_connection(sockets[c], dest));
    if c < l {
        assert(!accepts_connection(sockets[c], dest));
    } else if l < c {
        assert(!accepts_connection(sockets[l], dest));
    }
}

/// Whether an address is 127.x.x.x or 0.0.0.0.
pub open spec fn loopback(addr: Seq<u8>) -> bool {
    addr[0] == 127 || unspecified(addr)
}

pub open spec fn is_connected(state: SocketType) -> bool {
    match state {
        SocketType::Tcp(TcpState::Connected { .. }) => true,
        _ => false,
    }
}

/// Whether a socket in `state` may start a connection: a created or bound
/// TCP socket.
pub open spec fn can_connect(state: SocketType) -> bool {
    match state {
        SocketType::Tcp(TcpState::Created) => true,
        SocketType::Tcp(TcpState::Bound { .. }) => true,
        _ => false,
    }
}

/// Whether connecting from `state` takes an ephemeral port: unbound, or
/// bound to port 0.
pub open spec fn uses_ephemeral_port(state: SocketType) -> bool {
    match state {
        SocketType::Tcp(TcpState::Created) => true,
        SocketType::Tcp(TcpState::Bound { local }) => local.spec_port() == 0,
        _ => false,
    }
}

/// The address a connection from `state` starts from, with `port` as the
/// ephemeral port: 127.0.0.1:`port` when unbound; the bound address with
/// port 0 replaced by `port` and 0.0.0.0 replaced by 127.0.0.1 otherwise.
pub open spec fn connect_source(state: SocketType, port: u16, source: SockAddrIn) -> bool {
    match state {
        SocketType::Tcp(TcpState::Created) => is_address(source, seq![127u8, 0u8, 0u8, 1u8], port),
        SocketType::Tcp(TcpState::Bound { local }) => {
            &&& source.sin_family == local.sin_family
            &&& source.sin_zero == local.sin_zero
            &&& if local.spec_port() == 0 {
                source.spec_port() == port
            } else {
                source.sin_port == local.sin_port
            }
            &&& if unspecified(local.sin_addr@) {
                source.sin_addr@ == seq![127u8, 0u8, 0u8, 1u8]
            } else {
                source.sin_addr == local.sin_addr
            }
        },
        _ => false,
    }
}

/// The server side of a new connection: a TCP socket connected back to the
/// client.
pub open spec fn accepted_socket(id: usize, local: SockAddrIn, peer: SockAddrIn, peer_id: usize) -> SocketView {
    SocketView {
        state: SocketType::Tcp(TcpState::Connected { local, peer, peer_id }),
        ..fresh_socket(id, AF_INET, SOCK_STREAM, IPPROTO_TCP)
    }
}

/// `MSG_PEEK`: leave received bytes queued.
pub const MSG_PEEK: usize = 0x2;
/// `MSG_DONTROUTE`.
pub const MSG_DONTROUTE: usize = 0x4;
/// `MSG_DONTWAIT`: do not block.
pub const MSG_DONTWAIT: usize = 0x40;
/// `MSG_NOSIGNAL`.
pub const MSG_NOSIGNAL: usize = 0x4000;
/// `MSG_CMSG_CLOEXEC`.
pub const MSG_CMSG_CLOEXEC: usize = 0x4000_0000;
/// The most iovecs `sendmsg` and `recvmsg` take.
pub const MAX_IOVECS: usize = 16;
/// The most bytes moved from user memory per queueing step.
pub const SEND_CHUNK: usize = 4096;

/// Whether `sendto`/`sendmsg` flags are all supported: `MSG_DONTWAIT`,
/// `MSG_NOSIGNAL` and `MSG_DONTROUTE`.
pub fn send_flags_valid(flags: usize) -> (valid: bool)
    ensures
        valid == (flags & !(MSG_DONTWAIT | MSG_NOSIGNAL | MSG_DONTROUTE) == 0),
{
    flags & !(MSG_DONTWAIT | MSG_NOSIGNAL | MSG_DONTROUTE) == 0
}

/// Whether `recvfrom`/`recvmsg` flags are all supported: `MSG_DONTWAIT`,
/// `MSG_PEEK` and `MSG_CMSG_CLOEXEC`.
pub fn recv_flags_valid(flags: usize) -> (valid: bool)
    ensures
        valid == (flags & !(MSG_DONTWAIT | MSG_PEEK | MSG_CMSG_CLOEXEC) == 0),
{
    flags & !(MSG_DONTWAIT | MSG_PEEK | MSG_CMSG_CLOEXEC) == 0
}

/// Whether `accept4` flags are all supported: `SOCK_CLOEXEC` and
/// `SOCK_NONBLOCK`.
pub fn accept4_flags_valid(flags: usize) -> (valid: bool)
    ensures
        valid == (flags & !(SOCK_CLOEXEC | SOCK_NONBLOCK) == 0),
{
    flags & !(SOCK_CLOEXEC | SOCK_NONBLOCK) == 0
}

/// The sum of a sequence of lengths.
pub open spec fn total_length(lengths: Seq<usize>) -> int
    decreases lengths.len(),
{
    if lengths.len() == 0 {
        0
    } else {
        total_length(lengths.drop_last()) + lengths.last()
    }
}

/// The room in a list of iovecs: the sum of their lengths, saturated at
/// `usize::MAX`.
pub fn iov_capacity(lengths: &[usize]) -> (capacity: usize)
    ensures
        capacity == if total_length(lengths@) > usize::MAX { usize::MAX as int } else { total_length(lengths@) },
{
    let mut sum: usize = 0;
    let mut i: usize = 0;
    while i < lengths.len()
        invariant
            i <= lengths@.len(),
            sum == if total_length(lengths@.subrange(0, i as int)) > usize::MAX {
                usize::MAX as int
            } else {
                total_length(lengths@.subrange(0, i as int))
            },
        decreases lengths@.len() - i,
    {
        proof {
            assert(lengths@.subrange(0, i + 1).drop_last() =~= lengths@.subrange(0, i as int));
            assert(total_length(lengths@.subrange(0, i as int)) >= 0) by {
                lemma_total_length_nonnegative(lengths@.subrange(0, i as int));
            }
        }
        sum = sum.saturating_add(lengths[i]);
        i = i + 1;
    }
    proof {
        assert(lengths@.subrange(0, lengths@.len() as int) =~= lengths@);
    }
    sum
}

proof fn lemma_total_length_nonnegative(lengths: Seq<usize>)
    ensures
        total_length(lengths) >= 0,
    decreases lengths.len(),
{
    if lengths.len() > 0 {
        lemma_total_length_nonnegative(lengths.drop_last());
    }
}

/// How `remaining` received bytes are spread over iovecs of the given
/// lengths: each takes what fits, until nothing remains.
pub open spec fn iov_plan(lengths: Seq<usize>, remaining: int) -> Seq<usize>
    decreases lengths.len(),
{
    if lengths.len() == 0 || remaining <= 0 {
        Seq::empty()
    } else {
        let chunk = if lengths[0] < remaining { lengths[0] as int } else { remaining };
        seq![chunk as usize] + iov_plan(lengths.drop_first(), remaining - chunk)
    }
}

/// The byte counts that go to each iovec when `received` bytes are handed
/// back by `recvmsg`.
pub fn iov_chunks(received: usize, lengths: &[usize]) -> (chunks: Vec<usize>)
    ensures
        chunks@ == iov_plan(lengths@, received as int),
{
    let mut chunks: Vec<usize> = Vec::new();
    let mut written: usize = 0;
    let mut i: usize = 0;
    proof {
        assert(lengths@.subrange(0, lengths@.len() as int) =~= lengths@);
        assert(chunks@ + iov_plan(lengths@, received as int) =~= iov_plan(lengths@, received as int));
    }
    while i < lengths.len() && written < received
        invariant
            i <= lengths@.len(),
            written <= received,
            chunks@ + iov_plan(lengths@.subrange(i as int, lengths@.len() as int), received - written) == iov_plan(
                lengths@,
                received as int,
            ),
        decreases lengths@.len() - i,
    {
        let rest = received - written;
        let chunk = if lengths[i] < rest {
            lengths[i]
        } else {
            rest
        };
        proof {
            let tail = lengths@.subrange(i as int, lengths@.len() as int);
            assert(tail.drop_first() =~= lengths@.subrange(i + 1, lengths@.len() as int));
            assert(iov_plan(tail, rest as int) == seq![chunk] + iov_plan(tail.drop_first(), rest - chunk));
            assert(chunks@.push(chunk) + iov_plan(lengths@.subrange(i + 1, lengths@.len() as int), rest - chunk)
                =~= chunks@ + iov_plan(tail, rest as int));
        }
        chunks.push(chunk);
        written = written + chunk;
        i = i + 1;
    }
    proof {
        assert(iov_plan(lengths@.subrange(i as int, lengths@.len() as int), received - written) =~= Seq::<usize>::empty());
        assert(chunks@ + Seq::<usize>::empty() =~= chunks@);
    }
    chunks
}

/// The size of the next piece of an iovec of `length` bytes that `done`
/// bytes into it is moved and queued.
pub fn next_send_chunk(length: usize, done: usize) -> (chunk: usize)
    requires
        done <= length,
    ensures
        chunk == if length - done < SEND_CHUNK { length - done } else { SEND_CHUNK as int },
{
    let rest = length - done;
    if rest < SEND_CHUNK {
        rest
    } else {
        SEND_CHUNK
    }
}

/// The return value of a transfer that stopped on `error` after `done`
/// bytes: the byte count when some moved, the error otherwise.
pub fn partial_or_error(done: usize, error: isize) -> (value: isize)
    requires
        done <= isize::MAX,
    ensures
        value == if done != 0 { done as int } else { error as int },
{
    if done != 0 {
        done as isize
    } else {
        error
    }
}

/// A read gives back what a write queued: bytes queued to a socket whose
/// buffer holds `earlier` are read after those bytes, in order, and a read
/// with room for both leaves the socket as it was before both.
pub proof fn lemma_queue_then_receive(socket: SocketView, input: Seq<u8>, capacity: usize)
    requires
        capacity >= socket.recv.len() + input.len(),
    ensures
        ({
            let queued = SocketView { recv: socket.recv + input, ..socket };
            let n = if capacity < queued.recv.len() { capacity as int } else { queued.recv.len() as int };
            &&& queued.recv.subrange(0, n) == socket.recv + input
            &&& queued.recv.subrange(socket.recv.len() as int, n) == input
            &&& SocketView { recv: queued.recv.subrange(n, queued.recv.len() as int), ..queued } == SocketView {
                recv: Seq::empty(),
                ..socket
            }
        }),
{
    let queued = SocketView { recv: socket.recv + input, ..socket };
    let n = if capacity < queued.recv.len() { capacity as int } else { queued.recv.len() as int };
    assert(queued.recv.subrange(0, n) =~= socket.recv + input);
    assert(queued.recv.subrange(socket.recv.len() as int, n) =~= input);
    assert(queued.recv.subrange(n, queued.recv.len() as int) =~= Seq::<u8>::empty());
}

/// `sock_type` without the close-on-exec and non-blocking flags.
pub open spec fn base_type(sock_type: usize) -> usize {
    sock_type & !(SOCK_CLOEXEC | SOCK_NONBLOCK)
}

/// The protocol a socket gets: the given one, or TCP for streams and UDP
/// for datagrams when it is 0.
pub open spec fn default_protocol(base: usize, protocol: usize) -> usize {
    if protocol != 0 {
        protocol
    } else if base == SOCK_STREAM {
        IPPROTO_TCP
    } else {
        IPPROTO_UDP
    }
}

/// One end of a socket pair: local, connected to `peer_id`, both addresses
/// 127.0.0.1:0.
pub open spec fn pair_end(socket: SocketView, id: usize, peer_id: usize, base: usize, nonblock: bool) -> bool {
    &&& socket.id == id
    &&& socket.domain == AF_UNIX
    &&& socket.sock_type == base
    &&& socket.protocol == 0
    &&& socket.pending == Seq::<usize>::empty()
    &&& socket.recv == Seq::<u8>::empty()
    &&& !socket.peer_closed
    &&& socket.nonblock == nonblock
    &&& match socket.state {
        SocketType::Tcp(TcpState::Connected { local, peer, peer_id: p }) => p == peer_id && local == peer
            && is_address(local, seq![127u8, 0u8, 0u8, 1u8], 0),
        _ => false,
    }
}

/// Where data sent on a socket goes: a connected stream's peer, or a
/// datagram socket itself.
pub open spec fn send_target(id: usize, state: SocketType) -> Option<usize> {
    match state {
        SocketType::Tcp(TcpState::Connected { peer_id, .. }) => Some(peer_id),
        SocketType::Udp(_) => Some(id),
        _ => None,
    }
}

/// What one receive attempt gives.
pub enum RecvStep {
    /// Bytes taken (or peeked) from the buffer, and the address of the
    /// peer they came from.
    Data { data: Vec<u8>, peer: SockAddrIn },
    /// The buffer is empty and the peer is gone: a read of 0 bytes.
    EndOfStream,
    /// Nothing yet: block on the socket wait queue and try again.
    Wait,
    Failed(Errno),
}

/// What one accept attempt gives.
#[derive(Clone, Copy, Debug, PartialEq, Eq)]
pub enum AcceptStep {
    Accepted { id: usize, peer: SockAddrIn },
    /// Nothing queued: block on the accept wait queue and try again.
    Wait,
    Failed(Errno),
}

/// The peer address a receive reports: the connected peer, else
/// 127.0.0.1:0.
pub open spec fn reported_peer(state: SocketType, peer: SockAddrIn) -> bool {
    match state {
        SocketType::Tcp(TcpState::Connected { peer: connected, .. }) => peer == connected,
        _ => is_address(peer, seq![127u8, 0u8, 0u8, 1u8], 0),
    }
}

/// Whether a socket listens for connections.
pub open spec fn is_listening(state: SocketType) -> bool {
    match state {
        SocketType::Tcp(TcpState::Listening { .. }) => true,
        _ => false,
    }
}

/// Whether socket `id` is in the table.
pub open spec fn present(sockets: Seq<SocketView>, id: usize) -> bool {
    index_of(sockets, id) is Some
}

/// The position in `pending` of the first id that is still in the table.
pub open spec fn first_present(sockets: Seq<SocketView>, pending: Seq<usize>) -> Option<int> {
    if exists|k: int|
        0 <= k < pending.len() && #[trigger] present(sockets, pending[k]) && forall|m: int|
            0 <= m < k ==> !#[trigger] present(sockets, pending[m]) {
        Some(
            choose|k: int|
                0 <= k < pending.len() && #[trigger] present(sockets, pending[k]) && forall|m: int|
                    0 <= m < k ==> !#[trigger] present(sockets, pending[m]),
        )
    } else {
        None
    }
}

proof fn lemma_first_present(sockets: Seq<SocketView>, pending: Seq<usize>, k: int)
    requires
        0 <= k < pending.len(),
        present(sockets, pending[k]),
        forall|m: int| 0 <= m < k ==> !#[trigger] present(sockets, pending[m]),
    ensures
        first_present(sockets, pending) == Some(k),
{
    let c = choose|c: int|
        0 <= c < pending.len() && #[trigger] present(sockets, pending[c]) && forall|m: int|
            0 <= m < c ==> !#[trigger] present(sockets, pending[m]);
    assert(present(sockets, pending[c]));
    if c < k {
        assert(!present(sockets, pending[c]));
    } else if k < c {
        assert(!present(sockets, pending[k]));
    }
}

proof fn lemma_none_present(sockets: Seq<SocketView>, pending: Seq<usize>)
    requires
        forall|m: int| 0 <= m < pending.len() ==> !#[trigger] present(sockets, pending[m]),
    ensures
        first_present(sockets, pending) is None,
{
}

/// The outcome of accepting connection `conn` whose socket is in `state`.
pub open spec fn accepted_step(conn: usize, state: SocketType) -> AcceptStep {
    match state {
        SocketType::Tcp(TcpState::Connected { peer, .. }) => AcceptStep::Accepted { id: conn, peer },
        _ => AcceptStep::Failed(Errno::Einval),
    }
}

/// A copy of `items[start..end]`.
fn copy_range<T: Copy>(items: &Vec<T>, start: usize, end: usize) -> (part: Vec<T>)
    requires
        start <= end <= items@.len(),
    ensures
        part@ == items@.subrange(start as int, end as int),
{
    let mut part: Vec<T> = Vec::new();
    let mut i: usize = start;
    while i < end
        invariant
            start <= i <= end <= items@.len(),
            part@ == items@.subrange(start as int, i as int),
        decreases end - i,
    {
        part.push(items[i]);
        i = i + 1;
        proof {
            assert(part@ =~= items@.subrange(start as int, i as int));
        }
    }
    part
}

/// The `ioctl` that sets or clears non-blocking mode.
pub const FIONBIO: usize = 0x5421;

/// Close the descriptor on exec.
pub const SOCK_CLOEXEC: usize = 0o2000000;
/// Non-blocking.
pub const SOCK_NONBLOCK: usize = 0o4000;


/// Readable.
pub const POLLIN: u32 = 0x1;
/// Writable.
pub const POLLOUT: u32 = 0x4;
/// The peer hung up.
pub const POLLHUP: u32 = 0x10;

/// The events a socket reports before they are masked by the request.
pub open spec fn poll_events(socket: SocketView) -> u32 {
    let readable: u32 = if socket.recv.len() > 0 || socket.peer_closed { POLLIN } else { 0 };
    let hung_up: u32 = if socket.peer_closed { POLLHUP } else { 0 };
    POLLOUT | readable | hung_up
}

/// The address a socket is bound to, if it is bound.
pub open spec fn local_address(state: SocketType) -> Option<SockAddrIn> {
    match state {
        SocketType::Tcp(TcpState::Bound { local }) => Some(local),
        SocketType::Tcp(TcpState::Listening { local, .. }) => Some(local),
        SocketType::Tcp(TcpState::Connected { local, .. }) => Some(local),
        SocketType::Udp(UdpState::Bound { local }) => Some(local),
        _ => None,
    }
}

/// `address` is the IPv4 address `ip`, port `port`, as `SockAddrIn::new`
/// builds it.
pub open spec fn is_address(address: SockAddrIn, ip: Seq<u8>, port: u16) -> bool {
    &&& address.sin_family == AF_INET
    &&& address.spec_port() == port
    &&& address.sin_addr@ == ip
    &&& address.sin_zero@ == Seq::new(8, |i: int| 0u8)
}

/// The id of a connected socket's peer.
pub open spec fn connected_peer(state: SocketType) -> Option<usize> {
    match state {
        SocketType::Tcp(TcpState::Connected { peer_id, .. }) => Some(peer_id),
        _ => None,
    }
}

/// The table with the socket `peer` (when given and present) marked as cut
/// off from its own peer.
pub open spec fn mark_peer_closed(sockets: Seq<SocketView>, peer: Option<usize>) -> Seq<SocketView> {
    match peer {
        Some(peer_id) => match index_of(sockets, peer_id) {
            Some(j) => sockets.update(j, SocketView { peer_closed: true, ..sockets[j] }),
            None => sockets,
        },
        None => sockets,
    }
}

} // verus!
