//! Outbound queues per connection, accepted connections and configuration.

use std::collections::BTreeMap;

use vstd::prelude::*;
use vstd::string::StringExecFns;

use crate::bytes::without_prefix;
use crate::text::{decimal, decimal_string, signed_decimal, signed_decimal_string};

verus! {

broadcast use {vstd::std_specs::btree::group_btree_axioms, vstd::laws_cmp::group_laws_cmp};

/// Most connections at a time.
pub const MAX_CONNECTIONS: usize = 1024;

/// Port for trading connections.
pub const LISTEN_PORT: u16 = 9876;

/// Receive buffer of a connection.
pub const TCP_RX_BUF_SIZE: usize = 65536;

/// Send buffer of a connection.
pub const TCP_TX_BUF_SIZE: usize = 65536;

/// An IPv4 address.
#[derive(Clone, Copy, Debug, PartialEq, Eq, Structural)]
pub struct Ipv4(pub u8, pub u8, pub u8, pub u8);

/// Configuration of the transport.
#[derive(Debug)]
pub struct DpdkConfig {
    pub eal_args: Vec<String>,
    pub port_id: u16,
    pub ip_addr: Ipv4,
    pub prefix_len: u8,
    /// Needed for traffic across subnets.
    pub gateway: Option<Ipv4>,
    pub listen_port: u16,
}

impl Default for DpdkConfig {
    fn default() -> (c: DpdkConfig)
        ensures
            c.eal_args@ == Seq::<String>::empty(),
            c.port_id == 0,
            c.ip_addr == Ipv4(10, 0, 0, 1),
            c.prefix_len == 24,
            c.gateway is None,
            c.listen_port == LISTEN_PORT,
    {
        DpdkConfig {
            eal_args: Vec::new(),
            port_id: 0,
            ip_addr: Ipv4(10, 0, 0, 1),
            prefix_len: 24,
            gateway: None,
            listen_port: LISTEN_PORT,
        }
    }
}

/// Why the environment did not come up.
#[derive(Clone, Copy, Debug, PartialEq, Eq, Structural)]
pub enum EalError {
    /// An argument holds a zero byte.
    InvalidArg,
    /// Initialization returned a code.
    InitFailed(i32),
}

impl EalError {
    /// What the error says.
    pub fn message(&self) -> (s: String)
        ensures
            s@ == (match *self {
                EalError::InvalidArg => "EAL argument contains null byte"@,
                EalError::InitFailed(code) => "rte_eal_init failed with code "@
                    + signed_decimal(code as int),
            }),
    {
        match *self {
            EalError::InvalidArg => "EAL argument contains null byte".to_owned(),
            EalError::InitFailed(code) => {
                let mut s: String = "rte_eal_init failed with code ".to_owned();
                let number = signed_decimal_string(code as i64);
                s.append(number.as_str());
                s
            },
        }
    }
}

/// What initialization returned: a number of cores, or a failure.
pub fn eal_started(code: i32) -> (r: Result<u32, EalError>)
    ensures
        if code < 0 {
            r == Err::<u32, EalError>(EalError::InitFailed(code))
        } else {
            r == Ok::<u32, EalError>(code as u32)
        },
{
    if code < 0 {
        Err(EalError::InitFailed(code))
    } else {
        Ok(code as u32)
    }
}

/// Holds a port to those that there are.
pub fn check_port(port_id: u16, port_count: u16) -> (r: Result<(), String>)
    ensures
        if port_id < port_count {
            r == Ok::<(), String>(())
        } else {
            r is Err && r->Err_0@ == "DPDK port "@ + decimal(port_id as nat)
                + " not found (available: "@ + decimal(port_count as nat) + ")"@
        },
{
    if port_id >= port_count {
        let mut text: String = "DPDK port ".to_owned();
        text.append(decimal_string(port_id as u64).as_str());
        text.append(" not found (available: ");
        text.append(decimal_string(port_count as u64).as_str());
        text.append(")");
        Err(text)
    } else {
        Ok(())
    }
}

/// The other end of a connection.
#[derive(Clone, Copy, Debug, PartialEq, Eq, Structural)]
pub enum Remote {
    V4 { ip: Ipv4, port: u16 },
    /// An address of a family that is not supported.
    Other,
}

/// Whether the listener's connection is accepted: once it is established and
/// from an IPv4 peer. Another listener then takes its place.
pub fn accepted_peer(established: bool, remote: Option<Remote>) -> (peer: Option<(Ipv4, u16)>)
    ensures
        peer == (match remote {
            Some(Remote::V4 { ip, port }) => if established {
                Some((ip, port))
            } else {
                None
            },
            _ => None,
        }),
{
    if !established {
        return None;
    }
    match remote {
        Some(Remote::V4 { ip, port }) => Some((ip, port)),
        _ => None,
    }
}

/// Bytes that wait to be sent, by connection.
#[derive(Debug)]
pub struct TxQueues {
    queues: BTreeMap<usize, Vec<u8>>,
}

/// Whether queues differ by what waits on one connection, which is now this.
pub open spec fn changes_one(
    before: TxQueues,
    after: TxQueues,
    handle: usize,
    now: Seq<u8>,
) -> bool {
    forall|h: usize| #[trigger]
        after.pending(h) == (if h == handle {
            now
        } else {
            before.pending(h)
        })
}

impl TxQueues {
    /// The bytes that wait on a connection.
    pub closed spec fn pending(&self, handle: usize) -> Seq<u8> {
        if self.queues@.contains_key(handle) {
            self.queues@[handle]@
        } else {
            Seq::empty()
        }
    }

    /// Nothing waits.
    pub fn new() -> (q: TxQueues)
        ensures
            forall|h: usize| #[trigger] q.pending(h) == Seq::<u8>::empty(),
    {
        TxQueues { queues: BTreeMap::new() }
    }

    /// Queues bytes behind those that wait on a connection.
    pub fn queue_send(&mut self, handle: usize, data: &[u8])
        ensures
            changes_one(*old(self), *final(self), handle, old(self).pending(handle) + data@),
    {
        let mut queue: Vec<u8> = match self.queues.remove(&handle) {
            Some(queue) => queue,
            None => Vec::new(),
        };
        let ghost before = queue@;
        queue.extend_from_slice(data);
        assert(before == old(self).pending(handle));
        self.queues.insert(handle, queue);
        assert(self.pending(handle) == before + data@);
    }

    /// The bytes to offer to a connection, where some wait.
    pub fn waiting(&self, handle: usize) -> (bytes: Option<&[u8]>)
        ensures
            if self.pending(handle).len() == 0 {
                bytes is None
            } else {
                bytes is Some && bytes->0@ == self.pending(handle)
            },
    {
        match self.queues.get(&handle) {
            Some(queue) => if queue.len() == 0 {
                None
            } else {
                Some(queue.as_slice())
            },
            None => None,
        }
    }

    /// Takes bytes that a connection accepted off its queue.
    pub fn sent(&mut self, handle: usize, n: usize)
        requires
            n <= old(self).pending(handle).len(),
        ensures
            changes_one(
                *old(self),
                *final(self),
                handle,
                old(self).pending(handle).skip(n as int),
            ),
    {
        match self.queues.remove(&handle) {
            Some(queue) => {
                let rest: Vec<u8> = without_prefix(&queue, n);
                self.queues.insert(handle, rest);
                assert(self.pending(handle) == old(self).pending(handle).skip(n as int));
            },
            None => {
                assert(old(self).pending(handle).skip(n as int) =~= Seq::empty());
            },
        }
    }

    /// Drops what waits on a connection that closes.
    pub fn close(&mut self, handle: usize)
        ensures
            changes_one(*old(self), *final(self), handle, Seq::empty()),
    {
        self.queues.remove(&handle);
    }
}

/// A send takes bytes off the front of a queue, and neither loses nor repeats
/// one: what left and what still waits make up what waited.
pub proof fn law_bytes_leave_in_order(before: &TxQueues, after: &TxQueues, handle: usize, n: int)
    requires
        0 <= n <= before.pending(handle).len(),
        after.pending(handle) == before.pending(handle).skip(n),
    ensures
        before.pending(handle).take(n) + after.pending(handle) == before.pending(handle),
{
    let waited = before.pending(handle);
    assert(waited.take(n) + waited.skip(n) =~= waited);
}

/// Bytes queued on a connection are offered behind those that waited, and no
/// other connection's bytes change.
pub proof fn law_queued_bytes_are_offered(
    q: &mut TxQueues,
    handle: usize,
    data: &[u8],
    other: usize,
)
    requires
        call_ensures(TxQueues::queue_send, (q, handle, data), ()),
    ensures
        final(q).pending(handle).take(old(q).pending(handle).len() as int) == old(q).pending(
            handle,
        ),
        final(q).pending(handle).skip(old(q).pending(handle).len() as int) == data@,
        other != handle ==> final(q).pending(other) == old(q).pending(other),
        forall|bytes: Option<&[u8]>|
            call_ensures(TxQueues::waiting, (&*final(q), handle), bytes) ==> match bytes {
                Some(b) => b@ == final(q).pending(handle) && b@.len() > 0,
                None => old(q).pending(handle).len() == 0 && data@.len() == 0,
            },
{
    assert(final(q).pending(handle) == old(q).pending(handle) + data@);
    assert(final(q).pending(handle).take(old(q).pending(handle).len() as int) =~= old(q).pending(
        handle,
    ));
    assert(final(q).pending(handle).skip(old(q).pending(handle).len() as int) =~= data@);
}

/// A send takes as many bytes off its connection's queue as were accepted,
/// from the front, and no other connection's.
pub proof fn law_sent_bytes_leave_one_queue(q: &mut TxQueues, handle: usize, n: usize, other: usize)
    requires
        n <= old(q).pending(handle).len(),
        call_ensures(TxQueues::sent, (q, handle, n), ()),
    ensures
        old(q).pending(handle) == old(q).pending(handle).take(n as int) + final(q).pending(handle),
        final(q).pending(handle).len() + n == old(q).pending(handle).len(),
        other != handle ==> final(q).pending(other) == old(q).pending(other),
{
    assert(final(q).pending(handle) == old(q).pending(handle).skip(n as int));
    assert(old(q).pending(handle) =~= old(q).pending(handle).take(n as int) + final(q).pending(
        handle,
    ));
}

/// A connection that closes has nothing to offer, and the others keep what
/// they had.
pub proof fn law_closed_connection_offers_nothing(q: &mut TxQueues, handle: usize, other: usize)
    requires
        call_ensures(TxQueues::close, (q, handle), ()),
    ensures
        final(q).pending(handle).len() == 0,
        other != handle ==> final(q).pending(other) == old(q).pending(other),
{
}

/// A negative code is a failure and keeps its value; any other tells cores. A
/// port is found if its number is below the count. A peer is accepted once
/// its connection stands, with its own address.
pub proof fn law_startup_is_checked(
    code: i32,
    started: Result<u32, EalError>,
    port_id: u16,
    port_count: u16,
    port: Result<(), String>,
    established: bool,
    remote: Option<Remote>,
    peer: Option<(Ipv4, u16)>,
)
    requires
        call_ensures(eal_started, (code,), started),
        call_ensures(check_port, (port_id, port_count), port),
        call_ensures(accepted_peer, (established, remote), peer),
    ensures
        started is Err <==> code <= -1,
        started matches Ok(cores) ==> cores == code,
        started matches Err(e) ==> e == EalError::InitFailed(code),
        port is Ok <==> port_id < port_count,
        peer is Some ==> established,
        peer matches Some((ip, from)) ==> remote == Some(Remote::V4 { ip, port: from }),
        established && remote is Some && remote->0 is V4 ==> peer is Some,
{
}

} // verus!
