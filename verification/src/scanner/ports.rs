//! Listening TCP sockets.

use crate::model::port::{IpAddr, ListeningPort, Protocol};
use vstd::prelude::*;

verus! {

/// A TCP socket as the system lists it.
#[derive(Debug, Clone)]
pub struct SocketFacts {
    pub address: IpAddr,
    pub port: u16,
    pub listening: bool,
    pub pids: Vec<u32>,
}

/// One listener per process of a listening socket.
pub open spec fn listeners(s: SocketFacts) -> Seq<ListeningPort> {
    if s.listening {
        Seq::new(
            s.pids@.len(),
            |i: int|
                ListeningPort {
                    protocol: Protocol::Tcp,
                    address: s.address,
                    port: s.port,
                    pid: s.pids@[i],
                },
        )
    } else {
        Seq::empty()
    }
}

pub open spec fn all_listeners(sockets: Seq<SocketFacts>) -> Seq<ListeningPort>
    decreases sockets.len(),
{
    if sockets.len() == 0 {
        Seq::empty()
    } else {
        all_listeners(sockets.drop_last()) + listeners(sockets.last())
    }
}

/// The listening ports among the sockets that the system lists.
pub fn scan(sockets: &Vec<SocketFacts>) -> (r: Vec<ListeningPort>)
    ensures
        r@ == all_listeners(sockets@),
{
    let mut r: Vec<ListeningPort> = Vec::new();
    let mut i: usize = 0;
    assert(sockets@.take(0) =~= Seq::<SocketFacts>::empty());
    assert(r@ =~= Seq::<ListeningPort>::empty());
    while i < sockets.len()
        invariant
            i <= sockets.len(),
            r@ == all_listeners(sockets@.take(i as int)),
        decreases sockets.len() - i,
    {
        assert(sockets@.take(i + 1).drop_last() =~= sockets@.take(i as int));
        let s: &SocketFacts = &sockets[i];
        let ghost start = r@;
        if s.listening {
            let mut k: usize = 0;
            assert(start + listeners(*s).take(0) =~= start);
            while k < s.pids.len()
                invariant
                    k <= s.pids.len(),
                    s.listening,
                    r@ == start + listeners(*s).take(k as int),
                decreases s.pids.len() - k,
            {
                let ghost before = r@;
                let p: ListeningPort = ListeningPort {
                    protocol: Protocol::Tcp,
                    address: s.address.copy(),
                    port: s.port,
                    pid: s.pids[k],
                };
                let ghost pv = p;
                r.push(p);
                assert(listeners(*s)[k as int] == pv);
                assert(start + listeners(*s).take(k + 1) =~= before.push(pv));
                k += 1;
            }
            assert(listeners(*s).take(s.pids@.len() as int) =~= listeners(*s));
        } else {
            assert(start + listeners(*s) =~= start);
        }
        i += 1;
    }
    assert(sockets@.take(sockets@.len() as int) =~= sockets@);
    r
}

proof fn one_socket_more(sockets: Seq<SocketFacts>, s: SocketFacts, p: ListeningPort)
    requires
        all_listeners(sockets).contains(p) || listeners(s).contains(p),
    ensures
        all_listeners(sockets.push(s)).contains(p),
{
    let a = all_listeners(sockets);
    let b = listeners(s);
    assert(sockets.push(s).drop_last() =~= sockets);
    if a.contains(p) {
        let i = choose|i: int| 0 <= i < a.len() && a[i] == p;
        assert((a + b)[i] == p);
    } else {
        let i = choose|i: int| 0 <= i < b.len() && b[i] == p;
        assert((a + b)[a.len() + i] == p);
    }
}

/// Every process of a listening socket listens on its address and port.
pub proof fn every_process_of_a_socket_listens(sockets: Seq<SocketFacts>, i: int, k: int)
    requires
        0 <= i < sockets.len(),
        sockets[i].listening,
        0 <= k < sockets[i].pids@.len(),
    ensures
        all_listeners(sockets).contains(
            ListeningPort {
                protocol: Protocol::Tcp,
                address: sockets[i].address,
                port: sockets[i].port,
                pid: sockets[i].pids@[k],
            },
        ),
    decreases sockets.len(),
{
    let front = sockets.drop_last();
    let p = ListeningPort {
        protocol: Protocol::Tcp,
        address: sockets[i].address,
        port: sockets[i].port,
        pid: sockets[i].pids@[k],
    };
    if i < front.len() {
        assert(front[i] == sockets[i]);
        every_process_of_a_socket_listens(front, i, k);
    } else {
        assert(listeners(sockets.last())[k] == p);
    }
    one_socket_more(front, sockets.last(), p);
    assert(front.push(sockets.last()) =~= sockets);
}

/// Nothing else listens: each listener is a process of a listening socket,
/// and there are as many as such sockets have processes.
pub proof fn only_listening_sockets_count(sockets: Seq<SocketFacts>, n: int)
    requires
        0 <= n < all_listeners(sockets).len(),
    ensures
        exists|i: int, k: int|
            {
                &&& 0 <= i < sockets.len()
                &&& 0 <= k < sockets[i].pids@.len()
                &&& sockets[i].listening
                &&& (all_listeners(sockets)[n].address == sockets[i].address)
                &&& all_listeners(sockets)[n].port == sockets[i].port
                &&& all_listeners(sockets)[n].pid == #[trigger] sockets[i].pids@[k]
            },
    decreases sockets.len(),
{
    let front = sockets.drop_last();
    let a = all_listeners(front);
    assert(sockets.last() == sockets[sockets.len() - 1]);
    if n < a.len() {
        only_listening_sockets_count(front, n);
        let (i, k) = choose|i: int, k: int|
            {
                &&& 0 <= i < front.len()
                &&& 0 <= k < front[i].pids@.len()
                &&& front[i].listening
                &&& (a[n].address == front[i].address)
                &&& a[n].port == front[i].port
                &&& a[n].pid == #[trigger] front[i].pids@[k]
            };
        assert(sockets[i] == front[i]);
        assert(all_listeners(sockets)[n].pid == sockets[i].pids@[k]);
    } else {
        let k = n - a.len();
        assert(all_listeners(sockets)[n] == listeners(sockets.last())[k]);
        assert(all_listeners(sockets)[n].pid == sockets[sockets.len() - 1].pids@[k]);
    }
}

/// No process is listed twice for one socket.
pub proof fn listeners_are_counted(sockets: Seq<SocketFacts>)
    ensures
        all_listeners(sockets).len() == sockets.filter(|s: SocketFacts| s.listening).fold_left(
            0nat,
            |n: nat, s: SocketFacts| n + s.pids@.len(),
        ),
    decreases sockets.len(),
{
    let on = |s: SocketFacts| s.listening;
    reveal(Seq::filter);
    if sockets.len() > 0 {
        let front = sockets.drop_last();
        listeners_are_counted(front);
        if sockets.last().listening {
            assert(front.filter(on).push(sockets.last()).drop_last() =~= front.filter(on));
        }
    }
}

} // verus!
