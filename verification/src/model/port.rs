//! Listening sockets.

use crate::text;
use crate::text::dec_of;
use vstd::prelude::*;

verus! {

#[derive(Debug, Clone, Copy, PartialEq, Eq, Structural)]
pub enum Protocol {
    Tcp,
}

impl Protocol {
    pub open spec fn name(self) -> Seq<char> {
        "tcp"@
    }

    /// Stable lowercase protocol string for output.
    pub fn as_str(self) -> (r: &'static str)
        ensures
            r@ == self.name(),
    {
        match self {
            Protocol::Tcp => "tcp",
        }
    }
}

/// An address that a socket is bound to. An IPv6 address comes with its
/// textual form.
#[derive(Debug, Clone, PartialEq, Eq)]
pub enum IpAddr {
    V4(u8, u8, u8, u8),
    V6 { bits: u128, text: String },
}

impl IpAddr {
    /// Bound to every address of the machine.
    pub open spec fn unspecified(self) -> bool {
        match self {
            IpAddr::V4(a, b, c, d) => a == 0 && b == 0 && c == 0 && d == 0,
            IpAddr::V6 { bits, .. } => bits == 0,
        }
    }

    pub open spec fn loopback(self) -> bool {
        match self {
            IpAddr::V4(a, ..) => a == 127,
            IpAddr::V6 { bits, .. } => bits == 1,
        }
    }

    /// The address in its usual notation.
    pub open spec fn spelled(self) -> Seq<char> {
        match self {
            IpAddr::V4(a, b, c, d) => text::dec(a as nat) + "."@ + text::dec(b as nat) + "."@
                + text::dec(c as nat) + "."@ + text::dec(d as nat),
            IpAddr::V6 { text, .. } => text@,
        }
    }

    pub fn is_unspecified(&self) -> (r: bool)
        ensures
            r == self.unspecified(),
    {
        match self {
            IpAddr::V4(a, b, c, d) => *a == 0 && *b == 0 && *c == 0 && *d == 0,
            IpAddr::V6 { bits, .. } => *bits == 0,
        }
    }

    pub fn is_loopback(&self) -> (r: bool)
        ensures
            r == self.loopback(),
    {
        match self {
            IpAddr::V4(a, ..) => *a == 127,
            IpAddr::V6 { bits, .. } => *bits == 1,
        }
    }

    pub fn spell(&self) -> (r: String)
        ensures
            r@ == self.spelled(),
    {
        match self {
            IpAddr::V4(a, b, c, d) => dec_of(*a as u64).concat(".").concat(
                dec_of(*b as u64).as_str(),
            ).concat(".").concat(dec_of(*c as u64).as_str()).concat(".").concat(
                dec_of(*d as u64).as_str(),
            ),
            IpAddr::V6 { text, .. } => text.clone(),
        }
    }

    pub fn copy(&self) -> (r: IpAddr)
        ensures
            r == *self,
    {
        match self {
            IpAddr::V4(a, b, c, d) => IpAddr::V4(*a, *b, *c, *d),
            IpAddr::V6 { bits, text } => IpAddr::V6 { bits: *bits, text: text.clone() },
        }
    }
}

#[derive(Debug, Clone, PartialEq, Eq)]
pub struct ListeningPort {
    pub protocol: Protocol,
    pub address: IpAddr,
    pub port: u16,
    pub pid: u32,
}

impl ListeningPort {
    /// Where a browser finds the server: a loopback or wildcard address is
    /// reached at 127.0.0.1, an IPv6 address stands in brackets.
    pub open spec fn link(self) -> Seq<char> {
        let host = if self.address.unspecified() || self.address.loopback() {
            "127.0.0.1"@
        } else if self.address is V6 {
            "["@ + self.address.spelled() + "]"@
        } else {
            self.address.spelled()
        };
        "http://"@ + host + ":"@ + text::dec(self.port as nat)
    }

    pub fn label(&self) -> (r: String)
        ensures
            r@ == ":"@ + text::dec(self.port as nat),
    {
        ":".to_owned().concat(dec_of(self.port as u64).as_str())
    }

    /// Loopback/unspecified → 127.0.0.1 so the browser opens the local server.
    pub fn url(&self) -> (r: String)
        ensures
            r@ == self.link(),
    {
        let host: String = if self.address.is_unspecified() || self.address.is_loopback() {
            "127.0.0.1".to_owned()
        } else {
            match &self.address {
                IpAddr::V6 { .. } => "[".to_owned().concat(self.address.spell().as_str()).concat(
                    "]",
                ),
                IpAddr::V4(..) => self.address.spell(),
            }
        };
        "http://".to_owned().concat(host.as_str()).concat(":").concat(
            dec_of(self.port as u64).as_str(),
        )
    }

    pub fn copy(&self) -> (r: ListeningPort)
        ensures
            r == *self,
    {
        ListeningPort {
            protocol: self.protocol,
            address: self.address.copy(),
            port: self.port,
            pid: self.pid,
        }
    }
}

/// A server that listens on every address or on the loopback is reached at
/// 127.0.0.1, whatever its address looks like; any other at its own address,
/// an IPv6 one in brackets. The port follows.
pub proof fn local_servers_are_reached_at_the_loopback(p: ListeningPort)
    ensures
        ({
            let port = ":"@ + text::dec(p.port as nat);
            let local = match p.address {
                IpAddr::V4(a, b, c, d) => a == 127 || (a == 0 && b == 0 && c == 0 && d == 0),
                IpAddr::V6 { bits, .. } => bits <= 1,
            };
            &&& local ==> p.link() == "http://"@ + "127.0.0.1"@ + port
            &&& !local ==> match p.address {
                IpAddr::V4(a, b, c, d) => p.link() == "http://"@ + (text::dec(a as nat) + "."@
                    + text::dec(b as nat) + "."@ + text::dec(c as nat) + "."@ + text::dec(d as nat))
                    + port,
                IpAddr::V6 { text, .. } => p.link() == "http://"@ + ("["@ + text@ + "]"@) + port,
            }
        }),
{
    let port = ":"@ + text::dec(p.port as nat);
    let host = if p.address.unspecified() || p.address.loopback() {
        "127.0.0.1"@
    } else if p.address is V6 {
        "["@ + p.address.spelled() + "]"@
    } else {
        p.address.spelled()
    };
    assert(p.link() =~= "http://"@ + host + port);
}

} // verus!
