use vstd::prelude::*;

verus! {

/// Transport protocol of a service or a probe.
#[derive(Debug, Copy, Clone, Hash, PartialEq, Eq, Structural, PartialOrd, Ord)]
pub enum Protocol {
    Tcp,
    Udp,
    Sctp,
}

impl Protocol {
    pub fn is_tcp(&self) -> (r: bool)
        ensures
            r == (*self == Protocol::Tcp),
    {
        match *self {
            Protocol::Tcp => true,
            _ => false,
        }
    }

    pub fn is_udp(&self) -> (r: bool)
        ensures
            r == (*self == Protocol::Udp),
    {
        match *self {
            Protocol::Udp => true,
            _ => false,
        }
    }

    pub fn is_sctp(&self) -> (r: bool)
        ensures
            r == (*self == Protocol::Sctp),
    {
        match *self {
            Protocol::Sctp => true,
            _ => false,
        }
    }
}

impl Protocol {
    /// The lower-case name of the protocol.
    pub open spec fn spec_label(&self) -> Seq<char> {
        match *self {
            Protocol::Tcp => seq!['t', 'c', 'p'],
            Protocol::Udp => seq!['u', 'd', 'p'],
            Protocol::Sctp => seq!['s', 'c', 't', 'p'],
        }
    }

    /// The lower-case name of the protocol: `tcp`, `udp` or `sctp`.
    pub fn label(&self) -> (r: &'static str)
        ensures
            r@ == self.spec_label(),
    {
        match *self {
            Protocol::Tcp => {
                proof {
                    reveal_strlit("tcp");
                }
                "tcp"
            },
            Protocol::Udp => {
                proof {
                    reveal_strlit("udp");
                }
                "udp"
            },
            Protocol::Sctp => {
                proof {
                    reveal_strlit("sctp");
                }
                "sctp"
            },
        }
    }
}

/// An inclusive range of port numbers.
#[derive(Debug, Copy, Clone, Hash, PartialEq, Eq)]
pub struct PortRange {
    pub start: u16,
    pub end: u16,
}

/// A single port, or an inclusive range `(first, last)` of ports.
#[derive(Debug, Copy, Clone, Hash, PartialEq, Eq, PartialOrd, Ord)]
pub enum Port {
    Range((u16, u16)),
    Number(u16),
}

impl Port {
    /// A range must not run backwards.
    pub open spec fn wf(&self) -> bool {
        match *self {
            Port::Range((first, last)) => first <= last,
            Port::Number(_) => true,
        }
    }

    pub open spec fn spec_contains(&self, port: u16) -> bool {
        match *self {
            Port::Range((first, last)) => first <= port <= last,
            Port::Number(n) => n == port,
        }
    }

    /// Whether `port` is this port or lies in this range.
    pub fn contains(&self, port: u16) -> (r: bool)
        ensures
            r == self.spec_contains(port),
    {
        match *self {
            Port::Range((first, last)) => first <= port && port <= last,
            Port::Number(n) => n == port,
        }
    }
}

/// Whether some entry of `ports` contains `port`.
pub open spec fn ports_contain(ports: Seq<Port>, port: u16) -> bool {
    exists|i: int| 0 <= i < ports.len() && (#[trigger] ports[i]).spec_contains(port)
}

/// Whether every entry of `ports` is well formed.
pub open spec fn ports_wf(ports: Seq<Port>) -> bool {
    forall|i: int| 0 <= i < ports.len() ==> (#[trigger] ports[i]).wf()
}

/// Whether every entry of `ports` is well formed.
pub fn ports_all_wf(ports: &[Port]) -> (r: bool)
    ensures
        r == ports_wf(ports@),
{
    let mut i: usize = 0;
    while i < ports.len()
        invariant
            0 <= i <= ports@.len(),
            forall|j: int| 0 <= j < i ==> (#[trigger] ports@[j]).wf(),
        decreases ports@.len() - i,
    {
        let ok = match ports[i] {
            Port::Range((first, last)) => first <= last,
            Port::Number(_) => true,
        };
        if !ok {
            return false;
        }
        i = i + 1;
    }
    true
}

/// Whether some entry of `ports` contains `port`.
pub fn list_contains(ports: &[Port], port: u16) -> (r: bool)
    ensures
        r == ports_contain(ports@, port),
{
    let mut i: usize = 0;
    while i < ports.len()
        invariant
            0 <= i <= ports@.len(),
            forall|j: int| 0 <= j < i ==> !(#[trigger] ports@[j]).spec_contains(port),
        decreases ports@.len() - i,
    {
        if ports[i].contains(port) {
            return true;
        }
        i = i + 1;
    }
    false
}

/// Three disjoint port lists: ports that hold for both transports, and ports
/// that hold for TCP only or UDP only.
#[derive(Debug, Copy, Clone, Hash, PartialEq, Eq, PartialOrd, Ord)]
pub struct PortSpecification {
    pub both: &'static [Port],
    pub tcp: &'static [Port],
    pub udp: &'static [Port],
}

impl PortSpecification {
    pub open spec fn wf(&self) -> bool {
        ports_wf(self.both@) && ports_wf(self.tcp@) && ports_wf(self.udp@)
    }

    pub open spec fn spec_excludes(&self, port: u16, protocol: Protocol) -> bool {
        ports_contain(self.both@, port) || match protocol {
            Protocol::Tcp => ports_contain(self.tcp@, port),
            Protocol::Udp => ports_contain(self.udp@, port),
            Protocol::Sctp => false,
        }
    }

    /// Whether `port` is excluded for `protocol`: it appears in `both`, or in
    /// the list of that protocol.
    pub fn excludes(&self, port: u16, protocol: Protocol) -> (r: bool)
        ensures
            r == self.spec_excludes(port, protocol),
    {
        if list_contains(self.both, port) {
            return true;
        }
        match protocol {
            Protocol::Tcp => list_contains(self.tcp, port),
            Protocol::Udp => list_contains(self.udp, port),
            Protocol::Sctp => false,
        }
    }
}

/// The ports that service detection leaves alone: DNS on either transport,
/// the raw printer port on TCP, and a block of UDP ports.
pub fn service_probe_exclude() -> (r: PortSpecification)
    ensures
        r.wf(),
        r.both@ == seq![Port::Number(53)],
        r.tcp@ == seq![Port::Number(9100)],
        r.udp@ == seq![Port::Range((30000, 40000))],
{
    PortSpecification {
        both: &[Port::Number(53)],
        tcp: &[Port::Number(9100)],
        udp: &[Port::Range((30000, 40000))],
    }
}

/// A vendor entry of the MAC prefix table.
#[derive(Debug, Copy, Clone, Hash, PartialEq, Eq)]
pub struct MacVendor {
    pub prefix: [u8; 3],
    pub vendor: &'static str,
}

} // verus!
