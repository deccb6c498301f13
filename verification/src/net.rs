use vstd::prelude::*;

verus! {

/// A transport endpoint: an IP address (IPv4 embedded in the low 32 bits,
/// IPv6 as the full 128 bits) together with a port.
#[derive(Clone, Copy, PartialEq, Eq, Structural, Debug)]
pub struct Addr {
    pub ip: u128,
    pub port: u16,
}

impl Addr {
    /// Lexicographic order on (ip, port): the canonical order used to break
    /// priority ties between candidate pairs.
    pub open spec fn lex_lt(self, other: Addr) -> bool {
        self.ip < other.ip || (self.ip == other.ip && self.port < other.port)
    }

    pub fn lex_less(&self, other: &Addr) -> (r: bool)
        ensures
            r == self.lex_lt(*other),
    {
        self.ip < other.ip || (self.ip == other.ip && self.port < other.port)
    }
}

/// Transport protocol of a relayed allocation; only UDP is supported here.
pub const PROTO_UDP: u8 = 17;

/// The 5-tuple identifying a TURN allocation. Two allocations are the same
/// exactly when all five components are equal, which is also when their
/// canonical fingerprints coincide.
#[derive(Clone, Copy, PartialEq, Eq, Structural, Debug)]
pub struct FiveTuple {
    pub src: Addr,
    pub dst: Addr,
    pub protocol: u8,
}

} // verus!
