use vstd::prelude::*;

verus! {

/// An IPv4 address: four octets in network order.
#[derive(Clone, Copy, Debug, PartialEq, Eq, Structural)]
pub struct Ipv4Addr {
    a: u8,
    b: u8,
    c: u8,
    d: u8,
}

impl Ipv4Addr {
    /// The four octets, first to last.
    pub closed spec fn spec_octets(self) -> Seq<u8> {
        seq![self.a, self.b, self.c, self.d]
    }

    /// The address `a.b.c.d`.
    pub closed spec fn spec_new(a: u8, b: u8, c: u8, d: u8) -> Ipv4Addr {
        Ipv4Addr { a, b, c, d }
    }

    /// The address `a.b.c.d`.
    pub fn new(a: u8, b: u8, c: u8, d: u8) -> (r: Self)
        ensures
            r == Ipv4Addr::spec_new(a, b, c, d),
            r.spec_octets() == seq![a, b, c, d],
    {
        Ipv4Addr { a, b, c, d }
    }

    /// An address is made of its octets, and they are what it was made of.
    pub proof fn lemma_new_octets(a: u8, b: u8, c: u8, d: u8)
        ensures
            Ipv4Addr::spec_new(a, b, c, d).spec_octets() == seq![a, b, c, d],
    {
    }

    /// Every address is the one made of its four octets.
    pub proof fn lemma_octets_new(self)
        ensures
            self.spec_octets().len() == 4,
            self == Ipv4Addr::spec_new(
                self.spec_octets()[0],
                self.spec_octets()[1],
                self.spec_octets()[2],
                self.spec_octets()[3],
            ),
    {
    }

    /// The four octets, first to last.
    pub fn octets(&self) -> (r: [u8; 4])
        ensures
            r@ == self.spec_octets(),
    {
        let r = [self.a, self.b, self.c, self.d];
        assert(r@ =~= self.spec_octets());
        r
    }

}

/// The typed payload of an answer record.
#[derive(Clone, Copy, Debug, PartialEq, Eq, Structural)]
pub enum Data {
    Ipv4(Ipv4Addr),
}

impl Data {
    /// The payload as it stands on the wire.
    pub open spec fn spec_bytes(self) -> Seq<u8> {
        match self {
            Data::Ipv4(ip) => ip.spec_octets(),
        }
    }

    /// Number of payload bytes on the wire: four for an IPv4 address.
    pub fn len(&self) -> (r: u16)
        ensures
            r == 4,
            r == self.spec_bytes().len(),
    {
        match self {
            Data::Ipv4(ip) => {
                let n = ip.octets().len();
                n as u16
            },
        }
    }
}

} // verus!
