//! Socket addresses and the tagged address field that prefixes every
//! relayed frame (one type byte, the host, then a big-endian port).

use vstd::prelude::*;
use vstd::utf8::valid_utf8;

verus! {

/// Type byte of an IPv4 address field.
pub const ATYP_IPV4: u8 = 1;

/// Type byte of a domain-name address field.
pub const ATYP_DOMAIN: u8 = 3;

/// Type byte of an IPv6 address field.
pub const ATYP_IPV6: u8 = 4;

/// A socket address held as plain values; `ip` is the address in
/// network order read as one big-endian integer.
#[derive(Clone, Copy, Debug, PartialEq, Eq, Structural, Hash)]
#[allow(inconsistent_fields)]
pub enum SockAddr {
    V4 { ip: u32, port: u16 },
    V6 { ip: u128, port: u16, flowinfo: u32, scope_id: u32 },
}

/// The address carried in a frame: a socket address or a host name.
#[derive(Clone, Debug)]
pub enum Address {
    Socket(SockAddr),
    Domain(Vec<u8>, u16),
}

/// Why the leading address field of a frame could not be read.
#[derive(Clone, Copy, Debug, PartialEq, Eq, Structural)]
pub enum AddressError {
    /// The buffer ends inside the field.
    Truncated,
    /// The type byte names no known address kind.
    UnknownType(u8),
    /// The host name is not UTF-8.
    BadDomain,
}

/// Relies on `std::str::from_utf8`, which accepts exactly the well-formed
/// UTF-8 byte strings.
#[verifier::external_body]
fn is_utf8(b: &[u8]) -> (r: bool)
    ensures
        r == valid_utf8(b@),
{
    std::str::from_utf8(b).is_ok()
}

/// Byte `k` of `x`, counting from the least significant.
pub open spec fn byte_of(x: u128, k: u32) -> u8 {
    ((x >> ((8 * k) as u32)) & 0xffu128) as u8
}

/// The low `n` bytes of `x`, most significant first.
pub open spec fn be_bytes(x: u128, n: nat) -> Seq<u8> {
    Seq::new(n, |i: int| byte_of(x, (n - 1 - i) as u32))
}

/// A port, most significant byte first.
pub open spec fn port_bytes(p: u16) -> Seq<u8> {
    seq![(p / 256) as u8, (p % 256) as u8]
}

impl Address {
    /// A host name must fit its one-byte length.
    pub open spec fn wf(&self) -> bool {
        match self {
            Address::Socket(_) => true,
            Address::Domain(name, _) => name@.len() <= 255,
        }
    }

    /// The address field as it stands on the wire.
    pub open spec fn encoding(&self) -> Seq<u8> {
        match self {
            Address::Socket(SockAddr::V4 { ip, port }) => seq![ATYP_IPV4] + be_bytes(
                *ip as u128,
                4,
            ) + port_bytes(*port),
            Address::Socket(SockAddr::V6 { ip, port, .. }) => seq![ATYP_IPV6] + be_bytes(*ip, 16)
                + port_bytes(*port),
            Address::Domain(name, port) => seq![ATYP_DOMAIN, name@.len() as u8] + name@
                + port_bytes(*port),
        }
    }

    /// Whether reading the encoding back succeeds: a host name must also
    /// be UTF-8.
    pub open spec fn readable(&self) -> bool {
        match self {
            Address::Socket(_) => true,
            Address::Domain(name, _) => name@.len() <= 255 && valid_utf8(name@),
        }
    }

    /// Whether the address can be written.
    pub fn is_wf(&self) -> (r: bool)
        ensures
            r == self.wf(),
    {
        match self {
            Address::Socket(_) => true,
            Address::Domain(name, _) => name.len() <= 255,
        }
    }

    /// Appends the address field to `buf`.
    pub fn write_to_buf(&self, buf: &mut Vec<u8>)
        requires
            self.wf(),
        ensures
            final(buf)@ == old(buf)@ + self.encoding(),
    {
        let ghost start = buf@;
        match self {
            Address::Socket(SockAddr::V4 { ip, port }) => {
                buf.push(ATYP_IPV4);
                push_be(buf, *ip as u128, 4);
                push_port(buf, *port);
            },
            Address::Socket(SockAddr::V6 { ip, port, .. }) => {
                buf.push(ATYP_IPV6);
                push_be(buf, *ip, 16);
                push_port(buf, *port);
            },
            Address::Domain(name, port) => {
                buf.push(ATYP_DOMAIN);
                buf.push(name.len() as u8);
                push_all(buf, name.as_slice());
                push_port(buf, *port);
            },
        }
        assert(buf@ =~= start + self.encoding());
    }
}

/// Appends every byte of `src` to `buf`.
pub fn push_all(buf: &mut Vec<u8>, src: &[u8])
    ensures
        final(buf)@ == old(buf)@ + src@,
{
    let ghost start = buf@;
    let mut i: usize = 0;
    while i < src.len()
        invariant
            i <= src@.len(),
            buf@ == start + src@.subrange(0, i as int),
        decreases src@.len() - i,
    {
        buf.push(src[i]);
        i = i + 1;
        assert(buf@ =~= start + src@.subrange(0, i as int));
    }
    assert(src@.subrange(0, src@.len() as int) =~= src@);
}

fn push_port(buf: &mut Vec<u8>, p: u16)
    ensures
        final(buf)@ == old(buf)@ + port_bytes(p),
{
    let ghost start = buf@;
    buf.push((p / 256) as u8);
    buf.push((p % 256) as u8);
    assert(buf@ =~= start + port_bytes(p));
}

fn push_be(buf: &mut Vec<u8>, x: u128, n: u32)
    requires
        n <= 16,
    ensures
        final(buf)@ == old(buf)@ + be_bytes(x, n as nat),
{
    let ghost start = buf@;
    let mut i: u32 = 0;
    while i < n
        invariant
            i <= n <= 16,
            buf@ == start + Seq::new(i as nat, |j: int| byte_of(x, (n - 1 - j) as u32)),
        decreases n - i,
    {
        let k: u32 = n - 1 - i;
        let b: u8 = ((x >> (8 * k)) & 0xffu128) as u8;
        buf.push(b);
        i = i + 1;
        assert(buf@ =~= start + Seq::new(i as nat, |j: int| byte_of(x, (n - 1 - j) as u32)));
    }
    assert(be_bytes(x, n as nat) =~= Seq::new(n as nat, |j: int| byte_of(x, (n - 1 - j) as u32)));
}

/// The length of the address field at the start of `b`, or why it cannot
/// be read.
pub open spec fn address_len(b: Seq<u8>) -> Result<nat, AddressError> {
    if b.len() == 0 {
        Err(AddressError::Truncated)
    } else if b[0] == ATYP_IPV4 {
        if b.len() >= 7 {
            Ok(7)
        } else {
            Err(AddressError::Truncated)
        }
    } else if b[0] == ATYP_IPV6 {
        if b.len() >= 19 {
            Ok(19)
        } else {
            Err(AddressError::Truncated)
        }
    } else if b[0] == ATYP_DOMAIN {
        if b.len() < 2 || b.len() < 4 + b[1] {
            Err(AddressError::Truncated)
        } else if !valid_utf8(b.subrange(2, 2 + b[1])) {
            Err(AddressError::BadDomain)
        } else {
            Ok((4 + b[1]) as nat)
        }
    } else {
        Err(AddressError::UnknownType(b[0]))
    }
}

/// Reads the address field at the start of `b` and returns its length.
pub fn read_address_len(b: &[u8]) -> (r: Result<usize, AddressError>)
    ensures
        r matches Ok(n) ==> address_len(b@) == Ok::<nat, AddressError>(n as nat),
        r matches Err(e) ==> address_len(b@) == Err::<nat, AddressError>(e),
{
    if b.len() == 0 {
        return Err(AddressError::Truncated);
    }
    let tag = b[0];
    if tag == ATYP_IPV4 {
        if b.len() >= 7 {
            Ok(7)
        } else {
            Err(AddressError::Truncated)
        }
    } else if tag == ATYP_IPV6 {
        if b.len() >= 19 {
            Ok(19)
        } else {
            Err(AddressError::Truncated)
        }
    } else if tag == ATYP_DOMAIN {
        if b.len() < 2 || b.len() < 4 + b[1] as usize {
            return Err(AddressError::Truncated);
        }
        let n = b[1] as usize;
        let name = vstd::slice::slice_subrange(b, 2, 2 + n);
        if !is_utf8(name) {
            Err(AddressError::BadDomain)
        } else {
            Ok(4 + n)
        }
    } else {
        Err(AddressError::UnknownType(tag))
    }
}

/// A readable address field followed by any bytes is read back with
/// exactly its own length.
pub proof fn lemma_address_len_of_encoding(a: Address, rest: Seq<u8>)
    requires
        a.readable(),
    ensures
        address_len(a.encoding() + rest) == Ok::<nat, AddressError>(a.encoding().len()),
{
    let b = a.encoding() + rest;
    match a {
        Address::Socket(SockAddr::V4 { ip, port }) => {
            assert(b[0] == ATYP_IPV4);
        },
        Address::Socket(SockAddr::V6 { ip, port, .. }) => {
            assert(b[0] == ATYP_IPV6);
        },
        Address::Domain(name, port) => {
            assert(b[0] == ATYP_DOMAIN);
            assert(b[1] == name@.len() as u8);
            assert(b.subrange(2, 2 + b[1]) =~= name@);
        },
    }
}

} // verus!
