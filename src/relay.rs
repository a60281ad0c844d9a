//! Framing of relayed datagrams. Towards the server a frame is the original
//! destination's address field followed by the payload; a reply frame is
//! read the same way and only its payload goes back to the client.

use vstd::prelude::*;
use crate::address::{Address, AddressError, address_len, read_address_len, push_all,
    lemma_address_len_of_encoding};

verus! {

/// Largest datagram read from a socket; longer ones are cut to this size.
pub const MAXIMUM_UDP_PAYLOAD_SIZE: usize = 65536;

/// Slots in each flow's egress queue; a full queue holds the sender back.
pub const EGRESS_QUEUE_SIZE: usize = 1024;

/// Idle time, in seconds, after which a flow expires when the configuration
/// sets none.
pub const DEFAULT_TIMEOUT_SECS: u64 = 300;

/// Why one datagram could not be relayed; the flow itself lives on.
#[derive(Clone, Copy, Debug, PartialEq, Eq, Structural)]
pub enum RelayError {
    /// The reply was too short to decrypt.
    TooShort,
    /// The reply's address field could not be read.
    BadAddress(AddressError),
    /// The socket took fewer bytes than the frame holds.
    ShortSend { expected: usize, sent: usize },
}

/// The flow idle timeout in seconds: the configured one, else the default.
pub fn udp_timeout(configured: Option<u64>) -> (r: u64)
    ensures
        r == match configured {
            Some(t) => t,
            None => DEFAULT_TIMEOUT_SECS,
        },
{
    match configured {
        Some(t) => t,
        None => DEFAULT_TIMEOUT_SECS,
    }
}

/// The frame that carries `payload` to the server for destination `dst`.
pub open spec fn frame_of(dst: Address, payload: Seq<u8>) -> Seq<u8> {
    dst.encoding() + payload
}

/// Builds the plaintext frame sent to the server: the destination's address
/// field, then the payload unchanged.
pub fn encode_frame(dst: &Address, payload: &[u8]) -> (r: Vec<u8>)
    requires
        dst.wf(),
    ensures
        r@ == frame_of(*dst, payload@),
{
    let mut buf: Vec<u8> = Vec::new();
    dst.write_to_buf(&mut buf);
    push_all(&mut buf, payload);
    proof {
        assert(Seq::<u8>::empty() + dst.encoding() =~= dst.encoding());
    }
    buf
}

/// A send must take the whole ciphertext: anything less is an error.
pub fn check_sent(expected: usize, sent: usize) -> (r: Result<(), RelayError>)
    ensures
        r == if expected == sent {
            Ok::<(), RelayError>(())
        } else {
            Err(RelayError::ShortSend { expected, sent })
        },
{
    if expected == sent {
        Ok(())
    } else {
        Err(RelayError::ShortSend { expected, sent })
    }
}

/// What a reply yields once decrypted (`None` when it was too short to
/// decrypt): the bytes after its address field.
pub open spec fn reply_of(decrypted: Option<Seq<u8>>) -> Result<Seq<u8>, RelayError> {
    match decrypted {
        None => Err(RelayError::TooShort),
        Some(b) => match address_len(b) {
            Err(e) => Err(RelayError::BadAddress(e)),
            Ok(n) => Ok(b.subrange(n as int, b.len() as int)),
        },
    }
}

pub open spec fn bytes_result(r: Result<Vec<u8>, RelayError>) -> Result<Seq<u8>, RelayError> {
    match r {
        Ok(v) => Ok(v@),
        Err(e) => Err(e),
    }
}

pub open spec fn bytes_option(o: Option<Vec<u8>>) -> Option<Seq<u8>> {
    match o {
        Some(v) => Some(v@),
        None => None,
    }
}

/// The payload to hand back to the client for a decrypted reply.
pub fn reply_payload(decrypted: Option<Vec<u8>>) -> (r: Result<Vec<u8>, RelayError>)
    ensures
        bytes_result(r) == reply_of(bytes_option(decrypted)),
{
    match decrypted {
        None => Err(RelayError::TooShort),
        Some(b) => match read_address_len(b.as_slice()) {
            Err(e) => Err(RelayError::BadAddress(e)),
            Ok(n) => {
                let mut out: Vec<u8> = Vec::new();
                let rest = vstd::slice::slice_subrange(b.as_slice(), n, b.len());
                push_all(&mut out, rest);
                proof {
                    assert(Seq::<u8>::empty() + rest@ =~= rest@);
                }
                Ok(out)
            },
        },
    }
}

/// A reply framed with a readable address and payload `p` gives back exactly
/// `p`: the address is stripped and nothing else.
pub proof fn lemma_reply_strips_address(a: Address, p: Seq<u8>)
    requires
        a.readable(),
    ensures
        reply_of(Some(frame_of(a, p))) == Ok::<Seq<u8>, RelayError>(p),
{
    lemma_address_len_of_encoding(a, p);
    let b = a.encoding() + p;
    assert(b.subrange(a.encoding().len() as int, b.len() as int) =~= p);
}

} // verus!
