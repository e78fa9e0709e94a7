//! The wake payload: six `0xFF` bytes, then the hardware address sixteen times.

use vstd::prelude::*;
use vstd::assert_seqs_equal;
use crate::registry::Computer;

verus! {

/// Number of synchronization bytes at the start of a wake payload.
pub const HEADER_LEN: usize = 6;

/// Number of times the hardware address is repeated after the header.
pub const MAC_REPEATS: usize = 16;

/// Total length of a wake payload: the header and sixteen copies of the address.
pub const PAYLOAD_LEN: usize = 102;

/// The wake payload for hardware address `mac`: six `0xFF` bytes, then `mac`
/// sixteen times.
pub open spec fn payload_of(mac: Seq<u8>) -> Seq<u8> {
    Seq::new(102, |i: int| if i < 6 { 0xFFu8 } else { mac[(i - 6) % 6] })
}

/// Builds the 102-byte wake payload for a 6-byte hardware address.
pub fn magic_packet(mac: &[u8; 6]) -> (r: Vec<u8>)
    ensures
        r@ == payload_of(mac@),
{
    let mut r: Vec<u8> = Vec::with_capacity(PAYLOAD_LEN);
    let mut i: usize = 0;
    while i < HEADER_LEN
        invariant
            i <= 6,
            r@.len() == i,
            forall|j: int| 0 <= j < i ==> r@[j] == payload_of(mac@)[j],
        decreases 6 - i,
    {
        r.push(0xFF);
        i = i + 1;
    }
    let mut k: usize = 0;
    while k < MAC_REPEATS
        invariant
            k <= 16,
            r@.len() == 6 + 6 * k,
            forall|j: int| 0 <= j < r@.len() ==> r@[j] == payload_of(mac@)[j],
        decreases 16 - k,
    {
        let mut b: usize = 0;
        while b < 6
            invariant
                k < 16,
                b <= 6,
                r@.len() == 6 + 6 * k + b,
                forall|j: int| 0 <= j < r@.len() ==> r@[j] == payload_of(mac@)[j],
            decreases 6 - b,
        {
            proof {
                assert((6 + 6 * k + b - 6) % 6 == b as int) by (nonlinear_arith)
                    requires b < 6;
            }
            r.push(mac[b]);
            b = b + 1;
        }
        k = k + 1;
    }
    proof {
        assert_seqs_equal!(r@, payload_of(mac@));
    }
    r
}

/// Shape of every wake payload: it is 102 bytes long, starts with six `0xFF`
/// bytes, and each of the sixteen 6-byte blocks after the header equals the
/// hardware address.
pub proof fn lemma_payload_shape(mac: Seq<u8>)
    requires
        mac.len() == 6,
    ensures
        payload_of(mac).len() == 102,
        forall|i: int| 0 <= i < 6 ==> payload_of(mac)[i] == 0xFFu8,
        forall|k: int| 0 <= k < 16 ==> #[trigger] payload_of(mac).subrange(6 + 6 * k, 12 + 6 * k)
            == mac,
{
    assert forall|k: int| 0 <= k < 16 implies #[trigger] payload_of(mac).subrange(
        6 + 6 * k,
        12 + 6 * k,
    ) == mac by {
        assert forall|j: int| 0 <= j < 6 implies payload_of(mac).subrange(6 + 6 * k, 12 + 6 * k)[j]
            == mac[j] by {
            assert((6 + 6 * k + j - 6) % 6 == j) by (nonlinear_arith)
                requires 0 <= j < 6, 0 <= k;
        }
        assert(payload_of(mac).subrange(6 + 6 * k, 12 + 6 * k) =~= mac);
    }
}

/// One wake datagram: the payload and where it goes.
pub struct Datagram {
    pub payload: Vec<u8>,
    pub ip: [u8; 4],
    pub port: u16,
}

/// The datagrams that one inbound connection sends: one per registered
/// machine, in registry order, whatever the request was.
pub fn wake_datagrams(computers: &[Computer]) -> (r: Vec<Datagram>)
    ensures
        r@.len() == computers@.len(),
        forall|i: int|
            #![trigger r@[i]]
            0 <= i < computers@.len() ==> r@[i].payload@ == payload_of(computers@[i]@.0)
                && r@[i].ip == computers@[i].ip && r@[i].port == computers@[i].port,
{
    let mut r: Vec<Datagram> = Vec::new();
    let mut i: usize = 0;
    while i < computers.len()
        invariant
            i <= computers@.len(),
            r@.len() == i,
            forall|j: int|
                #![trigger r@[j]]
                0 <= j < i ==> r@[j].payload@ == payload_of(computers@[j]@.0) && r@[j].ip
                    == computers@[j].ip && r@[j].port == computers@[j].port,
        decreases computers.len() - i,
    {
        let c = &computers[i];
        r.push(Datagram { payload: c.magic_packet(), ip: c.ip, port: c.port });
        i = i + 1;
    }
    r
}

} // verus!
