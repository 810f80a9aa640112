//! Network endpoints as the service observes them, and their textual form.
//!
//! The service never trusts an address a client asserts about itself: the
//! only addresses it handles are the source endpoints of inbound datagrams.
//! An endpoint is rendered as `a.b.c.d:port` when it is reported to a peer.

use vstd::prelude::*;

verus! {

/// An IPv4 endpoint: the four address octets and the port of the source of a
/// datagram, as the transport reported them.
#[derive(Clone, Copy, PartialEq, Eq, Structural, Debug)]
pub struct Endpoint {
    pub o0: u8,
    pub o1: u8,
    pub o2: u8,
    pub o3: u8,
    pub port: u16,
}

/// Decimal rendering of a non-negative integer, most significant digit
/// first, with no leading zeroes (`0` renders as `"0"`).
pub open spec fn spec_dec(n: int) -> Seq<u8>
    recommends
        0 <= n,
    decreases n,
{
    if n <= 9 {
        seq![(0x30 + n % 10) as u8]
    } else {
        spec_dec(n / 10).push((0x30 + n % 10) as u8)
    }
}

/// Every byte of a decimal rendering is an ASCII digit.
pub proof fn lemma_spec_dec_digits(n: int)
    requires
        0 <= n,
    ensures
        forall|i: int| 0 <= i < spec_dec(n).len() ==> 0x30 <= #[trigger] spec_dec(n)[i] <= 0x39,
    decreases n,
{
    if n > 9 {
        lemma_spec_dec_digits(n / 10);
        assert forall|i: int| 0 <= i < spec_dec(n).len() implies 0x30 <= #[trigger] spec_dec(n)[i]
            <= 0x39 by {
            if i < spec_dec(n).len() - 1 {
                assert(spec_dec(n)[i] == spec_dec(n / 10)[i]);
            } else {
                assert(spec_dec(n)[i] == (0x30 + n % 10) as u8);
            }
        }
    } else {
        assert(spec_dec(n)[0] == (0x30 + n % 10) as u8);
    }
}

/// Renders `n` in decimal ASCII.
pub fn dec_text(n: u16) -> (r: Vec<u8>)
    ensures
        r@ == spec_dec(n as int),
    decreases n,
{
    let mut r: Vec<u8> = if n >= 10 {
        dec_text(n / 10)
    } else {
        Vec::new()
    };
    r.push(0x30 + (n % 10) as u8);
    proof {
        assert(r@ =~= spec_dec(n as int));
    }
    r
}

/// Textual form of an endpoint: `a.b.c.d:port`, all in decimal.
pub open spec fn spec_endpoint_text(e: Endpoint) -> Seq<u8> {
    spec_dec(e.o0 as int) + seq![0x2Eu8] + spec_dec(e.o1 as int) + seq![0x2Eu8] + spec_dec(
        e.o2 as int,
    ) + seq![0x2Eu8] + spec_dec(e.o3 as int) + seq![0x3Au8] + spec_dec(e.port as int)
}

/// Renders an endpoint as `a.b.c.d:port`.
pub fn endpoint_text(e: &Endpoint) -> (r: Vec<u8>)
    ensures
        r@ == spec_endpoint_text(*e),
{
    let mut r = dec_text(e.o0 as u16);
    r.push(0x2E);
    let mut t1 = dec_text(e.o1 as u16);
    r.append(&mut t1);
    r.push(0x2E);
    let mut t2 = dec_text(e.o2 as u16);
    r.append(&mut t2);
    r.push(0x2E);
    let mut t3 = dec_text(e.o3 as u16);
    r.append(&mut t3);
    r.push(0x3A);
    let mut t4 = dec_text(e.port);
    r.append(&mut t4);
    proof {
        assert(r@ =~= spec_endpoint_text(*e));
    }
    r
}

} // verus!
