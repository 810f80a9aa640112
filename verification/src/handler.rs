//! The rendezvous protocol handler.
//!
//! Stateless across datagrams except through the registry: each inbound
//! datagram is decoded, dispatched by kind, and answered with zero or more
//! outbound datagrams. Only a `register` message has any effect: it binds the
//! asserted identifier to the datagram's source address, is acknowledged with
//! a `registered` reply, and, once at least two sessions are tracked, starts
//! a pairing round that tells the first two registered clients each other's
//! identifier and observed address. Anything else — unknown kinds as much as
//! bytes the grammar rejects — is dropped without a reply and without
//! touching the registry, so no single client can disturb the service.

use vstd::prelude::*;
use vstd::slice::slice_to_vec;
use crate::endpoint::{Endpoint, spec_endpoint_text, endpoint_text, spec_dec, lemma_spec_dec_digits};
use crate::msg::{
    Message, MessageModel, Kind, spec_kind, tok_registered, tok_peer_info, tok_registered_as,
    push_tok_registered, push_tok_peer_info, push_tok_registered_as, valid_text, valid_model,
    lemma_tokens_plain, lemma_plain_text_valid,
};
use crate::codec::{
    spec_decode, decode, spec_encode, encode, lemma_decode_encode, lemma_decode_valid,
    lemma_valid_append,
};
use crate::registry::{
    Registry, RegView, ClientSession, wf_entries, spec_register, has_id, id_index,
};

verus! {

/// One datagram to transmit: where to, and what.
pub struct Datagram {
    pub dest: Endpoint,
    pub payload: Vec<u8>,
}

impl View for Datagram {
    type V = (Endpoint, Seq<u8>);

    open spec fn view(&self) -> (Endpoint, Seq<u8>) {
        (self.dest, self.payload@)
    }
}

/// The acknowledgment sent back to a registering client: its identifier
/// echoed, with the payload `Registered as <id>`.
pub open spec fn spec_ack_msg(id: Seq<u8>) -> MessageModel {
    MessageModel { msg_type: tok_registered(), client_id: id, data: Some(tok_registered_as() + id) }
}

/// The message telling one client about a peer: it names the peer's
/// identifier, and its payload is the peer's observed address — never an
/// address the peer asserted.
pub open spec fn spec_peer_info_msg(peer_id: Seq<u8>, peer_addr: Endpoint) -> MessageModel {
    MessageModel {
        msg_type: tok_peer_info(),
        client_id: peer_id,
        data: Some(spec_endpoint_text(peer_addr)),
    }
}

/// The two datagrams of a pairing round over registry entries `a` and `b`:
/// `a` hears about `b`, then `b` hears about `a`.
pub open spec fn spec_pairing(
    a: (Seq<u8>, ClientSession),
    b: (Seq<u8>, ClientSession),
) -> Seq<(Endpoint, Seq<u8>)> {
    seq![
        (a.1.observed_address, spec_encode(spec_peer_info_msg(b.0, b.1.observed_address))),
        (b.1.observed_address, spec_encode(spec_peer_info_msg(a.0, a.1.observed_address))),
    ]
}

/// What one inbound datagram does to registry `v`: the registry afterwards,
/// and the datagrams sent back, in order. A `register` message records the
/// sender and is acknowledged; while at least two sessions are tracked, every
/// registration also starts a pairing round over the first two entries the
/// registry yields. Everything else has no effect and no reply.
pub open spec fn spec_handle(v: RegView, src: Endpoint, now: u64, d: Seq<u8>) -> (
    RegView,
    Seq<(Endpoint, Seq<u8>)>,
) {
    match spec_decode(d) {
        Some(m) => {
            if spec_kind(m.msg_type) == Kind::Register {
                let v2 = spec_register(
                    v,
                    m.client_id,
                    ClientSession { observed_address: src, last_seen: now },
                );
                let ack = (src, spec_encode(spec_ack_msg(m.client_id)));
                if v2.len() >= 2 {
                    (v2, seq![ack] + spec_pairing(v2[0], v2[1]))
                } else {
                    (v2, seq![ack])
                }
            } else {
                (v, Seq::empty())
            }
        },
        None => (v, Seq::empty()),
    }
}

/// Handles one inbound datagram: updates the registry and returns the
/// datagrams to transmit, in order, exactly as [`spec_handle`] says.
pub fn handle_datagram(reg: &mut Registry, src: Endpoint, now: u64, input: &[u8]) -> (out: Vec<
    Datagram,
>)
    requires
        old(reg).wf(),
    ensures
        final(reg).wf(),
        final(reg)@ == spec_handle(old(reg)@, src, now, input@).0,
        out@.map_values(|dg: Datagram| dg@) == spec_handle(old(reg)@, src, now, input@).1,
{
    let ghost handled = spec_handle(old(reg)@, src, now, input@);
    let m = match decode(input) {
        Some(m) => m,
        None => {
            let out: Vec<Datagram> = Vec::new();
            proof {
                assert(out@.map_values(|dg: Datagram| dg@) =~= handled.1);
            }
            return out;
        },
    };
    let ghost mm = m@;
    if m.kind() != Kind::Register {
        let out: Vec<Datagram> = Vec::new();
        proof {
            assert(out@.map_values(|dg: Datagram| dg@) =~= handled.1);
        }
        return out;
    }
    // Acknowledge: echo the identifier, payload "Registered as <id>".
    let mut ack_payload: Vec<u8> = Vec::new();
    push_tok_registered_as(&mut ack_payload);
    let mut id_copy = slice_to_vec(m.client_id.as_slice());
    ack_payload.append(&mut id_copy);
    let mut ack_type: Vec<u8> = Vec::new();
    push_tok_registered(&mut ack_type);
    let ack_msg = Message {
        msg_type: ack_type,
        client_id: slice_to_vec(m.client_id.as_slice()),
        data: Some(ack_payload),
    };
    proof {
        assert(ack_msg@ =~= spec_ack_msg(mm.client_id));
    }
    let ack_bytes = encode(&ack_msg);
    let mut out: Vec<Datagram> = Vec::new();
    out.push(Datagram { dest: src, payload: ack_bytes });
    reg.register(m.client_id, src, now);
    proof {
        assert(reg@ == handled.0);
    }
    if reg.size() >= 2 {
        let snap = reg.snapshot_for_pairing();
        let a_addr = snap[0].1.observed_address;
        let b_addr = snap[1].1.observed_address;
        let mut type_a: Vec<u8> = Vec::new();
        push_tok_peer_info(&mut type_a);
        let msg_to_a = Message {
            msg_type: type_a,
            client_id: slice_to_vec(snap[1].0.as_slice()),
            data: Some(endpoint_text(&b_addr)),
        };
        proof {
            assert(msg_to_a@ =~= spec_peer_info_msg(reg@[1].0, reg@[1].1.observed_address));
        }
        let bytes_to_a = encode(&msg_to_a);
        out.push(Datagram { dest: a_addr, payload: bytes_to_a });
        let mut type_b: Vec<u8> = Vec::new();
        push_tok_peer_info(&mut type_b);
        let msg_to_b = Message {
            msg_type: type_b,
            client_id: slice_to_vec(snap[0].0.as_slice()),
            data: Some(endpoint_text(&a_addr)),
        };
        proof {
            assert(msg_to_b@ =~= spec_peer_info_msg(reg@[0].0, reg@[0].1.observed_address));
        }
        let bytes_to_b = encode(&msg_to_b);
        out.push(Datagram { dest: b_addr, payload: bytes_to_b });
        proof {
            assert(out@.map_values(|dg: Datagram| dg@) =~= handled.1);
        }
    } else {
        proof {
            assert(out@.map_values(|dg: Datagram| dg@) =~= handled.1);
        }
    }
    out
}

/// A datagram the grammar rejects produces no reply and no session change:
/// the service is isolated from malformed input.
pub proof fn lemma_malformed_input_isolated(v: RegView, src: Endpoint, now: u64, d: Seq<u8>)
    requires
        spec_decode(d) is None,
    ensures
        spec_handle(v, src, now, d).0 == v,
        spec_handle(v, src, now, d).1 == Seq::<(Endpoint, Seq<u8>)>::empty(),
{
}

/// A well-formed message of any kind but `register` — an acknowledgment, a
/// peer notice, or an unknown kind — is ignored: no reply, no session change.
pub proof fn lemma_non_register_ignored(v: RegView, src: Endpoint, now: u64, d: Seq<u8>)
    requires
        spec_decode(d) matches Some(m) && spec_kind(m.msg_type) != Kind::Register,
    ensures
        spec_handle(v, src, now, d).0 == v,
        spec_handle(v, src, now, d).1 == Seq::<(Endpoint, Seq<u8>)>::empty(),
{
}

/// Does a datagram carry a `peer_info` message?
pub open spec fn is_peer_info_datagram(b: Seq<u8>) -> bool {
    match spec_decode(b) {
        Some(m) => spec_kind(m.msg_type) == Kind::PeerInfo,
        None => false,
    }
}

/// The textual form of an endpoint is representable message text.
pub proof fn lemma_endpoint_text_valid(e: Endpoint)
    ensures
        valid_text(spec_endpoint_text(e)),
{
    lemma_spec_dec_digits(e.o0 as int);
    lemma_spec_dec_digits(e.o1 as int);
    lemma_spec_dec_digits(e.o2 as int);
    lemma_spec_dec_digits(e.o3 as int);
    lemma_spec_dec_digits(e.port as int);
    lemma_valid_append(spec_dec(e.o0 as int), seq![0x2Eu8]);
    lemma_valid_append(spec_dec(e.o0 as int) + seq![0x2Eu8], spec_dec(e.o1 as int));
    lemma_valid_append(
        spec_dec(e.o0 as int) + seq![0x2Eu8] + spec_dec(e.o1 as int),
        seq![0x2Eu8],
    );
    lemma_valid_append(
        spec_dec(e.o0 as int) + seq![0x2Eu8] + spec_dec(e.o1 as int) + seq![0x2Eu8],
        spec_dec(e.o2 as int),
    );
    lemma_valid_append(
        spec_dec(e.o0 as int) + seq![0x2Eu8] + spec_dec(e.o1 as int) + seq![0x2Eu8] + spec_dec(
            e.o2 as int,
        ),
        seq![0x2Eu8],
    );
    lemma_valid_append(
        spec_dec(e.o0 as int) + seq![0x2Eu8] + spec_dec(e.o1 as int) + seq![0x2Eu8] + spec_dec(
            e.o2 as int,
        ) + seq![0x2Eu8],
        spec_dec(e.o3 as int),
    );
    lemma_valid_append(
        spec_dec(e.o0 as int) + seq![0x2Eu8] + spec_dec(e.o1 as int) + seq![0x2Eu8] + spec_dec(
            e.o2 as int,
        ) + seq![0x2Eu8] + spec_dec(e.o3 as int),
        seq![0x3Au8],
    );
    lemma_valid_append(
        spec_dec(e.o0 as int) + seq![0x2Eu8] + spec_dec(e.o1 as int) + seq![0x2Eu8] + spec_dec(
            e.o2 as int,
        ) + seq![0x2Eu8] + spec_dec(e.o3 as int) + seq![0x3Au8],
        spec_dec(e.port as int),
    );
}

/// A registration acknowledgment decodes back to itself, and is a
/// `registered` message — never a `peer_info` one.
pub proof fn lemma_ack_decodes(id: Seq<u8>)
    requires
        valid_text(id),
    ensures
        spec_decode(spec_encode(spec_ack_msg(id))) == Some(spec_ack_msg(id)),
        !is_peer_info_datagram(spec_encode(spec_ack_msg(id))),
{
    lemma_tokens_plain();
    lemma_plain_text_valid(tok_registered());
    lemma_plain_text_valid(tok_registered_as());
    lemma_valid_append(tok_registered_as(), id);
    assert(valid_model(spec_ack_msg(id)));
    assert(spec_kind(tok_registered()) == Kind::Registered);
    lemma_decode_encode(spec_ack_msg(id));
}

/// A peer notice decodes back to itself and is a `peer_info` message.
pub proof fn lemma_peer_info_decodes(peer_id: Seq<u8>, peer_addr: Endpoint)
    requires
        valid_text(peer_id),
    ensures
        spec_decode(spec_encode(spec_peer_info_msg(peer_id, peer_addr))) == Some(
            spec_peer_info_msg(peer_id, peer_addr),
        ),
        is_peer_info_datagram(spec_encode(spec_peer_info_msg(peer_id, peer_addr))),
{
    lemma_tokens_plain();
    lemma_plain_text_valid(tok_peer_info());
    lemma_endpoint_text_valid(peer_addr);
    assert(valid_model(spec_peer_info_msg(peer_id, peer_addr)));
    assert(spec_kind(tok_peer_info()) == Kind::PeerInfo);
    lemma_decode_encode(spec_peer_info_msg(peer_id, peer_addr));
}

/// Pairing requires two: while fewer than two sessions are tracked after a
/// datagram, no `peer_info` datagram is ever sent — at most the
/// acknowledgment of the registration itself.
pub proof fn lemma_no_pairing_without_two(v: RegView, src: Endpoint, now: u64, d: Seq<u8>)
    requires
        wf_entries(v),
        spec_handle(v, src, now, d).0.len() <= 1,
    ensures
        spec_handle(v, src, now, d).1.len() <= 1,
        spec_handle(v, src, now, d).1.len() == 1 ==> (spec_decode(d) matches Some(m)
            && spec_handle(v, src, now, d).1[0] == (src, spec_encode(spec_ack_msg(m.client_id)))),
        forall|k: int|
            0 <= k < spec_handle(v, src, now, d).1.len() ==> !is_peer_info_datagram(
                #[trigger] spec_handle(v, src, now, d).1[k].1,
            ),
{
    lemma_decode_valid(d);
    match spec_decode(d) {
        Some(m) => {
            if spec_kind(m.msg_type) == Kind::Register {
                lemma_ack_decodes(m.client_id);
            }
        },
        None => {},
    }
}

/// Every registration is acknowledged, and whenever two or more sessions are
/// tracked after it, a pairing round follows: the first two registry entries
/// are each told the other's identifier and observed — never asserted —
/// address, right after the acknowledgment.
pub proof fn lemma_pairing_round(v: RegView, src: Endpoint, now: u64, d: Seq<u8>)
    requires
        wf_entries(v),
        spec_decode(d) matches Some(m) && spec_kind(m.msg_type) == Kind::Register,
    ensures
        ({
            let m = spec_decode(d)->Some_0;
            let v2 = spec_handle(v, src, now, d).0;
            let outs = spec_handle(v, src, now, d).1;
            &&& v2 == spec_register(
                v,
                m.client_id,
                ClientSession { observed_address: src, last_seen: now },
            )
            &&& outs.len() >= 1
            &&& outs[0] == (src, spec_encode(spec_ack_msg(m.client_id)))
            &&& v2.len() >= 2 ==> outs =~= seq![outs[0]] + spec_pairing(v2[0], v2[1])
            &&& v2.len() < 2 ==> outs.len() == 1
        }),
{
}

/// Pairing correctness, read at the message level: when a registration
/// leaves sessions tracked for two or more clients, the first two entries A
/// and B are each sent a decodable `peer_info` datagram — A's names B's
/// identifier and carries B's observed address, B's the converse. The
/// addresses reported are the ones registrations arrived from, never
/// anything a client asserted.
pub proof fn lemma_pairing_correct(v: RegView, src: Endpoint, now: u64, d: Seq<u8>)
    requires
        wf_entries(v),
        forall|k: int| 0 <= k < v.len() ==> valid_text(#[trigger] v[k].0),
        spec_decode(d) matches Some(m) && spec_kind(m.msg_type) == Kind::Register,
        spec_handle(v, src, now, d).0.len() >= 2,
    ensures
        ({
            let v2 = spec_handle(v, src, now, d).0;
            let outs = spec_handle(v, src, now, d).1;
            let a = v2[0];
            let b = v2[1];
            &&& outs.len() == 3
            &&& outs[1].0 == a.1.observed_address
            &&& spec_decode(outs[1].1) == Some(spec_peer_info_msg(b.0, b.1.observed_address))
            &&& is_peer_info_datagram(outs[1].1)
            &&& outs[2].0 == b.1.observed_address
            &&& spec_decode(outs[2].1) == Some(spec_peer_info_msg(a.0, a.1.observed_address))
            &&& is_peer_info_datagram(outs[2].1)
        }),
{
    lemma_decode_valid(d);
    let m = spec_decode(d)->Some_0;
    let sess = ClientSession { observed_address: src, last_seen: now };
    let v2 = spec_register(v, m.client_id, sess);
    assert forall|k: int| 0 <= k < v2.len() implies valid_text(#[trigger] v2[k].0) by {
        if has_id(v, m.client_id) {
            let idx = id_index(v, m.client_id);
            if k == idx {
                assert(v2[k].0 == m.client_id);
            } else {
                assert(v2[k] == v[k]);
            }
        } else {
            if k < v.len() {
                assert(v2[k] == v[k]);
            } else {
                assert(v2[k].0 == m.client_id);
            }
        }
    }
    lemma_peer_info_decodes(v2[1].0, v2[1].1.observed_address);
    lemma_peer_info_decodes(v2[0].0, v2[0].1.observed_address);
}

} // verus!
