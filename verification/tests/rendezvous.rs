//! End-to-end exercises of the rendezvous core: the codec, the registry and
//! the handler, driven exactly as the UDP front end drives them.

use rendezvous::codec::{decode, encode};
use rendezvous::endpoint::{endpoint_text, Endpoint};
use rendezvous::handler::handle_datagram;
use rendezvous::msg::{Kind, Message};
use rendezvous::registry::Registry;

fn ep(o0: u8, o1: u8, o2: u8, o3: u8, port: u16) -> Endpoint {
    Endpoint { o0, o1, o2, o3, port }
}

#[test]
fn endpoint_text_renders_dotted_decimal() {
    assert_eq!(endpoint_text(&ep(127, 0, 0, 1, 9001)), b"127.0.0.1:9001".to_vec());
    assert_eq!(endpoint_text(&ep(0, 0, 0, 0, 0)), b"0.0.0.0:0".to_vec());
    assert_eq!(
        endpoint_text(&ep(255, 255, 255, 255, 65535)),
        b"255.255.255.255:65535".to_vec()
    );
    assert_eq!(endpoint_text(&ep(10, 0, 0, 2, 6000)), b"10.0.0.2:6000".to_vec());
}

#[test]
fn decode_register_message() {
    let m = decode(br#"{"msg_type":"register","client_id":"127.0.0.1:9001","data":null}"#)
        .expect("well-formed registration must decode");
    assert_eq!(m.kind(), Kind::Register);
    assert_eq!(m.msg_type, b"register".to_vec());
    assert_eq!(m.client_id, b"127.0.0.1:9001".to_vec());
    assert_eq!(m.data, None);
}

#[test]
fn decode_allows_whitespace_and_any_field_order() {
    let m = decode(b"{ \"data\" : \"hello\" ,\r\n\t\"client_id\" : \"alice\" , \"msg_type\" : \"register\" }")
        .expect("whitespace and field order are free");
    assert_eq!(m.kind(), Kind::Register);
    assert_eq!(m.client_id, b"alice".to_vec());
    assert_eq!(m.data, Some(b"hello".to_vec()));
}

#[test]
fn decode_missing_data_means_none() {
    let m = decode(br#"{"msg_type":"register","client_id":"alice"}"#).expect("data is optional");
    assert_eq!(m.data, None);
}

#[test]
fn decode_unknown_keys_are_ignored() {
    let m = decode(br#"{"msg_type":"register","client_id":"alice","extra":"x","more":null}"#)
        .expect("unknown keys are ignored");
    assert_eq!(m.client_id, b"alice".to_vec());
}

#[test]
fn decode_unknown_kind_is_a_message() {
    let m = decode(br#"{"msg_type":"hello","client_id":"alice","data":null}"#)
        .expect("unknown kinds still decode");
    assert_eq!(m.kind(), Kind::Unknown);
}

#[test]
fn decode_escape_sequences() {
    let m = decode(br#"{"msg_type":"register","client_id":"a\"b\\c\nd\te\rf\/g","data":null}"#)
        .expect("escapes must decode");
    assert_eq!(m.client_id, b"a\"b\\c\nd\te\rf/g".to_vec());
}

#[test]
fn decode_rejects_non_json() {
    assert!(decode(b"hello there").is_none());
    assert!(decode(b"").is_none());
    assert!(decode(b"{").is_none());
    assert!(decode(br#"{"msg_type":"register","client_id":"x""#).is_none());
}

#[test]
fn decode_rejects_missing_required_fields() {
    assert!(decode(br#"{}"#).is_none());
    assert!(decode(br#"{"msg_type":"register"}"#).is_none());
    assert!(decode(br#"{"client_id":"alice"}"#).is_none());
}

#[test]
fn decode_rejects_register_with_empty_client_id() {
    assert!(decode(br#"{"msg_type":"register","client_id":"","data":null}"#).is_none());
    // Only registration insists on a non-empty identifier.
    assert!(decode(br#"{"msg_type":"hello","client_id":"","data":null}"#).is_some());
}

#[test]
fn decode_rejects_duplicate_fields() {
    assert!(decode(br#"{"msg_type":"register","msg_type":"register","client_id":"x"}"#).is_none());
    assert!(decode(br#"{"msg_type":"register","client_id":"x","data":null,"data":"y"}"#).is_none());
}

#[test]
fn decode_rejects_wrongly_typed_fields() {
    assert!(decode(br#"{"msg_type":null,"client_id":"x"}"#).is_none());
    assert!(decode(br#"{"msg_type":"register","client_id":null}"#).is_none());
    assert!(decode(br#"{"msg_type":"register","client_id":"x","data":123}"#).is_none());
}

#[test]
fn decode_rejects_trailing_garbage_and_raw_controls() {
    assert!(decode(br#"{"msg_type":"register","client_id":"x"} extra"#).is_none());
    assert!(decode(b"{\"msg_type\":\"register\",\"client_id\":\"x\x01\"}").is_none());
    assert!(decode(b"{\"msg_type\":\"register\",\"client_id\":\"x\xC3\xA9\"}").is_none());
}

#[test]
fn encode_is_canonical() {
    let m = Message {
        msg_type: b"registered".to_vec(),
        client_id: b"127.0.0.1:9001".to_vec(),
        data: Some(b"Registered as 127.0.0.1:9001".to_vec()),
    };
    assert_eq!(
        encode(&m),
        br#"{"msg_type":"registered","client_id":"127.0.0.1:9001","data":"Registered as 127.0.0.1:9001"}"#.to_vec()
    );
    let n = Message { msg_type: b"register".to_vec(), client_id: b"x".to_vec(), data: None };
    assert_eq!(encode(&n), br#"{"msg_type":"register","client_id":"x","data":null}"#.to_vec());
}

#[test]
fn encode_escapes_and_decodes_back() {
    let m = Message {
        msg_type: b"register".to_vec(),
        client_id: b"a\"b\\c\nd\te\rf".to_vec(),
        data: Some(b"p\"q".to_vec()),
    };
    let bytes = encode(&m);
    assert_eq!(
        bytes,
        b"{\"msg_type\":\"register\",\"client_id\":\"a\\\"b\\\\c\\nd\\te\\rf\",\"data\":\"p\\\"q\"}"
            .to_vec()
    );
    let back = decode(&bytes).expect("canonical encoding must decode");
    assert_eq!(back.msg_type, m.msg_type);
    assert_eq!(back.client_id, m.client_id);
    assert_eq!(back.data, m.data);
}

#[test]
fn registry_overwrites_same_identifier() {
    // Registering the same client_id twice keeps one session, bound to the
    // most recent observed address.
    let mut reg = Registry::new();
    reg.register(b"alice".to_vec(), ep(10, 0, 0, 1, 5000), 1);
    reg.register(b"alice".to_vec(), ep(10, 0, 0, 9, 7000), 2);
    assert_eq!(reg.size(), 1);
    let snap = reg.snapshot_for_pairing();
    assert_eq!(snap[0].0, b"alice".to_vec());
    assert_eq!(snap[0].1.observed_address, ep(10, 0, 0, 9, 7000));
    assert_eq!(snap[0].1.last_seen, 2);
}

#[test]
fn registry_keeps_insertion_order() {
    let mut reg = Registry::new();
    reg.register(b"alice".to_vec(), ep(10, 0, 0, 1, 5000), 1);
    reg.register(b"bob".to_vec(), ep(10, 0, 0, 2, 6000), 2);
    reg.register(b"alice".to_vec(), ep(10, 0, 0, 3, 7000), 3);
    assert_eq!(reg.size(), 2);
    let snap = reg.snapshot_for_pairing();
    assert_eq!(snap[0].0, b"alice".to_vec());
    assert_eq!(snap[1].0, b"bob".to_vec());
}

#[test]
fn single_registration_gets_only_an_acknowledgment() {
    // With exactly one registered session, no peer_info is ever sent.
    let mut reg = Registry::new();
    let src = ep(127, 0, 0, 1, 9001);
    let out = handle_datagram(
        &mut reg,
        src,
        7,
        br#"{"msg_type":"register","client_id":"127.0.0.1:9001","data":null}"#,
    );
    assert_eq!(reg.size(), 1);
    assert_eq!(out.len(), 1);
    assert_eq!(out[0].dest, src);
    let ack = decode(&out[0].payload).expect("the acknowledgment must decode");
    assert_eq!(ack.kind(), Kind::Registered);
    assert_eq!(ack.client_id, b"127.0.0.1:9001".to_vec());
    assert_eq!(ack.data, Some(b"Registered as 127.0.0.1:9001".to_vec()));
}

#[test]
fn two_registrations_pair_both_clients() {
    // The exact exchange: X registers, then Y; both learn the other's
    // observed address.
    let mut reg = Registry::new();
    let x = ep(127, 0, 0, 1, 9001);
    let y = ep(127, 0, 0, 1, 9002);
    let out_x = handle_datagram(
        &mut reg,
        x,
        1,
        br#"{"msg_type":"register","client_id":"127.0.0.1:9001","data":null}"#,
    );
    assert_eq!(out_x.len(), 1);
    assert_eq!(out_x[0].dest, x);
    assert_eq!(
        out_x[0].payload,
        br#"{"msg_type":"registered","client_id":"127.0.0.1:9001","data":"Registered as 127.0.0.1:9001"}"#.to_vec()
    );
    let out_y = handle_datagram(
        &mut reg,
        y,
        2,
        br#"{"msg_type":"register","client_id":"127.0.0.1:9002","data":null}"#,
    );
    assert_eq!(reg.size(), 2);
    assert_eq!(out_y.len(), 3);
    assert_eq!(out_y[0].dest, y);
    assert_eq!(
        out_y[0].payload,
        br#"{"msg_type":"registered","client_id":"127.0.0.1:9002","data":"Registered as 127.0.0.1:9002"}"#.to_vec()
    );
    assert_eq!(out_y[1].dest, x);
    assert_eq!(
        out_y[1].payload,
        br#"{"msg_type":"peer_info","client_id":"127.0.0.1:9002","data":"127.0.0.1:9002"}"#.to_vec()
    );
    assert_eq!(out_y[2].dest, y);
    assert_eq!(
        out_y[2].payload,
        br#"{"msg_type":"peer_info","client_id":"127.0.0.1:9001","data":"127.0.0.1:9001"}"#.to_vec()
    );
}

#[test]
fn pairing_reports_observed_addresses_not_asserted_ones() {
    // Identifiers are opaque: the payload carries the address each
    // registration was actually seen from, whatever the client asserted.
    let mut reg = Registry::new();
    let a = ep(10, 0, 0, 1, 5000);
    let b = ep(10, 0, 0, 2, 6000);
    handle_datagram(&mut reg, a, 1, br#"{"msg_type":"register","client_id":"alice","data":null}"#);
    let out = handle_datagram(
        &mut reg,
        b,
        2,
        br#"{"msg_type":"register","client_id":"bob","data":null}"#,
    );
    assert_eq!(out.len(), 3);
    let to_a = decode(&out[1].payload).expect("peer notice must decode");
    assert_eq!(out[1].dest, a);
    assert_eq!(to_a.kind(), Kind::PeerInfo);
    assert_eq!(to_a.client_id, b"bob".to_vec());
    assert_eq!(to_a.data, Some(b"10.0.0.2:6000".to_vec()));
    let to_b = decode(&out[2].payload).expect("peer notice must decode");
    assert_eq!(out[2].dest, b);
    assert_eq!(to_b.kind(), Kind::PeerInfo);
    assert_eq!(to_b.client_id, b"alice".to_vec());
    assert_eq!(to_b.data, Some(b"10.0.0.1:5000".to_vec()));
}

#[test]
fn malformed_datagrams_are_isolated() {
    // Garbage produces no reply and no session, and the service keeps
    // answering valid registrations afterwards.
    let mut reg = Registry::new();
    let src = ep(192, 168, 1, 10, 4000);
    assert!(handle_datagram(&mut reg, src, 1, b"this is not json").is_empty());
    assert!(handle_datagram(&mut reg, src, 2, b"{\"msg_type\":\"register\"").is_empty());
    assert!(handle_datagram(&mut reg, src, 3, br#"{"msg_type":"register","client_id":""}"#)
        .is_empty());
    assert_eq!(reg.size(), 0);
    let out = handle_datagram(
        &mut reg,
        src,
        4,
        br#"{"msg_type":"register","client_id":"carol","data":null}"#,
    );
    assert_eq!(reg.size(), 1);
    assert_eq!(out.len(), 1);
}

#[test]
fn non_register_kinds_are_ignored() {
    let mut reg = Registry::new();
    let src = ep(192, 168, 1, 10, 4000);
    assert!(handle_datagram(
        &mut reg,
        src,
        1,
        br#"{"msg_type":"registered","client_id":"x","data":null}"#
    )
    .is_empty());
    assert!(handle_datagram(
        &mut reg,
        src,
        2,
        br#"{"msg_type":"peer_info","client_id":"x","data":"1.2.3.4:5"}"#
    )
    .is_empty());
    assert!(handle_datagram(
        &mut reg,
        src,
        3,
        br#"{"msg_type":"ping","client_id":"x","data":null}"#
    )
    .is_empty());
    assert_eq!(reg.size(), 0);
}

#[test]
fn third_registration_renotifies_the_first_pair() {
    // Pairing re-runs on every registration once two sessions exist: the
    // first two registry entries are notified again.
    let mut reg = Registry::new();
    let a = ep(10, 0, 0, 1, 5000);
    let b = ep(10, 0, 0, 2, 6000);
    let c = ep(10, 0, 0, 3, 7000);
    handle_datagram(&mut reg, a, 1, br#"{"msg_type":"register","client_id":"alice","data":null}"#);
    handle_datagram(&mut reg, b, 2, br#"{"msg_type":"register","client_id":"bob","data":null}"#);
    let out = handle_datagram(
        &mut reg,
        c,
        3,
        br#"{"msg_type":"register","client_id":"carol","data":null}"#,
    );
    assert_eq!(reg.size(), 3);
    assert_eq!(out.len(), 3);
    assert_eq!(out[0].dest, c);
    // Alice and Bob, still the first two entries, hear about each other again.
    assert_eq!(out[1].dest, a);
    let to_a = decode(&out[1].payload).unwrap();
    assert_eq!(to_a.client_id, b"bob".to_vec());
    assert_eq!(to_a.data, Some(b"10.0.0.2:6000".to_vec()));
    assert_eq!(out[2].dest, b);
    let to_b = decode(&out[2].payload).unwrap();
    assert_eq!(to_b.client_id, b"alice".to_vec());
    assert_eq!(to_b.data, Some(b"10.0.0.1:5000".to_vec()));
}

#[test]
fn reregistration_updates_the_address_used_for_pairing() {
    let mut reg = Registry::new();
    let a_old = ep(10, 0, 0, 1, 5000);
    let a_new = ep(172, 16, 0, 1, 5050);
    let b = ep(10, 0, 0, 2, 6000);
    handle_datagram(&mut reg, a_old, 1, br#"{"msg_type":"register","client_id":"alice","data":null}"#);
    let out = handle_datagram(
        &mut reg,
        a_new,
        2,
        br#"{"msg_type":"register","client_id":"alice","data":null}"#,
    );
    // Still one session: the identifier was silently re-bound, no pairing.
    assert_eq!(reg.size(), 1);
    assert_eq!(out.len(), 1);
    let out = handle_datagram(
        &mut reg,
        b,
        3,
        br#"{"msg_type":"register","client_id":"bob","data":null}"#,
    );
    assert_eq!(out.len(), 3);
    assert_eq!(out[1].dest, a_new);
    let to_b = decode(&out[2].payload).unwrap();
    assert_eq!(to_b.data, Some(b"172.16.0.1:5050".to_vec()));
}
