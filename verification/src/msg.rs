//! The wire unit of the rendezvous protocol.
//!
//! A message has a kind (its `msg_type` field on the wire), a client
//! identifier, and an optional payload whose meaning depends on the kind.
//! Message text travels as ASCII bytes; anything a string field may hold is
//! constrained by [`valid_text`].

use vstd::prelude::*;

verus! {

/// Bytes a decoded string field may hold: printable ASCII plus the three
/// whitespace controls the codec knows escapes for.
pub open spec fn valid_byte(b: u8) -> bool {
    (0x20 <= b && b <= 0x7E) || b == 0x09 || b == 0x0A || b == 0x0D
}

/// Bytes that pass through the codec without escaping: printable ASCII other
/// than the quote and the backslash.
pub open spec fn plain_byte(b: u8) -> bool {
    0x20 <= b && b <= 0x7E && b != 0x22 && b != 0x5C
}

pub open spec fn valid_text(t: Seq<u8>) -> bool {
    forall|i: int| 0 <= i < t.len() ==> valid_byte(#[trigger] t[i])
}

pub open spec fn plain_text(t: Seq<u8>) -> bool {
    forall|i: int| 0 <= i < t.len() ==> plain_byte(#[trigger] t[i])
}

pub proof fn lemma_plain_text_valid(t: Seq<u8>)
    requires
        plain_text(t),
    ensures
        valid_text(t),
{
}

/// The message kinds the service distinguishes. Anything else on the wire
/// falls in the open-ended `Unknown` bucket for forward compatibility.
#[derive(Clone, Copy, PartialEq, Eq, Structural, Debug)]
pub enum Kind {
    Register,
    Registered,
    PeerInfo,
    Unknown,
}

/// `"msg_type"` in ASCII.
pub open spec fn tok_msg_type() -> Seq<u8> {
    seq![0x6Du8, 0x73u8, 0x67u8, 0x5Fu8, 0x74u8, 0x79u8, 0x70u8, 0x65u8]
}

/// `"client_id"` in ASCII.
pub open spec fn tok_client_id() -> Seq<u8> {
    seq![0x63u8, 0x6Cu8, 0x69u8, 0x65u8, 0x6Eu8, 0x74u8, 0x5Fu8, 0x69u8, 0x64u8]
}

/// `"data"` in ASCII.
pub open spec fn tok_data() -> Seq<u8> {
    seq![0x64u8, 0x61u8, 0x74u8, 0x61u8]
}

/// `"register"` in ASCII.
pub open spec fn tok_register() -> Seq<u8> {
    seq![0x72u8, 0x65u8, 0x67u8, 0x69u8, 0x73u8, 0x74u8, 0x65u8, 0x72u8]
}

/// `"registered"` in ASCII.
pub open spec fn tok_registered() -> Seq<u8> {
    seq![0x72u8, 0x65u8, 0x67u8, 0x69u8, 0x73u8, 0x74u8, 0x65u8, 0x72u8, 0x65u8, 0x64u8]
}

/// `"peer_info"` in ASCII.
pub open spec fn tok_peer_info() -> Seq<u8> {
    seq![0x70u8, 0x65u8, 0x65u8, 0x72u8, 0x5Fu8, 0x69u8, 0x6Eu8, 0x66u8, 0x6Fu8]
}

/// `"Registered as "` in ASCII: the prefix of the acknowledgment payload.
pub open spec fn tok_registered_as() -> Seq<u8> {
    seq![
        0x52u8,
        0x65u8,
        0x67u8,
        0x69u8,
        0x73u8,
        0x74u8,
        0x65u8,
        0x72u8,
        0x65u8,
        0x64u8,
        0x20u8,
        0x61u8,
        0x73u8,
        0x20u8,
    ]
}

/// `"null"` in ASCII.
pub open spec fn tok_null() -> Seq<u8> {
    seq![0x6Eu8, 0x75u8, 0x6Cu8, 0x6Cu8]
}

/// All the fixed tokens are plain printable text.
pub proof fn lemma_tokens_plain()
    ensures
        plain_text(tok_msg_type()),
        plain_text(tok_client_id()),
        plain_text(tok_data()),
        plain_text(tok_register()),
        plain_text(tok_registered()),
        plain_text(tok_peer_info()),
        plain_text(tok_registered_as()),
        plain_text(tok_null()),
{
}

/// Appends `"msg_type"` to `dst`.
pub fn push_tok_msg_type(dst: &mut Vec<u8>)
    ensures
        final(dst)@ == old(dst)@ + tok_msg_type(),
{
    dst.push(0x6D);
    dst.push(0x73);
    dst.push(0x67);
    dst.push(0x5F);
    dst.push(0x74);
    dst.push(0x79);
    dst.push(0x70);
    dst.push(0x65);
    proof {
        assert(dst@ =~= old(dst)@ + tok_msg_type());
    }
}

/// Appends `"client_id"` to `dst`.
pub fn push_tok_client_id(dst: &mut Vec<u8>)
    ensures
        final(dst)@ == old(dst)@ + tok_client_id(),
{
    dst.push(0x63);
    dst.push(0x6C);
    dst.push(0x69);
    dst.push(0x65);
    dst.push(0x6E);
    dst.push(0x74);
    dst.push(0x5F);
    dst.push(0x69);
    dst.push(0x64);
    proof {
        assert(dst@ =~= old(dst)@ + tok_client_id());
    }
}

/// Appends `"data"` to `dst`.
pub fn push_tok_data(dst: &mut Vec<u8>)
    ensures
        final(dst)@ == old(dst)@ + tok_data(),
{
    dst.push(0x64);
    dst.push(0x61);
    dst.push(0x74);
    dst.push(0x61);
    proof {
        assert(dst@ =~= old(dst)@ + tok_data());
    }
}

/// Appends `"register"` to `dst`.
pub fn push_tok_register(dst: &mut Vec<u8>)
    ensures
        final(dst)@ == old(dst)@ + tok_register(),
{
    dst.push(0x72);
    dst.push(0x65);
    dst.push(0x67);
    dst.push(0x69);
    dst.push(0x73);
    dst.push(0x74);
    dst.push(0x65);
    dst.push(0x72);
    proof {
        assert(dst@ =~= old(dst)@ + tok_register());
    }
}

/// Appends `"registered"` to `dst`.
pub fn push_tok_registered(dst: &mut Vec<u8>)
    ensures
        final(dst)@ == old(dst)@ + tok_registered(),
{
    dst.push(0x72);
    dst.push(0x65);
    dst.push(0x67);
    dst.push(0x69);
    dst.push(0x73);
    dst.push(0x74);
    dst.push(0x65);
    dst.push(0x72);
    dst.push(0x65);
    dst.push(0x64);
    proof {
        assert(dst@ =~= old(dst)@ + tok_registered());
    }
}

/// Appends `"peer_info"` to `dst`.
pub fn push_tok_peer_info(dst: &mut Vec<u8>)
    ensures
        final(dst)@ == old(dst)@ + tok_peer_info(),
{
    dst.push(0x70);
    dst.push(0x65);
    dst.push(0x65);
    dst.push(0x72);
    dst.push(0x5F);
    dst.push(0x69);
    dst.push(0x6E);
    dst.push(0x66);
    dst.push(0x6F);
    proof {
        assert(dst@ =~= old(dst)@ + tok_peer_info());
    }
}

/// Appends `"Registered as "` to `dst`.
pub fn push_tok_registered_as(dst: &mut Vec<u8>)
    ensures
        final(dst)@ == old(dst)@ + tok_registered_as(),
{
    dst.push(0x52);
    dst.push(0x65);
    dst.push(0x67);
    dst.push(0x69);
    dst.push(0x73);
    dst.push(0x74);
    dst.push(0x65);
    dst.push(0x72);
    dst.push(0x65);
    dst.push(0x64);
    dst.push(0x20);
    dst.push(0x61);
    dst.push(0x73);
    dst.push(0x20);
    proof {
        assert(dst@ =~= old(dst)@ + tok_registered_as());
    }
}

/// Appends `"null"` to `dst`.
pub fn push_tok_null(dst: &mut Vec<u8>)
    ensures
        final(dst)@ == old(dst)@ + tok_null(),
{
    dst.push(0x6E);
    dst.push(0x75);
    dst.push(0x6C);
    dst.push(0x6C);
    proof {
        assert(dst@ =~= old(dst)@ + tok_null());
    }
}

/// Compares two byte slices for equality of contents.
pub fn eq_bytes(a: &[u8], b: &[u8]) -> (r: bool)
    ensures
        r == (a@ == b@),
{
    if a.len() != b.len() {
        return false;
    }
    let mut i: usize = 0;
    while i < a.len()
        invariant
            i <= a@.len(),
            a@.len() == b@.len(),
            forall|j: int| 0 <= j < i ==> a@[j] == b@[j],
        decreases a@.len() - i,
    {
        if a[i] != b[i] {
            return false;
        }
        i = i + 1;
    }
    proof {
        assert(a@ =~= b@);
    }
    true
}

/// The kind named by a `msg_type` text.
pub open spec fn spec_kind(t: Seq<u8>) -> Kind {
    if t == tok_register() {
        Kind::Register
    } else if t == tok_registered() {
        Kind::Registered
    } else if t == tok_peer_info() {
        Kind::PeerInfo
    } else {
        Kind::Unknown
    }
}

/// Classifies a `msg_type` text.
pub fn kind_of_text(t: &[u8]) -> (k: Kind)
    ensures
        k == spec_kind(t@),
{
    let mut reg: Vec<u8> = Vec::new();
    push_tok_register(&mut reg);
    if eq_bytes(t, reg.as_slice()) {
        return Kind::Register;
    }
    let mut rgd: Vec<u8> = Vec::new();
    push_tok_registered(&mut rgd);
    if eq_bytes(t, rgd.as_slice()) {
        return Kind::Registered;
    }
    let mut pi: Vec<u8> = Vec::new();
    push_tok_peer_info(&mut pi);
    if eq_bytes(t, pi.as_slice()) {
        return Kind::PeerInfo;
    }
    Kind::Unknown
}

/// The mathematical model of a message: its `msg_type` text, its client
/// identifier, and its optional payload.
#[verifier::ext_equal]
pub ghost struct MessageModel {
    pub msg_type: Seq<u8>,
    pub client_id: Seq<u8>,
    pub data: Option<Seq<u8>>,
}

/// A message's string fields hold only representable text.
pub open spec fn valid_model(m: MessageModel) -> bool {
    valid_text(m.msg_type) && valid_text(m.client_id) && match m.data {
        Some(t) => valid_text(t),
        None => true,
    }
}

/// A decoded or to-be-encoded wire message.
pub struct Message {
    /// The raw `msg_type` field; [`Message::kind`] classifies it.
    pub msg_type: Vec<u8>,
    /// The client's self-asserted identifier, an opaque token.
    pub client_id: Vec<u8>,
    /// The optional payload; `None` stands for an absent or `null` field.
    pub data: Option<Vec<u8>>,
}

impl View for Message {
    type V = MessageModel;

    open spec fn view(&self) -> MessageModel {
        MessageModel {
            msg_type: self.msg_type@,
            client_id: self.client_id@,
            data: match self.data {
                Some(ref v) => Some(v@),
                None => None,
            },
        }
    }
}

impl Message {
    /// The kind this message's `msg_type` names.
    pub fn kind(&self) -> (k: Kind)
        ensures
            k == spec_kind(self@.msg_type),
    {
        kind_of_text(self.msg_type.as_slice())
    }
}

} // verus!
