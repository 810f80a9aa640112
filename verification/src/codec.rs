//! Wire codec for rendezvous messages.
//!
//! A datagram carries one JSON object with a string field `msg_type`, a
//! string field `client_id`, and an optional field `data` that is a string or
//! `null`. The grammar the service accepts is defined here as spec functions
//! over byte sequences ([`spec_decode`]); [`decode`] is proved to return
//! exactly what the grammar says. [`encode`] produces the canonical encoding
//! [`spec_encode`]: no whitespace, fields in the order `msg_type`,
//! `client_id`, `data`.
//!
//! Strings hold printable ASCII; the quote, the backslash, tab, line feed and
//! carriage return travel escaped (`\"`, `\\`, `\t`, `\n`, `\r`); `\/` is
//! accepted when decoding. Any other content fails decoding, never
//! processing: a datagram the grammar rejects yields `None`.

use vstd::prelude::*;
use crate::msg::{
    valid_byte, valid_text, valid_model, plain_text, Message, MessageModel, Kind, spec_kind,
    tok_msg_type, tok_client_id, tok_data, tok_null, kind_of_text, eq_bytes, push_tok_msg_type,
    push_tok_client_id, push_tok_data, push_tok_null, lemma_tokens_plain, lemma_plain_text_valid,
};

verus! {

pub const QUOTE: u8 = 0x22;

pub const BACKSLASH: u8 = 0x5C;

pub const SLASH: u8 = 0x2F;

pub const LBRACE: u8 = 0x7B;

pub const RBRACE: u8 = 0x7D;

pub const COLON: u8 = 0x3A;

pub const COMMA: u8 = 0x2C;

pub const SPACE: u8 = 0x20;

pub const TAB: u8 = 0x09;

pub const LF: u8 = 0x0A;

pub const CR: u8 = 0x0D;

/// JSON whitespace.
pub open spec fn is_ws(b: u8) -> bool {
    b == SPACE || b == TAB || b == LF || b == CR
}

/// The first position at or after `i` that holds no whitespace.
pub open spec fn spec_skip_ws(s: Seq<u8>, i: int) -> int
    decreases s.len() - i,
{
    if 0 <= i && i < s.len() && is_ws(s[i]) {
        spec_skip_ws(s, i + 1)
    } else {
        i
    }
}

/// The byte an escape code after a backslash stands for.
pub open spec fn unescape(b: u8) -> Option<u8> {
    if b == QUOTE {
        Some(QUOTE)
    } else if b == BACKSLASH {
        Some(BACKSLASH)
    } else if b == SLASH {
        Some(SLASH)
    } else if b == 0x6E {
        Some(LF)
    } else if b == 0x74 {
        Some(TAB)
    } else if b == 0x72 {
        Some(CR)
    } else {
        None
    }
}

/// Parses the body of a string literal from position `i` (just past the
/// opening quote), accumulating decoded bytes onto `acc`; yields the decoded
/// text and the position just past the closing quote.
pub open spec fn spec_parse_str_body(s: Seq<u8>, i: int, acc: Seq<u8>) -> Option<(Seq<u8>, int)>
    decreases s.len() - i,
{
    if i < 0 || i >= s.len() {
        None
    } else if s[i] == QUOTE {
        Some((acc, i + 1))
    } else if s[i] == BACKSLASH {
        if i + 1 < s.len() {
            match unescape(s[i + 1]) {
                Some(c) => spec_parse_str_body(s, i + 2, acc.push(c)),
                None => None,
            }
        } else {
            None
        }
    } else if 0x20 <= s[i] && s[i] <= 0x7E {
        spec_parse_str_body(s, i + 1, acc.push(s[i]))
    } else {
        None
    }
}

/// Parses a quoted string starting at `i`.
pub open spec fn spec_parse_string(s: Seq<u8>, i: int) -> Option<(Seq<u8>, int)> {
    if 0 <= i && i < s.len() && s[i] == QUOTE {
        spec_parse_str_body(s, i + 1, Seq::empty())
    } else {
        None
    }
}

/// Parses a field value starting at `i`: a string, or `null` (`None`).
pub open spec fn spec_parse_value(s: Seq<u8>, i: int) -> Option<(Option<Seq<u8>>, int)> {
    if 0 <= i && i < s.len() && s[i] == QUOTE {
        match spec_parse_string(s, i) {
            Some((t, j)) => Some((Some(t), j)),
            None => None,
        }
    } else if 0 <= i && i + 4 <= s.len() && s.subrange(i, i + 4) == tok_null() {
        Some((None, i + 4))
    } else {
        None
    }
}

/// The fields gathered while walking an object's members. `data_seen`
/// remembers that a `data` field occurred, since an explicit `null` and an
/// absent field both leave `data` empty.
#[verifier::ext_equal]
pub ghost struct FieldAcc {
    pub msg_type: Option<Seq<u8>>,
    pub client_id: Option<Seq<u8>>,
    pub data: Option<Seq<u8>>,
    pub data_seen: bool,
}

pub open spec fn empty_fields() -> FieldAcc {
    FieldAcc { msg_type: None, client_id: None, data: None, data_seen: false }
}

/// Records one member. A duplicate of a known key, or a `null` where a
/// string is required, rejects the datagram; an unknown key is ignored.
pub open spec fn apply_field(f: FieldAcc, key: Seq<u8>, val: Option<Seq<u8>>) -> Option<FieldAcc> {
    if key == tok_msg_type() {
        match (f.msg_type, val) {
            (None, Some(t)) => Some(FieldAcc { msg_type: Some(t), ..f }),
            _ => None,
        }
    } else if key == tok_client_id() {
        match (f.client_id, val) {
            (None, Some(t)) => Some(FieldAcc { client_id: Some(t), ..f }),
            _ => None,
        }
    } else if key == tok_data() {
        if f.data_seen {
            None
        } else {
            Some(FieldAcc { data: val, data_seen: true, ..f })
        }
    } else {
        Some(f)
    }
}

/// Parses the members of an object from the start of a key at `i` to the
/// position of the closing brace (whitespace already skipped).
pub open spec fn spec_parse_members(s: Seq<u8>, i: int, f: FieldAcc) -> Option<(FieldAcc, int)>
    decreases s.len() - i,
{
    match spec_parse_string(s, i) {
        None => None,
        Some((key, j)) => {
            let k = spec_skip_ws(s, j);
            if k < s.len() && s[k] == COLON {
                let v = spec_skip_ws(s, k + 1);
                match spec_parse_value(s, v) {
                    None => None,
                    Some((val, w)) => match apply_field(f, key, val) {
                        None => None,
                        Some(f2) => {
                            let c = spec_skip_ws(s, w);
                            if c < s.len() && s[c] == COMMA {
                                let n = spec_skip_ws(s, c + 1);
                                if i < n && n <= s.len() {
                                    spec_parse_members(s, n, f2)
                                } else {
                                    None
                                }
                            } else {
                                Some((f2, c))
                            }
                        },
                    },
                }
            } else {
                None
            }
        },
    }
}

/// Builds a message from gathered fields. `msg_type` and `client_id` are
/// required; a `register` whose `client_id` is empty fails decoding.
pub open spec fn fields_to_msg(f: FieldAcc) -> Option<MessageModel> {
    match (f.msg_type, f.client_id) {
        (Some(t), Some(c)) => {
            if spec_kind(t) == Kind::Register && c.len() == 0 {
                None
            } else {
                Some(MessageModel { msg_type: t, client_id: c, data: f.data })
            }
        },
        _ => None,
    }
}

/// The message a whole datagram decodes to, if the grammar accepts it.
pub open spec fn spec_decode(s: Seq<u8>) -> Option<MessageModel> {
    let i = spec_skip_ws(s, 0);
    if i < s.len() && s[i] == LBRACE {
        let j = spec_skip_ws(s, i + 1);
        if j < s.len() && s[j] == RBRACE {
            if spec_skip_ws(s, j + 1) == s.len() {
                fields_to_msg(empty_fields())
            } else {
                None
            }
        } else {
            match spec_parse_members(s, j, empty_fields()) {
                None => None,
                Some((f, k)) => {
                    if k < s.len() && s[k] == RBRACE && spec_skip_ws(s, k + 1) == s.len() {
                        fields_to_msg(f)
                    } else {
                        None
                    }
                },
            }
        }
    } else {
        None
    }
}

pub open spec fn opt_view(o: Option<Vec<u8>>) -> Option<Seq<u8>> {
    match o {
        Some(ref v) => Some(v@),
        None => None,
    }
}

pub open spec fn acc_of(
    mt: Option<Vec<u8>>,
    cid: Option<Vec<u8>>,
    dat: Option<Vec<u8>>,
    data_seen: bool,
) -> FieldAcc {
    FieldAcc {
        msg_type: opt_view(mt),
        client_id: opt_view(cid),
        data: opt_view(dat),
        data_seen: data_seen,
    }
}

/// Skips whitespace from `i`.
pub fn skip_ws(s: &[u8], i: usize) -> (j: usize)
    requires
        i <= s@.len(),
    ensures
        i <= j && j <= s@.len(),
        j as int == spec_skip_ws(s@, i as int),
{
    let mut cur = i;
    while cur < s.len() && (s[cur] == SPACE || s[cur] == TAB || s[cur] == LF || s[cur] == CR)
        invariant
            i <= cur && cur <= s@.len(),
            spec_skip_ws(s@, i as int) == spec_skip_ws(s@, cur as int),
        decreases s@.len() - cur,
    {
        cur = cur + 1;
    }
    cur
}

fn unescape_byte(b: u8) -> (r: Option<u8>)
    ensures
        r == unescape(b),
{
    if b == QUOTE {
        Some(QUOTE)
    } else if b == BACKSLASH {
        Some(BACKSLASH)
    } else if b == SLASH {
        Some(SLASH)
    } else if b == 0x6E {
        Some(LF)
    } else if b == 0x74 {
        Some(TAB)
    } else if b == 0x72 {
        Some(CR)
    } else {
        None
    }
}

/// Parses a quoted string starting at `i`.
pub fn parse_string(s: &[u8], i: usize) -> (r: Option<(Vec<u8>, usize)>)
    requires
        i <= s@.len(),
    ensures
        match r {
            Some((t, j)) => spec_parse_string(s@, i as int) == Some((t@, j as int)) && i < j && j
                <= s@.len(),
            None => spec_parse_string(s@, i as int) is None,
        },
{
    if !(i < s.len() && s[i] == QUOTE) {
        return None;
    }
    let mut cur = i + 1;
    let mut out: Vec<u8> = Vec::new();
    loop
        invariant
            i + 1 <= cur && cur <= s@.len(),
            (i as int) < s@.len() && s@[i as int] == QUOTE,
            spec_parse_str_body(s@, i as int + 1, Seq::empty()) == spec_parse_str_body(
                s@,
                cur as int,
                out@,
            ),
        decreases s@.len() - cur,
    {
        if cur >= s.len() {
            return None;
        }
        let b = s[cur];
        if b == QUOTE {
            proof {
                assert(spec_parse_str_body(s@, cur as int, out@) == Some((out@, cur as int + 1)));
            }
            return Some((out, cur + 1));
        } else if b == BACKSLASH {
            if cur + 1 >= s.len() {
                return None;
            }
            match unescape_byte(s[cur + 1]) {
                Some(c) => {
                    out.push(c);
                    cur = cur + 2;
                },
                None => {
                    return None;
                },
            }
        } else if 0x20 <= b && b <= 0x7E {
            out.push(b);
            cur = cur + 1;
        } else {
            return None;
        }
    }
}

/// Parses a field value starting at `i`.
pub fn parse_value(s: &[u8], i: usize) -> (r: Option<(Option<Vec<u8>>, usize)>)
    requires
        i <= s@.len(),
    ensures
        match r {
            Some((v, j)) => spec_parse_value(s@, i as int) == Some((opt_view(v), j as int)) && i
                < j && j <= s@.len(),
            None => spec_parse_value(s@, i as int) is None,
        },
{
    if i < s.len() && s[i] == QUOTE {
        match parse_string(s, i) {
            Some((t, j)) => Some((Some(t), j)),
            None => None,
        }
    } else {
        if s.len() - i >= 4 {
            if s[i] == 0x6E && s[i + 1] == 0x75 && s[i + 2] == 0x6C && s[i + 3] == 0x6C {
                proof {
                    assert(s@.subrange(i as int, i as int + 4) =~= tok_null());
                }
                return Some((None, i + 4));
            }
        }
        proof {
            if i as int + 4 <= s@.len() {
                let sub = s@.subrange(i as int, i as int + 4);
                if sub == tok_null() {
                    assert(s@[i as int] == sub[0] && s@[i as int + 1] == sub[1] && s@[i as int + 2]
                        == sub[2] && s@[i as int + 3] == sub[3]);
                }
            }
        }
        None
    }
}

/// Decodes one datagram. Returns the message exactly when the grammar
/// accepts the bytes ([`spec_decode`]); malformed input yields `None` and is
/// thereby dropped without any further effect.
pub fn decode(s: &[u8]) -> (r: Option<Message>)
    ensures
        match r {
            Some(m) => spec_decode(s@) == Some(m@),
            None => spec_decode(s@) is None,
        },
{
    let i0 = skip_ws(s, 0);
    if !(i0 < s.len() && s[i0] == LBRACE) {
        return None;
    }
    let start = skip_ws(s, i0 + 1);
    if start < s.len() && s[start] == RBRACE {
        // An empty object misses the required fields whatever follows.
        return None;
    }
    let mut cur = start;
    let mut mt: Option<Vec<u8>> = None;
    let mut cid: Option<Vec<u8>> = None;
    let mut dat: Option<Vec<u8>> = None;
    let mut data_seen: bool = false;
    loop
        invariant
            cur <= s@.len(),
            0 <= i0 && (i0 as int) < s@.len(),
            i0 as int == spec_skip_ws(s@, 0),
            s@[i0 as int] == LBRACE,
            start as int == spec_skip_ws(s@, i0 as int + 1),
            !(start < s@.len() && s@[start as int] == RBRACE),
            spec_parse_members(s@, start as int, empty_fields()) == spec_parse_members(
                s@,
                cur as int,
                acc_of(mt, cid, dat, data_seen),
            ),
        decreases s@.len() - cur,
    {
        let ghost f_in = acc_of(mt, cid, dat, data_seen);
        let (key, j) = match parse_string(s, cur) {
            Some(kj) => kj,
            None => {
                return None;
            },
        };
        let k = skip_ws(s, j);
        if !(k < s.len() && s[k] == COLON) {
            return None;
        }
        let v = skip_ws(s, k + 1);
        let (val, w) = match parse_value(s, v) {
            Some(vw) => vw,
            None => {
                return None;
            },
        };
        // Record the member as apply_field does.
        let mut tok: Vec<u8> = Vec::new();
        push_tok_msg_type(&mut tok);
        if eq_bytes(key.as_slice(), tok.as_slice()) {
            if mt.is_some() {
                return None;
            }
            match val {
                Some(t) => {
                    mt = Some(t);
                },
                None => {
                    return None;
                },
            }
        } else {
            let mut tok2: Vec<u8> = Vec::new();
            push_tok_client_id(&mut tok2);
            if eq_bytes(key.as_slice(), tok2.as_slice()) {
                if cid.is_some() {
                    return None;
                }
                match val {
                    Some(t) => {
                        cid = Some(t);
                    },
                    None => {
                        return None;
                    },
                }
            } else {
                let mut tok3: Vec<u8> = Vec::new();
                push_tok_data(&mut tok3);
                if eq_bytes(key.as_slice(), tok3.as_slice()) {
                    if data_seen {
                        return None;
                    }
                    dat = val;
                    data_seen = true;
                }
            }
        }
        proof {
            assert(apply_field(f_in, key@, spec_parse_value(s@, v as int)->Some_0.0) == Some(
                acc_of(mt, cid, dat, data_seen),
            ));
        }
        let c = skip_ws(s, w);
        if c < s.len() && s[c] == COMMA {
            cur = skip_ws(s, c + 1);
        } else {
            // End of the member list: expect the closing brace and only
            // whitespace after it.
            if !(c < s.len() && s[c] == RBRACE) {
                return None;
            }
            let e = skip_ws(s, c + 1);
            if e != s.len() {
                return None;
            }
            proof {
                assert(spec_parse_members(s@, start as int, empty_fields()) == Some(
                    (acc_of(mt, cid, dat, data_seen), c as int),
                ));
            }
            let t = match mt {
                Some(t) => t,
                None => {
                    return None;
                },
            };
            let ci = match cid {
                Some(ci) => ci,
                None => {
                    return None;
                },
            };
            if kind_of_text(t.as_slice()) == Kind::Register && ci.len() == 0 {
                return None;
            }
            let m = Message { msg_type: t, client_id: ci, data: dat };
            proof {
                assert(spec_decode(s@) == Some(m@));
            }
            return Some(m);
        }
    }
}

/// How one byte travels inside an encoded string literal: the quote, the
/// backslash and the three whitespace controls are escaped, everything else
/// passes through.
pub open spec fn esc_byte(b: u8) -> Seq<u8> {
    if b == QUOTE {
        seq![BACKSLASH, QUOTE]
    } else if b == BACKSLASH {
        seq![BACKSLASH, BACKSLASH]
    } else if b == LF {
        seq![BACKSLASH, 0x6Eu8]
    } else if b == TAB {
        seq![BACKSLASH, 0x74u8]
    } else if b == CR {
        seq![BACKSLASH, 0x72u8]
    } else {
        seq![b]
    }
}

/// The escaped form of a whole text.
pub open spec fn spec_escape(t: Seq<u8>) -> Seq<u8>
    decreases t.len(),
{
    if t.len() == 0 {
        Seq::empty()
    } else {
        esc_byte(t[0]) + spec_escape(t.drop_first())
    }
}

pub proof fn lemma_escape_append(a: Seq<u8>, b: Seq<u8>)
    ensures
        spec_escape(a + b) == spec_escape(a) + spec_escape(b),
    decreases a.len(),
{
    if a.len() == 0 {
        assert(a + b =~= b);
        assert(spec_escape(a) + spec_escape(b) =~= spec_escape(b));
    } else {
        assert((a + b).drop_first() =~= a.drop_first() + b);
        lemma_escape_append(a.drop_first(), b);
        assert((a + b)[0] == a[0]);
        assert(spec_escape(a + b) =~= spec_escape(a) + spec_escape(b));
    }
}

/// Escaping text with no byte that needs an escape changes nothing.
pub proof fn lemma_escape_plain(t: Seq<u8>)
    requires
        plain_text(t),
    ensures
        spec_escape(t) == t,
    decreases t.len(),
{
    if t.len() == 0 {
        assert(spec_escape(t) =~= t);
    } else {
        assert(plain_text(t.drop_first()));
        lemma_escape_plain(t.drop_first());
        assert(spec_escape(t) =~= t);
    }
}

/// A string literal: the escaped text between quotes.
pub open spec fn spec_quoted(t: Seq<u8>) -> Seq<u8> {
    seq![QUOTE] + spec_escape(t) + seq![QUOTE]
}

/// The canonical encoding of a message: no whitespace, fields in the order
/// `msg_type`, `client_id`, `data`; an empty payload is written `null`.
pub open spec fn spec_encode(m: MessageModel) -> Seq<u8> {
    seq![LBRACE] + spec_quoted(tok_msg_type()) + seq![COLON] + spec_quoted(m.msg_type)
        + seq![COMMA] + spec_quoted(tok_client_id()) + seq![COLON] + spec_quoted(m.client_id)
        + seq![COMMA] + spec_quoted(tok_data()) + seq![COLON] + (match m.data {
        None => tok_null(),
        Some(t) => spec_quoted(t),
    }) + seq![RBRACE]
}

fn push_byte(dst: &mut Vec<u8>, b: u8)
    ensures
        final(dst)@ == old(dst)@ + seq![b],
{
    dst.push(b);
    proof {
        assert(dst@ =~= old(dst)@ + seq![b]);
    }
}

/// Appends the escaped form of `t` to `dst`.
pub fn push_escaped(dst: &mut Vec<u8>, t: &[u8])
    ensures
        final(dst)@ == old(dst)@ + spec_escape(t@),
{
    let ghost orig = dst@;
    let mut i: usize = 0;
    while i < t.len()
        invariant
            i <= t@.len(),
            dst@ == orig + spec_escape(t@.take(i as int)),
        decreases t@.len() - i,
    {
        let b = t[i];
        if b == QUOTE {
            dst.push(BACKSLASH);
            dst.push(QUOTE);
        } else if b == BACKSLASH {
            dst.push(BACKSLASH);
            dst.push(BACKSLASH);
        } else if b == LF {
            dst.push(BACKSLASH);
            dst.push(0x6E);
        } else if b == TAB {
            dst.push(BACKSLASH);
            dst.push(0x74);
        } else if b == CR {
            dst.push(BACKSLASH);
            dst.push(0x72);
        } else {
            dst.push(b);
        }
        proof {
            lemma_escape_append(t@.take(i as int), seq![t@[i as int]]);
            let single = seq![t@[i as int]];
            assert(single.len() == 1 && single[0] == t@[i as int]);
            assert(single.drop_first() =~= Seq::<u8>::empty());
            assert(spec_escape(single) == esc_byte(single[0]) + spec_escape(single.drop_first()));
            assert(spec_escape(Seq::<u8>::empty()) == Seq::<u8>::empty());
            assert(spec_escape(single) =~= esc_byte(t@[i as int]));
            assert(t@.take(i as int + 1) =~= t@.take(i as int) + seq![t@[i as int]]);
            assert(dst@ =~= orig + spec_escape(t@.take(i as int + 1)));
        }
        i = i + 1;
    }
    proof {
        assert(t@.take(t@.len() as int) =~= t@);
    }
}

/// Encodes a message in the canonical wire form [`spec_encode`].
#[verifier::rlimit(60)]
pub fn encode(m: &Message) -> (r: Vec<u8>)
    ensures
        r@ == spec_encode(m@),
{
    let mut r: Vec<u8> = Vec::new();
    push_byte(&mut r, LBRACE);
    push_byte(&mut r, QUOTE);
    push_tok_msg_type(&mut r);
    push_byte(&mut r, QUOTE);
    push_byte(&mut r, COLON);
    push_byte(&mut r, QUOTE);
    push_escaped(&mut r, m.msg_type.as_slice());
    push_byte(&mut r, QUOTE);
    push_byte(&mut r, COMMA);
    push_byte(&mut r, QUOTE);
    push_tok_client_id(&mut r);
    push_byte(&mut r, QUOTE);
    push_byte(&mut r, COLON);
    push_byte(&mut r, QUOTE);
    push_escaped(&mut r, m.client_id.as_slice());
    push_byte(&mut r, QUOTE);
    push_byte(&mut r, COMMA);
    push_byte(&mut r, QUOTE);
    push_tok_data(&mut r);
    push_byte(&mut r, QUOTE);
    push_byte(&mut r, COLON);
    match &m.data {
        Some(t) => {
            push_byte(&mut r, QUOTE);
            push_escaped(&mut r, t.as_slice());
            push_byte(&mut r, QUOTE);
        },
        None => {
            push_tok_null(&mut r);
        },
    }
    push_byte(&mut r, RBRACE);
    proof {
        lemma_tokens_plain();
        lemma_escape_plain(tok_msg_type());
        lemma_escape_plain(tok_client_id());
        lemma_escape_plain(tok_data());
        assert(r@ =~= spec_encode(m@));
    }
    r
}

pub proof fn lemma_valid_push(acc: Seq<u8>, c: u8)
    requires
        valid_text(acc),
        valid_byte(c),
    ensures
        valid_text(acc.push(c)),
{
    assert forall|k: int| 0 <= k < acc.push(c).len() implies valid_byte(
        #[trigger] acc.push(c)[k],
    ) by {
        if k < acc.len() {
            assert(acc.push(c)[k] == acc[k]);
        } else {
            assert(acc.push(c)[k] == c);
        }
    }
}

/// Whatever a string literal decodes to is representable text.
pub proof fn lemma_str_body_valid(s: Seq<u8>, i: int, acc: Seq<u8>)
    requires
        valid_text(acc),
    ensures
        match spec_parse_str_body(s, i, acc) {
            Some((t, j)) => valid_text(t),
            None => true,
        },
    decreases s.len() - i,
{
    if i < 0 || i >= s.len() {
    } else if s[i] == QUOTE {
    } else if s[i] == BACKSLASH {
        if i + 1 < s.len() {
            match unescape(s[i + 1]) {
                Some(c) => {
                    lemma_valid_push(acc, c);
                    lemma_str_body_valid(s, i + 2, acc.push(c));
                },
                None => {},
            }
        }
    } else if 0x20 <= s[i] && s[i] <= 0x7E {
        lemma_valid_push(acc, s[i]);
        lemma_str_body_valid(s, i + 1, acc.push(s[i]));
    }
}

/// Every gathered field holds representable text.
pub open spec fn fields_valid(f: FieldAcc) -> bool {
    (match f.msg_type {
        Some(t) => valid_text(t),
        None => true,
    }) && (match f.client_id {
        Some(t) => valid_text(t),
        None => true,
    }) && (match f.data {
        Some(t) => valid_text(t),
        None => true,
    })
}

pub proof fn lemma_members_valid(s: Seq<u8>, i: int, f: FieldAcc)
    requires
        fields_valid(f),
    ensures
        match spec_parse_members(s, i, f) {
            Some((f2, j)) => fields_valid(f2),
            None => true,
        },
    decreases s.len() - i,
{
    match spec_parse_string(s, i) {
        None => {},
        Some((key, j)) => {
            let k = spec_skip_ws(s, j);
            if k < s.len() && s[k] == COLON {
                let v = spec_skip_ws(s, k + 1);
                match spec_parse_value(s, v) {
                    None => {},
                    Some((val, w)) => {
                        lemma_value_valid(s, v);
                        match apply_field(f, key, val) {
                            None => {},
                            Some(f2) => {
                                let c = spec_skip_ws(s, w);
                                if c < s.len() && s[c] == COMMA {
                                    let n = spec_skip_ws(s, c + 1);
                                    if i < n && n <= s.len() {
                                        lemma_members_valid(s, n, f2);
                                    }
                                }
                            },
                        }
                    },
                }
            }
        },
    }
}

/// A parsed value that is a string holds representable text.
pub proof fn lemma_value_valid(s: Seq<u8>, i: int)
    ensures
        match spec_parse_value(s, i) {
            Some((Some(t), j)) => valid_text(t),
            _ => true,
        },
{
    if 0 <= i && i < s.len() && s[i] == QUOTE {
        lemma_str_body_valid(s, i + 1, Seq::empty());
    }
}

/// Concatenating representable text keeps it representable.
pub proof fn lemma_valid_append(a: Seq<u8>, b: Seq<u8>)
    requires
        valid_text(a),
        valid_text(b),
    ensures
        valid_text(a + b),
{
    assert forall|k: int| 0 <= k < (a + b).len() implies valid_byte(#[trigger] (a + b)[k]) by {
        if k < a.len() {
            assert((a + b)[k] == a[k]);
        } else {
            assert((a + b)[k] == b[k - a.len()]);
        }
    }
}

/// A string body that is the escaped form of `t` followed by a closing quote
/// parses back to exactly `t`.
pub proof fn lemma_parse_escaped_body(s: Seq<u8>, i: int, t: Seq<u8>, acc: Seq<u8>)
    requires
        valid_text(t),
        0 <= i,
        i + spec_escape(t).len() + 1 <= s.len(),
        s.subrange(i, i + spec_escape(t).len()) == spec_escape(t),
        s[i + spec_escape(t).len()] == QUOTE,
    ensures
        spec_parse_str_body(s, i, acc) == Some((acc + t, i + spec_escape(t).len() + 1)),
    decreases t.len(),
{
    if t.len() == 0 {
        assert(spec_escape(t) == Seq::<u8>::empty());
        assert(s[i] == QUOTE);
        assert(acc + t =~= acc);
    } else {
        let c = t[0];
        let t2 = t.drop_first();
        assert(valid_byte(c));
        assert forall|k: int| 0 <= k < t2.len() implies valid_byte(#[trigger] t2[k]) by {
            assert(t2[k] == t[k + 1]);
        }
        let e1 = esc_byte(c);
        let el = e1.len() as int;
        let full = s.subrange(i, i + spec_escape(t).len());
        assert(spec_escape(t) == e1 + spec_escape(t2));
        assert(spec_escape(t).len() == el + spec_escape(t2).len());
        assert forall|k: int| 0 <= k < spec_escape(t2).len() implies s.subrange(
            i + el,
            i + el + spec_escape(t2).len(),
        )[k] == spec_escape(t2)[k] by {
            assert(full[el + k] == spec_escape(t)[el + k]);
            assert(full[el + k] == s[i + el + k]);
            assert(spec_escape(t)[el + k] == spec_escape(t2)[k]);
            assert(s.subrange(i + el, i + el + spec_escape(t2).len())[k] == s[i + el + k]);
        }
        assert(s.subrange(i + el, i + el + spec_escape(t2).len()) =~= spec_escape(t2));
        assert(s[i + el + spec_escape(t2).len()] == QUOTE);
        assert(full[0] == spec_escape(t)[0] && full[0] == s[i]);
        assert(s[i] == e1[0]);
        if el == 1 {
            assert(s[i] == c);
            assert(c != QUOTE && c != BACKSLASH && c != LF && c != TAB && c != CR);
            assert(0x20 <= c && c <= 0x7E);
            lemma_parse_escaped_body(s, i + 1, t2, acc.push(c));
            assert(acc.push(c) + t2 =~= acc + t);
        } else {
            assert(s[i] == BACKSLASH);
            assert(full[1] == spec_escape(t)[1] && full[1] == s[i + 1]);
            assert(s[i + 1] == e1[1]);
            assert(unescape(e1[1]) == Some(c));
            lemma_parse_escaped_body(s, i + 2, t2, acc.push(c));
            assert(acc.push(c) + t2 =~= acc + t);
        }
    }
}

/// A quoted, escaped text parses back to exactly that text.
pub proof fn lemma_parse_quoted(s: Seq<u8>, i: int, t: Seq<u8>)
    requires
        valid_text(t),
        0 <= i,
        i + spec_quoted(t).len() <= s.len(),
        s.subrange(i, i + spec_quoted(t).len()) == spec_quoted(t),
    ensures
        spec_parse_string(s, i) == Some((t, i + spec_quoted(t).len())),
{
    let full = s.subrange(i, i + spec_quoted(t).len());
    assert(spec_quoted(t).len() == spec_escape(t).len() + 2);
    assert(full[0] == spec_quoted(t)[0] && full[0] == s[i]);
    assert(spec_quoted(t)[0] == QUOTE);
    assert forall|k: int| 0 <= k < spec_escape(t).len() implies s.subrange(
        i + 1,
        i + 1 + spec_escape(t).len(),
    )[k] == spec_escape(t)[k] by {
        assert(full[1 + k] == spec_quoted(t)[1 + k]);
        assert(full[1 + k] == s[i + 1 + k]);
        assert(spec_quoted(t)[1 + k] == spec_escape(t)[k]);
        assert(s.subrange(i + 1, i + 1 + spec_escape(t).len())[k] == s[i + 1 + k]);
    }
    assert(s.subrange(i + 1, i + 1 + spec_escape(t).len()) =~= spec_escape(t));
    let qe = 1 + spec_escape(t).len() as int;
    assert(full[qe] == spec_quoted(t)[qe] && full[qe] == s[i + qe]);
    assert(spec_quoted(t)[qe] == QUOTE);
    assert(s[i + 1 + spec_escape(t).len()] == QUOTE);
    lemma_parse_escaped_body(s, i + 1, t, Seq::empty());
    assert(Seq::<u8>::empty() + t =~= t);
}

/// One `key: value` member of the canonical encoding, followed by a comma or
/// the closing brace, parses as `apply_field` says.
pub proof fn lemma_parse_member(
    s: Seq<u8>,
    i: int,
    key: Seq<u8>,
    val: Option<Seq<u8>>,
    venc: Seq<u8>,
    f: FieldAcc,
    f2: FieldAcc,
)
    requires
        valid_text(key),
        match val {
            Some(t) => valid_text(t) && venc == spec_quoted(t),
            None => venc == tok_null(),
        },
        0 <= i,
        i + spec_quoted(key).len() + 1 + venc.len() < s.len(),
        s.subrange(i, i + spec_quoted(key).len()) == spec_quoted(key),
        s[i + spec_quoted(key).len()] == COLON,
        s.subrange(
            i + spec_quoted(key).len() + 1,
            i + spec_quoted(key).len() + 1 + venc.len(),
        ) == venc,
        s[i + spec_quoted(key).len() + 1 + venc.len()] == COMMA || s[i + spec_quoted(key).len() + 1
            + venc.len()] == RBRACE,
        s[i + spec_quoted(key).len() + 1 + venc.len()] == COMMA ==> i + spec_quoted(key).len() + 1
            + venc.len() + 1 < s.len() && !is_ws(s[i + spec_quoted(key).len() + 1 + venc.len() + 1]),
        apply_field(f, key, val) == Some(f2),
    ensures
        s[i + spec_quoted(key).len() + 1 + venc.len()] == COMMA ==> spec_parse_members(s, i, f)
            == spec_parse_members(s, i + spec_quoted(key).len() + 1 + venc.len() + 1, f2),
        s[i + spec_quoted(key).len() + 1 + venc.len()] == RBRACE ==> spec_parse_members(s, i, f)
            == Some((f2, i + spec_quoted(key).len() + 1 + venc.len())),
{
    let j = i + spec_quoted(key).len();
    let v = j + 1;
    let e = v + venc.len();
    lemma_parse_quoted(s, i, key);
    assert(spec_parse_string(s, i) == Some((key, j)));
    assert(spec_skip_ws(s, j) == j);
    assert forall|k: int| 0 <= k < venc.len() implies s[v + k] == venc[k] by {
        assert(s.subrange(v, v + venc.len())[k] == s[v + k]);
    }
    match val {
        Some(t) => {
            assert(s[v] == venc[0]);
            assert(venc[0] == QUOTE);
            assert(!is_ws(s[v]));
            assert(spec_skip_ws(s, v) == v);
            lemma_parse_quoted(s, v, t);
            assert(spec_parse_value(s, v) == Some((Some(t), e)));
        },
        None => {
            assert(s[v] == venc[0]);
            assert(venc[0] == 0x6E);
            assert(!is_ws(s[v]));
            assert(spec_skip_ws(s, v) == v);
            assert(s.subrange(v, v + 4) =~= tok_null());
            assert(s[v] != QUOTE);
            assert(spec_parse_value(s, v) == Some((None::<Seq<u8>>, e)));
        },
    }
    assert(spec_skip_ws(s, e) == e);
    if s[e] == COMMA {
        assert(spec_skip_ws(s, e + 1) == e + 1);
        assert(i < e + 1 && e + 1 <= s.len());
        assert(spec_parse_members(s, i, f) == spec_parse_members(s, e + 1, f2));
    } else {
        assert(spec_parse_members(s, i, f) == Some((f2, e)));
    }
}

/// The value slot of the canonical encoding.
pub open spec fn enc_val(d: Option<Seq<u8>>) -> Seq<u8> {
    match d {
        None => tok_null(),
        Some(t) => spec_quoted(t),
    }
}

/// Where each piece of the canonical encoding lies: braces, keys, separators
/// and values, at their computed offsets.
pub open spec fn encode_layout(m: MessageModel) -> bool {
    let s = spec_encode(m);
    let q1 = spec_quoted(tok_msg_type());
    let q2 = spec_quoted(m.msg_type);
    let q3 = spec_quoted(tok_client_id());
    let q4 = spec_quoted(m.client_id);
    let q5 = spec_quoted(tok_data());
    let q6 = enc_val(m.data);
    let c1 = 1 + q1.len();
    let p2 = c1 + 1;
    let e1 = p2 + q2.len();
    let p3 = e1 + 1;
    let c2 = p3 + q3.len();
    let p4 = c2 + 1;
    let e2 = p4 + q4.len();
    let p5 = e2 + 1;
    let c3 = p5 + q5.len();
    let p6 = c3 + 1;
    let e3 = p6 + q6.len();
    &&& s.len() == e3 + 1
    &&& s[0] == LBRACE
    &&& s.subrange(1, c1 as int) == q1
    &&& s[c1 as int] == COLON
    &&& s.subrange(p2 as int, e1 as int) == q2
    &&& s[e1 as int] == COMMA
    &&& s.subrange(p3 as int, c2 as int) == q3
    &&& s[c2 as int] == COLON
    &&& s.subrange(p4 as int, e2 as int) == q4
    &&& s[e2 as int] == COMMA
    &&& s.subrange(p5 as int, c3 as int) == q5
    &&& s[c3 as int] == COLON
    &&& s.subrange(p6 as int, e3 as int) == q6
    &&& s[e3 as int] == RBRACE
}

#[verifier::rlimit(100)]
proof fn lemma_encode_layout(m: MessageModel)
    ensures
        encode_layout(m),
{
    let s = spec_encode(m);
    let q1 = spec_quoted(tok_msg_type());
    let q2 = spec_quoted(m.msg_type);
    let q3 = spec_quoted(tok_client_id());
    let q4 = spec_quoted(m.client_id);
    let q5 = spec_quoted(tok_data());
    let q6 = enc_val(m.data);
    let c1 = 1 + q1.len() as int;
    let p2 = c1 + 1;
    let e1 = p2 + q2.len();
    let p3 = e1 + 1;
    let c2 = p3 + q3.len();
    let p4 = c2 + 1;
    let e2 = p4 + q4.len();
    let p5 = e2 + 1;
    let c3 = p5 + q5.len();
    let p6 = c3 + 1;
    let e3 = p6 + q6.len();
    assert(s.len() == e3 + 1);
    assert(s[0] == LBRACE);
    assert(s.subrange(1, c1) =~= q1);
    assert(s[c1] == COLON);
    assert(s.subrange(p2, e1) =~= q2);
    assert(s[e1] == COMMA);
    assert(s.subrange(p3, c2) =~= q3);
    assert(s[c2] == COLON);
    assert(s.subrange(p4, e2) =~= q4);
    assert(s[e2] == COMMA);
    assert(s.subrange(p5, c3) =~= q5);
    assert(s[c3] == COLON);
    assert(s.subrange(p6, e3) =~= q6);
    assert(s[e3] == RBRACE);
}

/// Decoding inverts encoding: every message whose text is representable — and
/// which could have decoded at all, so a registering one names its client —
/// comes back unchanged from its own canonical encoding.
#[verifier::rlimit(100)]
pub proof fn lemma_decode_encode(m: MessageModel)
    requires
        valid_model(m),
        spec_kind(m.msg_type) == Kind::Register ==> m.client_id.len() > 0,
    ensures
        spec_decode(spec_encode(m)) == Some(m),
{
    lemma_tokens_plain();
    lemma_plain_text_valid(tok_msg_type());
    lemma_plain_text_valid(tok_client_id());
    lemma_plain_text_valid(tok_data());
    let s = spec_encode(m);
    let q1 = spec_quoted(tok_msg_type());
    let q2 = spec_quoted(m.msg_type);
    let q3 = spec_quoted(tok_client_id());
    let q4 = spec_quoted(m.client_id);
    let q5 = spec_quoted(tok_data());
    let q6 = enc_val(m.data);
    let p1 = 1int;
    let c1 = p1 + q1.len();
    let p2 = c1 + 1;
    let e1 = p2 + q2.len();
    let p3 = e1 + 1;
    let c2 = p3 + q3.len();
    let p4 = c2 + 1;
    let e2 = p4 + q4.len();
    let p5 = e2 + 1;
    let c3 = p5 + q5.len();
    let p6 = c3 + 1;
    let e3 = p6 + q6.len();
    lemma_encode_layout(m);
    assert(s.len() == e3 + 1);
    assert(q1[0] == QUOTE && q3[0] == QUOTE && q5[0] == QUOTE);
    assert(s[p1] == q1[0] && s[p3] == q3[0] && s[p5] == q5[0]);
    // The scan finds the opening brace at once, then the first key.
    assert(spec_skip_ws(s, 0) == 0);
    assert(spec_skip_ws(s, 1) == 1);
    assert(s[1] != RBRACE);
    // msg_type
    let f0 = empty_fields();
    let f1 = FieldAcc { msg_type: Some(m.msg_type), ..f0 };
    assert(apply_field(f0, tok_msg_type(), Some(m.msg_type)) == Some(f1));
    lemma_parse_member(s, p1, tok_msg_type(), Some(m.msg_type), q2, f0, f1);
    assert(spec_parse_members(s, p1, f0) == spec_parse_members(s, p3, f1));
    // client_id
    assert(tok_client_id() != tok_msg_type());
    let f2 = FieldAcc { client_id: Some(m.client_id), ..f1 };
    assert(apply_field(f1, tok_client_id(), Some(m.client_id)) == Some(f2));
    lemma_parse_member(s, p3, tok_client_id(), Some(m.client_id), q4, f1, f2);
    assert(spec_parse_members(s, p3, f1) == spec_parse_members(s, p5, f2));
    // data
    assert(tok_data() != tok_msg_type() && tok_data() != tok_client_id());
    let f3 = FieldAcc { data: m.data, data_seen: true, ..f2 };
    assert(apply_field(f2, tok_data(), m.data) == Some(f3));
    lemma_parse_member(s, p5, tok_data(), m.data, q6, f2, f3);
    assert(spec_parse_members(s, p5, f2) == Some((f3, e3)));
    // The closing brace ends the datagram.
    assert(spec_skip_ws(s, e3 + 1) == e3 + 1);
    assert(fields_to_msg(f3) == Some(m));
    assert(spec_decode(s) == Some(m));
}

/// Whatever decodes at all decodes to a message whose text is representable
/// and whose `client_id` is non-empty when it registers.
pub proof fn lemma_decode_valid(s: Seq<u8>)
    ensures
        match spec_decode(s) {
            Some(m) => valid_model(m) && (spec_kind(m.msg_type) == Kind::Register
                ==> m.client_id.len() > 0),
            None => true,
        },
{
    let i = spec_skip_ws(s, 0);
    if i < s.len() && s[i] == LBRACE {
        let j = spec_skip_ws(s, i + 1);
        if !(j < s.len() && s[j] == RBRACE) {
            lemma_members_valid(s, j, empty_fields());
        }
    }
}

} // verus!
