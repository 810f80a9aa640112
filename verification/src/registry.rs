//! The session registry: an in-memory mapping from a client's self-asserted
//! identifier to the session observed for it.
//!
//! Identifiers are opaque tokens; the address bound to one is always the
//! source address a registration datagram actually arrived from. Entries are
//! kept in insertion order, registering an identifier again silently
//! replaces its session in place, and nothing is ever removed: sessions live
//! until the process ends.

use vstd::prelude::*;
use vstd::slice::slice_to_vec;
use crate::endpoint::Endpoint;
use crate::msg::eq_bytes;

verus! {

/// One tracked session: the network address the registration datagram
/// actually came from — never an address the client asserted — and the time
/// the registration was seen.
#[derive(Clone, Copy, PartialEq, Eq, Structural, Debug)]
pub struct ClientSession {
    pub observed_address: Endpoint,
    pub last_seen: u64,
}

/// One registry slot: the identifier and its session.
pub struct RegEntry {
    pub id: Vec<u8>,
    pub session: ClientSession,
}

/// The registry's mathematical model: identifier/session pairs in the order
/// the registry keeps them.
pub type RegView = Seq<(Seq<u8>, ClientSession)>;

/// The registry. It exclusively owns all session records.
pub struct Registry {
    pub entries: Vec<RegEntry>,
}

impl View for Registry {
    type V = RegView;

    open spec fn view(&self) -> RegView {
        Seq::new(
            self.entries@.len(),
            |k: int| (self.entries@[k].id@, self.entries@[k].session),
        )
    }
}

/// Identifiers are unique: at most one session per identifier.
pub open spec fn wf_entries(v: RegView) -> bool {
    forall|i: int, j: int| 0 <= i < j < v.len() ==> v[i].0 != v[j].0
}

pub open spec fn has_id(v: RegView, id: Seq<u8>) -> bool {
    exists|k: int| 0 <= k < v.len() && v[k].0 == id
}

/// The slot holding `id` (meaningful when `has_id` and `wf_entries` hold).
pub open spec fn id_index(v: RegView, id: Seq<u8>) -> int {
    choose|k: int| 0 <= k < v.len() && v[k].0 == id
}

/// The session recorded for `id`.
pub open spec fn session_of(v: RegView, id: Seq<u8>) -> ClientSession {
    v[id_index(v, id)].1
}

/// What registering does to the model: replace in place, or append.
pub open spec fn spec_register(v: RegView, id: Seq<u8>, s: ClientSession) -> RegView {
    if has_id(v, id) {
        v.update(id_index(v, id), (id, s))
    } else {
        v.push((id, s))
    }
}

/// Registration keeps identifiers unique, records exactly the given session
/// for `id`, grows the registry only when `id` is new, and leaves every
/// other identifier's slot unchanged.
pub proof fn lemma_register_effect(v: RegView, id: Seq<u8>, s: ClientSession)
    requires
        wf_entries(v),
    ensures
        wf_entries(spec_register(v, id, s)),
        has_id(spec_register(v, id, s), id),
        session_of(spec_register(v, id, s), id) == s,
        forall|k: int|
            0 <= k < spec_register(v, id, s).len() && #[trigger] spec_register(v, id, s)[k].0 == id
                ==> spec_register(v, id, s)[k].1 == s,
        spec_register(v, id, s).len() == if has_id(v, id) {
            v.len()
        } else {
            v.len() + 1
        },
        forall|k: int|
            0 <= k < v.len() && #[trigger] v[k].0 != id ==> spec_register(v, id, s)[k] == v[k],
{
    let v2 = spec_register(v, id, s);
    if has_id(v, id) {
        let idx = id_index(v, id);
        assert(0 <= idx < v.len() && v[idx].0 == id);
        assert(forall|k: int| 0 <= k < v2.len() ==> v2[k].0 == v[k].0);
        assert(wf_entries(v2));
        assert(v2[idx].0 == id);
        assert forall|k: int| 0 <= k < v2.len() && #[trigger] v2[k].0 == id implies v2[k].1
            == s by {
            if k != idx {
                assert(v[k].0 == id);
                assert(false);
            }
        }
        assert(0 <= id_index(v2, id) < v2.len() && v2[id_index(v2, id)].0 == id);
    } else {
        assert(v2[v.len() as int].0 == id);
        assert forall|i: int, j: int| 0 <= i < j < v2.len() implies v2[i].0 != v2[j].0 by {
            if j == v.len() {
                assert(v2[i].0 == v[i].0);
                assert(!(0 <= i < v.len() && v[i].0 == id));
            }
        }
        assert forall|k: int| 0 <= k < v2.len() && #[trigger] v2[k].0 == id implies v2[k].1
            == s by {
            if k < v.len() {
                assert(v[k].0 == id);
                assert(false);
            }
        }
        assert(0 <= id_index(v2, id) < v2.len() && v2[id_index(v2, id)].0 == id);
    }
}

/// Registering the same identifier twice — from wherever, in whatever order —
/// leaves exactly one session for it, bound to the most recent observation.
pub proof fn lemma_register_idempotent(
    v: RegView,
    id: Seq<u8>,
    s1: ClientSession,
    s2: ClientSession,
)
    requires
        wf_entries(v),
    ensures
        ({
            let v2 = spec_register(spec_register(v, id, s1), id, s2);
            &&& wf_entries(v2)
            &&& has_id(v2, id)
            &&& session_of(v2, id) == s2
            &&& forall|k: int|
                0 <= k < v2.len() && #[trigger] v2[k].0 == id ==> v2[k].1 == s2
            &&& v2.len() == if has_id(v, id) {
                v.len()
            } else {
                v.len() + 1
            }
        }),
{
    let v1 = spec_register(v, id, s1);
    lemma_register_effect(v, id, s1);
    lemma_register_effect(v1, id, s2);
}

impl Registry {
    pub open spec fn wf(&self) -> bool {
        wf_entries(self@)
    }

    /// An empty registry.
    pub fn new() -> (r: Registry)
        ensures
            r@ == Seq::<(Seq<u8>, ClientSession)>::empty(),
            r.wf(),
    {
        let r = Registry { entries: Vec::new() };
        proof {
            assert(r@ =~= Seq::<(Seq<u8>, ClientSession)>::empty());
        }
        r
    }

    /// Number of currently tracked sessions.
    pub fn size(&self) -> (n: usize)
        ensures
            n == self@.len(),
    {
        self.entries.len()
    }

    /// Inserts or replaces the session for `client_id`. Always succeeds: a
    /// prior session under the same identifier is silently overwritten, by
    /// design, even though that lets an identifier be captured.
    pub fn register(&mut self, client_id: Vec<u8>, observed_address: Endpoint, now: u64)
        requires
            old(self).wf(),
        ensures
            final(self).wf(),
            final(self)@ == spec_register(
                old(self)@,
                client_id@,
                ClientSession { observed_address, last_seen: now },
            ),
    {
        let ghost cid = client_id@;
        let s = ClientSession { observed_address, last_seen: now };
        let mut k: usize = 0;
        while k < self.entries.len()
            invariant
                k <= self.entries@.len(),
                *self == *old(self),
                old(self).wf(),
                cid == client_id@,
                s == (ClientSession { observed_address, last_seen: now }),
                forall|j: int| 0 <= j < k ==> (#[trigger] self@[j]).0 != cid,
            decreases self.entries@.len() - k,
        {
            proof {
                assert(self@[k as int] == (self.entries@[k as int].id@, self.entries@[k as int].session));
            }
            if eq_bytes(self.entries[k].id.as_slice(), client_id.as_slice()) {
                proof {
                    assert(self@[k as int].0 == cid);
                    assert(has_id(self@, cid));
                    let idx = id_index(self@, cid);
                    assert(0 <= idx < self@.len() && self@[idx].0 == cid);
                    if idx != k as int {
                        if idx > k as int {
                            assert(self@[k as int].0 != self@[idx].0);
                        } else {
                            assert(self@[idx].0 != self@[k as int].0);
                        }
                        assert(false);
                    }
                }
                self.entries[k] = RegEntry { id: client_id, session: s };
                proof {
                    assert(self@ =~= old(self)@.update(k as int, (cid, s)));
                    assert(self@ == spec_register(old(self)@, cid, s));
                    assert(forall|i: int|
                        0 <= i < self@.len() ==> (#[trigger] self@[i]).0 == old(self)@[i].0);
                }
                return ;
            }
            k = k + 1;
        }
        proof {
            assert(!has_id(self@, cid));
        }
        self.entries.push(RegEntry { id: client_id, session: s });
        proof {
            assert(self@ =~= old(self)@.push((cid, s)));
            assert(self@ == spec_register(old(self)@, cid, s));
            lemma_register_effect(old(self)@, cid, s);
        }
    }

    /// A read copy of the entries, in the registry's order, for the pairing
    /// algorithm to pick from.
    pub fn snapshot_for_pairing(&self) -> (r: Vec<(Vec<u8>, ClientSession)>)
        ensures
            r@.len() == self@.len(),
            forall|k: int|
                0 <= k < r@.len() ==> (#[trigger] r@[k]).0@ == self@[k].0 && r@[k].1 == self@[k].1,
    {
        let mut r: Vec<(Vec<u8>, ClientSession)> = Vec::new();
        let mut k: usize = 0;
        while k < self.entries.len()
            invariant
                k <= self.entries@.len(),
                r@.len() == k,
                forall|j: int|
                    0 <= j < k ==> (#[trigger] r@[j]).0@ == self@[j].0 && r@[j].1 == self@[j].1,
            decreases self.entries@.len() - k,
        {
            let id_copy = slice_to_vec(self.entries[k].id.as_slice());
            r.push((id_copy, self.entries[k].session));
            k = k + 1;
        }
        r
    }
}

} // verus!
