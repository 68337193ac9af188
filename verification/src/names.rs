//! Username reservation keyed by identity.
//!
//! A display name is normalized (trimmed, lowercased, with `I` mapped to
//! `l`) and the normalized form owns one slot in a global map. Each identity
//! keeps a most-recent-first list of at most `max_reserved` normalized names;
//! claiming a new one when the list is full evicts the oldest, releasing its
//! slot when that slot still belongs to the same identity.

use std::collections::VecDeque;
use vstd::prelude::*;

use crate::userid::UserId;
use crate::util::{chars_vec, trim, trim_chars};

verus! {

/// Why a claim failed.
#[derive(Debug, Clone, Copy, PartialEq, Eq, Structural)]
pub enum NameClaimError {
    Invalid,
    Taken,
}

impl NameClaimError {
    /// The close reason shown to the client.
    pub fn message(&self) -> (r: &'static str)
        ensures
            *self == NameClaimError::Invalid ==> r@ == "Username invalid"@,
            *self == NameClaimError::Taken ==> r@ == "Username taken"@,
    {
        match self {
            NameClaimError::Invalid => "Username invalid",
            NameClaimError::Taken => "Username taken",
        }
    }
}

/// A valid name character: ASCII, not a control character, not `'@'`.
pub open spec fn valid_name_char(c: char) -> bool {
    &&& (c as int) < 0x80
    &&& (c as int) >= 0x20
    &&& (c as int) != 0x7F
    &&& c != '@'
}

/// How one (valid, hence ASCII) character is normalized: `'I'` becomes
/// `'l'`, uppercase becomes lowercase, the rest stay.
pub open spec fn norm_char_byte(c: char) -> u8 {
    if c == 'I' {
        0x6C
    } else if 'A' <= c && c <= 'Z' {
        (c as int + 32) as u8
    } else {
        c as u8
    }
}

/// Normalizes a display name: trim, then require 2 to 20 bytes of valid
/// characters, then map each character through `norm_char_byte`. `None`
/// means the name is invalid.
pub open spec fn normalize(name: Seq<char>) -> Option<Seq<u8>> {
    let t = trim(name);
    if vstd::utf8::encode_utf8(t).len() < 2 || vstd::utf8::encode_utf8(t).len() > 20 {
        None
    } else if exists|i: int| 0 <= i < t.len() && !valid_name_char(#[trigger] t[i]) {
        None
    } else {
        Some(Seq::new(t.len(), |i: int| norm_char_byte(t[i])))
    }
}

/// The proof a session holds a name lease; carries the display form.
pub struct ClaimedName {
    name: String,
}

impl View for ClaimedName {
    type V = Seq<char>;

    closed spec fn view(&self) -> Seq<char> {
        self.name@
    }
}

impl ClaimedName {
    pub fn as_str(&self) -> (r: &str)
        ensures
            r@ == self@,
    {
        self.name.as_str()
    }

    pub fn into_string(self) -> (r: String)
        ensures
            r@ == self@,
    {
        self.name
    }
}

/// One slot in the global name map: the canonical display form and the
/// owning identity.
struct NameSlot {
    name: String,
    owner: UserId,
}

/// The slot lookup a sequence of entries denotes; the last entry with the
/// key wins (entries are unique under `wf`).
spec fn lookup_slot(s: Seq<(Vec<u8>, NameSlot)>, k: Seq<u8>) -> Option<(Seq<char>, UserId)>
    decreases s.len(),
{
    if s.len() == 0 {
        None
    } else if s.last().0@ == k {
        Some((s.last().1.name@, s.last().1.owner))
    } else {
        lookup_slot(s.drop_last(), k)
    }
}

/// The views of a sequence of byte vectors.
pub open spec fn views_of(s: Seq<Vec<u8>>) -> Seq<Seq<u8>> {
    s.map_values(|v: Vec<u8>| v@)
}

/// The claim-list lookup a sequence of entries denotes.
spec fn lookup_claims(s: Seq<(UserId, VecDeque<Vec<u8>>)>, uid: UserId) -> Option<Seq<Seq<u8>>>
    decreases s.len(),
{
    if s.len() == 0 {
        None
    } else if s.last().0 == uid {
        Some(views_of(s.last().1@))
    } else {
        lookup_claims(s.drop_last(), uid)
    }
}

spec fn names_keys_unique(s: Seq<(Vec<u8>, NameSlot)>) -> bool {
    forall|i: int, j: int| 0 <= i < j < s.len() ==> (#[trigger] s[i]).0@ != (#[trigger] s[j]).0@
}

spec fn claims_keys_unique(s: Seq<(UserId, VecDeque<Vec<u8>>)>) -> bool {
    forall|i: int, j: int| 0 <= i < j < s.len() ==> (#[trigger] s[i]).0 != (#[trigger] s[j]).0
}

/// The claim list after one claim of `n`: already-front lists stay; others
/// get `n` prepended, dropping the oldest entry when over `max`.
pub open spec fn lru_updated(q: Seq<Seq<u8>>, n: Seq<u8>, max: int) -> Seq<Seq<u8>> {
    if q.len() > 0 && q[0] == n {
        q
    } else {
        let q1 = seq![n] + q;
        if q1.len() <= max {
            q1
        } else {
            q1.drop_last()
        }
    }
}

/// The entry a claim of `n` pushes out of the claim list, if any.
pub open spec fn lru_evicted(q: Seq<Seq<u8>>, n: Seq<u8>, max: int) -> Option<Seq<u8>> {
    if q.len() > 0 && q[0] == n {
        None
    } else {
        let q1 = seq![n] + q;
        if q1.len() <= max {
            None
        } else {
            Some(q1.last())
        }
    }
}

/// Settings for the username manager.
#[derive(Debug, Clone, Copy, PartialEq, Eq, Structural)]
pub struct NameConfig {
    pub max_reserved_names: u16,
}

/// Claim/normalize usernames with a per-identity LRU of reserved names.
pub struct UsernameManager {
    max_reserved: u16,
    names: Vec<(Vec<u8>, NameSlot)>,
    claims: Vec<(UserId, VecDeque<Vec<u8>>)>,
}

impl UsernameManager {
    pub closed spec fn spec_max_reserved(&self) -> u16 {
        self.max_reserved
    }

    /// The canonical display form and owner of a normalized name, if the
    /// name is reserved.
    pub closed spec fn name_slot(&self, k: Seq<u8>) -> Option<(Seq<char>, UserId)> {
        lookup_slot(self.names@, k)
    }

    /// The owner of a normalized name, if the name is reserved.
    pub open spec fn name_owner(&self, k: Seq<u8>) -> Option<UserId> {
        match self.name_slot(k) {
            Some(p) => Some(p.1),
            None => None,
        }
    }

    /// The normalized names an identity has reserved, most recent first.
    pub closed spec fn claim_list(&self, uid: UserId) -> Option<Seq<Seq<u8>>> {
        lookup_claims(self.claims@, uid)
    }

    /// Internal invariant: both maps have unique keys, and no claim list is
    /// longer than `max_reserved`.
    pub closed spec fn wf(&self) -> bool {
        &&& names_keys_unique(self.names@)
        &&& claims_keys_unique(self.claims@)
        &&& forall|i: int| 0 <= i < self.claims@.len() ==> (#[trigger] self.claims@[i]).1@.len()
            <= self.max_reserved
    }

    pub fn new(max_reserved: u16) -> (r: Self)
        ensures
            r.wf(),
            r.spec_max_reserved() == max_reserved,
            forall|k: Seq<u8>| r.name_slot(k) is None,
            forall|uid: UserId| r.claim_list(uid) is None,
    {
        UsernameManager { max_reserved, names: Vec::new(), claims: Vec::new() }
    }

    /// Claims `name` for `user_id`.
    ///
    /// Fails with `Invalid` exactly when the name does not normalize, and
    /// with `Taken` exactly when another identity owns the normalized name.
    /// On success the slot holds the new display form under `user_id`, the
    /// identity's claim list is updated most-recent-first within
    /// `max_reserved` entries, and the evicted name's slot (if one is
    /// evicted, still this identity's, and different from the one claimed)
    /// is released. Nothing else changes.
    pub fn claim_name(&mut self, name: &str, user_id: UserId) -> (r: Result<
        ClaimedName,
        NameClaimError,
    >)
        requires
            old(self).wf(),
        ensures
            final(self).wf(),
            final(self).spec_max_reserved() == old(self).spec_max_reserved(),
            r is Err ==> *final(self) == *old(self),
            (r == Err::<ClaimedName, NameClaimError>(NameClaimError::Invalid)) <==> normalize(
                name@,
            ) is None,
            normalize(name@) matches Some(n) ==> ({
                let taken = final(self).claim_outcome_taken(n, user_id, *old(self));
                &&& ((r == Err::<ClaimedName, NameClaimError>(NameClaimError::Taken)) <==> taken)
                &&& (!taken ==> final(self).claim_outcome_ok(n, name@, user_id, *old(self), r))
            }),
    {
        let norm = match Self::normalize_name(name) {
            Some(n) => n,
            None => {
                return Err(NameClaimError::Invalid);
            },
        };
        let ghost n = norm@;
        let ghost pre = *self;

        // Slot entry: insert, refresh, or refuse.
        match self.find_name(&norm) {
            None => {
                proof {
                    lemma_lookup_slot_absent(self.names@, n);
                }
                let key = clone_bytes(&norm);
                self.names.push((key, NameSlot { name: name.to_owned(), owner: user_id }));
                proof {
                    assert(self.names@ =~= pre.names@.push(self.names@.last()));
                    lemma_push_slot(pre.names@, self.names@.last(), n);
                    assert forall|a: int, b: int| 0 <= a < b < self.names@.len() implies (
                    #[trigger] self.names@[a]).0@ != (#[trigger] self.names@[b]).0@ by {
                        if b < self.names@.len() - 1 {
                            assert(pre.names@[a].0@ != pre.names@[b].0@);
                        } else {
                            assert(pre.names@[a].0@ != n);
                        }
                    }
                }
            },
            Some(i) => {
                proof {
                    lemma_lookup_slot_present(self.names@, n, i as int);
                }
                let owner_matches = {
                    let slot_owner = &self.names[i].1.owner;
                    *slot_owner == user_id
                };
                if !owner_matches {
                    return Err(NameClaimError::Taken);
                }
                let key = clone_bytes(&norm);
                self.names[i] = (key, NameSlot { name: name.to_owned(), owner: user_id });
                proof {
                    assert(self.names@ =~= pre.names@.update(i as int, self.names@[i as int]));
                    lemma_update_slot(pre.names@, self.names@, i as int, n);
                }
            },
        }
        let ghost after_slot = self.names@;
        proof {
            assert(names_keys_unique(after_slot));
            assert(lookup_slot(after_slot, n) == Some((name@, user_id)));
            assert(forall|k: Seq<u8>|
                k != n ==> lookup_slot(after_slot, k) == lookup_slot(pre.names@, k));
        }

        // Claim list: find or create the identity's entry.
        let ci = match self.find_claims(&user_id) {
            Some(ci) => ci,
            None => {
                proof {
                    lemma_lookup_claims_absent(self.claims@, user_id);
                }
                let ghost before = self.claims@;
                let at = self.claims.len();
                self.claims.push((user_id, VecDeque::new()));
                proof {
                    assert(self.claims@ =~= before.push(self.claims@.last()));
                    lemma_push_claims(before, self.claims@.last(), user_id);
                    assert(views_of(self.claims@.last().1@) =~= Seq::<Seq<u8>>::empty());
                    assert forall|a: int, b: int| 0 <= a < b < self.claims@.len() implies (
                    #[trigger] self.claims@[a]).0 != (#[trigger] self.claims@[b]).0 by {
                        if b < self.claims@.len() - 1 {
                            assert(before[a].0 != before[b].0);
                        } else {
                            assert(before[a].0 != user_id);
                        }
                    }
                }
                at
            },
        };
        proof {
            lemma_lookup_claims_present(self.claims@, user_id, ci as int);
        }
        let ghost old_q = views_of(self.claims@[ci as int].1@);
        let ghost claims_mid = self.claims@;
        let ghost max = pre.spec_max_reserved() as int;
        proof {
            assert(claims_keys_unique(claims_mid));
            assert(lookup_claims(claims_mid, user_id) == Some(old_q));
            assert(old_q.len() <= max);
            assert(match pre.claim_list(user_id) {
                Some(q) => q == old_q,
                None => old_q =~= Seq::<Seq<u8>>::empty(),
            });
        }

        let is_front = {
            let q = &self.claims[ci].1;
            if q.len() > 0 {
                let front: &Vec<u8> = &q[0];
                bytes_eq(front, &norm)
            } else {
                false
            }
        };
        proof {
            assert(is_front == (old_q.len() > 0 && old_q[0] == n)) by {
                if old_q.len() > 0 {
                    assert(old_q[0] == claims_mid[ci as int].1@[0]@);
                }
            }
        }
        let mut victim_opt: Option<Vec<u8>> = None;
        if !is_front {
            let key = clone_bytes(&norm);
            let max_res = self.max_reserved as usize;
            let entry = &mut self.claims[ci];
            entry.1.push_front(key);
            proof {
                assert(views_of(entry.1@) =~= seq![n] + old_q);
            }
            if entry.1.len() > max_res {
                victim_opt = entry.1.pop_back();
                proof {
                    assert(views_of(entry.1@) =~= (seq![n] + old_q).drop_last());
                    assert(victim_opt matches Some(v) && v@ == (seq![n] + old_q).last());
                }
            }
        }
        proof {
            let q1 = seq![n] + old_q;
            if is_front {
                assert(self.claims@ =~= claims_mid);
                assert(lru_updated(old_q, n, max) == old_q);
                assert(lru_evicted(old_q, n, max) is None);
                assert(victim_opt is None);
            } else {
                assert(self.claims@ =~= claims_mid.update(
                    ci as int,
                    self.claims@[ci as int],
                ));
                assert(self.claims@[ci as int].0 == user_id);
                lemma_update_claims(claims_mid, self.claims@, ci as int, user_id);
                if q1.len() <= max {
                    assert(victim_opt is None);
                    assert(views_of(self.claims@[ci as int].1@) =~= q1);
                    assert(lru_updated(old_q, n, max) == q1);
                    assert(lru_evicted(old_q, n, max) is None);
                } else {
                    assert(victim_opt matches Some(v) && v@ == q1.last());
                    assert(views_of(self.claims@[ci as int].1@) =~= q1.drop_last());
                    assert(lru_updated(old_q, n, max) == q1.drop_last());
                    assert(lru_evicted(old_q, n, max) == Some(q1.last()));
                }
            }
            assert(lookup_claims(self.claims@, user_id) == Some(lru_updated(old_q, n, max)));
            assert(forall|u2: UserId|
                u2 != user_id ==> lookup_claims(self.claims@, u2) == lookup_claims(
                    pre.claims@,
                    u2,
                ));
            assert forall|i: int| 0 <= i < self.claims@.len() implies (
            #[trigger] self.claims@[i]).1@.len() <= self.max_reserved by {
                if i == ci as int {
                    assert(views_of(self.claims@[i].1@).len() == self.claims@[i].1@.len());
                    assert(lru_updated(old_q, n, max).len() <= max);
                } else {
                    assert(self.claims@[i] == claims_mid[i]);
                }
            }
        }

        // Release the evicted slot when it is still this identity's and is
        // not the name just claimed.
        let evict = match victim_opt {
            Some(victim) => {
                if !bytes_eq(&victim, &norm) {
                    Some(victim)
                } else {
                    None
                }
            },
            None => None,
        };
        match evict {
            Some(victim) => {
                match self.find_name(&victim) {
                    Some(j) => {
                        let slot_owner = &self.names[j].1.owner;
                        proof {
                            lemma_lookup_slot_present(self.names@, victim@, j as int);
                        }
                        if *slot_owner == user_id {
                            self.names.remove(j);
                            proof {
                                assert(self.names@ =~= after_slot.remove(j as int));
                                lemma_remove_slot(after_slot, self.names@, j as int, victim@);
                            }
                        }
                    },
                    None => {
                        proof {
                            lemma_lookup_slot_absent(self.names@, victim@);
                        }
                    },
                }
            },
            None => {},
        }
        proof {
            let removed = match lru_evicted(old_q, n, max) {
                Some(v) => if v != n && pre.name_owner(v) == Some(user_id) {
                    Some(v)
                } else {
                    None
                },
                None => None,
            };
            match removed {
                Some(v) => {
                    assert(v != n);
                    assert(lookup_slot(after_slot, v) == lookup_slot(pre.names@, v));
                    assert(lookup_slot(self.names@, v) is None);
                },
                None => {
                    assert(self.names@ =~= after_slot);
                },
            }
            assert(lookup_slot(self.names@, n) == Some((name@, user_id)));
            assert forall|k: Seq<u8>| k != n && Some(k) != removed implies
                lookup_slot(self.names@, k) == lookup_slot(pre.names@, k) by {
                assert(lookup_slot(after_slot, k) == lookup_slot(pre.names@, k));
            }
        }
        Ok(ClaimedName { name: name.to_owned() })
    }

    /// What `Taken` means: the slot exists under another identity.
    pub open spec fn claim_outcome_taken(&self, n: Seq<u8>, uid: UserId, pre: Self) -> bool {
        pre.name_owner(n) matches Some(o) && o != uid
    }

    /// What a successful claim guarantees, relating the new state to the
    /// old one.
    pub open spec fn claim_outcome_ok(
        &self,
        n: Seq<u8>,
        display: Seq<char>,
        uid: UserId,
        pre: Self,
        r: Result<ClaimedName, NameClaimError>,
    ) -> bool {
        let old_q = match pre.claim_list(uid) {
            Some(q) => q,
            None => Seq::empty(),
        };
        let max = pre.spec_max_reserved() as int;
        let removed = match lru_evicted(old_q, n, max) {
            Some(v) => if v != n && pre.name_owner(v) == Some(uid) {
                Some(v)
            } else {
                None
            },
            None => None,
        };
        &&& (r matches Ok(c) && c@ == display)
        &&& self.name_slot(n) == Some((display, uid))
        &&& self.claim_list(uid) == Some(lru_updated(old_q, n, max))
        &&& (removed matches Some(v) ==> self.name_slot(v) is None)
        &&& forall|k: Seq<u8>|
            k != n && Some(k) != removed ==> self.name_slot(k) == pre.name_slot(k)
        &&& forall|uid2: UserId| uid2 != uid ==> self.claim_list(uid2) == pre.claim_list(uid2)
    }

    /// Scans the slot map for a normalized name.
    fn find_name(&self, key: &Vec<u8>) -> (r: Option<usize>)
        ensures
            r matches Some(i) ==> i < self.names@.len() && self.names@[i as int].0@ == key@,
            r is None ==> forall|i: int|
                0 <= i < self.names@.len() ==> (#[trigger] self.names@[i]).0@ != key@,
    {
        let n = self.names.len();
        let mut i: usize = 0;
        while i < n
            invariant
                n == self.names@.len(),
                i <= n,
                forall|j: int| 0 <= j < i ==> (#[trigger] self.names@[j]).0@ != key@,
            decreases n - i,
        {
            let entry_key = &self.names[i].0;
            if bytes_eq(entry_key, key) {
                return Some(i);
            }
            i = i + 1;
        }
        None
    }

    /// Scans the claim map for an identity.
    fn find_claims(&self, uid: &UserId) -> (r: Option<usize>)
        ensures
            r matches Some(i) ==> i < self.claims@.len() && self.claims@[i as int].0 == *uid,
            r is None ==> forall|i: int|
                0 <= i < self.claims@.len() ==> (#[trigger] self.claims@[i]).0 != *uid,
    {
        let n = self.claims.len();
        let mut i: usize = 0;
        while i < n
            invariant
                n == self.claims@.len(),
                i <= n,
                forall|j: int| 0 <= j < i ==> (#[trigger] self.claims@[j]).0 != *uid,
            decreases n - i,
        {
            let entry_key = &self.claims[i].0;
            if *entry_key == *uid {
                return Some(i);
            }
            i = i + 1;
        }
        None
    }

    /// Validates and normalizes a display name.
    fn normalize_name(name: &str) -> (r: Option<Vec<u8>>)
        ensures
            match r {
                Some(v) => normalize(name@) == Some(v@),
                None => normalize(name@) is None,
            },
    {
        let chars = chars_vec(name);
        let t = trim_chars(&chars);
        let tn = t.len();
        let mut out: Vec<u8> = Vec::new();
        let mut i: usize = 0;
        while i < tn
            invariant
                tn == t@.len(),
                t@ =~= trim(name@),
                i <= tn,
                out@.len() == i,
                forall|j: int| 0 <= j < i ==> valid_name_char(#[trigger] t@[j]),
                forall|j: int| 0 <= j < i ==> #[trigger] out@[j] == norm_char_byte(t@[j]),
            decreases tn - i,
        {
            let c = t[i];
            if !(c >= '\u{20}' && c < '\u{7f}' && c != '@') {
                proof {
                    assert(!valid_name_char(t@[i as int]));
                }
                return None;
            }
            if c == 'I' {
                out.push(0x6C);
            } else if c >= 'A' && c <= 'Z' {
                let b = c as u8;
                out.push(b + 32);
            } else {
                out.push(c as u8);
            }
            i = i + 1;
        }
        proof {
            assert(vstd::utf8::is_ascii_chars(t@));
            vstd::utf8::is_ascii_chars_encode_utf8(t@);
        }
        if tn < 2 || tn > 20 {
            return None;
        }
        proof {
            assert(out@ =~= Seq::new(trim(name@).len(), |j: int| norm_char_byte(trim(name@)[j])));
        }
        Some(out)
    }
}

/// Each normalized name in the global map is owned by exactly one identity
/// at any instant: the owner lookup is a function of the manager's state,
/// so two owners of the same name coincide.
pub proof fn lemma_one_owner_per_name(m: &UsernameManager, k: Seq<u8>, o1: UserId, o2: UserId)
    requires
        m.name_owner(k) == Some(o1),
        m.name_owner(k) == Some(o2),
    ensures
        o1 == o2,
{
}

/// No identity ever holds more reserved names than `max_reserved`.
pub proof fn lemma_claims_bounded(m: &UsernameManager, uid: UserId)
    requires
        m.wf(),
    ensures
        m.claim_list(uid) matches Some(q) ==> q.len() <= m.spec_max_reserved(),
{
    lemma_lookup_claims_len(m.claims@, uid, m.spec_max_reserved() as int);
}

proof fn lemma_lookup_claims_len(s: Seq<(UserId, VecDeque<Vec<u8>>)>, uid: UserId, max: int)
    requires
        forall|i: int| 0 <= i < s.len() ==> (#[trigger] s[i]).1@.len() <= max,
    ensures
        lookup_claims(s, uid) matches Some(q) ==> q.len() <= max,
    decreases s.len(),
{
    if s.len() > 0 {
        if s.last().0 == uid {
            assert(views_of(s.last().1@).len() == s.last().1@.len());
        } else {
            lemma_lookup_claims_len(s.drop_last(), uid, max);
        }
    }
}

/// Compares two byte vectors by contents.
fn bytes_eq(a: &Vec<u8>, b: &Vec<u8>) -> (r: bool)
    ensures
        r == (a@ == b@),
{
    let n = a.len();
    if n != b.len() {
        proof {
            assert(a@ != b@);
        }
        return false;
    }
    let mut i: usize = 0;
    while i < n
        invariant
            n == a@.len() == b@.len(),
            i <= n,
            forall|j: int| 0 <= j < i ==> a@[j] == b@[j],
        decreases n - i,
    {
        if a[i] != b[i] {
            proof {
                assert(a@[i as int] != b@[i as int]);
            }
            return false;
        }
        i = i + 1;
    }
    proof {
        assert(a@ =~= b@);
    }
    true
}

/// Copies a byte vector.
fn clone_bytes(v: &Vec<u8>) -> (r: Vec<u8>)
    ensures
        r@ =~= v@,
{
    let n = v.len();
    let mut r: Vec<u8> = Vec::new();
    let mut i: usize = 0;
    while i < n
        invariant
            n == v@.len(),
            i <= n,
            r@ =~= v@.take(i as int),
        decreases n - i,
    {
        r.push(v[i]);
        i = i + 1;
    }
    proof {
        assert(v@.take(n as int) =~= v@);
    }
    r
}

proof fn lemma_lookup_slot_present(s: Seq<(Vec<u8>, NameSlot)>, k: Seq<u8>, i: int)
    requires
        names_keys_unique(s),
        0 <= i < s.len(),
        s[i].0@ == k,
    ensures
        lookup_slot(s, k) == Some((s[i].1.name@, s[i].1.owner)),
    decreases s.len(),
{
    if i == s.len() - 1 {
    } else {
        assert(s.last().0@ != k);
        assert(s.drop_last()[i] == s[i]);
        lemma_lookup_slot_present(s.drop_last(), k, i);
    }
}

proof fn lemma_lookup_slot_absent(s: Seq<(Vec<u8>, NameSlot)>, k: Seq<u8>)
    requires
        forall|i: int| 0 <= i < s.len() ==> (#[trigger] s[i]).0@ != k,
    ensures
        lookup_slot(s, k) is None,
    decreases s.len(),
{
    if s.len() > 0 {
        lemma_lookup_slot_absent(s.drop_last(), k);
    }
}

/// Pushing a fresh key appends it to the denoted map and leaves the rest.
proof fn lemma_push_slot(s: Seq<(Vec<u8>, NameSlot)>, entry: (Vec<u8>, NameSlot), k: Seq<u8>)
    requires
        entry.0@ == k,
    ensures
        lookup_slot(s.push(entry), k) == Some((entry.1.name@, entry.1.owner)),
        forall|k2: Seq<u8>| k2 != k ==> lookup_slot(s.push(entry), k2) == lookup_slot(s, k2),
{
    assert(s.push(entry).last() == entry);
    assert(s.push(entry).drop_last() =~= s);
}

/// Updating an entry in place, keeping its key, rewrites that key's slot
/// and leaves the rest.
proof fn lemma_update_slot(s: Seq<(Vec<u8>, NameSlot)>, s2: Seq<(Vec<u8>, NameSlot)>, i: int, k: Seq<u8>)
    requires
        names_keys_unique(s),
        0 <= i < s.len(),
        s[i].0@ == k,
        s2 =~= s.update(i, s2[i]),
        s2[i].0@ == k,
    ensures
        names_keys_unique(s2),
        lookup_slot(s2, k) == Some((s2[i].1.name@, s2[i].1.owner)),
        forall|k2: Seq<u8>| k2 != k ==> lookup_slot(s2, k2) == lookup_slot(s, k2),
{
    assert forall|a: int, b: int| 0 <= a < b < s2.len() implies (#[trigger] s2[a]).0@ != (
    #[trigger] s2[b]).0@ by {
        assert(s[a].0@ != s[b].0@);
        if a != i && b != i {
            assert(s2[a] == s[a] && s2[b] == s[b]);
        } else if a == i {
            assert(s2[b] == s[b]);
            assert(s[b].0@ != k);
        } else {
            assert(s2[a] == s[a]);
            assert(s[a].0@ != k);
        }
    }
    lemma_lookup_slot_present(s2, k, i);
    assert forall|k2: Seq<u8>| k2 != k implies lookup_slot(s2, k2) == lookup_slot(s, k2) by {
        lemma_lookup_unaffected(s, s2, i, k2);
    }
}

/// Two entry lists equal except at one index whose key differs from `k2`
/// denote the same lookup at `k2`.
proof fn lemma_lookup_unaffected(
    s: Seq<(Vec<u8>, NameSlot)>,
    s2: Seq<(Vec<u8>, NameSlot)>,
    i: int,
    k2: Seq<u8>,
)
    requires
        s.len() == s2.len(),
        0 <= i < s.len(),
        forall|j: int| 0 <= j < s.len() && j != i ==> #[trigger] s2[j] == s[j],
        s[i].0@ != k2,
        s2[i].0@ != k2,
    ensures
        lookup_slot(s2, k2) == lookup_slot(s, k2),
    decreases s.len(),
{
    if s.len() > 0 {
        if i == s.len() - 1 {
            assert(s.last().0@ != k2 && s2.last().0@ != k2);
            assert(s2.drop_last() =~= s.drop_last());
        } else {
            assert(s2.last() == s.last());
            if s.last().0@ == k2 {
            } else {
                assert forall|j: int|
                    0 <= j < s.drop_last().len() && j != i implies #[trigger] s2.drop_last()[j]
                    == s.drop_last()[j] by {
                    assert(s2.drop_last()[j] == s2[j]);
                }
                lemma_lookup_unaffected(s.drop_last(), s2.drop_last(), i, k2);
            }
        }
    }
}

/// Removing an entry deletes its key from the denoted map and leaves the
/// rest.
proof fn lemma_remove_slot(s: Seq<(Vec<u8>, NameSlot)>, s2: Seq<(Vec<u8>, NameSlot)>, i: int, k: Seq<u8>)
    requires
        names_keys_unique(s),
        0 <= i < s.len(),
        s[i].0@ == k,
        s2 =~= s.remove(i),
    ensures
        names_keys_unique(s2),
        lookup_slot(s2, k) is None,
        forall|k2: Seq<u8>| k2 != k ==> lookup_slot(s2, k2) == lookup_slot(s, k2),
{
    assert forall|a: int, b: int| 0 <= a < b < s2.len() implies (#[trigger] s2[a]).0@ != (
    #[trigger] s2[b]).0@ by {
        let a0 = if a < i {
            a
        } else {
            a + 1
        };
        let b0 = if b < i {
            b
        } else {
            b + 1
        };
        assert(s2[a] == s[a0] && s2[b] == s[b0]);
        assert(s[a0].0@ != s[b0].0@);
    }
    assert forall|j: int| 0 <= j < s2.len() implies (#[trigger] s2[j]).0@ != k by {
        let j0 = if j < i {
            j
        } else {
            j + 1
        };
        assert(s2[j] == s[j0]);
        assert(j0 != i);
        assert(s[j0].0@ != s[i].0@);
    }
    lemma_lookup_slot_absent(s2, k);
    assert forall|k2: Seq<u8>| k2 != k implies lookup_slot(s2, k2) == lookup_slot(s, k2) by {
        lemma_lookup_remove_unaffected(s, i, k2);
        assert(lookup_slot(s.remove(i), k2) == lookup_slot(s, k2));
    }
}

proof fn lemma_lookup_remove_unaffected(s: Seq<(Vec<u8>, NameSlot)>, i: int, k2: Seq<u8>)
    requires
        0 <= i < s.len(),
        s[i].0@ != k2,
    ensures
        lookup_slot(s.remove(i), k2) == lookup_slot(s, k2),
    decreases s.len(),
{
    if i == s.len() - 1 {
        assert(s.remove(i) =~= s.drop_last());
    } else {
        assert(s.remove(i).last() == s.last());
        assert(s.remove(i).drop_last() =~= s.drop_last().remove(i));
        if s.last().0@ == k2 {
        } else {
            lemma_lookup_remove_unaffected(s.drop_last(), i, k2);
        }
    }
}

proof fn lemma_lookup_claims_present(s: Seq<(UserId, VecDeque<Vec<u8>>)>, uid: UserId, i: int)
    requires
        claims_keys_unique(s),
        0 <= i < s.len(),
        s[i].0 == uid,
    ensures
        lookup_claims(s, uid) == Some(views_of(s[i].1@)),
    decreases s.len(),
{
    if i == s.len() - 1 {
    } else {
        assert(s.last().0 != uid);
        assert(s.drop_last()[i] == s[i]);
        lemma_lookup_claims_present(s.drop_last(), uid, i);
    }
}

proof fn lemma_lookup_claims_absent(s: Seq<(UserId, VecDeque<Vec<u8>>)>, uid: UserId)
    requires
        forall|i: int| 0 <= i < s.len() ==> (#[trigger] s[i]).0 != uid,
    ensures
        lookup_claims(s, uid) is None,
    decreases s.len(),
{
    if s.len() > 0 {
        lemma_lookup_claims_absent(s.drop_last(), uid);
    }
}

/// Updating a claims entry in place, keeping its key, rewrites that key's
/// list and leaves the rest.
proof fn lemma_update_claims(
    s: Seq<(UserId, VecDeque<Vec<u8>>)>,
    s2: Seq<(UserId, VecDeque<Vec<u8>>)>,
    i: int,
    uid: UserId,
)
    requires
        claims_keys_unique(s),
        0 <= i < s.len(),
        s[i].0 == uid,
        s2 =~= s.update(i, s2[i]),
        s2[i].0 == uid,
    ensures
        claims_keys_unique(s2),
        lookup_claims(s2, uid) == Some(views_of(s2[i].1@)),
        forall|u2: UserId| u2 != uid ==> lookup_claims(s2, u2) == lookup_claims(s, u2),
{
    assert forall|a: int, b: int| 0 <= a < b < s2.len() implies (#[trigger] s2[a]).0 != (
    #[trigger] s2[b]).0 by {
        assert(s[a].0 != s[b].0);
        if a != i && b != i {
            assert(s2[a] == s[a] && s2[b] == s[b]);
        } else if a == i {
            assert(s2[b] == s[b]);
        } else {
            assert(s2[a] == s[a]);
        }
    }
    lemma_lookup_claims_present(s2, uid, i);
    assert forall|u2: UserId| u2 != uid implies lookup_claims(s2, u2) == lookup_claims(s, u2) by {
        lemma_claims_unaffected(s, s2, i, u2);
    }
}

proof fn lemma_claims_unaffected(
    s: Seq<(UserId, VecDeque<Vec<u8>>)>,
    s2: Seq<(UserId, VecDeque<Vec<u8>>)>,
    i: int,
    u2: UserId,
)
    requires
        s.len() == s2.len(),
        0 <= i < s.len(),
        forall|j: int| 0 <= j < s.len() && j != i ==> #[trigger] s2[j] == s[j],
        s[i].0 != u2,
        s2[i].0 != u2,
    ensures
        lookup_claims(s2, u2) == lookup_claims(s, u2),
    decreases s.len(),
{
    if s.len() > 0 {
        if i == s.len() - 1 {
            assert(s2.drop_last() =~= s.drop_last());
        } else {
            assert(s2.last() == s.last());
            if s.last().0 == u2 {
            } else {
                assert forall|j: int|
                    0 <= j < s.drop_last().len() && j != i implies #[trigger] s2.drop_last()[j]
                    == s.drop_last()[j] by {
                    assert(s2.drop_last()[j] == s2[j]);
                }
                lemma_claims_unaffected(s.drop_last(), s2.drop_last(), i, u2);
            }
        }
    }
}

proof fn lemma_push_claims(
    s: Seq<(UserId, VecDeque<Vec<u8>>)>,
    entry: (UserId, VecDeque<Vec<u8>>),
    uid: UserId,
)
    requires
        entry.0 == uid,
    ensures
        lookup_claims(s.push(entry), uid) == Some(views_of(entry.1@)),
        forall|u2: UserId| u2 != uid ==> lookup_claims(s.push(entry), u2) == lookup_claims(s, u2),
{
    assert(s.push(entry).last() == entry);
    assert(s.push(entry).drop_last() =~= s);
}

} // verus!
