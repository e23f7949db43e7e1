//! The keyring: an ordered set of symmetric secrets with a designated
//! primary key.
//!
//! The primary key encrypts outbound messages and is tried first when
//! decrypting; the remaining keys are tried in insertion order. The
//! secondary keys live in an insertion-ordered set of the `indexmap`
//! crate, reached through a small trusted surface below.

use vstd::prelude::*;

use crate::secret::{SecretKey, SecretKeyringError};

verus! {

#[verifier::external_type_specification]
#[verifier::external_body]
#[verifier::reject_recursive_types(T)]
#[verifier::reject_recursive_types(S)]
pub struct ExIndexSet<T, S>(indexmap::IndexSet<T, S>);

/// The elements the set holds, in their insertion order.
pub uninterp spec fn key_set_seq(s: indexmap::IndexSet<SecretKey>) -> Seq<SecretKey>;

/// Relies on indexmap::IndexSet::new: creates an empty set.
#[verifier::external_body]
fn key_set_new() -> (r: indexmap::IndexSet<SecretKey>)
    ensures
        key_set_seq(r) == Seq::<SecretKey>::empty(),
{
    indexmap::IndexSet::new()
}

/// Relies on indexmap::IndexSet::insert: appends the value at the end if no
/// equal element is present, otherwise leaves the set unchanged; returns
/// whether the value was newly inserted.
#[verifier::external_body]
fn key_set_insert(s: &mut indexmap::IndexSet<SecretKey>, k: SecretKey) -> (r: bool)
    ensures
        r == !key_set_seq(*old(s)).contains(k),
        key_set_seq(*final(s)) == if key_set_seq(*old(s)).contains(k) {
            key_set_seq(*old(s))
        } else {
            key_set_seq(*old(s)).push(k)
        },
{
    s.insert(k)
}

/// Relies on indexmap::IndexSet::contains: says whether an equal element is
/// in the set.
#[verifier::external_body]
fn key_set_contains(s: &indexmap::IndexSet<SecretKey>, k: &SecretKey) -> (r: bool)
    ensures
        r == key_set_seq(*s).contains(*k),
{
    s.contains(k)
}

/// What is left after removing `k` by a swap with the last element, as
/// `indexmap`'s `swap_remove` does.
pub open spec fn seq_swap_remove(s: Seq<SecretKey>, k: SecretKey) -> Seq<SecretKey> {
    if s.contains(k) {
        s.update(s.index_of(k), s.last()).drop_last()
    } else {
        s
    }
}

/// What is left after removing `k` with the order of the rest preserved, as
/// `indexmap`'s `shift_remove` does.
pub open spec fn seq_shift_remove(s: Seq<SecretKey>, k: SecretKey) -> Seq<SecretKey> {
    if s.contains(k) {
        s.remove(s.index_of(k))
    } else {
        s
    }
}

/// Relies on indexmap::IndexSet::swap_remove: removes the element equal to
/// `k` by swapping it with the last element and popping; returns whether it
/// was present.
#[verifier::external_body]
fn key_set_swap_remove(s: &mut indexmap::IndexSet<SecretKey>, k: &SecretKey) -> (r: bool)
    ensures
        r == key_set_seq(*old(s)).contains(*k),
        key_set_seq(*final(s)) == seq_swap_remove(key_set_seq(*old(s)), *k),
{
    s.swap_remove(k)
}

/// Relies on indexmap::IndexSet::shift_remove: removes the element equal to
/// `k`, shifting the elements after it down; returns whether it was present.
#[verifier::external_body]
fn key_set_shift_remove(s: &mut indexmap::IndexSet<SecretKey>, k: &SecretKey) -> (r: bool)
    ensures
        r == key_set_seq(*old(s)).contains(*k),
        key_set_seq(*final(s)) == seq_shift_remove(key_set_seq(*old(s)), *k),
{
    s.shift_remove(k)
}

/// Relies on indexmap::IndexSet::iter: yields the elements in their order.
#[verifier::external_body]
fn key_set_to_vec(s: &indexmap::IndexSet<SecretKey>) -> (r: Vec<SecretKey>)
    ensures
        r@ == key_set_seq(*s),
{
    s.iter().copied().collect()
}

/// The secondary keys a keyring built from `ks` holds: each key once, in
/// first-appearance order, with the primary key left out.
pub open spec fn spec_with_keys(ks: Seq<SecretKey>, primary: SecretKey) -> Seq<SecretKey>
    decreases ks.len(),
{
    if ks.len() == 0 {
        Seq::empty()
    } else {
        let prev = spec_with_keys(ks.drop_last(), primary);
        if ks.last() == primary || prev.contains(ks.last()) {
            prev
        } else {
            prev.push(ks.last())
        }
    }
}

/// A container for the set of encryption keys. The keyring holds all key
/// data used internally by the membership service.
///
/// If creating a keyring with multiple keys, one key must be designated
/// primary; the primary key is never stored among the secondary keys.
pub struct SecretKeyring {
    primary_key: SecretKey,
    keys: indexmap::IndexSet<SecretKey>,
}

impl SecretKeyring {
    /// The designated primary key.
    pub closed spec fn spec_primary(self) -> SecretKey {
        self.primary_key
    }

    /// The secondary keys, in insertion order.
    pub closed spec fn secondary(self) -> Seq<SecretKey> {
        key_set_seq(self.keys)
    }

    /// Every key on the ring: the primary first, then the secondary keys in
    /// insertion order.
    pub open spec fn key_seq(self) -> Seq<SecretKey> {
        seq![self.spec_primary()] + self.secondary()
    }

    /// No secondary key occurs twice.
    pub open spec fn wf(self) -> bool {
        self.secondary().no_duplicates()
    }

    /// Constructs a keyring holding one primary key and no secondary keys.
    ///
    /// A key is 16, 24, or 32 bytes, selecting AES-128, AES-192 or AES-256.
    pub fn new(primary_key: SecretKey) -> (r: Self)
        ensures
            r.spec_primary() == primary_key,
            r.secondary() == Seq::<SecretKey>::empty(),
            r.wf(),
    {
        SecretKeyring { primary_key, keys: key_set_new() }
    }

    /// Constructs a keyring for a set of keys with `primary_key` designated
    /// primary. Keys equal to the primary, and repeated keys, are dropped;
    /// the rest keep their order.
    pub fn with_keys(primary_key: SecretKey, keys: Vec<SecretKey>) -> (r: Self)
        ensures
            r.spec_primary() == primary_key,
            r.secondary() == spec_with_keys(keys@, primary_key),
            r.wf(),
    {
        let mut set = key_set_new();
        let mut i: usize = 0;
        proof {
            assert(keys@.subrange(0, 0) =~= Seq::<SecretKey>::empty());
        }
        while i < keys.len()
            invariant
                i <= keys@.len(),
                key_set_seq(set) == spec_with_keys(keys@.subrange(0, i as int), primary_key),
                key_set_seq(set).no_duplicates(),
            decreases keys@.len() - i,
        {
            let k = keys[i];
            proof {
                assert(keys@.subrange(0, i + 1).drop_last() =~= keys@.subrange(0, i as int));
                assert(keys@.subrange(0, i + 1).last() == keys@[i as int]);
            }
            if !(k == primary_key) {
                let ghost prev = key_set_seq(set);
                key_set_insert(&mut set, k);
                proof {
                    if !prev.contains(k) {
                        lemma_push_no_duplicates(prev, k);
                    }
                }
            } else {
                proof {
                    crate::secret::lemma_key_view_injective(k, primary_key);
                }
            }
            i = i + 1;
        }
        proof {
            assert(keys@.subrange(0, keys@.len() as int) =~= keys@);
        }
        SecretKeyring { primary_key, keys: set }
    }

    /// Returns the key on the ring at position 0. This is the key used for
    /// encrypting messages, and the first key tried when decrypting.
    pub fn primary_key(&self) -> (r: SecretKey)
        ensures
            r == self.spec_primary(),
    {
        self.primary_key
    }

    /// Drops a key from the keyring. Fails with `RemovePrimaryKey` when the
    /// key asked for is the primary key; otherwise the key, if present,
    /// leaves the ring and the order of the rest is kept.
    pub fn remove(&mut self, key: &SecretKey) -> (r: Result<(), SecretKeyringError>)
        requires
            old(self).wf(),
        ensures
            final(self).wf(),
            r is Err <==> key@ == old(self).spec_primary()@,
            r is Err ==> r == Err::<(), SecretKeyringError>(SecretKeyringError::RemovePrimaryKey)
                && *final(self) == *old(self),
            r is Ok ==> final(self).spec_primary() == old(self).spec_primary()
                && final(self).secondary() == seq_shift_remove(old(self).secondary(), *key),
    {
        if self.primary_key == *key {
            proof {
                crate::secret::lemma_key_view_injective(old(self).spec_primary(), *key);
            }
            return Err(SecretKeyringError::RemovePrimaryKey);
        }
        let ghost prev = key_set_seq(self.keys);
        key_set_shift_remove(&mut self.keys, key);
        proof {
            lemma_shift_remove_no_duplicates(prev, *key);
        }
        Ok(())
    }

    /// Installs a key on the ring, making it available for decryption. A key
    /// already on the ring is left as it is.
    pub fn insert(&mut self, key: SecretKey)
        requires
            old(self).wf(),
        ensures
            final(self).wf(),
            final(self).spec_primary() == old(self).spec_primary(),
            final(self).secondary() == if old(self).secondary().contains(key) {
                old(self).secondary()
            } else {
                old(self).secondary().push(key)
            },
    {
        let ghost prev = key_set_seq(self.keys);
        key_set_insert(&mut self.keys, key);
        proof {
            if !prev.contains(key) {
                lemma_push_no_duplicates(prev, key);
            }
        }
    }

    /// Changes the key used to encrypt messages. The requested key must
    /// already be on the ring; the old primary key moves into the secondary
    /// set and the requested key becomes primary.
    pub fn use_key(&mut self, key_data: &SecretKey) -> (r: Result<(), SecretKeyringError>)
        requires
            old(self).wf(),
        ensures
            final(self).wf(),
            key_data@ == old(self).spec_primary()@ ==> r is Ok && *final(self) == *old(self),
            key_data@ != old(self).spec_primary()@ && !old(self).secondary().contains(*key_data)
                ==> r == Err::<(), SecretKeyringError>(SecretKeyringError::SecretKeyNotFound)
                && *final(self) == *old(self),
            key_data@ != old(self).spec_primary()@ && old(self).secondary().contains(*key_data)
                ==> r is Ok && final(self).spec_primary() == *key_data && final(self).secondary()
                == seq_swap_remove(
                seq_insert(old(self).secondary(), old(self).spec_primary()),
                *key_data,
            ),
    {
        if *key_data == self.primary_key {
            proof {
                crate::secret::lemma_key_view_injective(*key_data, old(self).spec_primary());
            }
            return Ok(());
        }
        if !key_set_contains(&self.keys, key_data) {
            return Err(SecretKeyringError::SecretKeyNotFound);
        }
        let old_pk = self.primary_key;
        let ghost prev = key_set_seq(self.keys);
        key_set_insert(&mut self.keys, old_pk);
        self.primary_key = *key_data;
        let ghost mid = key_set_seq(self.keys);
        key_set_swap_remove(&mut self.keys, key_data);
        proof {
            if !prev.contains(old_pk) {
                lemma_push_no_duplicates(prev, old_pk);
            }
            lemma_swap_remove_no_duplicates(mid, *key_data);
        }
        Ok(())
    }

    /// Returns the current keys on the ring, the primary key first so that
    /// decryption can try it first, then the rest in insertion order.
    pub fn keys(&self) -> (r: Vec<SecretKey>)
        ensures
            r@ == self.key_seq(),
    {
        let mut out: Vec<SecretKey> = Vec::new();
        out.push(self.primary_key);
        let rest = key_set_to_vec(&self.keys);
        crate::wire::vec_extend(&mut out, &rest);
        proof {
            assert(out@ =~= self.key_seq());
        }
        out
    }
}

/// What insertion into an ordered set leaves: the sequence itself when the
/// element is present, the sequence with it appended otherwise.
pub open spec fn seq_insert(s: Seq<SecretKey>, k: SecretKey) -> Seq<SecretKey> {
    if s.contains(k) {
        s
    } else {
        s.push(k)
    }
}

/// Appending a fresh element keeps a sequence duplicate-free.
proof fn lemma_push_no_duplicates(s: Seq<SecretKey>, k: SecretKey)
    requires
        s.no_duplicates(),
        !s.contains(k),
    ensures
        s.push(k).no_duplicates(),
{
    let t = s.push(k);
    assert forall|i: int, j: int| 0 <= i < j < t.len() implies t[i] != t[j] by {
        if j == t.len() - 1 {
            assert(t[j] == k);
            assert(t[i] == s[i]);
            assert(s.contains(s[i]));
        }
    }
}

/// Removing an element with a shift keeps a sequence duplicate-free.
proof fn lemma_shift_remove_no_duplicates(s: Seq<SecretKey>, k: SecretKey)
    requires
        s.no_duplicates(),
    ensures
        seq_shift_remove(s, k).no_duplicates(),
{
    if s.contains(k) {
        let i = s.index_of(k);
        let t = s.remove(i);
        assert forall|p: int, q: int| 0 <= p < q < t.len() implies t[p] != t[q] by {
            let sp = if p < i {
                p
            } else {
                p + 1
            };
            let sq = if q < i {
                q
            } else {
                q + 1
            };
            assert(t[p] == s[sp] && t[q] == s[sq]);
        }
    }
}

/// Removing an element with a swap keeps a sequence duplicate-free.
proof fn lemma_swap_remove_no_duplicates(s: Seq<SecretKey>, k: SecretKey)
    requires
        s.no_duplicates(),
    ensures
        seq_swap_remove(s, k).no_duplicates(),
{
    if s.contains(k) {
        let i = s.index_of(k);
        let t = s.update(i, s.last()).drop_last();
        assert forall|p: int, q: int| 0 <= p < q < t.len() implies t[p] != t[q] by {
            if p == i {
                assert(t[p] == s[s.len() - 1]);
                assert(t[q] == s[q]);
            } else if q == i {
                assert(t[q] == s[s.len() - 1]);
                assert(t[p] == s[p]);
            } else {
                assert(t[p] == s[p] && t[q] == s[q]);
            }
        }
    }
}

/// Rotating the primary key loses no key: when `use_key` succeeds for a
/// secondary key `k` of a ring with primary `p` and secondary keys `s`, the
/// keys on the ring afterwards are exactly the keys on the ring before.
pub proof fn lemma_rotate_keeps_keys(s: Seq<SecretKey>, p: SecretKey, k: SecretKey)
    requires
        s.no_duplicates(),
        s.contains(k),
        k != p,
    ensures
        forall|x: SecretKey|
            (seq![k] + seq_swap_remove(seq_insert(s, p), k)).contains(x) <==> (seq![p]
                + s).contains(x),
{
    let t = seq_insert(s, p);
    if !s.contains(p) {
        lemma_push_no_duplicates(s, p);
    }
    assert(t.no_duplicates());
    assert(t.contains(k)) by {
        let j = choose|j: int| 0 <= j < s.len() && s[j] == k;
        assert(t[j] == k);
    }
    let i = t.index_of(k);
    let u = t.update(i, t.last()).drop_last();
    assert(seq_swap_remove(t, k) == u);
    let lhs = seq![k] + u;
    let rhs = seq![p] + s;
    assert forall|x: SecretKey| lhs.contains(x) implies rhs.contains(x) by {
        let j = choose|j: int| 0 <= j < lhs.len() && lhs[j] == x;
        if j == 0 {
            let m = choose|m: int| 0 <= m < s.len() && s[m] == k;
            assert(rhs[m + 1] == k);
        } else {
            let uj = j - 1;
            let tj = if uj == i {
                t.len() - 1
            } else {
                uj
            };
            assert(t[tj] == x);
            if tj < s.len() {
                assert(rhs[tj + 1] == x);
            } else {
                assert(x == p);
                assert(rhs[0] == p);
            }
        }
    }
    assert forall|x: SecretKey| rhs.contains(x) implies lhs.contains(x) by {
        if x == k {
            assert(lhs[0] == k);
        } else {
            let j = choose|j: int| 0 <= j < rhs.len() && rhs[j] == x;
            let tj = if j == 0 {
                t.index_of(p)
            } else {
                j - 1
            };
            if j == 0 {
                assert(t.contains(p)) by {
                    if s.contains(p) {
                        let m = choose|m: int| 0 <= m < s.len() && s[m] == p;
                        assert(t[m] == p);
                    } else {
                        assert(t.last() == p);
                    }
                }
            }
            assert(0 <= tj < t.len() && t[tj] == x);
            assert(tj != i) by {
                assert(t[i] == k);
            }
            if tj < t.len() - 1 {
                assert(u[tj] == x);
                assert(lhs[tj + 1] == x);
            } else {
                assert(i < t.len() - 1) by {
                    if i == t.len() - 1 {
                        assert(t[i] == k && t[tj] == x);
                    }
                }
                assert(u[i] == t.last());
                assert(t.last() == x);
                assert(lhs[i + 1] == x);
            }
        }
    }
}

/// What a freshly built keyring holds: exactly the offered keys, less the
/// primary.
pub proof fn lemma_with_keys_membership(ks: Seq<SecretKey>, primary: SecretKey)
    ensures
        forall|k: SecretKey|
            spec_with_keys(ks, primary).contains(k) <==> ks.contains(k) && k != primary,
    decreases ks.len(),
{
    if ks.len() == 0 {
    } else {
        lemma_with_keys_membership(ks.drop_last(), primary);
        let prev = spec_with_keys(ks.drop_last(), primary);
        let whole = spec_with_keys(ks, primary);
        let last = ks.last();
        assert forall|k: SecretKey| whole.contains(k) implies ks.contains(k) && k != primary by {
            let in_prev = if last == primary || prev.contains(last) {
                true
            } else {
                let j = choose|j: int| 0 <= j < whole.len() && whole[j] == k;
                j < prev.len()
            };
            if in_prev {
                assert(prev.contains(k)) by {
                    let j = choose|j: int| 0 <= j < whole.len() && whole[j] == k;
                    assert(prev[j] == k);
                }
                assert(ks.drop_last().contains(k));
                let j = choose|j: int| 0 <= j < ks.drop_last().len() && ks.drop_last()[j] == k;
                assert(ks.drop_last()[j] == ks[j]);
                assert(ks.contains(k));
            } else {
                assert(k == last);
                assert(ks[ks.len() - 1] == k);
                assert(ks.contains(k));
            }
        }
        assert forall|k: SecretKey| ks.contains(k) && k != primary implies whole.contains(k) by {
            let j = choose|j: int| 0 <= j < ks.len() && ks[j] == k;
            if j < ks.len() - 1 {
                assert(ks.drop_last()[j] == k);
                assert(ks.drop_last().contains(k));
                assert(prev.contains(k));
                let m = choose|m: int| 0 <= m < prev.len() && prev[m] == k;
                assert(whole[m] == k);
            } else {
                if prev.contains(k) {
                    let m = choose|m: int| 0 <= m < prev.len() && prev[m] == k;
                    assert(whole[m] == k);
                } else {
                    assert(k == last);
                    assert(whole.last() == k);
                }
            }
            assert(whole.contains(k));
        }
    }
}

/// The first key handed out is always the primary key.
pub proof fn lemma_primary_first(kr: SecretKeyring)
    ensures
        kr.key_seq().len() >= 1,
        kr.key_seq()[0] == kr.spec_primary(),
{
}

} // verus!
