//! The cache-aside store: get / set-with-expiry / delete over scoped
//! keys.  A key names a resource together with its whole ownership
//! scope — user, user+budget, or user+budget+expense — so two callers'
//! entries can never collide.  The store is viewed as a map from key to
//! value and absolute expiry time; a read respects the expiry.

use vstd::prelude::*;

use crate::types::Budget;
use crate::types::Expense;
use crate::types::ProfileView;
use crate::db::clone_budget;
use crate::db::clone_expense;

verus! {

/// Cached entries live this many seconds, uniformly across resources.
pub const CACHE_TTL_SECONDS: u64 = 86400;

/// A scoped cache key: the resource and the identifiers of everything
/// that owns it.
#[derive(Clone, Copy, Debug, PartialEq, Eq, Structural)]
pub enum CacheKey {
    Profile { user_id: u128 },
    Budget { user_id: u128, budget_id: u128 },
    Expense { user_id: u128, budget_id: u128, expense_id: u128 },
}

/// What the cache holds for a key: the representation that the matching
/// read handler serves.
#[derive(Clone, Debug)]
pub enum CacheValue {
    Profile(ProfileView),
    Budget(Budget),
    Expense(Expense),
}

/// An exact copy of a cached value.
pub fn clone_value(v: &CacheValue) -> (r: CacheValue)
    ensures
        r == *v,
{
    match v {
        CacheValue::Profile(p) => CacheValue::Profile(
            ProfileView { id: p.id, username: p.username.clone(), email: p.email.clone() },
        ),
        CacheValue::Budget(b) => CacheValue::Budget(clone_budget(b)),
        CacheValue::Expense(x) => CacheValue::Expense(clone_expense(x)),
    }
}

/// The map a sequence of entries denotes; a later entry for the same key
/// overrides an earlier one.
pub open spec fn entry_map(s: Seq<(CacheKey, CacheValue, u64)>) -> Map<CacheKey, (CacheValue, u64)>
    decreases s.len(),
{
    if s.len() == 0 {
        Map::empty()
    } else {
        entry_map(s.drop_last()).insert(s.last().0, (s.last().1, s.last().2))
    }
}

/// The entries that survive deleting one key.
pub open spec fn without_key(s: Seq<(CacheKey, CacheValue, u64)>, key: CacheKey) -> Seq<
    (CacheKey, CacheValue, u64),
>
    decreases s.len(),
{
    if s.len() == 0 {
        Seq::empty()
    } else if s.last().0 == key {
        without_key(s.drop_last(), key)
    } else {
        without_key(s.drop_last(), key).push(s.last())
    }
}

/// Deleting a key from the entries deletes it from the map they denote.
proof fn lemma_without_key_map(s: Seq<(CacheKey, CacheValue, u64)>, key: CacheKey)
    ensures
        entry_map(without_key(s, key)) == entry_map(s).remove(key),
        forall|i: int| 0 <= i < without_key(s, key).len() ==> (#[trigger] without_key(s, key)[i]).0
            != key,
    decreases s.len(),
{
    if s.len() == 0 {
        assert(entry_map(without_key(s, key)) =~= entry_map(s).remove(key));
    } else {
        lemma_without_key_map(s.drop_last(), key);
        if s.last().0 == key {
            assert(entry_map(s).remove(key) =~= entry_map(s.drop_last()).remove(key));
        } else {
            let t = without_key(s.drop_last(), key);
            assert(without_key(s, key) == t.push(s.last()));
            assert(t.push(s.last()).drop_last() =~= t);
            assert(t.push(s.last()).last() == s.last());
            assert(entry_map(without_key(s, key)) == entry_map(t).insert(
                s.last().0,
                (s.last().1, s.last().2),
            ));
            assert(entry_map(s).remove(key) =~= entry_map(s.drop_last()).remove(key).insert(
                s.last().0,
                (s.last().1, s.last().2),
            ));
        }
    }
}

/// With no duplicate keys, each entry is the one the map holds for its
/// key.
proof fn lemma_entry_map_index(s: Seq<(CacheKey, CacheValue, u64)>, i: int)
    requires
        0 <= i < s.len(),
        forall|p: int, q: int| 0 <= p < s.len() && 0 <= q < s.len() && p != q ==> (
        #[trigger] s[p]).0 != (#[trigger] s[q]).0,
    ensures
        entry_map(s).contains_key(s[i].0),
        entry_map(s)[s[i].0] == (s[i].1, s[i].2),
    decreases s.len(),
{
    if i == s.len() - 1 {
    } else {
        lemma_entry_map_index(s.drop_last(), i);
        assert(s.drop_last()[i] == s[i]);
        assert(s.last().0 != s[i].0);
    }
}

/// A key no entry carries is not in the map.
proof fn lemma_entry_map_absent(s: Seq<(CacheKey, CacheValue, u64)>, key: CacheKey)
    requires
        forall|i: int| 0 <= i < s.len() ==> (#[trigger] s[i]).0 != key,
    ensures
        !entry_map(s).contains_key(key),
    decreases s.len(),
{
    if s.len() > 0 {
        lemma_entry_map_absent(s.drop_last(), key);
    }
}

/// A handle on the cache store.
pub struct Connection {
    entries: Vec<(CacheKey, CacheValue, u64)>,
}

impl View for Connection {
    type V = Map<CacheKey, (CacheValue, u64)>;

    closed spec fn view(&self) -> Map<CacheKey, (CacheValue, u64)> {
        entry_map(self.entries@)
    }
}

impl Connection {
    /// One live entry per key.
    pub closed spec fn inv(self) -> bool {
        forall|p: int, q: int|
            0 <= p < self.entries@.len() && 0 <= q < self.entries@.len() && p != q ==> (
            #[trigger] self.entries@[p]).0 != (#[trigger] self.entries@[q]).0
    }

    /// Reads the value cached for `key`, if one is there and has not
    /// expired by `now`.
    #[verifier::loop_isolation(false)]
    pub fn get(&self, key: CacheKey, now: u64) -> (r: Option<CacheValue>)
        requires
            self.inv(),
        ensures
            r is Some <==> self@.contains_key(key) && self@[key].1 > now,
            r is Some ==> r.unwrap() == self@[key].0,
    {
        let n = self.entries.len();
        let mut i: usize = 0;
        while i < n
            invariant
                0 <= i <= n == self.entries@.len(),
                forall|k: int| 0 <= k < i ==> (#[trigger] self.entries@[k]).0 != key,
            decreases n - i,
        {
            if self.entries[i].0 == key {
                proof {
                    lemma_entry_map_index(self.entries@, i as int);
                }
                if self.entries[i].2 > now {
                    return Some(clone_value(&self.entries[i].1));
                } else {
                    return None;
                }
            }
            i += 1;
        }
        proof {
            lemma_entry_map_absent(self.entries@, key);
        }
        None
    }

    /// Removes every entry for `key`, keeping the rest in order.
    #[verifier::loop_isolation(false)]
    fn remove_key(&mut self, key: CacheKey)
        requires
            old(self).inv(),
        ensures
            final(self).inv(),
            final(self)@ == old(self)@.remove(key),
            final(self).entries@ == without_key(old(self).entries@, key),
            forall|i: int| 0 <= i < final(self).entries@.len() ==> (
            #[trigger] final(self).entries@[i]).0 != key,
    {
        let ghost old_entries = self.entries@;
        let n = self.entries.len();
        let mut out: Vec<(CacheKey, CacheValue, u64)> = Vec::new();
        let mut i: usize = 0;
        while i < n
            invariant
                0 <= i <= n == self.entries@.len(),
                self.entries@ == old_entries,
                out@ == without_key(old_entries.take(i as int), key),
                forall|k: int| 0 <= k < out@.len() ==> (#[trigger] out@[k]).0 != key,
                forall|k: int|
                    0 <= k < out@.len() ==> exists|w: int|
                        0 <= w < i && old_entries[w] == #[trigger] out@[k],
                forall|p: int, q: int|
                    0 <= p < out@.len() && 0 <= q < out@.len() && p != q ==> (
                    #[trigger] out@[p]).0 != (#[trigger] out@[q]).0,
            decreases n - i,
        {
            assert(old_entries.take(i + 1).drop_last() =~= old_entries.take(i as int));
            if !(self.entries[i].0 == key) {
                proof {
                    assert forall|k: int| 0 <= k < out@.len() implies (#[trigger] out@[k]).0
                        != old_entries[i as int].0 by {
                        let w = choose|w: int| 0 <= w < i && old_entries[w] == out@[k];
                        assert(old_entries[w].0 != old_entries[i as int].0);
                    }
                }
                let e = &self.entries[i];
                out.push((e.0, clone_value(&e.1), e.2));
                proof {
                    assert(old_entries[i as int] == out@[out@.len() - 1]);
                }
            }
            i += 1;
        }
        assert(old_entries.take(n as int) =~= old_entries);
        self.entries = out;
        proof {
            lemma_without_key_map(old_entries, key);
        }
    }

    /// Invalidates the entry for `key`, if any.
    pub fn del(&mut self, key: CacheKey)
        requires
            old(self).inv(),
        ensures
            final(self).inv(),
            final(self)@ == old(self)@.remove(key),
    {
        self.remove_key(key);
    }

    /// Caches `value` for `key` until `now + ttl`, replacing whatever
    /// was there.
    pub fn set_ex(&mut self, key: CacheKey, value: CacheValue, ttl: u64, now: u64)
        requires
            old(self).inv(),
            now + ttl <= u64::MAX,
        ensures
            final(self).inv(),
            final(self)@ == old(self)@.insert(key, (value, (now + ttl) as u64)),
    {
        self.remove_key(key);
        let ghost pruned = self.entries@;
        self.entries.push((key, value, now + ttl));
        proof {
            assert(self.entries@.drop_last() =~= pruned);
            assert(self.entries@.last() == (key, value, (now + ttl) as u64));
            assert(entry_map(self.entries@) =~= entry_map(pruned).insert(
                key,
                (value, (now + ttl) as u64),
            ));
            assert(entry_map(pruned).insert(key, (value, (now + ttl) as u64)) =~= old(
                self,
            )@.insert(key, (value, (now + ttl) as u64)));
        }
    }
}

/// Whether a cached value is the kind its key names, with the matching
/// identifiers: a key can only ever carry the resource it is scoped to.
pub open spec fn entry_fits(k: CacheKey, v: CacheValue) -> bool {
    match k {
        CacheKey::Profile { user_id } => match v {
            CacheValue::Profile(p) => p.id == user_id,
            _ => false,
        },
        CacheKey::Budget { user_id, budget_id } => match v {
            CacheValue::Budget(b) => b.id == budget_id && b.user_id == user_id,
            _ => false,
        },
        CacheKey::Expense { user_id, budget_id, expense_id } => match v {
            CacheValue::Expense(x) => x.id == expense_id && x.budget_id == budget_id,
            _ => false,
        },
    }
}

/// Every entry of the cache fits its key.
pub open spec fn cache_wf(m: Map<CacheKey, (CacheValue, u64)>) -> bool {
    forall|k: CacheKey| #[trigger] m.contains_key(k) ==> entry_fits(k, m[k].0)
}

/// Inserting a fitting entry keeps the cache well formed.
pub proof fn lemma_wf_insert(m: Map<CacheKey, (CacheValue, u64)>, k: CacheKey, v: CacheValue, e: u64)
    requires
        cache_wf(m),
        entry_fits(k, v),
    ensures
        cache_wf(m.insert(k, (v, e))),
{
    assert forall|k2: CacheKey| #[trigger] m.insert(k, (v, e)).contains_key(k2) implies entry_fits(
        k2,
        m.insert(k, (v, e))[k2].0,
    ) by {
        if k2 != k {
            assert(m.contains_key(k2));
        }
    }
}

/// Removing an entry keeps the cache well formed.
pub proof fn lemma_wf_remove(m: Map<CacheKey, (CacheValue, u64)>, k: CacheKey)
    requires
        cache_wf(m),
    ensures
        cache_wf(m.remove(k)),
{
    assert forall|k2: CacheKey| #[trigger] m.remove(k).contains_key(k2) implies entry_fits(
        k2,
        m.remove(k)[k2].0,
    ) by {
        assert(m.contains_key(k2));
    }
}

/// Opens a fresh, empty cache store.
pub fn get_redis_connection() -> (conn: Connection)
    ensures
        conn.inv(),
        conn@ == Map::<CacheKey, (CacheValue, u64)>::empty(),
{
    let conn = Connection { entries: Vec::new() };
    proof {
        assert(conn@ =~= Map::<CacheKey, (CacheValue, u64)>::empty());
    }
    conn
}

} // verus!
