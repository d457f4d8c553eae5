//! The system-level guarantees, each proved from the handlers' and
//! stores' contracts alone: a stored password hash can never equal a
//! plaintext that is not itself shaped like a hash; a user can never
//! read another user's budget, whatever the cache holds; an update is
//! visible to the very next read and the pre-update value cannot come
//! back; a deleted budget stays invisible.  The budget-cache coherence
//! predicate these rest on is itself shown to hold of a fresh cache and
//! to be preserved by every operation that touches budgets.

use vstd::prelude::*;

use crate::auth::authorize_spec;
use crate::auth::bearer_prefix;
use crate::cache::CACHE_TTL_SECONDS;
use crate::cache::CacheKey;
use crate::cache::CacheValue;
use crate::db::Database;
use crate::db::budget_by_id;
use crate::db::budget_idx;
use crate::db::expense_by_id;
use crate::db::expense_idx;
use crate::db::has_budget_id;
use crate::db::user_by_id;
use crate::db::user_idx;
use crate::handlers::apply_budget_update;
use crate::handlers::apply_expense_update;
use crate::handlers::apply_profile_update;
use crate::handlers::get_budget_cache;
use crate::handlers::get_budget_spec;
use crate::handlers::get_expense_spec;
use crate::handlers::get_profile_spec;
use crate::token::decode_token_spec;
use crate::token::lemma_parse_token_bytes;
use crate::token::token_bytes;
use crate::types::ApiError;
use crate::types::Budget;
use crate::types::Expense;
use crate::types::ProfileView;
use crate::types::UpdateBudget;
use crate::types::UpdateExpense;

verus! {

/// A 60-character hash string that opens with the bcrypt marker can
/// never equal a plaintext of any other shape, so a registered row's
/// password field is never the plaintext.
pub proof fn lemma_hash_never_plaintext(plain: Seq<char>, hash: Seq<char>)
    requires
        hash.len() == 60,
        hash[0] == '$',
        plain.len() != 60 || plain[0] != '$',
    ensures
        plain != hash,
{
}

/// Every budget entry in the cache belongs to a live budget row: it is
/// keyed by the row's real owner and holds the row itself.  A fresh
/// cache has it trivially, and every budget operation preserves it, so
/// a cache hit can never leak a budget across users or resurrect a
/// deleted one.
pub open spec fn budget_cache_coherent(
    cmap: Map<CacheKey, (CacheValue, u64)>,
    db: Database,
) -> bool {
    forall|u: u128, b: u128|
        #[trigger] cmap.contains_key(CacheKey::Budget { user_id: u, budget_id: b })
            ==> db.owns_budget(u, b) && cmap[CacheKey::Budget { user_id: u, budget_id: b }].0
            == CacheValue::Budget(budget_by_id(db.budgets@, b))
}

/// Ownership isolation: for a budget owned by one user, a coherent
/// cache holds no entry for any other user, so a read as the owner
/// succeeds while a read as anyone else is a not-found.
pub proof fn lemma_budget_isolation(
    db: Database,
    cmap: Map<CacheKey, (CacheValue, u64)>,
    owner: u128,
    other: u128,
    budget_id: u128,
    now: u64,
)
    requires
        db.inv(),
        budget_cache_coherent(cmap, db),
        db.owns_budget(owner, budget_id),
        other != owner,
    ensures
        get_budget_spec(db, cmap, owner, budget_id, now) is Ok,
        get_budget_spec(db, cmap, other, budget_id, now) == Err::<Budget, ApiError>(
            ApiError::NotFound,
        ),
{
    assert(!db.owns_budget(other, budget_id));
    if cmap.contains_key(CacheKey::Budget { user_id: other, budget_id }) {
        assert(db.owns_budget(other, budget_id));
    }
    if cmap.contains_key(CacheKey::Budget { user_id: owner, budget_id }) && cmap[CacheKey::Budget {
        user_id: owner,
        budget_id,
    }].1 > now {
        assert(cmap[CacheKey::Budget { user_id: owner, budget_id }].0 == CacheValue::Budget(
            budget_by_id(db.budgets@, budget_id),
        ));
    }
}

/// An empty cache is coherent with any store.
pub proof fn lemma_coherent_empty(db: Database)
    ensures
        budget_cache_coherent(Map::<CacheKey, (CacheValue, u64)>::empty(), db),
{
}

/// A budget read preserves coherence: what it populates the cache with
/// is the owner-scoped row it just served.
pub proof fn lemma_coherent_after_get_budget(
    db: Database,
    cmap: Map<CacheKey, (CacheValue, u64)>,
    user_id: u128,
    budget_id: u128,
    now: u64,
)
    requires
        db.inv(),
        budget_cache_coherent(cmap, db),
    ensures
        budget_cache_coherent(get_budget_cache(db, cmap, user_id, budget_id, now), db),
{
    let after = get_budget_cache(db, cmap, user_id, budget_id, now);
    assert forall|u: u128, b: u128|
        #[trigger] after.contains_key(CacheKey::Budget { user_id: u, budget_id: b }) implies
        db.owns_budget(u, b) && after[CacheKey::Budget { user_id: u, budget_id: b }].0
            == CacheValue::Budget(budget_by_id(db.budgets@, b)) by {
        let k = CacheKey::Budget { user_id, budget_id };
        if (CacheKey::Budget { user_id: u, budget_id: b }) != k {
            assert(cmap.contains_key(CacheKey::Budget { user_id: u, budget_id: b }));
        }
    }
}

/// Removing any entry preserves coherence.
pub proof fn lemma_coherent_after_remove(
    db: Database,
    cmap: Map<CacheKey, (CacheValue, u64)>,
    k: CacheKey,
)
    requires
        budget_cache_coherent(cmap, db),
    ensures
        budget_cache_coherent(cmap.remove(k), db),
{
    assert forall|u: u128, b: u128|
        #[trigger] cmap.remove(k).contains_key(CacheKey::Budget { user_id: u, budget_id: b })
            implies db.owns_budget(u, b) && cmap.remove(k)[CacheKey::Budget {
        user_id: u,
        budget_id: b,
    }].0 == CacheValue::Budget(budget_by_id(db.budgets@, b)) by {
        assert(cmap.contains_key(CacheKey::Budget { user_id: u, budget_id: b }));
    }
}

/// Rows other than the one an update rewrites keep their identity: a
/// lookup by any other identifier lands on the same row as before.
proof fn lemma_budget_lookup_stable(db: Database, db2: Database, budget_id: u128, b1: Budget)
    requires
        db.inv(),
        db.owns_budget(b1.user_id, budget_id),
        b1.id == budget_id,
        db2.budgets@ == db.budgets@.update(budget_idx(db.budgets@, budget_id), b1),
    ensures
        forall|b: u128|
            #[trigger] has_budget_id(db2.budgets@, b) <==> has_budget_id(db.budgets@, b),
        forall|b: u128|
            has_budget_id(db.budgets@, b) && b != budget_id ==> #[trigger] budget_by_id(
                db2.budgets@,
                b,
            ) == budget_by_id(db.budgets@, b),
        has_budget_id(db2.budgets@, budget_id) && budget_by_id(db2.budgets@, budget_id) == b1,
{
    let i = budget_idx(db.budgets@, budget_id);
    assert(0 <= i < db.budgets@.len() && db.budgets@[i].id == budget_id);
    assert forall|b: u128| #[trigger] has_budget_id(db2.budgets@, b) implies has_budget_id(
        db.budgets@,
        b,
    ) by {
        let j = choose|j: int| 0 <= j < db2.budgets@.len() && db2.budgets@[j].id == b;
        if j == i {
            assert(db.budgets@[i].id == budget_id);
        } else {
            assert(db.budgets@[j].id == b);
        }
    }
    assert forall|b: u128| #[trigger] has_budget_id(db.budgets@, b) implies has_budget_id(
        db2.budgets@,
        b,
    ) by {
        let j = choose|j: int| 0 <= j < db.budgets@.len() && db.budgets@[j].id == b;
        if j == i {
            assert(db2.budgets@[i].id == budget_id);
        } else {
            assert(db2.budgets@[j].id == b);
        }
    }
    assert forall|b: u128| has_budget_id(db.budgets@, b) && b != budget_id implies
        #[trigger] budget_by_id(db2.budgets@, b) == budget_by_id(db.budgets@, b) by {
        let j = budget_idx(db.budgets@, b);
        assert(0 <= j < db.budgets@.len() && db.budgets@[j].id == b);
        assert(j != i);
        let j2 = budget_idx(db2.budgets@, b);
        assert(0 <= j2 < db2.budgets@.len() && db2.budgets@[j2].id == b);
        assert(j2 != i);
        assert(db2.budgets@[j2] == db.budgets@[j2]);
        assert(j2 == j);
    }
    assert(db2.budgets@[i].id == budget_id);
    let j2 = budget_idx(db2.budgets@, budget_id);
    assert(0 <= j2 < db2.budgets@.len() && db2.budgets@[j2].id == budget_id);
    if j2 != i {
        assert(db2.budgets@[j2] == db.budgets@[j2]);
    }
}

/// A budget update preserves coherence: the rewritten row replaces its
/// own cache entry, and every other entry still matches its unchanged
/// row.
pub proof fn lemma_coherent_after_update_budget(
    db: Database,
    db2: Database,
    cmap: Map<CacheKey, (CacheValue, u64)>,
    user_id: u128,
    budget_id: u128,
    form: UpdateBudget,
    now: u64,
)
    requires
        db.inv(),
        budget_cache_coherent(cmap, db),
        db.owns_budget(user_id, budget_id),
        db2.budgets@ == db.budgets@.update(
            budget_idx(db.budgets@, budget_id),
            apply_budget_update(budget_by_id(db.budgets@, budget_id), form, now),
        ),
    ensures
        budget_cache_coherent(
            cmap.insert(
                CacheKey::Budget { user_id, budget_id },
                (
                    CacheValue::Budget(apply_budget_update(budget_by_id(db.budgets@, budget_id), form, now)),
                    (now + CACHE_TTL_SECONDS) as u64,
                ),
            ),
            db2,
        ),
{
    let b1 = apply_budget_update(budget_by_id(db.budgets@, budget_id), form, now);
    let k = CacheKey::Budget { user_id, budget_id };
    let after = cmap.insert(k, (CacheValue::Budget(b1), (now + CACHE_TTL_SECONDS) as u64));
    lemma_budget_lookup_stable(db, db2, budget_id, b1);
    assert forall|u: u128, b: u128|
        #[trigger] after.contains_key(CacheKey::Budget { user_id: u, budget_id: b }) implies
        db2.owns_budget(u, b) && after[CacheKey::Budget { user_id: u, budget_id: b }].0
            == CacheValue::Budget(budget_by_id(db2.budgets@, b)) by {
        let k2 = CacheKey::Budget { user_id: u, budget_id: b };
        if k2 == k {
            assert(budget_by_id(db2.budgets@, budget_id) == b1);
            assert(b1.user_id == user_id);
        } else {
            assert(cmap.contains_key(k2));
            assert(db.owns_budget(u, b));
            if b == budget_id {
                assert(budget_by_id(db.budgets@, b).user_id == u);
                assert(u == user_id);
                assert(false);
            }
            assert(budget_by_id(db2.budgets@, b) == budget_by_id(db.budgets@, b));
        }
    }
}

/// A budget delete preserves coherence: its own entry is removed with
/// the row, and — because identifiers are unique — no other entry
/// pointed at the deleted row.
pub proof fn lemma_coherent_after_delete_budget(
    db: Database,
    db2: Database,
    cmap: Map<CacheKey, (CacheValue, u64)>,
    user_id: u128,
    budget_id: u128,
)
    requires
        db.inv(),
        budget_cache_coherent(cmap, db),
        db.owns_budget(user_id, budget_id),
        db2.budgets@ == db.budgets@.remove(budget_idx(db.budgets@, budget_id)),
    ensures
        budget_cache_coherent(cmap.remove(CacheKey::Budget { user_id, budget_id }), db2),
{
    let i = budget_idx(db.budgets@, budget_id);
    assert(0 <= i < db.budgets@.len() && db.budgets@[i].id == budget_id);
    let after = cmap.remove(CacheKey::Budget { user_id, budget_id });
    assert forall|u: u128, b: u128|
        #[trigger] after.contains_key(CacheKey::Budget { user_id: u, budget_id: b }) implies
        db2.owns_budget(u, b) && after[CacheKey::Budget { user_id: u, budget_id: b }].0
            == CacheValue::Budget(budget_by_id(db2.budgets@, b)) by {
        let k2 = CacheKey::Budget { user_id: u, budget_id: b };
        assert(cmap.contains_key(k2));
        assert(db.owns_budget(u, b));
        let j = budget_idx(db.budgets@, b);
        assert(0 <= j < db.budgets@.len() && db.budgets@[j].id == b);
        if b == budget_id {
            assert(u == user_id);
            assert(false);
        }
        assert(j != i);
        let j2: int = if j < i {
            j
        } else {
            j - 1
        };
        assert(db2.budgets@[j2] == db.budgets@[j]);
        assert(has_budget_id(db2.budgets@, b));
        let j3 = budget_idx(db2.budgets@, b);
        assert(0 <= j3 < db2.budgets@.len() && db2.budgets@[j3].id == b);
        let j4: int = if j3 < i {
            j3
        } else {
            j3 + 1
        };
        assert(db2.budgets@[j3] == db.budgets@[j4]);
        assert(j4 == j);
        assert(budget_by_id(db2.budgets@, b) == budget_by_id(db.budgets@, b));
    }
}

/// A budget creation preserves coherence: the fresh row's identifier is
/// new, so every cache entry still points at its unchanged row.
pub proof fn lemma_coherent_after_post_budget(
    db: Database,
    db2: Database,
    cmap: Map<CacheKey, (CacheValue, u64)>,
    row: Budget,
)
    requires
        db.inv(),
        budget_cache_coherent(cmap, db),
        !has_budget_id(db.budgets@, row.id),
        db2.budgets@ == db.budgets@.push(row),
    ensures
        budget_cache_coherent(cmap, db2),
{
    assert forall|u: u128, b: u128|
        #[trigger] cmap.contains_key(CacheKey::Budget { user_id: u, budget_id: b }) implies
        db2.owns_budget(u, b) && cmap[CacheKey::Budget { user_id: u, budget_id: b }].0
            == CacheValue::Budget(budget_by_id(db2.budgets@, b)) by {
        assert(db.owns_budget(u, b));
        let j = budget_idx(db.budgets@, b);
        assert(0 <= j < db.budgets@.len() && db.budgets@[j].id == b);
        assert(db2.budgets@[j].id == b);
        assert(has_budget_id(db2.budgets@, b));
        let j2 = budget_idx(db2.budgets@, b);
        assert(0 <= j2 < db2.budgets@.len() && db2.budgets@[j2].id == b);
        if j2 == db.budgets@.len() as int {
            assert(row.id == b);
            assert(false);
        }
        assert(db2.budgets@[j2] == db.budgets@[j2]);
        assert(j2 == j);
        assert(budget_by_id(db2.budgets@, b) == budget_by_id(db.budgets@, b));
    }
}

/// Update-then-read: right after a budget update, a read of the same
/// budget — served from cache or store alike — returns the updated row,
/// and never the pre-update value once the update changed anything.
pub proof fn lemma_update_then_read_budget(
    db: Database,
    db2: Database,
    cmap: Map<CacheKey, (CacheValue, u64)>,
    cmap2: Map<CacheKey, (CacheValue, u64)>,
    user_id: u128,
    budget_id: u128,
    form: UpdateBudget,
    now: u64,
    now2: u64,
)
    requires
        db.inv(),
        db.owns_budget(user_id, budget_id),
        db2.budgets@ == db.budgets@.update(
            budget_idx(db.budgets@, budget_id),
            apply_budget_update(budget_by_id(db.budgets@, budget_id), form, now),
        ),
        cmap2 == cmap.insert(
            CacheKey::Budget { user_id, budget_id },
            (
                CacheValue::Budget(apply_budget_update(budget_by_id(db.budgets@, budget_id), form, now)),
                (now + CACHE_TTL_SECONDS) as u64,
            ),
        ),
        now + CACHE_TTL_SECONDS <= u64::MAX,
        now <= now2 < now + CACHE_TTL_SECONDS,
    ensures
        get_budget_spec(db2, cmap2, user_id, budget_id, now2) == Ok::<Budget, ApiError>(
            apply_budget_update(budget_by_id(db.budgets@, budget_id), form, now),
        ),
        apply_budget_update(budget_by_id(db.budgets@, budget_id), form, now) != budget_by_id(
            db.budgets@,
            budget_id,
        ) ==> get_budget_spec(db2, cmap2, user_id, budget_id, now2) != Ok::<Budget, ApiError>(
            budget_by_id(db.budgets@, budget_id),
        ),
{
    let k = CacheKey::Budget { user_id, budget_id };
    assert(cmap2.contains_key(k));
    assert(cmap2[k].1 > now2);
}

/// Delete removes visibility: right after a budget delete, a read of
/// the same budget is a not-found — the cache entry is gone and so is
/// the row.
pub proof fn lemma_delete_then_read_budget(
    db2: Database,
    cmap: Map<CacheKey, (CacheValue, u64)>,
    cmap2: Map<CacheKey, (CacheValue, u64)>,
    user_id: u128,
    budget_id: u128,
    now2: u64,
)
    requires
        !has_budget_id(db2.budgets@, budget_id),
        cmap2 == cmap.remove(CacheKey::Budget { user_id, budget_id }),
    ensures
        get_budget_spec(db2, cmap2, user_id, budget_id, now2) == Err::<Budget, ApiError>(
            ApiError::NotFound,
        ),
{
    assert(!cmap2.contains_key(CacheKey::Budget { user_id, budget_id }));
    assert(!db2.owns_budget(user_id, budget_id));
}

/// A request without an Authorization header is rejected outright —
/// before any handler, and so before any store access, runs.
pub proof fn lemma_missing_header_rejected(secret: Seq<u8>, now: u64)
    ensures
        authorize_spec(None, secret, now) == Err::<u128, ApiError>(ApiError::Unauthorized),
{
}

/// A header without the `Bearer ` form is rejected outright, whatever
/// it carries.
pub proof fn lemma_malformed_header_rejected(h: Seq<u8>, secret: Seq<u8>, now: u64)
    requires
        h.len() < 7 || h.subrange(0, 7) != bearer_prefix(),
    ensures
        authorize_spec(Some(h), secret, now) == Err::<u128, ApiError>(ApiError::Unauthorized),
{
}

/// A well-formed bearer header is judged exactly by validating the
/// token it carries.
pub proof fn lemma_bearer_header_carries_token(tok: Seq<u8>, secret: Seq<u8>, now: u64)
    ensures
        authorize_spec(Some(bearer_prefix() + tok), secret, now) == decode_token_spec(
            tok,
            secret,
            now,
        ),
{
    let h = bearer_prefix() + tok;
    assert(h.subrange(0, 7) =~= bearer_prefix());
    assert(h.subrange(7, h.len() as int) =~= tok);
}

/// An expired token is rejected, however it was signed: validation at
/// or after the expiry it carries never authenticates.
pub proof fn lemma_expired_token_rejected(sub: u128, exp: u64, secret: Seq<u8>, now: u64)
    requires
        now >= exp,
    ensures
        decode_token_spec(token_bytes(sub, exp, secret), secret, now) == Err::<u128, ApiError>(
            ApiError::Unauthorized,
        ),
{
    lemma_parse_token_bytes(sub, exp, secret);
}

/// Update-then-read for the profile: right after a profile update, a
/// read serves the updated identity fields, never the pre-update ones.
pub proof fn lemma_update_then_read_profile(
    db: Database,
    db2: Database,
    cmap: Map<CacheKey, (CacheValue, u64)>,
    cmap2: Map<CacheKey, (CacheValue, u64)>,
    user_id: u128,
    username: Option<String>,
    password_hash: Option<String>,
    email: Option<String>,
    now: u64,
    now2: u64,
)
    requires
        db2.users@ == db.users@.update(
            user_idx(db.users@, user_id),
            apply_profile_update(user_by_id(db.users@, user_id), username, password_hash, email),
        ),
        cmap2 == cmap.insert(
            CacheKey::Profile { user_id },
            (
                CacheValue::Profile(
                    ProfileView::spec_of(
                        apply_profile_update(
                            user_by_id(db.users@, user_id),
                            username,
                            password_hash,
                            email,
                        ),
                    ),
                ),
                (now + CACHE_TTL_SECONDS) as u64,
            ),
        ),
        now + CACHE_TTL_SECONDS <= u64::MAX,
        now <= now2 < now + CACHE_TTL_SECONDS,
    ensures
        get_profile_spec(db2, cmap2, user_id, now2) == Ok::<ProfileView, ApiError>(
            ProfileView::spec_of(
                apply_profile_update(user_by_id(db.users@, user_id), username, password_hash, email),
            ),
        ),
        ProfileView::spec_of(
            apply_profile_update(user_by_id(db.users@, user_id), username, password_hash, email),
        ) != ProfileView::spec_of(user_by_id(db.users@, user_id))
            ==> get_profile_spec(db2, cmap2, user_id, now2) != Ok::<ProfileView, ApiError>(
            ProfileView::spec_of(user_by_id(db.users@, user_id)),
        ),
{
    let k = CacheKey::Profile { user_id };
    assert(cmap2.contains_key(k));
    assert(cmap2[k].1 > now2);
}

/// Update-then-read for an expense: right after an expense update, a
/// read serves the updated row, never the pre-update one.
pub proof fn lemma_update_then_read_expense(
    db: Database,
    db2: Database,
    cmap: Map<CacheKey, (CacheValue, u64)>,
    cmap2: Map<CacheKey, (CacheValue, u64)>,
    user_id: u128,
    budget_id: u128,
    expense_id: u128,
    form: UpdateExpense,
    now: u64,
    now2: u64,
)
    requires
        db2.expenses@ == db.expenses@.update(
            expense_idx(db.expenses@, expense_id),
            apply_expense_update(expense_by_id(db.expenses@, expense_id), form, now),
        ),
        cmap2 == cmap.insert(
            CacheKey::Expense { user_id, budget_id, expense_id },
            (
                CacheValue::Expense(apply_expense_update(expense_by_id(db.expenses@, expense_id), form, now)),
                (now + CACHE_TTL_SECONDS) as u64,
            ),
        ),
        now + CACHE_TTL_SECONDS <= u64::MAX,
        now <= now2 < now + CACHE_TTL_SECONDS,
    ensures
        get_expense_spec(db2, cmap2, user_id, budget_id, expense_id, now2) == Ok::<
            Expense,
            ApiError,
        >(apply_expense_update(expense_by_id(db.expenses@, expense_id), form, now)),
        apply_expense_update(expense_by_id(db.expenses@, expense_id), form, now) != expense_by_id(
            db.expenses@,
            expense_id,
        ) ==> get_expense_spec(db2, cmap2, user_id, budget_id, expense_id, now2) != Ok::<
            Expense,
            ApiError,
        >(expense_by_id(db.expenses@, expense_id)),
{
    let k = CacheKey::Expense { user_id, budget_id, expense_id };
    assert(cmap2.contains_key(k));
    assert(cmap2[k].1 > now2);
}

} // verus!
