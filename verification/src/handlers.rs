//! The resource handlers: one function per (resource, verb) pair,
//! covering profile, budget and expense, over the persistence model and
//! the cache-aside store.
//!
//! Identity and time are explicit inputs: creation handlers draw a fresh
//! identifier and the clock themselves (through the two trusted reads at
//! the bottom of this file), every other handler takes the request time
//! `now` as an argument.  Each handler's contract states the response
//! and the exact effect on both stores.

use vstd::prelude::*;

use crate::cache::CACHE_TTL_SECONDS;
use crate::cache::CacheKey;
use crate::cache::CacheValue;
use crate::cache::Connection;
use crate::cache::cache_wf;
use crate::cache::entry_fits;
use crate::cache::lemma_wf_insert;
use crate::cache::lemma_wf_remove;
use crate::credentials::bcrypt_matches;
use crate::credentials::hash_password;
use crate::credentials::verify_password;
use crate::db::Database;
use crate::db::budget_by_id;
use crate::db::budget_idx;
use crate::db::budgets_of;
use crate::db::clone_budget;
use crate::db::clone_expense;
use crate::db::clone_user;
use crate::db::expense_by_id;
use crate::db::expense_idx;
use crate::db::expenses_of;
use crate::db::expenses_without_budget;
use crate::db::has_budget_id;
use crate::db::has_expense_id;
use crate::db::has_user_id;
use crate::db::has_username;
use crate::db::user_by_id;
use crate::db::user_by_username;
use crate::db::user_idx;
use crate::token::TOKEN_TTL_SECONDS;
use crate::token::decode_token_spec;
use crate::token::sign_jwt;
use crate::token::token_bytes;
use crate::types::ApiError;
use crate::types::Budget;
use crate::types::Expense;
use crate::types::LoginInfo;
use crate::types::NewBudget;
use crate::types::NewExpense;
use crate::types::NewUser;
use crate::types::ProfileView;
use crate::types::UpdateBudget;
use crate::types::UpdateExpense;
use crate::types::UpdateUser;
use crate::types::User;

verus! {

/// The user row registration stores.
pub open spec fn new_user_row(new_id: u128, username: String, password_hash: String, email: String) -> User {
    User { id: new_id, username: username, password_hash: password_hash, email: email }
}

/// Stores a user row under a caller-supplied identifier and an already
/// computed password hash; succeeds exactly when both the identifier and
/// the username are free, as the unique constraints demand.
pub fn register_hashed(
    db: &mut Database,
    username: &String,
    password_hash: &String,
    email: &String,
    new_id: u128,
) -> (r: Result<User, ApiError>)
    requires
        old(db).inv(),
    ensures
        final(db).inv(),
        final(db).budgets@ == old(db).budgets@,
        final(db).expenses@ == old(db).expenses@,
        r is Ok <==> !has_user_id(old(db).users@, new_id) && !has_username(
            old(db).users@,
            username@,
        ),
        r is Ok ==> r.unwrap() == new_user_row(new_id, *username, *password_hash, *email)
            && final(db).users@ == old(db).users@.push(r.unwrap()),
        r is Err ==> final(db).users@ == old(db).users@ && r == Err::<User, ApiError>(
            ApiError::Backend,
        ),
{
    let row = User {
        id: new_id,
        username: username.clone(),
        password_hash: password_hash.clone(),
        email: email.clone(),
    };
    match db.insert_user(clone_user(&row)) {
        Ok(()) => {
            match db.find_user_by_id(new_id) {
                Some(u) => {
                    proof {
                        let j = user_idx(db.users@, new_id);
                        assert(0 <= j < db.users@.len() && db.users@[j].id == new_id);
                        if j != db.users@.len() - 1 {
                            assert(old(db).users@[j].id == new_id);
                            assert(has_user_id(old(db).users@, new_id));
                        }
                    }
                    Ok(u)
                },
                None => {
                    proof {
                        assert(db.users@[db.users@.len() - 1].id == new_id);
                        assert(has_user_id(db.users@, new_id));
                        assert(false);
                    }
                    Err(ApiError::Backend)
                },
            }
        },
        Err(e) => Err(e),
    }
}

/// Registers a user: hashes the password, draws a fresh identifier, and
/// stores the row.  The stored and returned password field is the
/// 60-character bcrypt hash, never the plaintext.  The request is
/// refused when the username (or, against all odds, the drawn
/// identifier) is taken, or when the platform's randomness source fails;
/// both surface as a backend error, and leave the store unchanged.
pub fn register(db: &mut Database, form: &NewUser) -> (r: Result<User, ApiError>)
    requires
        old(db).inv(),
    ensures
        final(db).inv(),
        final(db).budgets@ == old(db).budgets@,
        final(db).expenses@ == old(db).expenses@,
        r is Ok ==> !has_user_id(old(db).users@, r.unwrap().id) && !has_username(
            old(db).users@,
            form.username@,
        ),
        r is Ok ==> r.unwrap().username == form.username && r.unwrap().email == form.email,
        r is Ok ==> r.unwrap().password_hash@.len() == 60 && r.unwrap().password_hash@[0] == '$',
        r is Ok ==> bcrypt_matches(form.password@, r.unwrap().password_hash@),
        r is Ok ==> final(db).users@ == old(db).users@.push(r.unwrap()),
        r is Err ==> final(db).users@ == old(db).users@ && r == Err::<User, ApiError>(
            ApiError::Backend,
        ),
        has_username(old(db).users@, form.username@) ==> r is Err,
{
    let hashed = match hash_password(&form.password) {
        Some(h) => h,
        None => {
            return Err(ApiError::Backend);
        },
    };
    let new_id = fresh_id();
    register_hashed(db, &form.username, &hashed, &form.email, new_id)
}

/// What logging in yields: no such username is a not-found; a username
/// whose stored hash does not match the password is a credential error;
/// a match yields the signed session token for that user.
pub open spec fn login_spec(db: Database, form: LoginInfo, secret: Seq<u8>, now: u64) -> Result<
    Seq<u8>,
    ApiError,
> {
    if !has_username(db.users@, form.username@) {
        Err(ApiError::NotFound)
    } else if bcrypt_matches(
        form.password@,
        user_by_username(db.users@, form.username@).password_hash@,
    ) {
        Ok(token_bytes(user_by_username(db.users@, form.username@).id, (now + TOKEN_TTL_SECONDS) as u64, secret))
    } else {
        Err(ApiError::Unauthorized)
    }
}

/// Logs a user in: looks the username up (unscoped — this is a public
/// route), verifies the password against the stored hash, and issues a
/// token; every validation of that token before its expiry yields the
/// same user's identifier back.
pub fn login(db: &Database, form: &LoginInfo, secret: &Vec<u8>, now: u64) -> (r: Result<
    Vec<u8>,
    ApiError,
>)
    requires
        db.inv(),
        now + TOKEN_TTL_SECONDS <= u64::MAX,
    ensures
        match r {
            Ok(t) => login_spec(*db, *form, secret@, now) == Ok::<Seq<u8>, ApiError>(t@),
            Err(e) => login_spec(*db, *form, secret@, now) == Err::<Seq<u8>, ApiError>(e),
        },
        r is Ok ==> forall|t2: u64|
            t2 < now + TOKEN_TTL_SECONDS ==> decode_token_spec(r.unwrap()@, secret@, t2)
                == Ok::<u128, ApiError>(user_by_username(db.users@, form.username@).id),
{
    match db.find_user_by_username(&form.username) {
        None => Err(ApiError::NotFound),
        Some(u) => {
            if verify_password(&form.password, &u.password_hash) {
                Ok(sign_jwt(u.id, now, secret))
            } else {
                Err(ApiError::Unauthorized)
            }
        },
    }
}

/// The row a profile update leaves behind: each present field replaces
/// its counterpart, the identifier never changes, and the password
/// field is the hash of the new password, never the plaintext.
pub open spec fn apply_profile_update(
    u: User,
    username: Option<String>,
    password_hash: Option<String>,
    email: Option<String>,
) -> User {
    User {
        id: u.id,
        username: match username {
            Some(n) => n,
            None => u.username,
        },
        password_hash: match password_hash {
            Some(h) => h,
            None => u.password_hash,
        },
        email: match email {
            Some(e) => e,
            None => u.email,
        },
    }
}

/// Whether no user but `id` holds this username.
pub open spec fn username_free_for(users: Seq<User>, name: Seq<char>, id: u128) -> bool {
    forall|k: int| 0 <= k < users.len() && (#[trigger] users[k]).username@ == name ==> users[k].id
        == id
}

/// What a profile read yields: the cached representation when a live
/// entry is there, else the user's own row reduced to its identity
/// fields, else a not-found.
pub open spec fn get_profile_spec(
    db: Database,
    cmap: Map<CacheKey, (CacheValue, u64)>,
    user_id: u128,
    now: u64,
) -> Result<ProfileView, ApiError> {
    let k = CacheKey::Profile { user_id };
    if cmap.contains_key(k) && cmap[k].1 > now {
        match cmap[k].0 {
            CacheValue::Profile(p) => Ok(p),
            _ => Err(ApiError::Backend),
        }
    } else if has_user_id(db.users@, user_id) {
        Ok(ProfileView::spec_of(user_by_id(db.users@, user_id)))
    } else {
        Err(ApiError::NotFound)
    }
}

/// The cache a profile read leaves behind: populated on a miss that the
/// store answered, untouched otherwise.
pub open spec fn get_profile_cache(
    db: Database,
    cmap: Map<CacheKey, (CacheValue, u64)>,
    user_id: u128,
    now: u64,
) -> Map<CacheKey, (CacheValue, u64)> {
    let k = CacheKey::Profile { user_id };
    if cmap.contains_key(k) && cmap[k].1 > now {
        cmap
    } else if has_user_id(db.users@, user_id) {
        cmap.insert(
            k,
            (
                CacheValue::Profile(ProfileView::spec_of(user_by_id(db.users@, user_id))),
                (now + CACHE_TTL_SECONDS) as u64,
            ),
        )
    } else {
        cmap
    }
}

/// Reads the caller's profile through the cache: a live cached entry is
/// served as is; on a miss the store is read and the cache populated.
/// The password hash is never part of what is served or cached.
pub fn get_profile(db: &Database, conn: &mut Connection, user_id: u128, now: u64) -> (r: Result<
    ProfileView,
    ApiError,
>)
    requires
        db.inv(),
        old(conn).inv(),
        cache_wf(old(conn)@),
        now + CACHE_TTL_SECONDS <= u64::MAX,
    ensures
        final(conn).inv(),
        cache_wf(final(conn)@),
        r == get_profile_spec(*db, old(conn)@, user_id, now),
        final(conn)@ == get_profile_cache(*db, old(conn)@, user_id, now),
{
    let k = CacheKey::Profile { user_id };
    match conn.get(k, now) {
        Some(v) => match v {
            CacheValue::Profile(p) => Ok(p),
            _ => {
                proof {
                    assert(entry_fits(k, old(conn)@[k].0));
                    assert(false);
                }
                Err(ApiError::Backend)
            },
        },
        None => match db.find_user_by_id(user_id) {
            Some(u) => {
                proof {
                    let j = user_idx(db.users@, user_id);
                    assert(0 <= j < db.users@.len() && db.users@[j].id == user_id);
                }
                let view = ProfileView::of_user(&u);
                conn.set_ex(
                    k,
                    CacheValue::Profile(ProfileView::of_user(&u)),
                    CACHE_TTL_SECONDS,
                    now,
                );
                proof {
                    lemma_wf_insert(
                        old(conn)@,
                        k,
                        CacheValue::Profile(ProfileView::spec_of(user_by_id(db.users@, user_id))),
                        (now + CACHE_TTL_SECONDS) as u64,
                    );
                }
                Ok(view)
            },
            None => Err(ApiError::NotFound),
        },
    }
}

/// Rewrites the caller's profile from an already hashed password; the
/// cache entry is invalidated before anything else, so a failure on the
/// way can only ever leave the entry absent, never stale.  Succeeds
/// exactly when the user exists and the resulting username stays
/// unique.
pub fn update_profile_hashed(
    db: &mut Database,
    conn: &mut Connection,
    user_id: u128,
    new_username: &Option<String>,
    new_hash: &Option<String>,
    new_email: &Option<String>,
    now: u64,
) -> (r: Result<User, ApiError>)
    requires
        old(db).inv(),
        old(conn).inv(),
        cache_wf(old(conn)@),
        now + CACHE_TTL_SECONDS <= u64::MAX,
    ensures
        final(db).inv(),
        final(db).budgets@ == old(db).budgets@,
        final(db).expenses@ == old(db).expenses@,
        final(conn).inv(),
        cache_wf(final(conn)@),
        r is Ok <==> has_user_id(old(db).users@, user_id) && username_free_for(
            old(db).users@,
            apply_profile_update(
                user_by_id(old(db).users@, user_id),
                *new_username,
                *new_hash,
                *new_email,
            ).username@,
            user_id,
        ),
        r is Ok ==> ({
            let u1 = apply_profile_update(
                user_by_id(old(db).users@, user_id),
                *new_username,
                *new_hash,
                *new_email,
            );
            &&& r == Ok::<User, ApiError>(u1)
            &&& final(db).users@ == old(db).users@.update(user_idx(old(db).users@, user_id), u1)
            &&& final(conn)@ == old(conn)@.insert(
                CacheKey::Profile { user_id },
                (CacheValue::Profile(ProfileView::spec_of(u1)), (now + CACHE_TTL_SECONDS) as u64),
            )
        }),
        r is Err ==> final(db).users@ == old(db).users@ && final(conn)@ == old(conn)@.remove(
            CacheKey::Profile { user_id },
        ),
        !has_user_id(old(db).users@, user_id) ==> r == Err::<User, ApiError>(ApiError::NotFound),
        r is Err && has_user_id(old(db).users@, user_id) ==> r == Err::<User, ApiError>(
            ApiError::Backend,
        ),
{
    let k = CacheKey::Profile { user_id };
    conn.del(k);
    proof {
        lemma_wf_remove(old(conn)@, k);
    }
    let u0 = match db.find_user_by_id(user_id) {
        Some(u0) => u0,
        None => {
            return Err(ApiError::NotFound);
        },
    };
    proof {
        let j = user_idx(db.users@, user_id);
        assert(0 <= j < db.users@.len() && db.users@[j].id == user_id);
    }
    let u1 = User {
        id: u0.id,
        username: match new_username {
            Some(n) => n.clone(),
            None => u0.username,
        },
        password_hash: match new_hash {
            Some(h) => h.clone(),
            None => u0.password_hash,
        },
        email: match new_email {
            Some(e) => e.clone(),
            None => u0.email,
        },
    };
    match db.update_user(clone_user(&u1)) {
        Ok(()) => {
            let view = ProfileView::of_user(&u1);
            conn.set_ex(k, CacheValue::Profile(view), CACHE_TTL_SECONDS, now);
            proof {
                let m = old(conn)@.remove(k);
                lemma_wf_remove(old(conn)@, k);
                lemma_wf_insert(
                    m,
                    k,
                    CacheValue::Profile(ProfileView::spec_of(u1)),
                    (now + CACHE_TTL_SECONDS) as u64,
                );
                assert(m.insert(
                    k,
                    (CacheValue::Profile(ProfileView::spec_of(u1)), (now + CACHE_TTL_SECONDS) as u64),
                ) =~= old(conn)@.insert(
                    k,
                    (CacheValue::Profile(ProfileView::spec_of(u1)), (now + CACHE_TTL_SECONDS) as u64),
                ));
            }
            Ok(u1)
        },
        Err(e) => Err(e),
    }
}

/// Rewrites any subset of the caller's profile fields, hashing a new
/// password first; the cache entry is invalidated before the store is
/// touched and repopulated only on success.
pub fn update_profile(
    db: &mut Database,
    conn: &mut Connection,
    user_id: u128,
    form: &UpdateUser,
    now: u64,
) -> (r: Result<User, ApiError>)
    requires
        old(db).inv(),
        old(conn).inv(),
        cache_wf(old(conn)@),
        now + CACHE_TTL_SECONDS <= u64::MAX,
    ensures
        final(db).inv(),
        final(db).budgets@ == old(db).budgets@,
        final(db).expenses@ == old(db).expenses@,
        final(conn).inv(),
        cache_wf(final(conn)@),
        !has_user_id(old(db).users@, user_id) ==> r == Err::<User, ApiError>(ApiError::NotFound),
        r is Ok ==> ({
            let u1 = r.unwrap();
            &&& has_user_id(old(db).users@, user_id)
            &&& u1.id == user_id
            &&& u1.username == (match form.username {
                Some(n) => n,
                None => user_by_id(old(db).users@, user_id).username,
            })
            &&& u1.email == (match form.email {
                Some(e) => e,
                None => user_by_id(old(db).users@, user_id).email,
            })
            &&& (form.password is None ==> u1.password_hash == user_by_id(
                old(db).users@,
                user_id,
            ).password_hash)
            &&& (form.password is Some ==> u1.password_hash@.len() == 60
                && u1.password_hash@[0] == '$' && bcrypt_matches(
                form.password.unwrap()@,
                u1.password_hash@,
            ))
            &&& final(db).users@ == old(db).users@.update(user_idx(old(db).users@, user_id), u1)
            &&& final(conn)@ == old(conn)@.insert(
                CacheKey::Profile { user_id },
                (CacheValue::Profile(ProfileView::spec_of(u1)), (now + CACHE_TTL_SECONDS) as u64),
            )
        }),
        r is Err ==> final(db).users@ == old(db).users@ && final(conn)@ == old(conn)@.remove(
            CacheKey::Profile { user_id },
        ),
        has_user_id(old(db).users@, user_id) && form.password is None && username_free_for(
            old(db).users@,
            (match form.username {
                Some(n) => n,
                None => user_by_id(old(db).users@, user_id).username,
            })@,
            user_id,
        ) ==> r is Ok,
        r is Err && has_user_id(old(db).users@, user_id) ==> r == Err::<User, ApiError>(
            ApiError::Backend,
        ),
{
    let k = CacheKey::Profile { user_id };
    conn.del(k);
    proof {
        lemma_wf_remove(old(conn)@, k);
    }
    if db.find_user_by_id(user_id).is_none() {
        return Err(ApiError::NotFound);
    }
    let hashed: Option<String> = match &form.password {
        None => None,
        Some(p) => match hash_password(p) {
            Some(h) => Some(h),
            None => {
                return Err(ApiError::Backend);
            },
        },
    };
    let res = update_profile_hashed(db, conn, user_id, &form.username, &hashed, &form.email, now);
    proof {
        assert(old(conn)@.remove(k).remove(k) =~= old(conn)@.remove(k));
        if res is Ok {
            let u1 = apply_profile_update(
                user_by_id(old(db).users@, user_id),
                form.username,
                hashed,
                form.email,
            );
            assert(old(conn)@.remove(k).insert(
                k,
                (CacheValue::Profile(ProfileView::spec_of(u1)), (now + CACHE_TTL_SECONDS) as u64),
            ) =~= old(conn)@.insert(
                k,
                (CacheValue::Profile(ProfileView::spec_of(u1)), (now + CACHE_TTL_SECONDS) as u64),
            ));
        }
    }
    res
}

/// The budget row a creation stores: both timestamps are the request
/// time.
pub open spec fn new_budget_row(new_id: u128, user_id: u128, form: NewBudget, now: u64) -> Budget {
    Budget {
        id: new_id,
        user_id: user_id,
        name: form.name,
        total_amount: form.total_amount,
        created_at: now,
        updated_at: now,
    }
}

/// The row a budget update leaves behind: each present field replaces
/// its counterpart, identifier and owner never change, and the update
/// time is refreshed.
pub open spec fn apply_budget_update(b: Budget, form: UpdateBudget, now: u64) -> Budget {
    Budget {
        id: b.id,
        user_id: b.user_id,
        name: match form.name {
            Some(n) => n,
            None => b.name,
        },
        total_amount: match form.total_amount {
            Some(t) => t,
            None => b.total_amount,
        },
        created_at: b.created_at,
        updated_at: now,
    }
}

/// What a budget read yields: the cached row when a live entry is
/// there, else the owner-scoped store row, else a not-found — also when
/// the row exists but belongs to someone else.
pub open spec fn get_budget_spec(
    db: Database,
    cmap: Map<CacheKey, (CacheValue, u64)>,
    user_id: u128,
    budget_id: u128,
    now: u64,
) -> Result<Budget, ApiError> {
    let k = CacheKey::Budget { user_id, budget_id };
    if cmap.contains_key(k) && cmap[k].1 > now {
        match cmap[k].0 {
            CacheValue::Budget(b) => Ok(b),
            _ => Err(ApiError::Backend),
        }
    } else if db.owns_budget(user_id, budget_id) {
        Ok(budget_by_id(db.budgets@, budget_id))
    } else {
        Err(ApiError::NotFound)
    }
}

/// The cache a budget read leaves behind.
pub open spec fn get_budget_cache(
    db: Database,
    cmap: Map<CacheKey, (CacheValue, u64)>,
    user_id: u128,
    budget_id: u128,
    now: u64,
) -> Map<CacheKey, (CacheValue, u64)> {
    let k = CacheKey::Budget { user_id, budget_id };
    if cmap.contains_key(k) && cmap[k].1 > now {
        cmap
    } else if db.owns_budget(user_id, budget_id) {
        cmap.insert(
            k,
            (CacheValue::Budget(budget_by_id(db.budgets@, budget_id)), (now + CACHE_TTL_SECONDS) as u64),
        )
    } else {
        cmap
    }
}

/// All budgets of the caller, uncached.
pub fn get_budgets(db: &Database, user_id: u128) -> (r: Vec<Budget>)
    ensures
        r@ == budgets_of(db.budgets@, user_id),
{
    db.budgets_of_user(user_id)
}

/// Reads one budget through the cache, scoped to the caller: another
/// user's budget is a not-found, never served.
pub fn get_budget(
    db: &Database,
    conn: &mut Connection,
    user_id: u128,
    budget_id: u128,
    now: u64,
) -> (r: Result<Budget, ApiError>)
    requires
        db.inv(),
        old(conn).inv(),
        cache_wf(old(conn)@),
        now + CACHE_TTL_SECONDS <= u64::MAX,
    ensures
        final(conn).inv(),
        cache_wf(final(conn)@),
        r == get_budget_spec(*db, old(conn)@, user_id, budget_id, now),
        final(conn)@ == get_budget_cache(*db, old(conn)@, user_id, budget_id, now),
{
    let k = CacheKey::Budget { user_id, budget_id };
    match conn.get(k, now) {
        Some(v) => match v {
            CacheValue::Budget(b) => Ok(b),
            _ => {
                proof {
                    assert(entry_fits(k, old(conn)@[k].0));
                    assert(false);
                }
                Err(ApiError::Backend)
            },
        },
        None => match db.find_budget(user_id, budget_id) {
            Some(b) => {
                proof {
                    let j = budget_idx(db.budgets@, budget_id);
                    assert(0 <= j < db.budgets@.len() && db.budgets@[j].id == budget_id);
                }
                conn.set_ex(k, CacheValue::Budget(clone_budget(&b)), CACHE_TTL_SECONDS, now);
                proof {
                    lemma_wf_insert(
                        old(conn)@,
                        k,
                        CacheValue::Budget(budget_by_id(db.budgets@, budget_id)),
                        (now + CACHE_TTL_SECONDS) as u64,
                    );
                }
                Ok(b)
            },
            None => Err(ApiError::NotFound),
        },
    }
}

/// Stores a budget row under a caller-supplied identifier and request
/// time; succeeds exactly when the identifier is free and the owner
/// exists.
pub fn post_budget_at(
    db: &mut Database,
    user_id: u128,
    form: &NewBudget,
    new_id: u128,
    now: u64,
) -> (r: Result<Budget, ApiError>)
    requires
        old(db).inv(),
    ensures
        final(db).inv(),
        final(db).users@ == old(db).users@,
        final(db).expenses@ == old(db).expenses@,
        r is Ok <==> !has_budget_id(old(db).budgets@, new_id) && has_user_id(
            old(db).users@,
            user_id,
        ),
        r is Ok ==> r == Ok::<Budget, ApiError>(new_budget_row(new_id, user_id, *form, now))
            && final(db).budgets@ == old(db).budgets@.push(r.unwrap()),
        r is Err ==> final(db).budgets@ == old(db).budgets@ && r == Err::<Budget, ApiError>(
            ApiError::Backend,
        ),
{
    let row = Budget {
        id: new_id,
        user_id,
        name: form.name.clone(),
        total_amount: form.total_amount,
        created_at: now,
        updated_at: now,
    };
    match db.insert_budget(clone_budget(&row)) {
        Ok(()) => {
            match db.find_budget(user_id, new_id) {
                Some(b) => {
                    proof {
                        let j = budget_idx(db.budgets@, new_id);
                        assert(0 <= j < db.budgets@.len() && db.budgets@[j].id == new_id);
                        if j != db.budgets@.len() - 1 {
                            assert(old(db).budgets@[j].id == new_id);
                            assert(has_budget_id(old(db).budgets@, new_id));
                        }
                    }
                    Ok(b)
                },
                None => {
                    proof {
                        assert(db.budgets@[db.budgets@.len() - 1].id == new_id);
                        assert(has_budget_id(db.budgets@, new_id));
                        assert(db.budgets@[db.budgets@.len() - 1].user_id == user_id);
                        let j = budget_idx(db.budgets@, new_id);
                        assert(0 <= j < db.budgets@.len() && db.budgets@[j].id == new_id);
                        assert(j == db.budgets@.len() - 1);
                        assert(false);
                    }
                    Err(ApiError::Backend)
                },
            }
        },
        Err(e) => Err(e),
    }
}

/// Creates a budget for the caller: draws a fresh identifier, stamps
/// both timestamps with the clock, and stores the row.
pub fn post_budget(db: &mut Database, user_id: u128, form: &NewBudget) -> (r: Result<
    Budget,
    ApiError,
>)
    requires
        old(db).inv(),
    ensures
        final(db).inv(),
        final(db).users@ == old(db).users@,
        final(db).expenses@ == old(db).expenses@,
        r is Ok ==> ({
            let b = r.unwrap();
            &&& b.user_id == user_id
            &&& b.name == form.name
            &&& b.total_amount == form.total_amount
            &&& b.created_at == b.updated_at
            &&& !has_budget_id(old(db).budgets@, b.id)
            &&& final(db).budgets@ == old(db).budgets@.push(b)
        }),
        r is Err ==> final(db).budgets@ == old(db).budgets@ && r == Err::<Budget, ApiError>(
            ApiError::Backend,
        ),
        !has_user_id(old(db).users@, user_id) ==> r is Err,
{
    let new_id = fresh_id();
    let now = now_seconds();
    post_budget_at(db, user_id, form, new_id, now)
}

/// Rewrites the caller's budget from the present fields of the form;
/// the cache entry is invalidated first and repopulated only on
/// success.  A budget that is absent — or another user's — is a
/// not-found, and the store is untouched.
pub fn update_budget(
    db: &mut Database,
    conn: &mut Connection,
    user_id: u128,
    budget_id: u128,
    form: &UpdateBudget,
    now: u64,
) -> (r: Result<Budget, ApiError>)
    requires
        old(db).inv(),
        old(conn).inv(),
        cache_wf(old(conn)@),
        now + CACHE_TTL_SECONDS <= u64::MAX,
    ensures
        final(db).inv(),
        final(db).users@ == old(db).users@,
        final(db).expenses@ == old(db).expenses@,
        final(conn).inv(),
        cache_wf(final(conn)@),
        old(db).owns_budget(user_id, budget_id) ==> ({
            let b1 = apply_budget_update(budget_by_id(old(db).budgets@, budget_id), *form, now);
            &&& r == Ok::<Budget, ApiError>(b1)
            &&& final(db).budgets@ == old(db).budgets@.update(
                budget_idx(old(db).budgets@, budget_id),
                b1,
            )
            &&& final(conn)@ == old(conn)@.insert(
                CacheKey::Budget { user_id, budget_id },
                (CacheValue::Budget(b1), (now + CACHE_TTL_SECONDS) as u64),
            )
        }),
        !old(db).owns_budget(user_id, budget_id) ==> r == Err::<Budget, ApiError>(
            ApiError::NotFound,
        ) && final(db).budgets@ == old(db).budgets@ && final(conn)@ == old(conn)@.remove(
            CacheKey::Budget { user_id, budget_id },
        ),
{
    let k = CacheKey::Budget { user_id, budget_id };
    conn.del(k);
    proof {
        lemma_wf_remove(old(conn)@, k);
    }
    let b0 = match db.find_budget(user_id, budget_id) {
        Some(b0) => b0,
        None => {
            return Err(ApiError::NotFound);
        },
    };
    proof {
        let j = budget_idx(db.budgets@, budget_id);
        assert(0 <= j < db.budgets@.len() && db.budgets@[j].id == budget_id);
    }
    let b1 = Budget {
        id: b0.id,
        user_id: b0.user_id,
        name: match &form.name {
            Some(n) => n.clone(),
            None => b0.name,
        },
        total_amount: match form.total_amount {
            Some(t) => t,
            None => b0.total_amount,
        },
        created_at: b0.created_at,
        updated_at: now,
    };
    db.replace_budget(clone_budget(&b1));
    conn.set_ex(k, CacheValue::Budget(clone_budget(&b1)), CACHE_TTL_SECONDS, now);
    proof {
        let m = old(conn)@.remove(k);
        lemma_wf_remove(old(conn)@, k);
        lemma_wf_insert(m, k, CacheValue::Budget(b1), (now + CACHE_TTL_SECONDS) as u64);
        assert(m.insert(k, (CacheValue::Budget(b1), (now + CACHE_TTL_SECONDS) as u64)) =~= old(
            conn,
        )@.insert(k, (CacheValue::Budget(b1), (now + CACHE_TTL_SECONDS) as u64)));
    }
    Ok(b1)
}

/// Deletes the caller's budget and the expenses under it, invalidating
/// the cache entry first.  Deleting a budget that is absent, or another
/// user's, still succeeds with nothing changed, as a filtered bulk
/// delete does.
pub fn delete_budget(
    db: &mut Database,
    conn: &mut Connection,
    user_id: u128,
    budget_id: u128,
) -> (r: Result<(), ApiError>)
    requires
        old(db).inv(),
        old(conn).inv(),
        cache_wf(old(conn)@),
    ensures
        final(db).inv(),
        final(conn).inv(),
        cache_wf(final(conn)@),
        r is Ok,
        final(db).users@ == old(db).users@,
        final(conn)@ == old(conn)@.remove(CacheKey::Budget { user_id, budget_id }),
        old(db).owns_budget(user_id, budget_id) ==> final(db).budgets@ == old(
            db,
        ).budgets@.remove(budget_idx(old(db).budgets@, budget_id)) && final(db).expenses@
            == expenses_without_budget(old(db).expenses@, budget_id) && !has_budget_id(
            final(db).budgets@,
            budget_id,
        ),
        !old(db).owns_budget(user_id, budget_id) ==> final(db).budgets@ == old(db).budgets@
            && final(db).expenses@ == old(db).expenses@,
{
    let k = CacheKey::Budget { user_id, budget_id };
    conn.del(k);
    proof {
        lemma_wf_remove(old(conn)@, k);
    }
    db.delete_budget_scoped(user_id, budget_id);
    Ok(())
}

/// The expense row a creation stores: the date is the request day, both
/// timestamps the request time.
pub open spec fn new_expense_row(new_id: u128, budget_id: u128, form: NewExpense, now: u64) -> Expense {
    Expense {
        id: new_id,
        budget_id: budget_id,
        amount: form.amount,
        description: form.description,
        date: now / 86400,
        created_at: now,
        updated_at: now,
    }
}

/// The row an expense update leaves behind: each present field replaces
/// its counterpart, identifier, owner and date never change, and the
/// update time is refreshed.
pub open spec fn apply_expense_update(x: Expense, form: UpdateExpense, now: u64) -> Expense {
    Expense {
        id: x.id,
        budget_id: x.budget_id,
        amount: match form.amount {
            Some(a) => a,
            None => x.amount,
        },
        description: match form.description {
            Some(d) => d,
            None => x.description,
        },
        date: x.date,
        created_at: x.created_at,
        updated_at: now,
    }
}

/// All expenses of one of the caller's budgets, uncached; a budget that
/// is absent or another user's is a not-found.
pub fn get_expenses(db: &Database, user_id: u128, budget_id: u128) -> (r: Result<
    Vec<Expense>,
    ApiError,
>)
    requires
        db.inv(),
    ensures
        r is Ok <==> db.owns_budget(user_id, budget_id),
        r is Ok ==> r.unwrap()@ == expenses_of(db.expenses@, budget_id),
        r is Err ==> r == Err::<Vec<Expense>, ApiError>(ApiError::NotFound),
{
    match db.find_budget(user_id, budget_id) {
        Some(_) => Ok(db.expenses_of_budget(budget_id)),
        None => Err(ApiError::NotFound),
    }
}

/// What an expense read yields: the cached row when a live entry is
/// there, else the row scoped through the caller's budget, else a
/// not-found.
pub open spec fn get_expense_spec(
    db: Database,
    cmap: Map<CacheKey, (CacheValue, u64)>,
    user_id: u128,
    budget_id: u128,
    expense_id: u128,
    now: u64,
) -> Result<Expense, ApiError> {
    let k = CacheKey::Expense { user_id, budget_id, expense_id };
    if cmap.contains_key(k) && cmap[k].1 > now {
        match cmap[k].0 {
            CacheValue::Expense(x) => Ok(x),
            _ => Err(ApiError::Backend),
        }
    } else if db.owns_budget(user_id, budget_id) && db.budget_has_expense(budget_id, expense_id) {
        Ok(expense_by_id(db.expenses@, expense_id))
    } else {
        Err(ApiError::NotFound)
    }
}

/// The cache an expense read leaves behind.
pub open spec fn get_expense_cache(
    db: Database,
    cmap: Map<CacheKey, (CacheValue, u64)>,
    user_id: u128,
    budget_id: u128,
    expense_id: u128,
    now: u64,
) -> Map<CacheKey, (CacheValue, u64)> {
    let k = CacheKey::Expense { user_id, budget_id, expense_id };
    if cmap.contains_key(k) && cmap[k].1 > now {
        cmap
    } else if db.owns_budget(user_id, budget_id) && db.budget_has_expense(budget_id, expense_id) {
        cmap.insert(
            k,
            (CacheValue::Expense(expense_by_id(db.expenses@, expense_id)), (now + CACHE_TTL_SECONDS) as u64),
        )
    } else {
        cmap
    }
}

/// Reads one expense through the cache, scoped through the caller's
/// budget.
pub fn get_expense(
    db: &Database,
    conn: &mut Connection,
    user_id: u128,
    budget_id: u128,
    expense_id: u128,
    now: u64,
) -> (r: Result<Expense, ApiError>)
    requires
        db.inv(),
        old(conn).inv(),
        cache_wf(old(conn)@),
        now + CACHE_TTL_SECONDS <= u64::MAX,
    ensures
        final(conn).inv(),
        cache_wf(final(conn)@),
        r == get_expense_spec(*db, old(conn)@, user_id, budget_id, expense_id, now),
        final(conn)@ == get_expense_cache(*db, old(conn)@, user_id, budget_id, expense_id, now),
{
    let k = CacheKey::Expense { user_id, budget_id, expense_id };
    match conn.get(k, now) {
        Some(v) => match v {
            CacheValue::Expense(x) => Ok(x),
            _ => {
                proof {
                    assert(entry_fits(k, old(conn)@[k].0));
                    assert(false);
                }
                Err(ApiError::Backend)
            },
        },
        None => match db.find_budget(user_id, budget_id) {
            None => Err(ApiError::NotFound),
            Some(_) => match db.find_expense(budget_id, expense_id) {
                Some(x) => {
                    proof {
                        let j = expense_idx(db.expenses@, expense_id);
                        assert(0 <= j < db.expenses@.len() && db.expenses@[j].id == expense_id);
                    }
                    conn.set_ex(k, CacheValue::Expense(clone_expense(&x)), CACHE_TTL_SECONDS, now);
                    proof {
                        lemma_wf_insert(
                            old(conn)@,
                            k,
                            CacheValue::Expense(expense_by_id(db.expenses@, expense_id)),
                            (now + CACHE_TTL_SECONDS) as u64,
                        );
                    }
                    Ok(x)
                },
                None => Err(ApiError::NotFound),
            },
        },
    }
}

/// Stores an expense row under a caller-supplied identifier and request
/// time; succeeds exactly when the caller owns the budget and the
/// identifier is free.
pub fn post_expense_at(
    db: &mut Database,
    user_id: u128,
    budget_id: u128,
    form: &NewExpense,
    new_id: u128,
    now: u64,
) -> (r: Result<Expense, ApiError>)
    requires
        old(db).inv(),
    ensures
        final(db).inv(),
        final(db).users@ == old(db).users@,
        final(db).budgets@ == old(db).budgets@,
        r is Ok <==> old(db).owns_budget(user_id, budget_id) && !has_expense_id(
            old(db).expenses@,
            new_id,
        ),
        r is Ok ==> r == Ok::<Expense, ApiError>(new_expense_row(new_id, budget_id, *form, now))
            && final(db).expenses@ == old(db).expenses@.push(r.unwrap()),
        r is Err ==> final(db).expenses@ == old(db).expenses@,
        !old(db).owns_budget(user_id, budget_id) ==> r == Err::<Expense, ApiError>(
            ApiError::NotFound,
        ),
        r is Err && old(db).owns_budget(user_id, budget_id) ==> r == Err::<Expense, ApiError>(
            ApiError::Backend,
        ),
{
    if db.find_budget(user_id, budget_id).is_none() {
        return Err(ApiError::NotFound);
    }
    proof {
        let j = budget_idx(db.budgets@, budget_id);
        assert(0 <= j < db.budgets@.len() && db.budgets@[j].id == budget_id);
    }
    let row = Expense {
        id: new_id,
        budget_id,
        amount: form.amount,
        description: form.description.clone(),
        date: now / 86400,
        created_at: now,
        updated_at: now,
    };
    match db.insert_expense(clone_expense(&row)) {
        Ok(()) => {
            match db.find_expense(budget_id, new_id) {
                Some(x) => {
                    proof {
                        let j = expense_idx(db.expenses@, new_id);
                        assert(0 <= j < db.expenses@.len() && db.expenses@[j].id == new_id);
                        if j != db.expenses@.len() - 1 {
                            assert(old(db).expenses@[j].id == new_id);
                            assert(has_expense_id(old(db).expenses@, new_id));
                        }
                    }
                    Ok(x)
                },
                None => {
                    proof {
                        assert(db.expenses@[db.expenses@.len() - 1].id == new_id);
                        assert(has_expense_id(db.expenses@, new_id));
                        let j = expense_idx(db.expenses@, new_id);
                        assert(0 <= j < db.expenses@.len() && db.expenses@[j].id == new_id);
                        assert(j == db.expenses@.len() - 1);
                        assert(false);
                    }
                    Err(ApiError::Backend)
                },
            }
        },
        Err(e) => Err(e),
    }
}

/// Records an expense under one of the caller's budgets: draws a fresh
/// identifier, stamps date and timestamps with the clock, and stores
/// the row.
pub fn post_expense(
    db: &mut Database,
    user_id: u128,
    budget_id: u128,
    form: &NewExpense,
) -> (r: Result<Expense, ApiError>)
    requires
        old(db).inv(),
    ensures
        final(db).inv(),
        final(db).users@ == old(db).users@,
        final(db).budgets@ == old(db).budgets@,
        r is Ok ==> ({
            let x = r.unwrap();
            &&& x.budget_id == budget_id
            &&& x.amount == form.amount
            &&& x.description == form.description
            &&& x.created_at == x.updated_at
            &&& old(db).owns_budget(user_id, budget_id)
            &&& !has_expense_id(old(db).expenses@, x.id)
            &&& final(db).expenses@ == old(db).expenses@.push(x)
        }),
        r is Err ==> final(db).expenses@ == old(db).expenses@,
        !old(db).owns_budget(user_id, budget_id) ==> r == Err::<Expense, ApiError>(
            ApiError::NotFound,
        ),
{
    let new_id = fresh_id();
    let now = now_seconds();
    post_expense_at(db, user_id, budget_id, form, new_id, now)
}

/// Rewrites one of the caller's expenses from the present fields of the
/// form; the cache entry is invalidated first and repopulated only on
/// success.
pub fn update_expense(
    db: &mut Database,
    conn: &mut Connection,
    user_id: u128,
    budget_id: u128,
    expense_id: u128,
    form: &UpdateExpense,
    now: u64,
) -> (r: Result<Expense, ApiError>)
    requires
        old(db).inv(),
        old(conn).inv(),
        cache_wf(old(conn)@),
        now + CACHE_TTL_SECONDS <= u64::MAX,
    ensures
        final(db).inv(),
        final(db).users@ == old(db).users@,
        final(db).budgets@ == old(db).budgets@,
        final(conn).inv(),
        cache_wf(final(conn)@),
        old(db).owns_budget(user_id, budget_id) && old(db).budget_has_expense(
            budget_id,
            expense_id,
        ) ==> ({
            let x1 = apply_expense_update(expense_by_id(old(db).expenses@, expense_id), *form, now);
            &&& r == Ok::<Expense, ApiError>(x1)
            &&& final(db).expenses@ == old(db).expenses@.update(
                expense_idx(old(db).expenses@, expense_id),
                x1,
            )
            &&& final(conn)@ == old(conn)@.insert(
                CacheKey::Expense { user_id, budget_id, expense_id },
                (CacheValue::Expense(x1), (now + CACHE_TTL_SECONDS) as u64),
            )
        }),
        !(old(db).owns_budget(user_id, budget_id) && old(db).budget_has_expense(
            budget_id,
            expense_id,
        )) ==> r == Err::<Expense, ApiError>(ApiError::NotFound) && final(db).expenses@ == old(
            db,
        ).expenses@ && final(conn)@ == old(conn)@.remove(
            CacheKey::Expense { user_id, budget_id, expense_id },
        ),
{
    let k = CacheKey::Expense { user_id, budget_id, expense_id };
    conn.del(k);
    proof {
        lemma_wf_remove(old(conn)@, k);
    }
    if db.find_budget(user_id, budget_id).is_none() {
        return Err(ApiError::NotFound);
    }
    let x0 = match db.find_expense(budget_id, expense_id) {
        Some(x0) => x0,
        None => {
            return Err(ApiError::NotFound);
        },
    };
    proof {
        let j = expense_idx(db.expenses@, expense_id);
        assert(0 <= j < db.expenses@.len() && db.expenses@[j].id == expense_id);
    }
    let x1 = Expense {
        id: x0.id,
        budget_id: x0.budget_id,
        amount: match form.amount {
            Some(a) => a,
            None => x0.amount,
        },
        description: match &form.description {
            Some(d) => d.clone(),
            None => x0.description,
        },
        date: x0.date,
        created_at: x0.created_at,
        updated_at: now,
    };
    db.replace_expense(clone_expense(&x1));
    conn.set_ex(k, CacheValue::Expense(clone_expense(&x1)), CACHE_TTL_SECONDS, now);
    proof {
        let m = old(conn)@.remove(k);
        lemma_wf_remove(old(conn)@, k);
        lemma_wf_insert(m, k, CacheValue::Expense(x1), (now + CACHE_TTL_SECONDS) as u64);
        assert(m.insert(k, (CacheValue::Expense(x1), (now + CACHE_TTL_SECONDS) as u64)) =~= old(
            conn,
        )@.insert(k, (CacheValue::Expense(x1), (now + CACHE_TTL_SECONDS) as u64)));
    }
    Ok(x1)
}

/// Deletes one of the caller's expenses, invalidating the cache entry
/// first.  Deleting an expense that is absent, or out of the caller's
/// scope, still succeeds with nothing changed.
pub fn delete_expense(
    db: &mut Database,
    conn: &mut Connection,
    user_id: u128,
    budget_id: u128,
    expense_id: u128,
) -> (r: Result<(), ApiError>)
    requires
        old(db).inv(),
        old(conn).inv(),
        cache_wf(old(conn)@),
    ensures
        final(db).inv(),
        final(conn).inv(),
        cache_wf(final(conn)@),
        r is Ok,
        final(db).users@ == old(db).users@,
        final(db).budgets@ == old(db).budgets@,
        final(conn)@ == old(conn)@.remove(CacheKey::Expense { user_id, budget_id, expense_id }),
        old(db).owns_budget(user_id, budget_id) && old(db).budget_has_expense(
            budget_id,
            expense_id,
        ) ==> final(db).expenses@ == old(db).expenses@.remove(
            expense_idx(old(db).expenses@, expense_id),
        ) && !has_expense_id(final(db).expenses@, expense_id),
        !(old(db).owns_budget(user_id, budget_id) && old(db).budget_has_expense(
            budget_id,
            expense_id,
        )) ==> final(db).expenses@ == old(db).expenses@,
{
    let k = CacheKey::Expense { user_id, budget_id, expense_id };
    conn.del(k);
    proof {
        lemma_wf_remove(old(conn)@, k);
    }
    if db.find_budget(user_id, budget_id).is_some() {
        db.delete_expense_scoped(budget_id, expense_id);
    }
    Ok(())
}

/// Relies on uuid::Uuid::new_v4, read as its 128-bit value: a randomly
/// drawn identifier.  Nothing is assumed of the value; the handlers
/// treat a collision like any other unique-constraint violation.
#[verifier::external_body]
fn random_id() -> u128 {
    uuid::Uuid::new_v4().as_u128()
}

/// Relies on chrono::Utc::now for the wall clock as seconds since the
/// epoch.  Nothing is assumed of the value.
#[verifier::external_body]
fn clock_seconds() -> i64 {
    chrono::Utc::now().timestamp()
}

/// A fresh identifier for a new row.
fn fresh_id() -> u128 {
    random_id()
}

/// The request time in seconds since the epoch, clamped into the range
/// every handler and the token lifetime can work with.
pub fn now_seconds() -> (t: u64)
    ensures
        t + TOKEN_TTL_SECONDS <= u64::MAX,
        t + CACHE_TTL_SECONDS <= u64::MAX,
{
    let raw = clock_seconds();
    if raw < 0 {
        0
    } else {
        let t = raw as u64;
        if t > u64::MAX - 86400 {
            u64::MAX - 86400
        } else {
            t
        }
    }
}

} // verus!
