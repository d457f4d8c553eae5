//! The persistence layer model: three relations held in memory, with the
//! invariants the schema promises — unique identifiers, a unique
//! username, and foreign keys from budget to user and from expense to
//! budget.  Every operation is scoped the way the handlers need it:
//! budgets by their owning user, expenses by their owning budget.

use vstd::prelude::*;

use crate::types::ApiError;
use crate::types::Budget;
use crate::types::Expense;
use crate::types::User;

verus! {

/// Whether some row of `s` has identifier `id`.
pub open spec fn has_user_id(s: Seq<User>, id: u128) -> bool {
    exists|i: int| 0 <= i < s.len() && s[i].id == id
}

/// The index of the row with identifier `id` (unique when the database
/// invariant holds).
pub open spec fn user_idx(s: Seq<User>, id: u128) -> int {
    choose|i: int| 0 <= i < s.len() && s[i].id == id
}

/// The row with identifier `id`.
pub open spec fn user_by_id(s: Seq<User>, id: u128) -> User {
    s[user_idx(s, id)]
}

/// Whether some row of `s` has this username.
pub open spec fn has_username(s: Seq<User>, name: Seq<char>) -> bool {
    exists|i: int| 0 <= i < s.len() && s[i].username@ == name
}

/// The index of the row with this username.
pub open spec fn username_idx(s: Seq<User>, name: Seq<char>) -> int {
    choose|i: int| 0 <= i < s.len() && s[i].username@ == name
}

/// The row with this username.
pub open spec fn user_by_username(s: Seq<User>, name: Seq<char>) -> User {
    s[username_idx(s, name)]
}

/// Whether some budget row has identifier `id`.
pub open spec fn has_budget_id(s: Seq<Budget>, id: u128) -> bool {
    exists|i: int| 0 <= i < s.len() && s[i].id == id
}

/// The index of the budget with identifier `id`.
pub open spec fn budget_idx(s: Seq<Budget>, id: u128) -> int {
    choose|i: int| 0 <= i < s.len() && s[i].id == id
}

/// The budget with identifier `id`.
pub open spec fn budget_by_id(s: Seq<Budget>, id: u128) -> Budget {
    s[budget_idx(s, id)]
}

/// Whether some expense row has identifier `id`.
pub open spec fn has_expense_id(s: Seq<Expense>, id: u128) -> bool {
    exists|i: int| 0 <= i < s.len() && s[i].id == id
}

/// The index of the expense with identifier `id`.
pub open spec fn expense_idx(s: Seq<Expense>, id: u128) -> int {
    choose|i: int| 0 <= i < s.len() && s[i].id == id
}

/// The expense with identifier `id`.
pub open spec fn expense_by_id(s: Seq<Expense>, id: u128) -> Expense {
    s[expense_idx(s, id)]
}

/// The budgets of one user, in storage order.
pub open spec fn budgets_of(s: Seq<Budget>, user_id: u128) -> Seq<Budget>
    decreases s.len(),
{
    if s.len() == 0 {
        Seq::empty()
    } else if s.last().user_id == user_id {
        budgets_of(s.drop_last(), user_id).push(s.last())
    } else {
        budgets_of(s.drop_last(), user_id)
    }
}

/// The expenses of one budget, in storage order.
pub open spec fn expenses_of(s: Seq<Expense>, budget_id: u128) -> Seq<Expense>
    decreases s.len(),
{
    if s.len() == 0 {
        Seq::empty()
    } else if s.last().budget_id == budget_id {
        expenses_of(s.drop_last(), budget_id).push(s.last())
    } else {
        expenses_of(s.drop_last(), budget_id)
    }
}

/// The expense rows that survive deleting a whole budget.
pub open spec fn expenses_without_budget(s: Seq<Expense>, budget_id: u128) -> Seq<Expense>
    decreases s.len(),
{
    if s.len() == 0 {
        Seq::empty()
    } else if s.last().budget_id == budget_id {
        expenses_without_budget(s.drop_last(), budget_id)
    } else {
        expenses_without_budget(s.drop_last(), budget_id).push(s.last())
    }
}

/// The three relations.
pub struct Database {
    pub users: Vec<User>,
    pub budgets: Vec<Budget>,
    pub expenses: Vec<Expense>,
}

impl Database {
    /// The schema's invariants: identifiers unique within each relation,
    /// usernames unique, and both foreign keys intact.
    pub open spec fn inv(self) -> bool {
        &&& forall|i: int, j: int|
            0 <= i < self.users@.len() && 0 <= j < self.users@.len() && i != j
                ==> self.users@[i].id != self.users@[j].id
        &&& forall|i: int, j: int|
            0 <= i < self.users@.len() && 0 <= j < self.users@.len() && i != j
                ==> self.users@[i].username@ != self.users@[j].username@
        &&& forall|i: int, j: int|
            0 <= i < self.budgets@.len() && 0 <= j < self.budgets@.len() && i != j
                ==> self.budgets@[i].id != self.budgets@[j].id
        &&& forall|i: int, j: int|
            0 <= i < self.expenses@.len() && 0 <= j < self.expenses@.len() && i != j
                ==> self.expenses@[i].id != self.expenses@[j].id
        &&& forall|i: int|
            0 <= i < self.budgets@.len() ==> has_user_id(self.users@, #[trigger] self.budgets@[i].user_id)
        &&& forall|i: int|
            0 <= i < self.expenses@.len() ==> has_budget_id(self.budgets@, #[trigger] self.expenses@[i].budget_id)
    }

    /// Whether the budget `budget_id` exists and is owned by `user_id`.
    pub open spec fn owns_budget(self, user_id: u128, budget_id: u128) -> bool {
        has_budget_id(self.budgets@, budget_id) && budget_by_id(self.budgets@, budget_id).user_id
            == user_id
    }

    /// Whether the expense `expense_id` exists under the budget
    /// `budget_id`.
    pub open spec fn budget_has_expense(self, budget_id: u128, expense_id: u128) -> bool {
        has_expense_id(self.expenses@, expense_id) && expense_by_id(self.expenses@, expense_id).budget_id
            == budget_id
    }

    /// A fresh, empty store.
    pub fn new() -> (db: Database)
        ensures
            db.inv(),
            db.users@ == Seq::<User>::empty(),
            db.budgets@ == Seq::<Budget>::empty(),
            db.expenses@ == Seq::<Expense>::empty(),
    {
        Database { users: Vec::new(), budgets: Vec::new(), expenses: Vec::new() }
    }

    /// Looks a user up by identifier.
    #[verifier::loop_isolation(false)]
    pub fn find_user_by_id(&self, id: u128) -> (r: Option<User>)
        requires
            self.inv(),
        ensures
            r is Some <==> has_user_id(self.users@, id),
            r is Some ==> r.unwrap() == user_by_id(self.users@, id),
    {
        let s = &self.users;
        let n = s.len();
        let mut i: usize = 0;
        while i < n
            invariant
                0 <= i <= n == s@.len(),
                forall|k: int| 0 <= k < i ==> s@[k].id != id,
            decreases n - i,
        {
            if s[i].id == id {
                proof {
                    assert(has_user_id(s@, id));
                    let j = user_idx(s@, id);
                    assert(0 <= j < s@.len() && s@[j].id == id);
                    assert(self.inv());
                    assert(s@[i as int] == s@[j]);
                }
                return Some(clone_user(&s[i]));
            }
            i += 1;
        }
        None
    }

    /// Looks a user up by username; this is the one unscoped lookup, for
    /// login.
    #[verifier::loop_isolation(false)]
    pub fn find_user_by_username(&self, name: &String) -> (r: Option<User>)
        requires
            self.inv(),
        ensures
            r is Some <==> has_username(self.users@, name@),
            r is Some ==> r.unwrap() == user_by_username(self.users@, name@),
    {
        let s = &self.users;
        let n = s.len();
        let mut i: usize = 0;
        while i < n
            invariant
                0 <= i <= n == s@.len(),
                forall|k: int| 0 <= k < i ==> s@[k].username@ != name@,
            decreases n - i,
        {
            if s[i].username.eq(name) {
                proof {
                    assert(has_username(s@, name@));
                    let j = username_idx(s@, name@);
                    assert(0 <= j < s@.len() && s@[j].username@ == name@);
                    assert(s@[i as int] == s@[j]);
                }
                return Some(clone_user(&s[i]));
            }
            i += 1;
        }
        None
    }

    /// Inserts a user row; refused (as the unique constraints would) when
    /// the identifier or the username is already taken.
    #[verifier::loop_isolation(false)]
    pub fn insert_user(&mut self, u: User) -> (r: Result<(), ApiError>)
        requires
            old(self).inv(),
        ensures
            final(self).inv(),
            r is Ok <==> !has_user_id(old(self).users@, u.id) && !has_username(
                old(self).users@,
                u.username@,
            ),
            r is Ok ==> final(self).users@ == old(self).users@.push(u),
            r is Err ==> final(self).users@ == old(self).users@ && r == Err::<(), ApiError>(
                ApiError::Backend,
            ),
            final(self).budgets@ == old(self).budgets@,
            final(self).expenses@ == old(self).expenses@,
    {
        let n = self.users.len();
        let mut i: usize = 0;
        while i < n
            invariant
                0 <= i <= n == self.users@.len(),
                forall|k: int| 0 <= k < i ==> self.users@[k].id != u.id,
                forall|k: int| 0 <= k < i ==> self.users@[k].username@ != u.username@,
            decreases n - i,
        {
            if self.users[i].id == u.id {
                assert(has_user_id(self.users@, u.id));
                return Err(ApiError::Backend);
            }
            if self.users[i].username.eq(&u.username) {
                assert(has_username(self.users@, u.username@));
                return Err(ApiError::Backend);
            }
            i += 1;
        }
        let ghost old_users = self.users@;
        self.users.push(u);
        proof {
            assert forall|i: int| 0 <= i < self.budgets@.len() implies has_user_id(
                self.users@,
                #[trigger] self.budgets@[i].user_id,
            ) by {
                let j = choose|j: int|
                    0 <= j < old_users.len() && old_users[j].id == self.budgets@[i].user_id;
                assert(self.users@[j].id == self.budgets@[i].user_id);
            }
        }
        Ok(())
    }

    /// Rewrites the user row that shares `u`'s identifier; refused when
    /// another user already holds the new username.
    #[verifier::loop_isolation(false)]
    pub fn update_user(&mut self, u: User) -> (r: Result<(), ApiError>)
        requires
            old(self).inv(),
            has_user_id(old(self).users@, u.id),
        ensures
            final(self).inv(),
            r is Ok <==> forall|k: int|
                0 <= k < old(self).users@.len() && old(self).users@[k].username@ == u.username@
                    ==> old(self).users@[k].id == u.id,
            r is Ok ==> final(self).users@ == old(self).users@.update(
                user_idx(old(self).users@, u.id),
                u,
            ),
            r is Err ==> final(self).users@ == old(self).users@ && r == Err::<(), ApiError>(
                ApiError::Backend,
            ),
            final(self).budgets@ == old(self).budgets@,
            final(self).expenses@ == old(self).expenses@,
    {
        let n = self.users.len();
        let mut i: usize = 0;
        while i < n
            invariant
                0 <= i <= n == self.users@.len(),
                self == old(self),
                forall|k: int|
                    0 <= k < i && self.users@[k].username@ == u.username@ ==> self.users@[k].id
                        == u.id,
            decreases n - i,
        {
            if self.users[i].username.eq(&u.username) && self.users[i].id != u.id {
                return Err(ApiError::Backend);
            }
            i += 1;
        }
        let mut i: usize = 0;
        while i < n
            invariant
                0 <= i <= n == self.users@.len(),
                self == old(self),
                forall|k: int| 0 <= k < i ==> self.users@[k].id != u.id,
            decreases n - i,
        {
            if self.users[i].id == u.id {
                let ghost old_users = self.users@;
                self.users.remove(i);
                self.users.insert(i, u);
                proof {
                    let j = user_idx(old_users, u.id);
                    assert(0 <= j < old_users.len() && old_users[j].id == u.id);
                    assert(j == i as int);
                    assert(self.users@ =~= old_users.update(i as int, u));
                    assert forall|b: int| 0 <= b < self.budgets@.len() implies has_user_id(
                        self.users@,
                        #[trigger] self.budgets@[b].user_id,
                    ) by {
                        let w = choose|w: int|
                            0 <= w < old_users.len() && old_users[w].id
                                == self.budgets@[b].user_id;
                        assert(self.users@[w].id == self.budgets@[b].user_id);
                    }
                }
                return Ok(());
            }
            i += 1;
        }
        proof {
            assert(!has_user_id(self.users@, u.id));
        }
        Err(ApiError::Backend)
    }

    /// Looks a budget up, scoped to its owner: a row is only visible to
    /// the user it belongs to.
    #[verifier::loop_isolation(false)]
    pub fn find_budget(&self, user_id: u128, budget_id: u128) -> (r: Option<Budget>)
        requires
            self.inv(),
        ensures
            r is Some <==> self.owns_budget(user_id, budget_id),
            r is Some ==> r.unwrap() == budget_by_id(self.budgets@, budget_id),
    {
        let s = &self.budgets;
        let n = s.len();
        let mut i: usize = 0;
        while i < n
            invariant
                0 <= i <= n == s@.len(),
                forall|k: int| 0 <= k < i ==> !(s@[k].id == budget_id && s@[k].user_id == user_id),
            decreases n - i,
        {
            if s[i].id == budget_id && s[i].user_id == user_id {
                proof {
                    assert(has_budget_id(s@, budget_id));
                    let j = budget_idx(s@, budget_id);
                    assert(0 <= j < s@.len() && s@[j].id == budget_id);
                    assert(s@[i as int] == s@[j]);
                }
                return Some(clone_budget(&s[i]));
            }
            i += 1;
        }
        proof {
            if self.owns_budget(user_id, budget_id) {
                let j = budget_idx(s@, budget_id);
                assert(0 <= j < s@.len() && s@[j].id == budget_id);
            }
        }
        None
    }

    /// All budgets of one user, in storage order.
    #[verifier::loop_isolation(false)]
    pub fn budgets_of_user(&self, user_id: u128) -> (r: Vec<Budget>)
        ensures
            r@ == budgets_of(self.budgets@, user_id),
    {
        let s = &self.budgets;
        let n = s.len();
        let mut out: Vec<Budget> = Vec::new();
        let mut i: usize = 0;
        while i < n
            invariant
                0 <= i <= n == s@.len(),
                out@ == budgets_of(s@.take(i as int), user_id),
            decreases n - i,
        {
            assert(s@.take(i + 1).drop_last() =~= s@.take(i as int));
            if s[i].user_id == user_id {
                out.push(clone_budget(&s[i]));
            }
            i += 1;
        }
        assert(s@.take(n as int) =~= s@);
        out
    }

    /// Inserts a budget row; refused when the identifier is taken or the
    /// owner does not exist (the foreign key).
    #[verifier::loop_isolation(false)]
    pub fn insert_budget(&mut self, b: Budget) -> (r: Result<(), ApiError>)
        requires
            old(self).inv(),
        ensures
            final(self).inv(),
            r is Ok <==> !has_budget_id(old(self).budgets@, b.id) && has_user_id(
                old(self).users@,
                b.user_id,
            ),
            r is Ok ==> final(self).budgets@ == old(self).budgets@.push(b),
            r is Err ==> final(self).budgets@ == old(self).budgets@ && r == Err::<(), ApiError>(
                ApiError::Backend,
            ),
            final(self).users@ == old(self).users@,
            final(self).expenses@ == old(self).expenses@,
    {
        let owner = self.find_user_by_id(b.user_id);
        if owner.is_none() {
            return Err(ApiError::Backend);
        }
        let n = self.budgets.len();
        let mut i: usize = 0;
        while i < n
            invariant
                0 <= i <= n == self.budgets@.len(),
                forall|k: int| 0 <= k < i ==> self.budgets@[k].id != b.id,
            decreases n - i,
        {
            if self.budgets[i].id == b.id {
                assert(has_budget_id(self.budgets@, b.id));
                return Err(ApiError::Backend);
            }
            i += 1;
        }
        let ghost old_budgets = self.budgets@;
        self.budgets.push(b);
        proof {
            assert forall|i: int| 0 <= i < self.expenses@.len() implies has_budget_id(
                self.budgets@,
                #[trigger] self.expenses@[i].budget_id,
            ) by {
                let j = choose|j: int|
                    0 <= j < old_budgets.len() && old_budgets[j].id == self.expenses@[i].budget_id;
                assert(self.budgets@[j].id == self.expenses@[i].budget_id);
            }
        }
        Ok(())
    }

    /// Rewrites the budget row that shares `b`'s identifier and owner.
    #[verifier::loop_isolation(false)]
    pub fn replace_budget(&mut self, b: Budget)
        requires
            old(self).inv(),
            old(self).owns_budget(b.user_id, b.id),
        ensures
            final(self).inv(),
            final(self).budgets@ == old(self).budgets@.update(
                budget_idx(old(self).budgets@, b.id),
                b,
            ),
            final(self).users@ == old(self).users@,
            final(self).expenses@ == old(self).expenses@,
    {
        let n = self.budgets.len();
        let mut i: usize = 0;
        while i < n
            invariant
                0 <= i <= n == self.budgets@.len(),
                forall|k: int| 0 <= k < i ==> self.budgets@[k].id != b.id,
                self == old(self),
            decreases n - i,
        {
            if self.budgets[i].id == b.id {
                let ghost old_budgets = self.budgets@;
                self.budgets.remove(i);
                self.budgets.insert(i, b);
                proof {
                    let j = budget_idx(old_budgets, b.id);
                    assert(0 <= j < old_budgets.len() && old_budgets[j].id == b.id);
                    assert(j == i as int);
                    assert(self.budgets@ =~= old_budgets.update(i as int, b));
                    assert(old_budgets[j].user_id == b.user_id);
                    assert forall|e: int| 0 <= e < self.expenses@.len() implies has_budget_id(
                        self.budgets@,
                        #[trigger] self.expenses@[e].budget_id,
                    ) by {
                        let w = choose|w: int|
                            0 <= w < old_budgets.len() && old_budgets[w].id
                                == self.expenses@[e].budget_id;
                        assert(self.budgets@[w].id == self.expenses@[e].budget_id);
                    }
                    assert forall|bi: int| 0 <= bi < self.budgets@.len() implies has_user_id(
                        self.users@,
                        #[trigger] self.budgets@[bi].user_id,
                    ) by {
                        assert(self.budgets@[bi].user_id == old_budgets[bi].user_id
                            || self.budgets@[bi].user_id == b.user_id);
                    }
                }
                return ;
            }
            i += 1;
        }
        proof {
            assert(!has_budget_id(self.budgets@, b.id));
        }
    }

    /// Deletes the budget scoped to its owner, together with the expense
    /// rows under it (the ownership chain would otherwise dangle).
    /// Deleting a budget that is absent, or not the caller's, changes
    /// nothing — and reports nothing, as a filtered bulk delete does.
    #[verifier::loop_isolation(false)]
    pub fn delete_budget_scoped(&mut self, user_id: u128, budget_id: u128)
        requires
            old(self).inv(),
        ensures
            final(self).inv(),
            final(self).users@ == old(self).users@,
            old(self).owns_budget(user_id, budget_id) ==> final(self).budgets@ == old(
                self,
            ).budgets@.remove(budget_idx(old(self).budgets@, budget_id)) && final(self).expenses@
                == expenses_without_budget(old(self).expenses@, budget_id),
            !old(self).owns_budget(user_id, budget_id) ==> final(self).budgets@ == old(
                self,
            ).budgets@ && final(self).expenses@ == old(self).expenses@,
            !has_budget_id(final(self).budgets@, budget_id) || !old(self).owns_budget(
                user_id,
                budget_id,
            ),
    {
        let n = self.budgets.len();
        let mut i: usize = 0;
        while i < n
            invariant
                0 <= i <= n == self.budgets@.len(),
                forall|k: int| 0 <= k < i ==> !(self.budgets@[k].id == budget_id
                    && self.budgets@[k].user_id == user_id),
                self == old(self),
            decreases n - i,
        {
            if self.budgets[i].id == budget_id && self.budgets[i].user_id == user_id {
                let ghost old_budgets = self.budgets@;
                let ghost old_expenses = self.expenses@;
                self.budgets.remove(i);
                proof {
                    let j = budget_idx(old_budgets, budget_id);
                    assert(0 <= j < old_budgets.len() && old_budgets[j].id == budget_id);
                    assert(j == i as int);
                    assert forall|k: int| 0 <= k < self.budgets@.len() implies #[trigger] self.budgets@[k].id
                        != budget_id by {
                        if k < i as int {
                            assert(self.budgets@[k] == old_budgets[k]);
                        } else {
                            assert(self.budgets@[k] == old_budgets[k + 1]);
                        }
                    }
                }
                let m = self.expenses.len();
                let mut out: Vec<Expense> = Vec::new();
                let mut e: usize = 0;
                while e < m
                    invariant
                        0 <= e <= m == self.expenses@.len(),
                        self.expenses@ == old_expenses,
                        forall|a: int, b: int|
                            0 <= a < old_expenses.len() && 0 <= b < old_expenses.len() && a != b
                                ==> old_expenses[a].id != old_expenses[b].id,
                        out@ == expenses_without_budget(self.expenses@.take(e as int), budget_id),
                        forall|k: int| 0 <= k < out@.len() ==> #[trigger] out@[k].budget_id != budget_id,
                        forall|k: int|
                            0 <= k < out@.len() ==> exists|w: int|
                                0 <= w < e && self.expenses@[w] == #[trigger] out@[k],
                        forall|p: int, q: int|
                            0 <= p < out@.len() && 0 <= q < out@.len() && p != q
                                ==> out@[p].id != out@[q].id,
                    decreases m - e,
                {
                    assert(self.expenses@.take(e + 1).drop_last() =~= self.expenses@.take(e as int));
                    if self.expenses[e].budget_id != budget_id {
                        proof {
                            assert forall|k: int| 0 <= k < out@.len() implies #[trigger] out@[k].id
                                != old_expenses[e as int].id by {
                                let w = choose|w: int|
                                    0 <= w < e && self.expenses@[w] == out@[k];
                                assert(old_expenses[w].id != old_expenses[e as int].id);
                            }
                        }
                        out.push(clone_expense(&self.expenses[e]));
                        proof {
                            assert(self.expenses@[e as int] == out@[out@.len() - 1]);
                        }
                    }
                    e += 1;
                }
                assert(self.expenses@.take(m as int) =~= self.expenses@);
                self.expenses = out;
                proof {
                    assert forall|k: int| 0 <= k < self.expenses@.len() implies has_budget_id(
                        self.budgets@,
                        #[trigger] self.expenses@[k].budget_id,
                    ) by {
                        let w = choose|w: int|
                            0 <= w < old_expenses.len() && old_expenses[w]
                                == self.expenses@[k];
                        let b = choose|b: int|
                            0 <= b < old_budgets.len() && old_budgets[b].id
                                == old_expenses[w].budget_id;
                        assert(b != i as int);
                        if b < i as int {
                            assert(self.budgets@[b].id == self.expenses@[k].budget_id);
                        } else {
                            assert(self.budgets@[b - 1].id == self.expenses@[k].budget_id);
                        }
                    }
                }
                return ;
            }
            i += 1;
        }
        proof {
            if old(self).owns_budget(user_id, budget_id) {
                let j = budget_idx(self.budgets@, budget_id);
                assert(0 <= j < self.budgets@.len() && self.budgets@[j].id == budget_id);
            }
        }
    }

    /// Looks an expense up, scoped to its owning budget.
    #[verifier::loop_isolation(false)]
    pub fn find_expense(&self, budget_id: u128, expense_id: u128) -> (r: Option<Expense>)
        requires
            self.inv(),
        ensures
            r is Some <==> self.budget_has_expense(budget_id, expense_id),
            r is Some ==> r.unwrap() == expense_by_id(self.expenses@, expense_id),
    {
        let s = &self.expenses;
        let n = s.len();
        let mut i: usize = 0;
        while i < n
            invariant
                0 <= i <= n == s@.len(),
                forall|k: int| 0 <= k < i ==> !(s@[k].id == expense_id && s@[k].budget_id
                    == budget_id),
            decreases n - i,
        {
            if s[i].id == expense_id && s[i].budget_id == budget_id {
                proof {
                    assert(has_expense_id(s@, expense_id));
                    let j = expense_idx(s@, expense_id);
                    assert(0 <= j < s@.len() && s@[j].id == expense_id);
                    assert(s@[i as int] == s@[j]);
                }
                return Some(clone_expense(&s[i]));
            }
            i += 1;
        }
        proof {
            if self.budget_has_expense(budget_id, expense_id) {
                let j = expense_idx(s@, expense_id);
                assert(0 <= j < s@.len() && s@[j].id == expense_id);
            }
        }
        None
    }

    /// All expenses of one budget, in storage order.
    #[verifier::loop_isolation(false)]
    pub fn expenses_of_budget(&self, budget_id: u128) -> (r: Vec<Expense>)
        ensures
            r@ == expenses_of(self.expenses@, budget_id),
    {
        let s = &self.expenses;
        let n = s.len();
        let mut out: Vec<Expense> = Vec::new();
        let mut i: usize = 0;
        while i < n
            invariant
                0 <= i <= n == s@.len(),
                out@ == expenses_of(s@.take(i as int), budget_id),
            decreases n - i,
        {
            assert(s@.take(i + 1).drop_last() =~= s@.take(i as int));
            if s[i].budget_id == budget_id {
                out.push(clone_expense(&s[i]));
            }
            i += 1;
        }
        assert(s@.take(n as int) =~= s@);
        out
    }

    /// Inserts an expense row; refused when the identifier is taken or
    /// the owning budget does not exist (the foreign key).
    #[verifier::loop_isolation(false)]
    pub fn insert_expense(&mut self, x: Expense) -> (r: Result<(), ApiError>)
        requires
            old(self).inv(),
        ensures
            final(self).inv(),
            r is Ok <==> !has_expense_id(old(self).expenses@, x.id) && has_budget_id(
                old(self).budgets@,
                x.budget_id,
            ),
            r is Ok ==> final(self).expenses@ == old(self).expenses@.push(x),
            r is Err ==> final(self).expenses@ == old(self).expenses@ && r == Err::<(), ApiError>(
                ApiError::Backend,
            ),
            final(self).users@ == old(self).users@,
            final(self).budgets@ == old(self).budgets@,
    {
        let n = self.budgets.len();
        let mut i: usize = 0;
        let mut owner_found = false;
        while i < n
            invariant
                0 <= i <= n == self.budgets@.len(),
                owner_found <==> exists|k: int| 0 <= k < i && self.budgets@[k].id == x.budget_id,
                self == old(self),
            decreases n - i,
        {
            if self.budgets[i].id == x.budget_id {
                owner_found = true;
            }
            i += 1;
        }
        if !owner_found {
            return Err(ApiError::Backend);
        }
        let m = self.expenses.len();
        let mut e: usize = 0;
        while e < m
            invariant
                0 <= e <= m == self.expenses@.len(),
                forall|k: int| 0 <= k < e ==> self.expenses@[k].id != x.id,
                self == old(self),
            decreases m - e,
        {
            if self.expenses[e].id == x.id {
                assert(has_expense_id(self.expenses@, x.id));
                return Err(ApiError::Backend);
            }
            e += 1;
        }
        self.expenses.push(x);
        proof {
            assert(has_budget_id(self.budgets@, x.budget_id));
        }
        Ok(())
    }

    /// Rewrites the expense row that shares `x`'s identifier and owning
    /// budget.
    #[verifier::loop_isolation(false)]
    pub fn replace_expense(&mut self, x: Expense)
        requires
            old(self).inv(),
            old(self).budget_has_expense(x.budget_id, x.id),
        ensures
            final(self).inv(),
            final(self).expenses@ == old(self).expenses@.update(
                expense_idx(old(self).expenses@, x.id),
                x,
            ),
            final(self).users@ == old(self).users@,
            final(self).budgets@ == old(self).budgets@,
    {
        let n = self.expenses.len();
        let mut i: usize = 0;
        while i < n
            invariant
                0 <= i <= n == self.expenses@.len(),
                forall|k: int| 0 <= k < i ==> self.expenses@[k].id != x.id,
                self == old(self),
            decreases n - i,
        {
            if self.expenses[i].id == x.id {
                let ghost old_expenses = self.expenses@;
                self.expenses.remove(i);
                self.expenses.insert(i, x);
                proof {
                    let j = expense_idx(old_expenses, x.id);
                    assert(0 <= j < old_expenses.len() && old_expenses[j].id == x.id);
                    assert(j == i as int);
                    assert(self.expenses@ =~= old_expenses.update(i as int, x));
                    assert(old_expenses[j].budget_id == x.budget_id);
                    assert forall|e: int| 0 <= e < self.expenses@.len() implies has_budget_id(
                        self.budgets@,
                        #[trigger] self.expenses@[e].budget_id,
                    ) by {
                        assert(self.expenses@[e].budget_id == old_expenses[e].budget_id
                            || self.expenses@[e].budget_id == x.budget_id);
                    }
                }
                return ;
            }
            i += 1;
        }
        proof {
            assert(!has_expense_id(self.expenses@, x.id));
        }
    }

    /// Deletes the expense scoped to its owning budget.  Deleting one
    /// that is absent, or under another budget, changes nothing.
    #[verifier::loop_isolation(false)]
    pub fn delete_expense_scoped(&mut self, budget_id: u128, expense_id: u128)
        requires
            old(self).inv(),
        ensures
            final(self).inv(),
            final(self).users@ == old(self).users@,
            final(self).budgets@ == old(self).budgets@,
            old(self).budget_has_expense(budget_id, expense_id) ==> final(self).expenses@ == old(
                self,
            ).expenses@.remove(expense_idx(old(self).expenses@, expense_id)),
            !old(self).budget_has_expense(budget_id, expense_id) ==> final(self).expenses@ == old(
                self,
            ).expenses@,
            !has_expense_id(final(self).expenses@, expense_id) || !old(self).budget_has_expense(
                budget_id,
                expense_id,
            ),
    {
        let n = self.expenses.len();
        let mut i: usize = 0;
        while i < n
            invariant
                0 <= i <= n == self.expenses@.len(),
                forall|k: int| 0 <= k < i ==> !(self.expenses@[k].id == expense_id
                    && self.expenses@[k].budget_id == budget_id),
                self == old(self),
            decreases n - i,
        {
            if self.expenses[i].id == expense_id && self.expenses[i].budget_id == budget_id {
                let ghost old_expenses = self.expenses@;
                self.expenses.remove(i);
                proof {
                    let j = expense_idx(old_expenses, expense_id);
                    assert(0 <= j < old_expenses.len() && old_expenses[j].id == expense_id);
                    assert(j == i as int);
                    assert forall|k: int| 0 <= k < self.expenses@.len() implies #[trigger] self.expenses@[k].id
                        != expense_id by {
                        if k < i as int {
                            assert(self.expenses@[k] == old_expenses[k]);
                        } else {
                            assert(self.expenses@[k] == old_expenses[k + 1]);
                        }
                    }
                    assert forall|k: int| 0 <= k < self.expenses@.len() implies has_budget_id(
                        self.budgets@,
                        #[trigger] self.expenses@[k].budget_id,
                    ) by {
                        if k < i as int {
                            assert(self.expenses@[k] == old_expenses[k]);
                        } else {
                            assert(self.expenses@[k] == old_expenses[k + 1]);
                        }
                    }
                }
                return ;
            }
            i += 1;
        }
        proof {
            if old(self).budget_has_expense(budget_id, expense_id) {
                let j = expense_idx(self.expenses@, expense_id);
                assert(0 <= j < self.expenses@.len() && self.expenses@[j].id == expense_id);
            }
        }
    }
}

/// An exact copy of a user row.
pub fn clone_user(u: &User) -> (r: User)
    ensures
        r == *u,
{
    User {
        id: u.id,
        username: u.username.clone(),
        password_hash: u.password_hash.clone(),
        email: u.email.clone(),
    }
}

/// An exact copy of a budget row.
pub fn clone_budget(b: &Budget) -> (r: Budget)
    ensures
        r == *b,
{
    Budget {
        id: b.id,
        user_id: b.user_id,
        name: b.name.clone(),
        total_amount: b.total_amount,
        created_at: b.created_at,
        updated_at: b.updated_at,
    }
}

/// An exact copy of an expense row.
pub fn clone_expense(x: &Expense) -> (r: Expense)
    ensures
        r == *x,
{
    Expense {
        id: x.id,
        budget_id: x.budget_id,
        amount: x.amount,
        description: x.description.clone(),
        date: x.date,
        created_at: x.created_at,
        updated_at: x.updated_at,
    }
}

} // verus!
