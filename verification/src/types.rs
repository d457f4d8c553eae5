//! The data model: the three relations (users, budgets, expenses), the
//! request forms the handlers take, and the error taxonomy with its HTTP
//! status codes.
//!
//! Identifiers are 128-bit values (the integer form of a UUID).  Money
//! amounts are integers in the minor currency unit, so that arithmetic on
//! them is exact.  Timestamps are seconds since the Unix epoch; an expense
//! date is a day count since the epoch.

use vstd::prelude::*;

verus! {

/// A user row: opaque unique identifier, unique username, email, and the
/// bcrypt hash of the password.  The plaintext password is never stored.
#[derive(Clone, Debug)]
pub struct User {
    pub id: u128,
    pub username: String,
    pub password_hash: String,
    pub email: String,
}

/// A budget row, owned by the user `user_id` refers to.
#[derive(Clone, Debug)]
pub struct Budget {
    pub id: u128,
    pub user_id: u128,
    pub name: String,
    pub total_amount: i64,
    pub created_at: u64,
    pub updated_at: u64,
}

/// An expense row, owned through the budget `budget_id` refers to.
#[derive(Clone, Debug)]
pub struct Expense {
    pub id: u128,
    pub budget_id: u128,
    pub amount: i64,
    pub description: String,
    pub date: u64,
    pub created_at: u64,
    pub updated_at: u64,
}

/// Registration form: all three fields are required.
#[derive(Clone, Debug)]
pub struct NewUser {
    pub username: String,
    pub password: String,
    pub email: String,
}

/// Login form.
#[derive(Clone, Debug)]
pub struct LoginInfo {
    pub username: String,
    pub password: String,
}

/// Profile update form: any subset of the fields may be present.
#[derive(Clone, Debug)]
pub struct UpdateUser {
    pub username: Option<String>,
    pub password: Option<String>,
    pub email: Option<String>,
}

/// Budget creation form.
#[derive(Clone, Debug)]
pub struct NewBudget {
    pub name: String,
    pub total_amount: i64,
}

/// Budget update form: any subset of the fields may be present.
#[derive(Clone, Debug)]
pub struct UpdateBudget {
    pub name: Option<String>,
    pub total_amount: Option<i64>,
}

/// Expense creation form.
#[derive(Clone, Debug)]
pub struct NewExpense {
    pub amount: i64,
    pub description: String,
}

/// Expense update form: any subset of the fields may be present.
#[derive(Clone, Debug)]
pub struct UpdateExpense {
    pub amount: Option<i64>,
    pub description: Option<String>,
}

/// How a request fails: a missing or invalid credential (401), a scoped
/// lookup miss (404), or a backend fault (500).  Backend faults are the
/// only errors that carry no more detail to the caller.
#[derive(Clone, Copy, Debug, PartialEq, Eq, Structural)]
pub enum ApiError {
    Unauthorized,
    NotFound,
    Backend,
}

impl ApiError {
    /// The HTTP status code each error is surfaced as.
    pub open spec fn spec_status_code(self) -> u16 {
        match self {
            ApiError::Unauthorized => 401,
            ApiError::NotFound => 404,
            ApiError::Backend => 500,
        }
    }

    /// Maps the error to its HTTP status code: 401 for a credential
    /// failure, 404 for a scoped miss, 500 for a backend fault.
    pub fn status_code(&self) -> (code: u16)
        ensures
            code == self.spec_status_code(),
    {
        match self {
            ApiError::Unauthorized => 401,
            ApiError::NotFound => 404,
            ApiError::Backend => 500,
        }
    }
}

/// What the profile cache holds for a user: the identity fields only,
/// never the password hash.
#[derive(Clone, Debug)]
pub struct ProfileView {
    pub id: u128,
    pub username: String,
    pub email: String,
}

impl ProfileView {
    /// The cached representation of a user row.
    pub open spec fn spec_of(u: User) -> ProfileView {
        ProfileView { id: u.id, username: u.username, email: u.email }
    }

    /// Builds the cached representation of a user row; the password hash
    /// is left behind.
    pub fn of_user(u: &User) -> (v: ProfileView)
        ensures
            v == Self::spec_of(*u),
    {
        ProfileView { id: u.id, username: u.username.clone(), email: u.email.clone() }
    }
}

} // verus!
