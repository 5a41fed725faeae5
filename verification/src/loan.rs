//! Loan rows: the audit log of the lending transaction manager. A loan is
//! open while `returned_at` is absent; returning sets it exactly once.

use vstd::prelude::*;
use crate::date::Date;

verus! {

/// The mathematical image of a `Loan`.
pub struct LoanV {
    pub id: int,
    pub book_id: int,
    pub member_id: int,
    pub borrowed_at: int,
    pub due_at: Date,
    pub returned_at: Option<int>,
}

impl LoanV {
    /// A loan is open while it has not been returned.
    pub open spec fn is_open(self) -> bool {
        self.returned_at is None
    }
}

/// One loan row. `borrowed_at` and `returned_at` are timestamps in seconds;
/// `due_at` is a calendar date with no time component.
#[derive(Debug, Clone, Copy)]
pub struct Loan {
    pub id: i32,
    pub book_id: i32,
    pub member_id: i32,
    pub borrowed_at: i64,
    pub due_at: Date,
    pub returned_at: Option<i64>,
}

impl View for Loan {
    type V = LoanV;

    open spec fn view(&self) -> LoanV {
        LoanV {
            id: self.id as int,
            book_id: self.book_id as int,
            member_id: self.member_id as int,
            borrowed_at: self.borrowed_at as int,
            due_at: self.due_at,
            returned_at: match self.returned_at {
                Some(t) => Some(t as int),
                None => None,
            },
        }
    }
}

/// A borrow request as it arrives: the due date still a wire string.
#[derive(Debug)]
pub struct NewLoan {
    pub book_id: i32,
    pub member_id: i32,
    pub due_date: String,
}

impl Clone for NewLoan {
    fn clone(&self) -> (r: Self)
        ensures
            r == *self,
    {
        NewLoan {
            book_id: self.book_id,
            member_id: self.member_id,
            due_date: self.due_date.clone(),
        }
    }
}

} // verus!
