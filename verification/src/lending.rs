//! The lending transaction manager: a store of books, members and loans
//! whose every mutation is all-or-nothing and keeps `available_copies`
//! consistent with the set of open loans.
//!
//! `available_copies` is the single source of truth for stock; loan rows are
//! the audit log. The well-formedness invariant ties the two together: for
//! every book in the catalog, `available_copies` plus the number of open
//! loans of that book equals `total_copies`.

use vstd::prelude::*;
use crate::book::{Book, BookV, NewBook};
use crate::date::{parse_date, parse_date_spec, date_le, Date};
use crate::loan::{Loan, LoanV};
use crate::member::{Member, MemberV, NewMember};

verus! {

/// Why a lending operation was rejected.
///
/// `InvalidDueDate` and `DueDateInPast` are validation errors, raised before
/// any store access; the others are business-rule errors, raised after a
/// read and with the transaction rolled back.
#[derive(Debug, Clone, Copy, PartialEq, Eq, Structural)]
pub enum LendError {
    InvalidDueDate,
    DueDateInPast,
    BookNotFound,
    MemberNotFound,
    OutOfStock,
    LoanNotFound,
    LoanNotActive,
}

/// The mathematical image of the store.
#[verifier::ext_equal]
pub struct LibraryV {
    pub books: Seq<BookV>,
    pub members: Seq<MemberV>,
    pub loans: Seq<LoanV>,
    pub next_book_id: int,
    pub next_member_id: int,
    pub next_loan_id: int,
}

/// The store: catalog, membership roll and loan audit log, with the
/// identity counters the persistence layer would otherwise own.
pub struct Library {
    pub books: Vec<Book>,
    pub members: Vec<Member>,
    pub loans: Vec<Loan>,
    pub next_book_id: i32,
    pub next_member_id: i32,
    pub next_loan_id: i32,
}

impl View for Library {
    type V = LibraryV;

    open spec fn view(&self) -> LibraryV {
        LibraryV {
            books: self.books@.map_values(|b: Book| b@),
            members: self.members@.map_values(|m: Member| m@),
            loans: self.loans@.map_values(|l: Loan| l@),
            next_book_id: self.next_book_id as int,
            next_member_id: self.next_member_id as int,
            next_loan_id: self.next_loan_id as int,
        }
    }
}

/// The loan is an open loan of the given book.
pub open spec fn is_open_for(l: LoanV, book_id: int) -> bool {
    l.book_id == book_id && l.returned_at is None
}

/// How many loans of the given book are open.
pub open spec fn count_open(loans: Seq<LoanV>, book_id: int) -> nat
    decreases loans.len(),
{
    if loans.len() == 0 {
        0
    } else {
        count_open(loans.drop_last(), book_id) + (if is_open_for(loans.last(), book_id) {
            1nat
        } else {
            0nat
        })
    }
}

pub open spec fn has_book(s: LibraryV, id: int) -> bool {
    exists|j: int| 0 <= j < s.books.len() && s.books[j].id == id
}

/// The index of the book with the given identity; meaningful when
/// `has_book` holds and book identities are unique.
pub open spec fn book_idx(s: LibraryV, id: int) -> int {
    choose|j: int| 0 <= j < s.books.len() && s.books[j].id == id
}

pub open spec fn has_member(s: LibraryV, id: int) -> bool {
    exists|j: int| 0 <= j < s.members.len() && s.members[j].id == id
}

pub open spec fn has_loan(s: LibraryV, id: int) -> bool {
    exists|j: int| 0 <= j < s.loans.len() && s.loans[j].id == id
}

/// The index of the loan with the given identity; meaningful when
/// `has_loan` holds and loan identities are unique.
pub open spec fn loan_idx(s: LibraryV, id: int) -> int {
    choose|j: int| 0 <= j < s.loans.len() && s.loans[j].id == id
}

impl LibraryV {
    pub open spec fn book_ids_unique(self) -> bool {
        forall|i: int, j: int|
            0 <= i < self.books.len() && 0 <= j < self.books.len() && i != j
                ==> self.books[i].id != self.books[j].id
    }

    pub open spec fn loan_ids_unique(self) -> bool {
        forall|i: int, j: int|
            0 <= i < self.loans.len() && 0 <= j < self.loans.len() && i != j
                ==> self.loans[i].id != self.loans[j].id
    }

    pub open spec fn member_ids_unique(self) -> bool {
        forall|i: int, j: int|
            0 <= i < self.members.len() && 0 <= j < self.members.len() && i != j
                ==> self.members[i].id != self.members[j].id
    }

    /// Every identity on record was assigned below the matching counter.
    pub open spec fn ids_bounded(self) -> bool {
        &&& forall|i: int|
            0 <= i < self.books.len() ==> 0 < #[trigger] self.books[i].id < self.next_book_id
        &&& forall|i: int|
            0 <= i < self.members.len() ==> 0 < #[trigger] self.members[i].id
                < self.next_member_id
        &&& forall|i: int|
            0 <= i < self.loans.len() ==> 0 < #[trigger] self.loans[i].id < self.next_loan_id
                && 0 < self.loans[i].book_id < self.next_book_id
    }

    /// The derived-state consistency at the heart of the design: for every
    /// book, the available count is non-negative and, together with the open
    /// loans of that book, accounts exactly for the total stock. In
    /// particular at most `total_copies` loans of a book are ever open.
    pub open spec fn stock_consistent(self) -> bool {
        forall|i: int|
            0 <= i < self.books.len() ==> {
                let b = #[trigger] self.books[i];
                0 <= b.available_copies && b.available_copies + count_open(self.loans, b.id)
                    == b.total_copies
            }
    }

    pub open spec fn counters_in_range(self) -> bool {
        &&& 1 <= self.next_book_id <= i32::MAX
        &&& 1 <= self.next_member_id <= i32::MAX
        &&& 1 <= self.next_loan_id <= i32::MAX
    }

    /// Well-formedness of the store.
    pub open spec fn wf(self) -> bool {
        &&& self.counters_in_range()
        &&& self.book_ids_unique()
        &&& self.member_ids_unique()
        &&& self.loan_ids_unique()
        &&& self.ids_bounded()
        &&& self.stock_consistent()
    }
}

/// What a catalog insert does: the new book gets the next identity and its
/// whole stock available.
pub open spec fn add_book_spec(
    s: LibraryV,
    title: Seq<char>,
    author: Seq<char>,
    category: Seq<char>,
    year: int,
    total: int,
) -> (LibraryV, BookV) {
    let b = BookV {
        id: s.next_book_id,
        title: title,
        author: author,
        category: category,
        year: year,
        total_copies: total,
        available_copies: total,
    };
    let s2 = LibraryV {
        books: s.books.push(b),
        members: s.members,
        loans: s.loans,
        next_book_id: s.next_book_id + 1,
        next_member_id: s.next_member_id,
        next_loan_id: s.next_loan_id,
    };
    (s2, b)
}

/// What a catalog delete does: the row goes if it exists; the flag says
/// whether any row was affected.
pub open spec fn remove_book_spec(s: LibraryV, id: int) -> (LibraryV, bool) {
    if has_book(s, id) {
        let s2 = LibraryV {
            books: s.books.remove(book_idx(s, id)),
            members: s.members,
            loans: s.loans,
            next_book_id: s.next_book_id,
            next_member_id: s.next_member_id,
            next_loan_id: s.next_loan_id,
        };
        (s2, true)
    } else {
        (s, false)
    }
}

/// What a member insert does.
pub open spec fn add_member_spec(s: LibraryV, name: Seq<char>, email: Seq<char>, now: int) -> (
    LibraryV,
    MemberV,
) {
    let m = MemberV { id: s.next_member_id, name: name, email: email, joined_at: now };
    let s2 = LibraryV {
        books: s.books,
        members: s.members.push(m),
        loans: s.loans,
        next_book_id: s.next_book_id,
        next_member_id: s.next_member_id + 1,
        next_loan_id: s.next_loan_id,
    };
    (s2, m)
}

/// What a member delete does.
pub open spec fn remove_member_spec(s: LibraryV, id: int) -> (LibraryV, bool) {
    if has_member(s, id) {
        let j = choose|j: int| 0 <= j < s.members.len() && s.members[j].id == id;
        let s2 = LibraryV {
            books: s.books,
            members: s.members.remove(j),
            loans: s.loans,
            next_book_id: s.next_book_id,
            next_member_id: s.next_member_id,
            next_loan_id: s.next_loan_id,
        };
        (s2, true)
    } else {
        (s, false)
    }
}

/// The borrow transaction, step by step as one atomic decision: validate
/// the due date against `today`, look the book and member up, check stock,
/// and only then insert the loan row and decrement `available_copies` — or
/// reject with the matching error and leave the store exactly as it was.
pub open spec fn borrow_spec(
    s: LibraryV,
    book_id: int,
    member_id: int,
    due_str: Seq<char>,
    today: Date,
    now: int,
) -> (LibraryV, Result<LoanV, LendError>) {
    match parse_date_spec(due_str) {
        None => (s, Err(LendError::InvalidDueDate)),
        Some(due) => {
            if !date_le(today, due) {
                (s, Err(LendError::DueDateInPast))
            } else if !has_book(s, book_id) {
                (s, Err(LendError::BookNotFound))
            } else if !has_member(s, member_id) {
                (s, Err(LendError::MemberNotFound))
            } else {
                let j = book_idx(s, book_id);
                let b = s.books[j];
                if b.available_copies <= 0 {
                    (s, Err(LendError::OutOfStock))
                } else {
                    let loan = LoanV {
                        id: s.next_loan_id,
                        book_id: book_id,
                        member_id: member_id,
                        borrowed_at: now,
                        due_at: due,
                        returned_at: None,
                    };
                    let b2 = BookV {
                        id: b.id,
                        title: b.title,
                        author: b.author,
                        category: b.category,
                        year: b.year,
                        total_copies: b.total_copies,
                        available_copies: b.available_copies - 1,
                    };
                    let s2 = LibraryV {
                        books: s.books.update(j, b2),
                        members: s.members,
                        loans: s.loans.push(loan),
                        next_book_id: s.next_book_id,
                        next_member_id: s.next_member_id,
                        next_loan_id: s.next_loan_id + 1,
                    };
                    (s2, Ok(loan))
                }
            }
        },
    }
}

/// The return transaction: look the loan up, refuse a loan that is not
/// open (the idempotency guard), otherwise stamp `returned_at` and give the
/// book its copy back — all of it or none of it.
pub open spec fn return_spec(s: LibraryV, loan_id: int, now: int) -> (
    LibraryV,
    Result<(), LendError>,
) {
    if !has_loan(s, loan_id) {
        (s, Err(LendError::LoanNotFound))
    } else {
        let idx = loan_idx(s, loan_id);
        let l = s.loans[idx];
        if !(l.returned_at is None) {
            (s, Err(LendError::LoanNotActive))
        } else {
            let l2 = LoanV {
                id: l.id,
                book_id: l.book_id,
                member_id: l.member_id,
                borrowed_at: l.borrowed_at,
                due_at: l.due_at,
                returned_at: Some(now),
            };
            let loans2 = s.loans.update(idx, l2);
            let books2 = if has_book(s, l.book_id) {
                let j = book_idx(s, l.book_id);
                let b = s.books[j];
                s.books.update(
                    j,
                    BookV {
                        id: b.id,
                        title: b.title,
                        author: b.author,
                        category: b.category,
                        year: b.year,
                        total_copies: b.total_copies,
                        available_copies: b.available_copies + 1,
                    },
                )
            } else {
                s.books
            };
            let s2 = LibraryV {
                books: books2,
                members: s.members,
                loans: loans2,
                next_book_id: s.next_book_id,
                next_member_id: s.next_member_id,
                next_loan_id: s.next_loan_id,
            };
            (s2, Ok(()))
        }
    }
}

/// Pushing a loan raises the open count of its book by one and leaves every
/// other book's count alone.
proof fn lemma_count_open_push(loans: Seq<LoanV>, l: LoanV, book_id: int)
    ensures
        count_open(loans.push(l), book_id) == count_open(loans, book_id) + (if is_open_for(
            l,
            book_id,
        ) {
            1nat
        } else {
            0nat
        }),
{
    assert(loans.push(l).drop_last() =~= loans);
    assert(loans.push(l).last() == l);
}

/// Replacing the loan at one index changes a book's open count exactly by
/// what the old and new rows contribute.
proof fn lemma_count_open_update(loans: Seq<LoanV>, idx: int, l2: LoanV, book_id: int)
    requires
        0 <= idx < loans.len(),
    ensures
        count_open(loans.update(idx, l2), book_id) + (if is_open_for(loans[idx], book_id) {
            1nat
        } else {
            0nat
        }) == count_open(loans, book_id) + (if is_open_for(l2, book_id) {
            1nat
        } else {
            0nat
        }),
    decreases loans.len(),
{
    let upd = loans.update(idx, l2);
    if idx == loans.len() - 1 {
        assert(upd.drop_last() =~= loans.drop_last());
        assert(upd.last() == l2);
    } else {
        assert(upd.drop_last() =~= loans.drop_last().update(idx, l2));
        assert(upd.last() == loans.last());
        lemma_count_open_update(loans.drop_last(), idx, l2, book_id);
    }
}

/// A book that no loan row references has no open loans.
proof fn lemma_count_open_absent(loans: Seq<LoanV>, book_id: int)
    requires
        forall|i: int| 0 <= i < loans.len() ==> (#[trigger] loans[i]).book_id != book_id,
    ensures
        count_open(loans, book_id) == 0,
    decreases loans.len(),
{
    if loans.len() > 0 {
        lemma_count_open_absent(loans.drop_last(), book_id);
    }
}

/// An open loan row of a book witnesses at least one open loan of it.
proof fn lemma_count_open_at_least_one(loans: Seq<LoanV>, idx: int, book_id: int)
    requires
        0 <= idx < loans.len(),
        is_open_for(loans[idx], book_id),
    ensures
        count_open(loans, book_id) >= 1,
    decreases loans.len(),
{
    if idx < loans.len() - 1 {
        lemma_count_open_at_least_one(loans.drop_last(), idx, book_id);
    }
}

/// The executable result of a borrow agrees with the transition's result:
/// the same error, or a loan row whose image is the one the transition
/// inserted.
pub open spec fn loan_result_matches(r: Result<Loan, LendError>, rv: Result<LoanV, LendError>) -> bool {
    match (r, rv) {
        (Ok(l), Ok(lv)) => l@ == lv,
        (Err(e), Err(ev)) => e == ev,
        _ => false,
    }
}

impl Library {
    /// An empty store; identities start at one, as the persistence layer's
    /// auto-increment would.
    pub fn new() -> (r: Library)
        ensures
            r@.wf(),
            r@.books.len() == 0,
            r@.members.len() == 0,
            r@.loans.len() == 0,
    {
        Library {
            books: Vec::new(),
            members: Vec::new(),
            loans: Vec::new(),
            next_book_id: 1,
            next_member_id: 1,
            next_loan_id: 1,
        }
    }

    /// The index of the book with the given identity, if any.
    fn find_book_index(&self, id: i32) -> (r: Option<usize>)
        ensures
            match r {
                Some(j) => j < self@.books.len() && self@.books[j as int].id == id as int,
                None => forall|k: int| 0 <= k < self@.books.len() ==> self@.books[k].id != id as int,
            },
    {
        let mut i: usize = 0;
        while i < self.books.len()
            invariant
                i <= self.books.len(),
                forall|k: int| 0 <= k < i ==> self@.books[k].id != id as int,
            decreases self.books.len() - i,
        {
            if self.books[i].id == id {
                return Some(i);
            }
            i = i + 1;
        }
        None
    }

    /// The index of the member with the given identity, if any.
    fn find_member_index(&self, id: i32) -> (r: Option<usize>)
        ensures
            match r {
                Some(j) => j < self@.members.len() && self@.members[j as int].id == id as int,
                None => forall|k: int|
                    0 <= k < self@.members.len() ==> self@.members[k].id != id as int,
            },
    {
        let mut i: usize = 0;
        while i < self.members.len()
            invariant
                i <= self.members.len(),
                forall|k: int| 0 <= k < i ==> self@.members[k].id != id as int,
            decreases self.members.len() - i,
        {
            if self.members[i].id == id {
                return Some(i);
            }
            i = i + 1;
        }
        None
    }

    /// The index of the loan with the given identity, if any.
    fn find_loan_index(&self, id: i32) -> (r: Option<usize>)
        ensures
            match r {
                Some(j) => j < self@.loans.len() && self@.loans[j as int].id == id as int,
                None => forall|k: int| 0 <= k < self@.loans.len() ==> self@.loans[k].id != id as int,
            },
    {
        let mut i: usize = 0;
        while i < self.loans.len()
            invariant
                i <= self.loans.len(),
                forall|k: int| 0 <= k < i ==> self@.loans[k].id != id as int,
            decreases self.loans.len() - i,
        {
            if self.loans[i].id == id {
                return Some(i);
            }
            i = i + 1;
        }
        None
    }

    /// Catalog insert: the new book carries the caller's fields, the next
    /// free identity, and its whole stock available.
    pub fn add_book(&mut self, nb: &NewBook) -> (r: Book)
        requires
            old(self)@.wf(),
            nb.total_copies >= 0,
            old(self)@.next_book_id < i32::MAX,
        ensures
            final(self)@.wf(),
            (final(self)@, r@) == add_book_spec(
                old(self)@,
                nb.title@,
                nb.author@,
                nb.category@,
                nb.year as int,
                nb.total_copies as int,
            ),
    {
        let ghost s = self@;
        let b = Book {
            id: self.next_book_id,
            title: nb.title.clone(),
            author: nb.author.clone(),
            category: nb.category.clone(),
            year: nb.year,
            total_copies: nb.total_copies,
            available_copies: nb.total_copies,
        };
        let r = b.clone();
        self.books.push(b);
        self.next_book_id = self.next_book_id + 1;
        proof {
            lemma_add_book_preserves_wf(
                s,
                nb.title@,
                nb.author@,
                nb.category@,
                nb.year as int,
                nb.total_copies as int,
            );
            let (s2, bv) = add_book_spec(
                s,
                nb.title@,
                nb.author@,
                nb.category@,
                nb.year as int,
                nb.total_copies as int,
            );
            assert(self@.books =~= s2.books);
            assert(self@ =~= s2);
        }
        r
    }

    /// Catalog delete, unconditional as the store's interface has it; the
    /// flag reports whether a row went.
    pub fn remove_book(&mut self, id: i32) -> (r: bool)
        requires
            old(self)@.wf(),
        ensures
            final(self)@.wf(),
            (final(self)@, r) == remove_book_spec(old(self)@, id as int),
    {
        let ghost s = self@;
        match self.find_book_index(id) {
            Some(j) => {
                self.books.remove(j);
                proof {
                    assert(has_book(s, id as int));
                    let cj = book_idx(s, id as int);
                    assert(0 <= cj < s.books.len() && s.books[cj].id == id as int);
                    assert(cj == j as int);
                    assert(self@.books =~= remove_book_spec(s, id as int).0.books);
                    assert(self@ =~= remove_book_spec(s, id as int).0);
                    lemma_remove_book_preserves_wf(s, id as int);
                }
                true
            },
            None => {
                proof {
                    assert(!has_book(s, id as int));
                }
                false
            },
        }
    }

    /// Member insert: the next free identity and the caller's join
    /// timestamp, immutable afterwards.
    pub fn add_member(&mut self, nm: &NewMember, now: i64) -> (r: Member)
        requires
            old(self)@.wf(),
            old(self)@.next_member_id < i32::MAX,
        ensures
            final(self)@.wf(),
            (final(self)@, r@) == add_member_spec(old(self)@, nm.name@, nm.email@, now as int),
    {
        let ghost s = self@;
        let m = Member {
            id: self.next_member_id,
            name: nm.name.clone(),
            email: nm.email.clone(),
            joined_at: now,
        };
        let r = m.clone();
        self.members.push(m);
        self.next_member_id = self.next_member_id + 1;
        proof {
            lemma_add_member_preserves_wf(s, nm.name@, nm.email@, now as int);
            let (s2, mv) = add_member_spec(s, nm.name@, nm.email@, now as int);
            assert(self@.members =~= s2.members);
            assert(self@ =~= s2);
        }
        r
    }

    /// Member delete; the flag reports whether a row went.
    pub fn remove_member(&mut self, id: i32) -> (r: bool)
        requires
            old(self)@.wf(),
        ensures
            final(self)@.wf(),
            (final(self)@, r) == remove_member_spec(old(self)@, id as int),
    {
        let ghost s = self@;
        match self.find_member_index(id) {
            Some(j) => {
                self.members.remove(j);
                proof {
                    assert(has_member(s, id as int));
                    let cj = choose|cj: int|
                        0 <= cj < s.members.len() && s.members[cj].id == id as int;
                    assert(cj == j as int);
                    assert(self@.members =~= remove_member_spec(s, id as int).0.members);
                    assert(self@ =~= remove_member_spec(s, id as int).0);
                    lemma_remove_member_preserves_wf(s, id as int);
                }
                true
            },
            None => {
                proof {
                    assert(!has_member(s, id as int));
                }
                false
            },
        }
    }

    /// The borrow transaction. Validates the due date against `today`,
    /// checks the book's stock, and atomically inserts the loan row while
    /// decrementing `available_copies` — or rejects with the matching error
    /// and leaves the store exactly as it was.
    pub fn borrow(
        &mut self,
        book_id: i32,
        member_id: i32,
        due_date: &str,
        today: Date,
        now: i64,
    ) -> (r: Result<Loan, LendError>)
        requires
            old(self)@.wf(),
            old(self)@.next_loan_id < i32::MAX,
        ensures
            final(self)@.wf(),
            final(self)@ == borrow_spec(
                old(self)@,
                book_id as int,
                member_id as int,
                due_date@,
                today,
                now as int,
            ).0,
            loan_result_matches(
                r,
                borrow_spec(
                    old(self)@,
                    book_id as int,
                    member_id as int,
                    due_date@,
                    today,
                    now as int,
                ).1,
            ),
    {
        let ghost s = self@;
        let due = match parse_date(due_date) {
            Some(d) => d,
            None => {
                return Err(LendError::InvalidDueDate);
            },
        };
        if !today.le(&due) {
            return Err(LendError::DueDateInPast);
        }
        let j = match self.find_book_index(book_id) {
            Some(j) => j,
            None => {
                return Err(LendError::BookNotFound);
            },
        };
        proof {
            assert(has_book(s, book_id as int));
            let cj = book_idx(s, book_id as int);
            assert(0 <= cj < s.books.len() && s.books[cj].id == book_id as int);
            assert(cj == j as int);
        }
        match self.find_member_index(member_id) {
            Some(_) => {
                proof {
                    assert(has_member(s, member_id as int));
                }
            },
            None => {
                return Err(LendError::MemberNotFound);
            },
        }
        let avail = self.books[j].available_copies;
        if avail <= 0 {
            return Err(LendError::OutOfStock);
        }
        let loan = Loan {
            id: self.next_loan_id,
            book_id: book_id,
            member_id: member_id,
            borrowed_at: now,
            due_at: due,
            returned_at: None,
        };
        let b2 = Book {
            id: self.books[j].id,
            title: self.books[j].title.clone(),
            author: self.books[j].author.clone(),
            category: self.books[j].category.clone(),
            year: self.books[j].year,
            total_copies: self.books[j].total_copies,
            available_copies: avail - 1,
        };
        self.books.set(j, b2);
        self.loans.push(loan);
        self.next_loan_id = self.next_loan_id + 1;
        proof {
            lemma_borrow_preserves_wf(
                s,
                book_id as int,
                member_id as int,
                due_date@,
                today,
                now as int,
            );
            let s2 = borrow_spec(
                s,
                book_id as int,
                member_id as int,
                due_date@,
                today,
                now as int,
            ).0;
            assert(self@.books =~= s2.books);
            assert(self@.loans =~= s2.loans);
            assert(self@ =~= s2);
        }
        Ok(loan)
    }

    /// The return transaction. Refuses a missing loan and — the idempotency
    /// guard — one already returned; otherwise stamps `returned_at` and
    /// gives the book its copy back, atomically.
    pub fn return_loan(&mut self, loan_id: i32, now: i64) -> (r: Result<(), LendError>)
        requires
            old(self)@.wf(),
        ensures
            final(self)@.wf(),
            final(self)@ == return_spec(old(self)@, loan_id as int, now as int).0,
            r == return_spec(old(self)@, loan_id as int, now as int).1,
    {
        let ghost s = self@;
        let idx = match self.find_loan_index(loan_id) {
            Some(i) => i,
            None => {
                return Err(LendError::LoanNotFound);
            },
        };
        proof {
            assert(has_loan(s, loan_id as int));
            let ci = loan_idx(s, loan_id as int);
            assert(0 <= ci < s.loans.len() && s.loans[ci].id == loan_id as int);
            assert(ci == idx as int);
        }
        let l = self.loans[idx];
        if l.returned_at.is_some() {
            return Err(LendError::LoanNotActive);
        }
        let l2 = Loan {
            id: l.id,
            book_id: l.book_id,
            member_id: l.member_id,
            borrowed_at: l.borrowed_at,
            due_at: l.due_at,
            returned_at: Some(now),
        };
        self.loans.set(idx, l2);
        match self.find_book_index(l.book_id) {
            Some(j) => {
                proof {
                    assert(has_book(s, l.book_id as int));
                    let cj = book_idx(s, l.book_id as int);
                    assert(0 <= cj < s.books.len() && s.books[cj].id == l.book_id as int);
                    assert(cj == j as int);
                    lemma_count_open_at_least_one(s.loans, idx as int, l.book_id as int);
                }
                let b2 = Book {
                    id: self.books[j].id,
                    title: self.books[j].title.clone(),
                    author: self.books[j].author.clone(),
                    category: self.books[j].category.clone(),
                    year: self.books[j].year,
                    total_copies: self.books[j].total_copies,
                    available_copies: self.books[j].available_copies + 1,
                };
                self.books.set(j, b2);
            },
            None => {
                proof {
                    assert(self@.books =~= s.books);
                    assert(!has_book(s, l.book_id as int));
                }
            },
        }
        proof {
            lemma_return_preserves_wf(s, loan_id as int, now as int);
            let s2 = return_spec(s, loan_id as int, now as int).0;
            assert(self@.books =~= s2.books);
            assert(self@.loans =~= s2.loans);
            assert(self@ =~= s2);
        }
        Ok(())
    }
}

/// A catalog insert preserves well-formedness when the caller respects the
/// stock invariant (`total >= 0`) and the identity counter has room.
pub proof fn lemma_add_book_preserves_wf(
    s: LibraryV,
    title: Seq<char>,
    author: Seq<char>,
    category: Seq<char>,
    year: int,
    total: int,
)
    requires
        s.wf(),
        total >= 0,
        s.next_book_id < i32::MAX,
    ensures
        add_book_spec(s, title, author, category, year, total).0.wf(),
{
    let (s2, b) = add_book_spec(s, title, author, category, year, total);
    assert forall|i: int| 0 <= i < s2.books.len() implies {
        let bi = #[trigger] s2.books[i];
        0 <= bi.available_copies && bi.available_copies + count_open(s2.loans, bi.id)
            == bi.total_copies
    } by {
        if i < s.books.len() {
            assert(s2.books[i] == s.books[i]);
        } else {
            assert(s2.books[i] == b);
            assert forall|k: int| 0 <= k < s.loans.len() implies (#[trigger] s.loans[k]).book_id
                != b.id by {
                assert(0 < s.loans[k].id < s.next_loan_id);
            }
            lemma_count_open_absent(s.loans, b.id);
        }
    }
}

/// A catalog delete preserves well-formedness: the remaining books keep
/// their counts, and loans of the deleted book constrain nothing.
pub proof fn lemma_remove_book_preserves_wf(s: LibraryV, id: int)
    requires
        s.wf(),
    ensures
        remove_book_spec(s, id).0.wf(),
{
    let (s2, found) = remove_book_spec(s, id);
    if found {
        let j = book_idx(s, id);
        assert forall|i: int| 0 <= i < s2.books.len() implies {
            let bi = #[trigger] s2.books[i];
            0 <= bi.available_copies && bi.available_copies + count_open(s2.loans, bi.id)
                == bi.total_copies
        } by {
            if i < j {
                assert(s2.books[i] == s.books[i]);
            } else {
                assert(s2.books[i] == s.books[i + 1]);
            }
        }
        assert(s2.book_ids_unique()) by {
            assert forall|i: int, k: int|
                0 <= i < s2.books.len() && 0 <= k < s2.books.len() && i != k implies s2.books[i].id
                != s2.books[k].id by {
                let i0 = if i < j {
                    i
                } else {
                    i + 1
                };
                let k0 = if k < j {
                    k
                } else {
                    k + 1
                };
                assert(s2.books[i] == s.books[i0] && s2.books[k] == s.books[k0]);
            }
        }
    }
}

/// A member insert preserves well-formedness.
pub proof fn lemma_add_member_preserves_wf(s: LibraryV, name: Seq<char>, email: Seq<char>, now: int)
    requires
        s.wf(),
        s.next_member_id < i32::MAX,
    ensures
        add_member_spec(s, name, email, now).0.wf(),
{
}

/// A member delete preserves well-formedness.
pub proof fn lemma_remove_member_preserves_wf(s: LibraryV, id: int)
    requires
        s.wf(),
    ensures
        remove_member_spec(s, id).0.wf(),
{
    let (s2, found) = remove_member_spec(s, id);
    if found {
        let j = choose|j: int| 0 <= j < s.members.len() && s.members[j].id == id;
        assert(s2.member_ids_unique()) by {
            assert forall|i: int, k: int|
                0 <= i < s2.members.len() && 0 <= k < s2.members.len() && i != k implies s2.members[
            i].id != s2.members[k].id by {
                let i0 = if i < j {
                    i
                } else {
                    i + 1
                };
                let k0 = if k < j {
                    k
                } else {
                    k + 1
                };
                assert(s2.members[i] == s.members[i0] && s2.members[k] == s.members[k0]);
            }
        }
        assert(s2.ids_bounded()) by {
            assert forall|i: int| 0 <= i < s2.members.len() implies 0 < (
            #[trigger] s2.members[i]).id < s2.next_member_id by {
                let i0 = if i < j {
                    i
                } else {
                    i + 1
                };
                assert(s2.members[i] == s.members[i0]);
            }
        }
    }
}

/// The borrow transaction preserves well-formedness: on success the
/// decrement of `available_copies` is matched exactly by the one new open
/// loan, and on any rejection the store is untouched.
pub proof fn lemma_borrow_preserves_wf(
    s: LibraryV,
    book_id: int,
    member_id: int,
    due_str: Seq<char>,
    today: Date,
    now: int,
)
    requires
        s.wf(),
        s.next_loan_id < i32::MAX,
    ensures
        borrow_spec(s, book_id, member_id, due_str, today, now).0.wf(),
{
    let (s2, r) = borrow_spec(s, book_id, member_id, due_str, today, now);
    if r is Ok {
        let j = book_idx(s, book_id);
        let b = s.books[j];
        let loan = r.unwrap();
        assert(0 <= j < s.books.len() && b.id == book_id);
        assert forall|i: int| 0 <= i < s2.books.len() implies {
            let bi = #[trigger] s2.books[i];
            0 <= bi.available_copies && bi.available_copies + count_open(s2.loans, bi.id)
                == bi.total_copies
        } by {
            lemma_count_open_push(s.loans, loan, s2.books[i].id);
            if i != j {
                assert(s2.books[i] == s.books[i]);
                assert(s.books[i].id != book_id);
            }
        }
    }
}

/// The return transaction preserves well-formedness: closing the loan row
/// and incrementing the book's stock cancel out in the consistency count.
pub proof fn lemma_return_preserves_wf(s: LibraryV, loan_id: int, now: int)
    requires
        s.wf(),
    ensures
        return_spec(s, loan_id, now).0.wf(),
{
    let (s2, r) = return_spec(s, loan_id, now);
    if r is Ok {
        let idx = loan_idx(s, loan_id);
        let l = s.loans[idx];
        let l2 = s2.loans[idx];
        assert(0 <= idx < s.loans.len() && l.id == loan_id && l.returned_at is None);
        assert forall|i: int| 0 <= i < s2.books.len() implies {
            let bi = #[trigger] s2.books[i];
            0 <= bi.available_copies && bi.available_copies + count_open(s2.loans, bi.id)
                == bi.total_copies
        } by {
            lemma_count_open_update(s.loans, idx, l2, s2.books[i].id);
            if has_book(s, l.book_id) {
                let j = book_idx(s, l.book_id);
                assert(0 <= j < s.books.len() && s.books[j].id == l.book_id);
                if i == j {
                    lemma_count_open_at_least_one(s.loans, idx, l.book_id);
                } else {
                    assert(s2.books[i] == s.books[i]);
                    assert(s.books[i].id != l.book_id);
                }
            } else {
                assert(s2.books[i] == s.books[i]);
                assert(s.books[i].id != l.book_id);
            }
        }
    }
}

/// A borrow attempt on a book with no available copy never succeeds and
/// leaves the store — stock and loan table alike — exactly as it was; when
/// the request is otherwise valid, the error is precisely out-of-stock.
pub proof fn lemma_borrow_out_of_stock(
    s: LibraryV,
    book_id: int,
    member_id: int,
    due_str: Seq<char>,
    today: Date,
    now: int,
)
    requires
        s.wf(),
        has_book(s, book_id),
        s.books[book_idx(s, book_id)].available_copies == 0,
    ensures
        ({
            let (s2, r) = borrow_spec(s, book_id, member_id, due_str, today, now);
            &&& s2 == s
            &&& !(r is Ok)
            &&& match parse_date_spec(due_str) {
                Some(d) => (date_le(today, d) && has_member(s, member_id)) ==> r == Err::<
                    LoanV,
                    LendError,
                >(LendError::OutOfStock),
                None => r == Err::<LoanV, LendError>(LendError::InvalidDueDate),
            }
        }),
{
}

/// Under the isolation the design demands, two borrow attempts racing on a
/// book with exactly one available copy serialize: the one that runs first
/// succeeds, the other is rejected out of stock, and the stock ends at
/// zero — never below.
pub proof fn lemma_borrow_race_one_succeeds(
    s: LibraryV,
    book_id: int,
    m1: int,
    m2: int,
    due1: Seq<char>,
    due2: Seq<char>,
    today: Date,
    now1: int,
    now2: int,
)
    requires
        s.wf(),
        s.next_loan_id < i32::MAX,
        has_book(s, book_id),
        has_member(s, m1),
        has_member(s, m2),
        s.books[book_idx(s, book_id)].available_copies == 1,
        parse_date_spec(due1) is Some,
        date_le(today, parse_date_spec(due1).unwrap()),
        parse_date_spec(due2) is Some,
        date_le(today, parse_date_spec(due2).unwrap()),
    ensures
        ({
            let (s1, r1) = borrow_spec(s, book_id, m1, due1, today, now1);
            let (s2, r2) = borrow_spec(s1, book_id, m2, due2, today, now2);
            &&& r1 is Ok
            &&& r2 == Err::<LoanV, LendError>(LendError::OutOfStock)
            &&& s1.books[book_idx(s1, book_id)].available_copies == 0
            &&& s2 == s1
        }),
{
    let j = book_idx(s, book_id);
    let (s1, r1) = borrow_spec(s, book_id, m1, due1, today, now1);
    lemma_borrow_preserves_wf(s, book_id, m1, due1, today, now1);
    assert(s1.books[j].id == book_id);
    assert(has_book(s1, book_id));
    let j1 = book_idx(s1, book_id);
    assert(0 <= j1 < s1.books.len() && s1.books[j1].id == book_id);
    assert(j1 == j);
    assert(s1.books[j].available_copies == 0);
}

/// Borrow then return is idempotent on stock: after a successful borrow
/// and the matching successful return, the catalog — every book's
/// `available_copies` included — is exactly what it was before the borrow.
pub proof fn lemma_borrow_then_return_restores_stock(
    s: LibraryV,
    book_id: int,
    member_id: int,
    due_str: Seq<char>,
    today: Date,
    now1: int,
    now2: int,
)
    requires
        s.wf(),
        s.next_loan_id < i32::MAX,
        has_book(s, book_id),
        has_member(s, member_id),
        parse_date_spec(due_str) is Some,
        date_le(today, parse_date_spec(due_str).unwrap()),
        s.books[book_idx(s, book_id)].available_copies > 0,
    ensures
        ({
            let (s1, r1) = borrow_spec(s, book_id, member_id, due_str, today, now1);
            let (s2, r2) = return_spec(s1, r1.unwrap().id, now2);
            &&& r1 is Ok
            &&& r2 == Ok::<(), LendError>(())
            &&& s2.books == s.books
        }),
{
    let j = book_idx(s, book_id);
    let (s1, r1) = borrow_spec(s, book_id, member_id, due_str, today, now1);
    lemma_borrow_preserves_wf(s, book_id, member_id, due_str, today, now1);
    let loan = r1.unwrap();
    let idx = s.loans.len() as int;
    assert(s1.loans[idx] == loan);
    assert(has_loan(s1, loan.id));
    let i1 = loan_idx(s1, loan.id);
    assert(0 <= i1 < s1.loans.len() && s1.loans[i1].id == loan.id);
    assert(i1 == idx);
    assert(s1.books[j].id == book_id);
    assert(has_book(s1, book_id));
    let j1 = book_idx(s1, book_id);
    assert(0 <= j1 < s1.books.len() && s1.books[j1].id == book_id);
    assert(j1 == j);
    let (s2, r2) = return_spec(s1, loan.id, now2);
    assert(s2.books =~= s.books);
}

/// Returning the same loan twice never double-increments the stock: once a
/// return has succeeded, a second attempt on the same loan is rejected as
/// not active and changes nothing at all.
pub proof fn lemma_second_return_rejected(s: LibraryV, loan_id: int, now1: int, now2: int)
    requires
        s.wf(),
    ensures
        ({
            let (s1, r1) = return_spec(s, loan_id, now1);
            let (s2, r2) = return_spec(s1, loan_id, now2);
            r1 is Ok ==> (r2 == Err::<(), LendError>(LendError::LoanNotActive) && s2 == s1)
        }),
{
    let (s1, r1) = return_spec(s, loan_id, now1);
    if r1 is Ok {
        lemma_return_preserves_wf(s, loan_id, now1);
        let idx = loan_idx(s, loan_id);
        assert(s1.loans[idx].id == loan_id);
        assert(has_loan(s1, loan_id));
        let i1 = loan_idx(s1, loan_id);
        assert(0 <= i1 < s1.loans.len() && s1.loans[i1].id == loan_id);
        assert(i1 == idx);
        assert(s1.loans[idx].returned_at == Some(now1));
    }
}

} // verus!
