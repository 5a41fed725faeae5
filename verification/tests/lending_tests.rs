use sudut_buku::book::NewBook;
use sudut_buku::date::Date;
use sudut_buku::lending::{LendError, Library};
use sudut_buku::member::NewMember;

const NOW: i64 = 1_760_140_800;

fn today() -> Date {
    Date { year: 2025, month: 10, day: 11 }
}

fn store_with_one_book(total: i32) -> Library {
    let mut lib = Library::new();
    lib.add_book(&NewBook {
        title: "Rust Book".to_string(),
        author: "Steve Klabnik".to_string(),
        category: "Programming".to_string(),
        year: 2019,
        total_copies: total,
    });
    lib.add_member(&NewMember { name: "Ana".to_string(), email: "ana@example.com".to_string() }, NOW);
    lib
}

#[test]
fn catalog_insert_starts_with_full_stock() {
    let lib = store_with_one_book(2);
    assert_eq!(lib.books.len(), 1);
    assert_eq!(lib.books[0].id, 1);
    assert_eq!(lib.books[0].total_copies, 2);
    assert_eq!(lib.books[0].available_copies, 2);
}

#[test]
fn borrow_creates_a_loan_and_decrements_stock() {
    let mut lib = store_with_one_book(2);
    let loan = lib.borrow(1, 1, "2025-12-01", today(), NOW).unwrap();
    assert_eq!(loan.id, 1);
    assert_eq!(loan.book_id, 1);
    assert_eq!(loan.member_id, 1);
    assert_eq!(loan.borrowed_at, NOW);
    assert_eq!(loan.due_at, Date { year: 2025, month: 12, day: 1 });
    assert_eq!(loan.returned_at, None);
    assert_eq!(lib.books[0].available_copies, 1);
    assert_eq!(lib.loans.len(), 1);
}

#[test]
fn malformed_due_date_is_rejected_before_any_change() {
    let mut lib = store_with_one_book(2);
    let r = lib.borrow(1, 1, "not-a-date", today(), NOW);
    assert_eq!(r.unwrap_err(), LendError::InvalidDueDate);
    assert_eq!(lib.books[0].available_copies, 2);
    assert_eq!(lib.loans.len(), 0);
}

#[test]
fn due_date_yesterday_is_rejected_and_no_row_inserted() {
    let mut lib = store_with_one_book(2);
    let r = lib.borrow(1, 1, "2025-10-10", today(), NOW);
    assert_eq!(r.unwrap_err(), LendError::DueDateInPast);
    assert_eq!(lib.books[0].available_copies, 2);
    assert_eq!(lib.loans.len(), 0);
}

#[test]
fn due_date_today_is_accepted() {
    let mut lib = store_with_one_book(2);
    let r = lib.borrow(1, 1, "2025-10-11", today(), NOW);
    assert!(r.is_ok());
}

#[test]
fn borrowing_a_missing_book_fails() {
    let mut lib = store_with_one_book(2);
    let r = lib.borrow(99, 1, "2025-12-01", today(), NOW);
    assert_eq!(r.unwrap_err(), LendError::BookNotFound);
    assert_eq!(lib.loans.len(), 0);
}

#[test]
fn borrowing_for_a_missing_member_fails() {
    let mut lib = store_with_one_book(2);
    let r = lib.borrow(1, 99, "2025-12-01", today(), NOW);
    assert_eq!(r.unwrap_err(), LendError::MemberNotFound);
    assert_eq!(lib.loans.len(), 0);
}

#[test]
fn exhausted_stock_rejects_the_borrow_and_stays_at_zero() {
    let mut lib = store_with_one_book(2);
    lib.borrow(1, 1, "2025-12-01", today(), NOW).unwrap();
    lib.borrow(1, 1, "2025-12-01", today(), NOW).unwrap();
    assert_eq!(lib.books[0].available_copies, 0);
    let r = lib.borrow(1, 1, "2025-12-01", today(), NOW);
    assert_eq!(r.unwrap_err(), LendError::OutOfStock);
    assert_eq!(lib.books[0].available_copies, 0);
    assert_eq!(lib.loans.len(), 2);
}

#[test]
fn two_borrows_racing_on_the_last_copy_give_one_success() {
    let mut lib = store_with_one_book(1);
    let first = lib.borrow(1, 1, "2025-12-01", today(), NOW);
    let second = lib.borrow(1, 1, "2025-12-01", today(), NOW);
    assert!(first.is_ok());
    assert_eq!(second.unwrap_err(), LendError::OutOfStock);
    assert_eq!(lib.books[0].available_copies, 0);
}

#[test]
fn borrow_then_return_restores_stock() {
    let mut lib = store_with_one_book(2);
    let before = lib.books[0].available_copies;
    let loan = lib.borrow(1, 1, "2025-12-01", today(), NOW).unwrap();
    assert_eq!(lib.books[0].available_copies, before - 1);
    let r = lib.return_loan(loan.id, NOW + 3600);
    assert!(r.is_ok());
    assert_eq!(lib.books[0].available_copies, before);
    assert_eq!(lib.loans[0].returned_at, Some(NOW + 3600));
}

#[test]
fn returning_a_missing_loan_fails_without_change() {
    let mut lib = store_with_one_book(2);
    let r = lib.return_loan(42, NOW);
    assert_eq!(r.unwrap_err(), LendError::LoanNotFound);
    assert_eq!(lib.books[0].available_copies, 2);
}

#[test]
fn second_return_is_rejected_and_stock_unchanged() {
    let mut lib = store_with_one_book(2);
    let loan = lib.borrow(1, 1, "2025-12-01", today(), NOW).unwrap();
    lib.return_loan(loan.id, NOW + 1).unwrap();
    let stock_after_first = lib.books[0].available_copies;
    let r = lib.return_loan(loan.id, NOW + 2);
    assert_eq!(r.unwrap_err(), LendError::LoanNotActive);
    assert_eq!(lib.books[0].available_copies, stock_after_first);
    assert_eq!(lib.loans[0].returned_at, Some(NOW + 1));
}

#[test]
fn removing_a_book_reports_whether_a_row_went() {
    let mut lib = store_with_one_book(2);
    assert!(lib.remove_book(1));
    assert!(!lib.remove_book(1));
    assert_eq!(lib.books.len(), 0);
}

#[test]
fn removing_a_member_reports_whether_a_row_went() {
    let mut lib = store_with_one_book(2);
    assert!(lib.remove_member(1));
    assert!(!lib.remove_member(1));
    assert_eq!(lib.members.len(), 0);
}

#[test]
fn member_insert_records_the_join_time() {
    let mut lib = Library::new();
    let m = lib.add_member(
        &NewMember { name: "Budi".to_string(), email: "budi@example.com".to_string() },
        NOW,
    );
    assert_eq!(m.id, 1);
    assert_eq!(m.joined_at, NOW);
    assert_eq!(lib.members.len(), 1);
    assert_eq!(lib.members[0].name, "Budi");
}

#[test]
fn loan_identities_keep_growing_after_returns() {
    let mut lib = store_with_one_book(3);
    let a = lib.borrow(1, 1, "2025-12-01", today(), NOW).unwrap();
    lib.return_loan(a.id, NOW + 1).unwrap();
    let b = lib.borrow(1, 1, "2025-12-01", today(), NOW + 2).unwrap();
    assert_eq!(a.id, 1);
    assert_eq!(b.id, 2);
    assert_eq!(lib.loans.len(), 2);
}
