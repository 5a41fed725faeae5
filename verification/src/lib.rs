//! A small library-management core: a catalog of books, members and loans,
//! a lending transaction manager that keeps `available_copies` consistent
//! with the set of open loans, and a pure, chunkable search engine.

pub mod book;
pub mod date;
pub mod lending;
pub mod loan;
pub mod member;
pub mod search;
