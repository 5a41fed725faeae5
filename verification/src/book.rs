//! Catalog entries. A `Book` carries its stock counters: `total_copies` owned
//! by the catalog and `available_copies` maintained exclusively by the
//! lending transaction manager.

use vstd::prelude::*;

verus! {

/// The mathematical image of a `Book`: integers and character sequences.
pub struct BookV {
    pub id: int,
    pub title: Seq<char>,
    pub author: Seq<char>,
    pub category: Seq<char>,
    pub year: int,
    pub total_copies: int,
    pub available_copies: int,
}

/// One row of the catalog.
#[derive(Debug)]
pub struct Book {
    pub id: i32,
    pub title: String,
    pub author: String,
    pub category: String,
    pub year: i32,
    pub total_copies: i32,
    pub available_copies: i32,
}

impl View for Book {
    type V = BookV;

    open spec fn view(&self) -> BookV {
        BookV {
            id: self.id as int,
            title: self.title@,
            author: self.author@,
            category: self.category@,
            year: self.year as int,
            total_copies: self.total_copies as int,
            available_copies: self.available_copies as int,
        }
    }
}

impl Clone for Book {
    fn clone(&self) -> (r: Self)
        ensures
            r == *self,
    {
        Book {
            id: self.id,
            title: self.title.clone(),
            author: self.author.clone(),
            category: self.category.clone(),
            year: self.year,
            total_copies: self.total_copies,
            available_copies: self.available_copies,
        }
    }
}

/// A catalog-insert request: the caller names the stock; identity and
/// availability are assigned by the store.
#[derive(Debug)]
pub struct NewBook {
    pub title: String,
    pub author: String,
    pub category: String,
    pub year: i32,
    pub total_copies: i32,
}

impl Clone for NewBook {
    fn clone(&self) -> (r: Self)
        ensures
            r == *self,
    {
        NewBook {
            title: self.title.clone(),
            author: self.author.clone(),
            category: self.category.clone(),
            year: self.year,
            total_copies: self.total_copies,
        }
    }
}

} // verus!
