use sudut_buku::book::Book;
use sudut_buku::search::{chunk_size, contains_substr, search_books, search_books_chunked, SearchMode};

fn sample_books() -> Vec<Book> {
    vec![
        Book {
            id: 1,
            title: "Rust Book".to_string(),
            author: "Steve Klabnik".to_string(),
            category: "Programming".to_string(),
            year: 2019,
            total_copies: 3,
            available_copies: 3,
        },
        Book {
            id: 2,
            title: "Go Guide".to_string(),
            author: "Alan Donovan".to_string(),
            category: "Programming".to_string(),
            year: 2015,
            total_copies: 2,
            available_copies: 2,
        },
        Book {
            id: 3,
            title: "Dune".to_string(),
            author: "Frank Herbert".to_string(),
            category: "Fiction".to_string(),
            year: 1965,
            total_copies: 1,
            available_copies: 1,
        },
    ]
}

#[test]
fn title_search_is_case_insensitive() {
    let books = sample_books();
    let r = search_books(&books, SearchMode::Title, "go");
    assert_eq!(r.len(), 1);
    assert_eq!(r[0].id, 2);
}

#[test]
fn uppercase_query_still_matches() {
    let books = sample_books();
    let r = search_books(&books, SearchMode::Title, "GO");
    assert_eq!(r.len(), 1);
    assert_eq!(r[0].id, 2);
}

#[test]
fn empty_query_returns_every_book_in_order() {
    let books = sample_books();
    let r = search_books(&books, SearchMode::Author, "");
    assert_eq!(r.len(), 3);
    assert_eq!(r[0].id, 1);
    assert_eq!(r[1].id, 2);
    assert_eq!(r[2].id, 3);
}

#[test]
fn unmatched_query_returns_nothing() {
    let books = sample_books();
    let r = search_books(&books, SearchMode::Title, "zzzz");
    assert_eq!(r.len(), 0);
}

#[test]
fn author_and_category_modes_select_their_field() {
    let books = sample_books();
    let by_author = search_books(&books, SearchMode::Author, "herbert");
    assert_eq!(by_author.len(), 1);
    assert_eq!(by_author[0].id, 3);
    let by_category = search_books(&books, SearchMode::Category, "programming");
    assert_eq!(by_category.len(), 2);
    assert_eq!(by_category[0].id, 1);
    assert_eq!(by_category[1].id, 2);
}

#[test]
fn chunked_search_matches_single_scan_for_every_worker_count() {
    let books = sample_books();
    let whole = search_books(&books, SearchMode::Category, "pro");
    for workers in 1..8usize {
        let chunk = chunk_size(books.len(), workers);
        let chunked = search_books_chunked(&books, SearchMode::Category, "pro", chunk);
        assert_eq!(chunked.len(), whole.len());
        for (a, b) in chunked.iter().zip(whole.iter()) {
            assert_eq!(a.id, b.id);
            assert_eq!(a.title, b.title);
        }
    }
}

#[test]
fn chunk_size_is_ceiling_division() {
    assert_eq!(chunk_size(10, 4), 3);
    assert_eq!(chunk_size(8, 4), 2);
    assert_eq!(chunk_size(1, 4), 1);
    assert_eq!(chunk_size(0, 4), 0);
    assert_eq!(chunk_size(5, 1), 5);
}

#[test]
fn mode_from_str_reads_the_three_names() {
    assert_eq!(SearchMode::from_str("title"), Some(SearchMode::Title));
    assert_eq!(SearchMode::from_str("author"), Some(SearchMode::Author));
    assert_eq!(SearchMode::from_str("category"), Some(SearchMode::Category));
    assert_eq!(SearchMode::from_str("isbn"), None);
    assert_eq!(SearchMode::from_str(""), None);
}

#[test]
fn unmatched_mode_defaults_to_title() {
    assert_eq!(SearchMode::from_str_or_default("category"), SearchMode::Category);
    assert_eq!(SearchMode::from_str_or_default("isbn"), SearchMode::Title);
}

#[test]
fn substring_scan_finds_inner_matches() {
    assert!(contains_substr("hello world", "o w"));
    assert!(contains_substr("hello", "hello"));
    assert!(contains_substr("anything", ""));
    assert!(!contains_substr("", "x"));
    assert!(!contains_substr("abc", "abcd"));
}
