//! The search engine: a pure, order-preserving, case-insensitive substring
//! filter over a book snapshot, and the chunked form of the same filter that
//! a parallel dispatcher concatenates in chunk order.

use vstd::prelude::*;
use vstd::seq_lib::*;
use vstd::slice::slice_subrange;
use crate::book::Book;

verus! {

/// Which field of a book a query is matched against.
#[derive(Debug, Clone, Copy, PartialEq, Eq, Structural)]
pub enum SearchMode {
    Title,
    Author,
    Category,
}

/// What `SearchMode::from_str` yields for each query string.
pub open spec fn mode_from_str_spec(s: Seq<char>) -> Option<SearchMode> {
    if s == "title"@ {
        Some(SearchMode::Title)
    } else if s == "author"@ {
        Some(SearchMode::Author)
    } else if s == "category"@ {
        Some(SearchMode::Category)
    } else {
        None
    }
}

impl SearchMode {
    /// Reads a mode out of its query-string name; anything else is no mode.
    pub fn from_str(s: &str) -> (r: Option<SearchMode>)
        ensures
            r == mode_from_str_spec(s@),
    {
        if str_eq(s, "title") {
            Some(SearchMode::Title)
        } else if str_eq(s, "author") {
            Some(SearchMode::Author)
        } else if str_eq(s, "category") {
            Some(SearchMode::Category)
        } else {
            None
        }
    }

    /// Reads a mode out of its query-string name; an unmatched name falls
    /// back to `Title`.
    pub fn from_str_or_default(s: &str) -> (r: SearchMode)
        ensures
            r == (match mode_from_str_spec(s@) {
                Some(m) => m,
                None => SearchMode::Title,
            }),
    {
        match SearchMode::from_str(s) {
            Some(m) => m,
            None => SearchMode::Title,
        }
    }
}

/// Character-by-character string equality.
fn str_eq(a: &str, b: &str) -> (r: bool)
    ensures
        r == (a@ == b@),
{
    let la = a.unicode_len();
    let lb = b.unicode_len();
    if la != lb {
        return false;
    }
    let mut i: usize = 0;
    while i < la
        invariant
            i <= la,
            la == a@.len(),
            la == b@.len(),
            forall|j: int| 0 <= j < i ==> a@[j] == b@[j],
        decreases la - i,
    {
        if a.get_char(i) != b.get_char(i) {
            return false;
        }
        i = i + 1;
    }
    proof {
        assert(a@ =~= b@);
    }
    true
}

/// `needle` occurs contiguously somewhere in `hay`. The empty sequence
/// occurs in everything.
pub open spec fn is_substring(hay: Seq<char>, needle: Seq<char>) -> bool {
    exists|i: int|
        0 <= i <= hay.len() - needle.len() && #[trigger] hay.subrange(i, i + needle.len() as int)
            == needle
}

/// `needle` occurs in `hay` starting at position `i`.
fn matches_at(hay: &str, needle: &str, i: usize) -> (r: bool)
    requires
        i + needle@.len() <= hay@.len(),
    ensures
        r == (hay@.subrange(i as int, i as int + needle@.len() as int) == needle@),
{
    let n = needle.unicode_len();
    let h = hay.unicode_len();
    let ghost sub = hay@.subrange(i as int, i as int + needle@.len() as int);
    let mut j: usize = 0;
    while j < n
        invariant
            j <= n,
            n == needle@.len(),
            h == hay@.len(),
            i + n <= h,
            sub == hay@.subrange(i as int, i as int + needle@.len() as int),
            forall|t: int| 0 <= t < j ==> hay@[i + t] == needle@[t],
        decreases n - j,
    {
        if hay.get_char(i + j) != needle.get_char(j) {
            proof {
                assert(sub[j as int] == hay@[i + j as int]);
            }
            return false;
        }
        j = j + 1;
    }
    proof {
        assert forall|t: int| 0 <= t < n implies sub[t] == needle@[t] by {
            assert(sub[t] == hay@[i + t]);
        }
        assert(sub =~= needle@);
    }
    true
}

/// Whether `needle` occurs anywhere in `hay`, by scanning every start
/// position.
pub fn contains_substr(hay: &str, needle: &str) -> (r: bool)
    ensures
        r == is_substring(hay@, needle@),
{
    let h = hay.unicode_len();
    let n = needle.unicode_len();
    if n > h {
        return false;
    }
    if n == 0 {
        proof {
            assert(hay@.subrange(0, 0 + needle@.len() as int) =~= needle@);
        }
        return true;
    }
    let mut i: usize = 0;
    while i <= h - n
        invariant
            1 <= n <= h,
            h == hay@.len(),
            n == needle@.len(),
            i <= h - n + 1,
            forall|k: int|
                0 <= k < i ==> #[trigger] hay@.subrange(k, k + needle@.len() as int) != needle@,
        decreases h - n - i + 1,
    {
        if matches_at(hay, needle, i) {
            proof {
                assert(hay@.subrange(i as int, i as int + needle@.len() as int) == needle@);
            }
            return true;
        }
        i = i + 1;
    }
    false
}

/// The image of a string under Unicode lowercasing.
pub uninterp spec fn lower_of(s: Seq<char>) -> Seq<char>;

/// Relies on str::to_lowercase: the lowercase equivalent of a string, a
/// function of its characters alone; the empty string stays empty.
#[verifier::external_body]
fn lowercase(s: &str) -> (r: String)
    ensures
        r@ == lower_of(s@),
        s@.len() == 0 ==> r@.len() == 0,
{
    s.to_lowercase()
}

/// The field of a book that a search mode selects.
pub open spec fn field_of(b: Book, mode: SearchMode) -> Seq<char> {
    match mode {
        SearchMode::Title => b.title@,
        SearchMode::Author => b.author@,
        SearchMode::Category => b.category@,
    }
}

/// A book matches when the already-lowercased query occurs in the lowercased
/// selected field.
pub open spec fn book_matches(b: Book, mode: SearchMode, query_lower: Seq<char>) -> bool {
    is_substring(lower_of(field_of(b, mode)), query_lower)
}

/// The search result: the matching books of the snapshot, in snapshot order.
/// `query_lower` is the query after lowercasing.
pub open spec fn search_spec(books: Seq<Book>, mode: SearchMode, query_lower: Seq<char>) -> Seq<
    Book,
> {
    books.filter(|b: Book| book_matches(b, mode, query_lower))
}

/// Pure filter: no I/O, the input untouched; returns exactly the books whose
/// selected field contains the query case-insensitively, in input order.
pub fn search_books(books: &[Book], mode: SearchMode, query: &str) -> (r: Vec<Book>)
    ensures
        r@ == search_spec(books@, mode, lower_of(query@)),
{
    let q = lowercase(query);
    let ghost pred = |b: Book| book_matches(b, mode, lower_of(query@));
    let mut r: Vec<Book> = Vec::new();
    proof {
        assert(books@.subrange(0, 0) =~= Seq::<Book>::empty());
        reveal_with_fuel(Seq::<_>::filter, 2);
    }
    let mut i: usize = 0;
    while i < books.len()
        invariant
            i <= books@.len(),
            q@ == lower_of(query@),
            r@ == books@.subrange(0, i as int).filter(pred),
            pred == (|b: Book| book_matches(b, mode, lower_of(query@))),
        decreases books@.len() - i,
    {
        let b = vstd::slice::slice_index_get(books, i);
        let field = match mode {
            SearchMode::Title => &b.title,
            SearchMode::Author => &b.author,
            SearchMode::Category => &b.category,
        };
        let fl = lowercase(field.as_str());
        if contains_substr(fl.as_str(), q.as_str()) {
            r.push(b.clone());
        }
        proof {
            let prefix = books@.subrange(0, i as int);
            let one = seq![books@[i as int]];
            assert(books@.subrange(0, i + 1) =~= prefix + one);
            Seq::filter_distributes_over_add(prefix, one, pred);
            reveal_with_fuel(Seq::<_>::filter, 2);
            assert(one.drop_last() =~= Seq::<Book>::empty());
            assert(one.filter(pred) == (if pred(books@[i as int]) {
                seq![books@[i as int]]
            } else {
                Seq::<Book>::empty()
            }));
        }
        i = i + 1;
    }
    proof {
        assert(books@.subrange(0, books@.len() as int) =~= books@);
    }
    r
}

/// The chunk size the dispatch policy uses: `ceil(len / workers)`.
pub open spec fn chunk_size_spec(len: int, workers: int) -> int {
    if len % workers == 0 {
        len / workers
    } else {
        len / workers + 1
    }
}

/// Computes the dispatch chunk size for a snapshot of `len` books and a
/// worker budget of `workers`.
pub fn chunk_size(len: usize, workers: usize) -> (r: usize)
    requires
        workers >= 1,
    ensures
        r == chunk_size_spec(len as int, workers as int),
        len > 0 ==> r >= 1,
        r * (workers as int) >= len,
{
    let q = len / workers;
    let rem = len % workers;
    proof {
        assert(len == q * workers + rem && rem < workers) by (nonlinear_arith)
            requires
                workers >= 1,
                q == len as int / workers as int,
                rem == len as int % workers as int,
        ;
        assert((q + 1) * workers == q * workers + workers) by (nonlinear_arith);
        assert(q * workers >= q) by (nonlinear_arith)
            requires
                workers as int >= 1,
                q as int >= 0,
        ;
        assert(q == 0 ==> q * workers == 0) by (nonlinear_arith);
    }
    if rem == 0 {
        q
    } else {
        q + 1
    }
}

/// The chunked search of the dispatch policy, run to completion in chunk
/// order. Each contiguous chunk of `chunk` books is filtered on its own and
/// the partial results are concatenated in chunk order.
///
/// The result is stated against the whole snapshot alone: it equals the
/// single-scan search for every chunk size, so the worker budget that chose
/// the chunking never shows in the output — the order is identical
/// regardless of worker count.
pub fn search_books_chunked(books: &[Book], mode: SearchMode, query: &str, chunk: usize) -> (r:
    Vec<Book>)
    requires
        chunk >= 1,
    ensures
        r@ == search_spec(books@, mode, lower_of(query@)),
{
    let ghost pred = |b: Book| book_matches(b, mode, lower_of(query@));
    let mut r: Vec<Book> = Vec::new();
    proof {
        assert(books@.subrange(0, 0) =~= Seq::<Book>::empty());
        reveal_with_fuel(Seq::<_>::filter, 1);
    }
    let len = books.len();
    let mut pos: usize = 0;
    while pos < len
        invariant
            pos <= len,
            len == books@.len(),
            chunk >= 1,
            r@ == books@.subrange(0, pos as int).filter(pred),
            pred == (|b: Book| book_matches(b, mode, lower_of(query@))),
        decreases len - pos,
    {
        let end = if len - pos < chunk {
            len
        } else {
            pos + chunk
        };
        let part = slice_subrange(books, pos, end);
        let mut found = search_books(part, mode, query);
        proof {
            let prefix = books@.subrange(0, pos as int);
            assert(books@.subrange(0, end as int) =~= prefix + part@);
            Seq::filter_distributes_over_add(prefix, part@, pred);
        }
        r.append(&mut found);
        pos = end;
    }
    proof {
        assert(books@.subrange(0, books@.len() as int) =~= books@);
    }
    r
}

/// The dispatch policy's result at the spec level: the snapshot cut into
/// contiguous chunks of `chunk` books, each chunk filtered on its own, the
/// partial results concatenated in chunk order.
pub open spec fn search_chunks_spec(
    books: Seq<Book>,
    mode: SearchMode,
    query_lower: Seq<char>,
    chunk: int,
) -> Seq<Book>
    decreases books.len(),
    when chunk >= 1
{
    if books.len() <= chunk {
        search_spec(books, mode, query_lower)
    } else {
        search_spec(books.subrange(0, chunk), mode, query_lower) + search_chunks_spec(
            books.subrange(chunk, books.len() as int),
            mode,
            query_lower,
            chunk,
        )
    }
}

/// Chunk order follows snapshot order, so concatenating the chunks' partial
/// results reproduces the single scan exactly, whatever the chunk size.
pub proof fn lemma_chunked_search_eq_single_scan(
    books: Seq<Book>,
    mode: SearchMode,
    query_lower: Seq<char>,
    chunk: int,
)
    requires
        chunk >= 1,
    ensures
        search_chunks_spec(books, mode, query_lower, chunk) == search_spec(
            books,
            mode,
            query_lower,
        ),
    decreases books.len(),
{
    if books.len() > chunk {
        let head = books.subrange(0, chunk);
        let tail = books.subrange(chunk, books.len() as int);
        lemma_chunked_search_eq_single_scan(tail, mode, query_lower, chunk);
        let pred = |b: Book| book_matches(b, mode, query_lower);
        Seq::filter_distributes_over_add(head, tail, pred);
        assert(head + tail =~= books);
    }
}

/// The search result is identical regardless of the worker count used to
/// partition the snapshot: two chunked runs of the same snapshot, mode and
/// query agree however each was cut.
pub proof fn lemma_search_order_independent_of_workers(
    books: Seq<Book>,
    mode: SearchMode,
    query_lower: Seq<char>,
    chunk1: int,
    chunk2: int,
)
    requires
        chunk1 >= 1,
        chunk2 >= 1,
    ensures
        search_chunks_spec(books, mode, query_lower, chunk1) == search_chunks_spec(
            books,
            mode,
            query_lower,
            chunk2,
        ),
{
    lemma_chunked_search_eq_single_scan(books, mode, query_lower, chunk1);
    lemma_chunked_search_eq_single_scan(books, mode, query_lower, chunk2);
}

/// Every element satisfies the predicate, so the filter keeps the whole
/// sequence.
proof fn lemma_filter_all_true<A>(s: Seq<A>, pred: spec_fn(A) -> bool)
    requires
        forall|i: int| 0 <= i < s.len() ==> pred(s[i]),
    ensures
        s.filter(pred) == s,
    decreases s.len(),
{
    reveal(Seq::filter);
    if s.len() > 0 {
        lemma_filter_all_true(s.drop_last(), pred);
        assert(s.drop_last().push(s.last()) =~= s);
    }
}

/// No element satisfies the predicate, so the filter keeps nothing.
proof fn lemma_filter_all_false<A>(s: Seq<A>, pred: spec_fn(A) -> bool)
    requires
        forall|i: int| 0 <= i < s.len() ==> !pred(s[i]),
    ensures
        s.filter(pred) == Seq::<A>::empty(),
    decreases s.len(),
{
    reveal(Seq::filter);
    if s.len() > 0 {
        lemma_filter_all_false(s.drop_last(), pred);
    }
}

/// An empty query is a substring of every field, so searching with it
/// returns every book of the snapshot, in the snapshot's order.
pub proof fn lemma_search_empty_query(books: Seq<Book>, mode: SearchMode, query_lower: Seq<char>)
    requires
        query_lower.len() == 0,
    ensures
        search_spec(books, mode, query_lower) == books,
{
    let pred = |b: Book| book_matches(b, mode, query_lower);
    assert forall|i: int| 0 <= i < books.len() implies pred(books[i]) by {
        let hay = lower_of(field_of(books[i], mode));
        assert(hay.subrange(0, 0 + query_lower.len() as int) =~= query_lower);
    }
    lemma_filter_all_true(books, pred);
}

/// A query that matches no field of any book returns the empty sequence.
pub proof fn lemma_search_no_match(books: Seq<Book>, mode: SearchMode, query_lower: Seq<char>)
    requires
        forall|i: int| 0 <= i < books.len() ==> !book_matches(books[i], mode, query_lower),
    ensures
        search_spec(books, mode, query_lower) == Seq::<Book>::empty(),
{
    let pred = |b: Book| book_matches(b, mode, query_lower);
    lemma_filter_all_false(books, pred);
}

} // verus!
