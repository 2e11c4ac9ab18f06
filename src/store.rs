use vstd::prelude::*;
use vstd::string::*;

use crate::book::{Book, BookRecord};

verus! {

/// The contents of a record store, as plain values.
pub struct StoreView {
    /// Book records by id.
    pub books: Map<Seq<char>, BookRecord>,
    /// Cover content types by book id.
    pub covers: Map<Seq<char>, Seq<char>>,
    /// Ids of the books marked as favourites.
    pub favorites: Set<Seq<char>>,
}

/// Why a record-store operation was refused.
#[derive(Debug, Clone, Copy, PartialEq, Eq, Structural)]
pub enum StoreError {
    /// No book is stored under the id the operation names.
    MissingBook,
}

/// The store after `b` is saved.
pub open spec fn saved_book(v: StoreView, b: BookRecord) -> StoreView {
    StoreView {
        books: v.books.insert(b.id, stored_record(b, v.covers.contains_key(b.id))),
        covers: v.covers,
        favorites: v.favorites.remove(b.id),
    }
}

/// The store after the cover type `t` is saved for the book `id`.
pub open spec fn saved_cover(v: StoreView, id: Seq<char>, t: Seq<char>) -> StoreView {
    if t.len() == 0 || !v.books.contains_key(id) {
        v
    } else {
        StoreView {
            books: v.books.insert(id, stored_record(v.books[id], true)),
            covers: v.covers.insert(id, t),
            favorites: v.favorites,
        }
    }
}

/// The store after the cover of the book `id` is deleted.
pub open spec fn deleted_cover(v: StoreView, id: Seq<char>) -> StoreView {
    StoreView {
        books: if v.books.contains_key(id) {
            v.books.insert(id, stored_record(v.books[id], false))
        } else {
            v.books
        },
        covers: v.covers.remove(id),
        favorites: v.favorites,
    }
}

/// The store after the book `id` is deleted, with its cover.
pub open spec fn deleted_book(v: StoreView, id: Seq<char>) -> StoreView {
    StoreView {
        books: v.books.remove(id),
        covers: v.covers.remove(id),
        favorites: v.favorites.remove(id),
    }
}

struct BookRow {
    book: Book,
    favorite: bool,
}

struct CoverRow {
    book_id: String,
    mime_type: String,
}

/// The record store: books, their covers and their favourite marks.
///
/// A book's `has_cover` flag is true exactly when a cover row exists for its
/// id, every cover belongs to a stored book, and deleting a book deletes its
/// cover with it.
pub struct Database {
    rows: Vec<BookRow>,
    covers: Vec<CoverRow>,
    books_model: Ghost<Map<Seq<char>, BookRecord>>,
    covers_model: Ghost<Map<Seq<char>, Seq<char>>>,
    favorites_model: Ghost<Set<Seq<char>>>,
}

/// `b` as stored under a cover state: the flag follows the cover rows.
pub open spec fn stored_record(b: BookRecord, covered: bool) -> BookRecord {
    BookRecord { has_cover: covered, ..b }
}

/// The rules that tie the rows to the model: ids are unique, each row is
/// its id's entry, every entry has a row, covers and favourites belong to
/// stored books, and a book's cover flag tells whether it has a cover.
spec fn tables_ok(
    rows: Seq<BookRow>,
    covers: Seq<CoverRow>,
    b: Map<Seq<char>, BookRecord>,
    c: Map<Seq<char>, Seq<char>>,
    f: Set<Seq<char>>,
) -> bool {
    &&& forall|i: int, j: int|
        0 <= i < rows.len() && 0 <= j < rows.len() && i != j ==> rows[i].book.id@
            != rows[j].book.id@
    &&& forall|i: int|
        #![trigger rows[i]]
        0 <= i < rows.len() ==> b.contains_key(rows[i].book.id@) && b[rows[i].book.id@]
            == rows[i].book@ && f.contains(rows[i].book.id@) == rows[i].favorite
    &&& forall|k: Seq<char>|
        b.contains_key(k) ==> exists|i: int| 0 <= i < rows.len() && rows[i].book.id@ == k
    &&& forall|i: int, j: int|
        0 <= i < covers.len() && 0 <= j < covers.len() && i != j ==> covers[i].book_id@
            != covers[j].book_id@
    &&& forall|i: int|
        #![trigger covers[i]]
        0 <= i < covers.len() ==> c.contains_key(covers[i].book_id@) && c[covers[i].book_id@]
            == covers[i].mime_type@
    &&& forall|k: Seq<char>|
        c.contains_key(k) ==> exists|i: int| 0 <= i < covers.len() && covers[i].book_id@ == k
    &&& forall|k: Seq<char>| f.contains(k) ==> b.contains_key(k)
    &&& forall|k: Seq<char>| c.contains_key(k) ==> b.contains_key(k)
    &&& forall|k: Seq<char>|
        b.contains_key(k) ==> b[k].id == k && b[k].has_cover == c.contains_key(k)
}

/// Each rule of `tables_ok` on its own gives them all.
proof fn lemma_tables_ok(
    rows: Seq<BookRow>,
    covers: Seq<CoverRow>,
    b: Map<Seq<char>, BookRecord>,
    c: Map<Seq<char>, Seq<char>>,
    f: Set<Seq<char>>,
)
    requires
        forall|i: int, j: int|
            0 <= i < rows.len() && 0 <= j < rows.len() && i != j ==> rows[i].book.id@
                != rows[j].book.id@,
        forall|i: int|
            #![trigger rows[i]]
            0 <= i < rows.len() ==> b.contains_key(rows[i].book.id@) && b[rows[i].book.id@]
                == rows[i].book@ && f.contains(rows[i].book.id@) == rows[i].favorite,
        forall|k: Seq<char>|
            b.contains_key(k) ==> exists|i: int| 0 <= i < rows.len() && rows[i].book.id@ == k,
        forall|i: int, j: int|
            0 <= i < covers.len() && 0 <= j < covers.len() && i != j ==> covers[i].book_id@
                != covers[j].book_id@,
        forall|i: int|
            #![trigger covers[i]]
            0 <= i < covers.len() ==> c.contains_key(covers[i].book_id@) && c[covers[i].book_id@]
                == covers[i].mime_type@,
        forall|k: Seq<char>|
            c.contains_key(k) ==> exists|i: int| 0 <= i < covers.len() && covers[i].book_id@ == k,
        forall|k: Seq<char>| f.contains(k) ==> b.contains_key(k),
        forall|k: Seq<char>| c.contains_key(k) ==> b.contains_key(k),
        forall|k: Seq<char>|
            b.contains_key(k) ==> b[k].id == k && b[k].has_cover == c.contains_key(k),
    ensures
        tables_ok(rows, covers, b, c, f),
{
}

impl View for Database {
    type V = StoreView;

    closed spec fn view(&self) -> StoreView {
        StoreView {
            books: self.books_model@,
            covers: self.covers_model@,
            favorites: self.favorites_model@,
        }
    }
}

impl Database {
    /// The rows and the model agree, and the model keeps the store's rules.
    pub closed spec fn wf(&self) -> bool {
        tables_ok(
            self.rows@,
            self.covers@,
            self.books_model@,
            self.covers_model@,
            self.favorites_model@,
        )
    }

    /// An empty store.
    pub fn new() -> (r: Database)
        ensures
            r.wf(),
            r@.books.is_empty(),
            r@.covers.is_empty(),
            r@.favorites.is_empty(),
    {
        Database {
            rows: Vec::new(),
            covers: Vec::new(),
            books_model: Ghost(Map::empty()),
            covers_model: Ghost(Map::empty()),
            favorites_model: Ghost(Set::empty()),
        }
    }

    fn find_row(&self, id: &String) -> (r: Option<usize>)
        ensures
            match r {
                Some(i) => i < self.rows@.len() && self.rows@[i as int].book.id@ == id@,
                None => forall|i: int|
                    0 <= i < self.rows@.len() ==> self.rows@[i].book.id@ != id@,
            },
    {
        let mut i: usize = 0;
        while i < self.rows.len()
            invariant
                i <= self.rows@.len(),
                forall|j: int| 0 <= j < i ==> self.rows@[j].book.id@ != id@,
            decreases self.rows@.len() - i,
        {
            if self.rows[i].book.id == *id {
                return Some(i);
            }
            i = i + 1;
        }
        None
    }

    fn find_cover(&self, id: &String) -> (r: Option<usize>)
        ensures
            match r {
                Some(i) => i < self.covers@.len() && self.covers@[i as int].book_id@ == id@,
                None => forall|i: int|
                    0 <= i < self.covers@.len() ==> self.covers@[i].book_id@ != id@,
            },
    {
        let mut i: usize = 0;
        while i < self.covers.len()
            invariant
                i <= self.covers@.len(),
                forall|j: int| 0 <= j < i ==> self.covers@[j].book_id@ != id@,
            decreases self.covers@.len() - i,
        {
            if self.covers[i].book_id == *id {
                return Some(i);
            }
            i = i + 1;
        }
        None
    }

    /// The record stored under `book_id`, if any.
    pub fn get_book_by_id(&self, book_id: &str) -> (r: Option<Book>)
        requires
            self.wf(),
        ensures
            match r {
                Some(b) => self@.books.contains_key(book_id@) && b@ == self@.books[book_id@],
                None => !self@.books.contains_key(book_id@),
            },
    {
        let key = String::from_str(book_id);
        match self.find_row(&key) {
            Some(i) => Some(self.rows[i].book.duplicate()),
            None => None,
        }
    }

    /// Every stored record, once each, in storage order.
    pub fn get_books(&self) -> (r: Vec<Book>)
        requires
            self.wf(),
        ensures
            forall|i: int|
                0 <= i < r@.len() ==> self@.books.contains_key(#[trigger] r@[i].id@)
                    && self@.books[r@[i].id@] == r@[i]@,
            forall|i: int, j: int|
                0 <= i < r@.len() && 0 <= j < r@.len() && i != j ==> r@[i].id@ != r@[j].id@,
            forall|k: Seq<char>|
                self@.books.contains_key(k) ==> exists|i: int| 0 <= i < r@.len() && r@[i].id@ == k,
    {
        let mut r: Vec<Book> = Vec::new();
        let mut i: usize = 0;
        while i < self.rows.len()
            invariant
                i <= self.rows@.len(),
                r@.len() == i,
                forall|j: int| 0 <= j < i ==> r@[j]@ == self.rows@[j].book@,
            decreases self.rows@.len() - i,
        {
            r.push(self.rows[i].book.duplicate());
            i = i + 1;
        }
        assert forall|k: Seq<char>| self@.books.contains_key(k) implies exists|i: int|
            0 <= i < r@.len() && r@[i].id@ == k by {
            let j = choose|j: int| 0 <= j < self.rows@.len() && self.rows@[j].book.id@ == k;
            assert(r@[j]@ == self.rows@[j].book@);
        }
        assert forall|i: int|
            0 <= i < r@.len() implies self@.books.contains_key(#[trigger] r@[i].id@)
            && self@.books[r@[i].id@] == r@[i]@ by {
            assert(r@[i]@ == self.rows@[i].book@);
        }
        assert forall|i: int, j: int|
            0 <= i < r@.len() && 0 <= j < r@.len() && i != j implies r@[i].id@ != r@[j].id@ by {
            assert(r@[i]@ == self.rows@[i].book@);
            assert(r@[j]@ == self.rows@[j].book@);
        }
        r
    }

    /// The content type of the cover stored for `book_id`, if any.
    pub fn get_cover(&self, book_id: &str) -> (r: Option<String>)
        requires
            self.wf(),
        ensures
            match r {
                Some(m) => self@.covers.contains_key(book_id@) && m@ == self@.covers[book_id@],
                None => !self@.covers.contains_key(book_id@),
            },
    {
        let key = String::from_str(book_id);
        match self.find_cover(&key) {
            Some(i) => Some(self.covers[i].mime_type.clone()),
            None => None,
        }
    }

    /// Stores `book` under its id, replacing any earlier record with that id
    /// in every field and clearing its favourite mark. The cover flag that is
    /// stored is the one the cover rows give.
    pub fn save_book(&mut self, book: &Book)
        requires
            old(self).wf(),
        ensures
            final(self).wf(),
            final(self)@ == saved_book(old(self)@, book@),
    {
        let covered = self.find_cover(&book.id).is_some();
        let stored = book.with_cover_flag(covered);
        let ghost key = book.id@;
        let ghost rec = stored_record(book@, old(self)@.covers.contains_key(key));
        assert(covered == self.covers_model@.contains_key(key));
        let row = BookRow { book: stored, favorite: false };
        let pos: usize;
        match self.find_row(&book.id) {
            Some(i) => {
                self.rows[i] = row;
                pos = i;
            },
            None => {
                pos = self.rows.len();
                self.rows.push(row);
            },
        }
        self.books_model = Ghost(self.books_model@.insert(key, rec));
        self.favorites_model = Ghost(self.favorites_model@.remove(key));
        let ghost rows = self.rows@;
        let ghost orows = old(self).rows@;
        assert forall|k: Seq<char>| self.books_model@.contains_key(k) implies exists|i: int|
            0 <= i < rows.len() && rows[i].book.id@ == k by {
            if k != key {
                let j = choose|j: int| 0 <= j < orows.len() && orows[j].book.id@ == k;
                assert(rows[j] == orows[j]);
            } else {
                assert(rows[pos as int].book.id@ == key);
            }
        }
    }

    /// Records `cover_type` as the cover of the book `id`. An empty type
    /// changes nothing; a cover for a book that is not stored is refused.
    pub fn save_cover(&mut self, id: &str, cover_type: String) -> (r: Result<(), StoreError>)
        requires
            old(self).wf(),
        ensures
            final(self).wf(),
            final(self)@ == saved_cover(old(self)@, id@, cover_type@),
            r == (if cover_type@.len() > 0 && !old(self)@.books.contains_key(id@) {
                Err::<(), StoreError>(StoreError::MissingBook)
            } else {
                Ok(())
            }),
    {
        if cover_type.as_str().unicode_len() == 0 {
            return Ok(());
        }
        let key = String::from_str(id);
        let found = self.find_row(&key);
        let i = match found {
            Some(i) => i,
            None => {
                return Err(StoreError::MissingBook);
            },
        };
        let ghost orows = self.rows@;
        let ghost ocovers = self.covers@;
        let flagged = self.rows[i].book.with_cover_flag(true);
        self.rows[i].book = flagged;
        let ghost rec = stored_record(self.books_model@[id@], true);
        let pos: usize;
        match self.find_cover(&key) {
            Some(j) => {
                self.covers[j].mime_type = cover_type;
                pos = j;
            },
            None => {
                pos = self.covers.len();
                self.covers.push(CoverRow { book_id: key, mime_type: cover_type });
            },
        }
        self.books_model = Ghost(self.books_model@.insert(id@, rec));
        self.covers_model = Ghost(self.covers_model@.insert(id@, cover_type@));
        let ghost rows = self.rows@;
        let ghost covers = self.covers@;
        assert forall|k: Seq<char>| self.books_model@.contains_key(k) implies exists|n: int|
            0 <= n < rows.len() && rows[n].book.id@ == k by {
            let n = choose|n: int| 0 <= n < orows.len() && orows[n].book.id@ == k;
            assert(rows[n].book.id@ == orows[n].book.id@);
        }
        assert forall|k: Seq<char>| self.covers_model@.contains_key(k) implies exists|n: int|
            0 <= n < covers.len() && covers[n].book_id@ == k by {
            if k != id@ {
                let n = choose|n: int| 0 <= n < ocovers.len() && ocovers[n].book_id@ == k;
                assert(covers[n].book_id@ == ocovers[n].book_id@);
            } else {
                assert(covers[pos as int].book_id@ == id@);
            }
        }
        Ok(())
    }

    /// Removes the cover of `book_id` and clears the book's cover flag.
    /// Nothing happens where there is no such cover.
    #[verifier::rlimit(40)]
    pub fn delete_cover(&mut self, book_id: &str)
        requires
            old(self).wf(),
        ensures
            final(self).wf(),
            final(self)@ == deleted_cover(old(self)@, book_id@),
    {
        let key = String::from_str(book_id);
        let ghost orows = self.rows@;
        let ghost ocovers = self.covers@;
        match self.find_cover(&key) {
            Some(j) => {
                self.covers.remove(j);
                let ghost covers = self.covers@;
                assert forall|k: Seq<char>| #[trigger]
                    self.covers_model@.remove(book_id@).contains_key(k) implies exists|n: int|
                    0 <= n < covers.len() && covers[n].book_id@ == k by {
                    let n = choose|n: int| 0 <= n < ocovers.len() && ocovers[n].book_id@ == k;
                    if n < j {
                        assert(covers[n] == ocovers[n]);
                    } else {
                        assert(covers[n - 1] == ocovers[n]);
                    }
                }
                assert forall|n: int| 0 <= n < covers.len() implies covers[n].book_id@ != book_id@
                    && covers[n] == ocovers[if n < j {
                    n
                } else {
                    n + 1
                }] by {
                    if n < j {
                        assert(covers[n] == ocovers[n]);
                    } else {
                        assert(covers[n] == ocovers[n + 1]);
                    }
                }
                assert forall|n: int, m: int|
                    0 <= n < covers.len() && 0 <= m < covers.len() && n != m implies covers[n].book_id@
                    != covers[m].book_id@ by {
                    let n0 = if n < j {
                        n
                    } else {
                        n + 1
                    };
                    let m0 = if m < j {
                        m
                    } else {
                        m + 1
                    };
                    assert(covers[n] == ocovers[n0]);
                    assert(covers[m] == ocovers[m0]);
                }
            },
            None => {},
        }
        self.covers_model = Ghost(self.covers_model@.remove(book_id@));
        match self.find_row(&key) {
            Some(i) => {
                let cleared = self.rows[i].book.with_cover_flag(false);
                self.rows[i].book = cleared;
                let ghost rows = self.rows@;
                self.books_model = Ghost(
                    self.books_model@.insert(
                        book_id@,
                        stored_record(self.books_model@[book_id@], false),
                    ),
                );
                assert forall|k: Seq<char>| #[trigger]
                    self.books_model@.contains_key(k) implies exists|n: int|
                    0 <= n < rows.len() && rows[n].book.id@ == k by {
                    let n = choose|n: int| 0 <= n < orows.len() && orows[n].book.id@ == k;
                    assert(rows[n].book.id@ == orows[n].book.id@);
                }
            },
            None => {
                assert(!self.books_model@.contains_key(book_id@)) by {
                    if self.books_model@.contains_key(book_id@) {
                        let n = choose|n: int|
                            0 <= n < orows.len() && orows[n].book.id@ == book_id@;
                        assert(self.rows@[n].book.id@ != book_id@);
                    }
                }
            },
        }
        proof {
            lemma_tables_ok(
                self.rows@,
                self.covers@,
                self.books_model@,
                self.covers_model@,
                self.favorites_model@,
            );
        }
    }

    /// Removes the book `book_id` together with its cover and its favourite
    /// mark. Nothing happens where there is no such book.
    pub fn delete_book(&mut self, book_id: &str)
        requires
            old(self).wf(),
        ensures
            final(self).wf(),
            final(self)@ == deleted_book(old(self)@, book_id@),
    {
        self.delete_cover(book_id);
        let key = String::from_str(book_id);
        let ghost orows = self.rows@;
        match self.find_row(&key) {
            Some(i) => {
                self.rows.remove(i);
                let ghost rows = self.rows@;
                assert forall|k: Seq<char>| #[trigger]
                    self.books_model@.remove(book_id@).contains_key(k) implies exists|n: int|
                    0 <= n < rows.len() && rows[n].book.id@ == k by {
                    let n = choose|n: int| 0 <= n < orows.len() && orows[n].book.id@ == k;
                    if n < i {
                        assert(rows[n] == orows[n]);
                    } else {
                        assert(rows[n - 1] == orows[n]);
                    }
                }
                assert forall|n: int| 0 <= n < rows.len() implies rows[n].book.id@ != book_id@
                    && rows[n] == orows[if n < i {
                    n
                } else {
                    n + 1
                }] by {
                    if n < i {
                        assert(rows[n] == orows[n]);
                    } else {
                        assert(rows[n] == orows[n + 1]);
                    }
                }
                assert forall|n: int, m: int|
                    0 <= n < rows.len() && 0 <= m < rows.len() && n != m implies rows[n].book.id@
                    != rows[m].book.id@ by {
                    let n0 = if n < i {
                        n
                    } else {
                        n + 1
                    };
                    let m0 = if m < i {
                        m
                    } else {
                        m + 1
                    };
                    assert(rows[n] == orows[n0]);
                    assert(rows[m] == orows[m0]);
                }
            },
            None => {},
        }
        self.books_model = Ghost(self.books_model@.remove(book_id@));
        self.favorites_model = Ghost(self.favorites_model@.remove(book_id@));
        assert(self.books_model@ =~= old(self).books_model@.remove(book_id@));
        proof {
            lemma_tables_ok(
                self.rows@,
                self.covers@,
                self.books_model@,
                self.covers_model@,
                self.favorites_model@,
            );
        }
    }

    /// Marks the book `book_id` as a favourite, or clears the mark; a book
    /// that is not stored is refused.
    pub fn update_favbook(&mut self, book_id: &str, fav: bool) -> (r: Result<(), StoreError>)
        requires
            old(self).wf(),
        ensures
            final(self).wf(),
            final(self)@.books == old(self)@.books,
            final(self)@.covers == old(self)@.covers,
            old(self)@.books.contains_key(book_id@) ==> r == Ok::<(), StoreError>(())
                && final(self)@.favorites == (if fav {
                old(self)@.favorites.insert(book_id@)
            } else {
                old(self)@.favorites.remove(book_id@)
            }),
            !old(self)@.books.contains_key(book_id@) ==> r == Err::<(), StoreError>(
                StoreError::MissingBook,
            ) && final(self)@.favorites == old(self)@.favorites,
    {
        let key = String::from_str(book_id);
        match self.find_row(&key) {
            Some(i) => {
                let ghost orows = self.rows@;
                self.rows[i].favorite = fav;
                let ghost rows = self.rows@;
                if fav {
                    self.favorites_model = Ghost(self.favorites_model@.insert(book_id@));
                } else {
                    self.favorites_model = Ghost(self.favorites_model@.remove(book_id@));
                }
                assert forall|k: Seq<char>| #[trigger]
                    self.books_model@.contains_key(k) implies exists|n: int|
                    0 <= n < rows.len() && rows[n].book.id@ == k by {
                    let n = choose|n: int| 0 <= n < orows.len() && orows[n].book.id@ == k;
                    assert(rows[n].book.id@ == orows[n].book.id@);
                }
                Ok(())
            },
            None => Err(StoreError::MissingBook),
        }
    }

    /// Whether the book `book_id` is marked as a favourite.
    pub fn is_favorite(&self, book_id: &str) -> (r: bool)
        requires
            self.wf(),
        ensures
            r == self@.favorites.contains(book_id@),
    {
        let key = String::from_str(book_id);
        match self.find_row(&key) {
            Some(i) => self.rows[i].favorite,
            None => false,
        }
    }
}

/// In a well-formed store every book's cover flag tells whether a cover row
/// exists for it, and every cover and favourite mark belongs to a stored book.
pub proof fn lemma_cover_flag_agrees(db: &Database)
    requires
        db.wf(),
    ensures
        forall|k: Seq<char>|
            #[trigger] db@.books.contains_key(k) ==> db@.books[k].has_cover
                == db@.covers.contains_key(k) && db@.books[k].id == k,
        forall|k: Seq<char>| #[trigger] db@.covers.contains_key(k) ==> db@.books.contains_key(k),
        forall|k: Seq<char>| #[trigger] db@.favorites.contains(k) ==> db@.books.contains_key(k),
{
}

/// Reading a book back right after saving it gives the saved record, in every
/// field, where its cover flag agrees with the cover rows.
pub proof fn lemma_save_then_get(v: StoreView, b: BookRecord)
    requires
        b.has_cover == v.covers.contains_key(b.id),
    ensures
        saved_book(v, b).books.contains_key(b.id),
        saved_book(v, b).books[b.id] == b,
{
}

/// Saving the same record twice leaves the store as saving it once does.
pub proof fn lemma_save_book_idempotent(v: StoreView, b: BookRecord)
    ensures
        saved_book(saved_book(v, b), b) == saved_book(v, b),
{
    assert(saved_book(saved_book(v, b), b).books =~= saved_book(v, b).books);
    assert(saved_book(saved_book(v, b), b).favorites =~= saved_book(v, b).favorites);
}

/// After a cover is deleted there is no cover for that book, and the book, if
/// stored, no longer claims one.
pub proof fn lemma_delete_cover_clears(v: StoreView, id: Seq<char>)
    ensures
        !deleted_cover(v, id).covers.contains_key(id),
        deleted_cover(v, id).books.contains_key(id) ==> !deleted_cover(v, id).books[id].has_cover,
{
}

/// Saving an empty cover type changes nothing: no cover row appears and no
/// cover flag moves.
pub proof fn lemma_empty_cover_is_no_op(v: StoreView, id: Seq<char>)
    ensures
        saved_cover(v, id, Seq::empty()) == v,
{
}

/// After a book is deleted neither the book nor its cover can be found.
pub proof fn lemma_delete_book_removes(v: StoreView, id: Seq<char>)
    ensures
        !deleted_book(v, id).books.contains_key(id),
        !deleted_book(v, id).covers.contains_key(id),
{
}

} // verus!
