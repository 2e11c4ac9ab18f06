use vstd::prelude::*;

verus! {

/// What a book record holds, as plain values.
pub struct BookRecord {
    pub id: Seq<char>,
    pub name: Seq<char>,
    pub size: u64,
    pub file_type: Seq<char>,
    pub last_modified: u64,
    pub file_path: Seq<char>,
    pub has_cover: bool,
}

/// One stored e-book file and its metadata.
#[derive(Debug, Clone)]
pub struct Book {
    pub id: String,
    pub name: String,
    pub size: u64,
    pub file_type: String,
    pub last_modified: u64,
    pub file_path: String,
    pub has_cover: bool,
}

impl View for Book {
    type V = BookRecord;

    open spec fn view(&self) -> BookRecord {
        BookRecord {
            id: self.id@,
            name: self.name@,
            size: self.size,
            file_type: self.file_type@,
            last_modified: self.last_modified,
            file_path: self.file_path@,
            has_cover: self.has_cover,
        }
    }
}

impl Book {
    /// A field-by-field copy of this record.
    pub fn duplicate(&self) -> (r: Book)
        ensures
            r@ == self@,
    {
        Book {
            id: self.id.clone(),
            name: self.name.clone(),
            size: self.size,
            file_type: self.file_type.clone(),
            last_modified: self.last_modified,
            file_path: self.file_path.clone(),
            has_cover: self.has_cover,
        }
    }

    /// The same record with its cover flag set to `flag`.
    pub fn with_cover_flag(&self, flag: bool) -> (r: Book)
        ensures
            r@ == (BookRecord { has_cover: flag, ..self@ }),
    {
        let mut r = self.duplicate();
        r.has_cover = flag;
        r
    }
}

impl PartialEq for Book {
    fn eq(&self, o: &Book) -> (r: bool) {
        self.id == o.id && self.name == o.name && self.size == o.size && self.file_type
            == o.file_type && self.last_modified == o.last_modified && self.file_path
            == o.file_path && self.has_cover == o.has_cover
    }
}

impl vstd::std_specs::cmp::PartialEqSpecImpl for Book {
    open spec fn obeys_eq_spec() -> bool {
        true
    }

    open spec fn eq_spec(&self, o: &Book) -> bool {
        self@ == o@
    }
}

} // verus!
