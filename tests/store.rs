use bookcase::book::Book;
use bookcase::store::{Database, StoreError};

fn book(id: &str, has_cover: bool) -> Book {
    Book {
        id: id.to_string(),
        name: "Test".to_string(),
        size: 1024,
        file_type: "epub".to_string(),
        last_modified: 1700000000,
        file_path: format!("/tmp/{}.epub", id),
        has_cover,
    }
}

#[test]
fn save_then_get_returns_same_record() {
    let mut db = Database::new();
    let b = book("b1", false);
    db.save_book(&b);
    assert_eq!(db.get_book_by_id("b1"), Some(b));
}

#[test]
fn get_missing_book_is_none() {
    let db = Database::new();
    assert_eq!(db.get_book_by_id("nope"), None);
    assert!(db.get_books().is_empty());
}

#[test]
fn save_book_twice_equals_once() {
    let mut once = Database::new();
    let mut twice = Database::new();
    let b = book("b1", false);
    once.save_book(&b);
    twice.save_book(&b);
    twice.save_book(&b);
    assert_eq!(once.get_books(), twice.get_books());
    assert_eq!(twice.get_books().len(), 1);
}

#[test]
fn save_book_replaces_every_field() {
    let mut db = Database::new();
    db.save_book(&book("b1", false));
    let mut other = book("b1", false);
    other.name = "Other".to_string();
    other.size = 7;
    other.file_type = "pdf".to_string();
    other.last_modified = 5;
    other.file_path = "/x/y.pdf".to_string();
    db.save_book(&other);
    assert_eq!(db.get_book_by_id("b1"), Some(other));
    assert_eq!(db.get_books().len(), 1);
}

#[test]
fn save_book_flag_follows_cover_rows() {
    let mut db = Database::new();
    db.save_book(&book("b1", true));
    assert_eq!(db.get_book_by_id("b1").unwrap().has_cover, false);
    assert_eq!(db.save_cover("b1", "image/png".to_string()), Ok(()));
    db.save_book(&book("b1", false));
    assert_eq!(db.get_book_by_id("b1").unwrap().has_cover, true);
}

#[test]
fn delete_cover_then_get_cover_is_none() {
    let mut db = Database::new();
    db.save_book(&book("b1", false));
    db.save_cover("b1", "image/jpeg".to_string()).unwrap();
    assert_eq!(db.get_cover("b1"), Some("image/jpeg".to_string()));
    db.delete_cover("b1");
    assert_eq!(db.get_cover("b1"), None);
    assert_eq!(db.get_book_by_id("b1").unwrap().has_cover, false);
    db.delete_cover("b1");
    assert_eq!(db.get_cover("b1"), None);
}

#[test]
fn empty_cover_type_changes_nothing() {
    let mut db = Database::new();
    db.save_book(&book("b1", false));
    assert_eq!(db.save_cover("b1", String::new()), Ok(()));
    assert_eq!(db.get_cover("b1"), None);
    assert_eq!(db.get_book_by_id("b1").unwrap().has_cover, false);
    db.save_cover("b1", "image/png".to_string()).unwrap();
    assert_eq!(db.save_cover("b1", String::new()), Ok(()));
    assert_eq!(db.get_cover("b1"), Some("image/png".to_string()));
    assert_eq!(db.get_book_by_id("b1").unwrap().has_cover, true);
}

#[test]
fn cover_for_missing_book_is_refused() {
    let mut db = Database::new();
    assert_eq!(db.save_cover("ghost", "image/png".to_string()), Err(StoreError::MissingBook));
    assert_eq!(db.get_cover("ghost"), None);
}

#[test]
fn save_cover_replaces_type() {
    let mut db = Database::new();
    db.save_book(&book("b1", false));
    db.save_cover("b1", "image/png".to_string()).unwrap();
    db.save_cover("b1", "image/jpeg".to_string()).unwrap();
    assert_eq!(db.get_cover("b1"), Some("image/jpeg".to_string()));
}

#[test]
fn delete_book_removes_book_and_cover() {
    let mut db = Database::new();
    db.save_book(&book("b1", false));
    db.save_book(&book("b2", false));
    db.save_cover("b1", "image/jpeg".to_string()).unwrap();
    db.delete_book("b1");
    assert_eq!(db.get_book_by_id("b1"), None);
    assert_eq!(db.get_cover("b1"), None);
    assert_eq!(db.get_books(), vec![book("b2", false)]);
    db.delete_book("b1");
    assert_eq!(db.get_books().len(), 1);
}

#[test]
fn end_to_end_book_and_cover() {
    let mut db = Database::new();
    let b = Book {
        id: "b1".to_string(),
        name: "Test".to_string(),
        size: 1024,
        file_type: "epub".to_string(),
        last_modified: 1700000000,
        file_path: "/tmp/b1.epub".to_string(),
        has_cover: false,
    };
    db.save_book(&b);
    assert_eq!(db.get_books(), vec![b.clone()]);
    db.save_cover("b1", "image/jpeg".to_string()).unwrap();
    assert_eq!(db.get_book_by_id("b1").unwrap().has_cover, true);
}

#[test]
fn favourites_are_marked_and_cleared() {
    let mut db = Database::new();
    db.save_book(&book("b1", false));
    assert!(!db.is_favorite("b1"));
    assert_eq!(db.update_favbook("b1", true), Ok(()));
    assert!(db.is_favorite("b1"));
    assert_eq!(db.update_favbook("b1", false), Ok(()));
    assert!(!db.is_favorite("b1"));
    assert_eq!(db.update_favbook("zz", true), Err(StoreError::MissingBook));
    db.update_favbook("b1", true).unwrap();
    db.save_book(&book("b1", false));
    assert!(!db.is_favorite("b1"));
}

#[test]
fn books_listed_once_each() {
    let mut db = Database::new();
    db.save_book(&book("a", false));
    db.save_book(&book("b", false));
    db.save_book(&book("c", false));
    db.save_book(&book("b", false));
    let mut ids: Vec<String> = db.get_books().into_iter().map(|b| b.id).collect();
    ids.sort();
    assert_eq!(ids, vec!["a".to_string(), "b".to_string(), "c".to_string()]);
}

#[test]
fn duplicate_copies_fields() {
    let b = book("b9", true);
    assert_eq!(b.duplicate(), b);
    let c = b.with_cover_flag(false);
    assert_eq!(c.has_cover, false);
    assert_eq!(c.id, "b9");
}
