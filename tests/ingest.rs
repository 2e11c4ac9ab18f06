use bookcase::ingest::{clean_file_name, multipart_boundary, route, Route};

#[test]
fn routes_by_method_and_url() {
    assert_eq!(route("GET", "/upload.html"), Route::UploadPage);
    assert_eq!(route("POST", "/upload"), Route::Upload);
    assert_eq!(route("GET", "/upload"), Route::NotFound);
    assert_eq!(route("POST", "/upload.html"), Route::NotFound);
    assert_eq!(route("PUT", "/upload"), Route::NotFound);
    assert_eq!(route("GET", "/"), Route::NotFound);
}

#[test]
fn boundary_follows_marker() {
    assert_eq!(
        multipart_boundary("multipart/form-data; boundary=----abc123"),
        Some("----abc123".to_string())
    );
    assert_eq!(multipart_boundary("boundary="), Some(String::new()));
    assert_eq!(
        multipart_boundary("x; boundary=a; boundary=b"),
        Some("a; boundary=b".to_string())
    );
}

#[test]
fn boundary_missing() {
    assert_eq!(multipart_boundary("multipart/form-data"), None);
    assert_eq!(multipart_boundary(""), None);
    assert_eq!(multipart_boundary("boundary"), None);
}

#[test]
fn clean_name_drops_dotdot_and_separators() {
    assert_eq!(clean_file_name("book.epub"), "book.epub");
    assert_eq!(clean_file_name("../../etc/passwd"), "__etc_passwd");
    assert_eq!(clean_file_name("a\\b/c"), "a_b_c");
    assert_eq!(clean_file_name("..."), ".");
    assert_eq!(clean_file_name("...."), "");
    assert_eq!(clean_file_name(""), "");
    assert_eq!(clean_file_name("書.epub"), "書.epub");
}
