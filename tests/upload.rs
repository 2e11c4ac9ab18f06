use bookcase::upload::{
    background_image_path, book_dir, is_safe_segment, plan_chunk, ChunkPlan, UploadError,
};
use std::collections::HashMap;

fn apply(files: &mut HashMap<Vec<String>, Vec<u8>>, plan: &ChunkPlan, chunk: &[u8]) {
    let entry = files.entry(plan.staging_file.clone()).or_default();
    entry.extend_from_slice(chunk);
    if let Some(r) = &plan.relocation {
        let content = files.remove(&plan.staging_file).unwrap();
        files.insert(r.dest_file.clone(), content);
    }
}

fn strings(v: &[&str]) -> Vec<String> {
    v.iter().map(|s| s.to_string()).collect()
}

#[test]
fn chunks_reassemble_in_order() {
    let chunks: Vec<Vec<u8>> = vec![vec![1, 2, 3], vec![], vec![4], vec![5, 6]];
    let n = chunks.len();
    let mut files = HashMap::new();
    for (i, c) in chunks.iter().enumerate() {
        let plan = plan_chunk("up1", "book.epub", i, n).unwrap();
        assert_eq!(plan.reply.is_empty(), i != n - 1);
        apply(&mut files, &plan, c);
    }
    assert_eq!(files.len(), 1);
    assert_eq!(files[&strings(&["up1", "book.epub"])], vec![1, 2, 3, 4, 5, 6]);
}

#[test]
fn single_chunk_upload_completes_at_once() {
    let plan = plan_chunk("u", "a.pdf", 0, 1).unwrap();
    assert_eq!(plan.reply, "a.pdf");
    assert_eq!(plan.staging_dir, strings(&["tmp", "u"]));
    assert_eq!(plan.staging_file, strings(&["tmp", "u", "a.pdf"]));
    let r = plan.relocation.unwrap();
    assert_eq!(r.dest_dir, strings(&["u"]));
    assert_eq!(r.dest_file, strings(&["u", "a.pdf"]));
}

#[test]
fn middle_chunk_has_no_relocation() {
    let plan = plan_chunk("u", "a.pdf", 1, 3).unwrap();
    assert_eq!(plan.reply, "");
    assert!(plan.relocation.is_none());
}

#[test]
fn zero_total_chunks_is_refused() {
    assert_eq!(plan_chunk("u", "a.pdf", 0, 0).err(), Some(UploadError::NoChunks));
}

#[test]
fn index_past_total_is_refused() {
    assert_eq!(plan_chunk("u", "a.pdf", 3, 3).err(), Some(UploadError::IndexOutOfRange));
}

#[test]
fn empty_names_are_refused() {
    assert_eq!(plan_chunk("", "a.pdf", 0, 1).err(), Some(UploadError::EmptyIdentifier));
    assert_eq!(plan_chunk("u", "", 0, 1).err(), Some(UploadError::EmptyFileName));
}

#[test]
fn unsafe_names_are_refused() {
    assert_eq!(plan_chunk("..", "a.pdf", 0, 1).err(), Some(UploadError::UnsafeName));
    assert_eq!(plan_chunk("u", "x/a.pdf", 0, 1).err(), Some(UploadError::UnsafeName));
    assert_eq!(plan_chunk("u", "x\\a.pdf", 0, 1).err(), Some(UploadError::UnsafeName));
}

#[test]
fn segment_safety() {
    assert!(is_safe_segment("book.epub"));
    assert!(is_safe_segment("..."));
    assert!(is_safe_segment(".hidden"));
    assert!(!is_safe_segment(""));
    assert!(!is_safe_segment("."));
    assert!(!is_safe_segment(".."));
    assert!(!is_safe_segment("a/b"));
    assert!(!is_safe_segment("a\\b"));
}

#[test]
fn book_dir_is_one_level() {
    assert_eq!(book_dir("b1"), Ok(strings(&["b1"])));
    assert_eq!(book_dir(".."), Err(UploadError::UnsafeName));
    assert_eq!(book_dir(""), Err(UploadError::UnsafeName));
}

#[test]
fn background_path_is_under_app_dir() {
    assert_eq!(
        background_image_path("bg.png"),
        Ok(strings(&["Bookcase", "background", "bg.png"]))
    );
    assert_eq!(background_image_path(""), Err(UploadError::EmptyFileName));
    assert_eq!(background_image_path("../x"), Err(UploadError::UnsafeName));
}
