use raw_compressor::digits::decimal_string;
use raw_compressor::name::{archive_name_of, sibling_name, split_name};

#[test]
fn decimal_of_small_and_large_numbers() {
    assert_eq!(decimal_string(0), "0");
    assert_eq!(decimal_string(7), "7");
    assert_eq!(decimal_string(10), "10");
    assert_eq!(decimal_string(1234567890), "1234567890");
    assert_eq!(decimal_string(u64::MAX), "18446744073709551615");
}

#[test]
fn split_at_the_last_dot() {
    assert_eq!(split_name("img1.CR3"), ("img1".to_string(), Some("CR3".to_string())));
    assert_eq!(split_name("photo.raw.xz"), ("photo.raw".to_string(), Some("xz".to_string())));
    assert_eq!(split_name("notes"), ("notes".to_string(), None));
    assert_eq!(split_name(".hidden"), (".hidden".to_string(), None));
    assert_eq!(split_name(".."), ("..".to_string(), None));
    assert_eq!(split_name("trailing."), ("trailing".to_string(), Some(String::new())));
    assert_eq!(split_name(""), (String::new(), None));
}

#[test]
fn siblings_carry_the_number_before_the_extension() {
    assert_eq!(sibling_name("photo.raw.xz", 0), "photo.raw.xz");
    assert_eq!(sibling_name("photo.raw.xz", 1), "photo.raw-1.xz");
    assert_eq!(sibling_name("photo.raw.xz", 12), "photo.raw-12.xz");
    assert_eq!(sibling_name("notes", 3), "notes-3");
    assert_eq!(sibling_name(".hidden", 2), ".hidden-2");
}

#[test]
fn archive_name_appends_to_the_extension() {
    assert_eq!(archive_name_of("img1.CR3"), "img1.CR3.xz");
    assert_eq!(archive_name_of("a.b.nef"), "a.b.nef.xz");
}
