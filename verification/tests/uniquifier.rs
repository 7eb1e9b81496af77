use raw_compressor::path::FilePath;
use raw_compressor::unique::{is_taken, unique_name, unique_path};

fn taken(names: &[&str]) -> Vec<String> {
    names.iter().map(|n| n.to_string()).collect()
}

#[test]
fn free_name_is_kept() {
    assert_eq!(unique_name("photo.raw.xz", &taken(&[])), "photo.raw.xz");
    assert_eq!(unique_name("photo.raw.xz", &taken(&["other.xz", "photo.raw-1.xz"])), "photo.raw.xz");
}

#[test]
fn taken_name_gets_the_first_free_number() {
    assert_eq!(unique_name("photo.raw.xz", &taken(&["photo.raw.xz"])), "photo.raw-1.xz");
    assert_eq!(
        unique_name("photo.raw.xz", &taken(&["photo.raw-1.xz", "photo.raw.xz"])),
        "photo.raw-2.xz"
    );
    assert_eq!(
        unique_name("photo.raw.xz", &taken(&["photo.raw.xz", "photo.raw-2.xz"])),
        "photo.raw-1.xz"
    );
    assert_eq!(unique_name("img", &taken(&["img", "img-1", "img-2"])), "img-3");
    assert_eq!(unique_name(".profile", &taken(&[".profile"])), ".profile-1");
}

#[test]
fn numbers_run_past_nine() {
    let mut names = vec!["a.cr3".to_string()];
    for n in 1..=11 {
        names.push(format!("a-{}.cr3", n));
    }
    assert_eq!(unique_name("a.cr3", &names), "a-12.cr3");
}

#[test]
fn chosen_name_is_never_taken() {
    let names = taken(&["x.nef", "x-1.nef", "x-3.nef", "x.nef"]);
    let chosen = unique_name("x.nef", &names);
    assert_eq!(chosen, "x-2.nef");
    assert!(!is_taken(&names, &chosen));
    assert!(is_taken(&names, &"x-3.nef".to_string()));
}

#[test]
fn claiming_a_name_makes_the_next_choice_differ() {
    let mut names = taken(&["img1.CR3"]);
    let first = unique_name("img1.CR3", &names);
    names.push(first.clone());
    let second = unique_name("img1.CR3", &names);
    assert_eq!(first, "img1-1.CR3");
    assert_eq!(second, "img1-2.CR3");
    assert_ne!(first, second);
}

#[test]
fn unique_path_stays_in_its_directory() {
    let path = FilePath::new("/holding", "img1.CR3");
    assert_eq!(unique_path(&path, &taken(&[])), path);
    assert_eq!(
        unique_path(&path, &taken(&["img1.CR3"])),
        FilePath::new("/holding", "img1-1.CR3")
    );
}
