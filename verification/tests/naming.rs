use dropzone::naming::base_name;
use dropzone::naming::compose;
use dropzone::naming::resolve;
use dropzone::naming::resolve_name;
use dropzone::naming::split_name;

#[test]
fn split_simple() {
    let (stem, ext) = split_name("photo.jpg");
    assert_eq!(stem, "photo");
    assert_eq!(ext, ".jpg");
}

#[test]
fn split_without_extension() {
    let (stem, ext) = split_name("notes");
    assert_eq!(stem, "notes");
    assert_eq!(ext, "");
}

#[test]
fn split_hidden_file() {
    let (stem, ext) = split_name(".gitignore");
    assert_eq!(stem, ".gitignore");
    assert_eq!(ext, "");
}

#[test]
fn split_double_extension() {
    let (stem, ext) = split_name("archive.tar.gz");
    assert_eq!(stem, "archive.tar");
    assert_eq!(ext, ".gz");
}

#[test]
fn split_trailing_dot() {
    let (stem, ext) = split_name("photo.");
    assert_eq!(stem, "photo");
    assert_eq!(ext, ".");
}

#[test]
fn split_lone_dot() {
    let (stem, ext) = split_name(".");
    assert_eq!(stem, ".");
    assert_eq!(ext, "");
}

#[test]
fn split_empty() {
    let (stem, ext) = split_name("");
    assert_eq!(stem, "");
    assert_eq!(ext, "");
}

#[test]
fn split_strips_directories() {
    let (stem, ext) = split_name("../evil.txt");
    assert_eq!(stem, "evil");
    assert_eq!(ext, ".txt");
    let (stem, ext) = split_name("/etc/x.sh");
    assert_eq!(stem, "x");
    assert_eq!(ext, ".sh");
    let (stem, ext) = split_name("a/b/c.d.e");
    assert_eq!(stem, "c.d");
    assert_eq!(ext, ".e");
}

#[test]
fn split_trailing_slash() {
    let (stem, ext) = split_name("dir/");
    assert_eq!(stem, "");
    assert_eq!(ext, "");
}

#[test]
fn base_name_components() {
    assert_eq!(base_name("a/b.txt"), "b.txt");
    assert_eq!(base_name("plain"), "plain");
    assert_eq!(base_name("dir/"), "");
    assert_eq!(base_name("/abs"), "abs");
    assert_eq!(base_name(""), "");
}

#[test]
fn resolved_name_stays_local() {
    let name = resolve_name("../evil.txt");
    assert!(!name.contains('/'));
    assert!(name.starts_with("evil-"));
    assert!(name.ends_with(".txt"));
    let name = resolve_name("/etc/x.sh");
    assert!(!name.contains('/'));
    assert!(name.starts_with("x-"));
    assert!(name.ends_with(".sh"));
}

#[test]
fn compose_parts() {
    assert_eq!(compose("photo", "0a1b2c3d", ".jpg"), "photo-0a1b2c3d.jpg");
    assert_eq!(compose("notes", "deadbeef", ""), "notes-deadbeef");
}

#[test]
fn resolve_token_shape() {
    let name = resolve("photo", ".jpg");
    assert_eq!(name.len(), "photo-".len() + 8 + ".jpg".len());
    assert!(name.starts_with("photo-"));
    assert!(name.ends_with(".jpg"));
    let token = &name["photo-".len().."photo-".len() + 8];
    assert!(token
        .chars()
        .all(|c| c.is_ascii_digit() || ('a'..='f').contains(&c)));
    assert_eq!(name.matches('-').count(), 1);
}

#[test]
fn resolve_whole_name() {
    let name = resolve_name("photo.jpg");
    assert!(name.starts_with("photo-"));
    assert!(name.ends_with(".jpg"));
    assert_eq!(name.len(), 18);
}

#[test]
fn resolve_twice_differs() {
    let a = resolve("dup", ".txt");
    let b = resolve("dup", ".txt");
    assert_ne!(a, b);
}
