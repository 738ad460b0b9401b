use dropzone::upload::process_upload;
use dropzone::upload::handle_upload;
use dropzone::upload::UploadPart;
use dropzone::Status;

fn part(name: &str, data: &[u8]) -> UploadPart {
    UploadPart { file_name: Some(name.to_string()), data: Some(data.to_vec()) }
}

fn tokens(ts: &[&str]) -> Vec<String> {
    ts.iter().map(|t| t.to_string()).collect()
}

#[test]
fn three_parts_three_files() {
    let parts = vec![
        part("a.txt", b"alpha"),
        part("b.bin", b"\x00\x01\x02"),
        part("c", b"gamma"),
    ];
    let toks = tokens(&["11111111", "22222222", "33333333"]);
    let out = process_upload(&parts, &toks, &vec![true, true, true]);
    assert_eq!(out.status, Status::Success);
    assert_eq!(out.files.len(), 3);
    assert_eq!(out.files[0].name, "a-11111111.txt");
    assert_eq!(out.files[0].content, b"alpha");
    assert_eq!(out.files[1].name, "b-22222222.bin");
    assert_eq!(out.files[1].content, b"\x00\x01\x02");
    assert_eq!(out.files[2].name, "c-33333333");
    assert_eq!(out.files[2].content, b"gamma");
}

#[test]
fn upload_photo_jpg() {
    let parts = vec![part("photo.jpg", b"raster bytes")];
    let toks = tokens(&["0a1b2c3d"]);
    let out = process_upload(&parts, &toks, &vec![true]);
    assert_eq!(out.status, Status::Success);
    assert_eq!(out.files.len(), 1);
    assert_eq!(out.files[0].name, "photo-0a1b2c3d.jpg");
    assert_eq!(out.files[0].content, b"raster bytes");
}

#[test]
fn duplicate_names_get_distinct_files() {
    let parts = vec![part("dup.txt", b"first"), part("dup.txt", b"second")];
    let toks = tokens(&["aaaaaaaa", "bbbbbbbb"]);
    let out = process_upload(&parts, &toks, &vec![true, true]);
    assert_eq!(out.status, Status::Success);
    assert_eq!(out.files.len(), 2);
    assert_ne!(out.files[0].name, out.files[1].name);
    assert_eq!(out.files[0].name, "dup-aaaaaaaa.txt");
    assert_eq!(out.files[1].name, "dup-bbbbbbbb.txt");
    assert_eq!(out.files[0].content, b"first");
    assert_eq!(out.files[1].content, b"second");
}

#[test]
fn nameless_part_is_skipped() {
    let parts = vec![
        part("a.txt", b"alpha"),
        UploadPart { file_name: None, data: Some(b"ignored".to_vec()) },
        UploadPart { file_name: Some(String::new()), data: Some(b"ignored".to_vec()) },
        part("b.txt", b"beta"),
    ];
    let toks = tokens(&["11111111", "22222222"]);
    let out = process_upload(&parts, &toks, &vec![true, true]);
    assert_eq!(out.status, Status::Success);
    assert_eq!(out.files.len(), 2);
    assert_eq!(out.files[0].name, "a-11111111.txt");
    assert_eq!(out.files[1].name, "b-22222222.txt");
    assert_eq!(out.files[1].content, b"beta");
}

#[test]
fn path_name_uses_last_component() {
    let parts = vec![part("sub/dir/photo.jpg", b"raster bytes")];
    let toks = tokens(&["0a1b2c3d"]);
    let out = process_upload(&parts, &toks, &vec![true]);
    assert_eq!(out.status, Status::Success);
    assert_eq!(out.files.len(), 1);
    assert_eq!(out.files[0].name, "photo-0a1b2c3d.jpg");
    assert!(!out.files[0].name.contains('/'));
}

#[test]
fn trailing_slash_part_skipped() {
    let parts = vec![
        part("dir/", b"ignored"),
        part("a.txt", b"alpha"),
    ];
    let toks = tokens(&["11111111"]);
    let out = process_upload(&parts, &toks, &vec![true]);
    assert_eq!(out.status, Status::Success);
    assert_eq!(out.files.len(), 1);
    assert_eq!(out.files[0].name, "a-11111111.txt");
}

#[test]
fn read_failure_aborts_request() {
    let parts = vec![
        part("a.txt", b"alpha"),
        UploadPart { file_name: Some("b.txt".to_string()), data: None },
        part("c.txt", b"gamma"),
    ];
    let toks = tokens(&["11111111", "22222222", "33333333"]);
    let out = process_upload(&parts, &toks, &vec![true, true, true]);
    assert_eq!(out.status, Status::ServerError);
    assert_eq!(out.files.len(), 1);
    assert_eq!(out.files[0].name, "a-11111111.txt");
}

#[test]
fn write_failure_on_second_of_three() {
    let parts = vec![
        part("a.txt", b"alpha"),
        part("b.txt", b"beta"),
        part("c.txt", b"gamma"),
    ];
    let toks = tokens(&["11111111", "22222222", "33333333"]);
    let out = process_upload(&parts, &toks, &vec![true, false, true]);
    assert_eq!(out.status, Status::ServerError);
    assert_eq!(out.files.len(), 1);
    assert_eq!(out.files[0].name, "a-11111111.txt");
    assert_eq!(out.files[0].content, b"alpha");
}

#[test]
fn empty_request_succeeds() {
    let out = process_upload(&Vec::new(), &Vec::new(), &Vec::new());
    assert_eq!(out.status, Status::Success);
    assert!(out.files.is_empty());
}

#[test]
fn oversized_body_rejected_before_any_write() {
    let parts = vec![part("a.txt", b"alpha")];
    let toks = tokens(&["11111111"]);
    let out = handle_upload(Some(10), 11, &parts, &toks, &vec![true]);
    assert_eq!(out.status, Status::PayloadTooLarge);
    assert!(out.files.is_empty());
}

#[test]
fn body_at_limit_admitted() {
    let parts = vec![part("a.txt", b"alpha")];
    let toks = tokens(&["11111111"]);
    let out = handle_upload(Some(10), 10, &parts, &toks, &vec![true]);
    assert_eq!(out.status, Status::Success);
    assert_eq!(out.files.len(), 1);
}

#[test]
fn no_limit_admits_any_body() {
    let parts = vec![part("a.txt", b"alpha")];
    let toks = tokens(&["11111111"]);
    let out = handle_upload(None, u64::MAX, &parts, &toks, &vec![true]);
    assert_eq!(out.status, Status::Success);
    assert_eq!(out.files.len(), 1);
}
