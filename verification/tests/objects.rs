use gitapi::{extension_of, finish_tool_output, get_filename_from_hash, GitApiError, Object};

#[test]
fn text_output_is_decoded() {
    assert_eq!(
        finish_tool_output(b"hello world".to_vec(), false).unwrap(),
        "hello world"
    );
}

#[test]
fn invalid_utf8_text_output_is_an_error() {
    // If the decoding wrapper handed its input through unchecked, this
    // would not fail.
    assert!(matches!(
        finish_tool_output(vec![0x68, 0x69, 0xff], false),
        Err(GitApiError::InvalidEncoding)
    ));
}

#[test]
fn binary_output_is_base64_encoded() {
    // The first four bytes of a PNG file, standard alphabet, no
    // padding.  An unchanged pass-through would not even be ASCII.
    let encoded = finish_tool_output(vec![0x89, 0x50, 0x4e, 0x47], true).unwrap();
    assert_eq!(encoded, "iVBORw");
    assert_eq!(finish_tool_output(Vec::new(), true).unwrap(), "");
}

#[test]
fn extension_rules() {
    assert_eq!(extension_of("logo.png"), "png");
    assert_eq!(extension_of("archive.tar.gz"), "gz");
    assert_eq!(extension_of("README"), "diff");
}

#[test]
fn object_from_parts_text() {
    let o = Object::from_parts(
        String::from("notes.txt"),
        b"some notes".to_vec(),
        String::from("10\n"),
    )
    .unwrap();
    assert_eq!(o.name, "notes.txt");
    assert_eq!(o.content, "some notes");
    assert_eq!(o.size, "10\n");
    assert_eq!(o.ext, "txt");
}

#[test]
fn object_from_parts_image_is_encoded() {
    let o = Object::from_parts(
        String::from("logo.png"),
        vec![0x89, 0x50, 0x4e, 0x47],
        String::from("4\n"),
    )
    .unwrap();
    assert_eq!(o.content, "iVBORw");
    assert_eq!(o.ext, "png");
}

#[test]
fn object_from_parts_invalid_text_fails() {
    assert!(matches!(
        Object::from_parts(String::from("data.txt"), vec![0xc0, 0x00], String::from("2\n")),
        Err(GitApiError::InvalidEncoding)
    ));
}

#[test]
fn object_path_resolved_from_first_matching_line() {
    let listing = "aaa111bbb222ccc333\nddd444eee555fff666 src/main.rs\nddd444eee555fff666 copy/main.rs\n";
    assert_eq!(
        get_filename_from_hash(listing, "ddd444").unwrap(),
        "src/main.rs"
    );
}

#[test]
fn object_path_takes_last_token_of_the_line() {
    let listing = "abc123def456 my file.txt\n";
    assert_eq!(get_filename_from_hash(listing, "abc123").unwrap(), "file.txt");
}

#[test]
fn object_path_missing_hash_is_no_last_element() {
    let listing = "aaa111bbb222 one.txt\n";
    assert!(matches!(
        get_filename_from_hash(listing, "zzz999"),
        Err(GitApiError::NoLastElement)
    ));
}
