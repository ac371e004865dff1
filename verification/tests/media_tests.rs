use pengler::media::{is_media_file, extension_str, media_type_str, media_type_from_str, MediaType};
use pengler::hashing::{generate_folder_hash, hash_bytes, short_hash};

#[test]
fn classifies_by_extension_case_insensitively() {
    assert_eq!(is_media_file("photo.jpg"), Some(MediaType::Image));
    assert_eq!(is_media_file("photo.JPG"), Some(MediaType::Image));
    assert_eq!(is_media_file("pic.JpEg"), Some(MediaType::Image));
    assert_eq!(is_media_file("a/b/pic.png"), Some(MediaType::Image));
    assert_eq!(is_media_file("shot.heic"), Some(MediaType::Image));
    assert_eq!(is_media_file("clip.mp4"), Some(MediaType::Video));
    assert_eq!(is_media_file("clip.MOV"), Some(MediaType::Video));
    assert_eq!(is_media_file("clip.webm"), Some(MediaType::Video));
    assert_eq!(is_media_file("doc.txt"), None);
    assert_eq!(is_media_file("noext"), None);
}

#[test]
fn extension_follows_the_file_name() {
    assert_eq!(extension_str("a/b/c.png"), Some("png".to_string()));
    assert_eq!(extension_str("archive.tar.gz"), Some("gz".to_string()));
    // a leading dot marks a hidden file, not an extension
    assert_eq!(extension_str(".gitignore"), None);
    assert_eq!(extension_str("a/.hidden"), None);
    // a dot in a directory name is not an extension of the file
    assert_eq!(extension_str("dir.ext/file"), None);
    // windows separators split the name too
    assert_eq!(is_media_file("C:\\pics\\x.PNG"), Some(MediaType::Image));
    // a trailing dot yields an empty extension
    assert_eq!(extension_str("name."), Some(String::new()));
}

#[test]
fn media_type_text_round_trips() {
    assert_eq!(media_type_str(MediaType::Image), "image");
    assert_eq!(media_type_str(MediaType::Video), "video");
    assert_eq!(media_type_from_str("image"), Some(MediaType::Image));
    assert_eq!(media_type_from_str("video"), Some(MediaType::Video));
    assert_eq!(media_type_from_str("audio"), None);
    assert_eq!(media_type_from_str(""), None);
}

#[test]
fn content_hash_is_64_lowercase_hex() {
    let h = hash_bytes(b"hello world");
    assert_eq!(h.len(), 64);
    assert!(h.chars().all(|c| c.is_ascii_hexdigit() && !c.is_ascii_uppercase()));
    // deterministic: the same bytes hash alike, different bytes do not
    assert_eq!(h, hash_bytes(b"hello world"));
    assert_ne!(h, hash_bytes(b"hello worlds"));
}

#[test]
fn folder_hash_depends_on_the_path_alone() {
    let a = generate_folder_hash("/library/a");
    assert_eq!(a.len(), 64);
    assert_eq!(a, generate_folder_hash("/library/a"));
    assert_ne!(a, generate_folder_hash("/library/b"));
    // the folder hash is the content hash of the path's bytes
    assert_eq!(a, hash_bytes("/library/a".as_bytes()));
}

#[test]
fn short_hash_takes_sixteen_characters() {
    let h = hash_bytes(b"x");
    let s = short_hash(&h);
    assert_eq!(s.len(), 16);
    assert_eq!(s, h[..16]);
    // shorter inputs pass through whole
    assert_eq!(short_hash("abc"), "abc");
    assert_eq!(short_hash(""), "");
    assert_eq!(short_hash("0123456789abcdef"), "0123456789abcdef");
}
