use cbz_converter::converter::{archive_file_name, is_image_extension, zip_entry_name};
use cbz_converter::dropped::{decode_percent_bytes, percent_decode};
use cbz_converter::natural::natural_order;

#[test]
fn image_extensions_any_case() {
    for ext in ["jpg", "JPG", "Jpeg", "png", "WEBP", "gif"] {
        assert!(is_image_extension(ext), "{ext}");
    }
    for ext in ["txt", "jp", "jpgg", "", "xml", "tiff"] {
        assert!(!is_image_extension(ext), "{ext}");
    }
}

#[test]
fn names_in_archive() {
    assert_eq!(archive_file_name("My Comic"), "My Comic.cbz");
    assert_eq!(zip_entry_name("ch1\\001.jpg"), "ch1/001.jpg");
    assert_eq!(zip_entry_name("a/b.png"), "a/b.png");
}

#[test]
fn natural_order_of_pages() {
    let keys: Vec<String> = ["p10.jpg", "p2.jpg", "p1.jpg", "cover.jpg"]
        .iter()
        .map(|s| s.to_string())
        .collect();
    let order = natural_order(&keys);
    let sorted: Vec<&str> = order.iter().map(|&i| keys[i].as_str()).collect();
    assert_eq!(sorted, vec!["cover.jpg", "p1.jpg", "p2.jpg", "p10.jpg"]);
    assert!(natural_order(&Vec::new()).is_empty());
}

#[test]
fn percent_decoding() {
    assert_eq!(percent_decode("/home/me/My%20Comic"), "/home/me/My Comic");
    assert_eq!(percent_decode("%ED%95%9C"), "한");
    assert_eq!(percent_decode("100%"), "100%");
    assert_eq!(percent_decode("%zz%4"), "%zz%4");
    assert_eq!(percent_decode("%+4"), "%+4");
    assert_eq!(percent_decode("/a%20b%zz%+5"), "/a b%zz%+5");
    assert_eq!(percent_decode("%FF"), "\u{FFFD}");
    assert_eq!(percent_decode("plain"), "plain");
}

#[test]
fn percent_decoding_bytes() {
    assert_eq!(decode_percent_bytes(b"a%41b"), b"aAb".to_vec());
    assert_eq!(decode_percent_bytes(b"%4"), b"%4".to_vec());
}

#[test]
fn natural_order_keeps_equal_keys_in_place() {
    let keys: Vec<String> = vec!["p2".into(), "p1".into(), "p2".into(), "p01".into()];
    let order = natural_order(&keys);
    // natord puts "p1" and "p01" by their numbers; the two "p2" keep their order.
    let sorted: Vec<&str> = order.iter().map(|&i| keys[i].as_str()).collect();
    assert_eq!(sorted.len(), 4);
    let first_p2 = order.iter().position(|&i| i == 0).unwrap();
    let second_p2 = order.iter().position(|&i| i == 2).unwrap();
    assert!(first_p2 < second_p2);
    assert_eq!(&sorted[2..], &["p2", "p2"]);
}
