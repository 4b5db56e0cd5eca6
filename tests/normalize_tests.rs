use pinscrape::normalize::normalize;

#[test]
fn thumbnail_75_is_rejected() {
    assert_eq!(normalize("https://i.pinimg.com/75x75_RS/aa/bb/cc.jpg"), None);
}

#[test]
fn thumbnail_280_is_rejected() {
    assert_eq!(normalize("https://i.pinimg.com/280x280_RS/aa/bb/cc.jpg"), None);
}

#[test]
fn size_segment_becomes_originals() {
    assert_eq!(
        normalize("https://i.pinimg.com/236x/aa/bb/cc.jpg"),
        Some("https://i.pinimg.com/originals/aa/bb/cc.jpg".to_string())
    );
}

#[test]
fn only_first_size_segment_is_rewritten() {
    assert_eq!(
        normalize("https://i.pinimg.com/236x/aa/564x/cc.jpg"),
        Some("https://i.pinimg.com/originals/aa/564x/cc.jpg".to_string())
    );
}

#[test]
fn link_without_size_segment_is_kept() {
    assert_eq!(
        normalize("https://i.pinimg.com/originals/aa/cc.jpg"),
        Some("https://i.pinimg.com/originals/aa/cc.jpg".to_string())
    );
}

#[test]
fn size_without_digits_is_kept() {
    assert_eq!(normalize("https://h/x/a/x/"), Some("https://h/x/a/x/".to_string()));
}

#[test]
fn thumbnail_of_any_size_is_rejected() {
    assert_eq!(normalize("https://i.pinimg.com/123x456_RS/aa/bb/cc.jpg"), None);
    assert_eq!(normalize("/1x2_RS/"), None);
}

#[test]
fn marker_without_height_digits_is_not_a_thumbnail() {
    assert_eq!(normalize("/75x_RS/a"), Some("/75x_RS/a".to_string()));
}
