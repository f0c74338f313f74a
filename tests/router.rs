use image_transform::router::extract_path_components;

#[test]
fn path_splits_into_key_and_operations() {
    let (ops, key) = extract_path_components("/cars/2024/photo.jpg/width=500,format=webp");
    assert_eq!(ops, "width=500,format=webp");
    assert_eq!(key, "cars/2024/photo.jpg");
}

#[test]
fn single_segment_path_has_empty_key() {
    assert_eq!(extract_path_components("/width=10"), ("width=10", String::new()));
    assert_eq!(extract_path_components("/"), ("", String::new()));
}

#[test]
fn trailing_slash_gives_empty_operations() {
    assert_eq!(extract_path_components("/a/b/"), ("", "a/b".to_string()));
}

#[test]
fn path_without_slash_is_all_operations() {
    assert_eq!(extract_path_components("format=png"), ("format=png", String::new()));
}

#[test]
fn non_ascii_segments_are_kept_whole() {
    let (ops, key) = extract_path_components("/fotos/ação.png/quality=50");
    assert_eq!(ops, "quality=50");
    assert_eq!(key, "fotos/ação.png");
}
