use watermarker::keys::{base_name, destination_key, extension, file_name, is_directory_marker, media_kind, MediaKind};

#[test]
fn media_kind_of_images() {
    assert_eq!(media_kind("jpg"), MediaKind::Image);
    assert_eq!(media_kind("JPEG"), MediaKind::Image);
    assert_eq!(media_kind("Png"), MediaKind::Image);
}

#[test]
fn media_kind_of_videos() {
    assert_eq!(media_kind("mp4"), MediaKind::Video);
    assert_eq!(media_kind("MOV"), MediaKind::Video);
    assert_eq!(media_kind("webm"), MediaKind::Video);
}

#[test]
fn media_kind_of_others() {
    assert_eq!(media_kind("gif"), MediaKind::Unsupported);
    assert_eq!(media_kind(""), MediaKind::Unsupported);
    assert_eq!(media_kind("jpgx"), MediaKind::Unsupported);
}

#[test]
fn splits_key_into_parts() {
    assert_eq!(file_name("originals/photo.jpg"), "photo.jpg");
    assert_eq!(file_name("photo.jpg"), "photo.jpg");
    assert_eq!(extension("photo.jpg"), "jpg");
    assert_eq!(extension("archive.tar.gz"), "gz");
    assert_eq!(extension("README"), "");
    assert_eq!(extension(".hidden"), "");
    assert_eq!(base_name("photo.jpg"), "photo");
    assert_eq!(base_name("README"), "README");
}

#[test]
fn base_name_trims_one_extension() {
    assert_eq!(base_name("a.jpg.jpg"), "a.jpg");
    assert_eq!(base_name("clip.v2.mp4"), "clip.v2");
    assert_eq!(base_name(".hidden"), ".hidden");
}

#[test]
fn distinct_sources_get_distinct_destinations() {
    assert_eq!(destination_key("watermarks/", "originals/a.jpg.jpg"), "watermarks/a.jpg-watermark.jpg");
    assert_ne!(destination_key("watermarks/", "originals/a.jpg.jpg"), destination_key("watermarks/", "originals/a.jpg"));
}

#[test]
fn destination_key_in_flat_layout() {
    assert_eq!(destination_key("watermarks/", "originals/photo.jpg"), "watermarks/photo-watermark.jpg");
    assert_eq!(destination_key("watermarks/", "originals/clip.mp4"), "watermarks/clip-watermark.mp4");
}

#[test]
fn destination_key_in_tenant_layout() {
    let src = "users/123e4567-e89b-12d3-a456-426614174000/originals/Beach.PNG";
    let dst = "users/123e4567-e89b-12d3-a456-426614174000/watermarks/";
    assert_eq!(
        destination_key(dst, src),
        "users/123e4567-e89b-12d3-a456-426614174000/watermarks/Beach-watermark.PNG"
    );
}

#[test]
fn destination_key_is_repeatable() {
    let a = destination_key("watermarks/", "originals/photo.jpg");
    let b = destination_key("watermarks/", "originals/photo.jpg");
    assert_eq!(a, b);
    assert_eq!(destination_key("watermarks/", "elsewhere/photo.jpg"), a);
}

#[test]
fn directory_markers() {
    assert!(is_directory_marker("originals/"));
    assert!(!is_directory_marker("originals/photo.jpg"));
    assert!(!is_directory_marker(""));
}
