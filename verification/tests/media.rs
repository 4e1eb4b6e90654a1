use douyin_downloader::media::file_extension;

#[test]
fn video_mp4_maps_to_mp4() {
    assert_eq!(file_extension(Some("video/mp4")), ".mp4");
}

#[test]
fn image_png_maps_to_png() {
    assert_eq!(file_extension(Some("image/png")), ".png");
}

#[test]
fn every_row_of_the_table() {
    let table = [
        ("video/x-flv", ".flv"),
        ("video/mp4", ".mp4"),
        ("application/x-mpegURL", ".m3u8"),
        ("video/MP2T", ".ts"),
        ("video/3gpp", ".3gpp"),
        ("video/quicktime", ".mov"),
        ("video/x-msvideo", ".avi"),
        ("video/x-ms-wmv", ".wmv"),
        ("audio/x-wav", ".wav"),
        ("audio/x-mp3", ".mp3"),
        ("audio/mp4", ".mp4"),
        ("application/ogg", ".ogg"),
        ("image/jpeg", ".jpeg"),
        ("image/png", ".png"),
        ("image/tiff", ".tiff"),
        ("image/gif", ".gif"),
        ("image/svg+xml", ".svg"),
    ];
    for (content_type, extension) in table {
        assert_eq!(file_extension(Some(content_type)), extension);
    }
}

#[test]
fn unknown_content_type_maps_to_mp4() {
    assert_eq!(file_extension(Some("application/octet-stream")), ".mp4");
    assert_eq!(file_extension(Some("")), ".mp4");
    assert_eq!(file_extension(Some("text/html")), ".mp4");
}

#[test]
fn absent_content_type_maps_to_mp4() {
    assert_eq!(file_extension(None), ".mp4");
}

#[test]
fn table_is_matched_letter_for_letter() {
    assert_eq!(file_extension(Some("image/PNG")), ".mp4");
    assert_eq!(file_extension(Some("image/png; charset=binary")), ".mp4");
    assert_eq!(file_extension(Some(" image/png")), ".mp4");
    assert_eq!(file_extension(Some("video/mp2t")), ".mp4");
}
