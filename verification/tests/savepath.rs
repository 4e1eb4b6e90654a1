use douyin_downloader::savepath::{get_save_path, replace_extension};

fn save_path(dir: &str, title: &str) -> String {
    get_save_path(&dir.to_string(), &title.to_string())
}

#[test]
fn extension_is_swapped() {
    assert_eq!(replace_extension("/tmp/video.tmp", ".mp4"), "/tmp/video.mp4");
    assert_eq!(replace_extension("/tmp/video.mp4", ".png"), "/tmp/video.png");
    assert_eq!(replace_extension("video.flv", ".mp4"), "video.mp4");
}

#[test]
fn extension_is_added_where_there_is_none() {
    assert_eq!(replace_extension("/tmp/video", ".png"), "/tmp/video.png");
    assert_eq!(replace_extension("video", ".mp4"), "video.mp4");
}

#[test]
fn only_the_last_extension_is_swapped() {
    assert_eq!(
        replace_extension("/tmp/archive.tar.gz", ".mp4"),
        "/tmp/archive.tar.mp4"
    );
}

#[test]
fn a_dot_in_the_directory_is_no_extension() {
    assert_eq!(replace_extension("/tmp.d/video", ".mp4"), "/tmp.d/video.mp4");
    assert_eq!(replace_extension("./video", ".mp4"), "./video.mp4");
}

#[test]
fn a_leading_dot_belongs_to_the_stem() {
    assert_eq!(replace_extension("/tmp/.hidden", ".mp4"), "/tmp/.hidden.mp4");
    assert_eq!(replace_extension(".hidden.txt", ".mp4"), ".hidden.mp4");
}

#[test]
fn stem_is_kept_under_the_new_extension() {
    let swapped = replace_extension("/home/user/下载/我的视频.download", ".mov");
    assert_eq!(swapped, "/home/user/下载/我的视频.mov");
    let again = replace_extension(&swapped, ".png");
    assert_eq!(again, "/home/user/下载/我的视频.png");
}

#[test]
fn path_without_file_name_gets_the_bare_extension() {
    assert_eq!(replace_extension("/tmp/", ".mp4"), "/tmp/.mp4");
    assert_eq!(replace_extension("", ".mp4"), ".mp4");
}

#[test]
fn title_is_cut_at_the_first_hash_and_trimmed() {
    assert_eq!(
        save_path("/home/u/videos", "My clip #tag1 #tag2"),
        "/home/u/videos/My clip.mp4"
    );
    assert_eq!(save_path("/home/u/videos", "  clip\t"), "/home/u/videos/clip.mp4");
}

#[test]
fn title_without_hash_is_taken_whole() {
    assert_eq!(save_path("videos", "a b c"), "videos/a b c.mp4");
}

#[test]
fn unicode_white_space_is_trimmed() {
    assert_eq!(
        save_path("d", "\u{3000}标题\u{3000}#话题"),
        "d/标题.mp4"
    );
    assert_eq!(save_path("d", "\u{a0}x\u{2003}\u{85}"), "d/x.mp4");
    assert_eq!(save_path("d", "\u{200b}x"), "d/\u{200b}x.mp4");
}

#[test]
fn directory_with_trailing_slash_gets_no_second_one() {
    assert_eq!(save_path("/home/u/videos/", "clip"), "/home/u/videos/clip.mp4");
    assert_eq!(save_path("/", "clip"), "/clip.mp4");
}

#[test]
fn empty_directory_gives_the_bare_name() {
    assert_eq!(save_path("", "clip"), "clip.mp4");
}

#[test]
fn empty_title_gives_the_directory_and_the_extension() {
    assert_eq!(save_path("dir", "#only tags"), "dir/.mp4");
    assert_eq!(save_path("dir", "   "), "dir/.mp4");
    assert_eq!(save_path("dir", ""), "dir/.mp4");
}

#[test]
fn title_that_starts_with_a_slash_stands_alone() {
    assert_eq!(save_path("dir", "/abs #x"), "/abs.mp4");
}

#[test]
fn save_path_agrees_with_std_paths() {
    let cases = [
        ("/home/u/videos", "My clip #tag1"),
        ("/home/u/videos/", "clip"),
        ("", "clip"),
        ("dir", "#only tags"),
        ("dir", "/abs #x"),
        ("a/b", " x.y #z"),
    ];
    for (dir, title) in cases {
        let head = title.split("#").collect::<Vec<&str>>()[0].trim();
        let expected = std::path::Path::new(dir)
            .join(head)
            .to_str()
            .unwrap()
            .to_string()
            + ".mp4";
        assert_eq!(save_path(dir, title), expected);
    }
}

#[test]
fn swapped_extension_agrees_with_std_paths() {
    let cases = [
        "/tmp/video.tmp",
        "/tmp/video",
        "/tmp/archive.tar.gz",
        "/tmp/.hidden",
        "/tmp.d/video",
        "video.flv",
        "a/b/c.d.e",
    ];
    for path in cases {
        let p = std::path::Path::new(path);
        let name = format!("{}{}", p.file_stem().unwrap().to_str().unwrap(), ".m3u8");
        let expected = p.parent().unwrap().join(name).to_str().unwrap().to_string();
        assert_eq!(replace_extension(path, ".m3u8"), expected);
    }
}
