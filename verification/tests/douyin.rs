use douyin_downloader::douyin::{
    download_report, get_id_from_url, id_from_capture, item_info_url, listed_video,
    single_search_result, single_video, unquote, user_info_from, user_info_url, video_list_url,
    video_page, DouyinError, Paging, RawAuthor, RawUser, RawVideo, RawVideoPage, UserInfo,
    UserVideoInfo, VideoInfo, VideoInfoItem, PAGE_RETRIES, VIDEO_CHUNK_COUNT,
};

fn id_in(link: &str) -> (String, String) {
    let mut url = link.to_string();
    let id = get_id_from_url(&mut url);
    (id, url)
}

fn raw_video(id: &str, title: &str, play: &str, cover: &str) -> RawVideo {
    RawVideo {
        aweme_id: id.to_string(),
        title: title.to_string(),
        play_url: play.to_string(),
        cover_url: cover.to_string(),
    }
}

#[test]
fn id_of_a_video_link() {
    let (id, url) = id_in("https://www.douyin.com/video/7123456789012345678?previous_page=app");
    assert_eq!(id, "7123456789012345678");
    assert_eq!(url, "https://www.douyin.com/video/7123456789012345678?previous_page=app");
}

#[test]
fn id_of_a_link_without_query_gets_a_question_mark_first() {
    let (id, url) = id_in("https://www.douyin.com/video/7123456789012345678");
    assert_eq!(id, "7123456789012345678");
    assert_eq!(url, "https://www.douyin.com/video/7123456789012345678?");
}

#[test]
fn id_of_an_account_link() {
    let (id, _) = id_in("https://www.iesdouyin.com/share/user/MS4wLjABAAAAabc_-xyz?did=1&iid=2");
    assert_eq!(id, "MS4wLjABAAAAabc_-xyz");
}

#[test]
fn id_loses_the_slash_before_the_query() {
    let (id, _) = id_in("https://www.iesdouyin.com/share/video/6950000000000000000/?region=CN");
    assert_eq!(id, "6950000000000000000");
}

#[test]
fn id_runs_up_to_the_last_separator() {
    let (id, _) = id_in("https://www.douyin.com/video/123?from=/a/b");
    assert_eq!(id, "123?from=a");
}

#[test]
fn link_that_names_no_video_and_no_account_has_no_id() {
    let (id, url) = id_in("https://www.douyin.com/");
    assert_eq!(id, "");
    assert_eq!(url, "https://www.douyin.com/?");
    assert_eq!(id_in("").0, "");
    assert_eq!(id_in("https://v.douyin.com/abc/").0, "");
}

#[test]
fn capture_becomes_the_id_without_slashes() {
    assert_eq!(id_from_capture(Some("123/".to_string())), "123");
    assert_eq!(id_from_capture(Some("a/b//c".to_string())), "abc");
    assert_eq!(id_from_capture(Some("".to_string())), "");
    assert_eq!(id_from_capture(None), "");
}

#[test]
fn addresses_of_the_web_interface() {
    assert_eq!(
        item_info_url("7123"),
        "https://www.iesdouyin.com/web/api/v2/aweme/iteminfo/?item_ids=7123"
    );
    assert_eq!(
        user_info_url("MS4w"),
        "https://www.iesdouyin.com/web/api/v2/user/info/?sec_uid=MS4w"
    );
    assert_eq!(
        video_list_url("MS4w", 35, 1650000000000),
        "https://www.iesdouyin.com/web/api/v2/aweme/post/?sec_uid=MS4w&count=35&max_cursor=1650000000000"
    );
    assert_eq!(
        video_list_url("", 0, 0),
        "https://www.iesdouyin.com/web/api/v2/aweme/post/?sec_uid=&count=0&max_cursor=0"
    );
    assert_eq!(
        video_list_url("u", u16::MAX, u64::MAX),
        "https://www.iesdouyin.com/web/api/v2/aweme/post/?sec_uid=u&count=65535&max_cursor=18446744073709551615"
    );
}

#[test]
fn quotes_are_stripped() {
    assert_eq!(unquote("\"abc\""), "abc");
    assert_eq!(unquote("null"), "null");
    assert_eq!(unquote("\"say \\\"hi\\\"\""), "say \\hi\\");
    assert_eq!(unquote(""), "");
    assert_eq!(unquote("\"\"\""), "");
}

#[test]
fn video_found_by_its_link() {
    let item = single_video(&raw_video(
        "\"7123\"",
        "\"看看这个 @某人 发布的视频\"",
        "\"https://aweme.snssdk.com/aweme/v1/playwm/?video_id=v0&ratio=720p&line=0\"",
        "\"https://p3.douyinpic.com/cover.jpeg\"",
    ));
    assert_eq!(item.video_id, "7123");
    assert_eq!(item.video_title, "看看这个 ");
    assert_eq!(
        item.video_url,
        "https://aweme.snssdk.com/aweme/v1/play/?video_id=v0&ratio=1080p&line=0"
    );
    assert_eq!(item.cover_url, "https://p3.douyinpic.com/cover.jpeg");
}

#[test]
fn video_without_title_is_named_after_its_id() {
    let item = single_video(&raw_video("\"7123\"", "\"@某人 的视频\"", "\"u\"", "\"c\""));
    assert_eq!(item.video_title, "无标题: 7123");
    let item = single_video(&raw_video("\"7\"", "\"\"", "\"u\"", "\"c\""));
    assert_eq!(item.video_title, "无标题: 7");
    let item = listed_video(&raw_video("\"7123\"", "\"#话题 内容\"", "\"u\"", "\"c\""));
    assert_eq!(item.video_title, "无标题7123");
    let item = listed_video(&raw_video("\"7123\"", "\"@朋友 #话题\"", "\"u\"", "\"c\""));
    assert_eq!(item.video_title, "无标题7123");
}

#[test]
fn missing_fields_read_as_null() {
    let item = single_video(&raw_video("null", "null", "null", "null"));
    assert_eq!(item.video_id, "null");
    assert_eq!(item.video_title, "null");
    assert_eq!(item.video_url, "null");
    assert_eq!(item.cover_url, "null");
}

#[test]
fn every_watermark_and_ratio_is_replaced() {
    let item = single_video(&raw_video(
        "\"1\"",
        "\"t\"",
        "\"playwm/playwm?ratio=720p&x=ratio=720p&playw=playwmm\"",
        "\"c\"",
    ));
    assert_eq!(item.video_url, "play/play?ratio=1080p&x=ratio=1080p&playw=playm");
}

#[test]
fn video_in_a_list() {
    let item = listed_video(&raw_video(
        "\"7123\"",
        "\"今天的风景 #旅行 @朋友\"",
        "\"https://aweme.snssdk.com/aweme/v1/playwm/?ratio=720p\"",
        "\"https://p3.douyinpic.com/c.jpeg\"",
    ));
    assert_eq!(item.video_id, "7123");
    assert_eq!(item.video_title, "今天的风景 ");
    assert_eq!(
        item.video_url,
        "https://aweme.snssdk.com/aweme/v1/playwm/?ratio=720p"
    );
    assert_eq!(item.cover_url, "https://p3.douyinpic.com/c.jpeg");
    let item = listed_video(&raw_video("\"1\"", "\"a@b#c\"", "\"u\"", "\"c\""));
    assert_eq!(item.video_title, "a");
}

#[test]
fn answer_to_the_search_for_one_video() {
    let info = single_search_result(
        &raw_video("\"7123\"", "\"标题\"", "\"https://x/playwm/\"", "\"https://x/c\""),
        &RawAuthor {
            uid: "\"98765\"".to_string(),
            nickname: "\"作者\"".to_string(),
            avatar_url: "\"https://x/a.jpeg\"".to_string(),
        },
    );
    let user = info.user_info();
    assert_eq!(user.nickname, "作者");
    assert_eq!(user.uid, "98765");
    assert_eq!(user.avatar_url, "https://x/a.jpeg");
    assert_eq!(user.video_count, 1);
    let videos = info.video_info();
    assert_eq!(videos.max_cursor, 0);
    assert!(!videos.has_more);
    assert_eq!(videos.items.len(), 1);
    assert_eq!(videos.items[0].video_id, "7123");
    assert_eq!(videos.items[0].video_title, "标题");
    assert_eq!(videos.items[0].video_url, "https://x/play/");
    assert_eq!(videos.items[0].cover_url, "https://x/c");
}

#[test]
fn record_of_an_account() {
    let user = user_info_from(
        "MS4w",
        &RawUser {
            nickname: "\"名字\"".to_string(),
            aweme_count: Some(321),
            avatar_url: "\"https://x/a\"".to_string(),
        },
    );
    assert_eq!(user.nickname, "名字");
    assert_eq!(user.uid, "MS4w");
    assert_eq!(user.avatar_url, "https://x/a");
    assert_eq!(user.video_count, 321);
}

#[test]
fn video_count_is_cut_to_sixteen_bits() {
    let count = |n: Option<u64>| {
        user_info_from(
            "u",
            &RawUser { nickname: "n".to_string(), aweme_count: n, avatar_url: "a".to_string() },
        )
        .video_count
    };
    assert_eq!(count(None), 0);
    assert_eq!(count(Some(0)), 0);
    assert_eq!(count(Some(65535)), 65535);
    assert_eq!(count(Some(65536)), 0);
    assert_eq!(count(Some(70000)), 70000u64 as u16);
    assert_eq!(count(Some(u64::MAX)), u64::MAX as u16);
}

#[test]
fn page_of_videos() {
    let page = video_page(&RawVideoPage {
        max_cursor: Some(1650000000000),
        has_more: Some(true),
        items: vec![
            raw_video("\"1\"", "\"一 #a\"", "\"u1\"", "\"c1\""),
            raw_video("\"2\"", "\"\"", "\"u2\"", "\"c2\""),
        ],
    });
    assert_eq!(page.max_cursor, 1650000000000);
    assert!(page.has_more);
    assert_eq!(page.items.len(), 2);
    assert_eq!(page.items[0].video_id, "1");
    assert_eq!(page.items[0].video_title, "一 ");
    assert_eq!(page.items[0].video_url, "u1");
    assert_eq!(page.items[1].video_id, "2");
    assert_eq!(page.items[1].video_title, "无标题2");
    assert_eq!(page.items[1].cover_url, "c2");
}

#[test]
fn page_without_cursor_and_videos() {
    let page = video_page(&RawVideoPage { max_cursor: None, has_more: None, items: vec![] });
    assert_eq!(page.max_cursor, 0);
    assert!(!page.has_more);
    assert!(page.items.is_empty());
}

#[test]
fn paging_follows_the_cursor_until_the_last_page() {
    let mut paging = Paging::start(5);
    assert_eq!(paging, Paging { cursor: 5, retry_num: 3 });
    assert_eq!(PAGE_RETRIES, 3);
    assert!(paging.advance(Some((100, true))));
    assert_eq!(paging, Paging { cursor: 100, retry_num: 3 });
    assert!(!paging.advance(Some((200, false))));
    assert_eq!(paging, Paging { cursor: 200, retry_num: 3 });
}

#[test]
fn paging_gives_up_at_the_fifth_failure() {
    let mut paging = Paging::start(0);
    for left in [2, 1, 0, -1] {
        assert!(paging.advance(None));
        assert_eq!(paging, Paging { cursor: 0, retry_num: left });
    }
    assert!(!paging.advance(None));
    assert_eq!(paging, Paging { cursor: 0, retry_num: -1 });
}

#[test]
fn a_page_does_not_restore_the_retries() {
    let mut paging = Paging::start(0);
    assert!(paging.advance(None));
    assert!(paging.advance(Some((7, true))));
    assert_eq!(paging, Paging { cursor: 7, retry_num: 2 });
}

#[test]
fn error_texts() {
    assert_eq!(DouyinError::SystemError.message(), "系统错误");
    assert_eq!(DouyinError::VideoInfoNotFoundError.message(), "未找到视频");
    assert_eq!(DouyinError::NetworkError.message(), "网络错误");
    assert_eq!(DouyinError::GetDataError.message(), "获取数据失败");
    assert_eq!(DouyinError::DownloadVideoError.message(), "下载视频失败");
    assert_eq!(DouyinError::GetUserInfoFailureError.message(), "获取用户信息失败");
    assert_eq!(DouyinError::UserInfoNotFoundError.message(), "未找到用户");
}

#[test]
fn report_of_a_download() {
    let item = VideoInfoItem {
        video_id: "7123".to_string(),
        video_title: "标题 #话题".to_string(),
        video_url: "https://x/v".to_string(),
        cover_url: "https://x/c".to_string(),
    };
    let report = download_report(&item, "/videos/标题.mp4", false);
    assert_eq!(report.video_id, "7123");
    assert_eq!(report.video_title, "标题 #话题");
    assert_eq!(report.save_path, "/videos/标题.mp4");
    assert!(!report.is_success);
    assert!(download_report(&item, "p", true).is_success);
}

#[test]
fn videos_are_fetched_by_eight_workers() {
    assert_eq!(VIDEO_CHUNK_COUNT, 8);
}

#[test]
fn account_and_videos_are_kept_together() {
    let info = UserVideoInfo::new(
        UserInfo {
            nickname: "n".to_string(),
            uid: "u".to_string(),
            avatar_url: "a".to_string(),
            video_count: 2,
        },
        VideoInfo { max_cursor: 9, has_more: true, items: vec![] },
    );
    assert_eq!(info.user_info().uid, "u");
    assert_eq!(info.user_info().video_count, 2);
    assert_eq!(info.video_info().max_cursor, 9);
    assert!(info.video_info().has_more);
}
