//! What is read from the Douyin web interface: the addresses to ask, the
//! identifier in a share link, and the records built from the answers.
//!
//! The answers come as JSON. A caller hands over each field that is read as
//! the JSON text of its value (a string with its quotes, or `null`), and the
//! functions here clean those texts.

use vstd::prelude::*;
use vstd::string::StringExecFns;
use crate::pattern::{capture_group, captured};
use crate::text::{
    chars_of, find_first, first_index_of, head_before, lemma_first_index_of, opt_string_chars,
    push_decimal, decimal, replace_all, replaced, strip_char, without,
};

verus! {

/// A Douyin account.
#[derive(Debug)]
pub struct UserInfo {
    pub nickname: String,
    pub uid: String,
    pub avatar_url: String,
    pub video_count: u16,
}

/// One video.
#[derive(Debug, Clone)]
pub struct VideoInfoItem {
    pub video_id: String,
    pub video_title: String,
    pub video_url: String,
    pub cover_url: String,
}

/// One page of an account's videos.
#[derive(Debug, Clone)]
pub struct VideoInfo {
    pub max_cursor: u64,
    pub has_more: bool,
    pub items: Vec<VideoInfoItem>,
}

/// An account together with videos of it.
#[derive(Debug)]
pub struct UserVideoInfo {
    user_info: UserInfo,
    video_info: VideoInfo,
}

/// Progress of a single download, in percent.
#[derive(Debug, Clone)]
pub struct ElProgress {
    pub percentage: u8,
}

/// How the download of one video of a batch ended.
#[derive(Debug, Clone)]
pub struct DouyinMuplitDownloadProgress {
    pub video_id: String,
    pub video_title: String,
    pub save_path: String,
    pub is_success: bool,
}

/// What can go wrong between a share link and a saved file.
#[derive(Clone, Copy, Debug, PartialEq, Eq, Structural)]
pub enum DouyinError {
    SystemError,
    VideoInfoNotFoundError,
    NetworkError,
    GetDataError,
    DownloadVideoError,
    GetUserInfoFailureError,
    UserInfoNotFoundError,
}

/// Number of workers for the download of a video.
pub const VIDEO_CHUNK_COUNT: u8 = 8;

/// The count of forgiven failures with which a walk through the pages of an
/// account starts; each failed request lowers it by one.
pub const PAGE_RETRIES: i32 = 3;

/// The text shown for `error`.
pub open spec fn error_text(error: DouyinError) -> Seq<char> {
    match error {
        DouyinError::SystemError => "系统错误"@,
        DouyinError::VideoInfoNotFoundError => "未找到视频"@,
        DouyinError::NetworkError => "网络错误"@,
        DouyinError::GetDataError => "获取数据失败"@,
        DouyinError::DownloadVideoError => "下载视频失败"@,
        DouyinError::GetUserInfoFailureError => "获取用户信息失败"@,
        DouyinError::UserInfoNotFoundError => "未找到用户"@,
    }
}

impl DouyinError {
    /// The text shown for the error.
    pub fn message(&self) -> (text: String)
        ensures
            text@ == error_text(*self),
    {
        match self {
            DouyinError::SystemError => String::from_str("系统错误"),
            DouyinError::VideoInfoNotFoundError => String::from_str("未找到视频"),
            DouyinError::NetworkError => String::from_str("网络错误"),
            DouyinError::GetDataError => String::from_str("获取数据失败"),
            DouyinError::DownloadVideoError => String::from_str("下载视频失败"),
            DouyinError::GetUserInfoFailureError => String::from_str("获取用户信息失败"),
            DouyinError::UserInfoNotFoundError => String::from_str("未找到用户"),
        }
    }
}

/// `url`, with a `?` behind it if it holds none.
pub open spec fn with_query_mark(url: Seq<char>) -> Seq<char> {
    if url.contains('?') {
        url
    } else {
        url.push('?')
    }
}

/// The identifier that a capture gives: what was captured, without its `/`;
/// empty where nothing was captured.
pub open spec fn id_of(found: Option<Seq<char>>) -> Seq<char> {
    match found {
        Some(text) => without(text, '/'),
        None => Seq::empty(),
    }
}

/// The regular expression that finds the identifier of a video or of an
/// account in a link.
pub open spec fn id_pattern() -> Seq<char> {
    r"/[video|user]+/(?P<aweme_id>\S+)[/|\?]+"@
}

/// Turns what the search for an identifier captured into the identifier.
pub fn id_from_capture(found: Option<String>) -> (id: String)
    ensures
        id@ == id_of(opt_string_chars(found)),
{
    match found {
        Some(text) => {
            let chars = chars_of(text.as_str());
            let id = strip_char(&chars, 0, chars.len(), '/');
            assert(chars@.subrange(0, chars@.len() as int) =~= text@);
            id
        },
        None => String::new(),
    }
}

/// Finds the identifier of a video or of an account in the link `url`, to
/// which a `?` is added first if it holds none. The identifier is empty
/// where the link names neither.
pub fn get_id_from_url(url: &mut String) -> (id: String)
    ensures
        final(url)@ == with_query_mark(old(url)@),
        id@ == id_of(captured(id_pattern(), "aweme_id"@, final(url)@)),
{
    let chars = chars_of(url.as_str());
    let mark = find_first(&chars, '?');
    proof {
        lemma_first_index_of(url@, '?');
        if mark < chars@.len() {
            assert(url@[mark as int] == '?');
        }
    }
    if mark >= chars.len() {
        url.push('?');
    }
    let found = capture_group(r"/[video|user]+/(?P<aweme_id>\S+)[/|\?]+", "aweme_id", url.as_str());
    id_from_capture(found)
}

/// The address that answers with the record of video `id`.
pub open spec fn item_info_address(id: Seq<char>) -> Seq<char> {
    "https://www.iesdouyin.com/web/api/v2/aweme/iteminfo/?item_ids="@ + id
}

/// The address that answers with the record of account `uid`.
pub open spec fn user_info_address(uid: Seq<char>) -> Seq<char> {
    "https://www.iesdouyin.com/web/api/v2/user/info/?sec_uid="@ + uid
}

/// The address that answers with up to `count` videos of account `uid`
/// from `max_cursor` on.
pub open spec fn video_list_address(uid: Seq<char>, count: u16, max_cursor: u64) -> Seq<char> {
    "https://www.iesdouyin.com/web/api/v2/aweme/post/?sec_uid="@ + uid + "&count="@ + decimal(
        count as nat,
    ) + "&max_cursor="@ + decimal(max_cursor as nat)
}

/// Writes the address that answers with the record of video `id`.
pub fn item_info_url(id: &str) -> (url: String)
    ensures
        url@ == item_info_address(id@),
{
    let mut url = String::from_str("https://www.iesdouyin.com/web/api/v2/aweme/iteminfo/?item_ids=");
    url.append(id);
    url
}

/// Writes the address that answers with the record of account `uid`.
pub fn user_info_url(uid: &str) -> (url: String)
    ensures
        url@ == user_info_address(uid@),
{
    let mut url = String::from_str("https://www.iesdouyin.com/web/api/v2/user/info/?sec_uid=");
    url.append(uid);
    url
}

/// Writes the address that answers with a page of the videos of an account.
pub fn video_list_url(uid: &str, count: u16, max_cursor: u64) -> (url: String)
    ensures
        url@ == video_list_address(uid@, count, max_cursor),
{
    let mut url = String::from_str("https://www.iesdouyin.com/web/api/v2/aweme/post/?sec_uid=");
    url.append(uid);
    url.append("&count=");
    push_decimal(&mut url, count as u64);
    url.append("&max_cursor=");
    push_decimal(&mut url, max_cursor);
    url
}

/// The JSON text `raw` without its quotation marks.
pub open spec fn unquoted(raw: Seq<char>) -> Seq<char> {
    without(raw, '"')
}

/// Strips the quotation marks from the JSON text `raw`.
pub fn unquote(raw: &str) -> (text: String)
    ensures
        text@ == unquoted(raw@),
{
    let chars = chars_of(raw);
    let text = strip_char(&chars, 0, chars.len(), '"');
    assert(chars@.subrange(0, chars@.len() as int) =~= raw@);
    text
}

/// `text` up to its first `c`.
pub open spec fn head(text: Seq<char>, c: char) -> Seq<char> {
    text.take(first_index_of(text, c))
}

/// The title of a video found by its link: the shared title up to its first
/// `@`; where that is empty, a stand-in with the video's identifier.
pub open spec fn single_title_of(raw_title: Seq<char>, video_id: Seq<char>) -> Seq<char> {
    let title = head(unquoted(raw_title), '@');
    if title.len() == 0 {
        "无标题: "@ + video_id
    } else {
        title
    }
}

/// The title of a video in an account's list: its description up to its
/// first `#` and up to its first `@`; where that is empty, a stand-in
/// with the video's identifier.
pub open spec fn listed_title_of(raw_title: Seq<char>, video_id: Seq<char>) -> Seq<char> {
    let title = head(head(unquoted(raw_title), '#'), '@');
    if title.len() == 0 {
        "无标题"@ + video_id
    } else {
        title
    }
}

/// The address of a video found by its link: the one without watermark, in
/// the higher resolution.
pub open spec fn play_address_of(raw_url: Seq<char>) -> Seq<char> {
    replaced(replaced(unquoted(raw_url), "playwm"@, "play"@), "ratio=720p"@, "ratio=1080p"@)
}

/// A video as the web interface describes it; each field is the JSON text
/// of the value.
#[derive(Debug, Clone)]
pub struct RawVideo {
    pub aweme_id: String,
    pub title: String,
    pub play_url: String,
    pub cover_url: String,
}

/// The author of a video as the web interface describes them; each field is
/// the JSON text of the value.
#[derive(Debug, Clone)]
pub struct RawAuthor {
    pub uid: String,
    pub nickname: String,
    pub avatar_url: String,
}

/// An account as the web interface describes it; the texts are JSON texts.
#[derive(Debug, Clone)]
pub struct RawUser {
    pub nickname: String,
    pub aweme_count: Option<u64>,
    pub avatar_url: String,
}

/// A page of videos as the web interface describes it.
#[derive(Debug, Clone)]
pub struct RawVideoPage {
    pub max_cursor: Option<u64>,
    pub has_more: Option<bool>,
    pub items: Vec<RawVideo>,
}

/// `item` is the video that `raw` describes, found by its link.
pub open spec fn is_single_video(item: VideoInfoItem, raw: RawVideo) -> bool {
    &&& item.video_id@ == unquoted(raw.aweme_id@)
    &&& item.video_title@ == single_title_of(raw.title@, unquoted(raw.aweme_id@))
    &&& item.video_url@ == play_address_of(raw.play_url@)
    &&& item.cover_url@ == unquoted(raw.cover_url@)
}

/// `item` is the video that `raw` describes, in an account's list.
pub open spec fn is_listed_video(item: VideoInfoItem, raw: RawVideo) -> bool {
    &&& item.video_id@ == unquoted(raw.aweme_id@)
    &&& item.video_title@ == listed_title_of(raw.title@, unquoted(raw.aweme_id@))
    &&& item.video_url@ == unquoted(raw.play_url@)
    &&& item.cover_url@ == unquoted(raw.cover_url@)
}

/// Builds the record of a video found by its link.
pub fn single_video(raw: &RawVideo) -> (item: VideoInfoItem)
    ensures
        is_single_video(item, *raw),
{
    let video_id = unquote(raw.aweme_id.as_str());
    let shared = unquote(raw.title.as_str());
    let mut video_title = head_before(shared.as_str(), '@');
    if video_title.as_str().is_empty() {
        video_title = String::from_str("无标题: ");
        video_title.append(video_id.as_str());
    }
    let address = unquote(raw.play_url.as_str());
    let address = replace_all(address.as_str(), "playwm", "play");
    let video_url = replace_all(address.as_str(), "ratio=720p", "ratio=1080p");
    let cover_url = unquote(raw.cover_url.as_str());
    VideoInfoItem { video_id, video_title, video_url, cover_url }
}

/// Builds the record of a video in an account's list.
pub fn listed_video(raw: &RawVideo) -> (item: VideoInfoItem)
    ensures
        is_listed_video(item, *raw),
{
    let video_id = unquote(raw.aweme_id.as_str());
    let description = unquote(raw.title.as_str());
    let untagged = head_before(description.as_str(), '#');
    let mut video_title = head_before(untagged.as_str(), '@');
    if video_title.as_str().is_empty() {
        video_title = String::from_str("无标题");
        video_title.append(video_id.as_str());
    }
    let video_url = unquote(raw.play_url.as_str());
    let cover_url = unquote(raw.cover_url.as_str());
    VideoInfoItem { video_id, video_title, video_url, cover_url }
}

impl UserVideoInfo {
    /// The account.
    pub closed spec fn user(&self) -> UserInfo {
        self.user_info
    }

    /// The videos.
    pub closed spec fn videos(&self) -> VideoInfo {
        self.video_info
    }

    /// Puts an account and videos of it together.
    pub fn new(user_info: UserInfo, video_info: VideoInfo) -> (info: UserVideoInfo)
        ensures
            info.user() == user_info,
            info.videos() == video_info,
    {
        UserVideoInfo { user_info, video_info }
    }

    /// Takes the account and the videos apart again.
    pub fn into_parts(self) -> (parts: (UserInfo, VideoInfo))
        ensures
            parts.0 == self.user(),
            parts.1 == self.videos(),
    {
        (self.user_info, self.video_info)
    }

    /// The account.
    pub fn user_info(&self) -> (user: &UserInfo)
        ensures
            *user == self.user(),
    {
        &self.user_info
    }

    /// The videos.
    pub fn video_info(&self) -> (videos: &VideoInfo)
        ensures
            *videos == self.videos(),
    {
        &self.video_info
    }
}

/// Builds the answer to the search for one video: its author, counted with
/// one video, and the video alone on a page that has no successor.
pub fn single_search_result(video: &RawVideo, author: &RawAuthor) -> (info: UserVideoInfo)
    ensures
        info.user().nickname@ == unquoted(author.nickname@),
        info.user().uid@ == unquoted(author.uid@),
        info.user().avatar_url@ == unquoted(author.avatar_url@),
        info.user().video_count == 1,
        info.videos().max_cursor == 0,
        !info.videos().has_more,
        info.videos().items@.len() == 1,
        is_single_video(info.videos().items@[0], *video),
{
    let user_info = UserInfo {
        nickname: unquote(author.nickname.as_str()),
        uid: unquote(author.uid.as_str()),
        avatar_url: unquote(author.avatar_url.as_str()),
        video_count: 1,
    };
    let mut items: Vec<VideoInfoItem> = Vec::new();
    items.push(single_video(video));
    let video_info = VideoInfo { max_cursor: 0, has_more: false, items };
    UserVideoInfo::new(user_info, video_info)
}

/// The number of videos of an account as the records hold it: the number
/// that was reported, cut to its low 16 bits; 0 where none was reported.
pub open spec fn video_count_of(aweme_count: Option<u64>) -> u16 {
    match aweme_count {
        Some(n) => (n % 0x1_0000) as u16,
        None => 0,
    }
}

/// Builds the record of account `uid`.
pub fn user_info_from(uid: &str, raw: &RawUser) -> (user: UserInfo)
    ensures
        user.nickname@ == unquoted(raw.nickname@),
        user.uid@ == uid@,
        user.avatar_url@ == unquoted(raw.avatar_url@),
        user.video_count == video_count_of(raw.aweme_count),
{
    let video_count: u16 = match raw.aweme_count {
        Some(n) => (n % 0x1_0000) as u16,
        None => 0,
    };
    UserInfo {
        nickname: unquote(raw.nickname.as_str()),
        uid: String::from_str(uid),
        avatar_url: unquote(raw.avatar_url.as_str()),
        video_count,
    }
}

/// Builds a page of an account's videos: a cursor that was not reported is
/// 0, a missing `has_more` is `false`, and the videos keep their order.
pub fn video_page(raw: &RawVideoPage) -> (page: VideoInfo)
    ensures
        page.max_cursor == (match raw.max_cursor {
            Some(cursor) => cursor,
            None => 0,
        }),
        page.has_more == (match raw.has_more {
            Some(more) => more,
            None => false,
        }),
        page.items@.len() == raw.items@.len(),
        forall|i: int|
            0 <= i < raw.items@.len() ==> is_listed_video(#[trigger] page.items@[i], raw.items@[i]),
{
    let max_cursor = match raw.max_cursor {
        Some(cursor) => cursor,
        None => 0,
    };
    let has_more = match raw.has_more {
        Some(more) => more,
        None => false,
    };
    let mut items: Vec<VideoInfoItem> = Vec::new();
    let mut i: usize = 0;
    while i < raw.items.len()
        invariant
            i <= raw.items@.len(),
            items@.len() == i,
            forall|k: int| 0 <= k < i ==> is_listed_video(#[trigger] items@[k], raw.items@[k]),
        decreases raw.items@.len() - i,
    {
        items.push(listed_video(&raw.items[i]));
        i = i + 1;
    }
    VideoInfo { max_cursor, has_more, items }
}

/// Where the walk through the pages of an account's videos stands.
#[derive(Clone, Copy, Debug, PartialEq, Eq, Structural)]
pub struct Paging {
    /// The cursor to ask the next page with.
    pub cursor: u64,
    /// Failed requests that are still forgiven; below 0 the next failure
    /// ends the walk.
    pub retry_num: i32,
}

impl Paging {
    /// Starts a walk at `max_cursor`.
    pub fn start(max_cursor: u64) -> (paging: Paging)
        ensures
            paging == (Paging { cursor: max_cursor, retry_num: PAGE_RETRIES }),
    {
        Paging { cursor: max_cursor, retry_num: PAGE_RETRIES }
    }

    /// The walk after the request for a page ended: `Some((cursor,
    /// has_more))` of the page that came, `None` for a request that failed.
    pub open spec fn after(self, answer: Option<(u64, bool)>) -> Paging {
        match answer {
            Some((cursor, _)) => Paging { cursor, ..self },
            None => if self.retry_num < 0 {
                self
            } else {
                Paging { retry_num: (self.retry_num - 1) as i32, ..self }
            },
        }
    }

    /// Whether the walk goes on after the request for a page ended.
    pub open spec fn goes_on(self, answer: Option<(u64, bool)>) -> bool {
        match answer {
            Some((_, has_more)) => has_more,
            None => self.retry_num >= 0,
        }
    }

    /// Takes the end of the request for a page and says whether to ask for
    /// another. A page moves the cursor and is the last one if it says so; a
    /// failure is forgiven as long as `retry_num` is not below 0.
    pub fn advance(&mut self, answer: Option<(u64, bool)>) -> (more: bool)
        ensures
            *final(self) == old(self).after(answer),
            more == old(self).goes_on(answer),
    {
        match answer {
            Some((cursor, has_more)) => {
                self.cursor = cursor;
                has_more
            },
            None => {
                if self.retry_num < 0 {
                    false
                } else {
                    self.retry_num = self.retry_num - 1;
                    true
                }
            },
        }
    }
}

/// Reports how the download of `item` to `save_path` ended.
pub fn download_report(item: &VideoInfoItem, save_path: &str, is_success: bool) -> (report:
    DouyinMuplitDownloadProgress)
    ensures
        report.video_id@ == item.video_id@,
        report.video_title@ == item.video_title@,
        report.save_path@ == save_path@,
        report.is_success == is_success,
{
    DouyinMuplitDownloadProgress {
        video_id: item.video_id.clone(),
        video_title: item.video_title.clone(),
        save_path: String::from_str(save_path),
        is_success,
    }
}

} // verus!
