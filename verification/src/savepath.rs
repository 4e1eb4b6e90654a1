//! Destination paths: swapping a file extension and naming a video's file.
//!
//! Paths are taken as text with `/` between their components. The file name
//! is what follows the last `/`; its stem ends before its last `.`, unless
//! that dot is the name's first character.

use vstd::prelude::*;
use vstd::string::StringExecFns;
use crate::media::{extension_of, is_extension, lemma_extension_shape};
use crate::text::{
    chars_of, find_first, find_last, first_index_of, last_index_of, lemma_last_index_of,
    lemma_last_index_of_is, string_of, trim_bounds, trimmed,
};

verus! {

/// Index at which the file name of `path` starts: just behind the last `/`.
pub open spec fn name_start(path: Seq<char>) -> int {
    last_index_of(path, '/') + 1
}

/// Index at which the stem of the file name ends: the last `.` of `path` when
/// it lies inside the file name and is not its first character, else the end
/// of `path`.
pub open spec fn stem_end(path: Seq<char>) -> int {
    let dot = last_index_of(path, '.');
    if dot > name_start(path) {
        dot
    } else {
        path.len() as int
    }
}

/// The directory part of `path`, up to and including its last `/`.
pub open spec fn directory(path: Seq<char>) -> Seq<char> {
    path.take(name_start(path))
}

/// The file name of `path` without its extension.
pub open spec fn file_stem(path: Seq<char>) -> Seq<char> {
    path.subrange(name_start(path), stem_end(path))
}

/// `path` with the extension of its file name replaced by `ext`, which brings
/// its own dot.
pub open spec fn with_extension(path: Seq<char>, ext: Seq<char>) -> Seq<char> {
    path.take(stem_end(path)) + ext
}

/// The parts of a path are in order and within it.
pub proof fn lemma_path_parts(path: Seq<char>)
    ensures
        0 <= name_start(path) <= stem_end(path) <= path.len(),
        path.take(stem_end(path)) == directory(path) + file_stem(path),
{
    lemma_last_index_of(path, '/');
    lemma_last_index_of(path, '.');
    assert(path.take(stem_end(path)) =~= directory(path) + file_stem(path));
}

/// Replaces the extension of the file that `path` names by `ext`, keeping its
/// directory and its stem.
pub fn replace_extension(path: &str, ext: &str) -> (r: String)
    ensures
        r@ == with_extension(path@, ext@),
        r@ == directory(path@) + file_stem(path@) + ext@,
{
    let chars = chars_of(path);
    proof {
        lemma_last_index_of(path@, '/');
        lemma_last_index_of(path@, '.');
    }
    let start: usize = match find_last(&chars, '/') {
        Some(i) => i + 1,
        None => 0,
    };
    let end: usize = match find_last(&chars, '.') {
        Some(d) => if d > start {
            d
        } else {
            chars.len()
        },
        None => chars.len(),
    };
    proof {
        lemma_path_parts(path@);
    }
    let mut out = string_of(&chars, 0, end);
    out.append(ext);
    out
}

/// Swapping the extension keeps the directory and the stem: the new path
/// names a file in the same directory, with the same non-empty stem, and ends
/// in the new extension.
pub proof fn lemma_extension_swap_keeps_stem(path: Seq<char>, ext: Seq<char>)
    requires
        file_stem(path).len() > 0,
        is_extension(ext),
    ensures
        directory(with_extension(path, ext)) == directory(path),
        file_stem(with_extension(path, ext)) == file_stem(path),
        with_extension(path, ext) == directory(path) + file_stem(path) + ext,
{
    lemma_path_parts(path);
    lemma_last_index_of(path, '/');
    lemma_last_index_of(path, '.');
    let end = stem_end(path);
    let start = name_start(path);
    let swapped = with_extension(path, ext);
    assert(swapped.len() == end + ext.len());
    assert forall|i: int| 0 <= i < swapped.len() implies swapped[i] == (if i < end {
        path[i]
    } else {
        ext[i - end]
    }) by {}
    lemma_last_index_of_is(swapped, '/', start - 1);
    lemma_last_index_of_is(swapped, '.', end);
    assert(directory(swapped) =~= directory(path));
    assert(file_stem(swapped) =~= file_stem(path));
}

/// The destination of a download keeps the directory and the stem of the
/// path that was asked for, whatever the content type: only the extension is
/// the table's. This holds of every path whose file name has a stem.
pub proof fn lemma_destination_keeps_stem(path: Seq<char>, content_type: Option<Seq<char>>)
    requires
        file_stem(path).len() > 0,
    ensures
        directory(with_extension(path, extension_of(content_type))) == directory(path),
        file_stem(with_extension(path, extension_of(content_type))) == file_stem(path),
        with_extension(path, extension_of(content_type)) == directory(path) + file_stem(path)
            + extension_of(content_type),
{
    lemma_extension_shape(content_type);
    lemma_extension_swap_keeps_stem(path, extension_of(content_type));
}

/// `name` placed in the directory `dir`: a `/` goes between them unless `dir`
/// is empty or already ends in one, and a `name` that starts with `/` stands
/// alone.
pub open spec fn joined(dir: Seq<char>, name: Seq<char>) -> Seq<char> {
    if name.len() > 0 && name[0] == '/' {
        name
    } else if dir.len() == 0 || dir.last() == '/' {
        dir + name
    } else {
        dir.push('/') + name
    }
}

/// The file name that a video title gives: the title up to its first `#`,
/// without the white space around it.
pub open spec fn title_name(title: Seq<char>) -> Seq<char> {
    trimmed(title.take(first_index_of(title, '#')))
}

/// Where the video titled `title` is saved below `dir`.
pub open spec fn save_path_of(dir: Seq<char>, title: Seq<char>) -> Seq<char> {
    joined(dir, title_name(title)) + ".mp4"@
}

/// The path at which the video titled `video_title` is saved below
/// `save_dir`: the title up to its first `#`, trimmed, with `.mp4` behind it.
pub fn get_save_path(save_dir: &String, video_title: &String) -> (path: String)
    ensures
        path@ == save_path_of(save_dir@, video_title@),
{
    let title = chars_of(video_title.as_str());
    let cut = find_first(&title, '#');
    proof {
        crate::text::lemma_first_index_of(title@, '#');
    }
    let (from, to) = trim_bounds(&title, 0, cut);
    let name = string_of(&title, from, to);
    assert(name@ == title_name(video_title@));
    let dir = chars_of(save_dir.as_str());
    let mut path = if from < to && title[from] == '/' {
        name
    } else {
        let mut path = save_dir.clone();
        if dir.len() > 0 && dir[dir.len() - 1] != '/' {
            path.push('/');
        }
        path.append(name.as_str());
        path
    };
    path.append(".mp4");
    path
}

} // verus!
