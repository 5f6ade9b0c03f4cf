//! Texts and classes for showing an entry: its size for a reader, its
//! name cut to a width, and the class of file that its extension names.

use vstd::prelude::*;
use crate::models::{EntryKind, FileDetail, KindView};
use crate::text::{decimal, last_dot, push_char, push_decimal, to_chars};

verus! {

/// The quotient `size / unit` in tenths, rounded to the nearest tenth and
/// on a tie to the even one.
pub open spec fn tenths(size: nat, unit: nat) -> nat {
    let q = size * 10 / unit;
    let r = size * 10 % unit;
    if 2 * r > unit || (2 * r == unit && q % 2 == 1) {
        q + 1
    } else {
        q
    }
}

/// A size in a unit with one decimal: `1.5 KB`.
pub open spec fn scaled_text(size: nat, unit: nat, suffix: Seq<char>) -> Seq<char> {
    decimal(tenths(size, unit) / 10) + seq!['.'] + decimal(tenths(size, unit) % 10) + suffix
}

/// A size for a reader: bytes below 1024, else the largest of KB, MB and
/// GB that the size reaches, with one decimal.
pub open spec fn size_text(size: u64) -> Seq<char> {
    if size < 1024 {
        decimal(size as nat) + " B"@
    } else if size < 1024 * 1024 {
        scaled_text(size as nat, 1024, " KB"@)
    } else if size < 1024 * 1024 * 1024 {
        scaled_text(size as nat, 1024 * 1024, " MB"@)
    } else {
        scaled_text(size as nat, 1024 * 1024 * 1024, " GB"@)
    }
}

/// Writes a size in a unit with one decimal.
fn scaled(size: u64, unit: u64, suffix: &str) -> (r: String)
    requires
        unit == 1024 || unit == 1024 * 1024 || unit == 1024 * 1024 * 1024,
    ensures
        r@ == scaled_text(size as nat, unit as nat, suffix@),
{
    let wide: u128 = size as u128 * 10;
    let q: u128 = wide / (unit as u128);
    let r: u128 = wide % (unit as u128);
    let t: u128 = if 2 * r > unit as u128 || (2 * r == unit as u128 && q % 2 == 1) {
        q + 1
    } else {
        q
    };
    assert(t == tenths(size as nat, unit as nat));
    let mut s = String::new();
    push_decimal(&mut s, (t / 10) as u64);
    push_char(&mut s, '.');
    push_decimal(&mut s, (t % 10) as u64);
    s.append(suffix);
    proof {
        assert(s@ =~= scaled_text(size as nat, unit as nat, suffix@));
    }
    s
}

/// Writes a size for a reader.
pub fn format_size(size: u64) -> (r: String)
    ensures
        r@ == size_text(size),
{
    if size < 1024 {
        let mut s = String::new();
        push_decimal(&mut s, size);
        s.append(" B");
        proof {
            assert(s@ =~= decimal(size as nat) + " B"@);
        }
        s
    } else if size < 1024 * 1024 {
        scaled(size, 1024, " KB")
    } else if size < 1024 * 1024 * 1024 {
        scaled(size, 1024 * 1024, " MB")
    } else {
        scaled(size, 1024 * 1024 * 1024, " GB")
    }
}

/// The size that a listing shows for an entry: nothing for a directory,
/// the size for a reader for a file.
pub open spec fn size_label_text(kind: KindView, size: u64) -> Seq<char> {
    if kind is Directory {
        Seq::empty()
    } else {
        size_text(size)
    }
}

/// Writes the size that a listing shows for an entry.
pub fn format_file_size(data: &FileDetail) -> (r: String)
    ensures
        r@ == size_label_text(data@.kind, data@.size),
{
    if data.kind.is_directory() {
        String::new()
    } else {
        format_size(data.size)
    }
}

/// The three dots that stand for what was cut.
pub open spec fn dots() -> Seq<char> {
    seq!['.', '.', '.']
}

/// The difference `a - b`, or zero where `b` is the larger.
pub open spec fn minus(a: int, b: int) -> int {
    if a >= b {
        a - b
    } else {
        0
    }
}

/// A file name cut to about `max` characters.
///
/// A name of at most `max` characters stays whole. A longer one with
/// more than five characters before its last dot, and fewer than ten
/// from that dot on, keeps this ending: its first `max - ending - 3`
/// characters, three dots, the ending. Any other keeps its first
/// `max - 3` characters, followed by three dots. Where `max` is too
/// small for the subtraction, nothing of the front is kept.
pub open spec fn truncated(name: Seq<char>, max: int) -> Seq<char> {
    let k = last_dot(name);
    if name.len() <= max {
        name
    } else if k > 5 && name.len() - k < 10 {
        name.take(minus(minus(max, name.len() - k), 3)) + dots() + name.skip(k)
    } else {
        name.take(minus(max, 3)) + dots()
    }
}

/// Appends the characters of `chars` from `from` up to `to`.
fn push_range(s: &mut String, chars: &Vec<char>, from: usize, to: usize)
    requires
        from <= to <= chars.len(),
    ensures
        final(s)@ == old(s)@ + chars@.subrange(from as int, to as int),
{
    let mut i: usize = from;
    proof {
        assert(s@ =~= old(s)@ + chars@.subrange(from as int, from as int));
    }
    while i < to
        invariant
            from <= i <= to <= chars.len(),
            s@ == old(s)@ + chars@.subrange(from as int, i as int),
        decreases to - i,
    {
        push_char(s, chars[i]);
        proof {
            assert(chars@.subrange(from as int, i as int + 1) =~= chars@.subrange(
                from as int,
                i as int,
            ).push(chars@[i as int]));
            assert(s@ =~= old(s)@ + chars@.subrange(from as int, i as int + 1));
        }
        i += 1;
    }
}

/// Cuts a file name to about `max_length` characters.
pub fn truncate_filename(filename: &str, max_length: usize) -> (r: String)
    ensures
        r@ == truncated(filename@, max_length as int),
{
    let chars = to_chars(filename);
    let n: usize = chars.len();
    if n <= max_length {
        return filename.to_string();
    }
    let mut k: usize = n;
    proof {
        assert(chars@.take(n as int) =~= chars@);
    }
    while k > 0 && chars[k - 1] != '.'
        invariant
            k <= n,
            n == chars.len(),
            last_dot(chars@) == last_dot(chars@.take(k as int)),
        decreases k,
    {
        proof {
            assert(chars@.take(k as int).drop_last() =~= chars@.take(k as int - 1));
        }
        k -= 1;
    }
    proof {
        if k > 0 {
            assert(chars@.take(k as int).last() == '.');
        }
    }
    let mut out = String::new();
    if k > 6 && n - (k - 1) < 10 {
        let ending: usize = n - (k - 1);
        let after_ending: usize = if max_length >= ending {
            max_length - ending
        } else {
            0
        };
        let keep: usize = if after_ending >= 3 {
            after_ending - 3
        } else {
            0
        };
        push_range(&mut out, &chars, 0, keep);
        out.append("...");
        push_range(&mut out, &chars, k - 1, n);
        proof {
            reveal_strlit("...");
            assert("..."@ =~= dots());
            assert(chars@.subrange(0, keep as int) =~= chars@.take(keep as int));
            assert(chars@.subrange(k as int - 1, n as int) =~= chars@.skip(k as int - 1));
            assert(out@ =~= truncated(filename@, max_length as int));
        }
    } else {
        let keep: usize = if max_length >= 3 {
            max_length - 3
        } else {
            0
        };
        push_range(&mut out, &chars, 0, keep);
        out.append("...");
        proof {
            reveal_strlit("...");
            assert("..."@ =~= dots());
            assert(chars@.subrange(0, keep as int) =~= chars@.take(keep as int));
            assert(out@ =~= truncated(filename@, max_length as int));
        }
    }
    out
}

/// The class of file that an extension names.
#[derive(Debug, Clone, Copy, PartialEq, Eq, Structural)]
pub enum FileCategory {
    Folder,
    Text,
    Image,
    Audio,
    Video,
    Archive,
    Executable,
    Regular,
}

/// Whether `e` is one of the extensions of text and source files.
pub open spec fn is_text_extension(e: Seq<char>) -> bool {
    e == "txt"@ || e == "md"@ || e == "json"@ || e == "xml"@ || e == "html"@ || e == "css"@ || e
        == "js"@ || e == "py"@ || e == "rs"@ || e == "c"@ || e == "cpp"@ || e == "h"@ || e == "hpp"@
        || e == "java"@ || e == "go"@ || e == "php"@ || e == "rb"@
}

/// Whether `e` is one of the extensions of images.
pub open spec fn is_image_extension(e: Seq<char>) -> bool {
    e == "jpg"@ || e == "jpeg"@ || e == "png"@ || e == "gif"@ || e == "bmp"@ || e == "svg"@ || e
        == "ico"@
}

/// Whether `e` is one of the extensions of sound files.
pub open spec fn is_audio_extension(e: Seq<char>) -> bool {
    e == "mp3"@ || e == "wav"@ || e == "flac"@ || e == "ogg"@ || e == "aac"@
}

/// Whether `e` is one of the extensions of films.
pub open spec fn is_video_extension(e: Seq<char>) -> bool {
    e == "mp4"@ || e == "avi"@ || e == "mkv"@ || e == "mov"@ || e == "wmv"@
}

/// Whether `e` is one of the extensions of archives.
pub open spec fn is_archive_extension(e: Seq<char>) -> bool {
    e == "zip"@ || e == "rar"@ || e == "7z"@ || e == "tar"@ || e == "gz"@
}

/// Whether `e` is one of the extensions of programs and their libraries.
pub open spec fn is_executable_extension(e: Seq<char>) -> bool {
    e == "exe"@ || e == "dll"@ || e == "so"@ || e == "dylib"@
}

/// The class of an entry: a folder for a directory, for a file the class
/// that its extension names, and `Regular` for any other file.
pub open spec fn category_of(kind: KindView) -> FileCategory {
    match kind {
        KindView::Directory => FileCategory::Folder,
        KindView::File { extension: None } => FileCategory::Regular,
        KindView::File { extension: Some(e) } => if is_text_extension(e) {
            FileCategory::Text
        } else if is_image_extension(e) {
            FileCategory::Image
        } else if is_audio_extension(e) {
            FileCategory::Audio
        } else if is_video_extension(e) {
            FileCategory::Video
        } else if is_archive_extension(e) {
            FileCategory::Archive
        } else if is_executable_extension(e) {
            FileCategory::Executable
        } else {
            FileCategory::Regular
        },
    }
}

/// Whether the characters `chars` spell `word`.
fn spells(chars: &Vec<char>, word: &str) -> (r: bool)
    ensures
        r == (chars@ == word@),
{
    let other = to_chars(word);
    if chars.len() != other.len() {
        return false;
    }
    let mut i: usize = 0;
    while i < chars.len()
        invariant
            i <= chars.len(),
            chars.len() == other.len(),
            other@ == word@,
            forall|j: int| 0 <= j < i ==> chars[j] == other[j],
        decreases chars.len() - i,
    {
        if chars[i] != other[i] {
            return false;
        }
        i += 1;
    }
    assert(chars@ =~= other@);
    true
}

impl EntryKind {
    /// The class of this kind of entry.
    pub fn category(&self) -> (r: FileCategory)
        ensures
            r == category_of(self@),
    {
        match self {
            EntryKind::Directory => FileCategory::Folder,
            EntryKind::File { extension: None } => FileCategory::Regular,
            EntryKind::File { extension: Some(ext) } => {
                let e = to_chars(ext.as_str());
                if spells(&e, "txt") || spells(&e, "md") || spells(&e, "json") || spells(&e, "xml")
                    || spells(&e, "html") || spells(&e, "css") || spells(&e, "js") || spells(
                    &e,
                    "py",
                ) || spells(&e, "rs") || spells(&e, "c") || spells(&e, "cpp") || spells(&e, "h")
                    || spells(&e, "hpp") || spells(&e, "java") || spells(&e, "go") || spells(
                    &e,
                    "php",
                ) || spells(&e, "rb") {
                    FileCategory::Text
                } else if spells(&e, "jpg") || spells(&e, "jpeg") || spells(&e, "png") || spells(
                    &e,
                    "gif",
                ) || spells(&e, "bmp") || spells(&e, "svg") || spells(&e, "ico") {
                    FileCategory::Image
                } else if spells(&e, "mp3") || spells(&e, "wav") || spells(&e, "flac") || spells(
                    &e,
                    "ogg",
                ) || spells(&e, "aac") {
                    FileCategory::Audio
                } else if spells(&e, "mp4") || spells(&e, "avi") || spells(&e, "mkv") || spells(
                    &e,
                    "mov",
                ) || spells(&e, "wmv") {
                    FileCategory::Video
                } else if spells(&e, "zip") || spells(&e, "rar") || spells(&e, "7z") || spells(
                    &e,
                    "tar",
                ) || spells(&e, "gz") {
                    FileCategory::Archive
                } else if spells(&e, "exe") || spells(&e, "dll") || spells(&e, "so") || spells(
                    &e,
                    "dylib",
                ) {
                    FileCategory::Executable
                } else {
                    FileCategory::Regular
                }
            },
        }
    }
}

} // verus!
