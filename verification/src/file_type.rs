//! Row icons by file type: the extension of an object key picks a group.

use vstd::prelude::*;
use crate::preview::{listed_extension, listed_in, lower_extension, lower_extension_of};
use crate::text::{ascii_lower_chars, ascii_lower_seq, chars_of, chars_eq, last_index_of, rfind_char, string_of_range};

verus! {

/// Groups of file types that get their own row icon.
#[derive(Debug, Clone, Copy, PartialEq, Eq, Structural)]
pub enum FileIconKind {
    /// No recognised extension.
    Generic,
    /// Text and Markdown.
    Text,
    /// Code and configuration.
    Code,
    /// Images.
    Image,
    /// Video.
    Video,
    /// Audio.
    Audio,
    /// Archives.
    Archive,
    /// Spreadsheets.
    Spreadsheet,
    /// Fonts.
    Font,
}

pub open spec fn text_icon_exts() -> Seq<&'static str> {
    seq!["txt", "md", "markdown", "log", "rtf"]
}

pub open spec fn code_icon_exts() -> Seq<&'static str> {
    seq![
        "json", "yaml", "yml", "toml", "xml", "html", "htm", "css", "scss", "js", "mjs", "cjs",
        "ts", "tsx", "jsx", "rs", "py", "go", "java", "kt", "swift", "c", "h", "cpp", "hpp", "sh",
        "bash", "zsh", "sql", "php", "rb", "ini", "conf", "env", "properties", "gradle",
        "gitignore", "dockerfile",
    ]
}

pub open spec fn image_icon_exts() -> Seq<&'static str> {
    seq!["png", "jpg", "jpeg", "gif", "webp", "bmp", "svg", "ico", "tiff", "tif", "heic", "avif"]
}

pub open spec fn video_icon_exts() -> Seq<&'static str> {
    seq!["mp4", "mov", "avi", "mkv", "webm", "flv", "wmv", "m4v", "mpeg", "mpg"]
}

pub open spec fn audio_icon_exts() -> Seq<&'static str> {
    seq!["mp3", "wav", "flac", "aac", "ogg", "m4a", "wma", "opus", "aiff"]
}

pub open spec fn archive_icon_exts() -> Seq<&'static str> {
    seq!["zip", "tar", "gz", "tgz", "bz2", "xz", "7z", "rar", "dmg", "iso"]
}

pub open spec fn sheet_icon_exts() -> Seq<&'static str> {
    seq!["csv", "tsv", "xls", "xlsx", "ods"]
}

pub open spec fn font_icon_exts() -> Seq<&'static str> {
    seq!["ttf", "otf", "woff", "woff2", "eot"]
}

/// The group of a (lowercased) extension.
pub open spec fn icon_kind_of_extension(e: Seq<char>) -> FileIconKind {
    if listed_extension(text_icon_exts(), e) {
        FileIconKind::Text
    } else if listed_extension(code_icon_exts(), e) {
        FileIconKind::Code
    } else if listed_extension(image_icon_exts(), e) {
        FileIconKind::Image
    } else if listed_extension(video_icon_exts(), e) {
        FileIconKind::Video
    } else if listed_extension(audio_icon_exts(), e) {
        FileIconKind::Audio
    } else if listed_extension(archive_icon_exts(), e) {
        FileIconKind::Archive
    } else if listed_extension(sheet_icon_exts(), e) {
        FileIconKind::Spreadsheet
    } else if listed_extension(font_icon_exts(), e) {
        FileIconKind::Font
    } else {
        FileIconKind::Generic
    }
}

/// The last `/`-separated segment of a key.
pub open spec fn last_segment(key: Seq<char>) -> Seq<char> {
    match last_index_of(key, '/') {
        Some(i) => key.subrange(i + 1, key.len() as int),
        None => key,
    }
}

/// The icon group of an object key: by the extension of its last segment;
/// a segment without a `.` is generic.
pub open spec fn file_icon_kind_of(key: Seq<char>) -> FileIconKind {
    let name = last_segment(key);
    let ext = lower_extension_of(name);
    if ext == ascii_lower_seq(name) {
        FileIconKind::Generic
    } else {
        icon_kind_of_extension(ext)
    }
}

/// The last `/`-separated segment of `key`.
fn last_segment_string(key: &str) -> (r: String)
    ensures
        r@ == last_segment(key@),
{
    let v = chars_of(key);
    proof {
        assert(v@.subrange(0, v@.len() as int) =~= v@);
    }
    match rfind_char(v.as_slice(), v.len(), '/') {
        Some(i) => {
            proof {
                crate::text::lemma_last_index_of(v@, '/');
            }
            string_of_range(v.as_slice(), i + 1, v.len())
        },
        None => crate::text::string_of(v.as_slice()),
    }
}

/// The group of a lowercased extension.
fn icon_kind_of(e: &str) -> (r: FileIconKind)
    ensures
        r == icon_kind_of_extension(e@),
{
    let text = vec!["txt", "md", "markdown", "log", "rtf"];
    assert(text@ =~= text_icon_exts());
    if listed_in(text.as_slice(), e) {
        return FileIconKind::Text;
    }
    let code = vec![
        "json", "yaml", "yml", "toml", "xml", "html", "htm", "css", "scss", "js", "mjs", "cjs",
        "ts", "tsx", "jsx", "rs", "py", "go", "java", "kt", "swift", "c", "h", "cpp", "hpp", "sh",
        "bash", "zsh", "sql", "php", "rb", "ini", "conf", "env", "properties", "gradle",
        "gitignore", "dockerfile",
    ];
    assert(code@ =~= code_icon_exts());
    if listed_in(code.as_slice(), e) {
        return FileIconKind::Code;
    }
    let image = vec![
        "png", "jpg", "jpeg", "gif", "webp", "bmp", "svg", "ico", "tiff", "tif", "heic", "avif",
    ];
    assert(image@ =~= image_icon_exts());
    if listed_in(image.as_slice(), e) {
        return FileIconKind::Image;
    }
    let video = vec!["mp4", "mov", "avi", "mkv", "webm", "flv", "wmv", "m4v", "mpeg", "mpg"];
    assert(video@ =~= video_icon_exts());
    if listed_in(video.as_slice(), e) {
        return FileIconKind::Video;
    }
    let audio = vec!["mp3", "wav", "flac", "aac", "ogg", "m4a", "wma", "opus", "aiff"];
    assert(audio@ =~= audio_icon_exts());
    if listed_in(audio.as_slice(), e) {
        return FileIconKind::Audio;
    }
    let archive = vec!["zip", "tar", "gz", "tgz", "bz2", "xz", "7z", "rar", "dmg", "iso"];
    assert(archive@ =~= archive_icon_exts());
    if listed_in(archive.as_slice(), e) {
        return FileIconKind::Archive;
    }
    let sheet = vec!["csv", "tsv", "xls", "xlsx", "ods"];
    assert(sheet@ =~= sheet_icon_exts());
    if listed_in(sheet.as_slice(), e) {
        return FileIconKind::Spreadsheet;
    }
    let font = vec!["ttf", "otf", "woff", "woff2", "eot"];
    assert(font@ =~= font_icon_exts());
    if listed_in(font.as_slice(), e) {
        return FileIconKind::Font;
    }
    FileIconKind::Generic
}

/// The icon group of the object `key`.
pub fn file_icon_kind(key: &str) -> (r: FileIconKind)
    ensures
        r == file_icon_kind_of(key@),
{
    let name = last_segment_string(key);
    let ext = lower_extension(name.as_str());
    let nv = chars_of(name.as_str());
    let lower_name = ascii_lower_chars(nv.as_slice());
    let ev = chars_of(ext.as_str());
    if chars_eq(ev.as_slice(), lower_name.as_slice()) {
        return FileIconKind::Generic;
    }
    icon_kind_of(ext.as_str())
}


/// Every key whose last segment ends in `.` and one of png, jpg, jpeg, gif,
/// webp, bmp, svg, ico, tiff, tif, heic or avif (ASCII case ignored) gets
/// the image icon, whatever its directory and stem.
pub proof fn law_image_extensions_get_the_image_icon(p: Seq<char>, s: Seq<char>)
    requires
        !s.contains('.'),
        !s.contains('/'),
        ({
            let e = ascii_lower_seq(s);
            ||| e == "png"@
            ||| e == "jpg"@
            ||| e == "jpeg"@
            ||| e == "gif"@
            ||| e == "webp"@
            ||| e == "bmp"@
            ||| e == "svg"@
            ||| e == "ico"@
            ||| e == "tiff"@
            ||| e == "tif"@
            ||| e == "heic"@
            ||| e == "avif"@
        }),
    ensures
        file_icon_kind_of(p + seq!['.'] + s) == FileIconKind::Image,
{
    let key = p + seq!['.'] + s;
    let tail = seq!['.'] + s;
    assert(key =~= p + tail);
    assert forall|j: int| 0 <= j < tail.len() implies #[trigger] tail[j] != '/' by {
        if j > 0 {
            assert(tail[j] == s[j - 1]);
        }
    }
    crate::text::lemma_last_index_of(key, '/');
    let name = last_segment(key);
    let head = match last_index_of(key, '/') {
        Some(i) => p.subrange(i + 1, p.len() as int),
        None => p,
    };
    match last_index_of(key, '/') {
        Some(i) => {
            if i >= p.len() {
                assert(key[i] == tail[i - p.len()]);
            }
            assert(name =~= head + seq!['.'] + s);
        },
        None => {
            assert(name =~= head + seq!['.'] + s);
        },
    }
    crate::preview::lemma_extension_after_last_dot(head, s);
    let e = ascii_lower_seq(s);
    assert(ascii_lower_seq(name).len() == name.len());
    assert(name.len() > s.len());
    reveal_strlit("txt");
    assert("txt"@ =~= seq!['t', 'x', 't']);
    reveal_strlit("md");
    assert("md"@ =~= seq!['m', 'd']);
    reveal_strlit("markdown");
    assert("markdown"@ =~= seq!['m', 'a', 'r', 'k', 'd', 'o', 'w', 'n']);
    reveal_strlit("log");
    assert("log"@ =~= seq!['l', 'o', 'g']);
    reveal_strlit("rtf");
    assert("rtf"@ =~= seq!['r', 't', 'f']);
    reveal_strlit("json");
    assert("json"@ =~= seq!['j', 's', 'o', 'n']);
    reveal_strlit("yaml");
    assert("yaml"@ =~= seq!['y', 'a', 'm', 'l']);
    reveal_strlit("yml");
    assert("yml"@ =~= seq!['y', 'm', 'l']);
    reveal_strlit("toml");
    assert("toml"@ =~= seq!['t', 'o', 'm', 'l']);
    reveal_strlit("xml");
    assert("xml"@ =~= seq!['x', 'm', 'l']);
    reveal_strlit("html");
    assert("html"@ =~= seq!['h', 't', 'm', 'l']);
    reveal_strlit("htm");
    assert("htm"@ =~= seq!['h', 't', 'm']);
    reveal_strlit("css");
    assert("css"@ =~= seq!['c', 's', 's']);
    reveal_strlit("scss");
    assert("scss"@ =~= seq!['s', 'c', 's', 's']);
    reveal_strlit("js");
    assert("js"@ =~= seq!['j', 's']);
    reveal_strlit("mjs");
    assert("mjs"@ =~= seq!['m', 'j', 's']);
    reveal_strlit("cjs");
    assert("cjs"@ =~= seq!['c', 'j', 's']);
    reveal_strlit("ts");
    assert("ts"@ =~= seq!['t', 's']);
    reveal_strlit("tsx");
    assert("tsx"@ =~= seq!['t', 's', 'x']);
    reveal_strlit("jsx");
    assert("jsx"@ =~= seq!['j', 's', 'x']);
    reveal_strlit("rs");
    assert("rs"@ =~= seq!['r', 's']);
    reveal_strlit("py");
    assert("py"@ =~= seq!['p', 'y']);
    reveal_strlit("go");
    assert("go"@ =~= seq!['g', 'o']);
    reveal_strlit("java");
    assert("java"@ =~= seq!['j', 'a', 'v', 'a']);
    reveal_strlit("kt");
    assert("kt"@ =~= seq!['k', 't']);
    reveal_strlit("swift");
    assert("swift"@ =~= seq!['s', 'w', 'i', 'f', 't']);
    reveal_strlit("c");
    assert("c"@ =~= seq!['c']);
    reveal_strlit("h");
    assert("h"@ =~= seq!['h']);
    reveal_strlit("cpp");
    assert("cpp"@ =~= seq!['c', 'p', 'p']);
    reveal_strlit("hpp");
    assert("hpp"@ =~= seq!['h', 'p', 'p']);
    reveal_strlit("sh");
    assert("sh"@ =~= seq!['s', 'h']);
    reveal_strlit("bash");
    assert("bash"@ =~= seq!['b', 'a', 's', 'h']);
    reveal_strlit("zsh");
    assert("zsh"@ =~= seq!['z', 's', 'h']);
    reveal_strlit("sql");
    assert("sql"@ =~= seq!['s', 'q', 'l']);
    reveal_strlit("php");
    assert("php"@ =~= seq!['p', 'h', 'p']);
    reveal_strlit("rb");
    assert("rb"@ =~= seq!['r', 'b']);
    reveal_strlit("ini");
    assert("ini"@ =~= seq!['i', 'n', 'i']);
    reveal_strlit("conf");
    assert("conf"@ =~= seq!['c', 'o', 'n', 'f']);
    reveal_strlit("env");
    assert("env"@ =~= seq!['e', 'n', 'v']);
    reveal_strlit("properties");
    assert("properties"@ =~= seq!['p', 'r', 'o', 'p', 'e', 'r', 't', 'i', 'e', 's']);
    reveal_strlit("gradle");
    assert("gradle"@ =~= seq!['g', 'r', 'a', 'd', 'l', 'e']);
    reveal_strlit("gitignore");
    assert("gitignore"@ =~= seq!['g', 'i', 't', 'i', 'g', 'n', 'o', 'r', 'e']);
    reveal_strlit("dockerfile");
    assert("dockerfile"@ =~= seq!['d', 'o', 'c', 'k', 'e', 'r', 'f', 'i', 'l', 'e']);
    reveal_strlit("png");
    assert("png"@ =~= seq!['p', 'n', 'g']);
    reveal_strlit("jpg");
    assert("jpg"@ =~= seq!['j', 'p', 'g']);
    reveal_strlit("jpeg");
    assert("jpeg"@ =~= seq!['j', 'p', 'e', 'g']);
    reveal_strlit("gif");
    assert("gif"@ =~= seq!['g', 'i', 'f']);
    reveal_strlit("webp");
    assert("webp"@ =~= seq!['w', 'e', 'b', 'p']);
    reveal_strlit("bmp");
    assert("bmp"@ =~= seq!['b', 'm', 'p']);
    reveal_strlit("svg");
    assert("svg"@ =~= seq!['s', 'v', 'g']);
    reveal_strlit("ico");
    assert("ico"@ =~= seq!['i', 'c', 'o']);
    reveal_strlit("tiff");
    assert("tiff"@ =~= seq!['t', 'i', 'f', 'f']);
    reveal_strlit("tif");
    assert("tif"@ =~= seq!['t', 'i', 'f']);
    reveal_strlit("heic");
    assert("heic"@ =~= seq!['h', 'e', 'i', 'c']);
    reveal_strlit("avif");
    assert("avif"@ =~= seq!['a', 'v', 'i', 'f']);
    assert forall|j: int| 0 <= j < text_icon_exts().len() implies (#[trigger] text_icon_exts()[j])@ != e by {}
    assert forall|j: int| 0 <= j < code_icon_exts().len() implies (#[trigger] code_icon_exts()[j])@ != e by {}
    assert(exists|j: int| 0 <= j < image_icon_exts().len() && (#[trigger] image_icon_exts()[j])@ == e) by {
        let imgs = image_icon_exts();
        assert(imgs[0]@ == "png"@ && imgs[1]@ == "jpg"@ && imgs[2]@ == "jpeg"@ && imgs[3]@ == "gif"@);
        assert(imgs[4]@ == "webp"@ && imgs[5]@ == "bmp"@ && imgs[6]@ == "svg"@ && imgs[7]@ == "ico"@);
        assert(imgs[8]@ == "tiff"@ && imgs[9]@ == "tif"@ && imgs[10]@ == "heic"@ && imgs[11]@ == "avif"@);
    }
}

} // verus!
