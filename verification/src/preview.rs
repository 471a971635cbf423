//! Previewing objects: which preview an object gets, reuse of a cached local
//! copy, the texts of preview errors and the request for a signed URL.

use vstd::prelude::*;
use crate::format::{display_name, display_name_of};
use crate::model::{CloudObject, CopyObjectUrlRequest, DownloadMessage, PreviewKind, ProviderKind};
use crate::text::{
    ascii_lower_seq, chars_contains, chars_ends_with, chars_of, contains_seq, last_index_of,
    lowercase, push_char, push_str, rfind_char, str_eq, string_from, string_of, string_of_range,
    to_lowercase,
};

verus! {

/// URL scheme of a provider's object addresses.
pub open spec fn url_scheme_of(provider: ProviderKind) -> Seq<char> {
    match provider {
        ProviderKind::Aliyun => "oss"@,
        ProviderKind::Qiniu => "kodo"@,
    }
}

/// URL scheme of a provider's object addresses.
pub fn provider_url_scheme(provider: ProviderKind) -> (r: &'static str)
    ensures
        r@ == url_scheme_of(provider),
{
    match provider {
        ProviderKind::Aliyun => "oss",
        ProviderKind::Qiniu => "kodo",
    }
}

// ---------------------------------------------------------------------------
// Cached local copies
// ---------------------------------------------------------------------------

/// What `std::path::Path::file_name` returns for the path `p` on Unix, as
/// text: the last component when it is a name. Trailing `/`s and `.`
/// components are skipped; a path that ends in `..`, is a root, is empty or
/// is only `.` has none.
pub open spec fn path_file_name(p: Seq<char>) -> Option<Seq<char>>
    decreases p.len(),
{
    if p.len() == 0 {
        None
    } else if p.last() == '/' {
        path_file_name(p.drop_last())
    } else {
        let seg = match last_index_of(p, '/') {
            Some(i) => p.subrange(i + 1, p.len() as int),
            None => p,
        };
        if seg == seq!['.'] {
            if seg.len() == p.len() {
                None
            } else {
                path_file_name(p.drop_last())
            }
        } else if seg == seq!['.', '.'] {
            None
        } else {
            Some(seg)
        }
    }
}

/// `Path::file_name`, as text (a component of a UTF-8 path is UTF-8).
#[verifier::external_body]
pub(crate) fn file_name_of(path: &str) -> (r: Option<String>)
    ensures
        match r {
            Some(n) => path_file_name(path@) == Some(n@),
            None => path_file_name(path@) is None,
        },
{
    std::path::Path::new(path).file_name().map(|n| n.to_string_lossy().into_owned())
}

/// A cached file name is a copy of the object named `name`: cache files are
/// named `{nanos}-{display name}`, so the file name ends with the display
/// name and is longer than it.
pub open spec fn cache_name_matches(file_name: Seq<char>, name: Seq<char>) -> bool {
    name.is_suffix_of(file_name) && file_name.len() > name.len()
}

/// Whether the cached file `path` is a copy of `object_key`, given the file
/// name of `path`: no path, an empty key or an empty display name never match.
pub open spec fn cached_copy_spec(path: Option<Seq<char>>, key: Seq<char>, file_name: Option<Seq<char>>) -> bool {
    &&& path is Some
    &&& key.len() > 0
    &&& display_name_of(key).len() > 0
    &&& file_name matches Some(n) && cache_name_matches(n, display_name_of(key))
}

/// Whether a cached file whose name is `file_name` may be reused for
/// `object_key` (the decision once the file name of the path is known).
pub fn cached_name_matches(file_name: Option<&str>, object_key: &str) -> (b: bool)
    ensures
        b == (object_key@.len() > 0 && display_name_of(object_key@).len() > 0 && (
        file_name matches Some(n) && cache_name_matches(n@, display_name_of(object_key@)))),
{
    if object_key.unicode_len() == 0 {
        return false;
    }
    let name = display_name(object_key);
    let nv = chars_of(name);
    if nv.len() == 0 {
        return false;
    }
    match file_name {
        None => false,
        Some(n) => {
            let fv = chars_of(n);
            chars_ends_with(fv.as_slice(), nv.as_slice()) && fv.len() > nv.len()
        },
    }
}

/// Whether the local cache file `path` is a copy of the object `object_key`
/// (a missing path or key is never reused: downloading again beats opening
/// the wrong file).
pub fn cached_copy_matches(path: Option<&str>, object_key: &str) -> (b: bool)
    ensures
        b == cached_copy_spec(
            match path {
                Some(p) => Some(p@),
                None => None,
            },
            object_key@,
            match path {
                Some(p) => path_file_name(p@),
                None => None,
            },
        ),
{
    match path {
        None => false,
        Some(p) => {
            let file_name = file_name_of(p);
            match file_name {
                Some(n) => cached_name_matches(Some(n.as_str()), object_key),
                None => cached_name_matches(None, object_key),
            }
        },
    }
}

/// Name of the cache file a preview downloads to: `{nanos}-{display name}`,
/// `nanos` being the time of the request.
pub open spec fn cache_file_name_of(nanos: nat, key: Seq<char>) -> Seq<char> {
    crate::text::decimal(nanos) + "-"@ + display_name_of(key)
}

/// The cache file name for previewing `object_key` at time `nanos`.
pub fn preview_cache_file_name(nanos: u128, object_key: &str) -> (r: String)
    ensures
        r@ == cache_file_name_of(nanos as nat, object_key@),
{
    let digits = crate::text::decimal_chars_wide(nanos);
    let mut r = crate::text::string_of(digits.as_slice());
    crate::text::push_str(&mut r, "-");
    crate::text::push_str(&mut r, display_name(object_key));
    r
}

/// A file of a preview's cache is reused for the object it was downloaded
/// for: its name is recognised as a copy of that object (given a key with
/// a non-empty display name).
pub proof fn law_preview_cache_file_is_recognised(nanos: nat, key: Seq<char>)
    requires
        display_name_of(key).len() > 0,
    ensures
        cache_name_matches(cache_file_name_of(nanos, key), display_name_of(key)),
{
    let head = crate::text::decimal(nanos) + "-"@;
    let name = display_name_of(key);
    assert(cache_file_name_of(nanos, key) == head + name);
    assert((head + name).subrange(head.len() as int, (head + name).len() as int) =~= name);
    assert(head.len() > 0);
}

/// Largest text object opened in the editor: 2 MiB.
pub const TEXT_PREVIEW_MAX_BYTES: u64 = 2097152;

/// After a preview's download, whether its file is read as text for the
/// editor (`Ok(true)`), left to the system viewer (`Ok(false)`), or
/// refused: a text object larger than `TEXT_PREVIEW_MAX_BYTES`.
pub open spec fn text_preview_plan_of(key: Seq<char>, file_len: nat) -> Result<bool, Seq<char>> {
    if is_text_extension(lower_extension_of(key)) {
        if file_len > TEXT_PREVIEW_MAX_BYTES {
            Err("文本对象超过 2 MiB，暂不在编辑器中打开"@)
        } else {
            Ok(true)
        }
    } else {
        Ok(false)
    }
}

/// How the downloaded preview file of `key`, `file_len` bytes long, is
/// opened (see `text_preview_plan_of`).
pub fn text_preview_plan(key: &str, file_len: u64) -> (r: Result<bool, String>)
    ensures
        match r {
            Ok(b) => text_preview_plan_of(key@, file_len as nat) == Ok::<bool, Seq<char>>(b),
            Err(e) => text_preview_plan_of(key@, file_len as nat) == Err::<bool, Seq<char>>(e@),
        },
{
    if !is_text_object(key) {
        return Ok(false);
    }
    if file_len > TEXT_PREVIEW_MAX_BYTES {
        return Err(crate::text::string_from("文本对象超过 2 MiB，暂不在编辑器中打开"));
    }
    Ok(true)
}

// ---------------------------------------------------------------------------
// Kinds of preview
// ---------------------------------------------------------------------------

/// A directory placeholder object: its key ends with `/`.
pub fn is_directory_object(key: &str) -> (b: bool)
    ensures
        b == (key@.len() > 0 && key@.last() == '/'),
{
    let v = chars_of(key);
    v.len() > 0 && v[v.len() - 1] == '/'
}

/// The piece of `key` after its last `.` (all of it when there is none),
/// as `key.rsplit('.').next()` gives it.
pub open spec fn extension_of(key: Seq<char>) -> Seq<char> {
    match last_index_of(key, '.') {
        Some(i) => key.subrange(i + 1, key.len() as int),
        None => key,
    }
}

/// The ASCII-lowercased extension of `key`.
pub open spec fn lower_extension_of(key: Seq<char>) -> Seq<char> {
    ascii_lower_seq(extension_of(key))
}

/// The ASCII-lowercased extension of `key`.
pub fn lower_extension(key: &str) -> (r: String)
    ensures
        r@ == lower_extension_of(key@),
{
    let v = chars_of(key);
    let ext = match rfind_char(v.as_slice(), v.len(), '.') {
        Some(i) => {
            proof {
                crate::text::lemma_last_index_of(v@, '.');
                assert(v@.subrange(0, v@.len() as int) =~= v@);
            }
            chars_of(string_of_range(v.as_slice(), i + 1, v.len()).as_str())
        },
        None => {
            assert(v@.subrange(0, v@.len() as int) =~= v@);
            v
        },
    };
    let lower = crate::text::ascii_lower_chars(ext.as_slice());
    string_of(lower.as_slice())
}

/// Extensions previewed as text.
pub open spec fn is_text_extension(e: Seq<char>) -> bool {
    ||| e == "txt"@
    ||| e == "json"@
    ||| e == "md"@
    ||| e == "html"@
    ||| e == "htm"@
    ||| e == "css"@
    ||| e == "js"@
    ||| e == "ts"@
    ||| e == "xml"@
    ||| e == "yaml"@
    ||| e == "yml"@
    ||| e == "csv"@
    ||| e == "toml"@
    ||| e == "rs"@
}

/// The object is previewed as text: its extension, ignoring ASCII case, is
/// one of the text extensions.
pub fn is_text_object(key: &str) -> (b: bool)
    ensures
        b == is_text_extension(lower_extension_of(key@)),
{
    let e = lower_extension(key);
    let e = e.as_str();
    str_eq(e, "txt") || str_eq(e, "json") || str_eq(e, "md") || str_eq(e, "html") || str_eq(
        e,
        "htm",
    ) || str_eq(e, "css") || str_eq(e, "js") || str_eq(e, "ts") || str_eq(e, "xml") || str_eq(
        e,
        "yaml",
    ) || str_eq(e, "yml") || str_eq(e, "csv") || str_eq(e, "toml") || str_eq(e, "rs")
}

/// `e` is one of the image extensions `exts`.
pub open spec fn listed_extension(exts: Seq<&str>, e: Seq<char>) -> bool {
    exists|i: int| 0 <= i < exts.len() && (#[trigger] exts[i])@ == e
}

/// Whether `e` is one of `words`.
pub fn listed_in(words: &[&str], e: &str) -> (b: bool)
    ensures
        b == listed_extension(words@, e@),
{
    let mut i: usize = 0;
    while i < words.len()
        invariant
            0 <= i <= words@.len(),
            forall|j: int| 0 <= j < i ==> (#[trigger] words@[j])@ != e@,
        decreases words.len() - i,
    {
        if str_eq(words[i], e) {
            return true;
        }
        i += 1;
    }
    false
}

/// The object is previewed as an image: its extension, ASCII-lowercased,
/// is one of the extensions the image decoder takes (`image_extensions`).
pub fn is_image_object(key: &str, image_extensions: &[&str]) -> (b: bool)
    ensures
        b == listed_extension(image_extensions@, lower_extension_of(key@)),
{
    let e = lower_extension(key);
    listed_in(image_extensions, e.as_str())
}

/// How an object is previewed: text first, then images, else the system
/// viewer.
pub open spec fn preview_kind_of(key: Seq<char>, exts: Seq<&str>) -> PreviewKind {
    if is_text_extension(lower_extension_of(key)) {
        PreviewKind::Text
    } else if listed_extension(exts, lower_extension_of(key)) {
        PreviewKind::Image
    } else {
        PreviewKind::System
    }
}

/// How the object `key` is previewed, given the image extensions.
pub fn preview_kind(key: &str, image_extensions: &[&str]) -> (r: PreviewKind)
    ensures
        r == preview_kind_of(key@, image_extensions@),
{
    if is_text_object(key) {
        PreviewKind::Text
    } else if is_image_object(key, image_extensions) {
        PreviewKind::Image
    } else {
        PreviewKind::System
    }
}

/// Highlighting language of a text preview, by extension.
pub open spec fn syntax_language_of(e: Seq<char>) -> Seq<char> {
    if e == "json"@ {
        "json"@
    } else if e == "js"@ {
        "javascript"@
    } else if e == "ts"@ {
        "typescript"@
    } else if e == "html"@ || e == "htm"@ {
        "html"@
    } else if e == "css"@ {
        "css"@
    } else if e == "md"@ {
        "markdown"@
    } else if e == "xml"@ {
        "xml"@
    } else if e == "yaml"@ || e == "yml"@ {
        "yaml"@
    } else if e == "rs"@ {
        "rust"@
    } else {
        "text"@
    }
}

/// Highlighting language of the text preview of `key`.
pub fn syntax_language(key: &str) -> (r: &'static str)
    ensures
        r@ == syntax_language_of(lower_extension_of(key@)),
{
    let e = lower_extension(key);
    let e = e.as_str();
    if str_eq(e, "json") {
        "json"
    } else if str_eq(e, "js") {
        "javascript"
    } else if str_eq(e, "ts") {
        "typescript"
    } else if str_eq(e, "html") || str_eq(e, "htm") {
        "html"
    } else if str_eq(e, "css") {
        "css"
    } else if str_eq(e, "md") {
        "markdown"
    } else if str_eq(e, "xml") {
        "xml"
    } else if str_eq(e, "yaml") || str_eq(e, "yml") {
        "yaml"
    } else if str_eq(e, "rs") {
        "rust"
    } else {
        "text"
    }
}

// ---------------------------------------------------------------------------
// Error texts
// ---------------------------------------------------------------------------

/// How many characters of a plain remote error are shown.
pub const REMOTE_ERROR_MAX_CHARS: usize = 300;

/// The remote error shown to the user, given the error and its lowercase
/// form: an HTML error page is never shown raw (a 403 page is explained as
/// denied access), and a long plain error is cut to 300 characters and `…`.
pub open spec fn sanitized_error_text(error: Seq<char>, lower: Seq<char>) -> Seq<char> {
    if contains_seq(lower, "<html"@) || contains_seq(lower, "<!doctype"@) || contains_seq(
        lower,
        "403 forbidden"@,
    ) {
        if contains_seq(lower, "403"@) || contains_seq(lower, "forbidden"@) {
            "远端拒绝访问，通常是权限或下载域名配置问题"@
        } else {
            "远端返回错误页面，无法下载对象内容"@
        }
    } else if error.len() > 300 {
        error.take(300).push('…')
    } else {
        error
    }
}

/// The remote error shown to the user, given `lower`, the lowercase form of
/// `error`.
pub fn sanitize_remote_error_from(error: &str, lower: &str) -> (r: String)
    ensures
        r@ == sanitized_error_text(error@, lower@),
{
    let lv = chars_of(lower);
    let html = chars_of("<html");
    let doctype = chars_of("<!doctype");
    let forbidden_page = chars_of("403 forbidden");
    if chars_contains(lv.as_slice(), html.as_slice()) || chars_contains(
        lv.as_slice(),
        doctype.as_slice(),
    ) || chars_contains(lv.as_slice(), forbidden_page.as_slice()) {
        let code = chars_of("403");
        let word = chars_of("forbidden");
        if chars_contains(lv.as_slice(), code.as_slice()) || chars_contains(
            lv.as_slice(),
            word.as_slice(),
        ) {
            return string_from("远端拒绝访问，通常是权限或下载域名配置问题");
        }
        return string_from("远端返回错误页面，无法下载对象内容");
    }
    let ev = chars_of(error);
    if ev.len() > REMOTE_ERROR_MAX_CHARS {
        let mut cut = string_of_range(ev.as_slice(), 0, REMOTE_ERROR_MAX_CHARS);
        push_char(&mut cut, '…');
        assert(ev@.subrange(0, 300) =~= error@.take(300));
        cut
    } else {
        string_from(error)
    }
}

/// The remote error shown to the user (see `sanitized_error_text`).
pub fn sanitize_remote_error(error: &str) -> (r: String)
    ensures
        r@ == sanitized_error_text(error@, lowercase(error@)),
{
    let lower = to_lowercase(error);
    sanitize_remote_error_from(error, lower.as_str())
}

/// The message of a failed preview download: the sanitized error and what
/// to check for each provider.
pub open spec fn preview_error_text(bucket: Seq<char>, key: Seq<char>, sanitized: Seq<char>) -> Seq<char> {
    "无法预览："@ + sanitized + "\n\n请检查：\n1. 当前账号能否读取 `"@ + display_name_of(key)
        + "`；\n2. 七牛：Bucket `"@ + bucket
        + "` 的下载域名是否可用；\n3. 阿里云 OSS：Endpoint/区域和 RAM 权限是否正确。"@
}

/// The message of a failed preview download of `key` from `bucket`.
pub fn preview_download_error_message(bucket: &str, key: &str, error: &str) -> (r: String)
    ensures
        r@ == preview_error_text(bucket@, key@, sanitized_error_text(error@, lowercase(error@))),
{
    let sanitized = sanitize_remote_error(error);
    let mut out = String::new();
    push_str(&mut out, "无法预览：");
    push_str(&mut out, sanitized.as_str());
    push_str(&mut out, "\n\n请检查：\n1. 当前账号能否读取 `");
    push_str(&mut out, display_name(key));
    push_str(&mut out, "`；\n2. 七牛：Bucket `");
    push_str(&mut out, bucket);
    push_str(&mut out, "` 的下载域名是否可用；\n3. 阿里云 OSS：Endpoint/区域和 RAM 权限是否正确。");
    assert(out@ =~= preview_error_text(
        bucket@,
        key@,
        sanitized_error_text(error@, lowercase(error@)),
    ));
    out
}

// ---------------------------------------------------------------------------
// Signed URLs
// ---------------------------------------------------------------------------

/// The request to sign a URL for the selected object, or the notice shown
/// when no object, or no account and bucket, is selected.
pub fn copy_object_url_request(
    account_id: Option<&str>,
    bucket: Option<&str>,
    object: Option<&CloudObject>,
    ttl_secs: u64,
) -> (r: Result<CopyObjectUrlRequest, DownloadMessage>)
    ensures
        object is None ==> (r matches Err(m) && m.is_error && m.text@
            == "请先选中一个对象再复制链接"@),
        object is Some && (account_id is None || bucket is None) ==> (r matches Err(m)
            && m.is_error && m.text@ == "请先选择账号和 Bucket 再复制链接"@),
        object is Some && account_id is Some && bucket is Some ==> (r matches Ok(req)
            && req.account_id@ == account_id.unwrap()@ && req.bucket@ == bucket.unwrap()@
            && req.key@ == object.unwrap().key@ && req.ttl_secs == ttl_secs),
{
    match object {
        None => Err(
            DownloadMessage { is_error: true, text: string_from("请先选中一个对象再复制链接") },
        ),
        Some(o) => match (account_id, bucket) {
            (Some(a), Some(b)) => Ok(
                CopyObjectUrlRequest {
                    account_id: string_from(a),
                    bucket: string_from(b),
                    key: string_from(o.key.as_str()),
                    ttl_secs,
                },
            ),
            _ => Err(
                DownloadMessage {
                    is_error: true,
                    text: string_from("请先选择账号和 Bucket 再复制链接"),
                },
            ),
        },
    }
}


/// Text of the notice after the signed URL reached the clipboard, with
/// the note on clearing it when that is on.
pub open spec fn url_copied_text(clear_secs: nat) -> Seq<char> {
    if clear_secs > 0 {
        "已复制签名链接"@ + "（"@ + crate::text::decimal(clear_secs) + " 秒后自动从剪贴板清除）"@
    } else {
        "已复制签名链接"@
    }
}

/// The notice after copying an object's signed URL, and whether the
/// clipboard is to be cleared after `clear_secs`: a signing failure, else a
/// clipboard failure, is an error notice and clears nothing; otherwise the
/// URL was copied, and it is cleared later when `clear_secs` is positive.
pub fn copy_url_outcome(sign_error: Option<&str>, clipboard_error: Option<&str>, clear_secs: u64) -> (r: (
    DownloadMessage,
    bool,
))
    ensures
        match (sign_error, clipboard_error) {
            (Some(e), _) => r.0.is_error && r.0.text@ == "复制链接失败："@ + e@ && !r.1,
            (None, Some(e)) => r.0.is_error && r.0.text@ == "写入剪贴板失败："@ + e@ && !r.1,
            (None, None) => !r.0.is_error && r.0.text@ == url_copied_text(clear_secs as nat) && r.1 == (
            clear_secs > 0),
        },
{
    match sign_error {
        Some(e) => {
            let mut t = string_from("复制链接失败：");
            push_str(&mut t, e);
            return (DownloadMessage { is_error: true, text: t }, false);
        },
        None => {},
    }
    match clipboard_error {
        Some(e) => {
            let mut t = string_from("写入剪贴板失败：");
            push_str(&mut t, e);
            (DownloadMessage { is_error: true, text: t }, false)
        },
        None => {
            let mut t = string_from("已复制签名链接");
            if clear_secs > 0 {
                push_str(&mut t, "（");
                let n = crate::text::decimal_string(clear_secs);
                push_str(&mut t, n.as_str());
                push_str(&mut t, " 秒后自动从剪贴板清除）");
            }
            (DownloadMessage { is_error: false, text: t }, clear_secs > 0)
        },
    }
}


/// How to get a local copy of the selected object before opening or
/// revealing it.
pub enum LocalCopyStep {
    /// Nothing to do now (no object, a download already running, or no
    /// account or bucket).
    Ignore,
    /// The cached preview file is a copy of the object: use it.
    UseCached,
    /// Download the object into the cache file of this name.
    Download(String),
}

/// The step towards a local copy of `object_key` (the selected object):
/// the cached file `cached_path` when it is a copy of the object; else,
/// unless a download is already running or no account or bucket is
/// selected, a download into the cache file named for time `nanos`.
pub fn local_copy_step(
    object_key: Option<&str>,
    cached_path: Option<&str>,
    previewing: bool,
    has_account: bool,
    has_bucket: bool,
    nanos: u128,
) -> (r: LocalCopyStep)
    ensures
        match object_key {
            None => r is Ignore,
            Some(k) => if cached_copy_spec(
                match cached_path {
                    Some(p) => Some(p@),
                    None => None,
                },
                k@,
                match cached_path {
                    Some(p) => path_file_name(p@),
                    None => None,
                },
            ) {
                r is UseCached
            } else if previewing || !has_account || !has_bucket {
                r is Ignore
            } else {
                r matches LocalCopyStep::Download(n) && n@ == cache_file_name_of(nanos as nat, k@)
            },
        },
{
    let k = match object_key {
        Some(k) => k,
        None => return LocalCopyStep::Ignore,
    };
    if cached_copy_matches(cached_path, k) {
        return LocalCopyStep::UseCached;
    }
    if previewing || !has_account || !has_bucket {
        return LocalCopyStep::Ignore;
    }
    LocalCopyStep::Download(preview_cache_file_name(nanos, k))
}

/// The notice after opening or revealing the local copy at `path`:
/// `revealed` tells revealing in Finder from opening with the default
/// application; an error of the opening is reported instead.
pub fn local_copy_opened_outcome(path: &str, revealed: bool, open_error: Option<&str>) -> (m: DownloadMessage)
    ensures
        match open_error {
            Some(e) => m.is_error && m.text@ == "打开失败："@ + e@,
            None => !m.is_error && m.text@ == (if revealed {
                "已在 Finder 中显示："@
            } else {
                "已用默认应用打开："@
            }) + display_name_of(path@),
        },
{
    match open_error {
        Some(e) => {
            let mut t = string_from("打开失败：");
            push_str(&mut t, e);
            DownloadMessage { is_error: true, text: t }
        },
        None => {
            let mut t = if revealed {
                string_from("已在 Finder 中显示：")
            } else {
                string_from("已用默认应用打开：")
            };
            push_str(&mut t, display_name(path));
            DownloadMessage { is_error: false, text: t }
        },
    }
}


/// The error notice when Quick Look cannot show the local copy.
pub fn quick_look_failure_message(error: &str) -> (m: DownloadMessage)
    ensures
        m.is_error,
        m.text@ == "打开 Quick Look 失败："@ + error@,
{
    let mut text = string_from("打开 Quick Look 失败：");
    push_str(&mut text, error);
    DownloadMessage { is_error: true, text }
}


/// The extension of a key is what follows its last `.`: a key made of any
/// text, a `.`, and a tail without `.` has that tail as its extension.
pub proof fn lemma_extension_after_last_dot(p: Seq<char>, s: Seq<char>)
    requires
        !s.contains('.'),
    ensures
        extension_of(p + seq!['.'] + s) == s,
        lower_extension_of(p + seq!['.'] + s) == ascii_lower_seq(s),
{
    let k = p + seq!['.'] + s;
    assert(k[p.len() as int] == '.');
    assert forall|j: int| p.len() < j < k.len() implies #[trigger] k[j] != '.' by {
        assert(k[j] == s[j - p.len() - 1]);
    }
    crate::text::lemma_last_index_of_unique(k, '.', p.len() as int);
    assert(k.subrange(p.len() as int + 1, k.len() as int) =~= s);
}

/// Every key whose extension, ignoring ASCII case, is one of txt, json, md,
/// html, htm, css, js, ts, xml, yaml, yml, csv, toml or rs is a text
/// object: it previews as text (before any image extension is looked at),
/// `is_text_object` holds, and its downloaded copy opens in the editor
/// unless it is larger than the editor takes.
pub proof fn law_text_extensions_open_in_the_editor(p: Seq<char>, s: Seq<char>, image_extensions: Seq<&str>, file_len: nat)
    requires
        !s.contains('.'),
        ({
            let e = ascii_lower_seq(s);
            ||| e == "txt"@
            ||| e == "json"@
            ||| e == "md"@
            ||| e == "html"@
            ||| e == "htm"@
            ||| e == "css"@
            ||| e == "js"@
            ||| e == "ts"@
            ||| e == "xml"@
            ||| e == "yaml"@
            ||| e == "yml"@
            ||| e == "csv"@
            ||| e == "toml"@
            ||| e == "rs"@
        }),
    ensures
        is_text_extension(lower_extension_of(p + seq!['.'] + s)),
        preview_kind_of(p + seq!['.'] + s, image_extensions) == PreviewKind::Text,
        file_len <= TEXT_PREVIEW_MAX_BYTES ==> text_preview_plan_of(p + seq!['.'] + s, file_len) == Ok::<bool, Seq<char>>(true),
{
    lemma_extension_after_last_dot(p, s);
}

/// Highlighting follows the extension, ignoring ASCII case: json → json,
/// js → javascript, ts → typescript, html and htm → html, css → css,
/// md → markdown, xml → xml, yaml and yml → yaml, rs → rust, and any other
/// extension → text.
pub proof fn law_syntax_follows_the_extension(p: Seq<char>, s: Seq<char>)
    requires
        !s.contains('.'),
    ensures
        ({
            let e = ascii_lower_seq(s);
            let lang = syntax_language_of(lower_extension_of(p + seq!['.'] + s));
            &&& e == "json"@ ==> lang == "json"@
            &&& e == "js"@ ==> lang == "javascript"@
            &&& e == "ts"@ ==> lang == "typescript"@
            &&& (e == "html"@ || e == "htm"@) ==> lang == "html"@
            &&& e == "css"@ ==> lang == "css"@
            &&& e == "md"@ ==> lang == "markdown"@
            &&& e == "xml"@ ==> lang == "xml"@
            &&& (e == "yaml"@ || e == "yml"@) ==> lang == "yaml"@
            &&& e == "rs"@ ==> lang == "rust"@
            &&& !(e == "json"@ || e == "js"@ || e == "ts"@ || e == "html"@ || e == "htm"@ || e == "css"@
                || e == "md"@ || e == "xml"@ || e == "yaml"@ || e == "yml"@ || e == "rs"@) ==> lang == "text"@
        }),
{
    lemma_extension_after_last_dot(p, s);
    reveal_strlit("json");
    reveal_strlit("js");
    reveal_strlit("ts");
    reveal_strlit("html");
    reveal_strlit("htm");
    reveal_strlit("css");
    reveal_strlit("md");
    reveal_strlit("xml");
    reveal_strlit("yaml");
    reveal_strlit("yml");
    reveal_strlit("rs");
    assert("json"@.len() == 4 && "json"@[0] == 'j' && "json"@[1] == 's');
    assert("js"@.len() == 2 && "js"@[0] == 'j' && "js"@[1] == 's');
    assert("ts"@.len() == 2 && "ts"@[0] == 't' && "ts"@[1] == 's');
    assert("html"@.len() == 4 && "html"@[0] == 'h' && "html"@[1] == 't');
    assert("htm"@.len() == 3 && "htm"@[0] == 'h' && "htm"@[1] == 't');
    assert("css"@.len() == 3 && "css"@[0] == 'c' && "css"@[1] == 's');
    assert("md"@.len() == 2 && "md"@[0] == 'm' && "md"@[1] == 'd');
    assert("xml"@.len() == 3 && "xml"@[0] == 'x' && "xml"@[1] == 'm');
    assert("yaml"@.len() == 4 && "yaml"@[0] == 'y' && "yaml"@[1] == 'a');
    assert("yml"@.len() == 3 && "yml"@[0] == 'y' && "yml"@[1] == 'm');
    assert("rs"@.len() == 2 && "rs"@[0] == 'r' && "rs"@[1] == 's');
    let e = ascii_lower_seq(s);
    assert(e == "md"@ ==> e != "json"@ && e != "js"@ && e != "ts"@ && e != "html"@ && e != "htm"@ && e != "css"@);
    assert(e == "xml"@ ==> e != "json"@ && e != "js"@ && e != "ts"@ && e != "html"@ && e != "htm"@ && e != "css"@ && e != "md"@);
    assert(e == "yaml"@ ==> e != "json"@ && e != "js"@ && e != "ts"@ && e != "html"@ && e != "htm"@ && e != "css"@ && e != "md"@ && e != "xml"@);
    assert(e == "yml"@ ==> e != "json"@ && e != "js"@ && e != "ts"@ && e != "html"@ && e != "htm"@ && e != "css"@ && e != "md"@ && e != "xml"@);
    assert(e == "rs"@ ==> e != "json"@ && e != "js"@ && e != "ts"@ && e != "html"@ && e != "htm"@ && e != "css"@ && e != "md"@ && e != "xml"@ && e != "yaml"@ && e != "yml"@);
    assert(e == "js"@ ==> e != "json"@);
    assert(e == "ts"@ ==> e != "json"@ && e != "js"@);
    assert((e == "html"@ || e == "htm"@) ==> e != "json"@ && e != "js"@ && e != "ts"@);
    assert(e == "css"@ ==> e != "json"@ && e != "js"@ && e != "ts"@ && e != "html"@ && e != "htm"@);
}

} // verus!
