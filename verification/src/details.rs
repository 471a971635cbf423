//! What the preview and details panels show of an object: its type, its
//! size, the rows of the details panel and which pane the preview shows.

use vstd::prelude::*;
use crate::format::{
    display_name, display_name_of, format_integer_grouped, format_size, format_size_spec,
    format_time, group_thousands, local_text_of, millis_in_date_range, minutes_text_shape,
};
use crate::model::{CloudObject, PreviewKind};
use crate::preview::{lower_extension_of, preview_kind, preview_kind_of, syntax_language, syntax_language_of};
use crate::text::{decimal, push_str, signed_decimal, string_from};

verus! {

/// The optional text as a sequence.
pub open spec fn opt_seq(o: Option<String>) -> Option<Seq<char>> {
    match o {
        Some(s) => Some(s@),
        None => None,
    }
}

/// The file type shown in the preview: the object's MIME type, else one
/// guessed from how it is previewed.
pub open spec fn preview_file_type_of(key: Seq<char>, mime: Option<Seq<char>>, exts: Seq<&str>) -> Seq<char> {
    match mime {
        Some(m) => m,
        None => match preview_kind_of(key, exts) {
            PreviewKind::Image => "image/*"@,
            PreviewKind::Text => "text/"@ + syntax_language_of(lower_extension_of(key)),
            PreviewKind::System => "未知类型"@,
        },
    }
}

/// The file type of `object` in the preview (see `preview_file_type_of`).
pub fn preview_file_type(object: &CloudObject, image_extensions: &[&str]) -> (r: String)
    ensures
        r@ == preview_file_type_of(object.key@, opt_seq(object.mime_type), image_extensions@),
{
    match &object.mime_type {
        Some(m) => string_from(m.as_str()),
        None => match preview_kind(object.key.as_str(), image_extensions) {
            PreviewKind::Image => string_from("image/*"),
            PreviewKind::Text => {
                let mut t = string_from("text/");
                push_str(&mut t, syntax_language(object.key.as_str()));
                t
            },
            PreviewKind::System => string_from("未知类型"),
        },
    }
}

/// A size with its exact byte count: `{size} ({grouped bytes} B)`.
pub open spec fn size_with_bytes_of(size: nat) -> Seq<char> {
    format_size_spec(size) + " ("@ + group_thousands(decimal(size)) + " B)"@
}

/// The size line of the preview (see `size_with_bytes_of`).
pub fn size_with_bytes(size: u64) -> (r: String)
    ensures
        r@ == size_with_bytes_of(size as nat),
{
    let mut r = format_size(size);
    push_str(&mut r, " (");
    let g = format_integer_grouped(size);
    push_str(&mut r, g.as_str());
    push_str(&mut r, " B)");
    r
}

/// One row of the details panel: label, value, and whether the value is
/// set in a monospaced face.
pub struct DetailRow {
    pub label: String,
    pub value: String,
    pub mono: bool,
}

/// The view of a details row.
pub open spec fn detail_row_view(r: DetailRow) -> (Seq<char>, Seq<char>, bool) {
    (r.label@, r.value@, r.mono)
}

/// The rows of the details panel of an object, its upload time shown as
/// `time_text`: name, key, size, file type (`未知类型` without a MIME
/// type), ETag (`-` without one), upload time.
pub open spec fn details_rows_of(
    key: Seq<char>,
    size: nat,
    mime: Option<Seq<char>>,
    etag: Option<Seq<char>>,
    time_text: Seq<char>,
) -> Seq<(Seq<char>, Seq<char>, bool)> {
    seq![
        ("名称"@, display_name_of(key), false),
        ("Key"@, key, true),
        ("大小"@, format_size_spec(size), false),
        ("文件类型"@, match mime {
            Some(m) => m,
            None => "未知类型"@,
        }, false),
        ("ETag"@, match etag {
            Some(e) => e,
            None => "-"@,
        }, true),
        ("上传时间"@, time_text, false),
    ]
}

/// The rows of the details panel, given the upload time as text (see
/// `details_rows_of`).
pub fn object_details_rows_from(object: &CloudObject, time_text: &str) -> (r: Vec<DetailRow>)
    ensures
        r@.map_values(|d: DetailRow| detail_row_view(d)) == details_rows_of(
            object.key@,
            object.size as nat,
            opt_seq(object.mime_type),
            opt_seq(object.etag),
            time_text@,
        ),
{
    let mut rows: Vec<DetailRow> = Vec::new();
    rows.push(DetailRow { label: string_from("名称"), value: string_from(display_name(object.key.as_str())), mono: false });
    rows.push(DetailRow { label: string_from("Key"), value: string_from(object.key.as_str()), mono: true });
    rows.push(DetailRow { label: string_from("大小"), value: format_size(object.size), mono: false });
    let file_type = match &object.mime_type {
        Some(m) => string_from(m.as_str()),
        None => string_from("未知类型"),
    };
    rows.push(DetailRow { label: string_from("文件类型"), value: file_type, mono: false });
    let etag = match &object.etag {
        Some(e) => string_from(e.as_str()),
        None => string_from("-"),
    };
    rows.push(DetailRow { label: string_from("ETag"), value: etag, mono: true });
    rows.push(DetailRow { label: string_from("上传时间"), value: string_from(time_text), mono: false });
    assert(rows@.map_values(|d: DetailRow| detail_row_view(d)) =~= details_rows_of(
        object.key@,
        object.size as nat,
        opt_seq(object.mime_type),
        opt_seq(object.etag),
        time_text@,
    ));
    rows
}

/// The rows of the details panel, the upload time in local time (see
/// `format_time`): the rows of `details_rows_of` for the time text that
/// `format_time` gives: a local `YYYY-MM-DD HH:MM` for a time in range, the
/// number itself otherwise.
pub fn object_details_rows(object: &CloudObject) -> (r: Vec<DetailRow>)
    ensures
        r@.len() == 6,
        r@.subrange(0, 5).map_values(|d: DetailRow| detail_row_view(d)) == details_rows_of(
            object.key@,
            object.size as nat,
            opt_seq(object.mime_type),
            opt_seq(object.etag),
            r@[5].value@,
        ).subrange(0, 5),
        detail_row_view(r@[5]) == ("上传时间"@, r@[5].value@, false),
        millis_in_date_range(object.put_time_millis) ==> minutes_text_shape(r@[5].value@)
            && local_text_of(object.put_time_millis, r@[5].value@),
        !millis_in_date_range(object.put_time_millis) ==> r@[5].value@ == signed_decimal(
            object.put_time_millis as int,
        ),
{
    let t = format_time(object.put_time_millis);
    let rows = object_details_rows_from(object, t.as_str());
    proof {
        let v = rows@.map_values(|d: DetailRow| detail_row_view(d));
        assert(v.len() == 6);
        assert(v[5] == detail_row_view(rows@[5]));
        assert(rows@[5].value@ == t@);
        assert(rows@.subrange(0, 5).map_values(|d: DetailRow| detail_row_view(d)) =~= v.subrange(0, 5));
    }
    rows
}

/// What the preview pane shows.
pub enum PreviewPane {
    /// The download is running.
    Preparing,
    /// The preview failed with this message.
    Failed(String),
    /// The text editor, with its caption.
    Editor(String),
    /// The text, read only, with its caption.
    Text(String),
    /// The image (its local file once downloaded).
    Image,
    /// No in-app preview: the hint to use the system viewer.
    Unsupported,
}

/// The pane of the preview: preparing while downloading; else the error
/// notice, if the current notice is one; else the editor, the text, the
/// image, or the hint that there is no in-app preview. The captions name
/// the syntax language, with `可编辑文本` for the editor and `UTF-8` for
/// read-only text.
pub fn preview_pane(
    object_key: &str,
    image_extensions: &[&str],
    previewing: bool,
    error_notice: Option<&str>,
    editing: bool,
    has_text: bool,
) -> (r: PreviewPane)
    ensures
        previewing ==> r is Preparing,
        !previewing && error_notice is Some ==> (r matches PreviewPane::Failed(m) && m@ == error_notice->0@),
        !previewing && error_notice is None && editing ==> (r matches PreviewPane::Editor(c) && c@
            == syntax_language_of(lower_extension_of(object_key@)) + " · 可编辑文本"@),
        !previewing && error_notice is None && !editing && has_text ==> (r matches PreviewPane::Text(c)
            && c@ == syntax_language_of(lower_extension_of(object_key@)) + " · UTF-8"@),
        !previewing && error_notice is None && !editing && !has_text ==> (if preview_kind_of(
            object_key@,
            image_extensions@,
        ) == PreviewKind::Image {
            r is Image
        } else {
            r is Unsupported
        }),
{
    if previewing {
        return PreviewPane::Preparing;
    }
    match error_notice {
        Some(m) => return PreviewPane::Failed(string_from(m)),
        None => {},
    }
    if editing {
        let mut c = string_from(syntax_language(object_key));
        push_str(&mut c, " · 可编辑文本");
        return PreviewPane::Editor(c);
    }
    if has_text {
        let mut c = string_from(syntax_language(object_key));
        push_str(&mut c, " · UTF-8");
        return PreviewPane::Text(c);
    }
    match preview_kind(object_key, image_extensions) {
        PreviewKind::Image => PreviewPane::Image,
        _ => PreviewPane::Unsupported,
    }
}

/// The system viewer can be offered: an object without in-app preview
/// whose local copy is downloaded.
pub fn can_open_system_viewer(object_key: &str, image_extensions: &[&str], has_local_copy: bool) -> (b: bool)
    ensures
        b == (preview_kind_of(object_key@, image_extensions@) == PreviewKind::System && has_local_copy),
{
    match preview_kind(object_key, image_extensions) {
        PreviewKind::System => has_local_copy,
        _ => false,
    }
}

} // verus!
