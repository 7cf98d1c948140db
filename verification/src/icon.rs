//! Icons as inline data: MIME types, SVG clean-up and data URIs.
//!
//! The caller finds and reads the icon file; what it read comes in as
//! plain values.

use vstd::prelude::*;
use crate::env::{expand, expand_tokens_with_map, Binding, EnvMap};
use crate::keyed::value_at_key;
use crate::text::{
    ascii_lower, ascii_lower_chars, base_name_chars, chars_of, extension, find_after_last_of,
    find_chars, is_blank, is_blank_str, is_space, is_space_char, join2, join3, lowercase,
    lowercased, matches_at, same_text, string_of, tail_chars, trim_chars, trimmed,
};

verus! {

/// The base64 text of a byte string, as `base64`'s standard engine with
/// padding encodes it.
pub uninterp spec fn base64_standard(bytes: Seq<u8>) -> Seq<char>;

/// Encodes bytes with `base64::engine::general_purpose::STANDARD`. The
/// text is a function of the bytes alone. The length is bounded because
/// the encoder does not return where the encoded length, four characters
/// for every three bytes, overflows or cannot be allocated.
#[verifier::external_body]
fn base64_encode(bytes: &[u8]) -> (r: String)
    requires
        bytes@.len() <= usize::MAX / 8 * 3,
    ensures
        r@ == base64_standard(bytes@),
{
    base64::Engine::encode(&base64::engine::general_purpose::STANDARD, bytes)
}

/// The MIME type for a file extension in lowercase. An extension that is
/// not known counts as PNG.
pub open spec fn mime_of_lower(ext: Seq<char>) -> Seq<char> {
    if ext == "png"@ {
        "image/png"@
    } else if ext == "jpg"@ || ext == "jpeg"@ {
        "image/jpeg"@
    } else if ext == "gif"@ {
        "image/gif"@
    } else if ext == "webp"@ {
        "image/webp"@
    } else if ext == "bmp"@ {
        "image/bmp"@
    } else if ext == "ico"@ {
        "image/x-icon"@
    } else if ext == "tiff"@ || ext == "tif"@ {
        "image/tiff"@
    } else if ext == "svg"@ {
        "image/svg+xml"@
    } else if ext == "avif"@ {
        "image/avif"@
    } else if ext == "heic"@ || ext == "heif"@ {
        "image/heic"@
    } else {
        "image/png"@
    }
}

/// The MIME type for a file extension, in any case.
pub open spec fn mime_of(ext: Seq<char>) -> Seq<char> {
    mime_of_lower(lowercased(ext))
}

/// The MIME type for a file extension. The extension may be in any case;
/// one that is not known counts as PNG.
pub fn get_mime_type_for_extension(extension: &str) -> (r: &'static str)
    ensures
        r@ == mime_of(extension@),
{
    let lower = lowercase(extension);
    mime_type_for_lower(lower.as_str())
}

/// The MIME type for a file extension that is in lowercase. One that is
/// not known counts as PNG.
pub fn mime_type_for_lower(ext: &str) -> (r: &'static str)
    ensures
        r@ == mime_of_lower(ext@),
{
    if same_text(ext, "png") {
        "image/png"
    } else if same_text(ext, "jpg") || same_text(ext, "jpeg") {
        "image/jpeg"
    } else if same_text(ext, "gif") {
        "image/gif"
    } else if same_text(ext, "webp") {
        "image/webp"
    } else if same_text(ext, "bmp") {
        "image/bmp"
    } else if same_text(ext, "ico") {
        "image/x-icon"
    } else if same_text(ext, "tiff") || same_text(ext, "tif") {
        "image/tiff"
    } else if same_text(ext, "svg") {
        "image/svg+xml"
    } else if same_text(ext, "avif") {
        "image/avif"
    } else if same_text(ext, "heic") || same_text(ext, "heif") {
        "image/heic"
    } else {
        "image/png"
    }
}

/// The opening of an SVG element, in lowercase.
pub open spec fn svg_open() -> Seq<char> {
    seq!['<', 's', 'v', 'g']
}

/// Whether a character can follow `<svg` in the opening of the element.
pub open spec fn ends_tag_name(c: char) -> bool {
    is_space(c) || c == '>' || c == '/'
}

/// The index at which the SVG element of a text starts: that of the first
/// `<svg`, in any mix of ASCII cases, if a character that ends a tag name
/// follows it.
pub open spec fn svg_start(text: Seq<char>) -> Option<int> {
    let low = ascii_lower(text);
    if exists|i: int| matches_at(low, svg_open(), i) {
        let first = choose|i: int|
            matches_at(low, svg_open(), i) && forall|j: int|
                0 <= j < i ==> !matches_at(low, svg_open(), j);
        if first + 4 < text.len() && ends_tag_name(low[first + 4]) {
            Some(first)
        } else {
            None
        }
    } else {
        None
    }
}

/// An SVG document reduced to its element: the text without the white
/// space around it and without what stands before the SVG element. A text
/// in which no SVG element is found is only trimmed.
pub open spec fn sanitized_svg(content: Seq<char>) -> Seq<char> {
    let t = trimmed(content);
    match svg_start(t) {
        Some(i) => t.skip(i),
        None => t,
    }
}

/// Reduces an SVG document to its element.
pub fn sanitize_svg_content(svg_content: &str) -> (r: String)
    ensures
        r@ == sanitized_svg(svg_content@),
{
    let all = chars_of(svg_content);
    let t = trim_chars(&all);
    let low = ascii_lower_chars(&t);
    let mut open: Vec<char> = Vec::new();
    open.push('<');
    open.push('s');
    open.push('v');
    open.push('g');
    assert(open@ =~= svg_open());
    match find_chars(&low, &open) {
        Some(i) => {
            proof {
                let first = choose|k: int|
                    matches_at(low@, svg_open(), k) && forall|j: int|
                        0 <= j < k ==> !matches_at(low@, svg_open(), j);
                assert(first == i) by {
                    if first < i {
                        assert(!matches_at(low@, svg_open(), first));
                    }
                    if i < first {
                        assert(!matches_at(low@, svg_open(), i as int));
                    }
                }
            }
            if i + 4 < low.len() && (is_space_char(low[i + 4]) || low[i + 4] == '>' || low[i + 4]
                == '/') {
                let tail = tail_chars(&t, i);
                string_of(&tail)
            } else {
                string_of(&t)
            }
        },
        None => string_of(&t),
    }
}

/// What the caller read at the place of an icon.
#[derive(Debug, PartialEq, Eq)]
pub enum IconContent {
    /// The file could not be read.
    Unreadable,
    /// The file's text.
    Text(String),
    /// The file's bytes.
    Bytes(Vec<u8>),
}

/// The model of an [`IconContent`].
pub ghost enum IconContentModel {
    Unreadable,
    Text(Seq<char>),
    Bytes(Seq<u8>),
}

impl DeepView for IconContent {
    type V = IconContentModel;

    open spec fn deep_view(&self) -> IconContentModel {
        match self {
            IconContent::Unreadable => IconContentModel::Unreadable,
            IconContent::Text(t) => IconContentModel::Text(t@),
            IconContent::Bytes(b) => IconContentModel::Bytes(b@),
        }
    }
}

impl View for IconContent {
    type V = IconContentModel;

    open spec fn view(&self) -> IconContentModel {
        self.deep_view()
    }
}

/// The most bytes that are encoded: longer content counts as unreadable.
pub open spec fn encodable(bytes: Seq<u8>) -> bool {
    bytes.len() <= usize::MAX / 8 * 3
}

/// The data URI of content of the given type whose base64 text is
/// `encoded`.
pub open spec fn data_uri_of(mime: Seq<char>, encoded: Seq<char>) -> Seq<char> {
    "data:"@ + mime + ";base64,"@ + encoded
}

/// The data URI of content of the given type whose base64 text is
/// `encoded`.
pub fn data_uri(mime: &str, encoded: &str) -> (r: String)
    ensures
        r@ == data_uri_of(mime@, encoded@),
{
    let head = join3("data:", mime, ";base64,");
    join2(head.as_str(), encoded)
}

/// The data URI of an SVG document: empty where there is no text or the
/// cleaned text is empty.
pub open spec fn svg_data_uri(content: Option<Seq<char>>) -> Seq<char> {
    match content {
        Some(text) => {
            let clean = sanitized_svg(text);
            let bytes = vstd::utf8::encode_utf8(clean);
            if clean.len() == 0 || !encodable(bytes) {
                Seq::empty()
            } else {
                data_uri_of("image/svg+xml"@, base64_standard(bytes))
            }
        },
        None => Seq::empty(),
    }
}

/// The data URI of an image: empty where there are no bytes.
pub open spec fn image_data_uri(content: Option<Seq<u8>>, ext: Seq<char>) -> Seq<char> {
    match content {
        Some(bytes) => if bytes.len() == 0 || !encodable(bytes) {
            Seq::empty()
        } else {
            data_uri_of(mime_of(ext), base64_standard(bytes))
        },
        None => Seq::empty(),
    }
}

/// The text of what was read, if it is text.
pub open spec fn text_of(content: IconContentModel) -> Option<Seq<char>> {
    match content {
        IconContentModel::Text(t) => Some(t),
        _ => None,
    }
}

/// The bytes of what was read: those of a text are its UTF-8 bytes.
pub open spec fn bytes_of(content: IconContentModel) -> Option<Seq<u8>> {
    match content {
        IconContentModel::Bytes(b) => Some(b),
        IconContentModel::Text(t) => Some(vstd::utf8::encode_utf8(t)),
        IconContentModel::Unreadable => None,
    }
}

/// The data URI of an icon file: that of an SVG document where the
/// extension is `svg`, that of an image for any other extension, and empty
/// where the path has no extension.
pub open spec fn icon_data_uri(path: Seq<char>, content: IconContentModel) -> Seq<char> {
    match extension(path) {
        Some(ext) => if ext == "svg"@ {
            svg_data_uri(text_of(content))
        } else {
            image_data_uri(bytes_of(content), ext)
        },
        None => Seq::empty(),
    }
}

/// Turns the text of an SVG file into a data URI. Gives the empty string
/// where there is no text or nothing is left of it.
pub fn load_svg_as_data_uri(content: Option<&str>) -> (r: String)
    ensures
        r@ == svg_data_uri(content.deep_view()),
{
    match content {
        Some(text) => {
            let clean = sanitize_svg_content(text);
            if clean.as_str().is_empty() || clean.as_str().as_bytes().len() > usize::MAX / 8 * 3 {
                String::new()
            } else {
                let encoded = base64_encode(clean.as_str().as_bytes());
                data_uri("image/svg+xml", encoded.as_str())
            }
        },
        None => String::new(),
    }
}

/// Turns the bytes of an image file into a data URI. Gives the empty
/// string where there are no bytes.
pub fn load_image_as_data_uri(content: Option<&[u8]>, extension: &str) -> (r: String)
    ensures
        r@ == image_data_uri(
            match content {
                Some(b) => Some(b@),
                None => None,
            },
            extension@,
        ),
{
    match content {
        Some(bytes) => {
            if bytes.len() == 0 || bytes.len() > usize::MAX / 8 * 3 {
                String::new()
            } else {
                let mime = get_mime_type_for_extension(extension);
                let encoded = base64_encode(bytes);
                data_uri(mime, encoded.as_str())
            }
        },
        None => String::new(),
    }
}

/// The extension of a path, if it has one.
pub fn extension_of(path: &str) -> (r: Option<String>)
    ensures
        r.deep_view() == extension(path@),
{
    let name = base_name_chars(path);
    let d = find_after_last_of(&name, '.', '.');
    if d >= 2 {
        let ext = tail_chars(&name, d);
        Some(string_of(&ext))
    } else {
        None
    }
}

/// Whether an icon file is to be read as text: its extension is `svg`.
pub fn is_svg_path(path: &str) -> (r: bool)
    ensures
        r == (extension(path@) == Some("svg"@)),
{
    match extension_of(path) {
        Some(ext) => same_text(ext.as_str(), "svg"),
        None => false,
    }
}

/// Turns what was read of an icon file into a data URI. Gives the empty
/// string on failure.
pub fn load_icon_data_uri(icon_path: &str, content: &IconContent) -> (r: String)
    ensures
        r@ == icon_data_uri(icon_path@, content@),
{
    match extension_of(icon_path) {
        Some(ext) => {
            if same_text(ext.as_str(), "svg") {
                match content {
                    IconContent::Text(t) => load_svg_as_data_uri(Some(t.as_str())),
                    _ => load_svg_as_data_uri(None),
                }
            } else {
                match content {
                    IconContent::Bytes(b) => load_image_as_data_uri(
                        Some(b.as_slice()),
                        ext.as_str(),
                    ),
                    IconContent::Text(t) => load_image_as_data_uri(
                        Some(t.as_str().as_bytes()),
                        ext.as_str(),
                    ),
                    IconContent::Unreadable => load_image_as_data_uri(None, ext.as_str()),
                }
            }
        },
        None => String::new(),
    }
}

/// Where the file of an icon may be.
#[derive(Debug, PartialEq, Eq)]
pub struct IconLocation {
    /// The icon path with its placeholders expanded: the place of the
    /// file if this is an absolute path.
    pub expanded: String,
    /// The expanded path under the `icons` directory of the root: the
    /// place of the file if the expanded path is relative.
    pub under_icons: String,
}

/// The model of an [`IconLocation`].
pub ghost struct IconLocationModel {
    pub expanded: Seq<char>,
    pub under_icons: Seq<char>,
}

impl DeepView for IconLocation {
    type V = IconLocationModel;

    open spec fn deep_view(&self) -> IconLocationModel {
        IconLocationModel { expanded: self.expanded@, under_icons: self.under_icons@ }
    }
}

impl View for IconLocation {
    type V = IconLocationModel;

    open spec fn view(&self) -> IconLocationModel {
        self.deep_view()
    }
}

/// Where the file of an icon may be: nowhere if the icon path is blank or
/// the system environment has no `VARO_PATH`.
pub open spec fn icon_location(raw: Seq<char>, system: Seq<Binding>) -> Option<IconLocationModel> {
    if is_blank(raw) {
        None
    } else {
        match value_at_key(system, "VARO_PATH"@) {
            Some(root) => Some(
                IconLocationModel {
                    expanded: expand(raw, system),
                    under_icons: root + "/icons/"@ + expand(raw, system),
                },
            ),
            None => None,
        }
    }
}

/// Says where the file of an icon may be. The caller looks at the
/// expanded path if it is absolute, else at the one under `icons`.
pub fn resolve_icon_file_path(raw_icon_path: &str, system: &EnvMap) -> (r: Option<IconLocation>)
    ensures
        r.deep_view() == icon_location(raw_icon_path@, system@),
{
    if is_blank_str(raw_icon_path) {
        return None;
    }
    let expanded = expand_tokens_with_map(raw_icon_path, system);
    match system.get("VARO_PATH") {
        Some(root) => {
            let under_icons = join3(root.as_str(), "/icons/", expanded.as_str());
            Some(IconLocation { expanded, under_icons })
        },
        None => None,
    }
}

/// An icon file as the caller found it.
#[derive(Debug, PartialEq, Eq)]
pub struct IconFile {
    pub path: String,
    pub content: IconContent,
}

/// The model of an [`IconFile`].
pub ghost struct IconFileModel {
    pub path: Seq<char>,
    pub content: IconContentModel,
}

impl DeepView for IconFile {
    type V = IconFileModel;

    open spec fn deep_view(&self) -> IconFileModel {
        IconFileModel { path: self.path@, content: self.content@ }
    }
}

impl View for IconFile {
    type V = IconFileModel;

    open spec fn view(&self) -> IconFileModel {
        self.deep_view()
    }
}

/// The icon of a node as it is embedded: the text of an SVG file as it
/// stands, the bytes of any other file as a data URI whose type is the
/// extension, and nothing where the file has no extension or was not read.
pub open spec fn embedded_icon(file: IconFileModel) -> Seq<char> {
    match extension(file.path) {
        Some(ext) => if ext == "svg"@ {
            match text_of(file.content) {
                Some(t) => t,
                None => Seq::empty(),
            }
        } else {
            match bytes_of(file.content) {
                Some(b) => if encodable(b) {
                    data_uri_of("image/"@ + ext, base64_standard(b))
                } else {
                    Seq::empty()
                },
                None => Seq::empty(),
            }
        },
        None => Seq::empty(),
    }
}

/// Why a node has no icon, if it has none for want of a path, a root or a
/// file.
pub open spec fn icon_warning(
    raw: Seq<char>,
    system: Seq<Binding>,
    found: Option<IconFileModel>,
    node_id: Seq<char>,
) -> Option<Seq<char>> {
    if raw.len() == 0 {
        Some("Node '"@ + node_id + "' missing optional 'icon' field"@)
    } else if value_at_key(system, "VARO_PATH"@) is None {
        Some("Node '"@ + node_id + "': VARO_PATH not set"@)
    } else if found is None {
        Some("Node '"@ + node_id + "' icon file missing: "@ + expand(raw, system))
    } else {
        None
    }
}

/// The icon of a node, given what the caller found at its place.
pub open spec fn resolved_icon(
    raw: Seq<char>,
    system: Seq<Binding>,
    found: Option<IconFileModel>,
    node_id: Seq<char>,
) -> Seq<char> {
    if icon_warning(raw, system, found, node_id) is Some {
        Seq::empty()
    } else {
        embedded_icon(found->0)
    }
}

/// Embeds the icon of a node, or adds a warning that says why there is
/// none.
pub fn resolve_icon_path(
    raw_icon_path: &str,
    system: &EnvMap,
    found: Option<&IconFile>,
    warnings: &mut Vec<String>,
    node_id: &str,
) -> (r: String)
    ensures
        r@ == resolved_icon(raw_icon_path@, system@, found.deep_view(), node_id@),
        final(warnings).deep_view() == match icon_warning(
            raw_icon_path@,
            system@,
            found.deep_view(),
            node_id@,
        ) {
            Some(w) => old(warnings).deep_view().push(w),
            None => old(warnings).deep_view(),
        },
{
    let ghost before = warnings.deep_view();
    if raw_icon_path.is_empty() {
        let w = join3("Node '", node_id, "' missing optional 'icon' field");
        warnings.push(w);
        assert(warnings.deep_view() =~= before.push(w@));
        return String::new();
    }
    if system.get("VARO_PATH").is_none() {
        let w = join3("Node '", node_id, "': VARO_PATH not set");
        warnings.push(w);
        assert(warnings.deep_view() =~= before.push(w@));
        return String::new();
    }
    let file = match found {
        Some(f) => f,
        None => {
            let expanded = expand_tokens_with_map(raw_icon_path, system);
            let head = join3("Node '", node_id, "' icon file missing: ");
            let w = join2(head.as_str(), expanded.as_str());
            warnings.push(w);
            assert(warnings.deep_view() =~= before.push(w@));
            return String::new();
        },
    };
    let ext = match extension_of(file.path.as_str()) {
        Some(e) => e,
        None => {
            return String::new();
        },
    };
    if same_text(ext.as_str(), "svg") {
        match &file.content {
            IconContent::Text(t) => t.clone(),
            _ => String::new(),
        }
    } else {
        match &file.content {
            IconContent::Bytes(b) => embed_bytes(b.as_slice(), ext.as_str()),
            IconContent::Text(t) => embed_bytes(t.as_str().as_bytes(), ext.as_str()),
            IconContent::Unreadable => String::new(),
        }
    }
}

/// The data URI of bytes whose type is the extension.
fn embed_bytes(bytes: &[u8], ext: &str) -> (r: String)
    ensures
        r@ == if encodable(bytes@) {
            data_uri_of("image/"@ + ext@, base64_standard(bytes@))
        } else {
            Seq::empty()
        },
{
    if bytes.len() > usize::MAX / 8 * 3 {
        String::new()
    } else {
        let encoded = base64_encode(bytes);
        let mime = join2("image/", ext);
        data_uri(mime.as_str(), encoded.as_str())
    }
}

} // verus!
