//! The format-resolution cascade: decides, from the forced input type, a
//! plugin registry, the file extension and the bytes themselves, which
//! render path an input takes. The order is fixed: forced text first, then
//! plugins in registration order, then the forced image path, then SVG,
//! PDF, office and HTML signatures, and last the auto path, which tries the
//! image decoder and falls back to treating one-line text that names an
//! existing file as a redirect to that file, bounded by a redirect budget.
use vstd::prelude::*;
use vstd::string::StringSliceAdditionalSpecFns;
use vstd::utf8::valid_utf8;

use crate::bitmap::{decoded_image_of, Bitmap};
use crate::color::{hex_digit_val, is_hex_digit};
use crate::plugin::{Plugin, PluginConfig};
use crate::util::{find_byte_from, find_spec, starts_with, trim_ascii, trim_spec};
use crate::{InputType, KvError, RpixContext};

verus! {

/// An external render job the caller must carry out: this crate plans the
/// work, the caller runs the rasterizer, browser, converter or plugin.
#[derive(Debug)]
pub enum RenderJob {
    /// Rasterize SVG bytes.
    Svg(Vec<u8>),
    /// Rasterize PDF bytes at the pages the request selects.
    Pdf(Vec<u8>),
    /// Convert an office document (bytes and extension) to PDF.
    Office(Vec<u8>, String),
    /// Screenshot HTML content, a URL, or a file path.
    Html(Vec<u8>),
    /// Run the registered plugin at an index over the bytes.
    Plugin(usize, Vec<u8>),
}

/// One step of resolving an input: a terminal outcome (text to highlight,
/// or a decoded image), an external job, or a redirect to the file the
/// input names.
#[derive(Debug)]
pub enum RenderStep {
    /// Arbitrary text for the syntax highlighter.
    Data(Vec<u8>),
    /// A decoded image, not yet resized or composited.
    Image(Bitmap),
    /// Work only an external collaborator can do.
    External(RenderJob),
    /// The input was one line of text naming an existing file: resolve that
    /// file instead, with one less redirect left.
    PathRedirect(String),
}

/// The UTF-8 bytes of a string value.
pub open spec fn str_bytes(s: Seq<char>) -> Seq<u8> {
    vstd::utf8::encode_utf8(s)
}

/// Whether a byte sequence is an even-length string of hex digits.
pub open spec fn hex_bytes_ok(s: Seq<u8>) -> bool {
    s.len() % 2 == 0 && forall|i: int| 0 <= i < s.len() ==> is_hex_digit(#[trigger] s[i])
}

/// The bytes an even-length hex-digit string decodes to, high nibble
/// first.
pub open spec fn hex_decoded(s: Seq<u8>) -> Seq<u8> {
    Seq::new((s.len() / 2) as nat, |i: int| (hex_digit_val(s[2 * i]) * 16 + hex_digit_val(s[2 * i + 1])) as u8)
}

/// Relies on hex::decode: an even-length string of hex digits (either
/// case) decodes to its byte pairs, high nibble first; anything else is
/// refused.
#[verifier::external_body]
fn hex_decode(s: &str) -> (r: Option<Vec<u8>>)
    ensures
        match r {
            Some(v) => hex_bytes_ok(s.spec_bytes()) && v@ == hex_decoded(s.spec_bytes()),
            None => !hex_bytes_ok(s.spec_bytes()),
        },
{
    hex::decode(s).ok()
}

/// Whether one configured magic-byte hex signature matches the start of
/// the data.
pub open spec fn magic_matches(data: Seq<u8>, hex_str: Seq<char>) -> bool {
    let hb = str_bytes(hex_str);
    hex_bytes_ok(hb) && hex_decoded(hb).is_prefix_of(data)
}

/// Whether any signature in a list matches the start of the data.
pub open spec fn any_magic(data: Seq<u8>, list: Seq<String>) -> bool {
    exists|i: int| 0 <= i < list.len() && magic_matches(data, #[trigger] list[i]@)
}

/// Whether an extension (as bytes) occurs in a list of extensions.
pub open spec fn ext_in_list(ext: Seq<u8>, exts: Seq<String>) -> bool {
    exists|i: int| 0 <= i < exts.len() && str_bytes(#[trigger] exts[i]@) == ext
}

/// Whether the data carries any of the listed magic-byte signatures, or
/// the extension occurs in the listed extensions. Decodable signatures
/// are tested as byte prefixes of the data; signatures that are not valid
/// hex are skipped.
pub fn has_extension_or_magic_bytes(
    data: &[u8],
    extension: &str,
    magic_hex_list: &[String],
    extensions: &[String],
) -> (r: bool)
    ensures
        r == (any_magic(data@, magic_hex_list@) || ext_in_list(
            extension.spec_bytes(),
            extensions@,
        )),
{
    let mut i: usize = 0;
    while i < magic_hex_list.len()
        invariant
            0 <= i <= magic_hex_list@.len(),
            forall|j: int| 0 <= j < i ==> !magic_matches(data@, #[trigger] magic_hex_list@[j]@),
        decreases magic_hex_list@.len() - i,
    {
        match hex_decode(magic_hex_list[i].as_str()) {
            Some(m) => {
                if starts_with(data, m.as_slice()) {
                    proof {
                        assert(magic_matches(data@, magic_hex_list@[i as int]@));
                    }
                    return true;
                }
            },
            None => {},
        }
        i = i + 1;
    }
    ext_matches(extension, extensions)
}

/// Whether the extension occurs in the list, by byte comparison.
fn ext_matches(extension: &str, extensions: &[String]) -> (r: bool)
    ensures
        r == ext_in_list(extension.spec_bytes(), extensions@),
{
    let mut i: usize = 0;
    while i < extensions.len()
        invariant
            0 <= i <= extensions@.len(),
            forall|j: int|
                0 <= j < i ==> str_bytes(#[trigger] extensions@[j]@) != extension.spec_bytes(),
        decreases extensions@.len() - i,
    {
        if crate::util::bytes_eq(extensions[i].as_str().as_bytes(), extension.as_bytes()) {
            proof {
                assert(str_bytes(extensions@[i as int]@) == extension.spec_bytes());
            }
            return true;
        }
        i = i + 1;
    }
    false
}

/// The `http://`, `https://` and `file://` URL prefixes.
pub open spec fn is_url_spec(s: Seq<u8>) -> bool {
    seq![104u8, 116, 116, 112, 58, 47, 47].is_prefix_of(s) || seq![
        104u8,
        116,
        116,
        112,
        115,
        58,
        47,
        47,
    ].is_prefix_of(s) || seq![102u8, 105, 108, 101, 58, 47, 47].is_prefix_of(s)
}

/// Whether a byte sequence starts like a URL: `http://`, `https://` or
/// `file://`.
pub fn is_url(s: &[u8]) -> (r: bool)
    ensures
        r == is_url_spec(s@),
{
    let http: [u8; 7] = [104, 116, 116, 112, 58, 47, 47];
    let https: [u8; 8] = [104, 116, 116, 112, 115, 58, 47, 47];
    let file: [u8; 7] = [102, 105, 108, 101, 58, 47, 47];
    proof {
        assert(http@ =~= seq![104u8, 116, 116, 112, 58, 47, 47]);
        assert(https@ =~= seq![104u8, 116, 116, 112, 115, 58, 47, 47]);
        assert(file@ =~= seq![102u8, 105, 108, 101, 58, 47, 47]);
    }
    starts_with(s, http.as_slice()) || starts_with(s, https.as_slice()) || starts_with(
        s,
        file.as_slice(),
    )
}

/// Whether a string starts like a URL, by its UTF-8 bytes.
pub fn is_url_str(s: &str) -> (r: bool)
    ensures
        r == is_url_spec(s.spec_bytes()),
{
    is_url(s.as_bytes())
}

/// The byte sequences of the `html` and `htm` extensions.
pub open spec fn html_ext(ext: Seq<u8>) -> bool {
    ext == seq![104u8, 116, 109, 108] || ext == seq![104u8, 116, 109]
}

/// Whether an input is HTML by request, extension or URL shape: the forced
/// HTML input type, an `html`/`htm` extension, or bytes starting like a
/// URL.
pub fn is_html(ctx: &RpixContext, extension: &str, s: &[u8]) -> (r: bool)
    ensures
        r == (ctx.input_type == InputType::Html || html_ext(extension.spec_bytes()) || is_url_spec(
            s@,
        )),
{
    if matches!(ctx.input_type, InputType::Html) {
        return true;
    }
    let html: [u8; 4] = [104, 116, 109, 108];
    let htm: [u8; 3] = [104, 116, 109];
    proof {
        assert(html@ =~= seq![104u8, 116, 109, 108]);
        assert(htm@ =~= seq![104u8, 116, 109]);
    }
    let eb = extension.as_bytes();
    if crate::util::bytes_eq(eb, html.as_slice()) || crate::util::bytes_eq(eb, htm.as_slice()) {
        return true;
    }
    is_url(s)
}

/// The first registered plugin matching the data or extension, or `-1`.
pub open spec fn first_plugin_match(ps: Seq<(String, Plugin)>, data: Seq<u8>, ext: Seq<u8>) -> int
    decreases ps.len(),
{
    if ps.len() == 0 {
        -1
    } else if plugin_matches(ps[0].1, data, ext) {
        0
    } else if first_plugin_match(ps.drop_first(), data, ext) < 0 {
        -1
    } else {
        first_plugin_match(ps.drop_first(), data, ext) + 1
    }
}

/// Whether one plugin claims the input: its extension set holds the
/// extension, or one of its magic signatures starts the data.
pub open spec fn plugin_matches(p: Plugin, data: Seq<u8>, ext: Seq<u8>) -> bool {
    ext_in_list(ext, p.extensions@) || (match p.magic_bytes {
        Some(l) => any_magic(data, l@),
        None => false,
    })
}

/// The fixed decision order of the resolver, before any decoder runs:
/// which path the cascade chooses from the forced type, the registry, the
/// extension and the byte signatures. `Auto` means no rule matched and the
/// image decoder decides.
pub enum PathChoice {
    Text,
    Plugin(usize),
    Image,
    Svg,
    Pdf,
    Office,
    Html,
    Auto,
}

/// The office-document extensions: doc, docx, xls, xlsx, ppt, pptx.
pub open spec fn office_ext(ext: Seq<u8>) -> bool {
    ||| ext == seq![100u8, 111, 99]
    ||| ext == seq![100u8, 111, 99, 120]
    ||| ext == seq![120u8, 108, 115]
    ||| ext == seq![120u8, 108, 115, 120]
    ||| ext == seq![112u8, 112, 116]
    ||| ext == seq![112u8, 112, 116, 120]
}

/// The decision the cascade takes, in its fixed order.
pub open spec fn spec_route(
    ctx: RpixContext,
    ps: Seq<(String, Plugin)>,
    data: Seq<u8>,
    ext: Seq<u8>,
) -> PathChoice {
    if ctx.input_type == InputType::Text {
        PathChoice::Text
    } else if first_plugin_match(ps, data, ext) >= 0 {
        PathChoice::Plugin(first_plugin_match(ps, data, ext) as usize)
    } else if ctx.input_type == InputType::Image {
        PathChoice::Image
    } else if ctx.input_type == InputType::Svg || ext == seq![115u8, 118, 103] || seq![
        60u8,
        115,
        118,
        103,
    ].is_prefix_of(data) || seq![60u8, 63, 120, 109, 108].is_prefix_of(data) {
        PathChoice::Svg
    } else if ctx.input_type == InputType::Pdf || ext == seq![112u8, 100, 102] || seq![
        37u8,
        80,
        68,
        70,
    ].is_prefix_of(data) {
        PathChoice::Pdf
    } else if ctx.input_type == InputType::Office || office_ext(ext) {
        PathChoice::Office
    } else if ctx.input_type == InputType::Html || html_ext(ext) || is_url_spec(data) || seq![
        60u8,
        104,
        116,
        109,
        108,
    ].is_prefix_of(data) || seq![
        60u8,
        33,
        68,
        79,
        67,
        84,
        89,
        80,
        69,
        32,
        104,
        116,
        109,
        108,
    ].is_prefix_of(data) {
        PathChoice::Html
    } else {
        PathChoice::Auto
    }
}

/// Relies on std's Path::is_file; whether the path names an existing
/// regular file depends on the filesystem at the moment of the call.
#[verifier::external_body]
fn path_is_file(p: &str) -> bool {
    std::path::Path::new(p).is_file()
}

/// Relies on std's str::from_utf8: it succeeds exactly on valid UTF-8 and
/// views the same bytes.
#[verifier::external_body]
fn bytes_as_str(data: &[u8]) -> (r: Option<&str>)
    ensures
        match r {
            Some(s) => valid_utf8(data@) && s.spec_bytes() == data@,
            None => !valid_utf8(data@),
        },
{
    std::str::from_utf8(data).ok()
}

/// Resolve an input to its render step, following the cascade of
/// `spec_route` exactly. Forced text always comes back as `Data`,
/// whatever the bytes. A matched plugin comes back as that plugin's job.
/// The forced image path and the auto path decode: success yields the
/// decoded image, and on the auto path a decode failure falls back to
/// text handling — input that is blank after trimming, or not valid
/// UTF-8, is a decode error; text with an embedded newline is data to
/// highlight; a single trimmed line is a redirect to the file it names
/// when one exists and redirects remain, data otherwise, and a decode
/// error when the redirect budget is spent.
pub fn resolve(
    ctx: &RpixContext,
    plugins: &PluginConfig,
    data: &[u8],
    extension: &str,
    redirects_left: u32,
) -> (r: Result<RenderStep, KvError>)
    ensures
        ({
            let route = spec_route(*ctx, plugins.plugins@, data@, extension.spec_bytes());
            let t = trim_spec(data@);
            match route {
                PathChoice::Text => r matches Ok(RenderStep::Data(v)) && v@ == data@,
                PathChoice::Plugin(i) => r matches Ok(
                    RenderStep::External(RenderJob::Plugin(j, v)),
                ) && j == i && v@ == data@,
                PathChoice::Image => match decoded_image_of(data@) {
                    Some(d) => r matches Ok(RenderStep::Image(b)) && d == (
                        b.width,
                        b.height,
                        b.data@,
                    ) && b.wf(),
                    None => r == Err::<RenderStep, KvError>(KvError::DecodeError),
                },
                PathChoice::Svg => r matches Ok(RenderStep::External(RenderJob::Svg(v))) && v@
                    == data@,
                PathChoice::Pdf => r matches Ok(RenderStep::External(RenderJob::Pdf(v))) && v@
                    == data@,
                PathChoice::Office => r matches Ok(
                    RenderStep::External(RenderJob::Office(v, e)),
                ) && v@ == data@ && str_bytes(e@) == extension.spec_bytes(),
                PathChoice::Html => r matches Ok(RenderStep::External(RenderJob::Html(v))) && v@
                    == data@,
                PathChoice::Auto => match decoded_image_of(data@) {
                    Some(d) => r matches Ok(RenderStep::Image(b)) && d == (
                        b.width,
                        b.height,
                        b.data@,
                    ) && b.wf(),
                    None => if t.len() == 0 {
                        r == Err::<RenderStep, KvError>(KvError::DecodeError)
                    } else if !valid_utf8(t) {
                        r == Err::<RenderStep, KvError>(KvError::DecodeError)
                    } else if find_spec(t, 10) >= 0 {
                        r matches Ok(RenderStep::Data(v)) && v@ == data@
                    } else if redirects_left == 0 {
                        r == Err::<RenderStep, KvError>(KvError::DecodeError)
                    } else {
                        (r matches Ok(RenderStep::PathRedirect(p)) && str_bytes(p@) == t) || (
                        r matches Ok(RenderStep::Data(v)) && v@ == data@)
                    },
                },
            }
        }),
{
    if matches!(ctx.input_type, InputType::Text) {
        return Ok(RenderStep::Data(vstd::slice::slice_to_vec(data)));
    }
    let mut i: usize = 0;
    while i < plugins.plugins.len()
        invariant
            0 <= i <= plugins.plugins@.len(),
            ctx.input_type != InputType::Text,
            forall|j: int|
                0 <= j < i ==> !plugin_matches(
                    (#[trigger] plugins.plugins@[j]).1,
                    data@,
                    extension.spec_bytes(),
                ),
        decreases plugins.plugins@.len() - i,
    {
        let p = &plugins.plugins[i].1;
        let matched = match &p.magic_bytes {
            Some(l) => has_extension_or_magic_bytes(
                data,
                extension,
                l.as_slice(),
                p.extensions.as_slice(),
            ),
            None => ext_matches(extension, p.extensions.as_slice()),
        };
        if matched {
            proof {
                lemma_first_plugin_match_at(
                    plugins.plugins@,
                    data@,
                    extension.spec_bytes(),
                    i as int,
                );
            }
            return Ok(RenderStep::External(RenderJob::Plugin(i, vstd::slice::slice_to_vec(data))));
        }
        i = i + 1;
    }
    proof {
        lemma_first_plugin_match_none(plugins.plugins@, data@, extension.spec_bytes());
    }
    if matches!(ctx.input_type, InputType::Image) {
        return match crate::bitmap::decode_image(data) {
            Ok(b) => Ok(RenderStep::Image(b)),
            Err(e) => Err(e),
        };
    }
    let eb = extension.as_bytes();
    let svg_ext_a: [u8; 3] = [115, 118, 103];
    let svg_magic: [u8; 4] = [60, 115, 118, 103];
    let xml_magic: [u8; 5] = [60, 63, 120, 109, 108];
    proof {
        assert(svg_ext_a@ =~= seq![115u8, 118, 103]);
        assert(svg_magic@ =~= seq![60u8, 115, 118, 103]);
        assert(xml_magic@ =~= seq![60u8, 63, 120, 109, 108]);
    }
    if matches!(ctx.input_type, InputType::Svg) || crate::util::bytes_eq(eb, svg_ext_a.as_slice())
        || starts_with(data, svg_magic.as_slice()) || starts_with(data, xml_magic.as_slice()) {
        return Ok(RenderStep::External(RenderJob::Svg(vstd::slice::slice_to_vec(data))));
    }
    let pdf_ext_a: [u8; 3] = [112, 100, 102];
    let pdf_magic: [u8; 4] = [37, 80, 68, 70];
    proof {
        assert(pdf_ext_a@ =~= seq![112u8, 100, 102]);
        assert(pdf_magic@ =~= seq![37u8, 80, 68, 70]);
    }
    if matches!(ctx.input_type, InputType::Pdf) || crate::util::bytes_eq(eb, pdf_ext_a.as_slice())
        || starts_with(data, pdf_magic.as_slice()) {
        return Ok(RenderStep::External(RenderJob::Pdf(vstd::slice::slice_to_vec(data))));
    }
    if matches!(ctx.input_type, InputType::Office) || is_office_ext(eb) {
        let ext_copy = str_to_string(extension);
        return Ok(RenderStep::External(RenderJob::Office(vstd::slice::slice_to_vec(data), ext_copy)));
    }
    let html_magic: [u8; 5] = [60, 104, 116, 109, 108];
    let doctype_magic: [u8; 14] = [60, 33, 68, 79, 67, 84, 89, 80, 69, 32, 104, 116, 109, 108];
    proof {
        assert(html_magic@ =~= seq![60u8, 104, 116, 109, 108]);
        assert(doctype_magic@ =~= seq![
            60u8,
            33,
            68,
            79,
            67,
            84,
            89,
            80,
            69,
            32,
            104,
            116,
            109,
            108,
        ]);
    }
    if is_html(ctx, extension, data) || starts_with(data, html_magic.as_slice()) || starts_with(
        data,
        doctype_magic.as_slice(),
    ) {
        return Ok(RenderStep::External(RenderJob::Html(vstd::slice::slice_to_vec(data))));
    }
    match crate::bitmap::decode_image(data) {
        Ok(b) => Ok(RenderStep::Image(b)),
        Err(_) => {
            let t = trim_ascii(data);
            if t.len() == 0 {
                // truly empty input: nothing decoded it and no path can be
                // read from it
                return Err(KvError::DecodeError);
            }
            match bytes_as_str(t) {
                None => Err(KvError::DecodeError),
                Some(text) => {
                    match find_byte_from(t, 0, 10) {
                        Some(k) => {
                            proof {
                                crate::util::lemma_find_spec_at(t@, 10, k as int);
                            }
                            Ok(RenderStep::Data(vstd::slice::slice_to_vec(data)))
                        },
                        None => {
                            proof {
                                crate::util::lemma_find_spec_none(t@, 10);
                            }
                            if redirects_left == 0 {
                                Err(KvError::DecodeError)
                            } else if path_is_file(text) {
                                Ok(RenderStep::PathRedirect(str_to_string(text)))
                            } else {
                                Ok(RenderStep::Data(vstd::slice::slice_to_vec(data)))
                            }
                        },
                    }
                },
            }
        },
    }
}

/// A plugin match at index `i`, with none earlier, is the first match.
proof fn lemma_first_plugin_match_at(
    ps: Seq<(String, Plugin)>,
    data: Seq<u8>,
    ext: Seq<u8>,
    i: int,
)
    requires
        0 <= i < ps.len(),
        plugin_matches(ps[i].1, data, ext),
        forall|j: int| 0 <= j < i ==> !plugin_matches((#[trigger] ps[j]).1, data, ext),
    ensures
        first_plugin_match(ps, data, ext) == i,
    decreases i,
{
    if i > 0 {
        lemma_first_plugin_match_at(ps.drop_first(), data, ext, i - 1);
    }
}

/// With no matching plugin at all, there is no first match.
proof fn lemma_first_plugin_match_none(ps: Seq<(String, Plugin)>, data: Seq<u8>, ext: Seq<u8>)
    requires
        forall|j: int| 0 <= j < ps.len() ==> !plugin_matches((#[trigger] ps[j]).1, data, ext),
    ensures
        first_plugin_match(ps, data, ext) == -1,
    decreases ps.len(),
{
    if ps.len() > 0 {
        lemma_first_plugin_match_none(ps.drop_first(), data, ext);
    }
}

/// Whether a byte sequence is one of the office-document extensions.
fn is_office_ext(eb: &[u8]) -> (r: bool)
    ensures
        r == office_ext(eb@),
{
    let doc: [u8; 3] = [100, 111, 99];
    let docx: [u8; 4] = [100, 111, 99, 120];
    let xls: [u8; 3] = [120, 108, 115];
    let xlsx: [u8; 4] = [120, 108, 115, 120];
    let ppt: [u8; 3] = [112, 112, 116];
    let pptx: [u8; 4] = [112, 112, 116, 120];
    proof {
        assert(doc@ =~= seq![100u8, 111, 99]);
        assert(docx@ =~= seq![100u8, 111, 99, 120]);
        assert(xls@ =~= seq![120u8, 108, 115]);
        assert(xlsx@ =~= seq![120u8, 108, 115, 120]);
        assert(ppt@ =~= seq![112u8, 112, 116]);
        assert(pptx@ =~= seq![112u8, 112, 116, 120]);
    }
    crate::util::bytes_eq(eb, doc.as_slice()) || crate::util::bytes_eq(eb, docx.as_slice())
        || crate::util::bytes_eq(eb, xls.as_slice()) || crate::util::bytes_eq(eb, xlsx.as_slice())
        || crate::util::bytes_eq(eb, ppt.as_slice()) || crate::util::bytes_eq(eb, pptx.as_slice())
}

/// Copy a string slice into an owned string with the same bytes.
fn str_to_string(s: &str) -> (r: String)
    ensures
        r@ == s@,
        str_bytes(r@) == s.spec_bytes(),
{
    let r = s.to_owned();
    proof {
        assert(r@ == s@);
    }
    r
}

/// Route a plugin's captured output by the plugin's declared output type,
/// never back through plugin matching: SVG, PDF and HTML become those
/// external jobs; any other declared type is decoded as an image, a
/// failure to decode being a decode error.
pub fn route_plugin_output(output: &InputType, bytes: Vec<u8>) -> (r: Result<RenderStep, KvError>)
    ensures
        match *output {
            InputType::Svg => r matches Ok(RenderStep::External(RenderJob::Svg(v))) && v@
                == bytes@,
            InputType::Pdf => r matches Ok(RenderStep::External(RenderJob::Pdf(v))) && v@
                == bytes@,
            InputType::Html => r matches Ok(RenderStep::External(RenderJob::Html(v))) && v@
                == bytes@,
            _ => match decoded_image_of(bytes@) {
                Some(d) => r matches Ok(RenderStep::Image(b)) && d == (
                    b.width,
                    b.height,
                    b.data@,
                ) && b.wf(),
                None => r == Err::<RenderStep, KvError>(KvError::DecodeError),
            },
        },
{
    match output {
        InputType::Svg => Ok(RenderStep::External(RenderJob::Svg(bytes))),
        InputType::Pdf => Ok(RenderStep::External(RenderJob::Pdf(bytes))),
        InputType::Html => Ok(RenderStep::External(RenderJob::Html(bytes))),
        _ => {
            match crate::bitmap::decode_image(bytes.as_slice()) {
                Ok(b) => Ok(RenderStep::Image(b)),
                Err(e) => Err(e),
            }
        },
    }
}


/// The page-range law for PDFs: bytes starting with `%PDF` (not claimed by
/// a plugin, not forced to another path, and not named `svg`) take the PDF
/// path, and a page selection holding an index at or past the document's
/// page count is rejected with a page-range error naming the count.
pub proof fn lemma_pdf_out_of_range(
    ctx: RpixContext,
    ps: Seq<(String, Plugin)>,
    data: Seq<u8>,
    ext: Seq<u8>,
    pi: Seq<u16>,
    n: u16,
)
    requires
        seq![37u8, 80, 68, 70].is_prefix_of(data),
        ctx.input_type == InputType::Auto || ctx.input_type == InputType::Pdf,
        first_plugin_match(ps, data, ext) < 0,
        ext != seq![115u8, 118, 103],
        exists|i: int| 0 <= i < pi.len() && #[trigger] pi[i] >= n,
    ensures
        spec_route(ctx, ps, data, ext) == PathChoice::Pdf,
        crate::pages::spec_select_pages(Some(pi), n) == Err::<Seq<u16>, KvError>(
            KvError::PageRangeError { bound: Some(n) },
        ),
{
    assert(data[0] == 37) by {
        assert(data.subrange(0, 4) == seq![37u8, 80, 68, 70]);
        assert(data.subrange(0, 4)[0] == data[0]);
    }
    assert(!seq![60u8, 115, 118, 103].is_prefix_of(data)) by {
        if seq![60u8, 115, 118, 103].is_prefix_of(data) {
            assert(data.subrange(0, 4)[0] == 60);
        }
    }
    assert(!seq![60u8, 63, 120, 109, 108].is_prefix_of(data)) by {
        if seq![60u8, 63, 120, 109, 108].is_prefix_of(data) {
            assert(data.subrange(0, 5)[0] == data[0]);
        }
    }
}


/// The fixed prefix of a base64 `data:` URI carrying HTML:
/// `data:text/html;base64,`.
pub open spec fn data_uri_prefix() -> Seq<u8> {
    seq![
        100u8,
        97,
        116,
        97,
        58,
        116,
        101,
        120,
        116,
        47,
        104,
        116,
        109,
        108,
        59,
        98,
        97,
        115,
        101,
        54,
        52,
        44,
    ]
}

/// The target handed to the HTML screenshotter. URL-shaped text travels as
/// it stands; other text naming an existing file (whose canonical path the
/// caller supplies) is loaded as a `file://` URL; anything else rides as a
/// base64 `data:` URI. Bytes that are not valid UTF-8 are a parse error,
/// and a payload too large to base64-encode is refused.
pub fn html_url(data: &[u8], canonical: Option<&str>) -> (r: Result<Vec<u8>, KvError>)
    ensures
        !valid_utf8(data@) ==> r == Err::<Vec<u8>, KvError>(KvError::ParseError),
        valid_utf8(data@) && is_url_spec(data@) ==> (r matches Ok(u) && u@ == data@),
        valid_utf8(data@) && !is_url_spec(data@) ==> match canonical {
            Some(p) => r matches Ok(u) && u@ == seq![102u8, 105, 108, 101, 58, 47, 47]
                + p.spec_bytes(),
            None => if data@.len() <= usize::MAX / 4 {
                r matches Ok(u) && u@ == data_uri_prefix() + crate::send::base64_of(data@)
            } else {
                r == Err::<Vec<u8>, KvError>(KvError::ConversionError)
            },
        },
{
    if bytes_as_str(data).is_none() {
        return Err(KvError::ParseError);
    }
    if is_url(data) {
        return Ok(vstd::slice::slice_to_vec(data));
    }
    match canonical {
        Some(p) => {
            let mut u: Vec<u8> = vec![102u8, 105, 108, 101, 58, 47, 47];
            proof {
                assert(u@ =~= seq![102u8, 105, 108, 101, 58, 47, 47]);
            }
            crate::send::append_bytes(&mut u, p.as_bytes());
            Ok(u)
        },
        None => {
            if data.len() > usize::MAX / 4 {
                return Err(KvError::ConversionError);
            }
            let mut u: Vec<u8> = vec![
                100u8,
                97,
                116,
                97,
                58,
                116,
                101,
                120,
                116,
                47,
                104,
                116,
                109,
                108,
                59,
                98,
                97,
                115,
                101,
                54,
                52,
                44,
            ];
            proof {
                assert(u@ =~= data_uri_prefix());
            }
            let mut b64 = crate::send::base64_encode(data);
            u.append(&mut b64);
            Ok(u)
        },
    }
}

} // verus!
