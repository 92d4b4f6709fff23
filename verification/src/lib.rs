//! A markdown conversion engine.
//!
//! The engine renders a small markdown dialect (plain text, bold emphasis
//! and image references) into three output serializations: HTML fragments,
//! LaTeX source fragments, and HWP XML paragraph markup.  HWP rendering
//! threads a caller-owned record of identity counters through the call so
//! that embedded pictures receive globally unique identity numbers even
//! when several documents are assembled into one compound file.
//!
//! The engine is pure: it performs no I/O, never touches the filesystem
//! (image paths are only string-joined), and is deterministic in its
//! inputs.  Each public renderer's contract pins the produced string, and
//! the final counter values, exactly.
use vstd::prelude::*;
use vstd::string::StringExecFns;

mod ast;
mod escape;
mod html;
mod hwp;
mod latex;
mod num;
mod parse;

pub use ast::Inline;
pub use ast::SpecInline;
pub use ast::doc_model;
pub use ast::para_model;
pub use html::html_of_doc;
pub use html::render_html_doc;
pub use hwp::SpecEntry;
pub use hwp::SpecStatus;
pub use hwp::advance_by;
pub use hwp::doc_pics;
pub use hwp::entries_model;
pub use hwp::hwp_doc_wf;
pub use hwp::hwp_names_nul;
pub use hwp::hwp_of_doc;
pub use hwp::render_hwp_doc;
pub use latex::latex_of_doc;
pub use latex::lemma_suppress_images_elides_figures;
pub use latex::lemma_suppress_inlines;
pub use latex::render_latex_doc;
pub use latex::strip_doc_images;
pub use latex::strip_images;
pub use parse::contains_char;
pub use parse::parse_doc;
pub use parse::parse_document;

verus! {

/// Configuration for HTML rendering: the height bound, in pixels,
/// applied to inline images.
pub struct HtmlGenerateConfig {
    pub inline_image_max_height: i32,
}

/// One named style profile for HWP rendering: the paragraph shape and
/// style identifiers of the `<P>` element and the character shape
/// identifier of its text runs.
pub struct HwpGenerateConfig {
    pub entry_name: String,
    pub para_shape: i32,
    pub para_style: i32,
    pub char_shape: i32,
}

/// The identity counters that HWP rendering reads and advances: the
/// binary-item number of the next embedded picture, and the instance and
/// stacking-order numbers of its object subtree.  Callers that assemble
/// several documents into one compound file pass the same record through
/// every call so that identities never collide.
pub struct HwpConversionStatus {
    pub bin_item: i32,
    pub inst_id: i32,
    pub z_order: i32,
}

/// Renders a markdown document as one HTML fragment.
///
/// Fails exactly when the input holds an embedded null byte; otherwise
/// the result is the HTML rendering of the parsed document.
pub fn markdown_to_html(md: &str, config: &HtmlGenerateConfig) -> (r: Result<String, String>)
    ensures
        r is Ok <==> !contains_char(md@, '\0'),
        r matches Ok(s) ==> s@ == html_of_doc(
            parse_doc(md@),
            config.inline_image_max_height as int,
        ),
        r matches Err(e) ==> e@ == "the markdown input contains an embedded null byte"@,
{
    if parse::contains_char_str(md, '\0') {
        Err(String::from_str("the markdown input contains an embedded null byte"))
    } else {
        let doc = parse_document(md);
        Ok(html::render_html_doc(&doc, config.inline_image_max_height))
    }
}

/// Renders a markdown document as one LaTeX fragment.
///
/// Fails exactly when the input or the image directory path holds an
/// embedded null byte; otherwise the result is the LaTeX rendering of
/// the parsed document, with image paths resolved against
/// `image_dir_path` and figures elided entirely when `no_image` is set.
pub fn markdown_to_latex(md: &str, image_dir_path: &str, no_image: bool) -> (r: Result<
    String,
    String,
>)
    ensures
        r is Ok <==> !contains_char(md@, '\0') && !contains_char(image_dir_path@, '\0'),
        r matches Ok(s) ==> s@ == latex_of_doc(parse_doc(md@), image_dir_path@, no_image),
        contains_char(md@, '\0') ==> (r matches Err(e) && e@
            == "the markdown input contains an embedded null byte"@),
        !contains_char(md@, '\0') && contains_char(image_dir_path@, '\0') ==> (r matches Err(e)
            && e@ == "the image directory path contains an embedded null byte"@),
{
    if parse::contains_char_str(md, '\0') {
        Err(String::from_str("the markdown input contains an embedded null byte"))
    } else if parse::contains_char_str(image_dir_path, '\0') {
        Err(String::from_str("the image directory path contains an embedded null byte"))
    } else {
        let doc = parse_document(md);
        Ok(latex::render_latex_doc(&doc, image_dir_path, no_image))
    }
}

/// Renders a markdown document as HWP paragraph markup, reading and
/// advancing the caller's identity counters.
///
/// Succeeds exactly when no entry name and no input text holds an
/// embedded null byte, at least one style entry is supplied, every
/// image reference encodes its dimensions as `height,width` decimal
/// numbers that fit 32-bit signed values, and the counters can absorb
/// the document's pictures without overflowing.  On success the
/// counters advance by one binary-item number and two instance and
/// stacking-order numbers per picture; on failure they are untouched.
pub fn markdown_to_hwp(
    md: &str,
    render_configs: &Vec<HwpGenerateConfig>,
    hwp_conversion_status: &mut HwpConversionStatus,
) -> (r: Result<String, String>)
    ensures
        r is Ok <==> (!hwp_names_nul(render_configs@) && !contains_char(md@, '\0')
            && render_configs@.len() > 0 && hwp_doc_wf(parse_doc(md@)) && old(
            hwp_conversion_status,
        )@.bin_item + doc_pics(parse_doc(md@)) <= i32::MAX as int && old(
            hwp_conversion_status,
        )@.inst_id + 2 * doc_pics(parse_doc(md@)) <= i32::MAX as int && old(
            hwp_conversion_status,
        )@.z_order + 2 * doc_pics(parse_doc(md@)) <= i32::MAX as int),
        r matches Ok(s) ==> s@ == hwp_of_doc(
            parse_doc(md@),
            entries_model(render_configs@),
            old(hwp_conversion_status)@,
        ),
        r is Ok ==> final(hwp_conversion_status)@ == advance_by(
            old(hwp_conversion_status)@,
            doc_pics(parse_doc(md@)),
        ),
        r is Err ==> *final(hwp_conversion_status) == *old(hwp_conversion_status),
        hwp_names_nul(render_configs@) ==> (r matches Err(e) && e@
            == "a style entry name contains an embedded null byte"@),
        !hwp_names_nul(render_configs@) && contains_char(md@, '\0') ==> (r matches Err(e) && e@
            == "the markdown input contains an embedded null byte"@),
        !hwp_names_nul(render_configs@) && !contains_char(md@, '\0') && render_configs@.len() == 0
            ==> (r matches Err(e) && e@ == "no style entries were supplied"@),
        !hwp_names_nul(render_configs@) && !contains_char(md@, '\0') && render_configs@.len() > 0
            && !hwp_doc_wf(parse_doc(md@)) ==> (r matches Err(e) && e@
            == "an image reference carries a malformed dimension pair"@),
        !hwp_names_nul(render_configs@) && !contains_char(md@, '\0') && render_configs@.len() > 0
            && hwp_doc_wf(parse_doc(md@)) && r is Err ==> (r matches Err(e) && e@
            == "the conversion status counters would overflow"@),
{
    if hwp::any_name_nul(render_configs) {
        return Err(String::from_str("a style entry name contains an embedded null byte"));
    }
    if parse::contains_char_str(md, '\0') {
        return Err(String::from_str("the markdown input contains an embedded null byte"));
    }
    if render_configs.len() == 0 {
        return Err(String::from_str("no style entries were supplied"));
    }
    let doc = parse_document(md);
    if !hwp::doc_dims_ok(&doc) {
        return Err(String::from_str("an image reference carries a malformed dimension pair"));
    }
    let pics = match hwp::count_doc_pics(&doc) {
        Some(n) => n,
        None => {
            return Err(String::from_str("the conversion status counters would overflow"));
        },
    };
    let fits_bin = hwp_conversion_status.bin_item as i64 + pics as i64 <= i32::MAX as i64;
    let fits_inst = hwp_conversion_status.inst_id as i64 + 2 * (pics as i64) <= i32::MAX as i64;
    let fits_z = hwp_conversion_status.z_order as i64 + 2 * (pics as i64) <= i32::MAX as i64;
    if !(fits_bin && fits_inst && fits_z) {
        return Err(String::from_str("the conversion status counters would overflow"));
    }
    Ok(render_hwp_doc(&doc, render_configs, hwp_conversion_status))
}

/// Rendering is deterministic.
///
/// Two HWP conversions of the same input, configured with entries that
/// hold the same values and started from status records that hold the
/// same counter values, are promised byte-identical output and
/// identical ending counters: the contract of [`markdown_to_hwp`] pins
/// both to the spec values that this law equates.  The HTML and LaTeX
/// renderers take no mutable state at all, and their contracts pin the
/// output to a function of the input and configuration values alone.
pub proof fn lemma_hwp_deterministic(
    md: Seq<char>,
    cfgs1: Seq<HwpGenerateConfig>,
    cfgs2: Seq<HwpGenerateConfig>,
    st1: SpecStatus,
    st2: SpecStatus,
)
    requires
        cfgs1.len() == cfgs2.len(),
        forall|i: int| 0 <= i < cfgs1.len() ==> (#[trigger] cfgs1[i])@ == cfgs2[i]@,
        st1 == st2,
    ensures
        hwp_of_doc(parse_doc(md), entries_model(cfgs1), st1) == hwp_of_doc(
            parse_doc(md),
            entries_model(cfgs2),
            st2,
        ),
        advance_by(st1, doc_pics(parse_doc(md))) == advance_by(st2, doc_pics(parse_doc(md))),
{
    assert(entries_model(cfgs1) =~= entries_model(cfgs2));
}

/// An empty document renders to an empty string for all three targets,
/// and an HWP conversion of it leaves the counters exactly as they
/// were.
pub proof fn lemma_empty_document(
    md: Seq<char>,
    maxh: int,
    base: Seq<char>,
    suppress: bool,
    entries: Seq<SpecEntry>,
    st: SpecStatus,
)
    requires
        md.len() == 0,
    ensures
        parse_doc(md).len() == 0,
        html_of_doc(parse_doc(md), maxh) == Seq::<char>::empty(),
        latex_of_doc(parse_doc(md), base, suppress) == Seq::<char>::empty(),
        hwp_of_doc(parse_doc(md), entries, st) == Seq::<char>::empty(),
        advance_by(st, doc_pics(parse_doc(md))) == st,
{
    assert(parse_doc(md) =~= Seq::<Seq<SpecInline>>::empty());
}

} // verus!
