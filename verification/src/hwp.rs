//! The HWP XML renderer.
//!
//! Each paragraph becomes a `<P>` element whose shape and style come
//! from a configured entry: the first paragraph uses the first entry,
//! every later paragraph the last one.  Within a paragraph, consecutive
//! text and bold content merges into one `<TEXT>` run with the entry's
//! character shape; every image reference closes the current run and
//! emits a `<TEXT CharShape="0">` run holding a full `<PICTURE>`
//! subtree.  A picture's destination encodes its pixel height and width
//! as two comma-separated numbers; its identity numbers come from the
//! caller's conversion status, which advances by one binary-item number
//! and two instance/stacking numbers per picture.
use vstd::prelude::*;
use vstd::string::StrSliceExecFns;
use vstd::string::StringExecFns;

use crate::HwpConversionStatus;
use crate::HwpGenerateConfig;
use crate::ast::Inline;
use crate::ast::SpecInline;
use crate::ast::doc_model;
use crate::ast::lemma_models_of;
use crate::ast::para_model;
use crate::escape::append_xml_text_escaped;
use crate::escape::xml_text_escape;
use crate::num::append_dec_i32;
use crate::num::append_dec_u32;
use crate::num::dec_int;
use crate::parse::contains_char;
use crate::parse::contains_char_str;
use crate::parse::find_char;
use crate::parse::find_char_from;
use crate::parse::lemma_find_char;

verus! {

/// Mathematical model of the conversion status counters.
pub struct SpecStatus {
    pub bin_item: int,
    pub inst_id: int,
    pub z_order: int,
}

/// Mathematical model of one configured style entry.
pub struct SpecEntry {
    pub name: Seq<char>,
    pub para_shape: int,
    pub para_style: int,
    pub char_shape: int,
}

/// The status after embedding `n` further pictures: one binary-item
/// number and two instance and stacking-order numbers per picture.
pub open spec fn advance_by(st: SpecStatus, n: int) -> SpecStatus {
    SpecStatus {
        bin_item: st.bin_item + n,
        inst_id: st.inst_id + 2 * n,
        z_order: st.z_order + 2 * n,
    }
}

/// One flattened piece of a paragraph: a stretch of plain text, or one
/// picture.  Bold spans carry no styling of their own in HWP output, so
/// flattening erases them.
pub enum SpecAtom {
    Run(Seq<char>),
    Pic { alt: Seq<char>, dest: Seq<char> },
}

/// The atoms of one inline node: its text, its picture, or — for a bold
/// span — the atoms of its children.
pub open spec fn atoms_of_inline(node: SpecInline) -> Seq<SpecAtom>
    decreases node,
{
    match node {
        SpecInline::Text(t) => seq![SpecAtom::Run(t)],
        SpecInline::Bold(v) => atoms_of(v),
        SpecInline::Image { alt, dest } => seq![SpecAtom::Pic { alt, dest }],
    }
}

/// The atoms of a sequence of inline nodes, in order.
pub open spec fn atoms_of(v: Seq<SpecInline>) -> Seq<SpecAtom>
    decreases v,
{
    if v.len() == 0 {
        Seq::empty()
    } else {
        atoms_of_inline(v[0]) + atoms_of(v.drop_first())
    }
}

/// How many of the atoms are pictures.
pub open spec fn atoms_pics(atoms: Seq<SpecAtom>) -> int
    decreases atoms.len(),
{
    if atoms.len() == 0 {
        0
    } else {
        (if atoms[0] is Pic {
            1int
        } else {
            0int
        }) + atoms_pics(atoms.drop_first())
    }
}

/// How many pictures one paragraph embeds.
pub open spec fn para_pics(p: Seq<SpecInline>) -> int {
    atoms_pics(atoms_of(p))
}

/// How many pictures the whole document embeds.
pub open spec fn doc_pics(d: Seq<Seq<SpecInline>>) -> int
    decreases d.len(),
{
    if d.len() == 0 {
        0
    } else {
        para_pics(d[0]) + doc_pics(d.drop_first())
    }
}

/// The numeric value of `c` as a decimal digit.
pub open spec fn digit_val(c: char) -> int {
    c as int - '0' as int
}

/// Whether `s` is one or more decimal digits.
pub open spec fn is_digits(s: Seq<char>) -> bool {
    s.len() > 0 && forall|i: int| 0 <= i < s.len() ==> '0' <= #[trigger] s[i] <= '9'
}

/// The numeric value of a digit string, most significant digit first.
pub open spec fn num_val(s: Seq<char>) -> int
    decreases s.len(),
{
    if s.len() == 0 {
        0
    } else {
        num_val(s.drop_last()) * 10 + digit_val(s.last())
    }
}

/// Whether an image destination is a well-formed dimension encoding:
/// decimal pixel height, a comma, decimal pixel width, both fitting a
/// 32-bit signed number.
pub open spec fn dims_wf(dest: Seq<char>) -> bool {
    let c = find_char(dest, ',', 0);
    &&& 0 < c < dest.len()
    &&& is_digits(dest.take(c))
    &&& is_digits(dest.skip(c + 1))
    &&& num_val(dest.take(c)) <= i32::MAX as int
    &&& num_val(dest.skip(c + 1)) <= i32::MAX as int
}

/// The encoded pixel height: the number before the comma.
pub open spec fn dim_height(dest: Seq<char>) -> int {
    num_val(dest.take(find_char(dest, ',', 0)))
}

/// The encoded pixel width: the number after the comma.
pub open spec fn dim_width(dest: Seq<char>) -> int {
    num_val(dest.skip(find_char(dest, ',', 0) + 1))
}

/// Whether every picture of the atom sequence carries well-formed
/// dimensions.
pub open spec fn atoms_wf(atoms: Seq<SpecAtom>) -> bool
    decreases atoms.len(),
{
    if atoms.len() == 0 {
        true
    } else {
        (match atoms[0] {
            SpecAtom::Pic { alt, dest } => dims_wf(dest),
            SpecAtom::Run(t) => true,
        }) && atoms_wf(atoms.drop_first())
    }
}

/// Whether every picture of the whole document carries well-formed
/// dimensions.
pub open spec fn hwp_doc_wf(d: Seq<Seq<SpecInline>>) -> bool {
    forall|i: int| 0 <= i < d.len() ==> atoms_wf(atoms_of(#[trigger] d[i]))
}

/// The opening of a picture and its `<SHAPEOBJECT>`: identity and
/// stacking numbers, size, position and margins.
pub open spec fn pic_shape_object(h: int, w: int, inst: int, z: int) -> Seq<char> {
    "<PICTURE Reverse=\"false\"><SHAPEOBJECT InstId=\""@ + dec_int(inst)
        + "\" Lock=\"false\" NumberingType=\"Figure\" ZOrder=\""@ + dec_int(z)
        + "\"><SIZE Height=\""@ + dec_int(h) + "\" HeightRelTo=\"Absolute\" Protect=\"false\" Width=\""@
        + dec_int(w) + "\" WidthRelTo=\"Absolute\"/><POSITION AffectLSpacing=\"false\" AllowOverlap=\"false\" FlowWithText=\"true\" HoldAnchorAndSO=\"false\" HorzAlign=\"Left\" HorzOffset=\"0\" HorzRelTo=\"Para\" TreatAsChar=\"true\" VertAlign=\"Top\" VertOffset=\"0\" VertRelTo=\"Para\"/><OUTSIDEMARGIN Bottom=\"0\" Left=\"0\" Right=\"0\" Top=\"0\"/><SHAPECOMMENT></SHAPECOMMENT></SHAPEOBJECT>"@
}

/// The `<SHAPECOMPONENT>` of a picture: the inner instance number, the
/// centered rotation point, and the fixed rendering matrices.
pub open spec fn pic_shape_component(h: int, w: int, inst: int) -> Seq<char> {
    "<SHAPECOMPONENT CurHeight=\""@ + dec_int(h) + "\" CurWidth=\""@ + dec_int(w)
        + "\" GroupLevel=\"0\" HorzFlip=\"false\" InstID=\""@ + dec_int(inst + 1)
        + "\" OriHeight=\""@ + dec_int(h) + "\" OriWidth=\""@ + dec_int(w)
        + "\" VertFlip=\"false\" XPos=\"0\" YPos=\"0\"><ROTATIONINFO Angle=\"0\" CenterX=\""@
        + dec_int(w / 2) + "\" CenterY=\""@ + dec_int(h / 2)
        + "\" Rotate=\"1\"/><RENDERINGINFO><TRANSMATRIX E1=\"1.00000\" E2=\"0.00000\" E3=\"0.00000\" E4=\"0.00000\" E5=\"1.00000\" E6=\"0.00000\"/><SCAMATRIX E1=\"0.80000\" E2=\"0.00000\" E3=\"0.00000\" E4=\"0.00000\" E5=\"0.80000\" E6=\"0.00000\"/><ROTMATRIX E1=\"1.00000\" E2=\"0.00000\" E3=\"0.00000\" E4=\"0.00000\" E5=\"1.00000\" E6=\"0.00000\"/></RENDERINGINFO></SHAPECOMPONENT>"@
}

/// The rectangle, clip, margin and dimension elements of a picture.
pub open spec fn pic_geometry(h: int, w: int) -> Seq<char> {
    "<IMAGERECT X0=\"0\" X1=\""@ + dec_int(w) + "\" X2=\""@ + dec_int(w)
        + "\" X3=\"0\" Y0=\"0\" Y1=\"0\" Y2=\""@ + dec_int(h) + "\" Y3=\""@ + dec_int(h)
        + "\"/><IMAGECLIP Bottom=\""@ + dec_int(h) + "\" Left=\"0\" Right=\""@ + dec_int(w)
        + "\" Top=\"0\"/><INSIDEMARGIN Bottom=\"0\" Left=\"0\" Right=\"0\" Top=\"0\"/><IMAGEDIM Height=\""@
        + dec_int(h) + "\" Width=\""@ + dec_int(w) + "\"/>"@
}

/// The `<IMAGE>` element referencing the binary item, and the close of
/// the picture.
pub open spec fn pic_image_ref(bin: int) -> Seq<char> {
    "<IMAGE Alpha=\"0\" BinItem=\""@ + dec_int(bin)
        + "\" Bright=\"0\" Contrast=\"0\" Effect=\"RealPic\"/><EFFECTS/></PICTURE>"@
}

/// The `<PICTURE>` subtree of one embedded image: a fixed skeleton
/// parameterized by the pixel width and height, the binary-item number,
/// the instance number (the inner component takes the next one), and
/// the stacking order.
#[verifier::opaque]
pub open spec fn picture_xml(w: int, h: int, bin: int, inst: int, z: int) -> Seq<char> {
    pic_shape_object(h, w, inst, z) + pic_shape_component(h, w, inst) + pic_geometry(h, w)
        + pic_image_ref(bin)
}

/// One `<TEXT>` run holding escaped text content.
pub open spec fn text_run(cs: int, content: Seq<char>) -> Seq<char> {
    "<TEXT CharShape=\""@ + dec_int(cs) + "\"><CHAR>"@ + xml_text_escape(content)
        + "</CHAR></TEXT>"@
}

/// The pending text flushed as a run — nothing when it is empty.
pub open spec fn flush_run(cs: int, pending: Seq<char>) -> Seq<char> {
    if pending.len() == 0 {
        Seq::empty()
    } else {
        text_run(cs, pending)
    }
}

/// The `<TEXT CharShape="0">` run holding one picture.
pub open spec fn pic_run(dest: Seq<char>, st: SpecStatus) -> Seq<char> {
    "<TEXT CharShape=\"0\">"@ + picture_xml(
        dim_width(dest),
        dim_height(dest),
        st.bin_item,
        st.inst_id,
        st.z_order,
    ) + "</TEXT>"@
}

/// The runs of one paragraph: text atoms accumulate into `pending`
/// until a picture (or the end of the paragraph) flushes them.
pub open spec fn hwp_runs(
    atoms: Seq<SpecAtom>,
    pending: Seq<char>,
    cs: int,
    st: SpecStatus,
) -> Seq<char>
    decreases atoms.len(),
{
    if atoms.len() == 0 {
        flush_run(cs, pending)
    } else {
        match atoms[0] {
            SpecAtom::Run(t) => hwp_runs(atoms.drop_first(), pending + t, cs, st),
            SpecAtom::Pic { alt, dest } => flush_run(cs, pending) + pic_run(dest, st) + hwp_runs(
                atoms.drop_first(),
                Seq::empty(),
                cs,
                advance_by(st, 1),
            ),
        }
    }
}

/// The entry that styles paragraph `k`: the first entry for the first
/// paragraph, the last entry for every later one.
pub open spec fn entry_for(entries: Seq<SpecEntry>, k: int) -> SpecEntry
    recommends
        entries.len() > 0,
{
    if k == 0 {
        entries[0]
    } else {
        entries[entries.len() - 1]
    }
}

/// The HWP rendering of one paragraph under entry `e`, starting from
/// status `st`.
pub open spec fn hwp_of_para(p: Seq<SpecInline>, e: SpecEntry, st: SpecStatus) -> Seq<char> {
    "<P ParaShape=\""@ + dec_int(e.para_shape) + "\" Style=\""@ + dec_int(e.para_style) + "\">"@
        + hwp_runs(atoms_of(p), Seq::empty(), e.char_shape, st) + "</P>"@
}

/// The HWP rendering of the paragraphs of `d`, the first of them being
/// paragraph number `k` of its document, starting from status `st`.
pub open spec fn hwp_of_doc_from(
    d: Seq<Seq<SpecInline>>,
    entries: Seq<SpecEntry>,
    k: int,
    st: SpecStatus,
) -> Seq<char>
    decreases d.len(),
{
    if d.len() == 0 {
        Seq::empty()
    } else {
        hwp_of_para(d[0], entry_for(entries, k), st) + hwp_of_doc_from(
            d.drop_first(),
            entries,
            k + 1,
            advance_by(st, para_pics(d[0])),
        )
    }
}

/// The HWP rendering of a whole document, starting from status `st`.
pub open spec fn hwp_of_doc(d: Seq<Seq<SpecInline>>, entries: Seq<SpecEntry>, st: SpecStatus) -> Seq<
    char,
> {
    hwp_of_doc_from(d, entries, 0, st)
}

impl View for HwpConversionStatus {
    type V = SpecStatus;

    open spec fn view(&self) -> SpecStatus {
        SpecStatus {
            bin_item: self.bin_item as int,
            inst_id: self.inst_id as int,
            z_order: self.z_order as int,
        }
    }
}

impl View for HwpGenerateConfig {
    type V = SpecEntry;

    open spec fn view(&self) -> SpecEntry {
        SpecEntry {
            name: self.entry_name@,
            para_shape: self.para_shape as int,
            para_style: self.para_style as int,
            char_shape: self.char_shape as int,
        }
    }
}

/// The models of the configured entries, in order.
pub open spec fn entries_model(cfgs: Seq<HwpGenerateConfig>) -> Seq<SpecEntry> {
    Seq::new(cfgs.len(), |i: int| cfgs[i]@)
}

/// One flattened piece of a paragraph, as executable data.
pub enum HwpAtom {
    Run(String),
    Pic { alt: String, dest: String },
}

impl View for HwpAtom {
    type V = SpecAtom;

    open spec fn view(&self) -> SpecAtom {
        match self {
            HwpAtom::Run(t) => SpecAtom::Run(t@),
            HwpAtom::Pic { alt, dest } => SpecAtom::Pic { alt: alt@, dest: dest@ },
        }
    }
}

/// The models of a sequence of executable atoms.
pub open spec fn atoms_model(v: Seq<HwpAtom>) -> Seq<SpecAtom> {
    Seq::new(v.len(), |i: int| v[i]@)
}

/// Peeling one node off `atoms_of` at position `j`.
proof fn lemma_atoms_of_step(v: Seq<SpecInline>, j: int)
    requires
        0 <= j < v.len(),
    ensures
        atoms_of(v.skip(j)) == atoms_of_inline(v[j]) + atoms_of(v.skip(j + 1)),
{
    assert(v.skip(j).drop_first() =~= v.skip(j + 1));
}

/// Appends the atoms of one inline node to `acc`.
fn push_atoms(acc: &mut Vec<HwpAtom>, node: &Inline)
    ensures
        atoms_model(final(acc)@) == atoms_model(old(acc)@) + atoms_of_inline(node@),
    decreases node,
{
    match node {
        Inline::Text(t) => {
            acc.push(HwpAtom::Run(t.clone()));
            proof {
                assert(atoms_model(acc@) =~= atoms_model(old(acc)@) + atoms_of_inline(node@));
            }
        },
        Inline::Bold(children) => {
            let ghost acc0 = acc@;
            let ghost models = Inline::models_of(children@);
            let mut j: usize = 0;
            proof {
                lemma_models_of(children@);
                assert(models.skip(0) =~= models);
                assert(atoms_model(acc0) + atoms_of(models) =~= atoms_model(acc@) + atoms_of(
                    models.skip(0),
                ));
            }
            while j < children.len()
                invariant
                    j <= children.len(),
                    *node == Inline::Bold(*children),
                    models == Inline::models_of(children@),
                    models.len() == children@.len(),
                    forall|i: int| 0 <= i < children@.len() ==> models[i] == #[trigger] (
                    children@[i])@,
                    atoms_model(acc0) + atoms_of(models) == atoms_model(acc@) + atoms_of(
                        models.skip(j as int),
                    ),
                decreases children.len() - j,
            {
                proof {
                    lemma_atoms_of_step(models, j as int);
                    broadcast use vstd::std_specs::vec::axiom_vec_decreases_to_view;
                    broadcast use vstd::seq::axiom_seq_index_decreases;

                    assert(decreases_to!(*node => node->Bold_0));
                    assert(node->Bold_0 == *children);
                    assert(decreases_to!(*children => children@));
                    assert(decreases_to!(children@ => children@[j as int]));
                }
                push_atoms(acc, &children[j]);
                j = j + 1;
                proof {
                    assert(atoms_model(acc0) + atoms_of(models) =~= atoms_model(acc@) + atoms_of(
                        models.skip(j as int),
                    ));
                }
            }
            proof {
                assert(models.skip(children@.len() as int) =~= Seq::<SpecInline>::empty());
                assert(atoms_model(acc@) =~= atoms_model(acc0) + atoms_of_inline(node@));
            }
        },
        Inline::Image { alt, dest } => {
            acc.push(HwpAtom::Pic { alt: alt.clone(), dest: dest.clone() });
            proof {
                assert(atoms_model(acc@) =~= atoms_model(old(acc)@) + atoms_of_inline(node@));
            }
        },
    }
}

/// Flattens one paragraph into its atoms.
fn flatten_para(p: &Vec<Inline>) -> (r: Vec<HwpAtom>)
    ensures
        atoms_model(r@) == atoms_of(para_model(p@)),
{
    let mut acc: Vec<HwpAtom> = Vec::new();
    let ghost models = para_model(p@);
    let mut j: usize = 0;
    proof {
        lemma_models_of(p@);
        assert(models.skip(0) =~= models);
        assert(atoms_of(models) =~= atoms_model(acc@) + atoms_of(models.skip(0)));
    }
    while j < p.len()
        invariant
            j <= p.len(),
            models == para_model(p@),
            models.len() == p@.len(),
            forall|i: int| 0 <= i < p@.len() ==> models[i] == #[trigger] (p@[i])@,
            atoms_of(models) == atoms_model(acc@) + atoms_of(models.skip(j as int)),
        decreases p.len() - j,
    {
        proof {
            lemma_atoms_of_step(models, j as int);
        }
        push_atoms(&mut acc, &p[j]);
        j = j + 1;
        proof {
            assert(atoms_of(models) =~= atoms_model(acc@) + atoms_of(models.skip(j as int)));
        }
    }
    proof {
        assert(models.skip(p@.len() as int) =~= Seq::<SpecInline>::empty());
        assert(atoms_model(acc@) =~= atoms_of(models));
    }
    acc
}

/// A picture count is never negative.
proof fn lemma_atoms_pics_nonneg(atoms: Seq<SpecAtom>)
    ensures
        atoms_pics(atoms) >= 0,
    decreases atoms.len(),
{
    if atoms.len() > 0 {
        lemma_atoms_pics_nonneg(atoms.drop_first());
    }
}

/// The value of a digit string is nonnegative.
proof fn lemma_num_val_nonneg(s: Seq<char>)
    requires
        forall|i: int| 0 <= i < s.len() ==> '0' <= #[trigger] s[i] <= '9',
    ensures
        num_val(s) >= 0,
    decreases s.len(),
{
    if s.len() > 0 {
        lemma_num_val_nonneg(s.drop_last());
    }
}

/// Reading further digits never shrinks the value.
proof fn lemma_num_val_take_mono(s: Seq<char>, i: int)
    requires
        0 <= i <= s.len(),
        forall|k: int| 0 <= k < s.len() ==> '0' <= #[trigger] s[k] <= '9',
    ensures
        num_val(s) >= num_val(s.take(i)),
    decreases s.len() - i,
{
    if i < s.len() {
        assert(s.take(i + 1).drop_last() =~= s.take(i));
        lemma_num_val_nonneg(s.take(i));
        lemma_num_val_take_mono(s, i + 1);
    } else {
        assert(s.take(i) =~= s);
    }
}

/// Parses the decimal number standing in `s` between `from` and `to`.
///
/// Yields the value exactly when that range is one or more decimal
/// digits whose value fits a 32-bit signed number.
fn parse_number(s: &str, from: usize, to: usize) -> (r: Option<u32>)
    requires
        from <= to <= s@.len(),
    ensures
        r is Some <==> is_digits(s@.subrange(from as int, to as int)) && num_val(
            s@.subrange(from as int, to as int),
        ) <= i32::MAX as int,
        r matches Some(v) ==> v as int == num_val(s@.subrange(from as int, to as int)),
{
    let ghost sub = s@.subrange(from as int, to as int);
    if from == to {
        return None;
    }
    let mut acc: u64 = 0;
    let mut i: usize = from;
    while i < to
        invariant
            from <= i <= to,
            to <= s@.len(),
            sub == s@.subrange(from as int, to as int),
            forall|k: int| 0 <= k < i - from ==> '0' <= #[trigger] sub[k] <= '9',
            acc as int == num_val(sub.take(i - from)),
            acc <= i32::MAX as u64,
        decreases to - i,
    {
        let c = s.get_char(i);
        if !(c >= '0' && c <= '9') {
            proof {
                assert(sub[i - from] == s@[i as int]);
                assert(!is_digits(sub));
            }
            return None;
        }
        let d: u64 = (c as u32 - '0' as u32) as u64;
        let new_acc = acc * 10 + d;
        proof {
            assert(sub.take(i - from + 1).drop_last() =~= sub.take(i - from));
            assert(sub.take(i - from + 1).last() == sub[i - from]);
            assert(sub[i - from] == s@[i as int]);
        }
        if new_acc > i32::MAX as u64 {
            proof {
                if is_digits(sub) {
                    lemma_num_val_take_mono(sub, i - from + 1);
                }
            }
            return None;
        }
        acc = new_acc;
        i = i + 1;
    }
    proof {
        assert(sub.take(to - from) =~= sub);
        assert(is_digits(sub));
    }
    Some(acc as u32)
}

/// Parses an image destination's `height,width` dimension pair.
fn parse_dims(dest: &str) -> (r: Option<(u32, u32)>)
    ensures
        r is Some <==> dims_wf(dest@),
        r matches Some(p) ==> p.0 as int == dim_height(dest@) && p.1 as int == dim_width(dest@),
{
    let n = dest.unicode_len();
    let c = find_char_from(dest, ',', 0);
    proof {
        lemma_find_char(dest@, ',', 0);
    }
    if c == 0 || c >= n {
        return None;
    }
    let h = parse_number(dest, 0, c);
    let w = parse_number(dest, c + 1, n);
    proof {
        assert(dest@.subrange(0, c as int) =~= dest@.take(c as int));
        assert(dest@.subrange(c as int + 1, n as int) =~= dest@.skip(c as int + 1));
    }
    match (h, w) {
        (Some(hv), Some(wv)) => Some((hv, wv)),
        _ => None,
    }
}

/// Appends the picture opening and `<SHAPEOBJECT>` element.
fn append_pic_object(out: &mut String, h: u32, w: u32, inst: i32, z: i32)
    ensures
        final(out)@ == old(out)@ + pic_shape_object(h as int, w as int, inst as int, z as int),
{
    out.append("<PICTURE Reverse=\"false\"><SHAPEOBJECT InstId=\"");
    append_dec_i32(out, inst);
    out.append("\" Lock=\"false\" NumberingType=\"Figure\" ZOrder=\"");
    append_dec_i32(out, z);
    out.append("\"><SIZE Height=\"");
    append_dec_u32(out, h);
    out.append("\" HeightRelTo=\"Absolute\" Protect=\"false\" Width=\"");
    append_dec_u32(out, w);
    out.append(
        "\" WidthRelTo=\"Absolute\"/><POSITION AffectLSpacing=\"false\" AllowOverlap=\"false\" FlowWithText=\"true\" HoldAnchorAndSO=\"false\" HorzAlign=\"Left\" HorzOffset=\"0\" HorzRelTo=\"Para\" TreatAsChar=\"true\" VertAlign=\"Top\" VertOffset=\"0\" VertRelTo=\"Para\"/><OUTSIDEMARGIN Bottom=\"0\" Left=\"0\" Right=\"0\" Top=\"0\"/><SHAPECOMMENT></SHAPECOMMENT></SHAPEOBJECT>",
    );
    proof {
        assert(out@ =~= old(out)@ + pic_shape_object(h as int, w as int, inst as int, z as int));
    }
}

/// Appends the `<SHAPECOMPONENT>` element.
fn append_pic_component(out: &mut String, h: u32, w: u32, inst: i32)
    requires
        inst < i32::MAX,
    ensures
        final(out)@ == old(out)@ + pic_shape_component(h as int, w as int, inst as int),
{
    out.append("<SHAPECOMPONENT CurHeight=\"");
    append_dec_u32(out, h);
    out.append("\" CurWidth=\"");
    append_dec_u32(out, w);
    out.append("\" GroupLevel=\"0\" HorzFlip=\"false\" InstID=\"");
    append_dec_i32(out, inst + 1);
    out.append("\" OriHeight=\"");
    append_dec_u32(out, h);
    out.append("\" OriWidth=\"");
    append_dec_u32(out, w);
    out.append("\" VertFlip=\"false\" XPos=\"0\" YPos=\"0\"><ROTATIONINFO Angle=\"0\" CenterX=\"");
    append_dec_u32(out, w / 2);
    out.append("\" CenterY=\"");
    append_dec_u32(out, h / 2);
    out.append(
        "\" Rotate=\"1\"/><RENDERINGINFO><TRANSMATRIX E1=\"1.00000\" E2=\"0.00000\" E3=\"0.00000\" E4=\"0.00000\" E5=\"1.00000\" E6=\"0.00000\"/><SCAMATRIX E1=\"0.80000\" E2=\"0.00000\" E3=\"0.00000\" E4=\"0.00000\" E5=\"0.80000\" E6=\"0.00000\"/><ROTMATRIX E1=\"1.00000\" E2=\"0.00000\" E3=\"0.00000\" E4=\"0.00000\" E5=\"1.00000\" E6=\"0.00000\"/></RENDERINGINFO></SHAPECOMPONENT>",
    );
    proof {
        assert(out@ =~= old(out)@ + pic_shape_component(h as int, w as int, inst as int));
    }
}

/// Appends the rectangle, clip, margin and dimension elements.
fn append_pic_geometry(out: &mut String, h: u32, w: u32)
    ensures
        final(out)@ == old(out)@ + pic_geometry(h as int, w as int),
{
    out.append("<IMAGERECT X0=\"0\" X1=\"");
    append_dec_u32(out, w);
    out.append("\" X2=\"");
    append_dec_u32(out, w);
    out.append("\" X3=\"0\" Y0=\"0\" Y1=\"0\" Y2=\"");
    append_dec_u32(out, h);
    out.append("\" Y3=\"");
    append_dec_u32(out, h);
    out.append("\"/><IMAGECLIP Bottom=\"");
    append_dec_u32(out, h);
    out.append("\" Left=\"0\" Right=\"");
    append_dec_u32(out, w);
    out.append(
        "\" Top=\"0\"/><INSIDEMARGIN Bottom=\"0\" Left=\"0\" Right=\"0\" Top=\"0\"/><IMAGEDIM Height=\"",
    );
    append_dec_u32(out, h);
    out.append("\" Width=\"");
    append_dec_u32(out, w);
    out.append("\"/>");
    proof {
        assert(out@ =~= old(out)@ + pic_geometry(h as int, w as int));
    }
}

/// Appends the `<IMAGE>` element and the close of the picture.
fn append_pic_image_ref(out: &mut String, bin: i32)
    ensures
        final(out)@ == old(out)@ + pic_image_ref(bin as int),
{
    out.append("<IMAGE Alpha=\"0\" BinItem=\"");
    append_dec_i32(out, bin);
    out.append("\" Bright=\"0\" Contrast=\"0\" Effect=\"RealPic\"/><EFFECTS/></PICTURE>");
    proof {
        assert(out@ =~= old(out)@ + pic_image_ref(bin as int));
    }
}

/// Appends the `<PICTURE>` subtree of one image whose pixel width and
/// height are `w` and `h`, under the given identity numbers.
fn append_picture(out: &mut String, w: u32, h: u32, bin: i32, inst: i32, z: i32)
    requires
        inst < i32::MAX,
    ensures
        final(out)@ == old(out)@ + picture_xml(w as int, h as int, bin as int, inst as int, z as int),
{
    append_pic_object(out, h, w, inst, z);
    append_pic_component(out, h, w, inst);
    append_pic_geometry(out, h, w);
    append_pic_image_ref(out, bin);
    proof {
        reveal(picture_xml);
        assert(out@ =~= old(out)@ + picture_xml(
            w as int,
            h as int,
            bin as int,
            inst as int,
            z as int,
        ));
    }
}

/// Appends one `<TEXT>` run holding the pending text, escaped.
fn append_text_run(out: &mut String, cs: i32, pending: &str)
    ensures
        final(out)@ == old(out)@ + text_run(cs as int, pending@),
{
    out.append("<TEXT CharShape=\"");
    append_dec_i32(out, cs);
    out.append("\"><CHAR>");
    append_xml_text_escaped(out, pending);
    out.append("</CHAR></TEXT>");
    proof {
        assert(out@ =~= old(out)@ + text_run(cs as int, pending@));
    }
}

/// Appends the `<TEXT>` runs of one paragraph, merging consecutive text
/// atoms and emitting one picture run per image, and advances the
/// caller's counters accordingly.
fn append_para_runs(out: &mut String, atoms: &Vec<HwpAtom>, cs: i32, st: &mut HwpConversionStatus)
    requires
        atoms_wf(atoms_model(atoms@)),
        old(st)@.bin_item + atoms_pics(atoms_model(atoms@)) <= i32::MAX as int,
        old(st)@.inst_id + 2 * atoms_pics(atoms_model(atoms@)) <= i32::MAX as int,
        old(st)@.z_order + 2 * atoms_pics(atoms_model(atoms@)) <= i32::MAX as int,
    ensures
        final(out)@ == old(out)@ + hwp_runs(
            atoms_model(atoms@),
            Seq::empty(),
            cs as int,
            old(st)@,
        ),
        final(st)@ == advance_by(old(st)@, atoms_pics(atoms_model(atoms@))),
{
    let ghost a = atoms_model(atoms@);
    let ghost st0 = st@;
    let mut pending = String::new();
    let mut j: usize = 0;
    proof {
        assert(a.skip(0) =~= a);
    }
    while j < atoms.len()
        invariant
            j <= atoms.len(),
            a == atoms_model(atoms@),
            a.len() == atoms@.len(),
            atoms_wf(a.skip(j as int)),
            old(out)@ + hwp_runs(a, Seq::empty(), cs as int, st0) == out@ + hwp_runs(
                a.skip(j as int),
                pending@,
                cs as int,
                st@,
            ),
            st@.bin_item + atoms_pics(a.skip(j as int)) == st0.bin_item + atoms_pics(a),
            st@.inst_id + 2 * atoms_pics(a.skip(j as int)) == st0.inst_id + 2 * atoms_pics(a),
            st@.z_order + 2 * atoms_pics(a.skip(j as int)) == st0.z_order + 2 * atoms_pics(a),
            st0.bin_item + atoms_pics(a) <= i32::MAX as int,
            st0.inst_id + 2 * atoms_pics(a) <= i32::MAX as int,
            st0.z_order + 2 * atoms_pics(a) <= i32::MAX as int,
        decreases atoms.len() - j,
    {
        proof {
            assert(a.skip(j as int).drop_first() =~= a.skip(j as int + 1));
            lemma_atoms_pics_nonneg(a.skip(j as int + 1));
        }
        let ghost out_before = out@;
        let ghost pend_before = pending@;
        let ghost st_before = st@;
        match &atoms[j] {
            HwpAtom::Run(t) => {
                pending.append(t.as_str());
                j = j + 1;
                proof {
                    assert(hwp_runs(a.skip(j - 1), pend_before, cs as int, st_before) == hwp_runs(
                        a.skip(j as int),
                        pending@,
                        cs as int,
                        st@,
                    ));
                }
            },
            HwpAtom::Pic { alt, dest } => {
                if pending.as_str().unicode_len() > 0 {
                    append_text_run(out, cs, pending.as_str());
                }
                let dims = parse_dims(dest.as_str());
                let (hv, wv) = dims.unwrap();
                out.append("<TEXT CharShape=\"0\">");
                append_picture(out, wv, hv, st.bin_item, st.inst_id, st.z_order);
                out.append("</TEXT>");
                st.bin_item = st.bin_item + 1;
                st.inst_id = st.inst_id + 2;
                st.z_order = st.z_order + 2;
                pending = String::new();
                j = j + 1;
                proof {
                    assert(st@ == advance_by(st_before, 1));
                    assert(out@ =~= out_before + flush_run(cs as int, pend_before) + pic_run(
                        a.skip(j - 1)[0]->Pic_dest,
                        st_before,
                    ));
                    assert(hwp_runs(a.skip(j - 1), pend_before, cs as int, st_before) == flush_run(
                        cs as int,
                        pend_before,
                    ) + pic_run(a.skip(j - 1)[0]->Pic_dest, st_before) + hwp_runs(
                        a.skip(j as int),
                        pending@,
                        cs as int,
                        st@,
                    ));
                    assert(old(out)@ + hwp_runs(a, Seq::empty(), cs as int, st0) =~= out@
                        + hwp_runs(a.skip(j as int), pending@, cs as int, st@));
                }
            },
        }
    }
    proof {
        assert(a.skip(a.len() as int) =~= Seq::<SpecAtom>::empty());
    }
    if pending.as_str().unicode_len() > 0 {
        append_text_run(out, cs, pending.as_str());
    }
}

/// Whether every picture of the flattened paragraph carries
/// well-formed dimensions.
fn para_atoms_wf(atoms: &Vec<HwpAtom>) -> (r: bool)
    ensures
        r == atoms_wf(atoms_model(atoms@)),
{
    let ghost a = atoms_model(atoms@);
    let mut j: usize = 0;
    proof {
        assert(a.skip(0) =~= a);
    }
    while j < atoms.len()
        invariant
            j <= atoms.len(),
            a == atoms_model(atoms@),
            a.len() == atoms@.len(),
            atoms_wf(a) == atoms_wf(a.skip(j as int)),
        decreases atoms.len() - j,
    {
        proof {
            assert(a.skip(j as int).drop_first() =~= a.skip(j as int + 1));
        }
        match &atoms[j] {
            HwpAtom::Run(t) => {},
            HwpAtom::Pic { alt, dest } => {
                let dims = parse_dims(dest.as_str());
                if dims.is_none() {
                    return false;
                }
            },
        }
        j = j + 1;
    }
    proof {
        assert(a.skip(a.len() as int) =~= Seq::<SpecAtom>::empty());
    }
    true
}

/// How many pictures the flattened paragraph holds.
fn para_count_pics(atoms: &Vec<HwpAtom>) -> (r: usize)
    ensures
        r as int == atoms_pics(atoms_model(atoms@)),
{
    let ghost a = atoms_model(atoms@);
    let mut count: usize = 0;
    let mut j: usize = 0;
    proof {
        assert(a.skip(0) =~= a);
    }
    while j < atoms.len()
        invariant
            j <= atoms.len(),
            count <= j,
            a == atoms_model(atoms@),
            a.len() == atoms@.len(),
            atoms_pics(a) == count + atoms_pics(a.skip(j as int)),
        decreases atoms.len() - j,
    {
        proof {
            assert(a.skip(j as int).drop_first() =~= a.skip(j as int + 1));
        }
        match &atoms[j] {
            HwpAtom::Run(t) => {},
            HwpAtom::Pic { alt, dest } => {
                count = count + 1;
            },
        }
        j = j + 1;
    }
    proof {
        assert(a.skip(a.len() as int) =~= Seq::<SpecAtom>::empty());
        lemma_atoms_pics_nonneg(a);
    }
    count
}

/// Peeling one paragraph off `doc_pics` at position `k`.
proof fn lemma_doc_pics_step(d: Seq<Seq<SpecInline>>, k: int)
    requires
        0 <= k < d.len(),
    ensures
        doc_pics(d.skip(k)) == para_pics(d[k]) + doc_pics(d.skip(k + 1)),
{
    assert(d.skip(k).drop_first() =~= d.skip(k + 1));
}

/// A document's picture count is never negative.
proof fn lemma_doc_pics_nonneg(d: Seq<Seq<SpecInline>>)
    ensures
        doc_pics(d) >= 0,
    decreases d.len(),
{
    if d.len() > 0 {
        lemma_atoms_pics_nonneg(atoms_of(d[0]));
        lemma_doc_pics_nonneg(d.drop_first());
    }
}

/// Peeling one paragraph off `hwp_of_doc_from` at position `k`.
proof fn lemma_hwp_doc_step(d: Seq<Seq<SpecInline>>, entries: Seq<SpecEntry>, k: int, st: SpecStatus)
    requires
        0 <= k < d.len(),
    ensures
        hwp_of_doc_from(d.skip(k), entries, k, st) == hwp_of_para(d[k], entry_for(entries, k), st)
            + hwp_of_doc_from(d.skip(k + 1), entries, k + 1, advance_by(st, para_pics(d[k]))),
{
    assert(d.skip(k).drop_first() =~= d.skip(k + 1));
}

/// Whether every picture of the parsed document carries well-formed
/// dimensions.
pub(crate) fn doc_dims_ok(doc: &Vec<Vec<Inline>>) -> (r: bool)
    ensures
        r == hwp_doc_wf(doc_model(doc@)),
{
    let ghost model = doc_model(doc@);
    let mut k: usize = 0;
    while k < doc.len()
        invariant
            k <= doc.len(),
            model == doc_model(doc@),
            model.len() == doc@.len(),
            forall|i: int| 0 <= i < k ==> atoms_wf(atoms_of(#[trigger] model[i])),
        decreases doc.len() - k,
    {
        let atoms = flatten_para(&doc[k]);
        if !para_atoms_wf(&atoms) {
            proof {
                assert(!atoms_wf(atoms_of(model[k as int])));
            }
            return false;
        }
        k = k + 1;
    }
    true
}

/// Counts the pictures of the parsed document, or reports that the
/// count alone already exceeds what any 32-bit counters can absorb.
pub(crate) fn count_doc_pics(doc: &Vec<Vec<Inline>>) -> (r: Option<u64>)
    ensures
        r matches Some(n) ==> n as int == doc_pics(doc_model(doc@)) && n <= u32::MAX as u64,
        r is None <==> doc_pics(doc_model(doc@)) > u32::MAX as int,
{
    let ghost model = doc_model(doc@);
    let mut total: u64 = 0;
    let mut k: usize = 0;
    proof {
        assert(model.skip(0) =~= model);
    }
    while k < doc.len()
        invariant
            k <= doc.len(),
            model == doc_model(doc@),
            model.len() == doc@.len(),
            total <= u32::MAX as u64,
            doc_pics(model) == total + doc_pics(model.skip(k as int)),
        decreases doc.len() - k,
    {
        proof {
            lemma_doc_pics_step(model, k as int);
            lemma_doc_pics_nonneg(model.skip(k as int + 1));
        }
        let atoms = flatten_para(&doc[k]);
        let c = para_count_pics(&atoms);
        if c as u64 > u32::MAX as u64 - total {
            proof {
                lemma_atoms_pics_nonneg(atoms_model(atoms@));
            }
            return None;
        }
        total = total + c as u64;
        k = k + 1;
    }
    proof {
        assert(model.skip(doc@.len() as int) =~= Seq::<Seq<SpecInline>>::empty());
    }
    Some(total)
}

/// Whether some configured entry's name holds an embedded null byte.
pub open spec fn hwp_names_nul(cfgs: Seq<HwpGenerateConfig>) -> bool {
    exists|i: int|
        0 <= i < cfgs.len() && contains_char((#[trigger] cfgs[i]).entry_name@, '\0')
}

/// Whether some configured entry's name holds an embedded null byte.
pub(crate) fn any_name_nul(cfgs: &Vec<HwpGenerateConfig>) -> (r: bool)
    ensures
        r == hwp_names_nul(cfgs@),
{
    let mut i: usize = 0;
    while i < cfgs.len()
        invariant
            i <= cfgs.len(),
            forall|k: int| 0 <= k < i ==> !contains_char((#[trigger] cfgs@[k]).entry_name@, '\0'),
        decreases cfgs.len() - i,
    {
        if contains_char_str(cfgs[i].entry_name.as_str(), '\0') {
            return true;
        }
        i = i + 1;
    }
    false
}

/// Renders a parsed document as HWP paragraph markup and advances the
/// caller's counters: one binary-item number and two instance and
/// stacking-order numbers per embedded picture.
#[verifier::rlimit(60)]
pub fn render_hwp_doc(
    doc: &Vec<Vec<Inline>>,
    cfgs: &Vec<HwpGenerateConfig>,
    st: &mut HwpConversionStatus,
) -> (r: String)
    requires
        cfgs@.len() > 0,
        hwp_doc_wf(doc_model(doc@)),
        old(st)@.bin_item + doc_pics(doc_model(doc@)) <= i32::MAX as int,
        old(st)@.inst_id + 2 * doc_pics(doc_model(doc@)) <= i32::MAX as int,
        old(st)@.z_order + 2 * doc_pics(doc_model(doc@)) <= i32::MAX as int,
    ensures
        r@ == hwp_of_doc(doc_model(doc@), entries_model(cfgs@), old(st)@),
        final(st)@ == advance_by(old(st)@, doc_pics(doc_model(doc@))),
{
    let ghost model = doc_model(doc@);
    let ghost entries = entries_model(cfgs@);
    let ghost st0 = st@;
    let mut out = String::new();
    let mut k: usize = 0;
    proof {
        assert(model.skip(0) =~= model);
    }
    while k < doc.len()
        invariant
            k <= doc.len(),
            model == doc_model(doc@),
            entries == entries_model(cfgs@),
            model.len() == doc@.len(),
            cfgs@.len() > 0,
            entries.len() == cfgs@.len(),
            hwp_doc_wf(model),
            hwp_of_doc_from(model, entries, 0, st0) == out@ + hwp_of_doc_from(
                model.skip(k as int),
                entries,
                k as int,
                st@,
            ),
            st@.bin_item + doc_pics(model.skip(k as int)) == st0.bin_item + doc_pics(model),
            st@.inst_id + 2 * doc_pics(model.skip(k as int)) == st0.inst_id + 2 * doc_pics(model),
            st@.z_order + 2 * doc_pics(model.skip(k as int)) == st0.z_order + 2 * doc_pics(model),
            st0.bin_item + doc_pics(model) <= i32::MAX as int,
            st0.inst_id + 2 * doc_pics(model) <= i32::MAX as int,
            st0.z_order + 2 * doc_pics(model) <= i32::MAX as int,
        decreases doc.len() - k,
    {
        let ghost st_before = st@;
        proof {
            lemma_hwp_doc_step(model, entries, k as int, st@);
            lemma_doc_pics_step(model, k as int);
            lemma_doc_pics_nonneg(model.skip(k as int + 1));
            lemma_atoms_pics_nonneg(atoms_of(model[k as int]));
        }
        let para = &doc[k];
        let atoms = flatten_para(para);
        let e = if k == 0 {
            &cfgs[0]
        } else {
            &cfgs[cfgs.len() - 1]
        };
        out.append("<P ParaShape=\"");
        append_dec_i32(&mut out, e.para_shape);
        out.append("\" Style=\"");
        append_dec_i32(&mut out, e.para_style);
        out.append("\">");
        append_para_runs(&mut out, &atoms, e.char_shape, st);
        out.append("</P>");
        k = k + 1;
        proof {
            assert(e@ == entry_for(entries, k - 1));
            assert(hwp_of_doc_from(model, entries, 0, st0) =~= out@ + hwp_of_doc_from(
                model.skip(k as int),
                entries,
                k as int,
                st@,
            ));
        }
    }
    proof {
        assert(model.skip(doc@.len() as int) =~= Seq::<Seq<SpecInline>>::empty());
        assert(out@ =~= hwp_of_doc_from(model, entries, 0, st0));
    }
    out
}

} // verus!
