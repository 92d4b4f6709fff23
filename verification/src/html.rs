//! The HTML renderer: each paragraph becomes a bare `<p>` element, bold
//! spans become a styled `<span>`, and image references become `<img>`
//! tags whose height is capped by the configured bound.
use vstd::prelude::*;
use vstd::string::StringExecFns;

use crate::ast::Inline;
use crate::ast::SpecInline;
use crate::ast::doc_model;
use crate::ast::lemma_models_of;
use crate::escape::append_attr_escaped;
use crate::escape::append_xml_text_escaped;
use crate::escape::attr_escape;
use crate::escape::xml_text_escape;
use crate::num::append_dec_i32;
use crate::num::dec_int;

verus! {

/// The HTML rendering of one inline node.
pub open spec fn html_of_inline(node: SpecInline, maxh: int) -> Seq<char>
    decreases node,
{
    match node {
        SpecInline::Text(t) => xml_text_escape(t),
        SpecInline::Bold(v) => "<span class='font-weight-bold'>"@ + html_of_inlines(v, maxh)
            + "</span>"@,
        SpecInline::Image { alt, dest } => "<img src='"@ + attr_escape(dest) + "' alt='"@
            + attr_escape(alt) + "' style='max-height:"@ + dec_int(maxh) + "px'/>"@,
    }
}

/// The HTML rendering of a sequence of inline nodes, in order.
pub open spec fn html_of_inlines(v: Seq<SpecInline>, maxh: int) -> Seq<char>
    decreases v,
{
    if v.len() == 0 {
        Seq::empty()
    } else {
        html_of_inline(v[0], maxh) + html_of_inlines(v.drop_first(), maxh)
    }
}

/// The HTML rendering of one paragraph.
pub open spec fn html_of_para(p: Seq<SpecInline>, maxh: int) -> Seq<char> {
    "<p>"@ + html_of_inlines(p, maxh) + "</p>"@
}

/// The HTML rendering of a whole document: its paragraphs, in order.
pub open spec fn html_of_doc(d: Seq<Seq<SpecInline>>, maxh: int) -> Seq<char>
    decreases d.len(),
{
    if d.len() == 0 {
        Seq::empty()
    } else {
        html_of_para(d[0], maxh) + html_of_doc(d.drop_first(), maxh)
    }
}

/// Peeling one node off `html_of_inlines` at position `j`.
proof fn lemma_html_of_inlines_step(v: Seq<SpecInline>, maxh: int, j: int)
    requires
        0 <= j < v.len(),
    ensures
        html_of_inlines(v.skip(j), maxh) == html_of_inline(v[j], maxh) + html_of_inlines(
            v.skip(j + 1),
            maxh,
        ),
{
    assert(v.skip(j).drop_first() =~= v.skip(j + 1));
}

/// Peeling one paragraph off `html_of_doc` at position `j`.
proof fn lemma_html_of_doc_step(d: Seq<Seq<SpecInline>>, maxh: int, j: int)
    requires
        0 <= j < d.len(),
    ensures
        html_of_doc(d.skip(j), maxh) == html_of_para(d[j], maxh) + html_of_doc(
            d.skip(j + 1),
            maxh,
        ),
{
    assert(d.skip(j).drop_first() =~= d.skip(j + 1));
}

/// Appends the HTML rendering of one inline node to `out`.
fn append_inline_html(out: &mut String, node: &Inline, maxh: i32)
    ensures
        final(out)@ == old(out)@ + html_of_inline(node@, maxh as int),
    decreases node,
{
    match node {
        Inline::Text(t) => {
            append_xml_text_escaped(out, t.as_str());
        },
        Inline::Bold(children) => {
            out.append("<span class='font-weight-bold'>");
            let ghost mid = out@;
            let ghost models = Inline::models_of(children@);
            let mut j: usize = 0;
            proof {
                lemma_models_of(children@);
                assert(models.skip(0) =~= models);
            }
            while j < children.len()
                invariant
                    j <= children.len(),
                    *node == Inline::Bold(*children),
                    models == Inline::models_of(children@),
                    models.len() == children@.len(),
                    forall|i: int| 0 <= i < children@.len() ==> models[i] == #[trigger] (
                    children@[i])@,
                    mid + html_of_inlines(models, maxh as int) == out@ + html_of_inlines(
                        models.skip(j as int),
                        maxh as int,
                    ),
                decreases children.len() - j,
            {
                proof {
                    lemma_html_of_inlines_step(models, maxh as int, j as int);
                    broadcast use vstd::std_specs::vec::axiom_vec_decreases_to_view;
                    broadcast use vstd::seq::axiom_seq_index_decreases;

                    assert(decreases_to!(*node => node->Bold_0));
                    assert(node->Bold_0 == *children);
                    assert(decreases_to!(*children => children@));
                    assert(decreases_to!(children@ => children@[j as int]));
                }
                append_inline_html(out, &children[j], maxh);
                j = j + 1;
            }
            proof {
                assert(models.skip(children@.len() as int) =~= Seq::<SpecInline>::empty());
                assert(out@ =~= mid + html_of_inlines(models, maxh as int));
            }
            out.append("</span>");
            proof {
                assert(out@ =~= old(out)@ + html_of_inline(node@, maxh as int));
            }
        },
        Inline::Image { alt, dest } => {
            out.append("<img src='");
            append_attr_escaped(out, dest.as_str());
            out.append("' alt='");
            append_attr_escaped(out, alt.as_str());
            out.append("' style='max-height:");
            append_dec_i32(out, maxh);
            out.append("px'/>");
            proof {
                assert(out@ =~= old(out)@ + html_of_inline(node@, maxh as int));
            }
        },
    }
}

/// Renders a parsed document as one HTML fragment.
pub fn render_html_doc(doc: &Vec<Vec<Inline>>, maxh: i32) -> (r: String)
    ensures
        r@ == html_of_doc(doc_model(doc@), maxh as int),
{
    let ghost model = doc_model(doc@);
    let mut out = String::new();
    let mut k: usize = 0;
    proof {
        assert(model.skip(0) =~= model);
        assert(out@ + html_of_inlines(Seq::empty(), maxh as int) =~= Seq::<char>::empty());
    }
    while k < doc.len()
        invariant
            k <= doc.len(),
            model == doc_model(doc@),
            model.len() == doc@.len(),
            html_of_doc(model, maxh as int) == out@ + html_of_doc(
                model.skip(k as int),
                maxh as int,
            ),
        decreases doc.len() - k,
    {
        proof {
            lemma_html_of_doc_step(model, maxh as int, k as int);
        }
        let para = &doc[k];
        out.append("<p>");
        let ghost mid = out@;
        let ghost models = Inline::models_of(para@);
        let mut j: usize = 0;
        proof {
            lemma_models_of(para@);
            assert(models.skip(0) =~= models);
            assert(model[k as int] == models);
        }
        while j < para.len()
            invariant
                j <= para.len(),
                models == Inline::models_of(para@),
                models.len() == para@.len(),
                forall|i: int| 0 <= i < para@.len() ==> models[i] == #[trigger] (para@[i])@,
                mid + html_of_inlines(models, maxh as int) == out@ + html_of_inlines(
                    models.skip(j as int),
                    maxh as int,
                ),
            decreases para.len() - j,
        {
            proof {
                lemma_html_of_inlines_step(models, maxh as int, j as int);
            }
            append_inline_html(&mut out, &para[j], maxh);
            j = j + 1;
        }
        proof {
            assert(models.skip(para@.len() as int) =~= Seq::<SpecInline>::empty());
            assert(out@ =~= mid + html_of_inlines(models, maxh as int));
        }
        out.append("</p>");
        k = k + 1;
        proof {
            assert(html_of_doc(model, maxh as int) =~= out@ + html_of_doc(
                model.skip(k as int),
                maxh as int,
            ));
        }
    }
    proof {
        assert(model.skip(doc@.len() as int) =~= Seq::<Seq<SpecInline>>::empty());
        assert(out@ =~= html_of_doc(model, maxh as int));
    }
    out
}

} // verus!
