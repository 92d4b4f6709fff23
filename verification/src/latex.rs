//! The LaTeX renderer: each paragraph becomes its inline content framed
//! by newlines, bold spans become `\textbf{}`, and image references
//! become `figure` environments whose path is joined to a base image
//! directory — or nothing at all when images are suppressed.
use vstd::prelude::*;
use vstd::string::StrSliceExecFns;
use vstd::string::StringExecFns;

use crate::ast::Inline;
use crate::ast::SpecInline;
use crate::ast::doc_model;
use crate::ast::lemma_models_of;
use crate::escape::append_latex_escaped;
use crate::escape::latex_escape;

verus! {

/// `base` and `dest` joined with exactly one path separator between
/// them.  Neither side is otherwise altered.
pub open spec fn path_join(base: Seq<char>, dest: Seq<char>) -> Seq<char> {
    if base.len() > 0 && base.last() == '/' && dest.len() > 0 && dest.first() == '/' {
        base + dest.drop_first()
    } else if (base.len() > 0 && base.last() == '/') || (dest.len() > 0 && dest.first() == '/') {
        base + dest
    } else {
        base + seq!['/'] + dest
    }
}

/// The `figure` environment for one included image.
pub open spec fn latex_figure(base: Seq<char>, dest: Seq<char>) -> Seq<char> {
    "\n\\begin{figure}[H]\n\\centering\n\\includegraphics[max width=0.7\\linewidth]{"@ + path_join(
        base,
        dest,
    ) + "}\n\\end{figure}\n"@
}

/// The LaTeX rendering of one inline node.
pub open spec fn latex_of_inline(node: SpecInline, base: Seq<char>, suppress: bool) -> Seq<char>
    decreases node,
{
    match node {
        SpecInline::Text(t) => latex_escape(t),
        SpecInline::Bold(v) => "\\textbf{"@ + latex_of_inlines(v, base, suppress) + "}"@,
        SpecInline::Image { alt, dest } => if suppress {
            Seq::empty()
        } else {
            latex_figure(base, dest)
        },
    }
}

/// The LaTeX rendering of a sequence of inline nodes, in order.
pub open spec fn latex_of_inlines(v: Seq<SpecInline>, base: Seq<char>, suppress: bool) -> Seq<char>
    decreases v,
{
    if v.len() == 0 {
        Seq::empty()
    } else {
        latex_of_inline(v[0], base, suppress) + latex_of_inlines(v.drop_first(), base, suppress)
    }
}

/// The LaTeX rendering of one paragraph: its content framed by newlines.
pub open spec fn latex_of_para(p: Seq<SpecInline>, base: Seq<char>, suppress: bool) -> Seq<char> {
    "\n"@ + latex_of_inlines(p, base, suppress) + "\n"@
}

/// The LaTeX rendering of a whole document: its paragraphs, in order.
pub open spec fn latex_of_doc(d: Seq<Seq<SpecInline>>, base: Seq<char>, suppress: bool) -> Seq<
    char,
>
    decreases d.len(),
{
    if d.len() == 0 {
        Seq::empty()
    } else {
        latex_of_para(d[0], base, suppress) + latex_of_doc(d.drop_first(), base, suppress)
    }
}

/// `v` with every image reference removed, inside bold spans too.
pub open spec fn strip_images(v: Seq<SpecInline>) -> Seq<SpecInline>
    decreases v,
{
    if v.len() == 0 {
        Seq::empty()
    } else {
        (match v[0] {
            SpecInline::Text(t) => seq![SpecInline::Text(t)],
            SpecInline::Bold(b) => seq![SpecInline::Bold(strip_images(b))],
            SpecInline::Image { alt, dest } => Seq::empty(),
        }) + strip_images(v.drop_first())
    }
}

/// `d` with every image reference removed from every paragraph.
pub open spec fn strip_doc_images(d: Seq<Seq<SpecInline>>) -> Seq<Seq<SpecInline>> {
    Seq::new(d.len(), |i: int| strip_images(d[i]))
}

/// Suppression elides exactly the figure blocks: within one paragraph,
/// rendering with images suppressed equals rendering the same content
/// with the images removed, everything else preserved.
pub proof fn lemma_suppress_inlines(v: Seq<SpecInline>, base: Seq<char>)
    ensures
        latex_of_inlines(v, base, true) == latex_of_inlines(strip_images(v), base, false),
    decreases v,
{
    if v.len() > 0 {
        lemma_suppress_inlines(v.drop_first(), base);
        assert(latex_of_inlines(v, base, true) == latex_of_inline(v[0], base, true)
            + latex_of_inlines(v.drop_first(), base, true));
        match v[0] {
            SpecInline::Text(t) => {
                assert(strip_images(v).drop_first() =~= strip_images(v.drop_first()));
                assert(strip_images(v)[0] == SpecInline::Text(t));
                assert(strip_images(v).len() > 0);
                assert(latex_of_inlines(strip_images(v), base, false) == latex_of_inline(
                    strip_images(v)[0],
                    base,
                    false,
                ) + latex_of_inlines(strip_images(v).drop_first(), base, false));
                assert(latex_of_inline(strip_images(v)[0], base, false) == latex_escape(t));
                assert(latex_of_inlines(v, base, true) == latex_of_inlines(
                    strip_images(v),
                    base,
                    false,
                ));
            },
            SpecInline::Bold(b) => {
                lemma_suppress_inlines(b, base);
                assert(strip_images(v).drop_first() =~= strip_images(v.drop_first()));
                assert(strip_images(v)[0] == SpecInline::Bold(strip_images(b)));
                assert(strip_images(v).len() > 0);
                assert(latex_of_inlines(strip_images(v), base, false) == latex_of_inline(
                    strip_images(v)[0],
                    base,
                    false,
                ) + latex_of_inlines(strip_images(v).drop_first(), base, false));
                assert(latex_of_inline(strip_images(v)[0], base, false) == latex_of_inline(
                    v[0],
                    base,
                    true,
                ));
                assert(latex_of_inlines(v, base, true) == latex_of_inlines(
                    strip_images(v),
                    base,
                    false,
                ));
            },
            SpecInline::Image { alt, dest } => {
                assert(strip_images(v) =~= strip_images(v.drop_first()));
                assert(Seq::<char>::empty() + latex_of_inlines(v.drop_first(), base, true)
                    =~= latex_of_inlines(v.drop_first(), base, true));
                assert(latex_of_inlines(v, base, true) == latex_of_inlines(
                    strip_images(v),
                    base,
                    false,
                ));
            },
        }
    }
}

/// Suppression elides exactly the figure blocks, document-wide: the
/// output with images suppressed is byte-identical to the output of
/// the same document with its image references removed, so the
/// surrounding text and whitespace are untouched.
pub proof fn lemma_suppress_images_elides_figures(d: Seq<Seq<SpecInline>>, base: Seq<char>)
    ensures
        latex_of_doc(d, base, true) == latex_of_doc(strip_doc_images(d), base, false),
    decreases d.len(),
{
    if d.len() > 0 {
        lemma_suppress_inlines(d[0], base);
        lemma_suppress_images_elides_figures(d.drop_first(), base);
        assert(strip_doc_images(d).drop_first() =~= strip_doc_images(d.drop_first()));
    }
}

/// Peeling one node off `latex_of_inlines` at position `j`.
proof fn lemma_latex_of_inlines_step(v: Seq<SpecInline>, base: Seq<char>, suppress: bool, j: int)
    requires
        0 <= j < v.len(),
    ensures
        latex_of_inlines(v.skip(j), base, suppress) == latex_of_inline(v[j], base, suppress)
            + latex_of_inlines(v.skip(j + 1), base, suppress),
{
    assert(v.skip(j).drop_first() =~= v.skip(j + 1));
}

/// Peeling one paragraph off `latex_of_doc` at position `j`.
proof fn lemma_latex_of_doc_step(d: Seq<Seq<SpecInline>>, base: Seq<char>, suppress: bool, j: int)
    requires
        0 <= j < d.len(),
    ensures
        latex_of_doc(d.skip(j), base, suppress) == latex_of_para(d[j], base, suppress)
            + latex_of_doc(d.skip(j + 1), base, suppress),
{
    assert(d.skip(j).drop_first() =~= d.skip(j + 1));
}

/// Appends `base` and `dest` joined by exactly one separator.
fn append_path_join(out: &mut String, base: &str, dest: &str)
    ensures
        final(out)@ == old(out)@ + path_join(base@, dest@),
{
    let blen = base.unicode_len();
    let dlen = dest.unicode_len();
    let base_slash = blen > 0 && base.get_char(blen - 1) == '/';
    let dest_slash = dlen > 0 && dest.get_char(0) == '/';
    out.append(base);
    if base_slash && dest_slash {
        out.append(dest.substring_char(1, dlen));
        proof {
            assert(dest@.subrange(1, dlen as int) =~= dest@.drop_first());
            assert(out@ =~= old(out)@ + path_join(base@, dest@));
        }
    } else if base_slash || dest_slash {
        out.append(dest);
    } else {
        out.append("/");
        out.append(dest);
        proof {
            reveal_strlit("/");
            assert("/"@ =~= seq!['/']);
            assert(out@ =~= old(out)@ + path_join(base@, dest@));
        }
    }
}

/// Appends the LaTeX rendering of one inline node to `out`.
fn append_inline_latex(out: &mut String, node: &Inline, base: &str, suppress: bool)
    ensures
        final(out)@ == old(out)@ + latex_of_inline(node@, base@, suppress),
    decreases node,
{
    match node {
        Inline::Text(t) => {
            append_latex_escaped(out, t.as_str());
        },
        Inline::Bold(children) => {
            out.append("\\textbf{");
            let ghost mid = out@;
            let ghost models = Inline::models_of(children@);
            let mut j: usize = 0;
            proof {
                lemma_models_of(children@);
                assert(models.skip(0) =~= models);
            }
            while j < children.len()
                invariant
                    j <= children.len(),
                    *node == Inline::Bold(*children),
                    models == Inline::models_of(children@),
                    models.len() == children@.len(),
                    forall|i: int| 0 <= i < children@.len() ==> models[i] == #[trigger] (
                    children@[i])@,
                    mid + latex_of_inlines(models, base@, suppress) == out@ + latex_of_inlines(
                        models.skip(j as int),
                        base@,
                        suppress,
                    ),
                decreases children.len() - j,
            {
                proof {
                    lemma_latex_of_inlines_step(models, base@, suppress, j as int);
                    broadcast use vstd::std_specs::vec::axiom_vec_decreases_to_view;
                    broadcast use vstd::seq::axiom_seq_index_decreases;

                    assert(decreases_to!(*node => node->Bold_0));
                    assert(node->Bold_0 == *children);
                    assert(decreases_to!(*children => children@));
                    assert(decreases_to!(children@ => children@[j as int]));
                }
                append_inline_latex(out, &children[j], base, suppress);
                j = j + 1;
            }
            proof {
                assert(models.skip(children@.len() as int) =~= Seq::<SpecInline>::empty());
                assert(out@ =~= mid + latex_of_inlines(models, base@, suppress));
            }
            out.append("}");
            proof {
                assert(out@ =~= old(out)@ + latex_of_inline(node@, base@, suppress));
            }
        },
        Inline::Image { alt, dest } => {
            if !suppress {
                out.append(
                    "\n\\begin{figure}[H]\n\\centering\n\\includegraphics[max width=0.7\\linewidth]{",
                );
                append_path_join(out, base, dest.as_str());
                out.append("}\n\\end{figure}\n");
                proof {
                    assert(out@ =~= old(out)@ + latex_of_inline(node@, base@, suppress));
                }
            }
        },
    }
}

/// Renders a parsed document as one LaTeX fragment.
pub fn render_latex_doc(doc: &Vec<Vec<Inline>>, base: &str, suppress: bool) -> (r: String)
    ensures
        r@ == latex_of_doc(doc_model(doc@), base@, suppress),
{
    let ghost model = doc_model(doc@);
    let mut out = String::new();
    let mut k: usize = 0;
    proof {
        assert(model.skip(0) =~= model);
    }
    while k < doc.len()
        invariant
            k <= doc.len(),
            model == doc_model(doc@),
            model.len() == doc@.len(),
            latex_of_doc(model, base@, suppress) == out@ + latex_of_doc(
                model.skip(k as int),
                base@,
                suppress,
            ),
        decreases doc.len() - k,
    {
        proof {
            lemma_latex_of_doc_step(model, base@, suppress, k as int);
        }
        let para = &doc[k];
        out.append("\n");
        let ghost mid = out@;
        let ghost models = Inline::models_of(para@);
        let mut j: usize = 0;
        proof {
            lemma_models_of(para@);
            assert(models.skip(0) =~= models);
            assert(model[k as int] == models);
        }
        while j < para.len()
            invariant
                j <= para.len(),
                models == Inline::models_of(para@),
                models.len() == para@.len(),
                forall|i: int| 0 <= i < para@.len() ==> models[i] == #[trigger] (para@[i])@,
                mid + latex_of_inlines(models, base@, suppress) == out@ + latex_of_inlines(
                    models.skip(j as int),
                    base@,
                    suppress,
                ),
            decreases para.len() - j,
        {
            proof {
                lemma_latex_of_inlines_step(models, base@, suppress, j as int);
            }
            append_inline_latex(&mut out, &para[j], base, suppress);
            j = j + 1;
        }
        proof {
            assert(models.skip(para@.len() as int) =~= Seq::<SpecInline>::empty());
            assert(out@ =~= mid + latex_of_inlines(models, base@, suppress));
        }
        out.append("\n");
        k = k + 1;
        proof {
            assert(latex_of_doc(model, base@, suppress) =~= out@ + latex_of_doc(
                model.skip(k as int),
                base@,
                suppress,
            ));
        }
    }
    proof {
        assert(model.skip(doc@.len() as int) =~= Seq::<Seq<SpecInline>>::empty());
        assert(out@ =~= latex_of_doc(model, base@, suppress));
    }
    out
}

} // verus!
