//! The document model: a document is a sequence of paragraphs, and a
//! paragraph is a sequence of inline nodes (plain text, a bold span, or an
//! image reference).  `SpecInline` is the mathematical model of an inline
//! node; the executable `Inline` carries the same shape over `String` and
//! `Vec` and views into the model.
use vstd::prelude::*;

verus! {

/// Mathematical model of one inline node of a paragraph.
///
/// Bold spans hold a sequence of child nodes, so the grammar allows
/// nested emphasis.  An image reference carries its alternative text and
/// its link destination verbatim; what the destination means (a path, or
/// an encoded dimension pair) is decided by each renderer.
pub enum SpecInline {
    Text(Seq<char>),
    Bold(Seq<SpecInline>),
    Image { alt: Seq<char>, dest: Seq<char> },
}

/// One inline node of a parsed paragraph.
pub enum Inline {
    Text(String),
    Bold(Vec<Inline>),
    Image { alt: String, dest: String },
}

impl Inline {
    /// The mathematical value of this node.
    pub open spec fn model(self) -> SpecInline
        decreases self,
    {
        match self {
            Inline::Text(s) => SpecInline::Text(s@),
            Inline::Bold(v) => SpecInline::Bold(Inline::models_of(v@)),
            Inline::Image { alt, dest } => SpecInline::Image { alt: alt@, dest: dest@ },
        }
    }

    /// The mathematical value of a sequence of nodes, element by element.
    pub open spec fn models_of(v: Seq<Inline>) -> Seq<SpecInline>
        decreases v,
    {
        if v.len() == 0 {
            Seq::empty()
        } else {
            seq![v[0].model()] + Inline::models_of(v.drop_first())
        }
    }
}

impl View for Inline {
    type V = SpecInline;

    open spec fn view(&self) -> SpecInline {
        self.model()
    }
}

/// `models_of` maps the sequence pointwise.
pub proof fn lemma_models_of(v: Seq<Inline>)
    ensures
        Inline::models_of(v).len() == v.len(),
        forall|i: int| 0 <= i < v.len() ==> #[trigger] Inline::models_of(v)[i] == v[i]@,
    decreases v.len(),
{
    if v.len() > 0 {
        lemma_models_of(v.drop_first());
    }
}

/// The model of a paragraph: the models of its inline nodes.
pub open spec fn para_model(p: Seq<Inline>) -> Seq<SpecInline> {
    Inline::models_of(p)
}

/// The model of a document: the models of its paragraphs.
pub open spec fn doc_model(d: Seq<Vec<Inline>>) -> Seq<Seq<SpecInline>> {
    Seq::new(d.len(), |i: int| para_model(d[i]@))
}

} // verus!
