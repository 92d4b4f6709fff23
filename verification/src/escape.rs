//! Escaping of markup-significant characters.
//!
//! HTML text and HWP `<CHAR>` content share the XML text escapes
//! (`&`, `<`, `>`); HTML attribute values additionally escape the
//! apostrophe, since the engine writes single-quoted attributes.  LaTeX
//! text escapes the eight characters that TeX treats specially.
use vstd::prelude::*;
use vstd::string::StrSliceExecFns;
use vstd::string::StringExecFns;

verus! {

/// The expansion of `c` in XML (and HTML) text content.
pub open spec fn xml_text_escape_char(c: char) -> Seq<char> {
    if c == '&' {
        "&amp;"@
    } else if c == '<' {
        "&lt;"@
    } else if c == '>' {
        "&gt;"@
    } else {
        seq![c]
    }
}

/// The expansion of `c` in a single-quoted HTML attribute value.
pub open spec fn attr_escape_char(c: char) -> Seq<char> {
    if c == '\'' {
        "&#39;"@
    } else {
        xml_text_escape_char(c)
    }
}

/// The expansion of `c` in LaTeX text.
pub open spec fn latex_escape_char(c: char) -> Seq<char> {
    if c == '\\' {
        "\\textbackslash{}"@
    } else if c == '%' {
        "\\%"@
    } else if c == '&' {
        "\\&"@
    } else if c == '_' {
        "\\_"@
    } else if c == '#' {
        "\\#"@
    } else if c == '{' {
        "\\{"@
    } else if c == '}' {
        "\\}"@
    } else if c == '$' {
        "\\$"@
    } else {
        seq![c]
    }
}

/// `s` with every character expanded for XML text content.
pub open spec fn xml_text_escape(s: Seq<char>) -> Seq<char>
    decreases s.len(),
{
    if s.len() == 0 {
        Seq::empty()
    } else {
        xml_text_escape_char(s[0]) + xml_text_escape(s.drop_first())
    }
}

/// `s` with every character expanded for a single-quoted attribute value.
pub open spec fn attr_escape(s: Seq<char>) -> Seq<char>
    decreases s.len(),
{
    if s.len() == 0 {
        Seq::empty()
    } else {
        attr_escape_char(s[0]) + attr_escape(s.drop_first())
    }
}

/// `s` with every character expanded for LaTeX text.
pub open spec fn latex_escape(s: Seq<char>) -> Seq<char>
    decreases s.len(),
{
    if s.len() == 0 {
        Seq::empty()
    } else {
        latex_escape_char(s[0]) + latex_escape(s.drop_first())
    }
}

/// Peeling one character off an escape at position `i`.
pub proof fn lemma_xml_text_escape_step(s: Seq<char>, i: int)
    requires
        0 <= i < s.len(),
    ensures
        xml_text_escape(s.skip(i)) == xml_text_escape_char(s[i]) + xml_text_escape(s.skip(i + 1)),
{
    assert(s.skip(i).drop_first() =~= s.skip(i + 1));
}

/// Peeling one character off an attribute escape at position `i`.
pub proof fn lemma_attr_escape_step(s: Seq<char>, i: int)
    requires
        0 <= i < s.len(),
    ensures
        attr_escape(s.skip(i)) == attr_escape_char(s[i]) + attr_escape(s.skip(i + 1)),
{
    assert(s.skip(i).drop_first() =~= s.skip(i + 1));
}

/// Peeling one character off a LaTeX escape at position `i`.
pub proof fn lemma_latex_escape_step(s: Seq<char>, i: int)
    requires
        0 <= i < s.len(),
    ensures
        latex_escape(s.skip(i)) == latex_escape_char(s[i]) + latex_escape(s.skip(i + 1)),
{
    assert(s.skip(i).drop_first() =~= s.skip(i + 1));
}

/// Appends one plain character of `s`, the one at index `i`, to `out`.
fn append_char_at(out: &mut String, s: &str, i: usize)
    requires
        i < s@.len(),
        s@.len() <= usize::MAX,
    ensures
        final(out)@ == old(out)@ + seq![s@[i as int]],
{
    out.append(s.substring_char(i, i + 1));
    proof {
        assert(s@.subrange(i as int, i as int + 1) =~= seq![s@[i as int]]);
    }
}

/// Appends `s` to `out`, escaped for XML text content.
pub fn append_xml_text_escaped(out: &mut String, s: &str)
    ensures
        final(out)@ == old(out)@ + xml_text_escape(s@),
{
    let n = s.unicode_len();
    let mut i: usize = 0;
    proof {
        assert(s@.skip(0) =~= s@);
    }
    while i < n
        invariant
            i <= n,
            n == s@.len(),
            old(out)@ + xml_text_escape(s@) == out@ + xml_text_escape(s@.skip(i as int)),
        decreases n - i,
    {
        proof {
            lemma_xml_text_escape_step(s@, i as int);
        }
        let c = s.get_char(i);
        if c == '&' {
            out.append("&amp;");
        } else if c == '<' {
            out.append("&lt;");
        } else if c == '>' {
            out.append("&gt;");
        } else {
            append_char_at(out, s, i);
        }
        i = i + 1;
        proof {
            assert(old(out)@ + xml_text_escape(s@) =~= out@ + xml_text_escape(s@.skip(i as int)));
        }
    }
    proof {
        assert(s@.skip(n as int) =~= Seq::<char>::empty());
        assert(out@ =~= old(out)@ + xml_text_escape(s@));
    }
}

/// Appends `s` to `out`, escaped for a single-quoted attribute value.
pub fn append_attr_escaped(out: &mut String, s: &str)
    ensures
        final(out)@ == old(out)@ + attr_escape(s@),
{
    let n = s.unicode_len();
    let mut i: usize = 0;
    proof {
        assert(s@.skip(0) =~= s@);
    }
    while i < n
        invariant
            i <= n,
            n == s@.len(),
            old(out)@ + attr_escape(s@) == out@ + attr_escape(s@.skip(i as int)),
        decreases n - i,
    {
        proof {
            lemma_attr_escape_step(s@, i as int);
        }
        let c = s.get_char(i);
        if c == '&' {
            out.append("&amp;");
        } else if c == '<' {
            out.append("&lt;");
        } else if c == '>' {
            out.append("&gt;");
        } else if c == '\'' {
            out.append("&#39;");
        } else {
            append_char_at(out, s, i);
        }
        i = i + 1;
        proof {
            assert(old(out)@ + attr_escape(s@) =~= out@ + attr_escape(s@.skip(i as int)));
        }
    }
    proof {
        assert(s@.skip(n as int) =~= Seq::<char>::empty());
        assert(out@ =~= old(out)@ + attr_escape(s@));
    }
}

/// Appends `s` to `out`, escaped for LaTeX text.
pub fn append_latex_escaped(out: &mut String, s: &str)
    ensures
        final(out)@ == old(out)@ + latex_escape(s@),
{
    let n = s.unicode_len();
    let mut i: usize = 0;
    proof {
        assert(s@.skip(0) =~= s@);
    }
    while i < n
        invariant
            i <= n,
            n == s@.len(),
            old(out)@ + latex_escape(s@) == out@ + latex_escape(s@.skip(i as int)),
        decreases n - i,
    {
        proof {
            lemma_latex_escape_step(s@, i as int);
        }
        let c = s.get_char(i);
        if c == '\\' {
            out.append("\\textbackslash{}");
        } else if c == '%' {
            out.append("\\%");
        } else if c == '&' {
            out.append("\\&");
        } else if c == '_' {
            out.append("\\_");
        } else if c == '#' {
            out.append("\\#");
        } else if c == '{' {
            out.append("\\{");
        } else if c == '}' {
            out.append("\\}");
        } else if c == '$' {
            out.append("\\$");
        } else {
            append_char_at(out, s, i);
        }
        i = i + 1;
        proof {
            assert(old(out)@ + latex_escape(s@) =~= out@ + latex_escape(s@.skip(i as int)));
        }
    }
    proof {
        assert(s@.skip(n as int) =~= Seq::<char>::empty());
        assert(out@ =~= old(out)@ + latex_escape(s@));
    }
}

} // verus!
