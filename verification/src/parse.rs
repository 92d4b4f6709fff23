//! The markdown dialect the engine accepts, and its parser.
//!
//! A document is a sequence of paragraphs separated by blank lines (two
//! consecutive newlines); empty chunks between separators are dropped.
//! Within a paragraph, `**` opens a bold span that runs to the next `**`,
//! and `![alt](dest)` is an image reference.  An opener whose closing
//! delimiters never arrive is ordinary text, as is everything else.
use vstd::prelude::*;
use vstd::string::StrSliceExecFns;
use vstd::string::StringExecFns;

use crate::ast::Inline;
use crate::ast::SpecInline;
use crate::ast::doc_model;
use crate::ast::lemma_models_of;
use crate::ast::para_model;

verus! {

/// Whether `c` occurs in `s`.
pub open spec fn contains_char(s: Seq<char>, c: char) -> bool {
    exists|i: int| 0 <= i < s.len() && s[i] == c
}

/// The first index at or after `from` where `c` stands, or `s.len()`.
pub open spec fn find_char(s: Seq<char>, c: char, from: int) -> int
    decreases s.len() - from,
{
    if from < 0 || from >= s.len() {
        s.len() as int
    } else if s[from] == c {
        from
    } else {
        find_char(s, c, from + 1)
    }
}

/// The first index at or after `from` where the two characters `c0`, `c1`
/// stand adjacent, or `s.len()` when they never do.
pub open spec fn find_two(s: Seq<char>, c0: char, c1: char, from: int) -> int
    decreases s.len() - from,
{
    if from < 0 || from + 1 >= s.len() {
        s.len() as int
    } else if s[from] == c0 && s[from + 1] == c1 {
        from
    } else {
        find_two(s, c0, c1, from + 1)
    }
}

/// What `find_char` returns: the first occurrence, or the length.
pub proof fn lemma_find_char(s: Seq<char>, c: char, from: int)
    requires
        0 <= from <= s.len(),
    ensures
        from <= find_char(s, c, from) <= s.len(),
        find_char(s, c, from) < s.len() ==> s[find_char(s, c, from)] == c,
        forall|k: int| from <= k < find_char(s, c, from) ==> s[k] != c,
    decreases s.len() - from,
{
    if from < s.len() && s[from] != c {
        lemma_find_char(s, c, from + 1);
    }
}

/// What `find_two` returns: the first adjacent pair, or the length.
pub proof fn lemma_find_two(s: Seq<char>, c0: char, c1: char, from: int)
    requires
        0 <= from <= s.len(),
    ensures
        from <= find_two(s, c0, c1, from) <= s.len(),
        find_two(s, c0, c1, from) < s.len() ==> find_two(s, c0, c1, from) + 1 < s.len()
            && s[find_two(s, c0, c1, from)] == c0 && s[find_two(s, c0, c1, from) + 1] == c1,
        forall|k: int|
            from <= k < find_two(s, c0, c1, from) && k + 1 < s.len() ==> !((#[trigger] s[k]) == c0
                && s[k + 1] == c1),
    decreases s.len() - from,
{
    if from + 1 < s.len() && !(s[from] == c0 && s[from + 1] == c1) {
        lemma_find_two(s, c0, c1, from + 1);
    }
}

/// Whether a bold span opens at index `i`: its two stars, with a closing
/// pair somewhere after them.
pub open spec fn bold_open_at(s: Seq<char>, i: int) -> bool {
    &&& i + 1 < s.len()
    &&& s[i] == '*'
    &&& s[i + 1] == '*'
    &&& find_two(s, '*', '*', i + 2) < s.len()
}

/// Whether an image reference opens at index `i`: `![`, a `]` followed
/// directly by `(`, and a closing `)`.
pub open spec fn image_open_at(s: Seq<char>, i: int) -> bool {
    &&& i + 1 < s.len()
    &&& s[i] == '!'
    &&& s[i + 1] == '['
    &&& find_char(s, ']', i + 2) + 1 < s.len()
    &&& s[find_char(s, ']', i + 2) + 1] == '('
    &&& find_char(s, ')', find_char(s, ']', i + 2) + 2) < s.len()
}

/// Whether a bold span or an image reference opens at index `i`.
pub open spec fn token_at(s: Seq<char>, i: int) -> bool {
    bold_open_at(s, i) || image_open_at(s, i)
}

/// The first index at or after `from` where a token opens, or `s.len()`.
pub open spec fn find_token(s: Seq<char>, from: int) -> int
    decreases s.len() - from,
{
    if from < 0 || from >= s.len() {
        s.len() as int
    } else if token_at(s, from) {
        from
    } else {
        find_token(s, from + 1)
    }
}

/// What `find_token` returns: the first token opening, or the length.
pub proof fn lemma_find_token(s: Seq<char>, from: int)
    requires
        0 <= from <= s.len(),
    ensures
        from <= find_token(s, from) <= s.len(),
        find_token(s, from) < s.len() ==> token_at(s, find_token(s, from)),
        forall|k: int| from <= k < find_token(s, from) ==> !token_at(s, k),
    decreases s.len() - from,
{
    if from < s.len() && !token_at(s, from) {
        lemma_find_token(s, from + 1);
    }
}

/// The inline nodes of one paragraph chunk.
///
/// The chunk is consumed from the front: a bold opener takes the text up
/// to its first closing `**`; an image opener takes its alternative text
/// and destination; otherwise a text run extends to the next position
/// where a complete token opens.
pub open spec fn parse_inlines(s: Seq<char>) -> Seq<SpecInline>
    decreases s.len(),
    via parse_inlines_dec
{
    if s.len() == 0 {
        Seq::empty()
    } else if bold_open_at(s, 0) {
        let j = find_two(s, '*', '*', 2);
        seq![SpecInline::Bold(seq![SpecInline::Text(s.subrange(2, j))])] + parse_inlines(
            s.skip(j + 2),
        )
    } else if image_open_at(s, 0) {
        let a = find_char(s, ']', 2);
        let b = find_char(s, ')', a + 2);
        seq![SpecInline::Image { alt: s.subrange(2, a), dest: s.subrange(a + 2, b) }]
            + parse_inlines(s.skip(b + 1))
    } else {
        let e = find_token(s, 1);
        seq![SpecInline::Text(s.subrange(0, e))] + parse_inlines(s.skip(e))
    }
}

#[via_fn]
proof fn parse_inlines_dec(s: Seq<char>) {
    if s.len() != 0 {
        if bold_open_at(s, 0) {
            lemma_find_two(s, '*', '*', 2);
        } else if image_open_at(s, 0) {
            lemma_find_char(s, ']', 2);
            lemma_find_char(s, ')', find_char(s, ']', 2) + 2);
        } else {
            lemma_find_token(s, 1);
        }
    }
}

/// The paragraph chunks of a document: the pieces between blank-line
/// separators, empty pieces dropped.
pub open spec fn split_paras(s: Seq<char>) -> Seq<Seq<char>>
    decreases s.len(),
    via split_paras_dec
{
    if s.len() == 0 {
        Seq::empty()
    } else {
        let p = find_two(s, '\n', '\n', 0);
        if p >= s.len() {
            seq![s]
        } else if p == 0 {
            split_paras(s.skip(2))
        } else {
            seq![s.subrange(0, p)] + split_paras(s.skip(p + 2))
        }
    }
}

#[via_fn]
proof fn split_paras_dec(s: Seq<char>) {
    if s.len() != 0 {
        lemma_find_two(s, '\n', '\n', 0);
    }
}

/// The parsed document: every paragraph chunk, parsed.
pub open spec fn parse_doc(md: Seq<char>) -> Seq<Seq<SpecInline>> {
    Seq::new(split_paras(md).len(), |i: int| parse_inlines(split_paras(md)[i]))
}

/// Whether `c` occurs in `s`.
pub fn contains_char_str(s: &str, c: char) -> (r: bool)
    ensures
        r == contains_char(s@, c),
{
    let n = s.unicode_len();
    let f = find_char_from(s, c, 0);
    proof {
        lemma_find_char(s@, c, 0);
    }
    f < n
}

/// The first index at or after `from` where `c` stands, or the length.
pub(crate) fn find_char_from(s: &str, c: char, from: usize) -> (r: usize)
    requires
        from <= s@.len(),
    ensures
        r as int == find_char(s@, c, from as int),
{
    proof {
        lemma_find_char(s@, c, from as int);
    }
    let n = s.unicode_len();
    let mut i: usize = from;
    while i < n
        invariant
            from <= i <= n,
            n == s@.len(),
            forall|k: int| from <= k < i ==> s@[k] != c,
        decreases n - i,
    {
        if s.get_char(i) == c {
            proof {
                lemma_find_char(s@, c, from as int);
                let r = find_char(s@, c, from as int);
                if r < i {
                    assert(s@[r] != c);
                }
                if r > i {
                    assert(s@[i as int] != c);
                }
            }
            return i;
        }
        i = i + 1;
    }
    n
}

/// The first index at or after `from` where `c0`, `c1` stand adjacent,
/// or the length.
fn find_two_from(s: &str, c0: char, c1: char, from: usize) -> (r: usize)
    requires
        from <= s@.len(),
    ensures
        r as int == find_two(s@, c0, c1, from as int),
{
    proof {
        lemma_find_two(s@, c0, c1, from as int);
    }
    let n = s.unicode_len();
    let mut i: usize = from;
    while i < n && i + 1 < n
        invariant
            from <= i,
            i <= n,
            n == s@.len(),
            forall|k: int|
                from <= k < i && k + 1 < n ==> !((#[trigger] s@[k]) == c0 && s@[k + 1] == c1),
        decreases n - i,
    {
        if s.get_char(i) == c0 && s.get_char(i + 1) == c1 {
            proof {
                lemma_find_two(s@, c0, c1, from as int);
                let r = find_two(s@, c0, c1, from as int);
                if r < i {
                    assert(!((s@[r]) == c0 && s@[r + 1] == c1));
                }
                if r > i {
                    assert(!((s@[i as int]) == c0 && s@[i as int + 1] == c1));
                }
            }
            return i;
        }
        i = i + 1;
    }
    n
}

/// Whether a bold span or an image reference opens at index `i`.
fn is_token_at(s: &str, i: usize) -> (r: bool)
    requires
        i <= s@.len(),
    ensures
        r == token_at(s@, i as int),
{
    let n = s.unicode_len();
    if i >= n {
        return false;
    }
    if i + 1 >= n {
        return false;
    }
    let c0 = s.get_char(i);
    let c1 = s.get_char(i + 1);
    if c0 == '*' && c1 == '*' {
        proof {
            lemma_find_two(s@, '*', '*', i + 2 as int);
        }
        find_two_from(s, '*', '*', i + 2) < n
    } else if c0 == '!' && c1 == '[' {
        let a = find_char_from(s, ']', i + 2);
        proof {
            lemma_find_char(s@, ']', i + 2 as int);
        }
        if a >= n {
            return false;
        }
        if a + 1 >= n {
            return false;
        }
        if s.get_char(a + 1) != '(' {
            return false;
        }
        let b = find_char_from(s, ')', a + 2);
        b < n
    } else {
        false
    }
}

/// The first index at or after `from` where a token opens, or the length.
fn find_token_from(s: &str, from: usize) -> (r: usize)
    requires
        from <= s@.len(),
    ensures
        r as int == find_token(s@, from as int),
{
    proof {
        lemma_find_token(s@, from as int);
    }
    let n = s.unicode_len();
    let mut i: usize = from;
    while i < n
        invariant
            from <= i <= n,
            n == s@.len(),
            forall|k: int| from <= k < i ==> !token_at(s@, k),
        decreases n - i,
    {
        if is_token_at(s, i) {
            proof {
                lemma_find_token(s@, from as int);
                let r = find_token(s@, from as int);
                if r < i {
                    assert(!token_at(s@, r));
                }
                if r > i {
                    assert(!token_at(s@, i as int));
                }
            }
            return i;
        }
        i = i + 1;
    }
    n
}

/// A freshly owned copy of the characters of `s` between `from` and `to`.
fn copy_range(s: &str, from: usize, to: usize) -> (r: String)
    requires
        from <= to <= s@.len(),
    ensures
        r@ == s@.subrange(from as int, to as int),
{
    String::from_str(s.substring_char(from, to))
}

/// Parses one paragraph chunk into its inline nodes.
pub fn parse_inlines_str(s: &str) -> (r: Vec<Inline>)
    ensures
        para_model(r@) == parse_inlines(s@),
{
    let mut acc: Vec<Inline> = Vec::new();
    let mut rem: &str = s;
    let mut n = rem.unicode_len();
    proof {
        lemma_models_of(acc@);
        assert(para_model(acc@) + parse_inlines(rem@) =~= parse_inlines(s@));
    }
    while n > 0
        invariant
            n == rem@.len(),
            para_model(acc@) + parse_inlines(rem@) == parse_inlines(s@),
        decreases n,
    {
        let ghost prev = acc@;
        let ghost rem_prev = rem@;
        if is_token_at(rem, 0) && rem.get_char(0) == '*' {
            // A bold span opens the chunk.
            proof {
                lemma_find_two(rem@, '*', '*', 2);
            }
            let j = find_two_from(rem, '*', '*', 2);
            let inner = copy_range(rem, 2, j);
            let ghost inner_view = inner@;
            let mut children: Vec<Inline> = Vec::new();
            children.push(Inline::Text(inner));
            let ghost children_view = children@;
            acc.push(Inline::Bold(children));
            rem = rem.substring_char(j + 2, n);
            n = n - (j + 2);
            proof {
                let node = SpecInline::Bold(seq![SpecInline::Text(rem_prev.subrange(2, j as int))]);
                lemma_models_of(prev);
                lemma_models_of(acc@);
                lemma_models_of(children_view);
                assert(Inline::models_of(children_view) =~= seq![SpecInline::Text(inner_view)]);
                assert(acc@.last()@ == node);
                assert(para_model(acc@) =~= para_model(prev) + seq![node]);
                assert(rem@ =~= rem_prev.skip(j + 2));
                assert(para_model(acc@) + parse_inlines(rem@) =~= parse_inlines(s@));
            }
        } else if is_token_at(rem, 0) {
            // An image reference opens the chunk.
            proof {
                lemma_find_char(rem@, ']', 2);
                lemma_find_char(rem@, ')', find_char(rem@, ']', 2) + 2);
            }
            let a = find_char_from(rem, ']', 2);
            let b = find_char_from(rem, ')', a + 2);
            let alt = copy_range(rem, 2, a);
            let dest = copy_range(rem, a + 2, b);
            acc.push(Inline::Image { alt, dest });
            rem = rem.substring_char(b + 1, n);
            n = n - (b + 1);
            proof {
                let node = SpecInline::Image {
                    alt: rem_prev.subrange(2, a as int),
                    dest: rem_prev.subrange(a as int + 2, b as int),
                };
                lemma_models_of(prev);
                lemma_models_of(acc@);
                assert(para_model(acc@) =~= para_model(prev) + seq![node]);
                assert(rem@ =~= rem_prev.skip(b + 1));
                assert(para_model(acc@) + parse_inlines(rem@) =~= parse_inlines(s@));
            }
        } else {
            // A text run extends to the next complete token.
            proof {
                lemma_find_token(rem@, 1);
            }
            let e = find_token_from(rem, 1);
            let run = copy_range(rem, 0, e);
            acc.push(Inline::Text(run));
            rem = rem.substring_char(e, n);
            n = n - e;
            proof {
                let node = SpecInline::Text(rem_prev.subrange(0, e as int));
                lemma_models_of(prev);
                lemma_models_of(acc@);
                assert(para_model(acc@) =~= para_model(prev) + seq![node]);
                assert(rem@ =~= rem_prev.skip(e as int));
                assert(para_model(acc@) + parse_inlines(rem@) =~= parse_inlines(s@));
            }
        }
    }
    proof {
        assert(parse_inlines(rem@) =~= Seq::<SpecInline>::empty());
        assert(para_model(acc@) =~= parse_inlines(s@));
    }
    acc
}

/// Parses a whole document into its paragraphs of inline nodes.
pub fn parse_document(md: &str) -> (r: Vec<Vec<Inline>>)
    ensures
        doc_model(r@) == parse_doc(md@),
{
    let mut acc: Vec<Vec<Inline>> = Vec::new();
    let ghost mut done: Seq<Seq<char>> = Seq::empty();
    let mut rem: &str = md;
    let mut n = rem.unicode_len();
    proof {
        assert(split_paras(md@) =~= done + split_paras(rem@));
    }
    while n > 0
        invariant
            n == rem@.len(),
            split_paras(md@) == done + split_paras(rem@),
            acc@.len() == done.len(),
            forall|i: int|
                0 <= i < done.len() ==> para_model((#[trigger] acc@[i])@) == parse_inlines(done[i]),
        decreases n,
    {
        let ghost rem_prev = rem@;
        proof {
            lemma_find_two(rem@, '\n', '\n', 0);
        }
        let p = find_two_from(rem, '\n', '\n', 0);
        if p >= n {
            // No separator: the rest is the final paragraph chunk.
            let para = parse_inlines_str(rem);
            acc.push(para);
            proof {
                done = done + seq![rem_prev];
            }
            rem = rem.substring_char(n, n);
            n = 0;
            proof {
                assert(split_paras(rem_prev) =~= seq![rem_prev]);
                assert(rem@ =~= Seq::<char>::empty());
                assert(split_paras(rem@) =~= Seq::<Seq<char>>::empty());
                assert(split_paras(md@) =~= done + split_paras(rem@));
            }
        } else if p == 0 {
            // The chunk before the separator is empty: drop it.
            rem = rem.substring_char(2, n);
            n = n - 2;
            proof {
                assert(rem@ =~= rem_prev.skip(2));
            }
        } else {
            let chunk = rem.substring_char(0, p);
            let para = parse_inlines_str(chunk);
            acc.push(para);
            proof {
                done = done + seq![rem_prev.subrange(0, p as int)];
            }
            rem = rem.substring_char(p + 2, n);
            n = n - (p + 2);
            proof {
                assert(rem@ =~= rem_prev.skip(p + 2));
                assert(split_paras(rem_prev) =~= seq![rem_prev.subrange(0, p as int)]
                    + split_paras(rem@));
                assert(split_paras(md@) =~= done + split_paras(rem@));
            }
        }
    }
    proof {
        assert(split_paras(rem@) =~= Seq::<Seq<char>>::empty());
        assert(done =~= split_paras(md@));
        assert(doc_model(acc@) =~= parse_doc(md@));
    }
    acc
}

} // verus!
