use vstd::prelude::*;

use crate::chars::is_white_space;
use crate::dom::{SpecNode, SpecNodeType};
use crate::html::{
    close_tag_open, comment_close, comment_open, find_comment_close, is_name_char, lemma_scan_exact, name_pred, not_char,
    parsed_text, spec_parse, spec_parse_attr, spec_parse_attrs, spec_parse_element,
    spec_parse_node, spec_parse_nodes, starts_with_at, whitespace_pred,
};

verus! {

// ---------------------------------------------------------------------------------------------
// Writing a tree as HTML, and reading it back.
// ---------------------------------------------------------------------------------------------

/// A tree to be written as HTML: a text, a comment, or an element. Each attribute is (the spacing before it, key, value), in the
/// order written; each child comes with the spacing before it; `end_pad` is the spacing before
/// the closing tag.
pub enum Doc {
    Text(Seq<char>),
    Comment(Seq<char>),
    Element {
        tag: Seq<char>,
        attrs: Seq<(Seq<char>, Seq<char>, Seq<char>)>,
        children: Seq<(Seq<char>, Doc)>,
        end_pad: Seq<char>,
    },
}

/// The spacing characters of HTML: space, tab, line feed, form feed and carriage return.
pub open spec fn is_space_char(c: char) -> bool {
    c == ' ' || c == '\t' || c == '\n' || c == '\u{c}' || c == '\r'
}

/// Every character of `t` is a spacing character.
pub open spec fn spaces(t: Seq<char>) -> bool {
    forall|i: int| 0 <= i < t.len() ==> is_space_char(#[trigger] t[i])
}

/// `spacing key="value"`.
pub open spec fn ser_attr(a: (Seq<char>, Seq<char>, Seq<char>)) -> Seq<char> {
    a.0 + a.1 + seq!['=', '"'] + a.2 + seq!['"']
}

/// The attributes, each written as `spacing key="value"`, in order.
pub open spec fn ser_attrs(attrs: Seq<(Seq<char>, Seq<char>, Seq<char>)>) -> Seq<char>
    decreases attrs.len(),
{
    if attrs.len() == 0 {
        Seq::empty()
    } else {
        ser_attr(attrs[0]) + ser_attrs(attrs.drop_first())
    }
}

/// The HTML text of a tree: a text as it is, a comment as `<!--text-->`, an element as
/// `<tag attrs>children end_pad</tag>`.
pub open spec fn ser(d: Doc) -> Seq<char>
    decreases d,
{
    match d {
        Doc::Text(t) => t,
        Doc::Comment(t) => comment_open() + t + comment_close(),
        Doc::Element { tag, attrs, children, end_pad } => seq!['<'] + tag + ser_attrs(attrs)
            + seq!['>'] + ser_list(children) + end_pad + seq!['<', '/'] + tag + seq!['>'],
    }
}

/// The children, each written as its spacing and then its HTML text.
pub open spec fn ser_list(cs: Seq<(Seq<char>, Doc)>) -> Seq<char>
    decreases cs,
{
    if cs.len() == 0 {
        Seq::empty()
    } else {
        cs[0].0 + ser(cs[0].1) + ser_list(cs.drop_first())
    }
}

/// The attributes added in order to `acc`; a later one replaces an earlier one with the same key.
pub open spec fn attrs_map(
    attrs: Seq<(Seq<char>, Seq<char>, Seq<char>)>,
    acc: Map<Seq<char>, Seq<char>>,
) -> Map<Seq<char>, Seq<char>>
    decreases attrs.len(),
{
    if attrs.len() == 0 {
        acc
    } else {
        attrs_map(attrs.drop_first(), acc.insert(attrs[0].1, attrs[0].2))
    }
}

/// The DOM value of a tree.
pub open spec fn doc_node(d: Doc) -> SpecNode
    decreases d,
{
    match d {
        Doc::Text(t) => SpecNode { node_type: SpecNodeType::Text(t), children: Seq::empty() },
        Doc::Comment(t) => SpecNode { node_type: SpecNodeType::Comment(t), children: Seq::empty() },
        Doc::Element { tag, attrs, children, end_pad } => SpecNode {
            node_type: SpecNodeType::Element { tag_name: tag, attrs: attrs_map(attrs, Map::empty()) },
            children: doc_nodes(children),
        },
    }
}

/// The DOM values of the children.
pub open spec fn doc_nodes(cs: Seq<(Seq<char>, Doc)>) -> Seq<SpecNode>
    decreases cs,
{
    Seq::new(
        cs.len(),
        |i: int|
            if 0 <= i < cs.len() {
                doc_node(cs[i].1)
            } else {
                SpecNode { node_type: SpecNodeType::Text(Seq::empty()), children: Seq::empty() }
            },
    )
}

/// Every character of `t` is a name character.
pub open spec fn name_chars(t: Seq<char>) -> bool {
    forall|i: int| 0 <= i < t.len() ==> is_name_char(#[trigger] t[i])
}

/// An attribute that reads back as written: it is preceded by at least one spacing character
/// (and only those), its key is made of name characters and does not start with whitespace,
/// and its value holds no `"`.
pub open spec fn attr_ok(a: (Seq<char>, Seq<char>, Seq<char>)) -> bool {
    &&& a.0.len() > 0
    &&& spaces(a.0)
    &&& name_chars(a.1)
    &&& a.1.len() > 0 ==> !is_white_space(a.1[0])
    &&& forall|i: int| 0 <= i < a.2.len() ==> #[trigger] a.2[i] != '"'
}

/// A text that starts with whitespace.
pub open spec fn whitespace_led(d: Doc) -> bool {
    d matches Doc::Text(t) && t.len() > 0 && is_white_space(t[0])
}

/// The conditions on the children of an element and on the spacing before its closing tag:
/// each child reads back as written and is not a text that starts with whitespace; all spacing
/// is spacing characters; no two texts are next to each other; and there is no spacing right
/// after a text (it would belong to the text).
pub open spec fn children_wf(cs: Seq<(Seq<char>, Doc)>, end_pad: Seq<char>) -> bool
    decreases cs, 0int,
{
    &&& forall|i: int|
        0 <= i < cs.len() ==> doc_wf(#[trigger] cs[i].1) && !whitespace_led(cs[i].1) && spaces(
            cs[i].0,
        )
    &&& forall|i: int|
        0 <= i < cs.len() - 1 ==> (#[trigger] cs[i].1 is Text ==> !(cs[i + 1].1 is Text) && cs[i
            + 1].0.len() == 0)
    &&& spaces(end_pad)
    &&& cs.len() > 0 && cs[cs.len() - 1].1 is Text ==> end_pad.len() == 0
}

/// A comment text that reads back as written: the first `-->` of `t-->` is the one at its end.
pub open spec fn comment_ok(t: Seq<char>) -> bool {
    forall|i: int| 0 <= i < t.len() ==> !#[trigger] starts_with_at(t + comment_close(), i, comment_close())
}

/// A tree that reads back as written: texts are non-empty and hold no `<`; comments are
/// `comment_ok`; tag names are made of name characters; attributes are `attr_ok`; and the children are `children_wf`.
pub open spec fn doc_wf(d: Doc) -> bool
    decreases d, 1int,
{
    match d {
        Doc::Text(t) => parsed_text(t),
        Doc::Comment(t) => comment_ok(t),
        Doc::Element { tag, attrs, children, end_pad } => {
            &&& name_chars(tag)
            &&& forall|i: int| 0 <= i < attrs.len() ==> attr_ok(#[trigger] attrs[i])
            &&& children_wf(children, end_pad)
        },
    }
}

// ---------------------------------------------------------------------------------------------
// Lemmas on positions.
// ---------------------------------------------------------------------------------------------

/// `x + y` at `p` is `x` at `p` and `y` right after it.
proof fn lemma_split(s: Seq<char>, p: int, x: Seq<char>, y: Seq<char>)
    requires
        starts_with_at(s, p, x + y),
    ensures
        starts_with_at(s, p, x),
        starts_with_at(s, p + x.len(), y),
{
    let xy = x + y;
    assert forall|i: int| 0 <= i < x.len() implies s.subrange(p, p + x.len())[i] == x[i] by {
        assert(s.subrange(p, p + xy.len())[i] == xy[i]);
    }
    assert(s.subrange(p, p + x.len()) =~= x);
    assert forall|i: int| 0 <= i < y.len() implies s.subrange(p + x.len(), p + x.len() + y.len())[i]
        == y[i] by {
        assert(s.subrange(p, p + xy.len())[x.len() + i] == xy[x.len() + i]);
    }
    assert(s.subrange(p + x.len(), p + x.len() + y.len()) =~= y);
}

/// The character at `p`, where `x` is.
proof fn lemma_char_at(s: Seq<char>, p: int, x: Seq<char>, i: int)
    requires
        starts_with_at(s, p, x),
        0 <= i < x.len(),
    ensures
        s[p + i] == x[i],
{
    assert(s.subrange(p, p + x.len())[i] == x[i]);
}

/// The ASCII characters that HTML is written with are not name characters.
proof fn lemma_markup_chars()
    ensures
        !is_name_char(' '),
        !is_name_char('='),
        !is_name_char('>'),
        !is_name_char('/'),
        !is_name_char('!'),
        !is_name_char('<'),
        is_white_space(' '),
        !is_white_space('<'),
        !is_white_space('='),
        !is_space_char('<'),
        !is_space_char('/'),
        !is_space_char('!'),
        !is_space_char('>'),
        forall|c: char| is_space_char(c) ==> is_white_space(c),
{
}

// ---------------------------------------------------------------------------------------------
// Reading back.
// ---------------------------------------------------------------------------------------------

/// Written attributes followed by `>` read back as the same map.
proof fn lemma_read_attrs(
    s: Seq<char>,
    p: int,
    attrs: Seq<(Seq<char>, Seq<char>, Seq<char>)>,
    acc: Map<Seq<char>, Seq<char>>,
)
    requires
        starts_with_at(s, p, ser_attrs(attrs) + seq!['>']),
        forall|i: int| 0 <= i < attrs.len() ==> attr_ok(#[trigger] attrs[i]),
    ensures
        spec_parse_attrs(s, p, acc) == Some((attrs_map(attrs, acc), p + ser_attrs(attrs).len())),
    decreases attrs.len(),
{
    lemma_markup_chars();
    lemma_split(s, p, ser_attrs(attrs), seq!['>']);
    if attrs.len() == 0 {
        lemma_char_at(s, p, seq!['>'], 0);
    } else {
        let a = attrs[0];
        let rest = attrs.drop_first();
        assert(attr_ok(a));
        assert(ser_attrs(attrs) + seq!['>'] =~= ser_attr(a) + (ser_attrs(rest) + seq!['>']));
        lemma_split(s, p, ser_attr(a), ser_attrs(rest) + seq!['>']);
        let k0 = p + a.0.len();
        let k1 = k0 + a.1.len();
        let v0 = k1 + 2;
        let v1 = v0 + a.2.len();
        let r = v1 + 1;
        // the pieces of `spacing key="value"`
        assert(ser_attr(a) =~= a.0 + a.1 + (seq!['=', '"'] + a.2 + seq!['"']));
        lemma_split(s, p, a.0 + a.1, seq!['=', '"'] + a.2 + seq!['"']);
        lemma_split(s, p, a.0, a.1);
        assert(seq!['=', '"'] + a.2 + seq!['"'] =~= seq!['=', '"'] + (a.2 + seq!['"']));
        lemma_split(s, k1, seq!['=', '"'], a.2 + seq!['"']);
        lemma_split(s, v0, a.2, seq!['"']);
        lemma_char_at(s, p, a.0, 0);
        lemma_char_at(s, k1, seq!['=', '"'], 0);
        lemma_char_at(s, k1, seq!['=', '"'], 1);
        lemma_char_at(s, v1, seq!['"'], 0);
        lemma_split(s, r, ser_attrs(rest), seq!['>']);
        // skipping whitespace stops right after the spacing
        if a.1.len() > 0 {
            lemma_char_at(s, k0, a.1, 0);
        }
        assert forall|i: int| p <= i < k0 implies whitespace_pred()(#[trigger] s[i]) by {
            lemma_char_at(s, p, a.0, i - p);
            assert(is_space_char(a.0[i - p]));
        }
        lemma_scan_exact(s, p, k0, whitespace_pred());
        // the key
        assert forall|i: int| k0 <= i < k1 implies name_pred()(#[trigger] s[i]) by {
            lemma_char_at(s, k0, a.1, i - k0);
        }
        lemma_scan_exact(s, k0, k1, name_pred());
        // the value
        assert forall|i: int| v0 <= i < v1 implies not_char('"')(#[trigger] s[i]) by {
            lemma_char_at(s, v0, a.2, i - v0);
        }
        lemma_scan_exact(s, v0, v1, not_char('"'));
        assert(s.subrange(k0, k1) == a.1);
        assert(s.subrange(v0, v1) == a.2);
        assert(spec_parse_attr(s, k0) == Some((a.1, a.2, r)));
        assert forall|i: int| 0 <= i < rest.len() implies attr_ok(#[trigger] rest[i]) by {
            assert(rest[i] == attrs[i + 1]);
        }
        lemma_read_attrs(s, r, rest, acc.insert(a.1, a.2));
        assert(ser_attrs(attrs).len() == ser_attr(a).len() + ser_attrs(rest).len());
    }
}

/// The first characters of a written element or comment: `<` and then a name character, a
/// spacing character or `>` (for an element) or `!` (for a comment).
proof fn lemma_element_head(s: Seq<char>, p: int, d: Doc)
    requires
        !(d is Text),
        doc_wf(d),
        starts_with_at(s, p, ser(d)),
    ensures
        p + 1 < s.len(),
        s[p] == '<',
        s[p + 1] != '/',
        d is Element ==> s[p + 1] != '!',
        ser(d).len() > 0,
{
    lemma_markup_chars();
    if let Doc::Comment(t) = d {
        lemma_char_at(s, p, ser(d), 0);
        lemma_char_at(s, p, ser(d), 1);
    }
    if let Doc::Element { tag, attrs, children, end_pad } = d {
        let x = ser(d);
        let rest = ser_attrs(attrs) + seq!['>'] + ser_list(children) + end_pad + seq!['<', '/'] + tag
            + seq!['>'];
        assert(x =~= seq!['<'] + (tag + rest));
        lemma_split(s, p, seq!['<'], tag + rest);
        lemma_char_at(s, p, seq!['<'], 0);
        if tag.len() > 0 {
            lemma_char_at(s, p + 1, tag + rest, 0);
            assert(is_name_char(tag[0]));
        } else {
            if attrs.len() > 0 {
                assert(attr_ok(attrs[0]));
                assert(ser_attrs(attrs)[0] == attrs[0].0[0]);
                assert(is_space_char(attrs[0].0[0]));
            }
            lemma_char_at(s, p + 1, tag + rest, 0);
        }
    }
}

/// A written tree reads back as its DOM value (a text must be followed by `<` or the end).
#[verifier::rlimit(30)]
proof fn lemma_read_node(s: Seq<char>, p: int, d: Doc)
    requires
        doc_wf(d),
        starts_with_at(s, p, ser(d)),
        d is Text ==> p + ser(d).len() == s.len() || s[p + ser(d).len()] == '<',
    ensures
        spec_parse_node(s, p) == Some((doc_node(d), p + ser(d).len())),
        ser(d).len() > 0,
    decreases d,
{
    lemma_markup_chars();
    match d {
        Doc::Text(t) => {
            let e = p + t.len();
            lemma_char_at(s, p, t, 0);
            assert forall|i: int| p <= i < e implies not_char('<')(#[trigger] s[i]) by {
                lemma_char_at(s, p, t, i - p);
            }
            lemma_scan_exact(s, p, e, not_char('<'));
        },
        Doc::Comment(t) => {
            let x = ser(d);
            assert(x =~= comment_open() + (t + comment_close()));
            lemma_split(s, p, comment_open(), t + comment_close());
            lemma_char_at(s, p, comment_open(), 0);
            lemma_split(s, p + 4, t, comment_close());
            lemma_read_comment(s, p + 4, t);
            assert(s.subrange(p + 4, p + 4 + t.len()) == t);
        },
        Doc::Element { tag, attrs, children, end_pad } => {
            lemma_element_head(s, p, d);
            let t0 = p + 1;
            let t1 = t0 + tag.len();
            let a1 = t1 + ser_attrs(attrs).len();
            let c0 = a1 + 1;
            let c1 = c0 + ser_list(children).len();
            let e1 = c1 + end_pad.len();
            let g0 = e1 + 2;
            let g1 = g0 + tag.len();
            let x = ser(d);
            assert(x =~= seq!['<'] + tag + (ser_attrs(attrs) + seq!['>']) + ser_list(children)
                + end_pad + (seq!['<', '/'] + tag + seq!['>']));
            lemma_split(
                s,
                p,
                seq!['<'] + tag + (ser_attrs(attrs) + seq!['>']) + ser_list(children) + end_pad,
                seq!['<', '/'] + tag + seq!['>'],
            );
            lemma_split(
                s,
                p,
                seq!['<'] + tag + (ser_attrs(attrs) + seq!['>']) + ser_list(children),
                end_pad,
            );
            lemma_split(s, p, seq!['<'] + tag + (ser_attrs(attrs) + seq!['>']), ser_list(children));
            lemma_split(s, p, seq!['<'] + tag, ser_attrs(attrs) + seq!['>']);
            lemma_split(s, p, seq!['<'], tag);
            lemma_split(s, t1, ser_attrs(attrs), seq!['>']);
            lemma_char_at(s, a1, seq!['>'], 0);
            assert(seq!['<', '/'] + tag + seq!['>'] =~= seq!['<', '/'] + (tag + seq!['>']));
            lemma_split(s, e1, seq!['<', '/'], tag + seq!['>']);
            lemma_split(s, g0, tag, seq!['>']);
            lemma_char_at(s, e1, seq!['<', '/'], 0);
            lemma_char_at(s, e1, seq!['<', '/'], 1);
            lemma_char_at(s, g1, seq!['>'], 0);
            // not a comment
            assert(!starts_with_at(s, p, comment_open())) by {
                if starts_with_at(s, p, comment_open()) {
                    lemma_char_at(s, p, comment_open(), 1);
                }
            }
            // the tag name
            if ser_attrs(attrs).len() > 0 {
                lemma_char_at(s, t1, ser_attrs(attrs), 0);
                if attrs.len() > 0 {
                    assert(attr_ok(attrs[0]));
                    assert(ser_attrs(attrs)[0] == attrs[0].0[0]);
                    assert(is_space_char(attrs[0].0[0]));
                }
            }
            assert forall|i: int| t0 <= i < t1 implies name_pred()(#[trigger] s[i]) by {
                lemma_char_at(s, t0, tag, i - t0);
            }
            lemma_scan_exact(s, t0, t1, name_pred());
            assert(s.subrange(t0, t1) == tag);
            // the attributes
            lemma_read_attrs(s, t1, attrs, Map::empty());
            // the children
            assert(starts_with_at(s, e1, close_tag_open()));
            lemma_read_nodes(s, c0, children, end_pad);
            // the closing tag
            assert forall|i: int| g0 <= i < g1 implies not_char('>')(#[trigger] s[i]) by {
                lemma_char_at(s, g0, tag, i - g0);
                assert(is_name_char(tag[i - g0]));
            }
            lemma_scan_exact(s, g0, g1, not_char('>'));
            assert(spec_parse_element(s, p) == Some((doc_node(d), g1 + 1)));
        },
    }
}

/// The end of a comment that holds `t` is found right after `t`.
proof fn lemma_read_comment(s: Seq<char>, q: int, t: Seq<char>)
    requires
        0 <= q,
        starts_with_at(s, q, t + comment_close()),
        comment_ok(t),
    ensures
        find_comment_close(s, q) == Some(q + t.len()),
    decreases t.len(),
{
    let u = t + comment_close();
    if t.len() == 0 {
        assert(s.subrange(q, q + 3) =~= comment_close());
    } else {
        assert(!starts_with_at(u, 0, comment_close()));
        assert(!starts_with_at(s, q, comment_close())) by {
            if starts_with_at(s, q, comment_close()) {
                assert forall|i: int| 0 <= i < 3 implies u.subrange(0, 3)[i] == comment_close()[i] by {
                    lemma_char_at(s, q, u, i);
                    lemma_char_at(s, q, comment_close(), i);
                }
                assert(u.subrange(0, 3) =~= comment_close());
            }
        }
        let t2 = t.drop_first();
        assert(u =~= seq![t[0]] + (t2 + comment_close()));
        lemma_split(s, q, seq![t[0]], t2 + comment_close());
        assert forall|i: int| 0 <= i < t2.len() implies !#[trigger] starts_with_at(
            t2 + comment_close(),
            i,
            comment_close(),
        ) by {
            let u2 = t2 + comment_close();
            if starts_with_at(u2, i, comment_close()) {
                assert(u.subrange(i + 1, i + 4) =~= u2.subrange(i, i + 3));
                assert(starts_with_at(u, i + 1, comment_close()));
            }
        }
        lemma_read_comment(s, q + 1, t2);
    }
}

/// Written children and spacing followed by `</` read back as the children's DOM values.
proof fn lemma_read_nodes(s: Seq<char>, p: int, cs: Seq<(Seq<char>, Doc)>, end_pad: Seq<char>)
    requires
        children_wf(cs, end_pad),
        starts_with_at(s, p, ser_list(cs)),
        starts_with_at(s, p + ser_list(cs).len(), end_pad),
        starts_with_at(s, p + ser_list(cs).len() + end_pad.len(), close_tag_open()),
    ensures
        spec_parse_nodes(s, p) == Some((doc_nodes(cs), p + ser_list(cs).len() + end_pad.len())),
    decreases cs,
{
    lemma_markup_chars();
    let e = p + ser_list(cs).len() + end_pad.len();
    lemma_char_at(s, e, close_tag_open(), 0);
    if cs.len() == 0 {
        assert(doc_nodes(cs) =~= Seq::<SpecNode>::empty());
        if end_pad.len() > 0 {
            lemma_char_at(s, p, end_pad, 0);
            assert(!starts_with_at(s, p, close_tag_open())) by {
                if starts_with_at(s, p, close_tag_open()) {
                    lemma_char_at(s, p, close_tag_open(), 0);
                }
            }
            assert forall|i: int| p <= i < e implies whitespace_pred()(#[trigger] s[i]) by {
                lemma_char_at(s, p, end_pad, i - p);
                assert(is_space_char(end_pad[i - p]));
            }
            lemma_scan_exact(s, p, e, whitespace_pred());
        }
    } else {
        let w = cs[0].0;
        let d = cs[0].1;
        let rest = cs.drop_first();
        let x = p + w.len();
        let r = x + ser(d).len();
        assert(ser_list(cs) =~= w + (ser(d) + ser_list(rest)));
        lemma_split(s, p, w, ser(d) + ser_list(rest));
        lemma_split(s, x, ser(d), ser_list(rest));
        assert(doc_wf(d) && !whitespace_led(d) && spaces(w));
        // what follows a text is `<`
        if d is Text {
            if rest.len() > 0 {
                assert(cs[0].1 is Text);
                assert(cs[1].0.len() == 0 && !(cs[1].1 is Text));
                assert(rest[0] == cs[1]);
                assert(ser_list(rest) =~= rest[0].0 + ser(rest[0].1) + ser_list(rest.drop_first()));
                assert(rest[0].0 =~= Seq::<char>::empty());
                lemma_split(s, r, ser(rest[0].1), ser_list(rest.drop_first()));
                assert(doc_wf(cs[1].1));
                lemma_element_head(s, r, rest[0].1);
            } else {
                assert(cs[cs.len() - 1].1 is Text);
                assert(end_pad.len() == 0);
            }
        }
        lemma_read_node(s, x, d);
        // the first character of the child is not whitespace and does not start `</`
        if let Doc::Text(t) = d {
            lemma_char_at(s, x, t, 0);
        } else {
            lemma_element_head(s, x, d);
        }
        assert(!starts_with_at(s, x, close_tag_open())) by {
            if starts_with_at(s, x, close_tag_open()) {
                lemma_char_at(s, x, close_tag_open(), 0);
                lemma_char_at(s, x, close_tag_open(), 1);
            }
        }
        // nor does the spacing before it
        if w.len() > 0 {
            lemma_char_at(s, p, w, 0);
            assert(!starts_with_at(s, p, close_tag_open())) by {
                if starts_with_at(s, p, close_tag_open()) {
                    lemma_char_at(s, p, close_tag_open(), 0);
                }
            }
        }
        assert forall|i: int| p <= i < x implies whitespace_pred()(#[trigger] s[i]) by {
            lemma_char_at(s, p, w, i - p);
            assert(is_space_char(w[i - p]));
        }
        lemma_scan_exact(s, p, x, whitespace_pred());
        assert(children_wf(rest, end_pad)) by {
            assert forall|i: int| 0 <= i < rest.len() implies doc_wf(#[trigger] rest[i].1)
                && !whitespace_led(rest[i].1) && spaces(rest[i].0) by {
                assert(rest[i] == cs[i + 1]);
            }
            assert forall|i: int| 0 <= i < rest.len() - 1 && (#[trigger] rest[i]).1 is Text implies !(
            rest[i + 1].1 is Text) && rest[i + 1].0.len() == 0 by {
                assert(rest[i] == cs[i + 1]);
                assert(rest[i + 1] == cs[i + 2]);
            }
            if rest.len() > 0 {
                assert(rest[rest.len() - 1] == cs[cs.len() - 1]);
            }
        }
        lemma_read_nodes(s, r, rest, end_pad);
        assert(doc_nodes(cs) =~= seq![doc_node(d)] + doc_nodes(rest));
    }
}

/// Reading back what is written: a tree whose texts are non-empty and hold no `<`, whose
/// comments hold no `-->` before their end, whose tag names and attribute keys are made of name characters (keys not starting
/// with whitespace), whose attribute values hold no `"`, and whose children include no text
/// that starts with whitespace and no two texts next to each other, when written as HTML
/// (`ser`: attributes in any order, each after any non-empty run of spacing characters, and
/// any run of spacing characters before a child or the closing tag, except right after a text)
/// and parsed, gives its own DOM value.
pub proof fn lemma_parse_serialized(d: Doc)
    requires
        doc_wf(d),
    ensures
        spec_parse(ser(d)) == Some(doc_node(d)),
{
    let s = ser(d);
    assert(s.subrange(0, s.len() as int) =~= s);
    lemma_read_node(s, 0, d);
}

} // verus!
