use vstd::prelude::*;

use crate::chars::{alphanumeric, chars_of, is_white_space, is_whitespace};
use crate::dom::{nodes_view, AttrMap, Node, NodeType, SpecNode, SpecNodeType};
use crate::strmap::StrMap;

verus! {

// ---------------------------------------------------------------------------------------------
// The grammar, as spec functions over the characters of the input.
// Every function returns `None` exactly where the parser stops on malformed input.
// ---------------------------------------------------------------------------------------------

/// The first position at or after `p` whose character fails `f` (or the end of `s`).
pub open spec fn scan_while(s: Seq<char>, p: int, f: spec_fn(char) -> bool) -> int
    decreases s.len() - p,
{
    if 0 <= p < s.len() && f(s[p]) {
        scan_while(s, p + 1, f)
    } else {
        p
    }
}

/// A scan ends between its start and the end of `s`, every character it passes satisfies `f`,
/// and the character where it stops does not.
pub proof fn lemma_scan_while(s: Seq<char>, p: int, f: spec_fn(char) -> bool)
    requires
        0 <= p <= s.len(),
    ensures
        p <= scan_while(s, p, f) <= s.len(),
        forall|i: int| p <= i < scan_while(s, p, f) ==> f(#[trigger] s[i]),
        scan_while(s, p, f) < s.len() ==> !f(s[scan_while(s, p, f)]),
    decreases s.len() - p,
{
    if p < s.len() && f(s[p]) {
        lemma_scan_while(s, p + 1, f);
    }
}

/// Characters that can form a tag name or an attribute name.
pub open spec fn is_name_char(c: char) -> bool {
    alphanumeric(c) || c == '-'
}

/// Whitespace characters.
pub open spec fn whitespace_pred() -> spec_fn(char) -> bool {
    |c: char| is_white_space(c)
}

/// Name characters.
pub open spec fn name_pred() -> spec_fn(char) -> bool {
    |c: char| is_name_char(c)
}

/// Characters other than `x`.
pub open spec fn not_char(x: char) -> spec_fn(char) -> bool {
    |c: char| c != x
}

/// `s` holds `t` at position `p`.
pub open spec fn starts_with_at(s: Seq<char>, p: int, t: Seq<char>) -> bool {
    0 <= p && p + t.len() <= s.len() && s.subrange(p, p + t.len()) == t
}

/// The start of a closing tag.
pub open spec fn close_tag_open() -> Seq<char> {
    seq!['<', '/']
}

/// The start of a comment.
pub open spec fn comment_open() -> Seq<char> {
    seq!['<', '!', '-', '-']
}

/// The end of a comment.
pub open spec fn comment_close() -> Seq<char> {
    seq!['-', '-', '>']
}

/// The first position at or after `p` that holds the end of a comment.
pub open spec fn find_comment_close(s: Seq<char>, p: int) -> Option<int>
    decreases s.len() - p,
{
    if p < 0 || p + 3 > s.len() {
        None
    } else if starts_with_at(s, p, comment_close()) {
        Some(p)
    } else {
        find_comment_close(s, p + 1)
    }
}

/// A comment `<!--text-->` at `p`: the comment node and the position after it.
pub open spec fn spec_parse_comment(s: Seq<char>, p: int) -> Option<(SpecNode, int)> {
    match find_comment_close(s, p + 4) {
        Some(e) => Some(
            (
                SpecNode {
                    node_type: SpecNodeType::Comment(s.subrange(p + 4, e)),
                    children: Seq::empty(),
                },
                e + 3,
            ),
        ),
        None => None,
    }
}

/// One attribute `key="value"` at `q`: the key, the value and the position after it.
pub open spec fn spec_parse_attr(s: Seq<char>, q: int) -> Option<(Seq<char>, Seq<char>, int)> {
    let k = scan_while(s, q, name_pred());
    if 0 <= k && k + 1 < s.len() && s[k] == '=' && s[k + 1] == '"' {
        let v = scan_while(s, k + 2, not_char('"'));
        if v < s.len() {
            Some((s.subrange(q, k), s.subrange(k + 2, v), v + 1))
        } else {
            None
        }
    } else {
        None
    }
}

/// The attributes from `p` up to the `>` that ends the opening tag, added in order to `acc`
/// (a later attribute with the same key replaces an earlier one); also the position of that `>`.
pub open spec fn spec_parse_attrs(s: Seq<char>, p: int, acc: Map<Seq<char>, Seq<char>>) -> Option<
    (Map<Seq<char>, Seq<char>>, int),
>
    decreases s.len() - p,
{
    if !(0 <= p < s.len()) {
        None
    } else if s[p] == '>' {
        Some((acc, p))
    } else {
        let q = scan_while(s, p, whitespace_pred());
        match spec_parse_attr(s, q) {
            Some((key, value, r)) => {
                proof {
                    lemma_scan_while(s, p, whitespace_pred());
                    lemma_scan_while(s, q, name_pred());
                    let k = scan_while(s, q, name_pred());
                    lemma_scan_while(s, k + 2, not_char('"'));
                }
                spec_parse_attrs(s, r, acc.insert(key, value))
            },
            None => None,
        }
    }
}

/// One node at `p`: an element, a comment, or a text node that runs up to the next `<`;
/// also the position after it.
pub open spec fn spec_parse_node(s: Seq<char>, p: int) -> Option<(SpecNode, int)>
    decreases s.len() - p, 1int,
{
    if !(0 <= p < s.len()) {
        None
    } else if s[p] == '<' {
        if starts_with_at(s, p, comment_open()) {
            spec_parse_comment(s, p)
        } else {
            spec_parse_element(s, p)
        }
    } else {
        let e = scan_while(s, p, not_char('<'));
        Some(
            (
                SpecNode { node_type: SpecNodeType::Text(s.subrange(p, e)), children: Seq::empty() },
                e,
            ),
        )
    }
}

/// An element `<name attrs>children</...>` at `p`, and the position after it.
pub open spec fn spec_parse_element(s: Seq<char>, p: int) -> Option<(SpecNode, int)>
    decreases s.len() - p, 0int,
{
    if !(0 <= p < s.len()) {
        None
    } else {
        let t = scan_while(s, p + 1, name_pred());
        match spec_parse_attrs(s, t, Map::empty()) {
            Some((attrs, a)) => {
                proof {
                    lemma_scan_while(s, p + 1, name_pred());
                }
                if !(t <= a < s.len()) {
                    None
                } else {
                    match spec_parse_nodes(s, a + 1) {
                        Some((children, b)) => {
                            if 0 <= b && b + 1 < s.len() && s[b] == '<' && s[b + 1] == '/' {
                                let c = scan_while(s, b + 2, not_char('>'));
                                if c < s.len() {
                                    Some(
                                        (
                                            SpecNode {
                                                node_type: SpecNodeType::Element {
                                                    tag_name: s.subrange(p + 1, t),
                                                    attrs,
                                                },
                                                children,
                                            },
                                            c + 1,
                                        ),
                                    )
                                } else {
                                    None
                                }
                            } else {
                                None
                            }
                        },
                        None => None,
                    }
                }
            },
            None => None,
        }
    }
}

/// The nodes from `p` up to the end of the input or the next `</`, with the whitespace
/// before each node skipped; also the position where they end.
pub open spec fn spec_parse_nodes(s: Seq<char>, p: int) -> Option<(Seq<SpecNode>, int)>
    decreases s.len() - p, 2int,
{
    if !(0 <= p <= s.len()) {
        None
    } else if p == s.len() || starts_with_at(s, p, close_tag_open()) {
        Some((Seq::empty(), p))
    } else {
        let q = scan_while(s, p, whitespace_pred());
        proof {
            lemma_scan_while(s, p, whitespace_pred());
        }
        if q == s.len() || starts_with_at(s, q, close_tag_open()) {
            Some((Seq::empty(), q))
        } else {
            match spec_parse_node(s, q) {
                Some((n, r)) => {
                    if !(q < r <= s.len()) {
                        None
                    } else {
                        match spec_parse_nodes(s, r) {
                            Some((ns, e)) => Some((seq![n] + ns, e)),
                            None => None,
                        }
                    }
                },
                None => None,
            }
        }
    }
}

/// The document: the node at the start of the input (what follows it is not read).
pub open spec fn spec_parse(s: Seq<char>) -> Option<SpecNode> {
    match spec_parse_node(s, 0) {
        Some((n, _)) => Some(n),
        None => None,
    }
}

/// Whether `c` can be part of a tag name or an attribute name.
fn name_char(c: char) -> (b: bool)
    ensures
        b == is_name_char(c),
{
    c.is_alphanumeric() || c == '-'
}

/// Whether `c` is not `<`.
fn not_lt(c: char) -> (b: bool)
    ensures
        b == (c != '<'),
{
    c != '<'
}

/// Whether `c` is not `>`.
fn not_gt(c: char) -> (b: bool)
    ensures
        b == (c != '>'),
{
    c != '>'
}

/// Whether `c` is not `"`.
fn not_quote(c: char) -> (b: bool)
    ensures
        b == (c != '"'),
{
    c != '"'
}

/// Where the attributes of an opening tag end: at a `>` at or after `p`.
pub proof fn lemma_parse_attrs_end(s: Seq<char>, p: int, acc: Map<Seq<char>, Seq<char>>)
    ensures
        spec_parse_attrs(s, p, acc) matches Some((m, a)) ==> p <= a < s.len() && s[a] == '>',
    decreases s.len() - p,
{
    if 0 <= p < s.len() && s[p] != '>' {
        let q = scan_while(s, p, whitespace_pred());
        lemma_scan_while(s, p, whitespace_pred());
        lemma_scan_while(s, q, name_pred());
        let k = scan_while(s, q, name_pred());
        if 0 <= k && k + 1 < s.len() && s[k] == '=' && s[k + 1] == '"' {
            lemma_scan_while(s, k + 2, not_char('"'));
        }
        match spec_parse_attr(s, q) {
            Some((key, value, r)) => {
                lemma_parse_attrs_end(s, r, acc.insert(key, value));
            },
            None => {},
        }
    }
}

/// Every position from `p` to the end passes `f`: the scan runs to the end.
pub proof fn lemma_scan_while_to_end(s: Seq<char>, p: int, f: spec_fn(char) -> bool)
    requires
        0 <= p <= s.len(),
        forall|i: int| p <= i < s.len() ==> f(#[trigger] s[i]),
    ensures
        scan_while(s, p, f) == s.len(),
    decreases s.len() - p,
{
    if p < s.len() {
        lemma_scan_while_to_end(s, p + 1, f);
    }
}

/// A scan that passes exactly `[p, e)`.
pub proof fn lemma_scan_exact(s: Seq<char>, p: int, e: int, f: spec_fn(char) -> bool)
    requires
        0 <= p <= e <= s.len(),
        forall|i: int| p <= i < e ==> f(#[trigger] s[i]),
        e == s.len() || !f(s[e]),
    ensures
        scan_while(s, p, f) == e,
    decreases e - p,
{
    if p < e {
        lemma_scan_exact(s, p + 1, e, f);
    }
}

/// A document with no `<` in it is one text node that holds all of it.
pub proof fn lemma_parse_plain_text(s: Seq<char>)
    requires
        s.len() > 0,
        forall|i: int| 0 <= i < s.len() ==> s[i] != '<',
    ensures
        spec_parse(s) == Some(
            SpecNode { node_type: SpecNodeType::Text(s), children: Seq::<SpecNode>::empty() },
        ),
{
    lemma_scan_while_to_end(s, 0, not_char('<'));
    assert(s.subrange(0, s.len() as int) =~= s);
}

/// A text node of a parsed tree: at least one character, and no `<`.
pub open spec fn parsed_text(t: Seq<char>) -> bool {
    t.len() > 0 && forall|i: int| 0 <= i < t.len() ==> t[i] != '<'
}

/// The node is not a text node that starts with whitespace.
pub open spec fn no_leading_whitespace(n: SpecNode) -> bool {
    !(n.node_type matches SpecNodeType::Text(t) && t.len() > 0 && is_white_space(t[0]))
}

/// What every tree that the parser builds satisfies: text nodes are non-empty and hold no
/// `<`; text and comment nodes have no children; tag names are made of name characters; and
/// no child is a text node that starts with whitespace.
pub open spec fn parsed_shape(n: SpecNode) -> bool
    decreases n,
{
    match n.node_type {
        SpecNodeType::Text(t) => parsed_text(t) && n.children.len() == 0,
        SpecNodeType::Comment(_) => n.children.len() == 0,
        SpecNodeType::Element { tag_name, attrs } => {
            &&& forall|i: int| 0 <= i < tag_name.len() ==> is_name_char(#[trigger] tag_name[i])
            &&& forall|i: int|
                0 <= i < n.children.len() ==> parsed_shape(#[trigger] n.children[i])
                    && no_leading_whitespace(n.children[i])
        },
    }
}

/// A node that the parser reads has the shape of `parsed_shape`, and reading it moves forward.
pub proof fn lemma_parse_node_shape(s: Seq<char>, p: int)
    ensures
        spec_parse_node(s, p) matches Some((n, e)) ==> parsed_shape(n) && p < e <= s.len(),
    decreases s.len() - p, 1int,
{
    if 0 <= p < s.len() {
        if s[p] == '<' {
            if starts_with_at(s, p, comment_open()) {
                lemma_find_comment_close(s, p + 4);
            } else {
                lemma_parse_element_shape(s, p);
            }
        } else {
            lemma_scan_while(s, p + 1, not_char('<'));
            lemma_scan_while(s, p, not_char('<'));
        }
    }
}

/// Where the end of a comment is found.
pub proof fn lemma_find_comment_close(s: Seq<char>, p: int)
    ensures
        find_comment_close(s, p) matches Some(e) ==> p <= e && e + 3 <= s.len(),
    decreases s.len() - p,
{
    if !(p < 0 || p + 3 > s.len()) && !starts_with_at(s, p, comment_close()) {
        lemma_find_comment_close(s, p + 1);
    }
}

/// An element that the parser reads has the shape of `parsed_shape`.
pub proof fn lemma_parse_element_shape(s: Seq<char>, p: int)
    ensures
        spec_parse_element(s, p) matches Some((n, e)) ==> parsed_shape(n) && p < e <= s.len(),
    decreases s.len() - p, 0int,
{
    if 0 <= p < s.len() {
        lemma_scan_while(s, p + 1, name_pred());
        let t = scan_while(s, p + 1, name_pred());
        lemma_parse_attrs_end(s, t, Map::empty());
        match spec_parse_attrs(s, t, Map::empty()) {
            Some((attrs, a)) => {
                if t <= a < s.len() {
                    lemma_parse_nodes_shape(s, a + 1);
                    match spec_parse_nodes(s, a + 1) {
                        Some((children, b)) => {
                            if 0 <= b && b + 1 < s.len() && s[b] == '<' && s[b + 1] == '/' {
                                lemma_scan_while(s, b + 2, not_char('>'));
                            }
                        },
                        None => {},
                    }
                }
            },
            None => {},
        }
    }
}

/// The nodes that the parser reads up to a `</` or the end all have the shape of
/// `parsed_shape`, none is a text node that starts with whitespace, and they end at the end of
/// the input or at a `</`.
pub proof fn lemma_parse_nodes_shape(s: Seq<char>, p: int)
    ensures
        spec_parse_nodes(s, p) matches Some((ns, e)) ==> {
            &&& forall|i: int|
                0 <= i < ns.len() ==> parsed_shape(#[trigger] ns[i]) && no_leading_whitespace(ns[i])
            &&& p <= e <= s.len()
            &&& e == s.len() || starts_with_at(s, e, close_tag_open())
        },
    decreases s.len() - p, 2int,
{
    if 0 <= p <= s.len() && !(p == s.len() || starts_with_at(s, p, close_tag_open())) {
        lemma_scan_while(s, p, whitespace_pred());
        let q = scan_while(s, p, whitespace_pred());
        if !(q == s.len() || starts_with_at(s, q, close_tag_open())) {
            lemma_parse_node_shape(s, q);
            match spec_parse_node(s, q) {
                Some((n, r)) => {
                    if q < r <= s.len() {
                        lemma_parse_nodes_shape(s, r);
                        match spec_parse_nodes(s, r) {
                            Some((ns, e)) => {
                                let all = seq![n] + ns;
                                assert forall|i: int| 0 <= i < all.len() implies parsed_shape(
                                    #[trigger] all[i],
                                ) && no_leading_whitespace(all[i]) by {
                                }
                            },
                            None => {},
                        }
                    }
                },
                None => {},
            }
        }
    }
}

/// Every tree that `parse` returns has the shape of `parsed_shape`.
pub proof fn lemma_parse_shape(s: Seq<char>)
    ensures
        spec_parse(s) matches Some(n) ==> parsed_shape(n),
{
    lemma_parse_node_shape(s, 0);
}

// ---------------------------------------------------------------------------------------------
// The parser.
// ---------------------------------------------------------------------------------------------

/// Reads an HTML document one character at a time from the front.
struct Parser {
    /// The characters of the whole document.
    input: Vec<char>,
    /// The position of the next character to read.
    pos: usize,
}

/// `pre` in front of the nodes of `r`.
pub open spec fn prepend_nodes(pre: Seq<SpecNode>, r: Option<(Seq<SpecNode>, int)>) -> Option<
    (Seq<SpecNode>, int),
> {
    match r {
        Some((ns, e)) => Some((pre + ns, e)),
        None => None,
    }
}

impl Parser {
    /// The character at `pos`; `pos` stays where it is.
    fn next_char(&self) -> (c: char)
        requires
            self.pos < self.input@.len(),
        ensures
            c == self.input@[self.pos as int],
    {
        self.input[self.pos]
    }

    /// The character at `pos`; `pos` moves past it.
    fn consume_char(&mut self) -> (c: char)
        requires
            old(self).pos < old(self).input@.len(),
        ensures
            c == old(self).input@[old(self).pos as int],
            final(self).pos == old(self).pos + 1,
            final(self).input@ == old(self).input@,
    {
        let c = self.input[self.pos];
        proof {
            assert(self.pos < self.input.len());
        }
        self.pos = self.pos + 1;
        c
    }

    /// The end of the input has been reached.
    fn eof(&self) -> (b: bool)
        ensures
            b == (self.pos == self.input@.len()),
    {
        self.pos == self.input.len()
    }

    /// The input holds `prefix` at `pos`.
    fn starts_with(&self, prefix: &[char]) -> (b: bool)
        requires
            self.pos <= self.input@.len(),
        ensures
            b == starts_with_at(self.input@, self.pos as int, prefix@),
    {
        let n = prefix.len();
        let len = self.input.len();
        if n > len - self.pos {
            return false;
        }
        let mut i: usize = 0;
        while i < n
            invariant
                n == prefix@.len(),
                len == self.input@.len(),
                self.pos + n <= self.input@.len(),
                0 <= i <= n,
                forall|j: int| 0 <= j < i ==> self.input@[self.pos + j] == prefix@[j],
            decreases n - i,
        {
            if self.input[self.pos + i] != prefix[i] {
                return false;
            }
            i = i + 1;
        }
        assert(self.input@.subrange(self.pos as int, self.pos + n) =~= prefix@);
        true
    }

    /// Reads characters while `test` holds of them, and returns them.
    fn consume_while<F: Fn(char) -> bool>(&mut self, test: F, Ghost(pred): Ghost<spec_fn(char) -> bool>) -> (r: String)
        requires
            old(self).pos <= old(self).input@.len(),
            forall|c: char| call_requires(test, (c,)),
            forall|c: char, b: bool| call_ensures(test, (c,), b) ==> b == pred(c),
        ensures
            final(self).input@ == old(self).input@,
            final(self).pos == scan_while(old(self).input@, old(self).pos as int, pred),
            r@ == old(self).input@.subrange(old(self).pos as int, final(self).pos as int),
    {
        let ghost s = self.input@;
        let ghost p0 = self.pos as int;
        proof {
            lemma_scan_while(s, p0, pred);
        }
        let mut result = String::new();
        while !self.eof() && test(self.next_char())
            invariant
                self.input@ == s,
                0 <= p0 <= self.pos <= s.len(),
                scan_while(s, self.pos as int, pred) == scan_while(s, p0, pred),
                result@ == s.subrange(p0, self.pos as int),
                forall|c: char| call_requires(test, (c,)),
                forall|c: char, b: bool| call_ensures(test, (c,), b) ==> b == pred(c),
            decreases s.len() - self.pos,
        {
            let c = self.consume_char();
            result.push(c);
        }
        result
    }

    /// Skips whitespace.
    fn skip_whitespace(&mut self)
        requires
            old(self).pos <= old(self).input@.len(),
        ensures
            final(self).input@ == old(self).input@,
            final(self).pos == scan_while(old(self).input@, old(self).pos as int, whitespace_pred()),
    {
        let _ = self.consume_while(is_whitespace, Ghost(whitespace_pred()));
    }

    /// Reads a tag name or an attribute name.
    fn parse_tag_name(&mut self) -> (r: String)
        requires
            old(self).pos <= old(self).input@.len(),
        ensures
            final(self).input@ == old(self).input@,
            final(self).pos == scan_while(old(self).input@, old(self).pos as int, name_pred()),
            r@ == old(self).input@.subrange(old(self).pos as int, final(self).pos as int),
    {
        self.consume_while(name_char, Ghost(name_pred()))
    }

    /// One attribute `key="value"`.
    fn parse_attr(&mut self) -> (r: Option<(String, String)>)
        requires
            old(self).pos <= old(self).input@.len(),
        ensures
            final(self).input@ == old(self).input@,
            final(self).pos <= final(self).input@.len(),
            match spec_parse_attr(old(self).input@, old(self).pos as int) {
                Some((k, v, e)) => r matches Some((key, value)) && key@ == k && value@ == v
                    && final(self).pos == e,
                None => r is None,
            },
    {
        let ghost s = self.input@;
        let ghost q = self.pos as int;
        proof {
            lemma_scan_while(s, q, name_pred());
        }
        let key = self.parse_tag_name();
        if self.eof() {
            return None;
        }
        if self.consume_char() != '=' {
            return None;
        }
        if self.eof() {
            return None;
        }
        if self.consume_char() != '"' {
            return None;
        }
        proof {
            lemma_scan_while(s, self.pos as int, not_char('"'));
        }
        let value = self.consume_while(not_quote, Ghost(not_char('"')));
        if self.eof() {
            return None;
        }
        let _ = self.consume_char();
        Some((key, value))
    }

    /// The attributes up to the `>` that ends the opening tag; a later attribute with the
    /// same key replaces an earlier one.
    fn parse_attrs(&mut self) -> (r: Option<AttrMap>)
        requires
            old(self).pos <= old(self).input@.len(),
        ensures
            final(self).input@ == old(self).input@,
            final(self).pos <= final(self).input@.len(),
            match spec_parse_attrs(old(self).input@, old(self).pos as int, Map::empty()) {
                Some((m, e)) => r matches Some(a) && a@ == m && final(self).pos == e,
                None => r is None,
            },
    {
        let ghost s = self.input@;
        let ghost p0 = self.pos as int;
        let mut attrs: AttrMap = StrMap::new();
        loop
            invariant
                self.input@ == s,
                s == old(self).input@,
                p0 == old(self).pos,
                self.pos <= s.len(),
                spec_parse_attrs(s, p0, Map::empty()) == spec_parse_attrs(s, self.pos as int, attrs@),
            decreases s.len() - self.pos,
        {
            if self.eof() {
                return None;
            }
            if self.next_char() == '>' {
                return Some(attrs);
            }
            let ghost p = self.pos as int;
            proof {
                lemma_scan_while(s, p, whitespace_pred());
                let q = scan_while(s, p, whitespace_pred());
                lemma_scan_while(s, q, name_pred());
                let k = scan_while(s, q, name_pred());
                if 0 <= k && k + 1 < s.len() && s[k] == '=' && s[k + 1] == '"' {
                    lemma_scan_while(s, k + 2, not_char('"'));
                }
            }
            self.skip_whitespace();
            match self.parse_attr() {
                Some((key, value)) => {
                    attrs.insert(key, value);
                },
                None => {
                    return None;
                },
            }
        }
    }

    /// A comment `<!--text-->`.
    fn parse_comment(&mut self) -> (r: Option<Node>)
        requires
            starts_with_at(old(self).input@, old(self).pos as int, comment_open()),
        ensures
            final(self).input@ == old(self).input@,
            match spec_parse_comment(old(self).input@, old(self).pos as int) {
                Some((n, e)) => r matches Some(x) && x@ == n && final(self).pos == e,
                None => r is None,
            },
            r is Some ==> old(self).pos < final(self).pos <= final(self).input@.len(),
    {
        let ghost s = self.input@;
        let ghost p = self.pos as int;
        let _ = self.consume_char();
        let _ = self.consume_char();
        let _ = self.consume_char();
        let _ = self.consume_char();
        let len = self.input.len();
        let mut text = String::new();
        while !self.starts_with(&['-', '-', '>'])
            invariant
                self.input@ == s,
                s == old(self).input@,
                p == old(self).pos,
                len == s.len(),
                0 <= p,
                p + 4 <= self.pos <= s.len(),
                find_comment_close(s, p + 4) == find_comment_close(s, self.pos as int),
                text@ == s.subrange(p + 4, self.pos as int),
            decreases s.len() - self.pos,
        {
            if len - self.pos < 3 {
                return None;
            }
            let c = self.consume_char();
            text.push(c);
        }
        let _ = self.consume_char();
        let _ = self.consume_char();
        let _ = self.consume_char();
        let node = Node { node_type: NodeType::Comment(text), children: Vec::new() };
        assert(nodes_view(node.children@) =~= Seq::<SpecNode>::empty());
        Some(node)
    }

    /// One node: an element, a comment, or a text node that runs up to the next `<`.
    fn parse_node(&mut self) -> (r: Option<Node>)
        requires
            old(self).pos <= old(self).input@.len(),
        ensures
            final(self).input@ == old(self).input@,
            match spec_parse_node(old(self).input@, old(self).pos as int) {
                Some((n, e)) => r matches Some(x) && x@ == n && final(self).pos == e,
                None => r is None,
            },
            r is Some ==> old(self).pos < final(self).pos <= final(self).input@.len(),
        decreases old(self).input@.len() - old(self).pos, 1int,
    {
        if self.eof() {
            return None;
        }
        if self.next_char() == '<' {
            if self.starts_with(&['<', '!', '-', '-']) {
                self.parse_comment()
            } else {
                self.parse_element()
            }
        } else {
            let ghost s = self.input@;
            let ghost p = self.pos as int;
            proof {
                lemma_scan_while(s, p + 1, not_char('<'));
            }
            let text = self.consume_while(not_lt, Ghost(not_char('<')));
            Some(Node::create_text(text))
        }
    }

    /// An element `<name attrs>children</...>`.
    fn parse_element(&mut self) -> (r: Option<Node>)
        requires
            old(self).pos < old(self).input@.len(),
        ensures
            final(self).input@ == old(self).input@,
            match spec_parse_element(old(self).input@, old(self).pos as int) {
                Some((n, e)) => r matches Some(x) && x@ == n && final(self).pos == e,
                None => r is None,
            },
            r is Some ==> old(self).pos < final(self).pos <= final(self).input@.len(),
        decreases old(self).input@.len() - old(self).pos, 0int,
    {
        let ghost s = self.input@;
        let ghost p = self.pos as int;
        // the '<'
        let _ = self.consume_char();
        proof {
            lemma_scan_while(s, p + 1, name_pred());
        }
        let name = self.parse_tag_name();
        let ghost t = self.pos as int;
        let attrs = match self.parse_attrs() {
            Some(a) => a,
            None => {
                return None;
            },
        };
        proof {
            lemma_parse_attrs_end(s, t, Map::empty());
        }
        // the '>'
        if self.eof() {
            return None;
        }
        let _ = self.consume_char();
        let children = match self.parse_nodes() {
            Some(c) => c,
            None => {
                return None;
            },
        };
        // the closing tag `</name>`
        if self.eof() {
            return None;
        }
        if self.consume_char() != '<' {
            return None;
        }
        if self.eof() {
            return None;
        }
        if self.consume_char() != '/' {
            return None;
        }
        proof {
            lemma_scan_while(s, self.pos as int, not_char('>'));
        }
        let _ = self.consume_while(not_gt, Ghost(not_char('>')));
        if self.eof() {
            return None;
        }
        let _ = self.consume_char();
        Some(Node::create_element(name, attrs, children))
    }

    /// The nodes up to the end of the input or the next `</`, skipping the whitespace before each.
    fn parse_nodes(&mut self) -> (r: Option<Vec<Node>>)
        requires
            old(self).pos <= old(self).input@.len(),
        ensures
            final(self).input@ == old(self).input@,
            match spec_parse_nodes(old(self).input@, old(self).pos as int) {
                Some((ns, e)) => r matches Some(v) && nodes_view(v@) == ns && final(self).pos == e,
                None => r is None,
            },
            r is Some ==> old(self).pos <= final(self).pos <= final(self).input@.len(),
        decreases old(self).input@.len() - old(self).pos, 2int,
    {
        let ghost s = self.input@;
        let ghost p0 = self.pos as int;
        let mut nodes: Vec<Node> = Vec::new();
        while !self.eof() && !self.starts_with(&['<', '/'])
            invariant
                self.input@ == s,
                s == old(self).input@,
                p0 == old(self).pos,
                p0 <= self.pos <= s.len(),
                spec_parse_nodes(s, p0) == prepend_nodes(
                    nodes_view(nodes@),
                    spec_parse_nodes(s, self.pos as int),
                ),
            ensures
                self.input@ == s,
                p0 <= self.pos <= s.len(),
                spec_parse_nodes(s, p0) == prepend_nodes(
                    nodes_view(nodes@),
                    spec_parse_nodes(s, self.pos as int),
                ),
                spec_parse_nodes(s, self.pos as int) == Some((Seq::<SpecNode>::empty(), self.pos as int)),
            decreases s.len() - self.pos,
        {
            let ghost p = self.pos as int;
            proof {
                lemma_scan_while(s, p, whitespace_pred());
            }
            self.skip_whitespace();
            if self.eof() || self.starts_with(&['<', '/']) {
                break;
            }
            match self.parse_node() {
                Some(n) => {
                    nodes.push(n);
                },
                None => {
                    return None;
                },
            }
        }
        Some(nodes)
    }
}

/// Parses an HTML document: the node at the start of `source`. Returns `None` on the inputs
/// on which the reader stops (an end of input where a character is needed, or a character
/// other than the one the grammar needs at that place).
pub fn try_parse(source: String) -> (r: Option<Node>)
    ensures
        match spec_parse(source@) {
            Some(n) => r matches Some(x) && x@ == n,
            None => r is None,
        },
        r matches Some(x) ==> parsed_shape(x@),
{
    proof {
        lemma_parse_shape(source@);
    }
    let mut parser = Parser { input: chars_of(source.as_str()), pos: 0 };
    parser.parse_node()
}

/// Parses an HTML document: the node at the start of `source`.
pub fn parse(source: String) -> (n: Node)
    requires
        spec_parse(source@) is Some,
    ensures
        n@ == spec_parse(source@)->0,
        parsed_shape(n@),
{
    match try_parse(source) {
        Some(n) => n,
        None => {
            proof {
                assert(false);
            }
            Node::create_text(String::new())
        },
    }
}

} // verus!
