use vstd::prelude::*;

use crate::chars::{chars_of, is_white_space, is_whitespace, str_equal};
use crate::css::{Declaration, Rule, Selector, SimpleSelector, SpecValue, Stylesheet, Value};
use crate::dom::{ElementData, Node, NodeType, SpecNode, SpecNodeType};
use crate::html::{lemma_scan_exact, lemma_scan_while, scan_while};
use crate::strmap::StrMap;

verus! {

/// CSS properties of a node: property name to value.
pub type PropertyMap = StrMap<Value>;

/// A DOM node together with the CSS properties that apply to it.
#[derive(Debug)]
pub struct StyledNode<'a> {
    /// The DOM node.
    pub node: &'a Node,
    /// The CSS properties that apply to the node.
    pub properties: PropertyMap,
    /// The styled children, in document order.
    pub children: Vec<StyledNode<'a>>,
}

/// The `display` of a node.
#[derive(Debug, Clone, Copy, PartialEq, Eq, Structural)]
pub enum Display {
    Inline,
    Block,
    /// `display: none` (named so because `None` is taken).
    DisplayNone,
}

// ---------------------------------------------------------------------------------------------
// Whitespace-separated words (what `str::split_whitespace` yields).
// ---------------------------------------------------------------------------------------------

/// Characters that are not whitespace.
pub open spec fn non_whitespace_pred() -> spec_fn(char) -> bool {
    |c: char| !is_white_space(c)
}

/// A word of `s` starts at `a`: a character that is not whitespace, at the start of `s` or
/// after whitespace.
pub open spec fn is_word_start(s: Seq<char>, a: int) -> bool {
    0 <= a < s.len() && !is_white_space(s[a]) && (a == 0 || is_white_space(s[a - 1]))
}

/// The word that starts at `a`: the run of characters up to the next whitespace.
pub open spec fn word_at(s: Seq<char>, a: int) -> Seq<char> {
    s.subrange(a, scan_while(s, a, non_whitespace_pred()))
}

/// `w` is one of the whitespace-separated words of `s`.
pub open spec fn has_word(s: Seq<char>, w: Seq<char>) -> bool {
    exists|a: int| is_word_start(s, a) && #[trigger] word_at(s, a) == w
}

/// `s[from..from + w.len()]` equals `w`.
fn equal_at(s: &Vec<char>, from: usize, w: &Vec<char>) -> (b: bool)
    requires
        from + w@.len() <= s@.len(),
    ensures
        b == (s@.subrange(from as int, from + w@.len()) == w@),
{
    let n = w.len();
    let sl = s.len();
    let mut k: usize = 0;
    while k < n
        invariant
            n == w@.len(),
            sl == s@.len(),
            from + n <= s@.len(),
            0 <= k <= n,
            forall|j: int| 0 <= j < k ==> s@[from + j] == w@[j],
        decreases n - k,
    {
        if s[from + k] != w[k] {
            return false;
        }
        k = k + 1;
    }
    assert(s@.subrange(from as int, from + n) =~= w@);
    true
}

/// Whether `w` is one of the whitespace-separated words of `s`.
fn contains_word(s: &Vec<char>, w: &Vec<char>) -> (b: bool)
    ensures
        b == has_word(s@, w@),
{
    let n = s.len();
    let mut i: usize = 0;
    while i < n
        invariant
            n == s@.len(),
            0 <= i <= n,
            i == 0 || i == n || is_white_space(s@[i as int]) || is_white_space(s@[i - 1]),
            forall|a: int| 0 <= a < i && is_word_start(s@, a) ==> #[trigger] word_at(s@, a) != w@,
        decreases n - i,
    {
        let mut st = i;
        while st < n && is_whitespace(s[st])
            invariant
                n == s@.len(),
                i <= st <= n,
                forall|k: int| i <= k < st ==> is_white_space(#[trigger] s@[k]),
            decreases n - st,
        {
            st = st + 1;
        }
        if st == n {
            return false;
        }
        let mut en = st;
        while en < n && !is_whitespace(s[en])
            invariant
                n == s@.len(),
                st <= en <= n,
                scan_while(s@, en as int, non_whitespace_pred()) == scan_while(
                    s@,
                    st as int,
                    non_whitespace_pred(),
                ),
                forall|k: int| st <= k < en ==> !is_white_space(#[trigger] s@[k]),
            decreases n - en,
        {
            en = en + 1;
        }
        if en - st == w.len() && equal_at(s, st, w) {
            assert(word_at(s@, st as int) == w@);
            return true;
        }
        i = en;
    }
    false
}

// ---------------------------------------------------------------------------------------------
// Selector matching and the cascade.
// ---------------------------------------------------------------------------------------------

/// The value of the `class` attribute, or the empty string.
pub open spec fn class_attr(attrs: Map<Seq<char>, Seq<char>>) -> Seq<char> {
    if attrs.contains_key("class"@) {
        attrs["class"@]
    } else {
        Seq::empty()
    }
}

/// An element with tag `tag` and attributes `attrs` matches `sel`: the tag is the selector's
/// tag (if it names one), the `id` attribute is the selector's id (if it names one), and each
/// class of the selector is a whitespace-separated word of the `class` attribute.
pub open spec fn spec_matches(tag: Seq<char>, attrs: Map<Seq<char>, Seq<char>>, sel: SimpleSelector) -> bool {
    &&& (sel.tag_name matches Some(t) ==> t@ == tag)
    &&& (sel.id matches Some(id) ==> attrs.contains_key("id"@) && attrs["id"@] == id@)
    &&& forall|i: int| 0 <= i < sel.class@.len() ==> has_word(class_attr(attrs), #[trigger] sel.class@[i]@)
}

/// Whether `elem` matches `selector`.
pub fn matches_simple_selector(elem: &ElementData, selector: &SimpleSelector) -> (b: bool)
    ensures
        b == spec_matches(elem.tag_name@, elem.attrs@, *selector),
{
    // tag name
    if let Some(tag) = &selector.tag_name {
        if !(elem.tag_name == *tag) {
            return false;
        }
    }
    // id
    if let Some(id) = &selector.id {
        match elem.attrs.get("id") {
            Some(v) => {
                if !(*v == *id) {
                    return false;
                }
            },
            None => {
                return false;
            },
        }
    }
    // classes
    let classes: Vec<char> = match elem.attrs.get("class") {
        Some(c) => chars_of(c.as_str()),
        None => Vec::new(),
    };
    let n = selector.class.len();
    let mut i: usize = 0;
    while i < n
        invariant
            n == selector.class@.len(),
            0 <= i <= n,
            classes@ == class_attr(elem.attrs@),
            forall|j: int| 0 <= j < i ==> has_word(classes@, #[trigger] selector.class@[j]@),
        decreases n - i,
    {
        let class = chars_of(selector.class[i].as_str());
        if !contains_word(&classes, &class) {
            return false;
        }
        i = i + 1;
    }
    true
}

/// `acc` after setting each declaration of `decls` in order.
pub open spec fn apply_declarations(decls: Seq<Declaration>, acc: Map<Seq<char>, SpecValue>) -> Map<
    Seq<char>,
    SpecValue,
>
    decreases decls.len(),
{
    if decls.len() == 0 {
        acc
    } else {
        apply_declarations(decls.drop_last(), acc).insert(decls.last().name@, decls.last().value@)
    }
}

/// `acc` after applying `decls` once for each selector of `sels`, in order, that the element matches.
pub open spec fn apply_selectors(
    tag: Seq<char>,
    attrs: Map<Seq<char>, Seq<char>>,
    sels: Seq<Selector>,
    decls: Seq<Declaration>,
    acc: Map<Seq<char>, SpecValue>,
) -> Map<Seq<char>, SpecValue>
    decreases sels.len(),
{
    if sels.len() == 0 {
        acc
    } else {
        let prev = apply_selectors(tag, attrs, sels.drop_last(), decls, acc);
        match sels.last() {
            Selector::Simple(s) => if spec_matches(tag, attrs, s) {
                apply_declarations(decls, prev)
            } else {
                prev
            },
        }
    }
}

/// The properties of an element after the rules of `rules`, in order.
pub open spec fn apply_rules(tag: Seq<char>, attrs: Map<Seq<char>, Seq<char>>, rules: Seq<Rule>) -> Map<
    Seq<char>,
    SpecValue,
>
    decreases rules.len(),
{
    if rules.len() == 0 {
        Map::empty()
    } else {
        apply_selectors(
            tag,
            attrs,
            rules.last().selectors@,
            rules.last().declarations@,
            apply_rules(tag, attrs, rules.drop_last()),
        )
    }
}

/// Sets each declaration of `decls` in `properties`.
fn apply_declarations_to(properties: &mut PropertyMap, decls: &Vec<Declaration>)
    ensures
        final(properties)@ == apply_declarations(decls@, old(properties)@),
{
    let ghost acc = properties@;
    let n = decls.len();
    let mut i: usize = 0;
    while i < n
        invariant
            n == decls@.len(),
            0 <= i <= n,
            acc == old(properties)@,
            properties@ == apply_declarations(decls@.take(i as int), acc),
        decreases n - i,
    {
        assert(decls@.take(i + 1).drop_last() =~= decls@.take(i as int));
        properties.insert(decls[i].name.clone(), decls[i].value.copied());
        i = i + 1;
    }
    assert(decls@.take(n as int) =~= decls@);
}

/// The properties that the rules of `stylesheet` give `elem`: the declarations of each rule,
/// for each of its selectors that matches, in order; a later one replaces an earlier one.
fn apply_styles(elem: &ElementData, stylesheet: &Stylesheet) -> (r: PropertyMap)
    ensures
        r@ == apply_rules(elem.tag_name@, elem.attrs@, stylesheet.rules@),
{
    let mut properties: PropertyMap = StrMap::new();
    let n = stylesheet.rules.len();
    let mut i: usize = 0;
    while i < n
        invariant
            n == stylesheet.rules@.len(),
            0 <= i <= n,
            properties@ == apply_rules(elem.tag_name@, elem.attrs@, stylesheet.rules@.take(i as int)),
        decreases n - i,
    {
        let rule = &stylesheet.rules[i];
        let ghost before = properties@;
        let m = rule.selectors.len();
        let mut j: usize = 0;
        while j < m
            invariant
                m == rule.selectors@.len(),
                0 <= j <= m,
                properties@ == apply_selectors(
                    elem.tag_name@,
                    elem.attrs@,
                    rule.selectors@.take(j as int),
                    rule.declarations@,
                    before,
                ),
            decreases m - j,
        {
            assert(rule.selectors@.take(j + 1).drop_last() =~= rule.selectors@.take(j as int));
            let Selector::Simple(s) = &rule.selectors[j];
            if matches_simple_selector(elem, s) {
                apply_declarations_to(&mut properties, &rule.declarations);
            }
            j = j + 1;
        }
        assert(rule.selectors@.take(m as int) =~= rule.selectors@);
        assert(stylesheet.rules@.take(i + 1).drop_last() =~= stylesheet.rules@.take(i as int));
        i = i + 1;
    }
    assert(stylesheet.rules@.take(n as int) =~= stylesheet.rules@);
    properties
}

// ---------------------------------------------------------------------------------------------
// The style tree.
// ---------------------------------------------------------------------------------------------

/// The mathematical value of a styled node.
pub struct SpecStyledNode {
    pub node: SpecNode,
    pub properties: Map<Seq<char>, SpecValue>,
    pub children: Seq<SpecStyledNode>,
}

/// The values of a list of styled nodes.
pub open spec fn styled_nodes_view<'a>(nodes: Seq<StyledNode<'a>>) -> Seq<SpecStyledNode>
    decreases nodes,
{
    Seq::new(
        nodes.len(),
        |i: int|
            if 0 <= i < nodes.len() {
                styled_node_view(nodes[i])
            } else {
                spec_empty_styled()
            },
    )
}

/// The value of a styled node.
pub open spec fn styled_node_view<'a>(n: StyledNode<'a>) -> SpecStyledNode
    decreases n,
{
    SpecStyledNode {
        node: n.node@,
        properties: n.properties@,
        children: styled_nodes_view(n.children@),
    }
}

/// A styled empty text node.
pub open spec fn spec_empty_styled() -> SpecStyledNode {
    SpecStyledNode {
        node: SpecNode { node_type: SpecNodeType::Text(Seq::empty()), children: Seq::empty() },
        properties: Map::empty(),
        children: Seq::empty(),
    }
}

impl<'a> View for StyledNode<'a> {
    type V = SpecStyledNode;

    open spec fn view(&self) -> SpecStyledNode {
        styled_node_view(*self)
    }
}

/// The properties that the rules of `stylesheet` give a node: those of `apply_rules` for an
/// element, none for a text or comment node.
pub open spec fn node_properties(n: SpecNode, stylesheet: Stylesheet) -> Map<Seq<char>, SpecValue> {
    match n.node_type {
        SpecNodeType::Element { tag_name, attrs } => apply_rules(tag_name, attrs, stylesheet.rules@),
        _ => Map::empty(),
    }
}

/// The styled trees of a list of nodes.
pub open spec fn spec_style_forest(nodes: Seq<SpecNode>, stylesheet: Stylesheet) -> Seq<SpecStyledNode>
    decreases nodes,
{
    Seq::new(
        nodes.len(),
        |i: int|
            if 0 <= i < nodes.len() {
                spec_style_tree(nodes[i], stylesheet)
            } else {
                spec_empty_styled()
            },
    )
}

/// The styled tree of a node: the node, its properties, and the styled trees of its children.
pub open spec fn spec_style_tree(n: SpecNode, stylesheet: Stylesheet) -> SpecStyledNode
    decreases n,
{
    SpecStyledNode {
        node: n,
        properties: node_properties(n, stylesheet),
        children: spec_style_forest(n.children, stylesheet),
    }
}

/// Builds the styled tree of `node` under `stylesheet`.
pub fn style_tree<'a>(node: &'a Node, stylesheet: &Stylesheet) -> (r: StyledNode<'a>)
    ensures
        r@ == spec_style_tree(node@, *stylesheet),
    decreases node,
{
    let properties = match &node.node_type {
        NodeType::Element(elem) => apply_styles(elem, stylesheet),
        _ => StrMap::new(),
    };
    let n = node.children.len();
    let mut children: Vec<StyledNode<'a>> = Vec::new();
    let mut i: usize = 0;
    while i < n
        invariant
            n == node.children@.len(),
            0 <= i <= n,
            children@.len() == i,
            forall|j: int|
                0 <= j < i ==> styled_node_view(#[trigger] children@[j]) == spec_style_tree(
                    node.children@[j]@,
                    *stylesheet,
                ),
        decreases n - i,
    {
        let child = style_tree(&node.children[i], stylesheet);
        children.push(child);
        i = i + 1;
    }
    let r = StyledNode { node, properties, children };
    assert(styled_nodes_view(r.children@) =~= spec_style_forest(node@.children, *stylesheet));
    r
}

/// The `display` that `properties` give: the keyword "block" gives `Block`, the keyword
/// "none" gives `DisplayNone`, and anything else, or no `display` at all, gives `Inline`.
pub open spec fn spec_display(properties: Map<Seq<char>, SpecValue>) -> Display {
    if properties.contains_key("display"@) {
        match properties["display"@] {
            SpecValue::Keyword(k) => if k == "block"@ {
                Display::Block
            } else if k == "none"@ {
                Display::DisplayNone
            } else {
                Display::Inline
            },
            _ => Display::Inline,
        }
    } else {
        Display::Inline
    }
}

impl<'a> StyledNode<'a> {
    /// The `display` of this node.
    pub fn display(&self) -> (d: Display)
        ensures
            d == spec_display(self.properties@),
    {
        match self.properties.get("display") {
            Some(Value::Keyword(k)) => {
                if str_equal(k.as_str(), "block") {
                    Display::Block
                } else if str_equal(k.as_str(), "none") {
                    Display::DisplayNone
                } else {
                    Display::Inline
                }
            },
            _ => Display::Inline,
        }
    }
}

// ---------------------------------------------------------------------------------------------
// Laws.
// ---------------------------------------------------------------------------------------------

/// A word of a string is never empty and holds no whitespace.
pub proof fn lemma_word_shape(s: Seq<char>, w: Seq<char>)
    requires
        has_word(s, w),
    ensures
        w.len() > 0,
        forall|i: int| 0 <= i < w.len() ==> !is_white_space(#[trigger] w[i]),
{
    let a = choose|a: int| is_word_start(s, a) && #[trigger] word_at(s, a) == w;
    lemma_scan_while(s, a, non_whitespace_pred());
    lemma_scan_while(s, a + 1, non_whitespace_pred());
}

/// A selector that names no tag, no id and no class matches every element.
pub proof fn lemma_universal_selector(tag: Seq<char>, attrs: Map<Seq<char>, Seq<char>>, sel: SimpleSelector)
    requires
        sel.tag_name is None,
        sel.id is None,
        sel.class@.len() == 0,
    ensures
        spec_matches(tag, attrs, sel),
{
}

/// A selector with an empty class, or a class that holds whitespace, matches no element.
pub proof fn lemma_unmatchable_class(tag: Seq<char>, attrs: Map<Seq<char>, Seq<char>>, sel: SimpleSelector, i: int)
    requires
        0 <= i < sel.class@.len(),
        sel.class@[i]@.len() == 0 || exists|k: int|
            0 <= k < sel.class@[i]@.len() && is_white_space(#[trigger] sel.class@[i]@[k]),
    ensures
        !spec_matches(tag, attrs, sel),
{
    if spec_matches(tag, attrs, sel) {
        lemma_word_shape(class_attr(attrs), sel.class@[i]@);
    }
}

/// Setting the declarations in order leaves `name` with the value of the last declaration of
/// `name`.
pub proof fn lemma_last_declaration_wins(
    decls: Seq<Declaration>,
    acc: Map<Seq<char>, SpecValue>,
    j: int,
)
    requires
        0 <= j < decls.len(),
        forall|k: int| j < k < decls.len() ==> #[trigger] decls[k].name@ != decls[j].name@,
    ensures
        apply_declarations(decls, acc).contains_key(decls[j].name@),
        apply_declarations(decls, acc)[decls[j].name@] == decls[j].value@,
    decreases decls.len(),
{
    if j < decls.len() - 1 {
        let d = decls.drop_last();
        lemma_last_declaration_wins(d, acc, j);
    }
}

/// Once a selector of a rule matches, the rule's last declaration of `name` gives its value.
pub proof fn lemma_matching_rule_sets(
    tag: Seq<char>,
    attrs: Map<Seq<char>, Seq<char>>,
    sels: Seq<Selector>,
    decls: Seq<Declaration>,
    acc: Map<Seq<char>, SpecValue>,
    k: int,
    j: int,
)
    requires
        0 <= k < sels.len(),
        sels[k] matches Selector::Simple(s) && spec_matches(tag, attrs, s),
        0 <= j < decls.len(),
        forall|m: int| j < m < decls.len() ==> #[trigger] decls[m].name@ != decls[j].name@,
    ensures
        apply_selectors(tag, attrs, sels, decls, acc).contains_key(decls[j].name@),
        apply_selectors(tag, attrs, sels, decls, acc)[decls[j].name@] == decls[j].value@,
    decreases sels.len(),
{
    let prev = apply_selectors(tag, attrs, sels.drop_last(), decls, acc);
    match sels.last() {
        Selector::Simple(s) => {
            if spec_matches(tag, attrs, s) {
                lemma_last_declaration_wins(decls, prev, j);
            } else {
                lemma_matching_rule_sets(tag, attrs, sels.drop_last(), decls, acc, k, j);
            }
        },
    }
}

/// The cascade: when the last rule of a style sheet has a selector that matches the element
/// and declares `name`, the element's `name` has the value of that rule's last declaration of
/// `name`, whatever the earlier rules say.
pub proof fn lemma_last_rule_wins(
    tag: Seq<char>,
    attrs: Map<Seq<char>, Seq<char>>,
    rules: Seq<Rule>,
    k: int,
    j: int,
)
    requires
        rules.len() > 0,
        0 <= k < rules.last().selectors@.len(),
        rules.last().selectors@[k] matches Selector::Simple(s) && spec_matches(tag, attrs, s),
        0 <= j < rules.last().declarations@.len(),
        forall|m: int|
            j < m < rules.last().declarations@.len() ==> #[trigger] rules.last().declarations@[m].name@
                != rules.last().declarations@[j].name@,
    ensures
        apply_rules(tag, attrs, rules).contains_key(rules.last().declarations@[j].name@),
        apply_rules(tag, attrs, rules)[rules.last().declarations@[j].name@]
            == rules.last().declarations@[j].value@,
{
    lemma_matching_rule_sets(
        tag,
        attrs,
        rules.last().selectors@,
        rules.last().declarations@,
        apply_rules(tag, attrs, rules.drop_last()),
        k,
        j,
    );
}

/// A style sheet with no rules gives no properties.
pub proof fn lemma_no_rules_no_properties(tag: Seq<char>, attrs: Map<Seq<char>, Seq<char>>)
    ensures
        apply_rules(tag, attrs, Seq::<Rule>::empty()) == Map::<Seq<char>, SpecValue>::empty(),
{
}

/// The styled tree has the shape of the DOM tree: each styled node holds its DOM node, has as
/// many children as it, in the same order, and a text or comment node gets no properties.
pub proof fn lemma_style_tree_shape(n: SpecNode, stylesheet: Stylesheet)
    ensures
        spec_style_tree(n, stylesheet).node == n,
        spec_style_tree(n, stylesheet).children.len() == n.children.len(),
        forall|i: int|
            0 <= i < n.children.len() ==> #[trigger] spec_style_tree(n, stylesheet).children[i]
                == spec_style_tree(n.children[i], stylesheet),
        !(n.node_type is Element) ==> spec_style_tree(n, stylesheet).properties == Map::<
            Seq<char>,
            SpecValue,
        >::empty(),
{
}

// ---------------------------------------------------------------------------------------------
// Laws of matching and of the cascade, stated in terms of the element and the rules.
// ---------------------------------------------------------------------------------------------

/// `w` stands in `s` at `a` as a whole word: it is not empty, holds no whitespace, and has
/// whitespace or an end of `s` on each side.
pub open spec fn word_in_at(s: Seq<char>, w: Seq<char>, a: int) -> bool {
    &&& w.len() > 0
    &&& forall|i: int| 0 <= i < w.len() ==> !is_white_space(#[trigger] w[i])
    &&& 0 <= a && a + w.len() <= s.len()
    &&& s.subrange(a, a + w.len()) == w
    &&& (a == 0 || is_white_space(s[a - 1]))
    &&& (a + w.len() == s.len() || is_white_space(s[a + w.len()]))
}

/// `w` stands somewhere in `s` as a whole word.
pub open spec fn whole_word(s: Seq<char>, w: Seq<char>) -> bool {
    exists|a: int| word_in_at(s, w, a)
}

/// `w` is a whitespace-separated word of `s` exactly when it stands in `s` as a whole word.
pub proof fn lemma_has_word_iff(s: Seq<char>, w: Seq<char>)
    ensures
        has_word(s, w) <==> whole_word(s, w),
{
    if has_word(s, w) {
        let a = choose|a: int| is_word_start(s, a) && #[trigger] word_at(s, a) == w;
        lemma_scan_while(s, a, non_whitespace_pred());
        lemma_scan_while(s, a + 1, non_whitespace_pred());
        let e = scan_while(s, a, non_whitespace_pred());
        assert forall|i: int| 0 <= i < w.len() implies !is_white_space(#[trigger] w[i]) by {
            assert(w[i] == s[a + i]);
            assert(non_whitespace_pred()(s[a + i]));
        }
        assert(word_in_at(s, w, a));
    }
    if exists|a: int| word_in_at(s, w, a) {
        let a = choose|a: int| word_in_at(s, w, a);
        let e = a + w.len();
        assert(s[a] == w[0]);
        assert forall|i: int| a <= i < e implies non_whitespace_pred()(#[trigger] s[i]) by {
            assert(s[i] == w[i - a]);
        }
        lemma_scan_exact(s, a, e, non_whitespace_pred());
        assert(is_word_start(s, a));
        assert(word_at(s, a) == w);
    }
}

/// What a match says of the element: when the selector names a tag, the element's tag name
/// is that tag; when it names an id, the element's `id` attribute is that id; and each class
/// of the selector stands as a whole word in the element's `class` attribute.
pub proof fn lemma_match_sound(tag: Seq<char>, attrs: Map<Seq<char>, Seq<char>>, sel: SimpleSelector)
    requires
        spec_matches(tag, attrs, sel),
    ensures
        sel.tag_name matches Some(t) ==> tag == t@,
        sel.id matches Some(id) ==> attrs.contains_key("id"@) && attrs["id"@] == id@,
        forall|i: int|
            0 <= i < sel.class@.len() ==> whole_word(class_attr(attrs), #[trigger] sel.class@[i]@),
{
    assert forall|i: int| 0 <= i < sel.class@.len() implies whole_word(
        class_attr(attrs),
        #[trigger] sel.class@[i]@,
    ) by {
        lemma_has_word_iff(class_attr(attrs), sel.class@[i]@);
    }
}

/// When the element has the selector's tag (if it names one), the selector's id (if it names
/// one), and each class of the selector as a whole word of its `class` attribute, it matches.
pub proof fn lemma_match_complete(tag: Seq<char>, attrs: Map<Seq<char>, Seq<char>>, sel: SimpleSelector)
    requires
        sel.tag_name matches Some(t) ==> tag == t@,
        sel.id matches Some(id) ==> attrs.contains_key("id"@) && attrs["id"@] == id@,
        forall|i: int|
            0 <= i < sel.class@.len() ==> whole_word(class_attr(attrs), #[trigger] sel.class@[i]@),
    ensures
        spec_matches(tag, attrs, sel),
{
    assert forall|i: int| 0 <= i < sel.class@.len() implies has_word(
        class_attr(attrs),
        #[trigger] sel.class@[i]@,
    ) by {
        lemma_has_word_iff(class_attr(attrs), sel.class@[i]@);
    }
}

/// The selector matches the element.
pub open spec fn selector_matches(tag: Seq<char>, attrs: Map<Seq<char>, Seq<char>>, sel: Selector) -> bool {
    match sel {
        Selector::Simple(s) => spec_matches(tag, attrs, s),
    }
}

/// Some declaration of `decls` is of property `name`.
pub open spec fn declares(decls: Seq<Declaration>, name: Seq<char>) -> bool {
    exists|j: int| 0 <= j < decls.len() && (#[trigger] decls[j]).name@ == name
}

/// The rule has a selector that matches the element, and declares `name`.
pub open spec fn rule_sets(tag: Seq<char>, attrs: Map<Seq<char>, Seq<char>>, rule: Rule, name: Seq<char>) -> bool {
    &&& exists|k: int|
        0 <= k < rule.selectors@.len() && selector_matches(tag, attrs, #[trigger] rule.selectors@[k])
    &&& declares(rule.declarations@, name)
}

proof fn lemma_declarations_effect(decls: Seq<Declaration>, acc: Map<Seq<char>, SpecValue>, name: Seq<char>)
    ensures
        apply_declarations(decls, acc).contains_key(name) <==> (acc.contains_key(name) || declares(
            decls,
            name,
        )),
        !declares(decls, name) && acc.contains_key(name) ==> apply_declarations(decls, acc)[name]
            == acc[name],
    decreases decls.len(),
{
    if decls.len() > 0 {
        let init = decls.drop_last();
        lemma_declarations_effect(init, acc, name);
        if declares(init, name) {
            let j = choose|j: int| 0 <= j < init.len() && (#[trigger] init[j]).name@ == name;
            assert(decls[j] == init[j]);
        }
        if declares(decls, name) && decls.last().name@ != name {
            let j = choose|j: int| 0 <= j < decls.len() && (#[trigger] decls[j]).name@ == name;
            assert(init[j] == decls[j]);
        }
        if !declares(decls, name) {
            assert(!((decls[decls.len() - 1]).name@ == name));
            assert forall|j: int| 0 <= j < init.len() implies (#[trigger] init[j]).name@ != name by {
                assert(init[j] == decls[j]);
            }
        }
    }
}

proof fn lemma_selectors_effect(
    tag: Seq<char>,
    attrs: Map<Seq<char>, Seq<char>>,
    sels: Seq<Selector>,
    decls: Seq<Declaration>,
    acc: Map<Seq<char>, SpecValue>,
    name: Seq<char>,
)
    ensures
        apply_selectors(tag, attrs, sels, decls, acc).contains_key(name) <==> (acc.contains_key(name)
            || ((exists|k: int| 0 <= k < sels.len() && selector_matches(tag, attrs, #[trigger] sels[k]))
            && declares(decls, name))),
        !((exists|k: int| 0 <= k < sels.len() && selector_matches(tag, attrs, #[trigger] sels[k]))
            && declares(decls, name)) && acc.contains_key(name) ==> apply_selectors(
            tag,
            attrs,
            sels,
            decls,
            acc,
        )[name] == acc[name],
    decreases sels.len(),
{
    if sels.len() > 0 {
        let init = sels.drop_last();
        let prev = apply_selectors(tag, attrs, init, decls, acc);
        lemma_selectors_effect(tag, attrs, init, decls, acc, name);
        lemma_declarations_effect(decls, prev, name);
        if exists|k: int| 0 <= k < init.len() && selector_matches(tag, attrs, #[trigger] init[k]) {
            let k = choose|k: int| 0 <= k < init.len() && selector_matches(tag, attrs, #[trigger] init[k]);
            assert(sels[k] == init[k]);
        }
        if exists|k: int| 0 <= k < sels.len() && selector_matches(tag, attrs, #[trigger] sels[k]) {
            let k = choose|k: int| 0 <= k < sels.len() && selector_matches(tag, attrs, #[trigger] sels[k]);
            if k < sels.len() - 1 {
                assert(init[k] == sels[k]);
            }
        }
        assert(selector_matches(tag, attrs, sels[sels.len() - 1]) == match sels.last() {
            Selector::Simple(s) => spec_matches(tag, attrs, s),
        });
    }
}

/// Which properties the rules give an element: `name` gets a value exactly when some rule has
/// a selector that matches the element and declares `name`.
pub proof fn lemma_rules_domain(tag: Seq<char>, attrs: Map<Seq<char>, Seq<char>>, rules: Seq<Rule>, name: Seq<char>)
    ensures
        apply_rules(tag, attrs, rules).contains_key(name) <==> exists|i: int|
            0 <= i < rules.len() && rule_sets(tag, attrs, #[trigger] rules[i], name),
    decreases rules.len(),
{
    if rules.len() > 0 {
        let init = rules.drop_last();
        let last = rules.last();
        lemma_rules_domain(tag, attrs, init, name);
        lemma_selectors_effect(
            tag,
            attrs,
            last.selectors@,
            last.declarations@,
            apply_rules(tag, attrs, init),
            name,
        );
        if exists|i: int| 0 <= i < init.len() && rule_sets(tag, attrs, #[trigger] init[i], name) {
            let i = choose|i: int| 0 <= i < init.len() && rule_sets(tag, attrs, #[trigger] init[i], name);
            assert(rules[i] == init[i]);
        }
        if exists|i: int| 0 <= i < rules.len() && rule_sets(tag, attrs, #[trigger] rules[i], name) {
            let i = choose|i: int| 0 <= i < rules.len() && rule_sets(tag, attrs, #[trigger] rules[i], name);
            if i < rules.len() - 1 {
                assert(init[i] == rules[i]);
            }
        }
    }
}

/// Which value a property gets: when rule `i` has a selector that matches the element, its
/// last declaration of `name` is at `j`, and no later rule both matches and declares `name`,
/// the element's `name` has the value of that declaration.
pub proof fn lemma_rules_value(
    tag: Seq<char>,
    attrs: Map<Seq<char>, Seq<char>>,
    rules: Seq<Rule>,
    name: Seq<char>,
    i: int,
    j: int,
)
    requires
        0 <= i < rules.len(),
        exists|k: int|
            0 <= k < rules[i].selectors@.len() && selector_matches(tag, attrs, #[trigger] rules[i].selectors@[k]),
        0 <= j < rules[i].declarations@.len(),
        rules[i].declarations@[j].name@ == name,
        forall|m: int| j < m < rules[i].declarations@.len() ==> (#[trigger] rules[i].declarations@[m]).name@ != name,
        forall|m: int| i < m < rules.len() ==> !rule_sets(tag, attrs, #[trigger] rules[m], name),
    ensures
        apply_rules(tag, attrs, rules).contains_key(name),
        apply_rules(tag, attrs, rules)[name] == rules[i].declarations@[j].value@,
    decreases rules.len(),
{
    let init = rules.drop_last();
    let last = rules.last();
    if i == rules.len() - 1 {
        let k = choose|k: int|
            0 <= k < rules[i].selectors@.len() && selector_matches(tag, attrs, #[trigger] rules[i].selectors@[k]);
        lemma_last_rule_wins(tag, attrs, rules, k, j);
    } else {
        assert(init[i] == rules[i]);
        assert forall|m: int| i < m < init.len() implies !rule_sets(tag, attrs, #[trigger] init[m], name) by {
            assert(init[m] == rules[m]);
        }
        lemma_rules_value(tag, attrs, init, name, i, j);
        assert(!rule_sets(tag, attrs, rules[rules.len() - 1], name));
        lemma_selectors_effect(
            tag,
            attrs,
            last.selectors@,
            last.declarations@,
            apply_rules(tag, attrs, init),
            name,
        );
    }
}

/// The properties of an element in the styled tree, in terms of the whole style sheet: `name`
/// gets a value exactly when some rule of the sheet has a selector that matches the element
/// and declares `name`; and that value is the one declared last by the last such rule.
pub proof fn lemma_style_tree_cascade(
    tag: Seq<char>,
    attrs: Map<Seq<char>, Seq<char>>,
    children: Seq<SpecNode>,
    stylesheet: Stylesheet,
    name: Seq<char>,
)
    ensures
        ({
            let props = spec_style_tree(
                SpecNode { node_type: SpecNodeType::Element { tag_name: tag, attrs }, children },
                stylesheet,
            ).properties;
            &&& props.contains_key(name) <==> exists|i: int|
                0 <= i < stylesheet.rules@.len() && rule_sets(tag, attrs, #[trigger] stylesheet.rules@[i], name)
            &&& forall|i: int, j: int|
                0 <= i < stylesheet.rules@.len() && (exists|k: int|
                    0 <= k < stylesheet.rules@[i].selectors@.len() && selector_matches(
                        tag,
                        attrs,
                        #[trigger] stylesheet.rules@[i].selectors@[k],
                    )) && 0 <= j < stylesheet.rules@[i].declarations@.len()
                    && (#[trigger] stylesheet.rules@[i].declarations@[j]).name@ == name && (forall|m: int|
                    j < m < stylesheet.rules@[i].declarations@.len()
                        ==> (#[trigger] stylesheet.rules@[i].declarations@[m]).name@ != name) && (forall|m: int|
                    i < m < stylesheet.rules@.len() ==> !rule_sets(tag, attrs, #[trigger] stylesheet.rules@[m], name))
                    ==> props[name] == stylesheet.rules@[i].declarations@[j].value@
        }),
{
    let rules = stylesheet.rules@;
    lemma_rules_domain(tag, attrs, rules, name);
    assert forall|i: int, j: int|
        0 <= i < rules.len() && (exists|k: int|
            0 <= k < rules[i].selectors@.len() && selector_matches(tag, attrs, #[trigger] rules[i].selectors@[k]))
            && 0 <= j < rules[i].declarations@.len() && (#[trigger] rules[i].declarations@[j]).name@ == name
            && (forall|m: int| j < m < rules[i].declarations@.len() ==> (#[trigger] rules[i].declarations@[m]).name@ != name)
            && (forall|m: int| i < m < rules.len() ==> !rule_sets(tag, attrs, #[trigger] rules[m], name))
        implies apply_rules(tag, attrs, rules)[name] == rules[i].declarations@[j].value@ by {
        lemma_rules_value(tag, attrs, rules, name, i, j);
    }
}

/// `display` in terms of the `display` property: `Block` exactly for the keyword "block",
/// `DisplayNone` exactly for the keyword "none", and `Inline` for any other value or none.
pub proof fn lemma_display_keywords(properties: Map<Seq<char>, SpecValue>)
    ensures
        (spec_display(properties) == Display::Block) <==> (properties.contains_key("display"@)
            && properties["display"@] == SpecValue::Keyword("block"@)),
        (spec_display(properties) == Display::DisplayNone) <==> (properties.contains_key("display"@)
            && properties["display"@] == SpecValue::Keyword("none"@)),
        (spec_display(properties) == Display::Inline) <==> !(properties.contains_key("display"@) && (
        properties["display"@] == SpecValue::Keyword("block"@) || properties["display"@]
            == SpecValue::Keyword("none"@))),
{
    reveal_strlit("block");
    reveal_strlit("none");
    assert("block"@ != "none"@) by {
        assert("block"@[0] != "none"@[0]);
    }
}

} // verus!
