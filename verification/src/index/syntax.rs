//! Syntax trees: what tree-sitter parses a source into, held as plain
//! values, and the questions the extractors ask of a node.
use vstd::prelude::*;

use crate::index::Language;
use crate::text::{chars_eq, chars_of, decode_utf8, str_is, utf8_of};
use tree_sitter::Language as Grammar;

verus! {

/// A node of a syntax tree: its kind, the field it fills in its parent,
/// its byte range in the source, its first and last rows (0-based) and the
/// column it ends at, whether it is named or extra, and its children.
pub struct SyntaxNode {
    pub kind: String,
    pub field: Option<String>,
    pub start_byte: usize,
    pub end_byte: usize,
    pub start_row: usize,
    pub end_row: usize,
    pub end_column: usize,
    pub named: bool,
    pub extra: bool,
    pub children: Vec<SyntaxNode>,
}

#[verifier::external_type_specification]
#[verifier::external_body]
pub struct ExNode<'tree>(tree_sitter::Node<'tree>);

/// Every row of `n` and of the nodes below it is below `usize::MAX`, so
/// that its 1-based line numbers fit in a `usize`.
pub open spec fn rows_fit(n: SyntaxNode) -> bool
    decreases n, n.children@.len() + 1,
{
    &&& n.start_row < usize::MAX
    &&& n.end_row < usize::MAX
    &&& kids_fit(n, n.children@.len() as int)
}

/// The first `k` children of `n` and the nodes below them fit (see
/// `rows_fit`).
pub open spec fn kids_fit(n: SyntaxNode, k: int) -> bool
    decreases n, k,
{
    if k <= 0 || k > n.children@.len() {
        true
    } else {
        kids_fit(n, k - 1) && rows_fit(n.children@[k - 1])
    }
}

/// A child of a node whose rows fit has rows that fit.
pub proof fn lemma_child_fits(n: SyntaxNode, i: int)
    requires
        rows_fit(n),
        0 <= i < n.children@.len(),
    ensures
        rows_fit(n.children@[i]),
{
    lemma_kids_fit(n, n.children@.len() as int, i);
}

/// Each of the first `k` children of `n` fits when they all do.
pub proof fn lemma_kids_fit(n: SyntaxNode, k: int, i: int)
    requires
        kids_fit(n, k),
        0 <= i < k <= n.children@.len(),
    ensures
        rows_fit(n.children@[i]),
    decreases k,
{
    if i < k - 1 {
        lemma_kids_fit(n, k - 1, i);
    }
}

/// The syntax tree that tree-sitter parses `source` into with the grammar
/// of `lang`, each node held as a `SyntaxNode`; `None` where the parser
/// takes no grammar or does not finish.
pub uninterp spec fn parsed_tree(lang: Language, source: Seq<u8>) -> Option<SyntaxNode>;

/// Wraps the grammar of `lang` (`tree_sitter_rust::LANGUAGE` and the
/// like; `LANGUAGE_TYPESCRIPT` for TypeScript), `Parser::new`,
/// `Parser::set_language`, `Parser::parse` and `Tree::root_node`: the tree
/// of `source`, held as a `SyntaxNode` (see `syntax_node`), named by
/// `parsed_tree`. Nothing is claimed of the tree beyond that name.
#[verifier::external_body]
fn parse_tree(source: &[u8], lang: Language) -> (r: Option<SyntaxNode>)
    ensures
        r == parsed_tree(lang, source@),
{
    let grammar: Grammar = match lang {
        Language::Rust => tree_sitter_rust::LANGUAGE.into(),
        Language::Python => tree_sitter_python::LANGUAGE.into(),
        Language::TypeScript => tree_sitter_typescript::LANGUAGE_TYPESCRIPT.into(),
        Language::JavaScript => tree_sitter_javascript::LANGUAGE.into(),
        Language::Go => tree_sitter_go::LANGUAGE.into(),
        Language::Java => tree_sitter_java::LANGUAGE.into(),
    };
    let mut parser = tree_sitter::Parser::new();
    parser.set_language(&grammar).ok()?;
    let tree = parser.parse(source, None)?;
    Some(syntax_node(&tree.root_node(), None))
}

/// Holds a tree-sitter node and the nodes below it as a `SyntaxNode`: its
/// `Node::kind`, the field it fills (`field`, from its parent's
/// `Node::field_name_for_child`), `Node::start_byte` and `Node::end_byte`,
/// the rows of `Node::start_position` and `Node::end_position` and the
/// column of the latter, `Node::is_named`, `Node::is_extra`, and its
/// children (`Node::child`) in order. It serves `parse_tree` alone.
#[verifier::external_body]
fn syntax_node(n: &tree_sitter::Node, field: Option<String>) -> SyntaxNode {
    let mut children = Vec::new();
    for i in 0..n.child_count() {
        if let Some(c) = n.child(i) {
            children.push(syntax_node(&c, n.field_name_for_child(i).map(String::from)));
        }
    }
    let (start, end) = (n.start_position(), n.end_position());
    SyntaxNode {
        kind: n.kind().to_string(), field, start_byte: n.start_byte(), end_byte: n.end_byte(),
        start_row: start.row, end_row: end.row, end_column: end.column,
        named: n.is_named(), extra: n.is_extra(), children,
    }
}

/// `o` when it is a tree whose rows fit (see `rows_fit`), else none.
pub open spec fn fitting(o: Option<SyntaxNode>) -> Option<SyntaxNode> {
    match o {
        Some(t) => if rows_fit(t) {
            Some(t)
        } else {
            None
        },
        None => None,
    }
}

/// The tree the library works on for `source` in `lang`: the parsed tree,
/// when its line numbers fit in a `usize`.
pub open spec fn parse_of(lang: Language, source: Seq<u8>) -> Option<SyntaxNode> {
    fitting(parsed_tree(lang, source))
}

/// Whether the rows of `n` and of the nodes below it fit (see `rows_fit`).
fn fits(n: &SyntaxNode) -> (b: bool)
    ensures
        b == rows_fit(*n),
    decreases n,
{
    if n.start_row == usize::MAX || n.end_row == usize::MAX {
        return false;
    }
    let mut i: usize = 0;
    while i < n.children.len()
        invariant
            i <= n.children@.len(),
            n.start_row < usize::MAX,
            n.end_row < usize::MAX,
            kids_fit(*n, i as int),
        decreases n.children@.len() - i,
    {
        assert(decreases_to!(n => n.children@[i as int]));
        if !fits(&n.children[i]) {
            proof {
                if rows_fit(*n) {
                    lemma_child_fits(*n, i as int);
                }
            }
            return false;
        }
        i += 1;
    }
    true
}

/// The syntax tree of `source` in `lang` (see `parse_of`): `None` when the
/// parser takes no grammar, does not finish, or gives a row whose line
/// number would not fit in a `usize`.
pub fn parse_source(source: &[u8], lang: Language) -> (r: Option<SyntaxNode>)
    ensures
        r == parse_of(lang, source@),
        r matches Some(t) ==> rows_fit(t),
{
    match parse_tree(source, lang) {
        Some(t) => if fits(&t) {
            Some(t)
        } else {
            None
        },
        None => None,
    }
}

/// The position of the first child of `cs` from `i` on that fills field `f`.
pub open spec fn first_field_from(cs: Seq<SyntaxNode>, f: Seq<char>, i: int) -> Option<int>
    decreases cs.len() - i,
{
    if i < 0 || i >= cs.len() {
        None
    } else if cs[i].field matches Some(x) && x@ == f {
        Some(i)
    } else {
        first_field_from(cs, f, i + 1)
    }
}

/// The position of the first named child of `cs` from `i` on.
pub open spec fn first_named_from(cs: Seq<SyntaxNode>, i: int) -> Option<int>
    decreases cs.len() - i,
{
    if i < 0 || i >= cs.len() {
        None
    } else if cs[i].named {
        Some(i)
    } else {
        first_named_from(cs, i + 1)
    }
}

/// The position of the first child of `cs` from `i` on of kind `k`.
pub open spec fn first_kind_from(cs: Seq<SyntaxNode>, k: Seq<char>, i: int) -> Option<int>
    decreases cs.len() - i,
{
    if i < 0 || i >= cs.len() {
        None
    } else if cs[i].kind@ == k {
        Some(i)
    } else {
        first_kind_from(cs, k, i + 1)
    }
}

/// The child at an optional position.
pub open spec fn child_at(n: SyntaxNode, p: Option<int>) -> Option<SyntaxNode> {
    match p {
        Some(i) => Some(n.children@[i]),
        None => None,
    }
}

/// The first child that fills field `f` (`Node::child_by_field_name`).
pub open spec fn field_child(n: SyntaxNode, f: Seq<char>) -> Option<SyntaxNode> {
    child_at(n, first_field_from(n.children@, f, 0))
}

/// The first named child.
pub open spec fn named_child(n: SyntaxNode) -> Option<SyntaxNode> {
    child_at(n, first_named_from(n.children@, 0))
}

/// The first child of kind `k`.
pub open spec fn kind_child(n: SyntaxNode, k: Seq<char>) -> Option<SyntaxNode> {
    child_at(n, first_kind_from(n.children@, k, 0))
}

/// The first child.
pub open spec fn first_child(n: SyntaxNode) -> Option<SyntaxNode> {
    if n.children@.len() > 0 {
        Some(n.children@[0])
    } else {
        None
    }
}

/// A field search from `i` finds a position at or after `i`, inside `cs`.
pub proof fn lemma_field_from_range(cs: Seq<SyntaxNode>, f: Seq<char>, i: int)
    ensures
        first_field_from(cs, f, i) matches Some(j) ==> i <= j < cs.len(),
    decreases cs.len() - i,
{
    if 0 <= i < cs.len() {
        lemma_field_from_range(cs, f, i + 1);
    }
}

/// A kind search from `i` finds a position at or after `i`, inside `cs`.
pub proof fn lemma_kind_from_range(cs: Seq<SyntaxNode>, k: Seq<char>, i: int)
    ensures
        first_kind_from(cs, k, i) matches Some(j) ==> i <= j < cs.len(),
    decreases cs.len() - i,
{
    if 0 <= i < cs.len() {
        lemma_kind_from_range(cs, k, i + 1);
    }
}

/// The children of a node whose rows fit have rows that fit, however they
/// are found.
pub proof fn lemma_fits_below(n: SyntaxNode)
    requires
        rows_fit(n),
    ensures
        forall|f: Seq<char>| #[trigger] field_child(n, f) matches Some(m) ==> rows_fit(m),
        forall|k: Seq<char>| #[trigger] kind_child(n, k) matches Some(m) ==> rows_fit(m),
        first_child(n) matches Some(m) ==> rows_fit(m),
        forall|i: int| 0 <= i < n.children@.len() ==> #[trigger] rows_fit(n.children@[i]),
{
    assert forall|f: Seq<char>| #[trigger] field_child(n, f) is Some implies rows_fit(field_child(n, f)->0) by {
        lemma_field_from_range(n.children@, f, 0);
        let j = first_field_from(n.children@, f, 0)->0;
        lemma_child_fits(n, j);
    }
    assert forall|k: Seq<char>| #[trigger] kind_child(n, k) is Some implies rows_fit(kind_child(n, k)->0) by {
        lemma_kind_from_range(n.children@, k, 0);
        let j = first_kind_from(n.children@, k, 0)->0;
        lemma_child_fits(n, j);
    }
    if n.children@.len() > 0 {
        lemma_child_fits(n, 0);
    }
    assert forall|i: int| 0 <= i < n.children@.len() implies #[trigger] rows_fit(n.children@[i]) by {
        lemma_child_fits(n, i);
    }
}

/// The text of a node: its bytes of the source as UTF-8, or nothing when
/// they are not valid UTF-8 (or lie outside the source).
pub open spec fn text_of(n: SyntaxNode, src: Seq<u8>) -> Seq<char> {
    if n.start_byte <= n.end_byte && n.end_byte <= src.len() {
        match utf8_of(src.subrange(n.start_byte as int, n.end_byte as int)) {
            Some(t) => t,
            None => Seq::empty(),
        }
    } else {
        Seq::empty()
    }
}

/// The node at an optional reference.
pub open spec fn deref_opt(r: Option<&SyntaxNode>) -> Option<SyntaxNode> {
    match r {
        Some(c) => Some(*c),
        None => None,
    }
}

/// The first child that fills field `f`.
pub fn child_by_field<'a>(n: &'a SyntaxNode, f: &str) -> (r: Option<&'a SyntaxNode>)
    ensures
        deref_opt(r) == field_child(*n, f@),
{
    let fc = chars_of(f);
    let mut i: usize = 0;
    while i < n.children.len()
        invariant
            i <= n.children@.len(),
            fc@ == f@,
            first_field_from(n.children@, f@, 0) == first_field_from(n.children@, f@, i as int),
        decreases n.children@.len() - i,
    {
        let c = &n.children[i];
        match &c.field {
            Some(x) => {
                let xc = chars_of(x.as_str());
                if chars_eq(xc.as_slice(), fc.as_slice()) {
                    return Some(c);
                }
            },
            None => {},
        }
        i += 1;
    }
    None
}

/// The first named child.
pub fn first_named_child<'a>(n: &'a SyntaxNode) -> (r: Option<&'a SyntaxNode>)
    ensures
        deref_opt(r) == named_child(*n),
{
    let mut i: usize = 0;
    while i < n.children.len()
        invariant
            i <= n.children@.len(),
            first_named_from(n.children@, 0) == first_named_from(n.children@, i as int),
        decreases n.children@.len() - i,
    {
        if n.children[i].named {
            return Some(&n.children[i]);
        }
        i += 1;
    }
    None
}

/// The first child of kind `k` (`find_child`).
pub fn find_child<'a>(n: &'a SyntaxNode, k: &str) -> (r: Option<&'a SyntaxNode>)
    ensures
        deref_opt(r) == kind_child(*n, k@),
{
    let kc = chars_of(k);
    let mut i: usize = 0;
    while i < n.children.len()
        invariant
            i <= n.children@.len(),
            kc@ == k@,
            first_kind_from(n.children@, k@, 0) == first_kind_from(n.children@, k@, i as int),
        decreases n.children@.len() - i,
    {
        let c = chars_of(n.children[i].kind.as_str());
        if chars_eq(c.as_slice(), kc.as_slice()) {
            return Some(&n.children[i]);
        }
        i += 1;
    }
    None
}

/// Whether the node is of kind `k`.
pub fn kind_is(n: &SyntaxNode, k: &str) -> (b: bool)
    ensures
        b == (n.kind@ == k@),
{
    str_is(n.kind.as_str(), k)
}

/// The text of a node (see `text_of`).
pub fn node_text(n: &SyntaxNode, source: &[u8]) -> (r: Vec<char>)
    ensures
        r@ == text_of(*n, source@),
{
    if n.start_byte <= n.end_byte && n.end_byte <= source.len() {
        let mut bytes: Vec<u8> = Vec::new();
        let mut i = n.start_byte;
        while i < n.end_byte
            invariant
                n.start_byte <= i <= n.end_byte <= source@.len(),
                bytes@ == source@.subrange(n.start_byte as int, i as int),
            decreases n.end_byte - i,
        {
            bytes.push(source[i]);
            i += 1;
            assert(bytes@ =~= source@.subrange(n.start_byte as int, i as int));
        }
        match decode_utf8(bytes.as_slice()) {
            Some(t) => t,
            None => Vec::new(),
        }
    } else {
        Vec::new()
    }
}

/// The kinds of nodes that start a nested definition (a function, closure
/// or class inside a body), per language.
pub open spec fn nested_def(k: Seq<char>, lang: Language) -> bool {
    match lang {
        Language::Rust => k == "function_item"@ || k == "closure_expression"@,
        Language::Python => k == "function_definition"@ || k == "lambda"@ || k
            == "class_definition"@,
        Language::TypeScript | Language::JavaScript => k == "function_declaration"@ || k
            == "arrow_function"@ || k == "function"@ || k == "class_declaration"@ || k == "class"@,
        Language::Go => k == "func_literal"@ || k == "function_declaration"@,
        Language::Java => k == "method_declaration"@ || k == "lambda_expression"@ || k
            == "class_declaration"@ || k == "anonymous_class_body"@,
    }
}

/// Whether a node starts a nested definition.
pub fn is_nested_definition(n: &SyntaxNode, lang: Language) -> (b: bool)
    ensures
        b == nested_def(n.kind@, lang),
{
    let k = n.kind.as_str();
    match lang {
        Language::Rust => str_is(k, "function_item") || str_is(k, "closure_expression"),
        Language::Python => str_is(k, "function_definition") || str_is(k, "lambda") || str_is(
            k,
            "class_definition",
        ),
        Language::TypeScript | Language::JavaScript => str_is(k, "function_declaration") || str_is(
            k,
            "arrow_function",
        ) || str_is(k, "function") || str_is(k, "class_declaration") || str_is(k, "class"),
        Language::Go => str_is(k, "func_literal") || str_is(k, "function_declaration"),
        Language::Java => str_is(k, "method_declaration") || str_is(k, "lambda_expression")
            || str_is(k, "class_declaration") || str_is(k, "anonymous_class_body"),
    }
}

/// The nodes a body walk visits below `n`, in pre-order, skipping nested
/// definitions and everything inside them.
pub open spec fn visit(n: SyntaxNode, lang: Language) -> Seq<SyntaxNode>
    decreases n, n.children@.len() + 1,
{
    visit_kids(n, lang, n.children@.len() as int)
}

/// The nodes a body walk visits below the first `k` children of `n`.
pub open spec fn visit_kids(n: SyntaxNode, lang: Language, k: int) -> Seq<SyntaxNode>
    decreases n, k,
{
    if k <= 0 || k > n.children@.len() {
        Seq::empty()
    } else {
        let c = n.children@[k - 1];
        visit_kids(n, lang, k - 1) + if nested_def(c.kind@, lang) {
            Seq::<SyntaxNode>::empty()
        } else {
            seq![c] + visit(c, lang)
        }
    }
}

/// The nodes behind a sequence of references.
pub open spec fn derefs(s: Seq<&SyntaxNode>) -> Seq<SyntaxNode> {
    s.map_values(|r: &SyntaxNode| *r)
}

/// Appends the nodes a body walk visits below `n`.
pub fn collect_visit<'a>(n: &'a SyntaxNode, lang: Language, out: &mut Vec<&'a SyntaxNode>)
    ensures
        derefs(final(out)@) == derefs(old(out)@) + visit(*n, lang),
    decreases n,
{
    let ghost o0 = derefs(out@);
    let mut i: usize = 0;
    assert(derefs(out@) =~= o0 + visit_kids(*n, lang, 0));
    while i < n.children.len()
        invariant
            i <= n.children@.len(),
            derefs(out@) == o0 + visit_kids(*n, lang, i as int),
        decreases n.children@.len() - i,
    {
        let c = &n.children[i];
        if !is_nested_definition(c, lang) {
            let ghost o1 = derefs(out@);
            out.push(c);
            assert(derefs(out@) =~= o1.push(*c));
            collect_visit(c, lang, out);
        }
        i += 1;
        assert(derefs(out@) =~= o0 + visit_kids(*n, lang, i as int));
    }
}

} // verus!
