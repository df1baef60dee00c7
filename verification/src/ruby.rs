//! Ruby sources: tree-sitter parses them, and the nodes of its tree are read
//! into plain syntax trees.
use crate::heredoc::heredocs_surely_fit;
use crate::stand_in::{
    find_stand_in, law_places_are_bytes, law_stand_in_fits, law_stand_in_keeps_places, stand_in,
};
use crate::syntax::{
    argument_views, syntax_views, Argument, ArgumentView, Leaf, LeafView, SyntaxNode, SyntaxView,
};
use crate::text::option_text;
use tree_sitter::{Node, Tree};
use vstd::prelude::*;
use vstd::string::*;
use vstd::utf8::*;

verus! {

/// A syntax tree of tree-sitter.
#[verifier::external_type_specification]
#[verifier::external_body]
pub struct ExTree(tree_sitter::Tree);

/// A node of a syntax tree of tree-sitter.
#[verifier::external_type_specification]
#[verifier::external_body]
pub struct ExNode<'a>(tree_sitter::Node<'a>);

/// What a tree of tree-sitter holds at a node: its kind, the bytes of the source
/// that it spans, its children, and the children that have a field name.
#[verifier::ext_equal]
pub struct RawNode {
    pub kind: Seq<char>,
    pub start: nat,
    pub end: nat,
    pub children: Seq<RawNode>,
    pub fields: Map<Seq<char>, RawNode>,
}

/// What the scanner of the Ruby grammar has from the machine: the classes of characters
/// of the C library (`iswalnum`, `iswalpha`, `iswupper`, `iswlower`, `iswdigit` and
/// `iswspace`), and whether a C `char` has a sign.
pub struct Machine {
    pub alnum: Set<char>,
    pub alpha: Set<char>,
    pub upper: Set<char>,
    pub lower: Set<char>,
    pub digit: Set<char>,
    pub space: Set<char>,
    pub signed_char: bool,
}

/// A machine whose classes hold ASCII characters alone.
pub open spec fn ascii_machine() -> Machine {
    let upper = Set::new(|c: char| 'A' <= c <= 'Z');
    let lower = Set::new(|c: char| 'a' <= c <= 'z');
    let digit = Set::new(|c: char| '0' <= c <= '9');
    Machine {
        alnum: upper.union(lower).union(digit),
        alpha: upper.union(lower),
        upper,
        lower,
        digit,
        space: Set::new(|c: char| c == ' ' || '\t' <= c <= '\r'),
        signed_char: true,
    }
}

/// The tree that tree-sitter makes of a source with the Ruby grammar on a machine.
pub uninterp spec fn ruby_tree_on(source: Seq<char>, machine: Machine) -> RawNode;

/// What a tree holds.
pub uninterp spec fn tree_contents(tree: Tree) -> RawNode;

/// What a tree holds at one of its nodes.
pub uninterp spec fn node_contents(node: Node<'_>) -> RawNode;

/// Calls `Parser::parse` of tree-sitter on a new parser with the grammar of
/// tree-sitter-ruby. It takes sources whose heredocs the scanner of the grammar can save
/// and whose positions fit in 32 bits. There is a tree: the grammar has language version
/// 14, which `Parser::set_language` accepts, and `Parser::parse` returns none only
/// without a language, after a timeout or when cancelled. The tree depends on the source
/// and on what the scanner has from the machine, and on the source alone where that is
/// ASCII: machines class ASCII characters alike, and an ASCII character is the same
/// `char` with a sign and without.
#[verifier::external_body]
fn parse_tree(source: &str) -> (tree: Option<Tree>)
    requires
        heredocs_surely_fit(source@),
        encode_utf8(source@).len() < u32::MAX,
    ensures
        tree is Some,
        exists|machine: Machine|
            tree_contents(tree->0) == #[trigger] ruby_tree_on(source@, machine),
        is_ascii_chars(source@) ==> tree_contents(tree->0) == ruby_tree_on(
            source@,
            ascii_machine(),
        ),
{
    let mut parser = tree_sitter::Parser::new();
    parser.set_language(tree_sitter_ruby::language()).ok()?;
    parser.parse(source, None)
}

/// `Tree::root_node` of tree-sitter gives the node that holds the whole tree.
pub assume_specification[ Tree::root_node ](tree: &Tree) -> (node: Node<'_>)
    ensures
        node_contents(node) == tree_contents(*tree),
;

/// `Node::kind` of tree-sitter gives the kind of the node.
pub assume_specification<'tree>[ Node::<'tree>::kind ](node: &Node<'tree>) -> (kind: &'static str)
    ensures
        kind@ == node_contents(*node).kind,
;

/// `Node::start_byte` of tree-sitter gives the byte at which the node starts.
pub assume_specification<'tree>[ Node::<'tree>::start_byte ](node: &Node<'tree>) -> (start: usize)
    ensures
        start == node_contents(*node).start,
;

/// `Node::end_byte` of tree-sitter gives the byte at which the node ends.
pub assume_specification<'tree>[ Node::<'tree>::end_byte ](node: &Node<'tree>) -> (end: usize)
    ensures
        end == node_contents(*node).end,
;

/// `Node::child_count` of tree-sitter gives the number of children.
pub assume_specification<'tree>[ Node::<'tree>::child_count ](node: &Node<'tree>) -> (count: usize)
    ensures
        count == node_contents(*node).children.len(),
;

/// `Node::child` of tree-sitter gives the child at an index below the number of
/// children.
pub assume_specification<'tree>[ Node::<'tree>::child ](node: &Node<'tree>, i: usize) -> (child:
    Option<Node<'tree>>)
    requires
        i < node_contents(*node).children.len(),
    ensures
        child is Some,
        node_contents(child->0) == node_contents(*node).children[i as int],
;

/// A name that tree-sitter can look up.
spec fn is_field_name(name: &str) -> bool {
    name.spec_bytes().len() <= u32::MAX && !name@.contains('\0')
}

/// `Node::child_by_field_name` of tree-sitter gives the first child that has the
/// field name, where there is one. It takes names without a NUL whose length fits in
/// 32 bits.
#[verifier::external_body]
fn field<'tree>(node: &Node<'tree>, name: &str) -> (child: Option<Node<'tree>>)
    requires
        is_field_name(name),
    ensures
        match child {
            Some(c) => node_contents(*node).fields.contains_key(name@) && node_contents(c)
                == node_contents(*node).fields[name@],
            None => !node_contents(*node).fields.contains_key(name@),
        },
{
    node.child_by_field_name(name)
}

/// `Node::utf8_text` of tree-sitter gives the bytes of the source that the node
/// spans as text, where they are text. It takes nodes that lie in the source.
#[verifier::external_body]
fn utf8_text<'a>(node: &Node<'_>, source: &'a str) -> (text: Option<&'a str>)
    requires
        node_contents(*node).start <= node_contents(*node).end <= source.spec_bytes().len(),
    ensures
        match text {
            Some(t) => t.spec_bytes() == source.spec_bytes().subrange(
                node_contents(*node).start as int,
                node_contents(*node).end as int,
            ),
            None => !valid_utf8(
                source.spec_bytes().subrange(
                    node_contents(*node).start as int,
                    node_contents(*node).end as int,
                ),
            ),
        },
{
    node.utf8_text(source.as_bytes()).ok()
}

/// The text that a node spans, where its bytes lie in the source and are text.
pub open spec fn text_of(raw: RawNode, source: Seq<char>) -> Option<Seq<char>> {
    let bytes = encode_utf8(source);
    if raw.start <= raw.end <= bytes.len() {
        let part = bytes.subrange(raw.start as int, raw.end as int);
        if valid_utf8(part) {
            Some(decode_utf8(part))
        } else {
            None
        }
    } else {
        None
    }
}

/// The text of the child with a field name: none where it spans no text, and
/// `Some(None)` where there is no such child.
pub open spec fn field_text(raw: RawNode, name: Seq<char>, source: Seq<char>) -> Option<
    Option<Seq<char>>,
> {
    if raw.fields.contains_key(name) {
        match text_of(raw.fields[name], source) {
            Some(t) => Some(Some(t)),
            None => None,
        }
    } else {
        Some(None)
    }
}

/// The kind and the text of the child with a field name.
pub open spec fn field_leaf(raw: RawNode, name: Seq<char>, source: Seq<char>) -> Option<
    Option<LeafView>,
> {
    match field_text(raw, name, source) {
        Some(Some(t)) => Some(Some(LeafView { kind: raw.fields[name].kind, text: t })),
        Some(None) => Some(None),
        None => None,
    }
}

/// A node of an argument list as a plain value; none where a node in it spans no text.
pub open spec fn argument_of(raw: RawNode, source: Seq<char>) -> Option<ArgumentView>
    decreases raw,
{
    match (
        text_of(raw, source),
        field_text(raw, "key"@, source),
        field_leaf(raw, "value"@, source),
        arguments_of(raw.children, source),
    ) {
        (Some(text), Some(key), Some(value), Some(children)) => Some(
            ArgumentView { kind: raw.kind, text, key, value, children },
        ),
        _ => None,
    }
}

/// Several nodes of an argument list as plain values.
pub open spec fn arguments_of(raws: Seq<RawNode>, source: Seq<char>) -> Option<Seq<ArgumentView>>
    decreases raws,
{
    if raws.len() == 0 {
        Some(Seq::empty())
    } else {
        match (arguments_of(raws.drop_last(), source), argument_of(raws.last(), source)) {
            (Some(rest), Some(last)) => Some(rest.push(last)),
            _ => None,
        }
    }
}

/// The arguments of a call: `Some(None)` where it has none.
pub open spec fn field_argument(raw: RawNode, source: Seq<char>) -> Option<Option<ArgumentView>> {
    if raw.fields.contains_key("arguments"@) {
        match argument_of(raw.fields["arguments"@], source) {
            Some(a) => Some(Some(a)),
            None => None,
        }
    } else {
        Some(None)
    }
}

/// A node as a plain value; none where a node in it spans no text.
pub open spec fn node_of(raw: RawNode, source: Seq<char>) -> Option<SyntaxView>
    decreases raw,
{
    match (
        text_of(raw, source),
        field_text(raw, "method"@, source),
        field_argument(raw, source),
        field_text(raw, "condition"@, source),
        nodes_of(raw.children, source),
    ) {
        (Some(text), Some(method), Some(arguments), Some(condition), Some(children)) => Some(
            SyntaxView { kind: raw.kind, text, method, arguments, condition, children },
        ),
        _ => None,
    }
}

/// Several nodes as plain values.
pub open spec fn nodes_of(raws: Seq<RawNode>, source: Seq<char>) -> Option<Seq<SyntaxView>>
    decreases raws,
{
    if raws.len() == 0 {
        Some(Seq::empty())
    } else {
        match (nodes_of(raws.drop_last(), source), node_of(raws.last(), source)) {
            (Some(rest), Some(last)) => Some(rest.push(last)),
            _ => None,
        }
    }
}

/// The syntax tree of a Ruby source on a machine; none where the positions in it do not
/// fit in 32 bits, or a node of the tree spans no text. Its shape is that of the text
/// which stands in for the source, and what its nodes span is read from the source.
pub open spec fn syntax_on(source: Seq<char>, machine: Machine) -> Option<SyntaxView> {
    if encode_utf8(source).len() < u32::MAX {
        node_of(ruby_tree_on(stand_in(source), machine), source)
    } else {
        None
    }
}

/// The syntax tree of a Ruby source in ASCII, which is the same on every machine.
pub open spec fn syntax_of(source: Seq<char>) -> Option<SyntaxView> {
    syntax_on(source, ascii_machine())
}

/// What may be read from a Ruby source: its syntax tree on some machine, and on any
/// where it is in ASCII.
pub open spec fn may_read(source: Seq<char>, syntax: Option<SyntaxView>) -> bool {
    if is_ascii_chars(source) {
        syntax == syntax_of(source)
    } else {
        exists|machine: Machine| #[trigger] syntax_on(source, machine) == syntax
    }
}

/// The model of an optional node.
pub open spec fn option_syntax(node: Option<SyntaxNode>) -> Option<SyntaxView> {
    match node {
        Some(n) => Some(n@),
        None => None,
    }
}

/// Nothing can be read of a list when nothing can be read of one of its nodes.
proof fn lemma_arguments_fail(raws: Seq<RawNode>, source: Seq<char>, n: int)
    requires
        0 <= n <= raws.len(),
        arguments_of(raws.take(n), source) is None,
    ensures
        arguments_of(raws, source) is None,
    decreases raws.len() - n,
{
    if n < raws.len() {
        assert(raws.take(n + 1).drop_last() =~= raws.take(n));
        lemma_arguments_fail(raws, source, n + 1);
    } else {
        assert(raws.take(n) =~= raws);
    }
}

/// Nothing can be read of a list when nothing can be read of one of its nodes.
proof fn lemma_nodes_fail(raws: Seq<RawNode>, source: Seq<char>, n: int)
    requires
        0 <= n <= raws.len(),
        nodes_of(raws.take(n), source) is None,
    ensures
        nodes_of(raws, source) is None,
    decreases raws.len() - n,
{
    if n < raws.len() {
        assert(raws.take(n + 1).drop_last() =~= raws.take(n));
        lemma_nodes_fail(raws, source, n + 1);
    } else {
        assert(raws.take(n) =~= raws);
    }
}

/// The text of a node.
fn read_text(node: &Node<'_>, source: &str) -> (r: Option<String>)
    ensures
        option_text(r) == text_of(node_contents(*node), source@),
{
    let start: usize = node.start_byte();
    let end: usize = node.end_byte();
    if start > end || end > source.as_bytes().len() {
        return None;
    }
    match utf8_text(node, source) {
        Some(text) => {
            proof {
                encode_utf8_valid_utf8(text@);
                encode_utf8_decode_utf8(text@);
            }
            Some(text.to_owned())
        },
        None => None,
    }
}

/// The text of the child with a field name.
fn read_field(node: &Node<'_>, name: &str, source: &str) -> (r: Option<Option<String>>)
    requires
        is_field_name(name),
    ensures
        match r {
            Some(t) => field_text(node_contents(*node), name@, source@) == Some(option_text(t)),
            None => field_text(node_contents(*node), name@, source@) is None,
        },
{
    match field(node, name) {
        Some(child) => match read_text(&child, source) {
            Some(text) => Some(Some(text)),
            None => None,
        },
        None => Some(None),
    }
}

/// The kind and the text of the child with a field name.
fn read_leaf(node: &Node<'_>, name: &str, source: &str) -> (r: Option<Option<Leaf>>)
    requires
        is_field_name(name),
    ensures
        match r {
            Some(Some(l)) => field_leaf(node_contents(*node), name@, source@) == Some(Some(l@)),
            Some(None) => field_leaf(node_contents(*node), name@, source@) == Some(
                None::<LeafView>,
            ),
            None => field_leaf(node_contents(*node), name@, source@) is None,
        },
{
    match field(node, name) {
        Some(child) => match read_text(&child, source) {
            Some(text) => {
                let kind = child.kind().to_owned();
                Some(Some(Leaf { kind, text }))
            },
            None => None,
        },
        None => Some(None),
    }
}

/// Reads a node of an argument list.
fn read_argument(node: Node<'_>, source: &str) -> (r: Option<Argument>)
    ensures
        match r {
            Some(a) => argument_of(node_contents(node), source@) == Some(a@),
            None => argument_of(node_contents(node), source@) is None,
        },
    decreases node_contents(node),
{
    let ghost raw = node_contents(node);
    proof {
        lemma_field_names();
    }
    let text = read_text(&node, source)?;
    let key = read_field(&node, "key", source)?;
    let value = read_leaf(&node, "value", source)?;
    let kind = node.kind().to_owned();
    let mut children: Vec<Argument> = Vec::new();
    let count: usize = node.child_count();
    let mut i: usize = 0;
    proof {
        assert(raw.children.take(0) =~= Seq::<RawNode>::empty());
        assert(argument_views(children@) =~= Seq::<ArgumentView>::empty());
    }
    while i < count
        invariant
            raw == node_contents(node),
            count == raw.children.len(),
            i <= count,
            arguments_of(raw.children.take(i as int), source@) == Some(argument_views(children@)),
        decreases count - i,
    {
        proof {
            assert(raw.children.take(i + 1).drop_last() =~= raw.children.take(i as int));
            assert(raw.children.take(i + 1).last() == raw.children[i as int]);
        }
        match node.child(i) {
            Some(child) => match read_argument(child, source) {
                Some(argument) => {
                    let ghost held = children@;
                    children.push(argument);
                    proof {
                        assert(argument_views(children@) =~= argument_views(
                            children@.drop_last(),
                        ).push(argument@));
                        assert(children@.drop_last() =~= held);
                    }
                },
                None => {
                    proof {
                        lemma_arguments_fail(raw.children, source@, i + 1);
                    }
                    return None;
                },
            },
            None => {},
        }
        i = i + 1;
    }
    let r = Argument { kind, text, key, value, children };
    proof {
        assert(raw.children.take(i as int) =~= raw.children);
        crate::syntax::lemma_argument_children(r);
    }
    Some(r)
}

/// Reads a node.
fn read_node(node: Node<'_>, source: &str) -> (r: Option<SyntaxNode>)
    ensures
        match r {
            Some(n) => node_of(node_contents(node), source@) == Some(n@),
            None => node_of(node_contents(node), source@) is None,
        },
    decreases node_contents(node),
{
    let ghost raw = node_contents(node);
    proof {
        lemma_field_names();
    }
    let text = read_text(&node, source)?;
    let method = read_field(&node, "method", source)?;
    let arguments = match field(&node, "arguments") {
        Some(child) => Some(read_argument(child, source)?),
        None => None,
    };
    let condition = read_field(&node, "condition", source)?;
    let kind = node.kind().to_owned();
    let mut children: Vec<SyntaxNode> = Vec::new();
    let count: usize = node.child_count();
    let mut i: usize = 0;
    proof {
        assert(raw.children.take(0) =~= Seq::<RawNode>::empty());
        assert(syntax_views(children@) =~= Seq::<SyntaxView>::empty());
    }
    while i < count
        invariant
            raw == node_contents(node),
            count == raw.children.len(),
            i <= count,
            nodes_of(raw.children.take(i as int), source@) == Some(syntax_views(children@)),
        decreases count - i,
    {
        proof {
            assert(raw.children.take(i + 1).drop_last() =~= raw.children.take(i as int));
            assert(raw.children.take(i + 1).last() == raw.children[i as int]);
        }
        match node.child(i) {
            Some(child) => match read_node(child, source) {
                Some(child_node) => {
                    let ghost held = children@;
                    children.push(child_node);
                    proof {
                        assert(syntax_views(children@) =~= syntax_views(
                            children@.drop_last(),
                        ).push(child_node@));
                        assert(children@.drop_last() =~= held);
                    }
                },
                None => {
                    proof {
                        lemma_nodes_fail(raw.children, source@, i + 1);
                    }
                    return None;
                },
            },
            None => {},
        }
        i = i + 1;
    }
    let r = SyntaxNode { kind, text, method, arguments, condition, children };
    proof {
        assert(raw.children.take(i as int) =~= raw.children);
        crate::syntax::lemma_syntax_children(r);
    }
    Some(r)
}

/// The names of the fields that are read can be looked up.
proof fn lemma_field_names()
    ensures
        is_field_name("key"),
        is_field_name("value"),
        is_field_name("method"),
        is_field_name("arguments"),
        is_field_name("condition"),
{
    reveal_strlit("key");
    reveal_strlit("value");
    reveal_strlit("method");
    reveal_strlit("arguments");
    reveal_strlit("condition");
    assert(is_ascii("key"));
    assert(is_ascii("value"));
    assert(is_ascii("method"));
    assert(is_ascii("arguments"));
    assert(is_ascii("condition"));
}

/// The syntax tree of a Ruby source, where positions in it fit in 32 bits and every node
/// of the tree spans text.
pub fn parse(source: &str) -> (r: Option<SyntaxNode>)
    ensures
        may_read(source@, option_syntax(r)),
        is_ascii_chars(source@) ==> option_syntax(r) == syntax_of(source@),
{
    if source.as_bytes().len() >= u32::MAX as usize {
        assert(syntax_on(source@, ascii_machine()) is None);
        return None;
    }
    proof {
        law_stand_in_fits(source@);
        law_stand_in_keeps_places(source@);
        law_places_are_bytes(source@, stand_in(source@));
    }
    let tree = match find_stand_in(source) {
        Some(text) => parse_tree(text.as_str()),
        None => parse_tree(source),
    };
    match tree {
        Some(tree) => {
            let r = read_node(tree.root_node(), source);
            proof {
                let machine = choose|machine: Machine|
                    tree_contents(tree) == #[trigger] ruby_tree_on(stand_in(source@), machine);
                assert(syntax_on(source@, machine) == option_syntax(r));
            }
            r
        },
        None => None,
    }
}

/// A node has a text if and only if the bytes that it spans lie in the source and are those
/// of a text, and then it has that text.
pub proof fn law_text_is_what_is_spanned(raw: RawNode, source: Seq<char>, text: Seq<char>)
    ensures
        text_of(raw, source) == Some(text) <==> raw.start <= raw.end <= encode_utf8(source).len()
            && encode_utf8(source).subrange(raw.start as int, raw.end as int) == encode_utf8(text),
{
    let bytes = encode_utf8(source);
    encode_utf8_valid_utf8(text);
    encode_utf8_decode_utf8(text);
    if raw.start <= raw.end <= bytes.len() {
        let part = bytes.subrange(raw.start as int, raw.end as int);
        if valid_utf8(part) {
            decode_utf8_encode_utf8(part);
        }
    }
}

/// A list of nodes is read if and only if each node is, and then each node in its place.
pub proof fn law_nodes_are_read_in_order(raws: Seq<RawNode>, source: Seq<char>)
    ensures
        nodes_of(raws, source) is Some <==> forall|i: int|
            0 <= i < raws.len() ==> node_of(#[trigger] raws[i], source) is Some,
        nodes_of(raws, source) is Some ==> nodes_of(raws, source)->0.len() == raws.len()
            && forall|i: int|
            0 <= i < raws.len() ==> node_of(#[trigger] raws[i], source) == Some(
                nodes_of(raws, source)->0[i],
            ),
    decreases raws.len(),
{
    if raws.len() > 0 {
        let less = raws.drop_last();
        let last = raws.len() - 1;
        law_nodes_are_read_in_order(less, source);
        if nodes_of(raws, source) is Some {
            assert forall|i: int| 0 <= i < raws.len() implies node_of(#[trigger] raws[i], source)
                == Some(nodes_of(raws, source)->0[i]) by {
                if i < last {
                    assert(node_of(less[i], source) == Some(nodes_of(less, source)->0[i]));
                }
            }
        } else if nodes_of(less, source) is None {
            let i = choose|i: int|
                0 <= i < less.len() && !(node_of(#[trigger] less[i], source) is Some);
            assert(!(node_of(raws[i], source) is Some));
        } else {
            assert(!(node_of(raws[last], source) is Some));
        }
    }
}

/// A list of arguments is read if and only if each argument is, and then each in its place.
pub proof fn law_arguments_are_read_in_order(raws: Seq<RawNode>, source: Seq<char>)
    ensures
        arguments_of(raws, source) is Some <==> forall|i: int|
            0 <= i < raws.len() ==> argument_of(#[trigger] raws[i], source) is Some,
        arguments_of(raws, source) is Some ==> arguments_of(raws, source)->0.len() == raws.len()
            && forall|i: int|
            0 <= i < raws.len() ==> argument_of(#[trigger] raws[i], source) == Some(
                arguments_of(raws, source)->0[i],
            ),
    decreases raws.len(),
{
    if raws.len() > 0 {
        let less = raws.drop_last();
        let last = raws.len() - 1;
        law_arguments_are_read_in_order(less, source);
        if arguments_of(raws, source) is Some {
            assert forall|i: int| 0 <= i < raws.len() implies argument_of(
                #[trigger] raws[i],
                source,
            ) == Some(arguments_of(raws, source)->0[i]) by {
                if i < last {
                    assert(argument_of(less[i], source) == Some(
                        arguments_of(less, source)->0[i],
                    ));
                }
            }
        } else if arguments_of(less, source) is None {
            let i = choose|i: int|
                0 <= i < less.len() && !(argument_of(#[trigger] less[i], source) is Some);
            assert(!(argument_of(raws[i], source) is Some));
        } else {
            assert(!(argument_of(raws[last], source) is Some));
        }
    }
}

/// A node that is read has its kind and its text, the texts of its method and its condition
/// and its arguments where it has such children, and its children.
pub proof fn law_node_is_read(raw: RawNode, source: Seq<char>)
    ensures
        node_of(raw, source) is Some <==> {
            &&& text_of(raw, source) is Some
            &&& raw.fields.contains_key("method"@) ==> text_of(
                raw.fields["method"@],
                source,
            ) is Some
            &&& raw.fields.contains_key("arguments"@) ==> argument_of(
                raw.fields["arguments"@],
                source,
            ) is Some
            &&& raw.fields.contains_key("condition"@) ==> text_of(
                raw.fields["condition"@],
                source,
            ) is Some
            &&& nodes_of(raw.children, source) is Some
        },
        node_of(raw, source) is Some ==> {
            let n = node_of(raw, source)->0;
            &&& n.kind == raw.kind
            &&& Some(n.text) == text_of(raw, source)
            &&& n.method == (if raw.fields.contains_key("method"@) {
                text_of(raw.fields["method"@], source)
            } else {
                None
            })
            &&& n.arguments == (if raw.fields.contains_key("arguments"@) {
                argument_of(raw.fields["arguments"@], source)
            } else {
                None
            })
            &&& n.condition == (if raw.fields.contains_key("condition"@) {
                text_of(raw.fields["condition"@], source)
            } else {
                None
            })
            &&& Some(n.children) == nodes_of(raw.children, source)
        },
{
}

/// An argument that is read has its kind and its text, the text of its key and the kind and
/// the text of its value where it has such children, and its children.
pub proof fn law_argument_is_read(raw: RawNode, source: Seq<char>)
    ensures
        argument_of(raw, source) is Some <==> {
            &&& text_of(raw, source) is Some
            &&& raw.fields.contains_key("key"@) ==> text_of(raw.fields["key"@], source) is Some
            &&& raw.fields.contains_key("value"@) ==> text_of(raw.fields["value"@], source) is Some
            &&& arguments_of(raw.children, source) is Some
        },
        argument_of(raw, source) is Some ==> {
            let a = argument_of(raw, source)->0;
            &&& a.kind == raw.kind
            &&& Some(a.text) == text_of(raw, source)
            &&& a.key == (if raw.fields.contains_key("key"@) {
                text_of(raw.fields["key"@], source)
            } else {
                None
            })
            &&& a.value is Some <==> raw.fields.contains_key("value"@)
            &&& a.value is Some ==> a.value->0.kind == raw.fields["value"@].kind && Some(
                a.value->0.text,
            ) == text_of(raw.fields["value"@], source)
            &&& Some(a.children) == arguments_of(raw.children, source)
        },
{
}

/// A source whose positions fit in 32 bits has the tree that is made of what stands in for
/// it, with the texts of the source itself, and one that is longer has none. What may be
/// read of a source is such a tree, and of a source in ASCII the one that every machine
/// makes.
pub proof fn law_source_is_read(
    source: Seq<char>,
    machine: Machine,
    syntax: Option<SyntaxView>,
)
    ensures
        encode_utf8(source).len() < 0xffff_ffff ==> syntax_on(source, machine) == node_of(
            ruby_tree_on(stand_in(source), machine),
            source,
        ),
        encode_utf8(source).len() >= 0xffff_ffff ==> syntax_on(source, machine) is None,
        heredocs_surely_fit(source) ==> stand_in(source) == source,
        is_ascii_chars(source) ==> (may_read(source, syntax) <==> syntax == syntax_on(
            source,
            ascii_machine(),
        )),
        !is_ascii_chars(source) && may_read(source, syntax) ==> exists|m: Machine| #[trigger]
            syntax_on(source, m) == syntax,
{
}

} // verus!
