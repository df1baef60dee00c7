//! Syntax trees as plain values: the parts of a Ruby source that the readers of
//! casks, formulas and Brewfiles look at.
use crate::text::{option_text, same_text};
use vstd::prelude::*;

verus! {

/// The kind and the text of a node.
pub struct Leaf {
    pub kind: String,
    pub text: String,
}

/// A node of an argument list, with the key and the value where it is a pair.
pub struct Argument {
    pub kind: String,
    pub text: String,
    pub key: Option<String>,
    pub value: Option<Leaf>,
    pub children: Vec<Argument>,
}

/// A node of a source: a call has a method and may have arguments, and a
/// conditional has a condition.
pub struct SyntaxNode {
    pub kind: String,
    pub text: String,
    pub method: Option<String>,
    pub arguments: Option<Argument>,
    pub condition: Option<String>,
    pub children: Vec<SyntaxNode>,
}

/// Model of a [`Leaf`].
pub struct LeafView {
    pub kind: Seq<char>,
    pub text: Seq<char>,
}

/// Model of an [`Argument`].
#[verifier::ext_equal]
pub struct ArgumentView {
    pub kind: Seq<char>,
    pub text: Seq<char>,
    pub key: Option<Seq<char>>,
    pub value: Option<LeafView>,
    pub children: Seq<ArgumentView>,
}

/// Model of a [`SyntaxNode`].
#[verifier::ext_equal]
pub struct SyntaxView {
    pub kind: Seq<char>,
    pub text: Seq<char>,
    pub method: Option<Seq<char>>,
    pub arguments: Option<ArgumentView>,
    pub condition: Option<Seq<char>>,
    pub children: Seq<SyntaxView>,
}

impl Leaf {
    pub open spec fn view(&self) -> LeafView {
        LeafView { kind: self.kind@, text: self.text@ }
    }
}

impl Argument {
    pub open spec fn view(&self) -> ArgumentView
        decreases self,
    {
        ArgumentView {
            kind: self.kind@,
            text: self.text@,
            key: option_text(self.key),
            value: match self.value {
                Some(v) => Some(v@),
                None => None,
            },
            children: Seq::new(
                self.children@.len(),
                |i: int|
                    if 0 <= i < self.children@.len() {
                        self.children@[i].view()
                    } else {
                        arbitrary()
                    },
            ),
        }
    }
}

impl SyntaxNode {
    pub open spec fn view(&self) -> SyntaxView
        decreases self,
    {
        SyntaxView {
            kind: self.kind@,
            text: self.text@,
            method: option_text(self.method),
            arguments: match self.arguments {
                Some(a) => Some(a@),
                None => None,
            },
            condition: option_text(self.condition),
            children: Seq::new(
                self.children@.len(),
                |i: int|
                    if 0 <= i < self.children@.len() {
                        self.children@[i].view()
                    } else {
                        arbitrary()
                    },
            ),
        }
    }
}

/// The node and everything below it, each node before its children.
pub open spec fn preorder(node: SyntaxView) -> Seq<SyntaxView>
    decreases node,
{
    seq![node] + preorder_all(node.children)
}

/// The preorders of several nodes, one after the other.
pub open spec fn preorder_all(nodes: Seq<SyntaxView>) -> Seq<SyntaxView>
    decreases nodes,
{
    if nodes.len() == 0 {
        Seq::empty()
    } else {
        preorder_all(nodes.drop_last()) + preorder(nodes.last())
    }
}

/// The first argument of the given kind.
pub open spec fn first_of_kind(nodes: Seq<ArgumentView>, kind: Seq<char>) -> Option<ArgumentView>
    decreases nodes.len(),
{
    if nodes.len() == 0 {
        None
    } else if nodes[0].kind == kind {
        Some(nodes[0])
    } else {
        first_of_kind(nodes.skip(1), kind)
    }
}

/// The first argument of the given kind.
pub fn find_kind<'a>(nodes: &'a Vec<Argument>, kind: &str) -> (r: Option<&'a Argument>)
    ensures
        match r {
            Some(a) => first_of_kind(argument_views(nodes@), kind@) == Some(a@),
            None => first_of_kind(argument_views(nodes@), kind@) is None,
        },
{
    let mut i: usize = 0;
    let ghost all = argument_views(nodes@);
    proof {
        assert(all.skip(0) =~= all);
    }
    while i < nodes.len()
        invariant
            i <= nodes.len(),
            all == argument_views(nodes@),
            first_of_kind(all, kind@) == first_of_kind(all.skip(i as int), kind@),
        decreases nodes.len() - i,
    {
        if same_text(nodes[i].kind.as_str(), kind) {
            return Some(&nodes[i]);
        }
        proof {
            assert(all.skip(i as int).skip(1) =~= all.skip(i + 1));
        }
        i = i + 1;
    }
    None
}

/// The models of a list of arguments.
pub open spec fn argument_views(nodes: Seq<Argument>) -> Seq<ArgumentView> {
    nodes.map_values(|a: Argument| a@)
}

/// The models of a list of nodes.
pub open spec fn syntax_views(nodes: Seq<SyntaxNode>) -> Seq<SyntaxView> {
    nodes.map_values(|n: SyntaxNode| n@)
}

/// The children of a model are the models of the children.
pub proof fn lemma_argument_children(a: Argument)
    ensures
        a@.children == argument_views(a.children@),
{
    assert(a@.children =~= argument_views(a.children@));
}

/// The children of a model are the models of the children.
pub proof fn lemma_syntax_children(n: SyntaxNode)
    ensures
        n@.children == syntax_views(n.children@),
{
    assert(n@.children =~= syntax_views(n.children@));
}

/// The node is a call of a command.
pub open spec fn is_command(node: SyntaxView) -> bool {
    ||| node.kind == "method_call"@
    ||| node.kind == "command_call"@
    ||| node.kind == "command"@
    ||| node.kind == "call"@
}

/// The node calls the command `name`.
pub open spec fn calls(node: SyntaxView, name: Seq<char>) -> bool {
    is_command(node) && node.method == Some(name)
}

/// The preorder of a list is that of a part of it, followed by that of the rest.
pub proof fn lemma_preorder_split(nodes: Seq<SyntaxView>, n: int)
    requires
        0 <= n <= nodes.len(),
    ensures
        preorder_all(nodes) == preorder_all(nodes.take(n)) + preorder_all(nodes.skip(n)),
    decreases nodes.len(),
{
    if n == nodes.len() {
        assert(nodes.take(n) =~= nodes);
        assert(preorder_all(nodes.skip(n)) =~= Seq::empty());
        assert(preorder_all(nodes) =~= preorder_all(nodes.take(n)) + preorder_all(nodes.skip(n)));
    } else {
        let front = nodes.drop_last();
        lemma_preorder_split(front, n);
        assert(front.take(n) =~= nodes.take(n));
        assert(front.skip(n) =~= nodes.skip(n).drop_last());
        assert(nodes.skip(n).last() == nodes.last());
        assert(preorder_all(nodes) =~= preorder_all(nodes.take(n)) + preorder_all(nodes.skip(n)));
    }
}

/// A node comes before all that stands below it.
pub proof fn law_node_comes_first(node: SyntaxView)
    ensures
        preorder(node).len() > 0,
        preorder(node)[0] == node,
        preorder(node).skip(1) == preorder_all(node.children),
{
    assert(preorder(node).skip(1) =~= preorder_all(node.children));
}

/// What stands in a list of nodes comes in the order of the list, and nothing of it is
/// left out.
pub proof fn law_nodes_come_in_order(a: Seq<SyntaxView>, node: SyntaxView, b: Seq<SyntaxView>)
    ensures
        preorder_all(a + seq![node] + b) == preorder_all(a) + preorder(node) + preorder_all(b),
        preorder_all(Seq::empty()) == Seq::<SyntaxView>::empty(),
{
    let front = a + seq![node];
    let all = front + b;
    lemma_preorder_split(all, front.len() as int);
    assert(all.take(front.len() as int) =~= front);
    assert(all.skip(front.len() as int) =~= b);
    assert(front.drop_last() =~= a);
    assert(front.last() == node);
}

/// The first argument of a kind is the one of that kind with none of it before.
pub proof fn law_first_of_kind(nodes: Seq<ArgumentView>, kind: Seq<char>, i: int)
    requires
        0 <= i < nodes.len(),
        nodes[i].kind == kind,
        forall|j: int| 0 <= j < i ==> (#[trigger] nodes[j]).kind != kind,
    ensures
        first_of_kind(nodes, kind) == Some(nodes[i]),
    decreases nodes.len(),
{
    if i > 0 {
        let rest = nodes.skip(1);
        assert(nodes[0].kind != kind);
        assert forall|j: int| 0 <= j < i - 1 implies (#[trigger] rest[j]).kind != kind by {
            assert(nodes[j + 1].kind != kind);
        }
        law_first_of_kind(rest, kind, i - 1);
    }
}

/// Where no argument is of a kind, there is no first one.
pub proof fn law_none_of_kind(nodes: Seq<ArgumentView>, kind: Seq<char>)
    requires
        forall|j: int| 0 <= j < nodes.len() ==> (#[trigger] nodes[j]).kind != kind,
    ensures
        first_of_kind(nodes, kind) is None,
    decreases nodes.len(),
{
    if nodes.len() > 0 {
        let rest = nodes.skip(1);
        assert(nodes[0].kind != kind);
        assert forall|j: int| 0 <= j < rest.len() implies (#[trigger] rest[j]).kind != kind by {
            assert(nodes[j + 1].kind != kind);
        }
        law_none_of_kind(rest, kind);
    }
}

/// The model of a node holds what the node holds.
pub proof fn law_node_view(n: SyntaxNode, a: Argument, l: Leaf)
    ensures
        n@.kind == n.kind@ && n@.text == n.text@,
        n@.method == option_text(n.method) && n@.condition == option_text(n.condition),
        n.arguments is Some ==> n@.arguments == Some(n.arguments->0@),
        n.arguments is None ==> n@.arguments is None,
        n@.children.len() == n.children@.len(),
        forall|i: int| 0 <= i < n.children@.len() ==> #[trigger] n@.children[i] == n.children@[i]@,
        a@.kind == a.kind@ && a@.text == a.text@,
        a@.key == option_text(a.key),
        a.value is Some ==> a@.value == Some(a.value->0@),
        a.value is None ==> a@.value is None,
        a@.children.len() == a.children@.len(),
        forall|i: int| 0 <= i < a.children@.len() ==> #[trigger] a@.children[i] == a.children@[i]@,
        l@.kind == l.kind@ && l@.text == l.text@,
{
}

/// Whether a node of this kind is a call of a command.
pub fn is_command_kind(kind: &str) -> (r: bool)
    ensures
        r == (kind@ == "method_call"@ || kind@ == "command_call"@ || kind@ == "command"@ || kind@
            == "call"@),
{
    same_text(kind, "method_call") || same_text(kind, "command_call") || same_text(kind, "command")
        || same_text(kind, "call")
}

} // verus!
