//! Brewfiles: lists of taps, formulas, casks and flatpaks to install.
use crate::error::{Error, ErrorView};
use crate::ruby;
use crate::syntax::{
    calls, find_kind, first_of_kind, is_command, is_command_kind, law_first_of_kind,
    law_node_comes_first, law_none_of_kind, lemma_argument_children, lemma_preorder_split,
    lemma_syntax_children, preorder, preorder_all, syntax_views, Argument, ArgumentView,
    SyntaxNode, SyntaxView,
};
use crate::text::{option_text, same_text, texts, trim, trimmed};
use vstd::prelude::*;
use vstd::utf8::*;

verus! {

/// What a Brewfile lists.
#[derive(Debug, PartialEq, Eq)]
pub struct Bundle {
    pub taps: Vec<String>,
    pub brews: Vec<String>,
    pub casks: Vec<String>,
    pub flatpaks: Vec<String>,
}

/// Model of a [`Bundle`].
#[verifier::ext_equal]
pub struct BundleView {
    pub taps: Seq<Seq<char>>,
    pub brews: Seq<Seq<char>>,
    pub casks: Seq<Seq<char>>,
    pub flatpaks: Seq<Seq<char>>,
}

impl Bundle {
    pub open spec fn view(&self) -> BundleView {
        BundleView {
            taps: texts(self.taps@),
            brews: texts(self.brews@),
            casks: texts(self.casks@),
            flatpaks: texts(self.flatpaks@),
        }
    }
}

/// The first string among the arguments: its content, or what stands between
/// its quotes where it has no content of its own.
pub open spec fn first_string(a: ArgumentView) -> Option<Seq<char>> {
    match first_of_kind(a.children, "string"@) {
        Some(s) => match first_of_kind(s.children, "string_content"@) {
            Some(c) => Some(c.text),
            None => Some(trimmed(s.text, "'\""@)),
        },
        None => None,
    }
}

/// The string that the node lists under `command`.
pub open spec fn listed(node: SyntaxView, command: Seq<char>) -> Option<Seq<char>> {
    if calls(node, command) && node.arguments is Some {
        first_string(node.arguments->0)
    } else {
        None
    }
}

/// What the nodes list under `command`, in their order.
pub open spec fn entries(nodes: Seq<SyntaxView>, command: Seq<char>) -> Seq<Seq<char>>
    decreases nodes.len(),
{
    if nodes.len() == 0 {
        Seq::empty()
    } else {
        match listed(nodes.last(), command) {
            Some(s) => entries(nodes.drop_last(), command).push(s),
            None => entries(nodes.drop_last(), command),
        }
    }
}

/// What the nodes list.
pub open spec fn bundle_of_nodes(nodes: Seq<SyntaxView>) -> BundleView {
    BundleView {
        taps: entries(nodes, "tap"@),
        brews: entries(nodes, "brew"@),
        casks: entries(nodes, "cask"@),
        flatpaks: entries(nodes, "flatpak"@),
    }
}

/// What a syntax tree lists.
pub open spec fn bundle_of(root: SyntaxView) -> BundleView {
    bundle_of_nodes(preorder(root))
}

/// What a Brewfile lists once its syntax was read, or that it could not be read.
pub open spec fn bundle_read(syntax: Option<SyntaxView>) -> Result<BundleView, ErrorView> {
    match syntax {
        Some(root) => Ok(bundle_of(root)),
        None => Err(ErrorView::StoreCorruption { message: "Failed to parse Brewfile"@ }),
    }
}

/// The model of a list that may have been read.
pub open spec fn bundle_result(r: Result<Bundle, Error>) -> Result<BundleView, ErrorView> {
    match r {
        Ok(b) => Ok(b@),
        Err(e) => Err(e@),
    }
}

/// Two lists, one after the other.
pub open spec fn joined(a: BundleView, b: BundleView) -> BundleView {
    BundleView {
        taps: a.taps + b.taps,
        brews: a.brews + b.brews,
        casks: a.casks + b.casks,
        flatpaks: a.flatpaks + b.flatpaks,
    }
}

proof fn lemma_entries_concat(a: Seq<SyntaxView>, b: Seq<SyntaxView>, command: Seq<char>)
    ensures
        entries(a + b, command) == entries(a, command) + entries(b, command),
    decreases b.len(),
{
    if b.len() == 0 {
        assert(a + b =~= a);
        assert(entries(a + b, command) =~= entries(a, command) + entries(b, command));
    } else {
        assert((a + b).drop_last() =~= a + b.drop_last());
        lemma_entries_concat(a, b.drop_last(), command);
        assert(entries(a + b, command) =~= entries(a, command) + entries(b, command));
    }
}

/// What a list of nodes lists is what its parts list, in their order.
pub proof fn law_lists_in_order(a: Seq<SyntaxView>, b: Seq<SyntaxView>)
    ensures
        bundle_of_nodes(a + b) == joined(bundle_of_nodes(a), bundle_of_nodes(b)),
        bundle_of_nodes(a + b).taps == bundle_of_nodes(a).taps + bundle_of_nodes(b).taps,
        bundle_of_nodes(a + b).brews == bundle_of_nodes(a).brews + bundle_of_nodes(b).brews,
        bundle_of_nodes(a + b).casks == bundle_of_nodes(a).casks + bundle_of_nodes(b).casks,
        bundle_of_nodes(a + b).flatpaks == bundle_of_nodes(a).flatpaks + bundle_of_nodes(
            b,
        ).flatpaks,
{
    lemma_entries_concat(a, b, "tap"@);
    lemma_entries_concat(a, b, "brew"@);
    lemma_entries_concat(a, b, "cask"@);
    lemma_entries_concat(a, b, "flatpak"@);
}

/// A source whose statements are those of one source and then those of another lists
/// what the first lists, and then what the second lists.
pub proof fn law_sources_in_order(first: SyntaxView, second: SyntaxView, both: SyntaxView)
    requires
        both.children == first.children + second.children,
        !is_command(first),
        !is_command(second),
        !is_command(both),
    ensures
        bundle_of(both) == joined(bundle_of(first), bundle_of(second)),
{
    let a = preorder_all(first.children);
    let b = preorder_all(second.children);
    lemma_preorder_split(both.children, first.children.len() as int);
    assert(both.children.take(first.children.len() as int) =~= first.children);
    assert(both.children.skip(first.children.len() as int) =~= second.children);
    law_lists_in_order(seq![both], a + b);
    law_lists_in_order(seq![first], a);
    law_lists_in_order(seq![second], b);
    law_lists_in_order(a, b);
    lemma_one(both);
    lemma_one(first);
    lemma_one(second);
    assert(bundle_of(both) =~= joined(bundle_of(first), bundle_of(second)));
}

/// A call of any other command lists nothing.
pub proof fn law_unknown_commands_are_ignored(a: Seq<SyntaxView>, node: SyntaxView, b: Seq<
    SyntaxView,
>)
    requires
        !calls(node, "tap"@),
        !calls(node, "brew"@),
        !calls(node, "cask"@),
        !calls(node, "flatpak"@),
    ensures
        bundle_of_nodes(a + seq![node] + b) == bundle_of_nodes(a + b),
{
    law_lists_in_order(a + seq![node], b);
    law_lists_in_order(a, seq![node]);
    law_lists_in_order(a, b);
    lemma_one(node);
    let none = bundle_of_nodes(seq![node]);
    assert(none =~= bundle_of_nodes(Seq::empty()));
    assert(joined(bundle_of_nodes(a), none) =~= bundle_of_nodes(a));
}

/// What one node lists.
proof fn lemma_one(node: SyntaxView)
    ensures
        forall|command: Seq<char>| #[trigger]
            entries(seq![node], command) == (match listed(node, command) {
                Some(s) => seq![s],
                None => Seq::empty(),
            }),
{
    assert forall|command: Seq<char>| #[trigger]
        entries(seq![node], command) == (match listed(node, command) {
            Some(s) => seq![s],
            None => Seq::empty(),
        }) by {
        assert(seq![node].drop_last() =~= Seq::empty());
        reveal_with_fuel(entries, 2);
        assert(entries(seq![node], command) =~= (match listed(node, command) {
            Some(s) => seq![s],
            None => Seq::empty(),
        }));
    }
}

/// A call of one of the four commands lists the first string among its arguments under
/// that command, whatever arguments follow. The string is taken by the first of its
/// parts that is content, and without its quotes where no part is.
pub proof fn law_first_string_is_listed(
    node: SyntaxView,
    i: int,
    part: Option<int>,
    entry: Seq<char>,
)
    requires
        node.kind == "method_call"@ || node.kind == "command_call"@ || node.kind == "command"@
            || node.kind == "call"@,
        node.arguments is Some,
        0 <= i < node.arguments->0.children.len(),
        node.arguments->0.children[i].kind == "string"@,
        forall|j: int|
            0 <= j < i ==> (#[trigger] node.arguments->0.children[j]).kind != "string"@,
        match part {
            Some(k) => {
                let parts = node.arguments->0.children[i].children;
                &&& 0 <= k < parts.len()
                &&& parts[k].kind == "string_content"@
                &&& forall|j: int| 0 <= j < k ==> (#[trigger] parts[j]).kind != "string_content"@
                &&& entry == parts[k].text
            },
            None => {
                let s = node.arguments->0.children[i];
                &&& forall|j: int|
                    0 <= j < s.children.len() ==> (#[trigger] s.children[j]).kind
                        != "string_content"@
                &&& entry == trimmed(s.text, "'\""@)
            },
        },
    ensures
        ({
            let listed = bundle_of_nodes(seq![node]);
            let none = Seq::<Seq<char>>::empty();
            &&& listed.taps == if node.method == Some("tap"@) {
                seq![entry]
            } else {
                none
            }
            &&& listed.brews == if node.method == Some("brew"@) {
                seq![entry]
            } else {
                none
            }
            &&& listed.casks == if node.method == Some("cask"@) {
                seq![entry]
            } else {
                none
            }
            &&& listed.flatpaks == if node.method == Some("flatpak"@) {
                seq![entry]
            } else {
                none
            }
        }),
{
    let a = node.arguments->0;
    let s = a.children[i];
    law_first_of_kind(a.children, "string"@, i);
    match part {
        Some(k) => law_first_of_kind(s.children, "string_content"@, k),
        None => law_none_of_kind(s.children, "string_content"@),
    }
    lemma_one(node);
}

/// What is no call, has no arguments or no string among them lists nothing.
pub proof fn law_nothing_else_is_listed(node: SyntaxView)
    requires
        (node.kind != "method_call"@ && node.kind != "command_call"@ && node.kind != "command"@
            && node.kind != "call"@) || node.arguments is None || forall|j: int|
            0 <= j < node.arguments->0.children.len() ==> (
            #[trigger] node.arguments->0.children[j]).kind != "string"@,
    ensures
        bundle_of_nodes(seq![node]).taps.len() == 0,
        bundle_of_nodes(seq![node]).brews.len() == 0,
        bundle_of_nodes(seq![node]).casks.len() == 0,
        bundle_of_nodes(seq![node]).flatpaks.len() == 0,
{
    lemma_one(node);
    if node.arguments is Some && forall|j: int|
        0 <= j < node.arguments->0.children.len() ==> (
        #[trigger] node.arguments->0.children[j]).kind != "string"@ {
        law_none_of_kind(node.arguments->0.children, "string"@);
    }
}

/// A tree lists what its root lists, and then what stands below the root, in order; and
/// nothing lists nothing.
pub proof fn law_tree_lists_its_nodes(root: SyntaxView)
    ensures
        bundle_of(root) == joined(
            bundle_of_nodes(seq![root]),
            bundle_of_nodes(preorder_all(root.children)),
        ),
        bundle_of_nodes(Seq::empty()).taps.len() == 0,
        bundle_of_nodes(Seq::empty()).brews.len() == 0,
        bundle_of_nodes(Seq::empty()).casks.len() == 0,
        bundle_of_nodes(Seq::empty()).flatpaks.len() == 0,
{
    law_node_comes_first(root);
    assert(preorder(root) =~= seq![root] + preorder_all(root.children));
    law_lists_in_order(seq![root], preorder_all(root.children));
}

/// A source that could be read is never refused, and one that could not always is.
pub proof fn law_read_source_is_listed(root: SyntaxView)
    ensures
        bundle_read(Some(root)) == Ok::<BundleView, ErrorView>(bundle_of(root)),
        bundle_read(None) == Err::<BundleView, ErrorView>(
            ErrorView::StoreCorruption { message: "Failed to parse Brewfile"@ },
        ),
{
}

/// The model of a list holds all its entries.
pub proof fn law_bundle_view(b: Bundle, e: Error)
    ensures
        bundle_result(Ok(b)) == Ok::<BundleView, ErrorView>(b@),
        bundle_result(Err(e)) == Err::<BundleView, ErrorView>(e@),
        b@.taps == texts(b.taps@),
        b@.brews == texts(b.brews@),
        b@.casks == texts(b.casks@),
        b@.flatpaks == texts(b.flatpaks@),
{
}

/// The four commands have different names.
proof fn lemma_commands_differ()
    ensures
        "tap"@ != "brew"@,
        "tap"@ != "cask"@,
        "tap"@ != "flatpak"@,
        "brew"@ != "cask"@,
        "brew"@ != "flatpak"@,
        "cask"@ != "flatpak"@,
{
    reveal_strlit("tap");
    reveal_strlit("brew");
    reveal_strlit("cask");
    reveal_strlit("flatpak");
    assert("tap"@.len() == 3 && "brew"@.len() == 4 && "cask"@.len() == 4 && "flatpak"@.len() == 7);
    assert("brew"@[0] == 'b' && "cask"@[0] == 'c');
}

/// The first string among the arguments.
fn extract_first_string_arg(args: &Argument) -> (r: Option<String>)
    ensures
        option_text(r) == first_string(args@),
{
    proof {
        lemma_argument_children(*args);
    }
    match find_kind(&args.children, "string") {
        Some(child) => {
            proof {
                lemma_argument_children(*child);
            }
            match find_kind(&child.children, "string_content") {
                Some(inner) => Some(inner.text.clone()),
                None => Some(trim(child.text.as_str(), "'\"")),
            }
        },
        None => None,
    }
}

proof fn lemma_push_text(v: Seq<String>, s: String)
    ensures
        texts(v.push(s)) == texts(v) + seq![s@],
{
    assert(texts(v.push(s)) =~= texts(v) + seq![s@]);
}

/// Adds what one node lists.
fn add_node(node: &SyntaxNode, bundle: &mut Bundle)
    ensures
        final(bundle)@ == joined(old(bundle)@, bundle_of_nodes(seq![node@])),
{
    proof {
        lemma_one(node@);
        lemma_commands_differ();
    }
    let ghost start = bundle@;
    let mut found: Option<(String, String)> = None;
    if is_command_kind(node.kind.as_str()) {
        if let (Some(method), Some(args)) = (&node.method, &node.arguments) {
            if let Some(arg) = extract_first_string_arg(args) {
                found = Some((method.clone(), arg));
            }
        }
    }
    if let Some((method, arg)) = found {
        if same_text(method.as_str(), "tap") {
            proof {
                lemma_push_text(bundle.taps@, arg);
            }
            bundle.taps.push(arg);
        } else if same_text(method.as_str(), "brew") {
            proof {
                lemma_push_text(bundle.brews@, arg);
            }
            bundle.brews.push(arg);
        } else if same_text(method.as_str(), "cask") {
            proof {
                lemma_push_text(bundle.casks@, arg);
            }
            bundle.casks.push(arg);
        } else if same_text(method.as_str(), "flatpak") {
            proof {
                lemma_push_text(bundle.flatpaks@, arg);
            }
            bundle.flatpaks.push(arg);
        }
    }
    proof {
        assert(bundle@ =~= joined(start, bundle_of_nodes(seq![node@])));
    }
}

/// Adds what a node and everything below it lists.
fn visit_node(node: &SyntaxNode, bundle: &mut Bundle)
    ensures
        final(bundle)@ == joined(old(bundle)@, bundle_of(node@)),
    decreases node,
{
    let ghost start = bundle@;
    let ghost all = node@.children;
    add_node(node, bundle);
    let mut i: usize = 0;
    proof {
        lemma_syntax_children(*node);
        assert(all.take(0) =~= Seq::empty());
        assert(seq![node@] + preorder_all(all.take(0)) =~= seq![node@]);
    }
    while i < node.children.len()
        invariant
            i <= node.children.len(),
            start == old(bundle)@,
            all == node@.children,
            all == syntax_views(node.children@),
            bundle@ == joined(
                start,
                bundle_of_nodes(seq![node@] + preorder_all(all.take(i as int))),
            ),
        decreases node.children.len() - i,
    {
        visit_node(&node.children[i], bundle);
        proof {
            let done = seq![node@] + preorder_all(all.take(i as int));
            let child = node.children@[i as int]@;
            assert(all.take(i + 1).drop_last() =~= all.take(i as int));
            assert(all.take(i + 1).last() == child);
            assert(seq![node@] + preorder_all(all.take(i + 1)) =~= done + preorder(child));
            law_lists_in_order(done, preorder(child));
            assert(joined(joined(start, bundle_of_nodes(done)), bundle_of(child)) =~= joined(
                start,
                joined(bundle_of_nodes(done), bundle_of(child)),
            ));
        }
        i = i + 1;
    }
    proof {
        assert(all.take(i as int) =~= all);
    }
}

/// The reader of Brewfiles.
pub struct BundleParser;

impl BundleParser {
    /// What a syntax tree lists.
    pub fn from_syntax(root: &SyntaxNode) -> (r: Bundle)
        ensures
            r@ == bundle_of(root@),
    {
        let mut bundle = Bundle {
            taps: Vec::new(),
            brews: Vec::new(),
            casks: Vec::new(),
            flatpaks: Vec::new(),
        };
        let ghost start = bundle@;
        visit_node(root, &mut bundle);
        proof {
            assert(joined(start, bundle_of(root@)) =~= bundle_of(root@));
        }
        bundle
    }

    /// Reads a Brewfile.
    pub fn parse(content: &str) -> (r: Result<Bundle, Error>)
        ensures
            exists|syntax: Option<SyntaxView>| #[trigger]
                ruby::may_read(content@, syntax) && bundle_result(r) == bundle_read(syntax),
            is_ascii_chars(content@) ==> bundle_result(r) == bundle_read(
                ruby::syntax_of(content@),
            ),
    {
        let syntax = ruby::parse(content);
        assert(ruby::may_read(content@, ruby::option_syntax(syntax)));
        match syntax {
            Some(root) => Ok(Self::from_syntax(&root)),
            None => Err(Error::StoreCorruption { message: "Failed to parse Brewfile".to_owned() }),
        }
    }
}

} // verus!
