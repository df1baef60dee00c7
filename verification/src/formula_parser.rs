//! Formula files: what a formula says about its version, its dependencies and
//! its bottles on a given machine.
use crate::error::{Error, ErrorView};
use crate::formula::{
    file_views, Bottle, BottleFile, BottleFileView, BottleStable, Formula, FormulaView, Versions,
};
use crate::platform::CpuArch;
use crate::ruby;
use crate::syntax::{
    argument_views, lemma_argument_children, lemma_syntax_children, syntax_views, Argument,
    ArgumentView, SyntaxNode, SyntaxView,
};
use crate::text::{contains, contains_text, option_text, same_text, texts, trim, trimmed};
use crate::text_map::TextMap;
use vstd::prelude::*;
use vstd::string::*;
use vstd::utf8::*;

verus! {

/// The platform that a part of a formula is for.
#[derive(Debug, Clone, Copy, PartialEq, Eq, Structural)]
pub enum PlatformContext {
    Any,
    Linux,
    MacOS,
}

/// A node that is looked at, with the node that it stands in and the platform
/// that it is for.
pub struct Visit {
    pub node: SyntaxView,
    pub parent: Option<SyntaxView>,
    pub platform: PlatformContext,
}

/// The node is a conditional.
pub open spec fn is_conditional(node: SyntaxView) -> bool {
    node.kind == "if"@ || node.kind == "if_modifier"@
}

/// The node is a call of `name`.
pub open spec fn is_call_of(node: SyntaxView, name: Seq<char>) -> bool {
    (node.kind == "method_call"@ || node.kind == "call"@) && node.method == Some(name)
}

/// A conditional is for the processor: one that asks for Intel is for x86-64, one
/// that asks for ARM is for ARM, and any other is for both.
pub open spec fn applies(node: SyntaxView, arch: CpuArch) -> bool {
    match node.condition {
        None => true,
        Some(condition) => if contains_text(condition, "Hardware::CPU.intel?"@) {
            arch == CpuArch::X86_64
        } else if contains_text(condition, "Hardware::CPU.arm?"@) {
            arch == CpuArch::ARM64
        } else {
            true
        },
    }
}

/// The platform for which the children of a node are, and whether the node
/// itself is looked at. None where nothing of it is.
pub open spec fn entered(node: SyntaxView, platform: PlatformContext, arch: CpuArch) -> Option<
    (PlatformContext, bool),
> {
    if is_conditional(node) {
        if applies(node, arch) {
            Some((platform, false))
        } else {
            None
        }
    } else if is_call_of(node, "on_linux"@) {
        Some((PlatformContext::Linux, false))
    } else if is_call_of(node, "on_macos"@) {
        Some((PlatformContext::MacOS, false))
    } else {
        Some((platform, true))
    }
}

/// The nodes that are looked at in a node and below it, each before its children.
pub open spec fn visits(
    node: SyntaxView,
    parent: Option<SyntaxView>,
    platform: PlatformContext,
    arch: CpuArch,
) -> Seq<Visit>
    decreases node,
{
    match entered(node, platform, arch) {
        Some((inner, true)) => seq![Visit { node, parent, platform }] + visits_all(
            node.children,
            Some(node),
            inner,
            arch,
        ),
        Some((inner, false)) => visits_all(node.children, Some(node), inner, arch),
        None => Seq::empty(),
    }
}

/// The nodes that are looked at in several nodes, one after the other.
pub open spec fn visits_all(
    nodes: Seq<SyntaxView>,
    parent: Option<SyntaxView>,
    platform: PlatformContext,
    arch: CpuArch,
) -> Seq<Visit>
    decreases nodes,
{
    if nodes.len() == 0 {
        Seq::empty()
    } else {
        visits_all(nodes.drop_last(), parent, platform, arch) + visits(
            nodes.last(),
            parent,
            platform,
            arch,
        )
    }
}

/// The first string in a list of arguments, without its quotes.
pub open spec fn first_quoted(nodes: Seq<ArgumentView>) -> Option<Seq<char>>
    decreases nodes.len(),
{
    if nodes.len() == 0 {
        None
    } else if nodes[0].kind == "string"@ || nodes[0].kind == "simple_string"@ {
        Some(trimmed(trimmed(nodes[0].text, "\""@), "'"@))
    } else {
        first_quoted(nodes.skip(1))
    }
}

/// The first string among the arguments of a call, without its quotes.
pub open spec fn quoted(node: SyntaxView) -> Option<Seq<char>> {
    match node.arguments {
        Some(a) => first_quoted(a.children),
        None => None,
    }
}

/// The string of the first call of `sha256` in a list.
pub open spec fn sha256_in(nodes: Seq<SyntaxView>) -> Option<Seq<char>>
    decreases nodes.len(),
{
    if nodes.len() == 0 {
        None
    } else if is_call_of(nodes[0], "sha256"@) {
        quoted(nodes[0])
    } else {
        sha256_in(nodes.skip(1))
    }
}

/// The tag of the bottle that a platform takes.
pub open spec fn platform_tag(platform: PlatformContext) -> Seq<char> {
    match platform {
        PlatformContext::MacOS => "arm64_sonoma"@,
        _ => "x86_64_linux"@,
    }
}

/// What is known of a formula while its file is read.
#[verifier::ext_equal]
pub struct FormulaState {
    pub version: Option<Seq<char>>,
    pub dependencies: Seq<Seq<char>>,
    pub files: Map<Seq<char>, BottleFileView>,
}

/// The bottle that a call of `url` offers: with the hash that stands beside it.
pub open spec fn offered(v: Visit) -> Option<BottleFileView> {
    match (quoted(v.node), v.parent) {
        (Some(url), Some(parent)) => match sha256_in(parent.children) {
            Some(sha256) => Some(BottleFileView { url, sha256 }),
            None => None,
        },
        _ => None,
    }
}

/// What one node adds.
pub open spec fn noted(s: FormulaState, v: Visit) -> FormulaState {
    if is_call_of(v.node, "version"@) {
        match quoted(v.node) {
            Some(version) => FormulaState { version: Some(version), ..s },
            None => s,
        }
    } else if is_call_of(v.node, "depends_on"@) {
        match quoted(v.node) {
            Some(name) => FormulaState { dependencies: s.dependencies.push(name), ..s },
            None => s,
        }
    } else if is_call_of(v.node, "url"@) {
        match offered(v) {
            Some(file) => FormulaState {
                files: s.files.insert(platform_tag(v.platform), file),
                ..s
            },
            None => s,
        }
    } else {
        s
    }
}

/// What several nodes, one after the other, add.
pub open spec fn all_noted(s: FormulaState, vs: Seq<Visit>) -> FormulaState
    decreases vs.len(),
{
    if vs.len() == 0 {
        s
    } else {
        noted(all_noted(s, vs.drop_last()), vs.last())
    }
}

/// Nothing is known.
pub open spec fn nothing() -> FormulaState {
    FormulaState { version: None, dependencies: Seq::empty(), files: Map::empty() }
}

/// The formula that a syntax tree describes.
pub open spec fn formula_of(root: SyntaxView, name: Seq<char>, arch: CpuArch) -> Result<
    FormulaView,
    ErrorView,
> {
    let s = all_noted(nothing(), visits(root, None, PlatformContext::Any, arch));
    if s.version is None {
        Err(ErrorView::StoreCorruption { message: "Formula "@ + name + " missing version"@ })
    } else if s.files == Map::<Seq<char>, BottleFileView>::empty() {
        Err(ErrorView::StoreCorruption { message: "Formula "@ + name + " has no bottles"@ })
    } else {
        Ok(
            FormulaView {
                name,
                version: s.version->0,
                dependencies: s.dependencies,
                files: s.files,
                rebuild: 0,
                revision: 0,
            },
        )
    }
}

/// The formula that a file describes once its syntax was read, or why there is none.
pub open spec fn formula_read(syntax: Option<SyntaxView>, name: Seq<char>, arch: CpuArch) -> Result<
    FormulaView,
    ErrorView,
> {
    match syntax {
        Some(root) => formula_of(root, name, arch),
        None => Err(ErrorView::StoreCorruption { message: "Failed to parse formula"@ }),
    }
}

/// The model of a formula that may have been read.
pub open spec fn formula_result(r: Result<Formula, Error>) -> Result<FormulaView, ErrorView> {
    match r {
        Ok(f) => Ok(f@),
        Err(e) => Err(e@),
    }
}

/// What nodes add is what the first of them add, and then the others.
pub proof fn law_noted_in_order(s: FormulaState, a: Seq<Visit>, b: Seq<Visit>)
    ensures
        all_noted(s, a + b) == all_noted(all_noted(s, a), b),
        all_noted(s, Seq::empty()) == s,
    decreases b.len(),
{
    if b.len() == 0 {
        assert(a + b =~= a);
    } else {
        assert((a + b).drop_last() =~= a + b.drop_last());
        law_noted_in_order(s, a, b.drop_last());
    }
}

/// Nothing is taken from a conditional that asks for another processor.
pub proof fn law_other_processor_is_skipped(
    node: SyntaxView,
    parent: Option<SyntaxView>,
    platform: PlatformContext,
    arch: CpuArch,
)
    requires
        is_conditional(node),
        !applies(node, arch),
    ensures
        visits(node, parent, platform, arch) == Seq::<Visit>::empty(),
{
}

/// Of the versions that a file gives, the last one counts.
pub proof fn law_last_version_counts(s: FormulaState, vs: Seq<Visit>, i: int)
    requires
        0 <= i < vs.len(),
        is_call_of(vs[i].node, "version"@),
        quoted(vs[i].node) is Some,
        forall|j: int|
            i < j < vs.len() && #[trigger] is_call_of(vs[j].node, "version"@) ==> quoted(
                vs[j].node,
            ) is None,
    ensures
        all_noted(s, vs).version == quoted(vs[i].node),
    decreases vs.len(),
{
    if i < vs.len() - 1 {
        let front = vs.drop_last();
        assert forall|j: int|
            i < j < front.len() && #[trigger] is_call_of(front[j].node, "version"@) implies quoted(
            front[j].node,
        ) is None by {
            assert(is_call_of(vs[j].node, "version"@));
        }
        law_last_version_counts(s, front, i);
        assert(vs.last() == vs[vs.len() - 1]);
    }
}

/// Every bottle is for one of the two platforms that are known.
pub proof fn law_bottle_tags(vs: Seq<Visit>)
    ensures
        forall|tag: Seq<char>| #[trigger]
            all_noted(nothing(), vs).files.contains_key(tag) ==> tag == "x86_64_linux"@ || tag
                == "arm64_sonoma"@,
    decreases vs.len(),
{
    if vs.len() > 0 {
        law_bottle_tags(vs.drop_last());
    }
}

/// The string of a call is the first of its arguments that is a string, whatever
/// arguments follow, without its double and then its single quotes.
pub proof fn law_first_string_is_quoted(node: SyntaxView, i: int)
    requires
        node.arguments is Some,
        0 <= i < node.arguments->0.children.len(),
        node.arguments->0.children[i].kind == "string"@ || node.arguments->0.children[i].kind
            == "simple_string"@,
        forall|j: int|
            0 <= j < i ==> (#[trigger] node.arguments->0.children[j]).kind != "string"@
                && node.arguments->0.children[j].kind != "simple_string"@,
    ensures
        quoted(node) == Some(
            trimmed(trimmed(node.arguments->0.children[i].text, "\""@), "'"@),
        ),
{
    lemma_first_quoted(node.arguments->0.children, i);
}

/// A call without arguments, or without a string among them, has no string.
pub proof fn law_nothing_is_quoted(node: SyntaxView)
    requires
        node.arguments is None || forall|j: int|
            0 <= j < node.arguments->0.children.len() ==> (
            #[trigger] node.arguments->0.children[j]).kind != "string"@
                && node.arguments->0.children[j].kind != "simple_string"@,
    ensures
        quoted(node) is None,
{
    if node.arguments is Some {
        lemma_first_quoted(
            node.arguments->0.children,
            node.arguments->0.children.len() as int,
        );
    }
}

proof fn lemma_first_quoted(nodes: Seq<ArgumentView>, i: int)
    requires
        0 <= i <= nodes.len(),
        i < nodes.len() ==> nodes[i].kind == "string"@ || nodes[i].kind == "simple_string"@,
        forall|j: int|
            0 <= j < i ==> (#[trigger] nodes[j]).kind != "string"@ && nodes[j].kind
                != "simple_string"@,
    ensures
        i < nodes.len() ==> first_quoted(nodes) == Some(
            trimmed(trimmed(nodes[i].text, "\""@), "'"@),
        ),
        i == nodes.len() ==> first_quoted(nodes) is None,
    decreases nodes.len(),
{
    if i > 0 {
        let rest = nodes.skip(1);
        assert(nodes[0].kind != "string"@ && nodes[0].kind != "simple_string"@);
        assert forall|j: int| 0 <= j < i - 1 implies (#[trigger] rest[j]).kind != "string"@
            && rest[j].kind != "simple_string"@ by {
            assert(nodes[j + 1].kind != "string"@);
        }
        lemma_first_quoted(rest, i - 1);
    }
}

/// The dependencies are those that were known, and then, one for each call of
/// `depends_on` that has a string, that string: in the order of the calls, and whatever
/// platform they are for.
pub proof fn law_dependencies_are_those_called(s: FormulaState, vs: Seq<Visit>)
    ensures
        all_noted(s, vs).dependencies == s.dependencies + vs.filter_map(
            |v: Visit|
                if (v.node.kind == "method_call"@ || v.node.kind == "call"@) && v.node.method
                    == Some("depends_on"@) {
                    quoted(v.node)
                } else {
                    None
                },
        ),
    decreases vs.len(),
{
    let f = |v: Visit|
        if (v.node.kind == "method_call"@ || v.node.kind == "call"@) && v.node.method == Some(
            "depends_on"@,
        ) {
            quoted(v.node)
        } else {
            None
        };
    lemma_calls_differ();
    if vs.len() == 0 {
        assert(vs.filter_map(f) =~= Seq::empty());
        assert(s.dependencies + vs.filter_map(f) =~= s.dependencies);
    } else {
        let front = vs.drop_last();
        law_dependencies_are_those_called(s, front);
        let before = all_noted(s, front);
        match f(vs.last()) {
            Some(name) => {
                assert(all_noted(s, vs).dependencies =~= before.dependencies + seq![name]);
                assert(vs.filter_map(f) == front.filter_map(f) + seq![name]);
                assert(before.dependencies + seq![name] =~= s.dependencies + (front.filter_map(f)
                    + seq![name]));
            },
            None => {
                assert(all_noted(s, vs).dependencies == before.dependencies);
            },
        }
    }
}

/// What nodes add to the dependencies comes behind those that were known, in the order of
/// the nodes, and does not depend on them.
pub proof fn law_dependencies_in_order(s: FormulaState, a: Seq<Visit>, b: Seq<Visit>)
    ensures
        all_noted(s, a + b).dependencies == all_noted(s, a).dependencies + all_noted(
            nothing(),
            b,
        ).dependencies,
{
    law_noted_in_order(s, a, b);
    law_dependencies_are_those_called(all_noted(s, a), b);
    law_dependencies_are_those_called(nothing(), b);
    assert(all_noted(nothing(), b).dependencies =~= b.filter_map(
        |v: Visit|
            if (v.node.kind == "method_call"@ || v.node.kind == "call"@) && v.node.method == Some(
                "depends_on"@,
            ) {
                quoted(v.node)
            } else {
                None
            },
    ));
}

/// A call of `depends_on` with a string adds that string as the last dependency, whatever
/// platform it is for and whatever is known, and changes nothing else.
pub proof fn law_dependency_is_added(s: FormulaState, v: Visit, name: Seq<char>)
    requires
        v.node.kind == "method_call"@ || v.node.kind == "call"@,
        v.node.method == Some("depends_on"@),
        quoted(v.node) == Some(name),
    ensures
        all_noted(s, seq![v]).dependencies == s.dependencies.push(name),
        all_noted(s, seq![v]).version == s.version,
        all_noted(s, seq![v]).files == s.files,
{
    lemma_calls_differ();
    lemma_one_noted(s, v);
}

/// A call of `version` with a string sets the version, whatever platform it is for, and
/// changes nothing else.
pub proof fn law_version_is_set(s: FormulaState, v: Visit, version: Seq<char>)
    requires
        v.node.kind == "method_call"@ || v.node.kind == "call"@,
        v.node.method == Some("version"@),
        quoted(v.node) == Some(version),
    ensures
        all_noted(s, seq![v]).version == Some(version),
        all_noted(s, seq![v]).dependencies == s.dependencies,
        all_noted(s, seq![v]).files == s.files,
{
    lemma_calls_differ();
    lemma_one_noted(s, v);
}

/// A call of `url` with a string, beside the first call of `sha256` with one, offers a
/// bottle for the platform: in place of an earlier one for it, and changing nothing else.
pub proof fn law_bottle_is_offered(
    s: FormulaState,
    v: Visit,
    url: Seq<char>,
    k: int,
    sha256: Seq<char>,
)
    requires
        v.node.kind == "method_call"@ || v.node.kind == "call"@,
        v.node.method == Some("url"@),
        quoted(v.node) == Some(url),
        v.parent is Some,
        0 <= k < v.parent->0.children.len(),
        v.parent->0.children[k].kind == "method_call"@ || v.parent->0.children[k].kind == "call"@,
        v.parent->0.children[k].method == Some("sha256"@),
        quoted(v.parent->0.children[k]) == Some(sha256),
        forall|j: int|
            0 <= j < k ==> !(((#[trigger] v.parent->0.children[j]).kind == "method_call"@
                || v.parent->0.children[j].kind == "call"@) && v.parent->0.children[j].method
                == Some("sha256"@)),
    ensures
        ({
            let now = all_noted(s, seq![v]);
            let tag = match v.platform {
                PlatformContext::MacOS => "arm64_sonoma"@,
                PlatformContext::Linux => "x86_64_linux"@,
                PlatformContext::Any => "x86_64_linux"@,
            };
            &&& now.version == s.version
            &&& now.dependencies == s.dependencies
            &&& now.files.contains_key(tag)
            &&& now.files[tag] == (BottleFileView { url, sha256 })
            &&& forall|other: Seq<char>|
                other != tag ==> (#[trigger] now.files.contains_key(other)
                    <==> s.files.contains_key(other)) && (s.files.contains_key(other)
                    ==> now.files[other] == s.files[other])
        }),
{
    lemma_calls_differ();
    lemma_one_noted(s, v);
    lemma_sha256_in(v.parent->0.children, k);
}

/// A call of `url` offers nothing where it stands in no node, or beside no call of
/// `sha256`, or where the first such call has no string.
pub proof fn law_url_without_hash_offers_nothing(s: FormulaState, v: Visit, k: int)
    requires
        v.node.method == Some("url"@),
        v.parent is None || ({
            let beside = v.parent->0.children;
            &&& 0 <= k <= beside.len()
            &&& k < beside.len() ==> (beside[k].kind == "method_call"@ || beside[k].kind
                == "call"@) && beside[k].method == Some("sha256"@) && quoted(beside[k]) is None
            &&& forall|j: int|
                0 <= j < k ==> !(((#[trigger] beside[j]).kind == "method_call"@ || beside[j].kind
                    == "call"@) && beside[j].method == Some("sha256"@))
        }),
    ensures
        all_noted(s, seq![v]) == s,
{
    lemma_calls_differ();
    lemma_one_noted(s, v);
    if v.parent is Some {
        lemma_sha256_in(v.parent->0.children, k);
    }
}

/// A node that is no call, calls something else, or has no string adds nothing.
pub proof fn law_other_nodes_add_nothing(s: FormulaState, v: Visit)
    requires
        (v.node.kind != "method_call"@ && v.node.kind != "call"@) || quoted(v.node) is None || (
        v.node.method != Some("version"@) && v.node.method != Some("depends_on"@) && v.node.method
            != Some("url"@)),
    ensures
        all_noted(s, seq![v]) == s,
{
    lemma_one_noted(s, v);
}

proof fn lemma_one_noted(s: FormulaState, v: Visit)
    ensures
        all_noted(s, seq![v]) == noted(s, v),
{
    reveal_with_fuel(all_noted, 2);
    assert(seq![v].drop_last() =~= Seq::empty());
}

proof fn lemma_sha256_in(nodes: Seq<SyntaxView>, k: int)
    requires
        0 <= k <= nodes.len(),
        k < nodes.len() ==> is_call_of(nodes[k], "sha256"@),
        forall|j: int|
            0 <= j < k ==> !(((#[trigger] nodes[j]).kind == "method_call"@ || nodes[j].kind
                == "call"@) && nodes[j].method == Some("sha256"@)),
    ensures
        k < nodes.len() ==> sha256_in(nodes) == quoted(nodes[k]),
        k == nodes.len() ==> sha256_in(nodes) is None,
    decreases nodes.len(),
{
    if k > 0 {
        let rest = nodes.skip(1);
        assert(!is_call_of(nodes[0], "sha256"@));
        assert forall|j: int| 0 <= j < k - 1 implies !(((#[trigger] rest[j]).kind
            == "method_call"@ || rest[j].kind == "call"@) && rest[j].method == Some(
            "sha256"@,
        )) by {
            assert(nodes[j + 1] == rest[j]);
        }
        lemma_sha256_in(rest, k - 1);
    }
}

/// The calls that say something, and the nodes that are not looked at, have different
/// names and kinds.
proof fn lemma_calls_differ()
    ensures
        "version"@ != "depends_on"@,
        "version"@ != "url"@,
        "depends_on"@ != "url"@,
        "on_linux"@ != "on_macos"@,
        "call"@ != "if"@,
        "call"@ != "if_modifier"@,
        "method_call"@ != "if"@,
        "method_call"@ != "if_modifier"@,
        "x86_64_linux"@ != "arm64_sonoma"@,
{
    reveal_strlit("version");
    reveal_strlit("depends_on");
    reveal_strlit("url");
    reveal_strlit("on_linux");
    reveal_strlit("on_macos");
    reveal_strlit("call");
    reveal_strlit("method_call");
    reveal_strlit("if");
    reveal_strlit("if_modifier");
    reveal_strlit("x86_64_linux");
    reveal_strlit("arm64_sonoma");
    assert("version"@.len() == 7 && "depends_on"@.len() == 10 && "url"@.len() == 3);
    assert("on_linux"@[3] == 'l' && "on_macos"@[3] == 'm');
    assert("call"@[0] == 'c' && "method_call"@[0] == 'm');
    assert("if"@[0] == 'i' && "if_modifier"@[0] == 'i');
    assert("x86_64_linux"@[0] == 'x' && "arm64_sonoma"@[0] == 'a');
}

/// The nodes in a list are looked at in the order of the list, and none is left out.
pub proof fn law_visits_in_order(
    a: Seq<SyntaxView>,
    node: SyntaxView,
    b: Seq<SyntaxView>,
    parent: Option<SyntaxView>,
    platform: PlatformContext,
    arch: CpuArch,
)
    ensures
        visits_all(a + seq![node] + b, parent, platform, arch) == visits_all(
            a,
            parent,
            platform,
            arch,
        ) + visits(node, parent, platform, arch) + visits_all(b, parent, platform, arch),
        visits_all(Seq::empty(), parent, platform, arch) == Seq::<Visit>::empty(),
    decreases b.len(),
{
    let all = a + seq![node] + b;
    if b.len() == 0 {
        assert(all.drop_last() =~= a);
        assert(all.last() == node);
        assert(visits_all(a, parent, platform, arch) + visits(node, parent, platform, arch)
            + visits_all(b, parent, platform, arch) =~= visits_all(all, parent, platform, arch));
    } else {
        law_visits_in_order(a, node, b.drop_last(), parent, platform, arch);
        assert(all.drop_last() =~= a + seq![node] + b.drop_last());
        assert(all.last() == b.last());
        assert(visits_all(a, parent, platform, arch) + visits(node, parent, platform, arch)
            + visits_all(b, parent, platform, arch) =~= visits_all(all, parent, platform, arch));
    }
}

/// A node that is no conditional and names no platform is looked at, for the platform
/// that it stands in, and then everything in it.
pub proof fn law_ordinary_node_is_visited(
    node: SyntaxView,
    parent: Option<SyntaxView>,
    platform: PlatformContext,
    arch: CpuArch,
)
    requires
        node.kind != "if"@,
        node.kind != "if_modifier"@,
        (node.kind != "method_call"@ && node.kind != "call"@) || (node.method != Some("on_linux"@)
            && node.method != Some("on_macos"@)),
    ensures
        visits(node, parent, platform, arch) == seq![Visit { node, parent, platform }]
            + visits_all(node.children, Some(node), platform, arch),
{
}

/// What stands in a call that names a platform is for that platform, wherever the call
/// stands; of the call itself nothing is taken.
pub proof fn law_platform_is_entered(
    node: SyntaxView,
    parent: Option<SyntaxView>,
    platform: PlatformContext,
    arch: CpuArch,
)
    requires
        node.kind == "method_call"@ || node.kind == "call"@,
    ensures
        node.method == Some("on_linux"@) ==> visits(node, parent, platform, arch) == visits_all(
            node.children,
            Some(node),
            PlatformContext::Linux,
            arch,
        ),
        node.method == Some("on_macos"@) ==> visits(node, parent, platform, arch) == visits_all(
            node.children,
            Some(node),
            PlatformContext::MacOS,
            arch,
        ),
{
    lemma_calls_differ();
}

/// What stands in a conditional is for the platform that the conditional stands in. It is
/// left out where the condition asks for the processor that the machine does not have:
/// Intel comes before ARM where the condition asks for both.
pub proof fn law_conditional_is_entered(
    node: SyntaxView,
    parent: Option<SyntaxView>,
    platform: PlatformContext,
    arch: CpuArch,
)
    requires
        node.kind == "if"@ || node.kind == "if_modifier"@,
    ensures
        ({
            let inner = visits_all(node.children, Some(node), platform, arch);
            let nothing = Seq::<Visit>::empty();
            match node.condition {
                None => visits(node, parent, platform, arch) == inner,
                Some(condition) => if contains_text(condition, "Hardware::CPU.intel?"@) {
                    match arch {
                        CpuArch::X86_64 => visits(node, parent, platform, arch) == inner,
                        CpuArch::ARM64 => visits(node, parent, platform, arch) == nothing,
                    }
                } else if contains_text(condition, "Hardware::CPU.arm?"@) {
                    match arch {
                        CpuArch::X86_64 => visits(node, parent, platform, arch) == nothing,
                        CpuArch::ARM64 => visits(node, parent, platform, arch) == inner,
                    }
                } else {
                    visits(node, parent, platform, arch) == inner
                },
            }
        }),
{
}

/// The model of what was read is that of the formula or of the error.
pub proof fn law_formula_result(f: Formula, e: Error)
    ensures
        formula_result(Ok(f)) == Ok::<FormulaView, ErrorView>(f@),
        formula_result(Err(e)) == Err::<FormulaView, ErrorView>(e@),
{
}

/// A formula without a version, or with one and without a bottle, is refused by name. Any
/// other has what was noted of it, from no platform on, and nothing else.
pub proof fn law_formula_is_what_was_noted(root: SyntaxView, name: Seq<char>, arch: CpuArch)
    ensures
        ({
            let s = all_noted(nothing(), visits(root, None, PlatformContext::Any, arch));
            let r = formula_of(root, name, arch);
            &&& s.version is None ==> r == Err::<FormulaView, ErrorView>(
                ErrorView::StoreCorruption { message: "Formula "@ + name + " missing version"@ },
            )
            &&& s.version is Some && (forall|tag: Seq<char>| !#[trigger] s.files.contains_key(tag))
                ==> r == Err::<FormulaView, ErrorView>(
                ErrorView::StoreCorruption { message: "Formula "@ + name + " has no bottles"@ },
            )
            &&& s.version is Some && (exists|tag: Seq<char>| #[trigger] s.files.contains_key(tag))
                ==> r is Ok && r->Ok_0.name == name && Some(r->Ok_0.version) == s.version
                && r->Ok_0.dependencies == s.dependencies && r->Ok_0.files == s.files
                && r->Ok_0.rebuild == 0 && r->Ok_0.revision == 0
            &&& formula_read(Some(root), name, arch) == r
            &&& formula_read(None, name, arch) == Err::<FormulaView, ErrorView>(
                ErrorView::StoreCorruption { message: "Failed to parse formula"@ },
            )
            &&& nothing().version is None && nothing().dependencies.len() == 0
            &&& forall|tag: Seq<char>| !#[trigger] nothing().files.contains_key(tag)
        }),
{
    let s = all_noted(nothing(), visits(root, None, PlatformContext::Any, arch));
    if forall|tag: Seq<char>| !#[trigger] s.files.contains_key(tag) {
        assert(s.files =~= Map::<Seq<char>, BottleFileView>::empty());
    }
}

struct FormulaData {
    version: Option<String>,
    dependencies: Vec<String>,
    bottles: TextMap<BottleFile>,
}

impl FormulaData {
    spec fn view(&self) -> FormulaState {
        FormulaState {
            version: option_text(self.version),
            dependencies: texts(self.dependencies@),
            files: file_views(self.bottles@),
        }
    }
}

fn is_call(node: &SyntaxNode, name: &str) -> (r: bool)
    ensures
        r == is_call_of(node@, name@),
{
    if same_text(node.kind.as_str(), "method_call") || same_text(node.kind.as_str(), "call") {
        match &node.method {
            Some(method) => same_text(method.as_str(), name),
            None => false,
        }
    } else {
        false
    }
}

/// Whether a conditional is for the processor.
fn should_process_conditional(node: &SyntaxNode, current_arch: CpuArch) -> (r: bool)
    ensures
        r == applies(node@, current_arch),
{
    match &node.condition {
        None => true,
        Some(condition) => {
            if contains(condition.as_str(), "Hardware::CPU.intel?") {
                return current_arch == CpuArch::X86_64;
            }
            if contains(condition.as_str(), "Hardware::CPU.arm?") {
                return current_arch == CpuArch::ARM64;
            }
            true
        },
    }
}

/// The first string among the arguments of a call.
fn find_string_argument(node: &SyntaxNode) -> (r: Option<String>)
    ensures
        option_text(r) == quoted(node@),
{
    match &node.arguments {
        Some(args) => {
            let ghost all = args@.children;
            let mut i: usize = 0;
            proof {
                lemma_argument_children(*args);
                assert(all.skip(0) =~= all);
            }
            while i < args.children.len()
                invariant
                    i <= args.children.len(),
                    all == argument_views(args.children@),
                    quoted(node@) == first_quoted(all),
                    first_quoted(all) == first_quoted(all.skip(i as int)),
                decreases args.children.len() - i,
            {
                let child = &args.children[i];
                if same_text(child.kind.as_str(), "string") || same_text(
                    child.kind.as_str(),
                    "simple_string",
                ) {
                    let inner = trim(child.text.as_str(), "\"");
                    return Some(trim(inner.as_str(), "'"));
                }
                proof {
                    assert(all.skip(i as int).skip(1) =~= all.skip(i + 1));
                }
                i = i + 1;
            }
            None
        },
        None => None,
    }
}

/// The string of the first call of `sha256` in a node.
fn find_sibling_sha256(parent: &SyntaxNode) -> (r: Option<String>)
    ensures
        option_text(r) == sha256_in(parent@.children),
{
    let ghost all = parent@.children;
    let mut i: usize = 0;
    proof {
        lemma_syntax_children(*parent);
        assert(all.skip(0) =~= all);
    }
    while i < parent.children.len()
        invariant
            i <= parent.children.len(),
            all == parent@.children,
            all == syntax_views(parent.children@),
            sha256_in(all) == sha256_in(all.skip(i as int)),
        decreases parent.children.len() - i,
    {
        if is_call(&parent.children[i], "sha256") {
            return find_string_argument(&parent.children[i]);
        }
        proof {
            assert(all.skip(i as int).skip(1) =~= all.skip(i + 1));
        }
        i = i + 1;
    }
    None
}

/// The model of an optional node.
spec fn option_view(node: Option<&SyntaxNode>) -> Option<SyntaxView> {
    match node {
        Some(n) => Some(n@),
        None => None,
    }
}

/// Takes from one node what it says.
fn note_node(
    node: &SyntaxNode,
    parent: Option<&SyntaxNode>,
    data: &mut FormulaData,
    context: PlatformContext,
)
    ensures
        final(data)@ == noted(
            old(data)@,
            Visit { node: node@, parent: option_view(parent), platform: context },
        ),
{
    if is_call(node, "version") {
        if let Some(arg) = find_string_argument(node) {
            data.version = Some(arg);
        }
    } else if is_call(node, "depends_on") {
        if let Some(dep) = find_string_argument(node) {
            data.dependencies.push(dep);
            proof {
                assert(data@.dependencies =~= old(data)@.dependencies.push(dep@));
            }
        }
    } else if is_call(node, "url") {
        if let Some(url) = find_string_argument(node) {
            if let Some(parent_node) = parent {
                if let Some(sha256) = find_sibling_sha256(parent_node) {
                    let tag = match context {
                        PlatformContext::Linux => "x86_64_linux",
                        PlatformContext::MacOS => "arm64_sonoma",
                        PlatformContext::Any => "x86_64_linux",
                    };
                    let file = BottleFile { url, sha256 };
                    let ghost model = file@;
                    data.bottles.insert(tag.to_owned(), file);
                    proof {
                        assert(data@.files =~= old(data)@.files.insert(tag@, model));
                    }
                }
            }
        }
    }
}

/// Takes from a node and everything below it what it says.
fn visit_node(
    node: &SyntaxNode,
    parent: Option<&SyntaxNode>,
    data: &mut FormulaData,
    context: PlatformContext,
    arch: CpuArch,
)
    ensures
        final(data)@ == all_noted(
            old(data)@,
            visits(node@, option_view(parent), context, arch),
        ),
    decreases node,
{
    let ghost start = data@;
    let ghost first = Visit { node: node@, parent: option_view(parent), platform: context };
    let mut inner = context;
    let mut own: bool = false;
    if same_text(node.kind.as_str(), "if") || same_text(node.kind.as_str(), "if_modifier") {
        if !should_process_conditional(node, arch) {
            return;
        }
    } else if is_call(node, "on_linux") {
        inner = PlatformContext::Linux;
    } else if is_call(node, "on_macos") {
        inner = PlatformContext::MacOS;
    } else {
        own = true;
        note_node(node, parent, data, context);
    }
    let ghost head = if own {
        seq![first]
    } else {
        Seq::<Visit>::empty()
    };
    let ghost all = node@.children;
    let mut i: usize = 0;
    proof {
        lemma_syntax_children(*node);
        reveal_with_fuel(all_noted, 2);
        assert(seq![first].drop_last() =~= Seq::<Visit>::empty());
        assert(all_noted(start, head) == data@);
        assert(all.take(0) =~= Seq::<SyntaxView>::empty());
        assert(head + visits_all(all.take(0), Some(node@), inner, arch) =~= head);
    }
    while i < node.children.len()
        invariant
            i <= node.children.len(),
            start == old(data)@,
            all == node@.children,
            all == syntax_views(node.children@),
            data@ == all_noted(
                start,
                head + visits_all(all.take(i as int), Some(node@), inner, arch),
            ),
        decreases node.children.len() - i,
    {
        visit_node(&node.children[i], Some(node), data, inner, arch);
        proof {
            let done = head + visits_all(all.take(i as int), Some(node@), inner, arch);
            let child = node.children@[i as int]@;
            let more = visits(child, Some(node@), inner, arch);
            assert(all.take(i + 1).drop_last() =~= all.take(i as int));
            assert(all.take(i + 1).last() == child);
            assert(head + visits_all(all.take(i + 1), Some(node@), inner, arch) =~= done + more);
            law_noted_in_order(start, done, more);
        }
        i = i + 1;
    }
    proof {
        assert(all.take(i as int) =~= all);
        assert(head + visits_all(all, Some(node@), inner, arch) =~= visits(
            node@,
            option_view(parent),
            context,
            arch,
        ));
    }
}

/// The error for a formula that cannot be used.
fn unusable(name: &str, why: &str) -> (r: Error)
    ensures
        r@ == (ErrorView::StoreCorruption { message: "Formula "@ + name@ + why@ }),
{
    let message = "Formula ".to_owned().concat(name).concat(why);
    Error::StoreCorruption { message }
}

/// The reader of formula files.
pub struct FormulaParser;

impl FormulaParser {
    /// The formula that a syntax tree describes for a processor.
    pub fn from_syntax(root: &SyntaxNode, name: &str, arch: CpuArch) -> (r: Result<Formula, Error>)
        ensures
            match r {
                Ok(f) => formula_of(root@, name@, arch) == Ok::<FormulaView, ErrorView>(f@),
                Err(e) => formula_of(root@, name@, arch) == Err::<FormulaView, ErrorView>(e@),
            },
    {
        let mut data = FormulaData {
            version: None,
            dependencies: Vec::new(),
            bottles: TextMap::new(),
        };
        proof {
            assert(data@ =~= nothing());
        }
        visit_node(root, None, &mut data, PlatformContext::Any, arch);
        let version = match data.version {
            Some(version) => version,
            None => return Err(unusable(name, " missing version")),
        };
        if data.bottles.is_empty() {
            proof {
                assert(file_views(data.bottles@) =~= Map::<Seq<char>, BottleFileView>::empty());
            }
            return Err(unusable(name, " has no bottles"));
        }
        proof {
            if file_views(data.bottles@) == Map::<Seq<char>, BottleFileView>::empty() {
                assert(file_views(data.bottles@).dom() =~= data.bottles@.dom());
                assert(data.bottles@ =~= Map::<Seq<char>, BottleFile>::empty());
            }
        }
        Ok(
            Formula {
                name: name.to_owned(),
                versions: Versions { stable: version },
                dependencies: data.dependencies,
                bottle: Bottle { stable: BottleStable { files: data.bottles, rebuild: 0 } },
                revision: 0,
            },
        )
    }

    /// Reads the formula file `content` of the formula `name` for a processor.
    pub fn parse(content: &str, name: &str, arch: CpuArch) -> (r: Result<Formula, Error>)
        ensures
            exists|syntax: Option<SyntaxView>| #[trigger]
                ruby::may_read(content@, syntax) && formula_result(r) == formula_read(
                    syntax,
                    name@,
                    arch,
                ),
            is_ascii_chars(content@) ==> formula_result(r) == formula_read(
                ruby::syntax_of(content@),
                name@,
                arch,
            ),
    {
        let syntax = ruby::parse(content);
        assert(ruby::may_read(content@, ruby::option_syntax(syntax)));
        match syntax {
            Some(root) => Self::from_syntax(&root, name, arch),
            None => Err(Error::StoreCorruption { message: "Failed to parse formula".to_owned() }),
        }
    }
}

} // verus!
