//! Casks: what a cask file says about an application and where it comes from.
use crate::ruby;
use crate::syntax::{
    argument_views, calls, find_kind, first_of_kind, is_command, is_command_kind,
    law_first_of_kind, law_none_of_kind, lemma_argument_children, lemma_preorder_split,
    lemma_syntax_children, preorder, preorder_all, syntax_views, Argument, ArgumentView,
    SyntaxNode, SyntaxView,
};
use crate::text::{
    after, before, contains, contains_text, option_text, replace, replaced, same_text, split_once,
    trim, trimmed,
};
use crate::text_map::TextMap;
use vstd::prelude::*;
use vstd::string::*;
use vstd::utf8::*;

verus! {

/// An application that is installed from an archive.
#[derive(Debug, Clone, PartialEq, Eq)]
pub struct Cask {
    pub name: String,
    pub version: String,
    pub sha256: String,
    pub url: String,
    pub homepage: Option<String>,
    pub binary: Option<String>,
    pub artifacts: Vec<Artifact>,
}

/// Something that a cask puts in place.
#[derive(Debug, Clone, PartialEq, Eq)]
pub enum Artifact {
    Binary(String),
    App(String),
    Desktop(String),
    Icon(String),
    Unknown,
}

/// Why a cask file could not be read.
#[derive(Debug)]
pub enum CaskError {
    ParseError(String),
    MissingField(String),
}

/// Model of a [`Cask`].
pub struct CaskView {
    pub name: Seq<char>,
    pub version: Seq<char>,
    pub sha256: Seq<char>,
    pub url: Seq<char>,
    pub homepage: Option<Seq<char>>,
    pub binary: Option<Seq<char>>,
    pub artifacts: Seq<ArtifactView>,
}

/// Model of an [`Artifact`].
pub enum ArtifactView {
    Binary(Seq<char>),
    App(Seq<char>),
    Desktop(Seq<char>),
    Icon(Seq<char>),
    Unknown,
}

/// Model of a [`CaskError`].
pub enum CaskErrorView {
    ParseError(Seq<char>),
    MissingField(Seq<char>),
}

impl Artifact {
    pub open spec fn view(&self) -> ArtifactView {
        match self {
            Artifact::Binary(s) => ArtifactView::Binary(s@),
            Artifact::App(s) => ArtifactView::App(s@),
            Artifact::Desktop(s) => ArtifactView::Desktop(s@),
            Artifact::Icon(s) => ArtifactView::Icon(s@),
            Artifact::Unknown => ArtifactView::Unknown,
        }
    }
}

impl Cask {
    pub open spec fn view(&self) -> CaskView {
        CaskView {
            name: self.name@,
            version: self.version@,
            sha256: self.sha256@,
            url: self.url@,
            homepage: option_text(self.homepage),
            binary: option_text(self.binary),
            artifacts: self.artifacts@.map_values(|a: Artifact| a@),
        }
    }
}

/// A cask error in words.
pub open spec fn cask_error_words(e: CaskErrorView) -> Seq<char> {
    match e {
        CaskErrorView::ParseError(s) => "Failed to parse cask: "@ + s,
        CaskErrorView::MissingField(s) => "Missing required field: "@ + s,
    }
}

impl CaskError {
    pub open spec fn view(&self) -> CaskErrorView {
        match self {
            CaskError::ParseError(s) => CaskErrorView::ParseError(s@),
            CaskError::MissingField(s) => CaskErrorView::MissingField(s@),
        }
    }

    /// The error in words.
    pub fn message(&self) -> (r: String)
        ensures
            r@ == cask_error_words(self@),
    {
        match self {
            CaskError::ParseError(s) => "Failed to parse cask: ".to_owned().concat(s.as_str()),
            CaskError::MissingField(s) => "Missing required field: ".to_owned().concat(s.as_str()),
        }
    }
}

/// What is known of a cask while its file is read.
pub struct CaskContext {
    pub version: Option<String>,
    pub arch: String,
    pub variables: TextMap<String>,
    pub artifacts: Vec<(String, String)>,
}

/// Model of a [`CaskContext`].
#[verifier::ext_equal]
pub struct CaskState {
    pub version: Option<Seq<char>>,
    pub arch: Seq<char>,
    pub variables: Map<Seq<char>, Seq<char>>,
    pub artifacts: Seq<(Seq<char>, Seq<char>)>,
}

impl CaskContext {
    pub open spec fn view(&self) -> CaskState {
        CaskState {
            version: option_text(self.version),
            arch: self.arch@,
            variables: self.variables@.map_values(|s: String| s@),
            artifacts: self.artifacts@.map_values(|p: (String, String)| (p.0@, p.1@)),
        }
    }
}

/// The short name of the architecture that a platform tag stands for.
pub open spec fn simple_arch(arch: Seq<char>) -> Seq<char> {
    if contains_text(arch, "arm64"@) {
        "arm64"@
    } else {
        "x64"@
    }
}

/// `s` with the version, and the first two of its parts between commas, filled in.
pub open spec fn version_filled(s: Seq<char>, version: Option<Seq<char>>) -> Seq<char> {
    match version {
        Some(v) => {
            let whole = replaced(s, "#{version}"@, v);
            if v.contains(',') {
                replaced(
                    replaced(whole, "#{version.csv.first}"@, before(v, ',')),
                    "#{version.csv.second}"@,
                    before(after(v, ','), ','),
                )
            } else {
                whole
            }
        },
        None => s,
    }
}

/// `s` with its placeholders filled in: the version, the architecture, and the
/// directory of the installation, which is the current one.
pub open spec fn interpolated(s: Seq<char>, version: Option<Seq<char>>, arch: Seq<char>) -> Seq<
    char,
> {
    replaced(
        replaced(version_filled(s, version), "#{arch}"@, simple_arch(arch)),
        "#{staged_path}"@,
        "."@,
    )
}

/// The first string among the arguments, filled in.
pub open spec fn string_value(a: ArgumentView, version: Option<Seq<char>>, arch: Seq<char>) -> Option<
    Seq<char>,
> {
    match first_of_kind(a.children, "string"@) {
        Some(s) => Some(interpolated(trimmed(s.text, "\""@), version, arch)),
        None => None,
    }
}

/// The string of a pair whose key is the platform tag, filled in.
pub open spec fn pair_value(p: ArgumentView, version: Option<Seq<char>>, arch: Seq<char>) -> Option<
    Seq<char>,
> {
    match (p.key, p.value) {
        (Some(key), Some(value)) => if trimmed(key, ":"@) == arch && value.kind == "string"@ {
            Some(interpolated(trimmed(value.text, "\""@), version, arch))
        } else {
            None
        },
        _ => None,
    }
}

/// The first value for the platform tag among the pairs in a list, with those in
/// the hashes in it.
pub open spec fn arch_value(
    nodes: Seq<ArgumentView>,
    version: Option<Seq<char>>,
    arch: Seq<char>,
) -> Option<Seq<char>>
    decreases nodes,
{
    if nodes.len() == 0 {
        None
    } else {
        match arch_value(nodes.drop_last(), version, arch) {
            Some(v) => Some(v),
            None => {
                let last = nodes.last();
                if last.kind == "pair"@ {
                    pair_value(last, version, arch)
                } else if last.kind == "hash"@ || last.kind == "bare_hash"@ {
                    arch_value(last.children, version, arch)
                } else {
                    None
                }
            },
        }
    }
}

/// The error for a version without a string.
pub open spec fn no_string() -> CaskErrorView {
    CaskErrorView::ParseError("Could not find string argument"@)
}

/// The command sets a variable.
pub open spec fn sets_variable(method: Seq<char>) -> bool {
    ||| method == "sha256"@
    ||| method == "url"@
    ||| method == "name"@
    ||| method == "homepage"@
    ||| method == "desc"@
}

/// The command adds an artifact.
pub open spec fn adds_artifact(method: Seq<char>) -> bool {
    ||| method == "binary"@
    ||| method == "artifact"@
    ||| method == "app"@
}

/// What one node does to the state: in the version pass only the version is
/// set, in the other pass everything else.
pub open spec fn step(node: SyntaxView, s: CaskState, version_pass: bool) -> Result<
    CaskState,
    CaskErrorView,
> {
    match (node.method, node.arguments) {
        (Some(method), Some(a)) => if !is_command(node) {
            Ok(s)
        } else if method == "version"@ {
            if version_pass {
                match string_value(a, s.version, s.arch) {
                    Some(v) => Ok(CaskState { version: Some(v), ..s }),
                    None => Err(no_string()),
                }
            } else {
                Ok(s)
            }
        } else if version_pass {
            Ok(s)
        } else if sets_variable(method) {
            match (arch_value(a.children, s.version, s.arch), string_value(a, s.version, s.arch)) {
                (Some(v), _) => Ok(CaskState { variables: s.variables.insert(method, v), ..s }),
                (None, Some(v)) => if s.variables.contains_key(method) {
                    Ok(s)
                } else {
                    Ok(CaskState { variables: s.variables.insert(method, v), ..s })
                },
                (None, None) => Ok(s),
            }
        } else if adds_artifact(method) {
            match string_value(a, s.version, s.arch) {
                Some(v) => Ok(CaskState { artifacts: s.artifacts.push((method, v)), ..s }),
                None => Ok(s),
            }
        } else {
            Ok(s)
        },
        _ => Ok(s),
    }
}

/// What several nodes, one after the other, do to the state.
pub open spec fn run(nodes: Seq<SyntaxView>, s: CaskState, version_pass: bool) -> Result<
    CaskState,
    CaskErrorView,
>
    decreases nodes.len(),
{
    if nodes.len() == 0 {
        Ok(s)
    } else {
        match run(nodes.drop_last(), s, version_pass) {
            Ok(t) => step(nodes.last(), t, version_pass),
            Err(e) => Err(e),
        }
    }
}

/// What a pass leaves as it is, whether it succeeds or fails: the platform, and in the
/// version pass everything but the version. The other pass keeps the version, and takes
/// back no variable and no artifact.
pub open spec fn pass_keeps(before: CaskState, now: CaskState, version_pass: bool) -> bool {
    &&& now.arch == before.arch
    &&& if version_pass {
        now.variables == before.variables && now.artifacts == before.artifacts
    } else {
        &&& now.version == before.version
        &&& before.artifacts.is_prefix_of(now.artifacts)
        &&& forall|name: Seq<char>| #[trigger]
            before.variables.contains_key(name) ==> now.variables.contains_key(name)
    }
}

/// Only the version pass can fail, and each pass keeps what it should.
pub proof fn law_passes_keep(nodes: Seq<SyntaxView>, s: CaskState, version_pass: bool)
    ensures
        !version_pass ==> run(nodes, s, version_pass) is Ok,
        run(nodes, s, version_pass) is Ok ==> pass_keeps(
            s,
            run(nodes, s, version_pass)->Ok_0,
            version_pass,
        ),
    decreases nodes.len(),
{
    if nodes.len() > 0 {
        law_passes_keep(nodes.drop_last(), s, version_pass);
    }
}

proof fn lemma_run_concat(
    a: Seq<SyntaxView>,
    b: Seq<SyntaxView>,
    s: CaskState,
    version_pass: bool,
)
    ensures
        run(a + b, s, version_pass) == match run(a, s, version_pass) {
            Ok(t) => run(b, t, version_pass),
            Err(e) => Err(e),
        },
    decreases b.len(),
{
    if b.len() == 0 {
        assert(a + b =~= a);
    } else {
        assert((a + b).drop_last() =~= a + b.drop_last());
        lemma_run_concat(a, b.drop_last(), s, version_pass);
    }
}

/// Fills in the placeholders of `s`.
pub fn interpolate(s: &str, ctx: &CaskContext) -> (r: String)
    ensures
        r@ == interpolated(s@, ctx@.version, ctx@.arch),
{
    proof {
        reveal_strlit("#{version}");
        reveal_strlit("#{version.csv.first}");
        reveal_strlit("#{version.csv.second}");
        reveal_strlit("#{arch}");
        reveal_strlit("#{staged_path}");
    }
    let mut res = s.to_owned();
    if let Some(ver) = &ctx.version {
        res = replace(res.as_str(), "#{version}", ver.as_str());
        if let Some((first, rest)) = split_once(ver.as_str(), ',') {
            res = replace(res.as_str(), "#{version.csv.first}", first.as_str());
            let second = match split_once(rest.as_str(), ',') {
                Some((part, _)) => part,
                None => {
                    proof {
                        lemma_before_all(rest@, ',');
                    }
                    rest
                },
            };
            res = replace(res.as_str(), "#{version.csv.second}", second.as_str());
        }
    }
    let arch = if contains(ctx.arch.as_str(), "arm64") {
        "arm64"
    } else {
        "x64"
    };
    res = replace(res.as_str(), "#{arch}", arch);
    replace(res.as_str(), "#{staged_path}", ".")
}

proof fn lemma_before_all(s: Seq<char>, c: char)
    requires
        !s.contains(c),
    ensures
        before(s, c) == s,
{
    crate::text::lemma_first_position(s, c);
    assert(before(s, c) =~= s);
}

/// The first string among the arguments.
fn extract_string_arg(args: &Argument, ctx: &CaskContext) -> (r: Result<String, CaskError>)
    ensures
        match r {
            Ok(v) => string_value(args@, ctx@.version, ctx@.arch) == Some(v@),
            Err(e) => string_value(args@, ctx@.version, ctx@.arch) is None && e@ == no_string(),
        },
{
    proof {
        lemma_argument_children(*args);
    }
    match find_kind(&args.children, "string") {
        Some(child) => {
            let info = trim(child.text.as_str(), "\"");
            Ok(interpolate(info.as_str(), ctx))
        },
        None => Err(CaskError::ParseError("Could not find string argument".to_owned())),
    }
}

/// The value for the platform in a list of arguments.
fn extract_arch_specific_arg(nodes: &Vec<Argument>, ctx: &CaskContext) -> (r: Option<String>)
    ensures
        option_text(r) == arch_value(argument_views(nodes@), ctx@.version, ctx@.arch),
    decreases nodes@,
{
    let ghost all = argument_views(nodes@);
    let mut i: usize = 0;
    while i < nodes.len()
        invariant
            i <= nodes.len(),
            all == argument_views(nodes@),
            arch_value(all.take(i as int), ctx@.version, ctx@.arch) is None,
        decreases nodes.len() - i,
    {
        let child = &nodes[i];
        let mut found: Option<String> = None;
        if same_text(child.kind.as_str(), "pair") {
            found = extract_pair_value(child, ctx);
        } else if same_text(child.kind.as_str(), "hash") || same_text(
            child.kind.as_str(),
            "bare_hash",
        ) {
            found = extract_arch_specific_arg(&child.children, ctx);
        }
        proof {
            lemma_argument_children(*child);
            assert(all.take(i + 1).drop_last() =~= all.take(i as int));
            assert(all.take(i + 1).last() == child@);
            assert(arch_value(all.take(i + 1), ctx@.version, ctx@.arch) == option_text(found));
        }
        if found.is_some() {
            proof {
                lemma_arch_value_found(all, i + 1, ctx@.version, ctx@.arch);
            }
            return found;
        }
        i = i + 1;
    }
    proof {
        assert(all.take(i as int) =~= all);
    }
    None
}

/// A value that is found early in a list is that of the list.
proof fn lemma_arch_value_found(
    nodes: Seq<ArgumentView>,
    n: int,
    version: Option<Seq<char>>,
    arch: Seq<char>,
)
    requires
        0 <= n <= nodes.len(),
        arch_value(nodes.take(n), version, arch) is Some,
    ensures
        arch_value(nodes, version, arch) == arch_value(nodes.take(n), version, arch),
    decreases nodes.len(),
{
    if n == nodes.len() {
        assert(nodes.take(n) =~= nodes);
    } else {
        assert(nodes.drop_last().take(n) =~= nodes.take(n));
        lemma_arch_value_found(nodes.drop_last(), n, version, arch);
    }
}

/// The string of a pair whose key is the platform.
fn extract_pair_value(pair: &Argument, ctx: &CaskContext) -> (r: Option<String>)
    ensures
        option_text(r) == pair_value(pair@, ctx@.version, ctx@.arch),
{
    match (&pair.key, &pair.value) {
        (Some(key), Some(value)) => {
            let key_text = trim(key.as_str(), ":");
            if same_text(key_text.as_str(), ctx.arch.as_str()) && same_text(
                value.kind.as_str(),
                "string",
            ) {
                let s = trim(value.text.as_str(), "\"");
                Some(interpolate(s.as_str(), ctx))
            } else {
                None
            }
        },
        _ => None,
    }
}

fn names_variable(method: &str) -> (r: bool)
    ensures
        r == sets_variable(method@),
{
    same_text(method, "sha256") || same_text(method, "url") || same_text(method, "name")
        || same_text(method, "homepage") || same_text(method, "desc")
}

fn names_artifact(method: &str) -> (r: bool)
    ensures
        r == adds_artifact(method@),
{
    same_text(method, "binary") || same_text(method, "artifact") || same_text(method, "app")
}

/// Takes from one node what it says.
fn apply_node(node: &SyntaxNode, ctx: &mut CaskContext, version_pass: bool) -> (r: Result<
    (),
    CaskError,
>)
    ensures
        match r {
            Ok(()) => step(node@, old(ctx)@, version_pass) == Ok::<CaskState, CaskErrorView>(
                final(ctx)@,
            ),
            Err(e) => step(node@, old(ctx)@, version_pass) == Err::<CaskState, CaskErrorView>(e@),
        },
        pass_keeps(old(ctx)@, final(ctx)@, version_pass),
        !version_pass ==> r is Ok,
{
    if !is_command_kind(node.kind.as_str()) {
        return Ok(());
    }
    if let (Some(method), Some(args)) = (&node.method, &node.arguments) {
        if same_text(method.as_str(), "version") {
            if version_pass {
                let val = extract_string_arg(args, ctx)?;
                ctx.version = Some(val);
            }
        } else if version_pass {
        } else if names_variable(method.as_str()) {
            proof {
                lemma_argument_children(*args);
            }
            if let Some(val) = extract_arch_specific_arg(&args.children, ctx) {
                ctx.variables.insert(method.clone(), val);
                proof {
                    assert(ctx@.variables =~= old(ctx)@.variables.insert(method@, val@));
                }
            } else if let Ok(val) = extract_string_arg(args, ctx) {
                if !ctx.variables.contains_key(method.as_str()) {
                    ctx.variables.insert(method.clone(), val);
                    proof {
                        assert(ctx@.variables =~= old(ctx)@.variables.insert(method@, val@));
                    }
                }
            }
        } else if names_artifact(method.as_str()) {
            if let Ok(val) = extract_string_arg(args, ctx) {
                ctx.artifacts.push((method.clone(), val));
                proof {
                    assert(ctx@.artifacts =~= old(ctx)@.artifacts.push((method@, val@)));
                }
            }
        }
    }
    Ok(())
}

/// Takes from a node and everything below it what it says.
fn visit_node(node: &SyntaxNode, ctx: &mut CaskContext, version_pass: bool) -> (r: Result<
    (),
    CaskError,
>)
    ensures
        match r {
            Ok(()) => run(preorder(node@), old(ctx)@, version_pass) == Ok::<
                CaskState,
                CaskErrorView,
            >(final(ctx)@),
            Err(e) => run(preorder(node@), old(ctx)@, version_pass) == Err::<
                CaskState,
                CaskErrorView,
            >(e@),
        },
        pass_keeps(old(ctx)@, final(ctx)@, version_pass),
        !version_pass ==> r is Ok,
    decreases node,
{
    let ghost start = ctx@;
    let ghost all = node@.children;
    proof {
        lemma_syntax_children(*node);
        assert(all.take(0) =~= Seq::empty());
        assert(seq![node@] + preorder_all(all.take(0)) =~= seq![node@]);
        assert(seq![node@].drop_last() =~= Seq::empty());
        reveal_with_fuel(run, 2);
        assert(run(seq![node@], start, version_pass) == step(node@, start, version_pass));
        lemma_run_concat(seq![node@], preorder_all(all), start, version_pass);
    }
    apply_node(node, ctx, version_pass)?;
    let mut i: usize = 0;
    while i < node.children.len()
        invariant
            i <= node.children.len(),
            start == old(ctx)@,
            all == node@.children,
            all == syntax_views(node.children@),
            pass_keeps(start, ctx@, version_pass),
            run(seq![node@] + preorder_all(all.take(i as int)), start, version_pass) == Ok::<
                CaskState,
                CaskErrorView,
            >(ctx@),
        decreases node.children.len() - i,
    {
        let ghost done = seq![node@] + preorder_all(all.take(i as int));
        let ghost now = seq![node@] + preorder_all(all.take(i + 1));
        proof {
            assert(all.take(i + 1).drop_last() =~= all.take(i as int));
            assert(all.take(i + 1).last() == node.children@[i as int]@);
            assert(now =~= done + preorder(node.children@[i as int]@));
            lemma_run_concat(done, preorder(node.children@[i as int]@), start, version_pass);
        }
        match visit_node(&node.children[i], ctx, version_pass) {
            Ok(()) => {},
            Err(e) => {
                proof {
                    lemma_preorder_split(all, i + 1);
                    assert(preorder(node@) =~= now + preorder_all(all.skip(i + 1)));
                    lemma_run_concat(now, preorder_all(all.skip(i + 1)), start, version_pass);
                }
                return Err(e);
            },
        }
        i = i + 1;
    }
    proof {
        assert(all.take(i as int) =~= all);
    }
    Ok(())
}

/// The version that the nodes set: the last one, where a version may use the
/// one that was set before it.
pub open spec fn version_of(nodes: Seq<SyntaxView>, arch: Seq<char>) -> Result<
    Option<Seq<char>>,
    CaskErrorView,
>
    decreases nodes.len(),
{
    if nodes.len() == 0 {
        Ok(None)
    } else {
        match version_of(nodes.drop_last(), arch) {
            Ok(version) => if calls(nodes.last(), "version"@) && nodes.last().arguments is Some {
                match string_value(nodes.last().arguments->0, version, arch) {
                    Some(v) => Ok(Some(v)),
                    None => Err(no_string()),
                }
            } else {
                Ok(version)
            },
            Err(e) => Err(e),
        }
    }
}

/// What the nodes say for the variable `name`: a value for the platform replaces
/// what was said before, and a plain string counts where nothing was said before.
pub open spec fn variable_of(
    nodes: Seq<SyntaxView>,
    name: Seq<char>,
    version: Option<Seq<char>>,
    arch: Seq<char>,
) -> Option<Seq<char>>
    decreases nodes.len(),
{
    if nodes.len() == 0 {
        None
    } else {
        let said = variable_of(nodes.drop_last(), name, version, arch);
        if calls(nodes.last(), name) && nodes.last().arguments is Some {
            let a = nodes.last().arguments->0;
            if arch_value(a.children, version, arch) is Some {
                arch_value(a.children, version, arch)
            } else if said is Some {
                said
            } else {
                string_value(a, version, arch)
            }
        } else {
            said
        }
    }
}

/// The artifact that a command adds.
pub open spec fn artifact_for(method: Seq<char>, value: Seq<char>) -> ArtifactView {
    if method == "binary"@ {
        ArtifactView::Binary(value)
    } else if method == "app"@ {
        ArtifactView::App(value)
    } else {
        ArtifactView::Unknown
    }
}

/// The artifacts that the nodes add, in their order.
pub open spec fn artifacts_of(
    nodes: Seq<SyntaxView>,
    version: Option<Seq<char>>,
    arch: Seq<char>,
) -> Seq<ArtifactView>
    decreases nodes.len(),
{
    if nodes.len() == 0 {
        Seq::empty()
    } else {
        let added = artifacts_of(nodes.drop_last(), version, arch);
        let last = nodes.last();
        if is_command(last) && last.arguments is Some && last.method is Some && adds_artifact(
            last.method->0,
        ) && string_value(last.arguments->0, version, arch) is Some {
            added.push(
                artifact_for(last.method->0, string_value(last.arguments->0, version, arch)->0),
            )
        } else {
            added
        }
    }
}

/// The cask that a syntax tree describes on a platform: the version is found
/// first, and then filled in everywhere.
pub open spec fn cask_of(root: SyntaxView, arch: Seq<char>) -> Result<CaskView, CaskErrorView> {
    let nodes = preorder(root);
    match version_of(nodes, arch) {
        Err(e) => Err(e),
        Ok(version) => {
            let name = variable_of(nodes, "name"@, version, arch);
            let sha256 = variable_of(nodes, "sha256"@, version, arch);
            let url = variable_of(nodes, "url"@, version, arch);
            if name is None {
                Err(CaskErrorView::MissingField("name"@))
            } else if version is None {
                Err(CaskErrorView::MissingField("version"@))
            } else if sha256 is None {
                Err(CaskErrorView::MissingField("sha256"@))
            } else if url is None {
                Err(CaskErrorView::MissingField("url"@))
            } else {
                Ok(
                    CaskView {
                        name: name->0,
                        version: version->0,
                        sha256: sha256->0,
                        url: url->0,
                        homepage: variable_of(nodes, "homepage"@, version, arch),
                        binary: None,
                        artifacts: artifacts_of(nodes, version, arch),
                    },
                )
            }
        },
    }
}

/// What a cask file says on the platform `arch` once its syntax was read, or why it
/// says nothing.
pub open spec fn cask_read(syntax: Option<SyntaxView>, arch: Seq<char>) -> Result<
    CaskView,
    CaskErrorView,
> {
    match syntax {
        Some(root) => cask_of(root, arch),
        None => Err(CaskErrorView::ParseError("Failed to parse Ruby content"@)),
    }
}

/// What may come of a cask file: one thing, where it is in ASCII.
pub open spec fn may_be_cask(
    content: Seq<char>,
    arch: Seq<char>,
    result: Result<CaskView, CaskErrorView>,
) -> bool {
    exists|syntax: Option<SyntaxView>| #[trigger]
        ruby::may_read(content, syntax) && cask_read(syntax, arch) == result
}

/// The model of a cask that may have been read.
pub open spec fn cask_result(r: Result<Cask, CaskError>) -> Result<CaskView, CaskErrorView> {
    match r {
        Ok(c) => Ok(c@),
        Err(e) => Err(e@),
    }
}

/// The state in which the first pass starts.
spec fn blank(arch: Seq<char>) -> CaskState {
    CaskState { version: None, arch, variables: Map::empty(), artifacts: Seq::empty() }
}

/// The first pass sets the version and nothing else.
proof fn lemma_version_pass(nodes: Seq<SyntaxView>, arch: Seq<char>)
    ensures
        run(nodes, blank(arch), true) == match version_of(nodes, arch) {
            Ok(version) => Ok(CaskState { version, ..blank(arch) }),
            Err(e) => Err(e),
        },
    decreases nodes.len(),
{
    if nodes.len() > 0 {
        lemma_version_pass(nodes.drop_last(), arch);
    }
}

/// No name stands for two commands.
proof fn lemma_names_differ()
    ensures
        forall|m: Seq<char>| sets_variable(m) ==> m != "version"@ && !adds_artifact(m),
        forall|m: Seq<char>| adds_artifact(m) ==> m != "version"@,
        !sets_variable("binary"@),
{
    reveal_strlit("version");
    reveal_strlit("sha256");
    reveal_strlit("url");
    reveal_strlit("name");
    reveal_strlit("homepage");
    reveal_strlit("desc");
    reveal_strlit("binary");
    reveal_strlit("artifact");
    reveal_strlit("app");
    assert("version"@.len() == 7 && "sha256"@.len() == 6 && "url"@.len() == 3);
    assert("name"@.len() == 4 && "homepage"@.len() == 8 && "desc"@.len() == 4);
    assert("binary"@.len() == 6 && "artifact"@.len() == 8 && "app"@.len() == 3);
    assert("binary"@[0] == 'b' && "sha256"@[0] == 's');
    assert("artifact"@[0] == 'a' && "homepage"@[0] == 'h');
    assert("app"@[0] == 'a' && "url"@[0] == 'u');
}

/// The second pass collects the variables and the artifacts.
proof fn lemma_second_pass(nodes: Seq<SyntaxView>, version: Option<Seq<char>>, arch: Seq<char>)
    ensures
        ({
            let s = CaskState { version, ..blank(arch) };
            &&& run(nodes, s, false) is Ok
            &&& run(nodes, s, false)->Ok_0.version == version
            &&& run(nodes, s, false)->Ok_0.arch == arch
            &&& forall|name: Seq<char>| #[trigger]
                sets_variable(name) ==> {
                    let said = variable_of(nodes, name, version, arch);
                    let variables = run(nodes, s, false)->Ok_0.variables;
                    (said is Some <==> variables.contains_key(name)) && (said is Some
                        ==> variables[name] == said->0)
                }
            &&& forall|name: Seq<char>| #[trigger]
                run(nodes, s, false)->Ok_0.variables.contains_key(name) ==> sets_variable(name)
            &&& run(nodes, s, false)->Ok_0.artifacts.map_values(
                |p: (Seq<char>, Seq<char>)| artifact_for(p.0, p.1),
            ) == artifacts_of(nodes, version, arch)
        }),
    decreases nodes.len(),
{
    let s = CaskState { version, ..blank(arch) };
    let f = |p: (Seq<char>, Seq<char>)| artifact_for(p.0, p.1);
    if nodes.len() == 0 {
        assert(s.artifacts.map_values(f) =~= artifacts_of(nodes, version, arch));
    } else {
        let front = nodes.drop_last();
        lemma_second_pass(front, version, arch);
        lemma_names_differ();
        let t = run(front, s, false)->Ok_0;
        let u = run(nodes, s, false)->Ok_0;
        let last = nodes.last();
        assert(run(nodes, s, false) == step(last, t, false));
        if u.artifacts != t.artifacts {
            let v = string_value(last.arguments->0, version, arch)->0;
            assert(u.artifacts == t.artifacts.push((last.method->0, v)));
            assert(u.artifacts.map_values(f) =~= t.artifacts.map_values(f).push(
                artifact_for(last.method->0, v),
            ));
        } else if is_command(last) && last.arguments is Some && last.method is Some
            && adds_artifact(last.method->0) && string_value(
            last.arguments->0,
            version,
            arch,
        ) is Some {
            assert(u.artifacts.len() == t.artifacts.len() + 1);
        }
    }
}

fn copy_variable(ctx: &CaskContext, name: &str) -> (r: Option<String>)
    ensures
        option_text(r) == (if ctx@.variables.contains_key(name@) {
            Some(ctx@.variables[name@])
        } else {
            None
        }),
{
    match ctx.variables.get(name) {
        Some(v) => Some(v.clone()),
        None => None,
    }
}

/// The error for a field that is not there.
fn missing(field: &str) -> (r: CaskError)
    ensures
        r@ == CaskErrorView::MissingField(field@),
{
    CaskError::MissingField(field.to_owned())
}

fn to_artifact(method: &str, value: &str) -> (r: Artifact)
    ensures
        r@ == artifact_for(method@, value@),
{
    if same_text(method, "binary") {
        Artifact::Binary(value.to_owned())
    } else if same_text(method, "app") {
        Artifact::App(value.to_owned())
    } else {
        Artifact::Unknown
    }
}

impl Cask {
    /// Reads the cask that a syntax tree describes on the platform `system_arch`.
    pub fn from_syntax(root: &SyntaxNode, system_arch: &str) -> (r: Result<Self, CaskError>)
        ensures
            match r {
                Ok(c) => cask_of(root@, system_arch@) == Ok::<CaskView, CaskErrorView>(c@),
                Err(e) => cask_of(root@, system_arch@) == Err::<CaskView, CaskErrorView>(e@),
            },
    {
        let mut context = CaskContext {
            version: None,
            arch: system_arch.to_owned(),
            variables: TextMap::new(),
            artifacts: Vec::new(),
        };
        let ghost nodes = preorder(root@);
        proof {
            assert(context@ =~= blank(system_arch@));
            lemma_version_pass(nodes, system_arch@);
            lemma_names_differ();
        }
        visit_node(root, &mut context, true)?;
        let ghost version = context@.version;
        proof {
            lemma_second_pass(nodes, version, system_arch@);
        }
        visit_node(root, &mut context, false)?;
        proof {
            assert(sets_variable("name"@) && sets_variable("sha256"@) && sets_variable("url"@)
                && sets_variable("homepage"@));
        }
        let name = match copy_variable(&context, "name") {
            Some(v) => v,
            None => return Err(missing("name")),
        };
        let found_version = match &context.version {
            Some(v) => v.clone(),
            None => return Err(missing("version")),
        };
        let sha256 = match copy_variable(&context, "sha256") {
            Some(v) => v,
            None => return Err(missing("sha256")),
        };
        let url = match copy_variable(&context, "url") {
            Some(v) => v,
            None => return Err(missing("url")),
        };
        let mut artifacts: Vec<Artifact> = Vec::new();
        let ghost f = |p: (Seq<char>, Seq<char>)| artifact_for(p.0, p.1);
        let ghost wanted = context@.artifacts.map_values(f);
        let mut i: usize = 0;
        while i < context.artifacts.len()
            invariant
                i <= context.artifacts.len(),
                f == (|p: (Seq<char>, Seq<char>)| artifact_for(p.0, p.1)),
                wanted == context@.artifacts.map_values(f),
                artifacts@.map_values(|a: Artifact| a@) == wanted.take(i as int),
            decreases context.artifacts.len() - i,
        {
            let artifact = to_artifact(
                context.artifacts[i].0.as_str(),
                context.artifacts[i].1.as_str(),
            );
            let ghost held = artifacts@;
            artifacts.push(artifact);
            proof {
                assert(artifacts@.map_values(|a: Artifact| a@) =~= held.map_values(
                    |a: Artifact| a@,
                ).push(artifact@));
                assert(wanted.take(i + 1) =~= wanted.take(i as int).push(wanted[i as int]));
            }
            i = i + 1;
        }
        let homepage = copy_variable(&context, "homepage");
        let binary = copy_variable(&context, "binary");
        let cask = Cask {
            name,
            version: found_version,
            sha256,
            url,
            homepage,
            binary,
            artifacts,
        };
        proof {
            assert(wanted.take(i as int) =~= wanted);
        }
        Ok(cask)
    }

    /// Reads a cask file for the platform `system_arch`.
    pub fn parse(content: &str, system_arch: &str) -> (r: Result<Self, CaskError>)
        ensures
            may_be_cask(content@, system_arch@, cask_result(r)),
            is_ascii_chars(content@) ==> cask_result(r) == cask_read(
                ruby::syntax_of(content@),
                system_arch@,
            ),
    {
        let syntax = ruby::parse(content);
        assert(ruby::may_read(content@, ruby::option_syntax(syntax)));
        match syntax {
            Some(root) => Self::from_syntax(&root, system_arch),
            None => Err(CaskError::ParseError("Failed to parse Ruby content".to_owned())),
        }
    }
}

/// Of the values that a file gives for the platform, the last one counts, and it
/// counts before every plain string.
pub proof fn law_platform_value_counts(
    nodes: Seq<SyntaxView>,
    i: int,
    name: Seq<char>,
    version: Option<Seq<char>>,
    arch: Seq<char>,
)
    requires
        0 <= i < nodes.len(),
        calls(nodes[i], name),
        nodes[i].arguments is Some,
        arch_value(nodes[i].arguments->0.children, version, arch) is Some,
        forall|j: int|
            i < j < nodes.len() && #[trigger] calls(nodes[j], name) && nodes[j].arguments is Some
                ==> arch_value(nodes[j].arguments->0.children, version, arch) is None,
    ensures
        variable_of(nodes, name, version, arch) == arch_value(
            nodes[i].arguments->0.children,
            version,
            arch,
        ),
    decreases nodes.len(),
{
    if i < nodes.len() - 1 {
        let front = nodes.drop_last();
        assert forall|j: int|
            i < j < front.len() && #[trigger] calls(front[j], name)
                && front[j].arguments is Some implies arch_value(
            front[j].arguments->0.children,
            version,
            arch,
        ) is None by {
            assert(calls(nodes[j], name));
        }
        law_platform_value_counts(front, i, name, version, arch);
        assert(calls(nodes.last(), name) ==> calls(nodes[nodes.len() - 1], name));
    }
}

/// Where a file gives no value for the platform, its first plain string counts.
pub proof fn law_first_string_counts(
    nodes: Seq<SyntaxView>,
    i: int,
    name: Seq<char>,
    version: Option<Seq<char>>,
    arch: Seq<char>,
)
    requires
        0 <= i < nodes.len(),
        calls(nodes[i], name),
        nodes[i].arguments is Some,
        string_value(nodes[i].arguments->0, version, arch) is Some,
        forall|j: int|
            0 <= j < nodes.len() && #[trigger] calls(nodes[j], name) && nodes[j].arguments is Some
                ==> arch_value(nodes[j].arguments->0.children, version, arch) is None && (j < i
                ==> string_value(nodes[j].arguments->0, version, arch) is None),
    ensures
        variable_of(nodes, name, version, arch) == string_value(
            nodes[i].arguments->0,
            version,
            arch,
        ),
    decreases nodes.len(),
{
    let front = nodes.drop_last();
    let last = nodes.len() - 1;
    assert(nodes.last() == nodes[last]);
    if i < last {
        assert forall|j: int|
            0 <= j < front.len() && #[trigger] calls(front[j], name)
                && front[j].arguments is Some implies arch_value(
            front[j].arguments->0.children,
            version,
            arch,
        ) is None && (j < i ==> string_value(front[j].arguments->0, version, arch) is None) by {
            assert(calls(nodes[j], name));
        }
        law_first_string_counts(front, i, name, version, arch);
    } else {
        lemma_nothing_said(front, name, version, arch, nodes);
    }
}

/// Calls without a value say nothing.
proof fn lemma_nothing_said(
    front: Seq<SyntaxView>,
    name: Seq<char>,
    version: Option<Seq<char>>,
    arch: Seq<char>,
    nodes: Seq<SyntaxView>,
)
    requires
        front.len() <= nodes.len(),
        front == nodes.take(front.len() as int),
        forall|j: int|
            0 <= j < front.len() && #[trigger] calls(nodes[j], name) && nodes[j].arguments is Some
                ==> arch_value(nodes[j].arguments->0.children, version, arch) is None
                && string_value(nodes[j].arguments->0, version, arch) is None,
    ensures
        variable_of(front, name, version, arch) is None,
    decreases front.len(),
{
    if front.len() > 0 {
        let less = front.drop_last();
        assert(less =~= nodes.take(less.len() as int));
        lemma_nothing_said(less, name, version, arch, nodes);
        assert(front.last() == nodes[front.len() - 1]);
    }
}

/// A text without the start of a placeholder is left as it is.
pub proof fn law_plain_text_is_kept(s: Seq<char>, version: Option<Seq<char>>, arch: Seq<char>)
    requires
        !contains_text(s, "#{"@),
    ensures
        interpolated(s, version, arch) == s,
{
    lemma_no_placeholder(s);
    if let Some(v) = version {
        crate::text::law_replaced_absent(s, "#{version}"@, v);
        if v.contains(',') {
            crate::text::law_replaced_absent(s, "#{version.csv.first}"@, before(v, ','));
            crate::text::law_replaced_absent(
                s,
                "#{version.csv.second}"@,
                before(after(v, ','), ','),
            );
        }
    }
    crate::text::law_replaced_absent(s, "#{arch}"@, simple_arch(arch));
    crate::text::law_replaced_absent(s, "#{staged_path}"@, "."@);
}

proof fn lemma_no_placeholder(s: Seq<char>)
    requires
        !contains_text(s, "#{"@),
    ensures
        !contains_text(s, "#{version}"@),
        !contains_text(s, "#{version.csv.first}"@),
        !contains_text(s, "#{version.csv.second}"@),
        !contains_text(s, "#{arch}"@),
        !contains_text(s, "#{staged_path}"@),
{
    reveal_strlit("#{");
    reveal_strlit("#{version}");
    reveal_strlit("#{version.csv.first}");
    reveal_strlit("#{version.csv.second}");
    reveal_strlit("#{arch}");
    reveal_strlit("#{staged_path}");
    lemma_starts_placeholder(s, "#{version}"@);
    lemma_starts_placeholder(s, "#{version.csv.first}"@);
    lemma_starts_placeholder(s, "#{version.csv.second}"@);
    lemma_starts_placeholder(s, "#{arch}"@);
    lemma_starts_placeholder(s, "#{staged_path}"@);
}

proof fn lemma_starts_placeholder(s: Seq<char>, p: Seq<char>)
    requires
        !contains_text(s, "#{"@),
        p.len() >= 2,
        p[0] == '#',
        p[1] == '{',
    ensures
        !contains_text(s, p),
{
    reveal_strlit("#{");
    assert forall|i: int| !crate::text::stands_at(s, p, i) by {
        if crate::text::stands_at(s, p, i) {
            let part = s.subrange(i, i + p.len());
            assert(part[0] == s[i] && part[1] == s[i + 1]);
            assert(s.subrange(i, i + 2) =~= "#{"@);
            assert(crate::text::stands_at(s, "#{"@, i));
        }
    }
}

/// A path in the directory of the installation is relative, so that it leads into
/// the directory that it is joined to.
pub proof fn law_staged_path_is_relative(
    rest: Seq<char>,
    version: Option<Seq<char>>,
    arch: Seq<char>,
)
    ensures
        ({
            let path = interpolated("#{staged_path}"@ + rest, version, arch);
            path.len() > 0 && path[0] == '.'
        }),
{
    reveal_strlit("#{version}");
    reveal_strlit("#{version.csv.first}");
    reveal_strlit("#{version.csv.second}");
    reveal_strlit("#{arch}");
    reveal_strlit("#{staged_path}");
    reveal_strlit(".");
    let start = "#{staged_path}"@;
    let filled = match version {
        Some(v) => {
            let whole = replaced(rest, "#{version}"@, v);
            lemma_staged_start(rest, "#{version}"@, v);
            if v.contains(',') {
                let first = replaced(whole, "#{version.csv.first}"@, before(v, ','));
                lemma_staged_start(whole, "#{version.csv.first}"@, before(v, ','));
                lemma_staged_start(first, "#{version.csv.second}"@, before(after(v, ','), ','));
                replaced(first, "#{version.csv.second}"@, before(after(v, ','), ','))
            } else {
                whole
            }
        },
        None => rest,
    };
    assert(version_filled(start + rest, version) == start + filled);
    let last = replaced(filled, "#{arch}"@, simple_arch(arch));
    lemma_staged_start(filled, "#{arch}"@, simple_arch(arch));
    let all = start + last;
    assert(all.subrange(0, start.len() as int) =~= start);
    assert(crate::text::stands_at(all, start, 0));
    assert(interpolated(start + rest, version, arch) == "."@ + replaced(
        all.skip(start.len() as int),
        start,
        "."@,
    ));
}

/// The placeholder of the directory stays while another is filled in behind it.
proof fn lemma_staged_start(rest: Seq<char>, pattern: Seq<char>, to: Seq<char>)
    requires
        pattern.len() > 2,
        pattern[0] == '#',
        pattern[2] != 's',
    ensures
        replaced("#{staged_path}"@ + rest, pattern, to) == "#{staged_path}"@ + replaced(
            rest,
            pattern,
            to,
        ),
{
    reveal_strlit("#{staged_path}");
    let start = "#{staged_path}"@;
    let all = start + rest;
    assert forall|i: int| 0 <= i < start.len() implies !#[trigger] crate::text::stands_at(
        all,
        pattern,
        i,
    ) by {
        if crate::text::stands_at(all, pattern, i) {
            let part = all.subrange(i, i + pattern.len());
            assert(part[0] == all[i] && part[2] == all[i + 2]);
        }
    }
    crate::text::law_replaced_behind(start, rest, pattern, to);
}

/// The string of a call is the first of its arguments that is a string, whatever
/// arguments follow, without its quotes and filled in.
pub proof fn law_first_string_is_taken(
    a: ArgumentView,
    i: int,
    version: Option<Seq<char>>,
    arch: Seq<char>,
)
    requires
        0 <= i <= a.children.len(),
        i < a.children.len() ==> a.children[i].kind == "string"@,
        forall|j: int| 0 <= j < i ==> (#[trigger] a.children[j]).kind != "string"@,
    ensures
        i < a.children.len() ==> string_value(a, version, arch) == Some(
            interpolated(trimmed(a.children[i].text, "\""@), version, arch),
        ),
        i == a.children.len() ==> string_value(a, version, arch) is None,
{
    if i < a.children.len() {
        law_first_of_kind(a.children, "string"@, i);
    } else {
        law_none_of_kind(a.children, "string"@);
    }
}

/// The value for the platform in two lists, one after the other, is that of the first
/// which has one. A pair has one if and only if its key is the platform and its value a
/// string; a hash has that of its pairs; and nothing else has one.
pub proof fn law_platform_value_is_found(
    a: Seq<ArgumentView>,
    b: Seq<ArgumentView>,
    node: ArgumentView,
    version: Option<Seq<char>>,
    arch: Seq<char>,
)
    ensures
        arch_value(a + b, version, arch) == match arch_value(a, version, arch) {
            Some(v) => Some(v),
            None => arch_value(b, version, arch),
        },
        arch_value(Seq::empty(), version, arch) is None,
        node.kind == "pair"@ ==> arch_value(seq![node], version, arch) == (if node.key is Some
            && node.value is Some && trimmed(node.key->0, ":"@) == arch && node.value->0.kind
            == "string"@ {
            Some(interpolated(trimmed(node.value->0.text, "\""@), version, arch))
        } else {
            None
        }),
        node.kind == "hash"@ || node.kind == "bare_hash"@ ==> arch_value(
            seq![node],
            version,
            arch,
        ) == arch_value(node.children, version, arch),
        node.kind != "pair"@ && node.kind != "hash"@ && node.kind != "bare_hash"@ ==> arch_value(
            seq![node],
            version,
            arch,
        ) is None,
    decreases b.len(),
{
    reveal_strlit("pair");
    reveal_strlit("hash");
    reveal_strlit("bare_hash");
    assert("pair"@[0] == 'p' && "hash"@[0] == 'h' && "bare_hash"@[0] == 'b');
    if b.len() == 0 {
        assert(a + b =~= a);
    } else {
        assert((a + b).drop_last() =~= a + b.drop_last());
        law_platform_value_is_found(a, b.drop_last(), node, version, arch);
    }
    assert(seq![node].drop_last() =~= Seq::empty());
    assert(seq![node].last() == node);
    assert(arch_value(seq![node].drop_last(), version, arch) is None);
}

/// The artifacts are, one for each call of `binary`, `app` or `artifact` that has a
/// string, that string as an artifact of its kind, in the order of the calls.
pub proof fn law_artifacts_are_those_called(
    nodes: Seq<SyntaxView>,
    version: Option<Seq<char>>,
    arch: Seq<char>,
)
    ensures
        artifacts_of(nodes, version, arch) == nodes.filter_map(
            |n: SyntaxView|
                if (n.kind == "method_call"@ || n.kind == "command_call"@ || n.kind == "command"@
                    || n.kind == "call"@) && n.arguments is Some && string_value(
                    n.arguments->0,
                    version,
                    arch,
                ) is Some {
                    if n.method == Some("binary"@) {
                        Some(
                            ArtifactView::Binary(string_value(n.arguments->0, version, arch)->0),
                        )
                    } else if n.method == Some("app"@) {
                        Some(ArtifactView::App(string_value(n.arguments->0, version, arch)->0))
                    } else if n.method == Some("artifact"@) {
                        Some(ArtifactView::Unknown)
                    } else {
                        None
                    }
                } else {
                    None
                },
        ),
    decreases nodes.len(),
{
    if nodes.len() > 0 {
        law_artifacts_are_those_called(nodes.drop_last(), version, arch);
    }
    lemma_artifacts_differ();
}

proof fn lemma_artifacts_differ()
    ensures
        "binary"@ != "app"@,
        "binary"@ != "artifact"@,
        "app"@ != "artifact"@,
{
    reveal_strlit("binary");
    reveal_strlit("artifact");
    reveal_strlit("app");
    assert("binary"@.len() == 6 && "artifact"@.len() == 8 && "app"@.len() == 3);
}

/// The artifacts of two lists of nodes, one after the other, are those of the first and
/// then those of the second: no call is dropped, doubled or moved on account of another.
pub proof fn law_artifacts_in_order(
    a: Seq<SyntaxView>,
    b: Seq<SyntaxView>,
    version: Option<Seq<char>>,
    arch: Seq<char>,
)
    ensures
        artifacts_of(a + b, version, arch) == artifacts_of(a, version, arch) + artifacts_of(
            b,
            version,
            arch,
        ),
        artifacts_of(Seq::empty(), version, arch).len() == 0,
    decreases b.len(),
{
    if b.len() == 0 {
        assert(a + b =~= a);
        assert(artifacts_of(a, version, arch) + artifacts_of(b, version, arch) =~= artifacts_of(
            a,
            version,
            arch,
        ));
    } else {
        assert((a + b).drop_last() =~= a + b.drop_last());
        law_artifacts_in_order(a, b.drop_last(), version, arch);
        assert(artifacts_of(a + b, version, arch) =~= artifacts_of(a, version, arch)
            + artifacts_of(b, version, arch));
    }
}

/// A call of `binary`, `app` or `artifact` with a string adds one artifact, of its kind and
/// with its string. Any other node adds none.
pub proof fn law_artifact_is_added(
    node: SyntaxView,
    i: int,
    version: Option<Seq<char>>,
    arch: Seq<char>,
)
    requires
        node.arguments is Some ==> {
            let all = node.arguments->0.children;
            &&& 0 <= i <= all.len()
            &&& i < all.len() ==> all[i].kind == "string"@
            &&& forall|j: int| 0 <= j < i ==> (#[trigger] all[j]).kind != "string"@
        },
    ensures
        ({
            let added = artifacts_of(seq![node], version, arch);
            let value = interpolated(
                trimmed(node.arguments->0.children[i].text, "\""@),
                version,
                arch,
            );
            if (node.kind == "method_call"@ || node.kind == "command_call"@ || node.kind
                == "command"@ || node.kind == "call"@) && node.arguments is Some && i
                < node.arguments->0.children.len() {
                &&& node.method == Some("binary"@) ==> added == seq![ArtifactView::Binary(value)]
                &&& node.method == Some("app"@) ==> added == seq![ArtifactView::App(value)]
                &&& node.method == Some("artifact"@) ==> added == seq![ArtifactView::Unknown]
                &&& node.method != Some("binary"@) && node.method != Some("app"@) && node.method
                    != Some("artifact"@) ==> added.len() == 0
            } else {
                added.len() == 0
            }
        }),
{
    if node.arguments is Some {
        law_first_string_is_taken(node.arguments->0, i, version, arch);
    }
    lemma_artifacts_differ();
    reveal_with_fuel(artifacts_of, 2);
    assert(seq![node].drop_last() =~= Seq::empty());
    assert(seq![node].last() == node);
}

/// A call of `version` sets the version in place of an earlier one, which it may use, and
/// fails without a string. Any other node leaves the version, and a failure stays.
pub proof fn law_version_is_set(nodes: Seq<SyntaxView>, node: SyntaxView, arch: Seq<char>)
    ensures
        version_of(Seq::empty(), arch) == Ok::<Option<Seq<char>>, CaskErrorView>(None),
        version_of(nodes, arch) is Err ==> version_of(nodes.push(node), arch) == version_of(
            nodes,
            arch,
        ),
        version_of(nodes, arch) is Ok ==> {
            if (node.kind == "method_call"@ || node.kind == "command_call"@ || node.kind
                == "command"@ || node.kind == "call"@) && node.method == Some("version"@)
                && node.arguments is Some {
                match string_value(node.arguments->0, version_of(nodes, arch)->Ok_0, arch) {
                    Some(v) => version_of(nodes.push(node), arch) == Ok::<
                        Option<Seq<char>>,
                        CaskErrorView,
                    >(Some(v)),
                    None => version_of(nodes.push(node), arch) == Err::<
                        Option<Seq<char>>,
                        CaskErrorView,
                    >(CaskErrorView::ParseError("Could not find string argument"@)),
                }
            } else {
                version_of(nodes.push(node), arch) == version_of(nodes, arch)
            }
        },
{
    assert(nodes.push(node).drop_last() =~= nodes);
}

/// A call that has a value for the platform sets the variable in place of what was said
/// before; one that has only a string sets it where nothing was said before; and any other
/// node leaves it.
pub proof fn law_variable_is_set(
    nodes: Seq<SyntaxView>,
    node: SyntaxView,
    name: Seq<char>,
    version: Option<Seq<char>>,
    arch: Seq<char>,
)
    ensures
        variable_of(Seq::empty(), name, version, arch) is None,
        ({
            let said = variable_of(nodes, name, version, arch);
            let now = variable_of(nodes.push(node), name, version, arch);
            if (node.kind == "method_call"@ || node.kind == "command_call"@ || node.kind
                == "command"@ || node.kind == "call"@) && node.method == Some(name)
                && node.arguments is Some {
                let own = arch_value(node.arguments->0.children, version, arch);
                &&& own is Some ==> now == own
                &&& own is None && said is Some ==> now == said
                &&& own is None && said is None ==> now == string_value(
                    node.arguments->0,
                    version,
                    arch,
                )
            } else {
                now == said
            }
        }),
{
    assert(nodes.push(node).drop_last() =~= nodes);
}

/// A cask has the version that its file sets, and everything else with that version filled
/// in. Without a name, a version, a hash or an address it is refused, in that order.
pub proof fn law_cask_is_what_was_said(root: SyntaxView, arch: Seq<char>)
    ensures
        ({
            let nodes = preorder(root);
            let r = cask_of(root, arch);
            &&& version_of(nodes, arch) is Err ==> r == Err::<CaskView, CaskErrorView>(
                version_of(nodes, arch)->Err_0,
            )
            &&& version_of(nodes, arch) is Ok ==> {
                let version = version_of(nodes, arch)->Ok_0;
                let name = variable_of(nodes, "name"@, version, arch);
                let sha256 = variable_of(nodes, "sha256"@, version, arch);
                let url = variable_of(nodes, "url"@, version, arch);
                &&& r is Ok <==> name is Some && version is Some && sha256 is Some && url is Some
                &&& r is Ok ==> {
                    let c = r->Ok_0;
                    &&& Some(c.name) == name
                    &&& Some(c.version) == version
                    &&& Some(c.sha256) == sha256
                    &&& Some(c.url) == url
                    &&& c.homepage == variable_of(nodes, "homepage"@, version, arch)
                    &&& c.binary is None
                    &&& c.artifacts == artifacts_of(nodes, version, arch)
                }
                &&& name is None ==> r->Err_0 == CaskErrorView::MissingField("name"@)
                &&& name is Some && version is None ==> r->Err_0 == CaskErrorView::MissingField(
                    "version"@,
                )
                &&& name is Some && version is Some && sha256 is None ==> r->Err_0
                    == CaskErrorView::MissingField("sha256"@)
                &&& name is Some && version is Some && sha256 is Some && url is None ==> r->Err_0
                    == CaskErrorView::MissingField("url"@)
            }
            &&& cask_read(Some(root), arch) == r
            &&& cask_read(None, arch) == Err::<CaskView, CaskErrorView>(
                CaskErrorView::ParseError("Failed to parse Ruby content"@),
            )
        }),
{
}

/// The models of casks, of artifacts and of errors hold what the values hold.
pub proof fn law_cask_models(c: Cask, a: Artifact, e: CaskError)
    ensures
        cask_result(Ok(c)) == Ok::<CaskView, CaskErrorView>(c@),
        cask_result(Err(e)) == Err::<CaskView, CaskErrorView>(e@),
        c@.name == c.name@,
        c@.version == c.version@,
        c@.sha256 == c.sha256@,
        c@.url == c.url@,
        c@.homepage == option_text(c.homepage),
        c@.binary == option_text(c.binary),
        c@.artifacts.len() == c.artifacts@.len(),
        forall|i: int|
            0 <= i < c.artifacts@.len() ==> #[trigger] c@.artifacts[i] == c.artifacts@[i]@,
        match a {
            Artifact::Binary(s) => a@ == ArtifactView::Binary(s@),
            Artifact::App(s) => a@ == ArtifactView::App(s@),
            Artifact::Desktop(s) => a@ == ArtifactView::Desktop(s@),
            Artifact::Icon(s) => a@ == ArtifactView::Icon(s@),
            Artifact::Unknown => a@ == ArtifactView::Unknown,
        },
        match e {
            CaskError::ParseError(s) => e@ == CaskErrorView::ParseError(s@) && cask_error_words(e@)
                == "Failed to parse cask: "@ + s@,
            CaskError::MissingField(s) => e@ == CaskErrorView::MissingField(s@)
                && cask_error_words(e@) == "Missing required field: "@ + s@,
        },
{
}

proof fn lemma_plain_start(a: Seq<char>, rest: Seq<char>, pattern: Seq<char>, to: Seq<char>)
    requires
        !a.contains('#'),
        pattern.len() > 0,
        pattern[0] == '#',
    ensures
        replaced(a + rest, pattern, to) == a + replaced(rest, pattern, to),
{
    let all = a + rest;
    assert forall|i: int| 0 <= i < a.len() implies !#[trigger] crate::text::stands_at(
        all,
        pattern,
        i,
    ) by {
        assert(a.contains(a[i]));
        if crate::text::stands_at(all, pattern, i) {
            assert(all.subrange(i, i + pattern.len())[0] == all[i]);
        }
    }
    crate::text::law_replaced_behind(a, rest, pattern, to);
}

/// A placeholder stays while another, from which it differs in some position, is filled in.
proof fn lemma_other_placeholder(
    start: Seq<char>,
    rest: Seq<char>,
    pattern: Seq<char>,
    to: Seq<char>,
    k: int,
)
    requires
        0 < k < start.len(),
        k < pattern.len(),
        start[0] == '#',
        pattern[0] == '#',
        start[k] != pattern[k],
        forall|i: int| 0 < i < start.len() ==> #[trigger] start[i] != '#',
    ensures
        replaced(start + rest, pattern, to) == start + replaced(rest, pattern, to),
{
    let all = start + rest;
    assert forall|i: int| 0 <= i < start.len() implies !#[trigger] crate::text::stands_at(
        all,
        pattern,
        i,
    ) by {
        if crate::text::stands_at(all, pattern, i) {
            let part = all.subrange(i, i + pattern.len());
            assert(part[0] == all[i]);
            assert(all[i] == start[i]);
            assert(part[k] == all[i + k]);
        }
    }
    crate::text::law_replaced_behind(start, rest, pattern, to);
}

proof fn lemma_own_placeholder(start: Seq<char>, rest: Seq<char>, to: Seq<char>)
    requires
        start.len() > 0,
    ensures
        replaced(start + rest, start, to) == to + replaced(rest, start, to),
{
    let all = start + rest;
    assert(all.subrange(0, start.len() as int) =~= start);
    assert(crate::text::stands_at(all, start, 0));
    assert(all.skip(start.len() as int) =~= rest);
}

/// What stands before every `#` is left as it is, and what follows is filled in on its
/// own.
pub proof fn law_plain_start_is_kept(
    a: Seq<char>,
    rest: Seq<char>,
    version: Option<Seq<char>>,
    arch: Seq<char>,
)
    requires
        !a.contains('#'),
    ensures
        interpolated(a + rest, version, arch) == a + interpolated(rest, version, arch),
        interpolated(a, version, arch) == a,
{
    lemma_start_passes(a, rest, version, arch);
    lemma_start_passes(a, Seq::empty(), version, arch);
    assert(a + Seq::<char>::empty() =~= a);
    assert(interpolated(Seq::empty(), version, arch) =~= Seq::<char>::empty());
}

proof fn lemma_start_passes(
    a: Seq<char>,
    rest: Seq<char>,
    version: Option<Seq<char>>,
    arch: Seq<char>,
)
    requires
        !a.contains('#'),
    ensures
        interpolated(a + rest, version, arch) == a + interpolated(rest, version, arch),
        version_filled(a + rest, version) == a + version_filled(rest, version),
{
    lemma_placeholders();
    if let Some(v) = version {
        let whole = replaced(rest, "#{version}"@, v);
        lemma_plain_start(a, rest, "#{version}"@, v);
        if v.contains(',') {
            let first = replaced(whole, "#{version.csv.first}"@, before(v, ','));
            lemma_plain_start(a, whole, "#{version.csv.first}"@, before(v, ','));
            lemma_plain_start(a, first, "#{version.csv.second}"@, before(after(v, ','), ','));
        }
    }
    let filled = version_filled(rest, version);
    lemma_plain_start(a, filled, "#{arch}"@, simple_arch(arch));
    lemma_plain_start(
        a,
        replaced(filled, "#{arch}"@, simple_arch(arch)),
        "#{staged_path}"@,
        "."@,
    );
}

/// The placeholders start with `#`, hold no second one, and differ early.
proof fn lemma_placeholders()
    ensures
        "#{version}"@.len() == 10 && "#{version}"@[0] == '#' && "#{version}"@[2] == 'v',
        "#{version}"@[9] == '}',
        "#{version.csv.first}"@.len() == 20 && "#{version.csv.first}"@[0] == '#',
        "#{version.csv.first}"@[2] == 'v' && "#{version.csv.first}"@[9] == '.',
        "#{version.csv.first}"@[14] == 'f',
        "#{version.csv.second}"@.len() == 21 && "#{version.csv.second}"@[0] == '#',
        "#{version.csv.second}"@[2] == 'v' && "#{version.csv.second}"@[9] == '.',
        "#{version.csv.second}"@[14] == 's',
        "#{arch}"@.len() == 7 && "#{arch}"@[0] == '#' && "#{arch}"@[2] == 'a',
        "#{staged_path}"@.len() == 14 && "#{staged_path}"@[0] == '#',
        "#{staged_path}"@[2] == 's',
        forall|i: int| 0 < i < 10 ==> #[trigger] "#{version}"@[i] != '#',
        forall|i: int| 0 < i < 20 ==> #[trigger] "#{version.csv.first}"@[i] != '#',
        forall|i: int| 0 < i < 21 ==> #[trigger] "#{version.csv.second}"@[i] != '#',
        forall|i: int| 0 < i < 7 ==> #[trigger] "#{arch}"@[i] != '#',
        forall|i: int| 0 < i < 14 ==> #[trigger] "#{staged_path}"@[i] != '#',
{
    reveal_strlit("#{version}");
    reveal_strlit("#{version.csv.first}");
    reveal_strlit("#{version.csv.second}");
    reveal_strlit("#{arch}");
    reveal_strlit("#{staged_path}");
}

/// Where the version is known, it stands for its placeholder.
pub proof fn law_version_is_filled_in(rest: Seq<char>, version: Seq<char>, arch: Seq<char>)
    requires
        !version.contains('#'),
    ensures
        interpolated("#{version}"@ + rest, Some(version), arch) == version + interpolated(
            rest,
            Some(version),
            arch,
        ),
{
    lemma_placeholders();
    let whole = replaced(rest, "#{version}"@, version);
    lemma_own_placeholder("#{version}"@, rest, version);
    let filled = version_filled(rest, Some(version));
    if version.contains(',') {
        let one = before(version, ',');
        let two = before(after(version, ','), ',');
        lemma_plain_start(version, whole, "#{version.csv.first}"@, one);
        lemma_plain_start(
            version,
            replaced(whole, "#{version.csv.first}"@, one),
            "#{version.csv.second}"@,
            two,
        );
    }
    lemma_plain_start(version, filled, "#{arch}"@, simple_arch(arch));
    lemma_plain_start(
        version,
        replaced(filled, "#{arch}"@, simple_arch(arch)),
        "#{staged_path}"@,
        "."@,
    );
}

/// The first two parts of a version that has several, between its commas, stand for their
/// placeholders.
pub proof fn law_version_parts_are_filled_in(
    rest: Seq<char>,
    one: Seq<char>,
    two: Seq<char>,
    more: Option<Seq<char>>,
    arch: Seq<char>,
)
    requires
        !one.contains(',') && !one.contains('#'),
        !two.contains(',') && !two.contains('#'),
    ensures
        ({
            let version = one + seq![','] + match more {
                Some(m) => two + seq![','] + m,
                None => two,
            };
            &&& interpolated("#{version.csv.first}"@ + rest, Some(version), arch) == one
                + interpolated(rest, Some(version), arch)
            &&& interpolated("#{version.csv.second}"@ + rest, Some(version), arch) == two
                + interpolated(rest, Some(version), arch)
        }),
{
    lemma_placeholders();
    let tail = match more {
        Some(m) => two + seq![','] + m,
        None => two,
    };
    let version = one + seq![','] + tail;
    crate::text::law_parts_are_found(one, ',', tail);
    match more {
        Some(m) => crate::text::law_parts_are_found(two, ',', m),
        None => crate::text::law_parts_are_found(two, ',', tail),
    }
    assert(version[one.len() as int] == ',');
    assert(version.contains(','));
    let first = "#{version.csv.first}"@;
    let second = "#{version.csv.second}"@;
    let whole = replaced(rest, "#{version}"@, version);
    let half = replaced(whole, first, one);
    let filled = replaced(half, second, two);
    lemma_other_placeholder(first, rest, "#{version}"@, version, 9);
    lemma_own_placeholder(first, whole, one);
    lemma_plain_start(one, half, second, two);
    lemma_other_placeholder(second, rest, "#{version}"@, version, 9);
    lemma_other_placeholder(second, whole, first, one, 14);
    lemma_own_placeholder(second, half, two);
    let named = replaced(filled, "#{arch}"@, simple_arch(arch));
    lemma_plain_start(one, filled, "#{arch}"@, simple_arch(arch));
    lemma_plain_start(one, named, "#{staged_path}"@, "."@);
    lemma_plain_start(two, filled, "#{arch}"@, simple_arch(arch));
    lemma_plain_start(two, named, "#{staged_path}"@, "."@);
}

/// A placeholder stays while the version and its parts are filled in.
proof fn lemma_passes_version(start: Seq<char>, rest: Seq<char>, version: Option<Seq<char>>)
    requires
        start.len() > 2,
        start[0] == '#',
        start[2] != 'v',
        forall|i: int| 0 < i < start.len() ==> #[trigger] start[i] != '#',
    ensures
        version_filled(start + rest, version) == start + version_filled(rest, version),
{
    lemma_placeholders();
    if let Some(v) = version {
        let whole = replaced(rest, "#{version}"@, v);
        lemma_other_placeholder(start, rest, "#{version}"@, v, 2);
        if v.contains(',') {
            let one = before(v, ',');
            let two = before(after(v, ','), ',');
            let half = replaced(whole, "#{version.csv.first}"@, one);
            lemma_other_placeholder(start, whole, "#{version.csv.first}"@, one, 2);
            lemma_other_placeholder(start, half, "#{version.csv.second}"@, two, 2);
        }
    }
}

/// The short name of the platform, and the current directory, stand for their placeholders.
pub proof fn law_platform_is_filled_in(
    rest: Seq<char>,
    version: Option<Seq<char>>,
    arch: Seq<char>,
)
    ensures
        interpolated("#{arch}"@ + rest, version, arch) == (if contains_text(arch, "arm64"@) {
            "arm64"@
        } else {
            "x64"@
        }) + interpolated(rest, version, arch),
        interpolated("#{staged_path}"@ + rest, version, arch) == "."@ + interpolated(
            rest,
            version,
            arch,
        ),
{
    lemma_placeholders();
    reveal_strlit("arm64");
    reveal_strlit("x64");
    let filled = version_filled(rest, version);
    let short = simple_arch(arch);
    let named = replaced(filled, "#{arch}"@, short);
    assert(!short.contains('#'));
    lemma_passes_version("#{arch}"@, rest, version);
    lemma_own_placeholder("#{arch}"@, filled, short);
    lemma_plain_start(short, named, "#{staged_path}"@, "."@);
    lemma_passes_version("#{staged_path}"@, rest, version);
    lemma_other_placeholder("#{staged_path}"@, filled, "#{arch}"@, short, 2);
    lemma_own_placeholder("#{staged_path}"@, named, "."@);
}

/// Where no version is known its placeholder stays, and where a version has no comma the
/// placeholders of its parts stay.
pub proof fn law_unknown_placeholders_stay(rest: Seq<char>, version: Seq<char>, arch: Seq<char>)
    requires
        !version.contains(','),
    ensures
        interpolated("#{version}"@ + rest, None, arch) == "#{version}"@ + interpolated(
            rest,
            None,
            arch,
        ),
        interpolated("#{version.csv.first}"@ + rest, Some(version), arch)
            == "#{version.csv.first}"@ + interpolated(rest, Some(version), arch),
        interpolated("#{version.csv.second}"@ + rest, Some(version), arch)
            == "#{version.csv.second}"@ + interpolated(rest, Some(version), arch),
{
    lemma_placeholders();
    let short = simple_arch(arch);
    let whole = replaced(rest, "#{version}"@, version);
    lemma_other_placeholder("#{version}"@, rest, "#{arch}"@, short, 2);
    lemma_other_placeholder(
        "#{version}"@,
        replaced(rest, "#{arch}"@, short),
        "#{staged_path}"@,
        "."@,
        2,
    );
    lemma_other_placeholder("#{version.csv.first}"@, rest, "#{version}"@, version, 9);
    lemma_other_placeholder("#{version.csv.first}"@, whole, "#{arch}"@, short, 2);
    lemma_other_placeholder(
        "#{version.csv.first}"@,
        replaced(whole, "#{arch}"@, short),
        "#{staged_path}"@,
        "."@,
        2,
    );
    lemma_other_placeholder("#{version.csv.second}"@, rest, "#{version}"@, version, 9);
    lemma_other_placeholder("#{version.csv.second}"@, whole, "#{arch}"@, short, 2);
    lemma_other_placeholder(
        "#{version.csv.second}"@,
        replaced(whole, "#{arch}"@, short),
        "#{staged_path}"@,
        "."@,
        2,
    );
}

/// What may come of a cask file comes of what may be read of it, and of a file in ASCII only
/// one thing may come.
pub proof fn law_what_may_be_a_cask(
    content: Seq<char>,
    arch: Seq<char>,
    syntax: Option<SyntaxView>,
    result: Result<CaskView, CaskErrorView>,
)
    ensures
        ruby::may_read(content, syntax) ==> may_be_cask(content, arch, cask_read(syntax, arch)),
        is_ascii_chars(content) && may_be_cask(content, arch, result) ==> result == cask_read(
            ruby::syntax_of(content),
            arch,
        ),
{
}

/// Filling in is replacing: every placeholder of the version, of its first two parts where it
/// has several, of the platform and of the directory, one kind after the other, whatever the
/// text and the version hold.
pub proof fn law_filling_in_is_replacing(s: Seq<char>, version: Seq<char>, arch: Seq<char>)
    ensures
        ({
            let whole = replaced(s, "#{version}"@, version);
            let parts = replaced(
                replaced(whole, "#{version.csv.first}"@, before(version, ',')),
                "#{version.csv.second}"@,
                before(after(version, ','), ','),
            );
            let short = if contains_text(arch, "arm64"@) {
                "arm64"@
            } else {
                "x64"@
            };
            &&& interpolated(s, None, arch) == replaced(
                replaced(s, "#{arch}"@, short),
                "#{staged_path}"@,
                "."@,
            )
            &&& !version.contains(',') ==> interpolated(s, Some(version), arch) == replaced(
                replaced(whole, "#{arch}"@, short),
                "#{staged_path}"@,
                "."@,
            )
            &&& version.contains(',') ==> interpolated(s, Some(version), arch) == replaced(
                replaced(parts, "#{arch}"@, short),
                "#{staged_path}"@,
                "."@,
            )
        }),
{
}

} // verus!
