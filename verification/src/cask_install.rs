//! Installing a cask: what is downloaded, where it is put and what is linked.
use crate::cask::{
    cask_error_words, cask_read, cask_result, interpolated, law_staged_path_is_relative,
    may_be_cask, Artifact, ArtifactView, Cask, CaskError, CaskErrorView, CaskView,
};
use crate::error::{Error, ErrorView};
use crate::install::Installer;
use crate::path::{file_name, file_name_of, join, path_joined};
use crate::progress::{report_views, DownloadRequest, InstallProgress, ProgressView, RequestView};
use crate::ruby;
use vstd::prelude::*;
use vstd::string::*;
use vstd::utf8::*;

verus! {

/// A program of a cask that is to be linked, and whether it is missed where it is not
/// there.
pub struct BinaryLink {
    pub source: String,
    pub expected: bool,
}

/// Model of a [`BinaryLink`].
pub struct BinaryLinkView {
    pub source: Seq<char>,
    pub expected: bool,
}

impl BinaryLink {
    pub open spec fn view(&self) -> BinaryLinkView {
        BinaryLinkView { source: self.source@, expected: self.expected }
    }
}

/// Some links, as models.
pub open spec fn binary_views(links: Seq<BinaryLink>) -> Seq<BinaryLinkView> {
    links.map_values(|l: BinaryLink| l@)
}

/// A cask that is to be installed: what is reported of it, what is downloaded, the
/// directory that it gets, and its programs.
pub struct CaskInstall {
    pub title: String,
    pub request: DownloadRequest,
    pub caskroom: String,
    pub links: Vec<BinaryLink>,
}

/// Model of a [`CaskInstall`].
#[verifier::ext_equal]
pub struct CaskInstallView {
    pub title: Seq<char>,
    pub request: RequestView,
    pub caskroom: Seq<char>,
    pub links: Seq<BinaryLinkView>,
}

impl CaskInstall {
    pub open spec fn view(&self) -> CaskInstallView {
        CaskInstallView {
            title: self.title@,
            request: self.request@,
            caskroom: self.caskroom@,
            links: binary_views(self.links@),
        }
    }
}

/// What is to be done for a program.
pub enum LinkStep {
    /// Nothing.
    Skip,
    /// Tell the user that it is missing.
    Warn(String),
    /// Link it from this place.
    Link(String),
}

/// Model of a [`LinkStep`].
pub enum LinkStepView {
    Skip,
    Warn(Seq<char>),
    Link(Seq<char>),
}

impl LinkStep {
    pub open spec fn view(&self) -> LinkStepView {
        match self {
            LinkStep::Skip => LinkStepView::Skip,
            LinkStep::Warn(s) => LinkStepView::Warn(s@),
            LinkStep::Link(s) => LinkStepView::Link(s@),
        }
    }
}

/// How far a cask has been installed.
#[derive(Debug, Clone, Copy, PartialEq, Eq, Structural)]
pub enum CaskStage {
    /// It is in the store.
    Stored,
    /// It is in its directory.
    Placed,
    /// Its programs are linked.
    Linked,
}

/// What can fail while a cask is put in place.
pub enum CaskFailure {
    /// Its file, which is shown like this, could not be read.
    Read(String),
    /// The directory that it had could not be removed.
    RemoveOld,
    /// The directory above its own could not be made.
    MakeParent,
    /// It could not be linked to its directory.
    LinkStore,
    /// A program of it could not be linked.
    LinkBinary,
}

/// The directory of a version of a cask.
pub open spec fn caskroom_in(
    store_root: Seq<char>,
    cask_name: Seq<char>,
    version: Seq<char>,
) -> Seq<char> {
    path_joined(path_joined(path_joined(store_root, "Caskroom"@), cask_name), version)
}

/// The programs among what a cask puts in place.
pub open spec fn artifact_links(caskroom: Seq<char>, artifacts: Seq<ArtifactView>) -> Seq<
    BinaryLinkView,
>
    decreases artifacts.len(),
{
    if artifacts.len() == 0 {
        Seq::empty()
    } else {
        let front = artifact_links(caskroom, artifacts.drop_last());
        match artifacts.last() {
            ArtifactView::Binary(path) => front.push(
                BinaryLinkView { source: path_joined(caskroom, path), expected: true },
            ),
            _ => front,
        }
    }
}

/// The programs of a cask: those among what it puts in place, then its single one.
pub open spec fn cask_links(caskroom: Seq<char>, cask: CaskView) -> Seq<BinaryLinkView> {
    let links = artifact_links(caskroom, cask.artifacts);
    match cask.binary {
        Some(path) => links.push(
            BinaryLinkView { source: path_joined(caskroom, path), expected: false },
        ),
        None => links,
    }
}

/// What is to be installed for a cask with the given name.
pub open spec fn cask_install_of(
    store_root: Seq<char>,
    cask_name: Seq<char>,
    cask: CaskView,
) -> CaskInstallView {
    let caskroom = caskroom_in(store_root, cask_name, cask.version);
    CaskInstallView {
        title: cask.name,
        request: RequestView { url: cask.url, sha256: cask.sha256, name: cask_name },
        caskroom,
        links: cask_links(caskroom, cask),
    }
}

/// What is to be installed for a cask that may have been read.
pub open spec fn prepared(
    store_root: Seq<char>,
    cask_name: Seq<char>,
    cask: Result<CaskView, CaskErrorView>,
) -> Result<CaskInstallView, ErrorView> {
    match cask {
        Ok(c) => Ok(cask_install_of(store_root, cask_name, c)),
        Err(e) => Err(ErrorView::FormulaParseError { message: cask_error_words(e) }),
    }
}

/// The model of what may be installed.
pub open spec fn install_result(r: Result<CaskInstall, Error>) -> Result<
    CaskInstallView,
    ErrorView,
> {
    match r {
        Ok(install) => Ok(install@),
        Err(e) => Err(e@),
    }
}

/// What is reported of a cask at a stage.
pub open spec fn stage_reports(title: Seq<char>, stage: CaskStage) -> Seq<ProgressView> {
    match stage {
        CaskStage::Stored => seq![ProgressView::UnpackStarted { name: title }],
        CaskStage::Placed => seq![
            ProgressView::UnpackCompleted { name: title },
            ProgressView::LinkStarted { name: title },
        ],
        CaskStage::Linked => seq![
            ProgressView::LinkCompleted { name: title },
            ProgressView::InstallCompleted { name: title },
        ],
    }
}

/// What is to be done for a program, whose source is shown as `shown`: one that is
/// there is linked under its own name.
pub open spec fn link_step(
    link: BinaryLinkView,
    prefix: Seq<char>,
    exists: bool,
    shown: Seq<char>,
) -> LinkStepView {
    if exists {
        LinkStepView::Link(
            path_joined(path_joined(prefix, "bin"@), file_name_of(link.source)->0),
        )
    } else if link.expected {
        LinkStepView::Warn("Warning: Binary "@ + shown + " not found"@)
    } else {
        LinkStepView::Skip
    }
}

impl Installer {
    /// What is to be installed for a cask, where its file has been read for the
    /// machine's platform.
    pub fn install_cask(&self, cask_name: &str, content: &str, platform: &str) -> (r: Result<
        CaskInstall,
        Error,
    >)
        ensures
            exists|cask: Result<CaskView, CaskErrorView>| #[trigger]
                may_be_cask(content@, platform@, cask) && install_result(r) == prepared(
                    self.store_root@,
                    cask_name@,
                    cask,
                ),
            is_ascii_chars(content@) ==> install_result(r) == prepared(
                self.store_root@,
                cask_name@,
                cask_read(ruby::syntax_of(content@), platform@),
            ),
    {
        let parsed = Cask::parse(content, platform);
        assert(may_be_cask(content@, platform@, cask_result(parsed)));
        self.prepare_cask(cask_name, parsed)
    }

    /// What is to be installed for a cask, where it could be parsed.
    pub fn prepare_cask(&self, cask_name: &str, parsed: Result<Cask, CaskError>) -> (r: Result<
        CaskInstall,
        Error,
    >)
        ensures
            install_result(r) == prepared(self.store_root@, cask_name@, cask_result(parsed)),
    {
        let cask = match parsed {
            Ok(cask) => cask,
            Err(e) => return Err(Error::FormulaParseError { message: e.message() }),
        };
        let rooms = join(self.store_root.as_str(), "Caskroom");
        let own = join(rooms.as_str(), cask_name);
        let caskroom = join(own.as_str(), cask.version.as_str());
        let mut links: Vec<BinaryLink> = Vec::new();
        let ghost artifacts = cask@.artifacts;
        let mut i: usize = 0;
        proof {
            assert(binary_views(links@) =~= artifact_links(caskroom@, artifacts.take(0)));
        }
        while i < cask.artifacts.len()
            invariant
                i <= cask.artifacts@.len(),
                artifacts == cask@.artifacts,
                binary_views(links@) == artifact_links(caskroom@, artifacts.take(i as int)),
            decreases cask.artifacts.len() - i,
        {
            let ghost held = binary_views(links@);
            proof {
                assert(artifacts.take(i + 1).drop_last() =~= artifacts.take(i as int));
                assert(artifacts.take(i + 1).last() == cask.artifacts@[i as int]@);
            }
            if let Artifact::Binary(path) = &cask.artifacts[i] {
                let source = join(caskroom.as_str(), path.as_str());
                let link = BinaryLink { source, expected: true };
                links.push(link);
                proof {
                    assert(binary_views(links@) =~= held.push(link@));
                }
            }
            i = i + 1;
        }
        proof {
            assert(artifacts.take(i as int) =~= artifacts);
        }
        if let Some(path) = &cask.binary {
            let ghost held = binary_views(links@);
            let source = join(caskroom.as_str(), path.as_str());
            let link = BinaryLink { source, expected: false };
            links.push(link);
            proof {
                assert(binary_views(links@) =~= held.push(link@));
            }
        }
        let request = DownloadRequest {
            url: cask.url,
            sha256: cask.sha256,
            name: cask_name.to_owned(),
        };
        Ok(CaskInstall { title: cask.name, request, caskroom, links })
    }
}

impl CaskInstall {
    /// What is reported at a stage.
    pub fn reports(&self, stage: CaskStage) -> (r: Vec<InstallProgress>)
        ensures
            report_views(r@) == stage_reports(self.title@, stage),
    {
        let mut reports: Vec<InstallProgress> = Vec::new();
        match stage {
            CaskStage::Stored => {
                reports.push(InstallProgress::UnpackStarted { name: self.title.clone() });
            },
            CaskStage::Placed => {
                reports.push(InstallProgress::UnpackCompleted { name: self.title.clone() });
                reports.push(InstallProgress::LinkStarted { name: self.title.clone() });
            },
            CaskStage::Linked => {
                reports.push(InstallProgress::LinkCompleted { name: self.title.clone() });
                reports.push(InstallProgress::InstallCompleted { name: self.title.clone() });
            },
        }
        proof {
            assert(report_views(reports@) =~= stage_reports(self.title@, stage));
        }
        reports
    }
}

impl BinaryLink {
    /// What is to be done for the program under `prefix`, where `exists` says whether
    /// it is there and `shown` is how its source is shown.
    pub fn step(&self, prefix: &str, exists: bool, shown: &str) -> (r: LinkStep)
        requires
            exists ==> file_name_of(self.source@) is Some,
        ensures
            r@ == link_step(self@, prefix@, exists, shown@),
            exists ==> r is Link && r->Link_0@ == path_joined(
                path_joined(prefix@, "bin"@),
                file_name_of(self.source@)->0,
            ),
            !exists && self.expected ==> r is Warn && r->Warn_0@ == "Warning: Binary "@ + shown@
                + " not found"@,
            !exists && !self.expected ==> r is Skip,
    {
        if exists {
            match file_name(self.source.as_str()) {
                Some(name) => {
                    let bin = join(prefix, "bin");
                    LinkStep::Link(join(bin.as_str(), name.as_str()))
                },
                None => LinkStep::Skip,
            }
        } else if self.expected {
            LinkStep::Warn("Warning: Binary ".to_owned().concat(shown).concat(" not found"))
        } else {
            LinkStep::Skip
        }
    }
}

impl CaskFailure {
    /// The error for a failure, with its reason.
    pub fn error(&self, why: &str) -> (r: Error)
        ensures
            r@ == (ErrorView::StoreCorruption {
                message: match *self {
                    CaskFailure::Read(shown) => "Failed to read cask file "@ + shown@ + ": "@,
                    CaskFailure::RemoveOld => "Failed to remove existing caskroom dir: "@,
                    CaskFailure::MakeParent => "Failed to create caskroom parent: "@,
                    CaskFailure::LinkStore => "Failed to symlink store entry to caskroom: "@,
                    CaskFailure::LinkBinary => "Failed to symlink binary: "@,
                } + why@,
            }),
    {
        let start = match self {
            CaskFailure::Read(shown) => "Failed to read cask file ".to_owned().concat(
                shown.as_str(),
            ).concat(": "),
            CaskFailure::RemoveOld => "Failed to remove existing caskroom dir: ".to_owned(),
            CaskFailure::MakeParent => "Failed to create caskroom parent: ".to_owned(),
            CaskFailure::LinkStore => "Failed to symlink store entry to caskroom: ".to_owned(),
            CaskFailure::LinkBinary => "Failed to symlink binary: ".to_owned(),
        };
        Error::StoreCorruption { message: start.concat(why) }
    }
}

/// A program in the directory of the installation is looked for in the directory of
/// its cask.
pub proof fn law_staged_binary_is_in_caskroom(
    caskroom: Seq<char>,
    rest: Seq<char>,
    version: Option<Seq<char>>,
    arch: Seq<char>,
)
    ensures
        caskroom.is_prefix_of(
            path_joined(caskroom, interpolated("#{staged_path}"@ + rest, version, arch)),
        ),
{
    law_staged_path_is_relative(rest, version, arch);
}

/// What a cask gets in a directory lies there at the place where it lies without one.
pub proof fn law_caskroom_is_relative(
    store_root: Seq<char>,
    cask_name: Seq<char>,
    version: Seq<char>,
    path: Seq<char>,
)
    ensures
        caskroom_in(store_root, cask_name, version) == path_joined(
            store_root,
            caskroom_in(Seq::empty(), cask_name, version),
        ),
        path_joined(caskroom_in(store_root, cask_name, version), path) == path_joined(
            store_root,
            path_joined(caskroom_in(Seq::empty(), cask_name, version), path),
        ),
{
    let rooms = "Caskroom"@;
    let own = path_joined(rooms, cask_name);
    crate::path::law_join_to_nothing(rooms);
    crate::path::law_join_is_associative(store_root, rooms, cask_name);
    crate::path::law_join_is_associative(store_root, own, version);
    crate::path::law_join_is_associative(store_root, path_joined(own, version), path);
}

/// The programs of a cask are its artifacts that are programs, in their order, each in the
/// directory of the cask and missed where it is not there; and then its single program,
/// which is not missed.
pub proof fn law_programs_are_linked(caskroom: Seq<char>, cask: CaskView)
    ensures
        cask_links(caskroom, cask) == cask.artifacts.filter_map(
            |a: ArtifactView|
                match a {
                    ArtifactView::Binary(path) => Some(
                        BinaryLinkView { source: path_joined(caskroom, path), expected: true },
                    ),
                    _ => None,
                },
        ) + (match cask.binary {
            Some(path) => seq![
                BinaryLinkView { source: path_joined(caskroom, path), expected: false },
            ],
            None => Seq::empty(),
        }),
{
    let f = |a: ArtifactView|
        match a {
            ArtifactView::Binary(path) => Some(
                BinaryLinkView { source: path_joined(caskroom, path), expected: true },
            ),
            _ => None,
        };
    lemma_artifact_links(caskroom, cask.artifacts);
    assert(cask_links(caskroom, cask) =~= cask.artifacts.filter_map(f) + (match cask.binary {
        Some(path) => seq![
            BinaryLinkView { source: path_joined(caskroom, path), expected: false },
        ],
        None => Seq::empty(),
    }));
}

proof fn lemma_artifact_links(caskroom: Seq<char>, artifacts: Seq<ArtifactView>)
    ensures
        artifact_links(caskroom, artifacts) == artifacts.filter_map(
            |a: ArtifactView|
                match a {
                    ArtifactView::Binary(path) => Some(
                        BinaryLinkView { source: path_joined(caskroom, path), expected: true },
                    ),
                    _ => None,
                },
        ),
    decreases artifacts.len(),
{
    if artifacts.len() > 0 {
        lemma_artifact_links(caskroom, artifacts.drop_last());
    }
}

/// What is installed for a cask goes by the cask's own title, address and hash, under the
/// name by which it was asked for, in a directory of its version.
pub proof fn law_cask_is_installed(store_root: Seq<char>, cask_name: Seq<char>, cask: CaskView)
    ensures
        ({
            let r = prepared(store_root, cask_name, Ok(cask));
            let room = path_joined(
                path_joined(path_joined(store_root, "Caskroom"@), cask_name),
                cask.version,
            );
            &&& r is Ok
            &&& r->Ok_0.title == cask.name
            &&& r->Ok_0.request.url == cask.url
            &&& r->Ok_0.request.sha256 == cask.sha256
            &&& r->Ok_0.request.name == cask_name
            &&& r->Ok_0.caskroom == room
            &&& r->Ok_0.links == cask_links(room, cask)
        }),
{
}

/// A cask that could not be read is not installed, and its error is told in words.
pub proof fn law_unread_cask_is_refused(store_root: Seq<char>, cask_name: Seq<char>, s: Seq<char>)
    ensures
        prepared(store_root, cask_name, Err(CaskErrorView::ParseError(s))) == Err::<
            CaskInstallView,
            ErrorView,
        >(ErrorView::FormulaParseError { message: "Failed to parse cask: "@ + s }),
        prepared(store_root, cask_name, Err(CaskErrorView::MissingField(s))) == Err::<
            CaskInstallView,
            ErrorView,
        >(ErrorView::FormulaParseError { message: "Missing required field: "@ + s }),
{
}

/// All that is reported of a cask, stage by stage.
pub proof fn law_cask_reports(title: Seq<char>)
    ensures
        stage_reports(title, CaskStage::Stored) == seq![
            ProgressView::UnpackStarted { name: title },
        ],
        stage_reports(title, CaskStage::Placed) == seq![
            ProgressView::UnpackCompleted { name: title },
            ProgressView::LinkStarted { name: title },
        ],
        stage_reports(title, CaskStage::Linked) == seq![
            ProgressView::LinkCompleted { name: title },
            ProgressView::InstallCompleted { name: title },
        ],
{
}

/// A program that is there is linked under its own name, whether or not it would be missed.
/// One that is not there is warned of if and only if it is missed.
pub proof fn law_program_is_linked_by_name(
    dir: Seq<char>,
    name: Seq<char>,
    expected: bool,
    prefix: Seq<char>,
    shown: Seq<char>,
)
    requires
        name.len() > 0,
        !name.contains('/'),
        name != "."@,
        name != ".."@,
    ensures
        ({
            let link = BinaryLinkView { source: dir + seq!['/'] + name, expected };
            &&& link_step(link, prefix, true, shown) == LinkStepView::Link(
                path_joined(path_joined(prefix, "bin"@), name),
            )
            &&& expected ==> link_step(link, prefix, false, shown) == LinkStepView::Warn(
                "Warning: Binary "@ + shown + " not found"@,
            )
            &&& !expected ==> link_step(link, prefix, false, shown) == LinkStepView::Skip
        }),
{
    crate::path::law_name_stands_last(dir, name);
}

/// The models of what is installed hold what the values hold.
pub proof fn law_cask_install_models(
    install: CaskInstall,
    link: BinaryLink,
    step: LinkStep,
    e: Error,
)
    ensures
        install_result(Ok(install)) == Ok::<CaskInstallView, ErrorView>(install@),
        install_result(Err(e)) == Err::<CaskInstallView, ErrorView>(e@),
        install@.title == install.title@,
        install@.request == install.request@,
        install@.caskroom == install.caskroom@,
        install@.links.len() == install.links@.len(),
        forall|i: int|
            0 <= i < install.links@.len() ==> #[trigger] install@.links[i] == install.links@[i]@,
        link@.source == link.source@,
        link@.expected == link.expected,
        match step {
            LinkStep::Skip => step@ == LinkStepView::Skip,
            LinkStep::Warn(s) => step@ == LinkStepView::Warn(s@),
            LinkStep::Link(s) => step@ == LinkStepView::Link(s@),
        },
{
}

} // verus!
