//! Taps: repositories of formulas and casks, and where they are kept.
use crate::error::{Error, ErrorView};
use crate::path::{join, path_joined};
use crate::text::{
    after, before, law_parts_are_found, split_once, stands_at, starts_with,
};
use vstd::prelude::*;
use vstd::string::*;

verus! {

/// The taps under the directory `root`.
pub struct TapManager {
    root: String,
}

/// A tap to clone.
pub struct TapClone {
    pub url: String,
    pub dir: String,
    pub notice: String,
}

/// What is to be done for a tap.
pub enum TapStep {
    /// It is there, in this directory.
    Ready(String),
    /// It is to be cloned.
    Clone(TapClone),
}

/// What became of cloning a tap.
pub enum CloneOutcome {
    /// The directory for it could not be made.
    NoDirectory(String),
    /// Git could not be run.
    NoGit(String),
    /// Git has run, with success or without.
    Exited(bool),
}

/// Where a cask is expected.
pub struct CaskLocation {
    pub user: String,
    pub repo: String,
    pub cask_name: String,
    pub path: String,
}

/// The full name of a repository: with the prefix of all taps.
pub open spec fn repo_name(repo: Seq<char>) -> Seq<char> {
    if stands_at(repo, "homebrew-"@, 0) {
        repo
    } else {
        "homebrew-"@ + repo
    }
}

/// The directory of the taps under `root`.
pub open spec fn taps_dir_in(root: Seq<char>) -> Seq<char> {
    path_joined(root, "Library/Taps"@)
}

/// The directory of a tap under `root`.
pub open spec fn tap_dir_in(root: Seq<char>, user: Seq<char>, repo: Seq<char>) -> Seq<char> {
    path_joined(path_joined(taps_dir_in(root), user), repo_name(repo))
}

/// The address from which a tap is cloned.
pub open spec fn clone_url(user: Seq<char>, repo: Seq<char>) -> Seq<char> {
    "https://github.com/"@ + user + "/"@ + repo_name(repo) + ".git"@
}

/// The name of a cask in a tap: the user, the repository and the cask.
pub open spec fn tapped_cask(name: Seq<char>) -> Option<(Seq<char>, Seq<char>, Seq<char>)> {
    if name.contains('/') && after(name, '/').contains('/') {
        Some(
            (before(name, '/'), before(after(name, '/'), '/'), after(after(name, '/'), '/')),
        )
    } else {
        None
    }
}

/// The file of a cask in a tap under `root`.
pub open spec fn cask_path_in(
    root: Seq<char>,
    user: Seq<char>,
    repo: Seq<char>,
    cask: Seq<char>,
) -> Seq<char> {
    path_joined(path_joined(tap_dir_in(root, user, repo), "Casks"@), cask + ".rb"@)
}

/// A repository may be named with or without the prefix of all taps.
pub proof fn law_prefix_is_optional(root: Seq<char>, user: Seq<char>, repo: Seq<char>)
    requires
        !stands_at(repo, "homebrew-"@, 0),
    ensures
        tap_dir_in(root, user, "homebrew-"@ + repo) == tap_dir_in(root, user, repo),
        clone_url(user, "homebrew-"@ + repo) == clone_url(user, repo),
{
    let full = "homebrew-"@ + repo;
    assert(full.subrange(0, "homebrew-"@.len() as int) =~= "homebrew-"@);
    assert(stands_at(full, "homebrew-"@, 0));
}

/// What lies under a directory lies in that directory at the place where it
/// lies without one.
pub proof fn law_layout_is_relative(
    root: Seq<char>,
    user: Seq<char>,
    repo: Seq<char>,
    cask: Seq<char>,
)
    ensures
        taps_dir_in(root) == path_joined(root, taps_dir_in(Seq::empty())),
        tap_dir_in(root, user, repo) == path_joined(root, tap_dir_in(Seq::empty(), user, repo)),
        cask_path_in(root, user, repo, cask) == path_joined(
            root,
            cask_path_in(Seq::empty(), user, repo, cask),
        ),
{
    let none = Seq::<char>::empty();
    let taps = "Library/Taps"@;
    crate::path::law_join_to_nothing(taps);
    crate::path::law_join_is_associative(root, taps, user);
    crate::path::law_join_is_associative(root, path_joined(taps, user), repo_name(repo));
    crate::path::law_join_is_associative(root, tap_dir_in(none, user, repo), "Casks"@);
    crate::path::law_join_is_associative(
        root,
        path_joined(tap_dir_in(none, user, repo), "Casks"@),
        cask + ".rb"@,
    );
}

impl TapManager {
    /// The directory under which the taps are.
    pub closed spec fn view(&self) -> Seq<char> {
        self.root@
    }

    /// The taps under the directory `root`.
    pub fn new(root: String) -> (r: Self)
        ensures
            r@ == root@,
    {
        Self { root }
    }

    /// The directory of the taps.
    pub fn taps_dir(&self) -> (r: String)
        ensures
            r@ == taps_dir_in(self@),
            r@ == path_joined(self@, "Library/Taps"@),
    {
        join(self.root.as_str(), "Library/Taps")
    }

    /// The directory of a tap.
    pub fn tap_dir(&self, user: &str, repo: &str) -> (r: String)
        ensures
            r@ == tap_dir_in(self@, user@, repo@),
            r@ == path_joined(
                path_joined(path_joined(self@, "Library/Taps"@), user@),
                repo_name(repo@),
            ),
    {
        let dir = join(self.taps_dir().as_str(), user);
        join(dir.as_str(), full_repo_name(repo).as_str())
    }

    /// What is to be done for a tap, where `installed` says whether its directory
    /// is there: one that is there is taken as it is.
    pub fn ensure_tap(&self, user: &str, repo: &str, installed: bool) -> (r: TapStep)
        ensures
            match r {
                TapStep::Ready(dir) => installed && dir@ == tap_dir_in(self@, user@, repo@),
                TapStep::Clone(c) => {
                    &&& !installed
                    &&& c.dir@ == tap_dir_in(self@, user@, repo@)
                    &&& c.url@ == clone_url(user@, repo@)
                    &&& c.url@ == "https://github.com/"@ + user@ + "/"@ + repo_name(repo@)
                        + ".git"@
                    &&& c.notice@ == "==> Tapping "@ + user@ + "/"@ + repo@ + "..."@
                },
            },
    {
        let dir = self.tap_dir(user, repo);
        if installed {
            return TapStep::Ready(dir);
        }
        let name = full_repo_name(repo);
        let url = "https://github.com/".to_owned().concat(user).concat("/").concat(
            name.as_str(),
        ).concat(".git");
        let notice = "==> Tapping ".to_owned().concat(user).concat("/").concat(repo).concat("...");
        TapStep::Clone(TapClone { url, dir, notice })
    }

    /// Where a cask is expected: its name is that of the user, of the repository
    /// and of the cask, with slashes between them. There is no other cask.
    pub fn resolve_cask(&self, name: &str) -> (r: Result<CaskLocation, Error>)
        ensures
            match (tapped_cask(name@), r) {
                (Some((user, repo, cask)), Ok(l)) => {
                    &&& l.user@ == user
                    &&& l.repo@ == repo
                    &&& l.cask_name@ == cask
                    &&& l.path@ == cask_path_in(self@, user, repo, cask)
                    &&& l.path@ == path_joined(
                        path_joined(tap_dir_in(self@, user, repo), "Casks"@),
                        cask + ".rb"@,
                    )
                },
                (None, Err(e)) => e@ == (ErrorView::MissingFormula { name: name@ }),
                _ => false,
            },
    {
        if let Some((user, rest)) = split_once(name, '/') {
            if let Some((repo, cask_name)) = split_once(rest.as_str(), '/') {
                let tap_dir = self.tap_dir(user.as_str(), repo.as_str());
                let casks = join(tap_dir.as_str(), "Casks");
                let file = cask_name.clone().concat(".rb");
                let path = join(casks.as_str(), file.as_str());
                return Ok(CaskLocation { user, repo, cask_name, path });
            }
        }
        Err(Error::MissingFormula { name: name.to_owned() })
    }
}

impl TapClone {
    /// What comes of cloning: the directory of the tap, or why there is none.
    pub fn finish(self, outcome: CloneOutcome) -> (r: Result<String, Error>)
        ensures
            match (outcome, r) {
                (CloneOutcome::Exited(true), Ok(dir)) => dir@ == self.dir@,
                (CloneOutcome::Exited(false), Err(e)) => e@ == (ErrorView::NetworkFailure {
                    message: "Failed to clone tap "@ + self.url@,
                }),
                (CloneOutcome::NoDirectory(why), Err(e)) => e@ == (ErrorView::StoreCorruption {
                    message: "Failed to create tap dir: "@ + why@,
                }),
                (CloneOutcome::NoGit(why), Err(e)) => e@ == (ErrorView::NetworkFailure {
                    message: "Failed to run git: "@ + why@,
                }),
                _ => false,
            },
    {
        match outcome {
            CloneOutcome::Exited(true) => Ok(self.dir),
            CloneOutcome::Exited(false) => Err(
                Error::NetworkFailure {
                    message: "Failed to clone tap ".to_owned().concat(self.url.as_str()),
                },
            ),
            CloneOutcome::NoDirectory(why) => Err(
                Error::StoreCorruption {
                    message: "Failed to create tap dir: ".to_owned().concat(why.as_str()),
                },
            ),
            CloneOutcome::NoGit(why) => Err(
                Error::NetworkFailure {
                    message: "Failed to run git: ".to_owned().concat(why.as_str()),
                },
            ),
        }
    }
}

impl CaskLocation {
    /// The file and the name of the cask `name`, where its file is there.
    pub fn found(self, name: &str, exists: bool) -> (r: Result<(String, String), Error>)
        ensures
            match r {
                Ok((path, cask)) => exists && path@ == self.path@ && cask@ == self.cask_name@,
                Err(e) => !exists && e@ == (ErrorView::MissingFormula { name: name@ }),
            },
    {
        if exists {
            Ok((self.path, self.cask_name))
        } else {
            Err(Error::MissingFormula { name: name.to_owned() })
        }
    }
}

/// The full name of a repository.
fn full_repo_name(repo: &str) -> (r: String)
    ensures
        r@ == repo_name(repo@),
{
    if starts_with(repo, "homebrew-") {
        repo.to_owned()
    } else {
        "homebrew-".to_owned().concat(repo)
    }
}

/// The full name of a repository has the prefix of all taps, and is what was given, or the
/// prefix and what was given.
pub proof fn law_full_name_has_prefix(repo: Seq<char>)
    ensures
        repo_name("homebrew-"@ + repo) == "homebrew-"@ + repo,
        stands_at(repo_name(repo), "homebrew-"@, 0),
        repo_name(repo) == repo || repo_name(repo) == "homebrew-"@ + repo,
{
    let full = "homebrew-"@ + repo;
    assert(full.subrange(0, "homebrew-"@.len() as int) =~= "homebrew-"@);
    assert(stands_at(full, "homebrew-"@, 0));
}

/// The name of a cask in a tap holds the user, the repository and the cask, with slashes
/// between them; slashes that follow belong to the cask. A name with fewer slashes is not
/// that of a cask in a tap.
pub proof fn law_tapped_cask_has_three_parts(user: Seq<char>, repo: Seq<char>, cask: Seq<char>)
    requires
        !user.contains('/'),
        !repo.contains('/'),
    ensures
        tapped_cask(user + seq!['/'] + (repo + seq!['/'] + cask)) == Some((user, repo, cask)),
        tapped_cask(user + seq!['/'] + repo) is None,
        tapped_cask(user) is None,
{
    let rest = repo + seq!['/'] + cask;
    let name = user + seq!['/'] + rest;
    let short = user + seq!['/'] + repo;
    law_parts_are_found(user, '/', rest);
    law_parts_are_found(repo, '/', cask);
    law_parts_are_found(user, '/', repo);
    assert(name[user.len() as int] == '/');
    assert(rest[repo.len() as int] == '/');
}

/// A tap lies under the user's name in the directory of the taps, and a cask with its own
/// name in the directory of the casks of its tap.
pub proof fn law_tap_layout(root: Seq<char>, user: Seq<char>, repo: Seq<char>, cask: Seq<char>)
    requires
        root.len() > 0 && root[root.len() - 1] != '/',
        user.len() > 0 && user[0] != '/' && user[user.len() - 1] != '/',
        repo.len() > 0 && repo[0] != '/' && repo[repo.len() - 1] != '/',
        cask.len() > 0 && cask[0] != '/',
    ensures
        taps_dir_in(root) == root + "/Library/Taps"@,
        tap_dir_in(root, user, repo) == root + "/Library/Taps"@ + seq!['/'] + user + seq!['/']
            + repo_name(repo),
        cask_path_in(root, user, repo, cask) == tap_dir_in(root, user, repo) + "/Casks"@ + seq![
            '/',
        ] + cask + ".rb"@,
        clone_url(user, repo) == "https://github.com/"@ + user + seq!['/'] + repo_name(repo)
            + ".git"@,
{
    reveal_strlit("/");
    reveal_strlit("homebrew-");
    reveal_strlit("Library/Taps");
    reveal_strlit("/Library/Taps");
    reveal_strlit("Casks");
    reveal_strlit("/Casks");
    reveal_strlit(".rb");
    assert("/"@ =~= seq!['/']);
    assert("/Library/Taps"@ =~= seq!['/'] + "Library/Taps"@);
    assert("/Casks"@ =~= seq!['/'] + "Casks"@);
    law_full_name_has_prefix(repo);
    assert(taps_dir_in(root) =~= root + "/Library/Taps"@);
    let dir = path_joined(taps_dir_in(root), user);
    assert(dir =~= root + "/Library/Taps"@ + seq!['/'] + user);
    assert(dir.last() == user[user.len() - 1]);
    let full = repo_name(repo);
    assert(full[full.len() - 1] == repo[repo.len() - 1]);
    assert(full[0] != '/');
    let tap = tap_dir_in(root, user, repo);
    assert(tap =~= dir + seq!['/'] + full);
    assert(tap.last() == full[full.len() - 1]);
    let file = cask + ".rb"@;
    assert(file[0] == cask[0]);
    let casks = path_joined(tap, "Casks"@);
    assert(casks =~= tap + "/Casks"@);
    assert(casks.last() != '/');
    assert(cask_path_in(root, user, repo, cask) =~= tap + "/Casks"@ + seq!['/'] + cask + ".rb"@);
}

} // verus!
