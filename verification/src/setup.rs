//! Setting up an installer: which directories are made and which parts are opened.
use crate::error::{Error, ErrorView};
use crate::path::{join, path_joined};
use vstd::prelude::*;
use vstd::string::*;

verus! {

/// A step of setting up an installer, with the path that it is about where that is
/// not the root or the prefix itself.
pub enum SetupStep {
    /// Make the root directory.
    Root,
    /// Make the directory of the database.
    DbDir(String),
    /// Open the cache of downloads.
    Cache(String),
    /// Open the store in the root directory.
    Store,
    /// Open the cellar.
    Cellar(String),
    /// Open the linker for the prefix.
    Linker,
    /// Open the database.
    Database(String),
}

/// Model of a [`SetupStep`].
pub enum SetupView {
    Root,
    DbDir(Seq<char>),
    Cache(Seq<char>),
    Store,
    Cellar(Seq<char>),
    Linker,
    Database(Seq<char>),
}

impl SetupStep {
    pub open spec fn view(&self) -> SetupView {
        match self {
            SetupStep::Root => SetupView::Root,
            SetupStep::DbDir(p) => SetupView::DbDir(p@),
            SetupStep::Cache(p) => SetupView::Cache(p@),
            SetupStep::Store => SetupView::Store,
            SetupStep::Cellar(p) => SetupView::Cellar(p@),
            SetupStep::Linker => SetupView::Linker,
            SetupStep::Database(p) => SetupView::Database(p@),
        }
    }
}

/// Some steps, as models.
pub open spec fn setup_views(steps: Seq<SetupStep>) -> Seq<SetupView> {
    steps.map_values(|s: SetupStep| s@)
}

/// Why a step failed.
pub enum SetupFailure {
    /// The user may not do it.
    Denied,
    /// Another reason.
    Other(String),
    /// The part itself says why.
    Own(Error),
}

/// The steps that every set-up takes, in order.
pub open spec fn common_steps(root: Seq<char>, prefix: Seq<char>) -> Seq<SetupView> {
    seq![
        SetupView::DbDir(path_joined(root, "db"@)),
        SetupView::Cache(path_joined(root, "cache"@)),
        SetupView::Store,
        SetupView::Cellar(path_joined(prefix, "Cellar"@)),
        SetupView::Linker,
        SetupView::Database(path_joined(root, "db/zb.sqlite3"@)),
    ]
}

/// The steps of setting up an installer: the root directory is made where it is not
/// there.
pub open spec fn setup_steps(root: Seq<char>, prefix: Seq<char>, root_exists: bool) -> Seq<
    SetupView,
> {
    if root_exists {
        common_steps(root, prefix)
    } else {
        seq![SetupView::Root] + common_steps(root, prefix)
    }
}

/// The steps of setting up an installer, in order.
pub fn create_installer(root: &str, prefix: &str, root_exists: bool) -> (r: Vec<SetupStep>)
    ensures
        setup_views(r@) == setup_steps(root@, prefix@, root_exists),
        root_exists ==> r@.len() == 6,
        !root_exists ==> r@.len() == 7 && r@[0] is Root,
        ({
            let at: int = if root_exists {
                0
            } else {
                1
            };
            &&& r@[at] is DbDir && r@[at]->DbDir_0@ == path_joined(root@, "db"@)
            &&& r@[at + 1] is Cache && r@[at + 1]->Cache_0@ == path_joined(root@, "cache"@)
            &&& r@[at + 2] is Store
            &&& r@[at + 3] is Cellar && r@[at + 3]->Cellar_0@ == path_joined(prefix@, "Cellar"@)
            &&& r@[at + 4] is Linker
            &&& r@[at + 5] is Database && r@[at + 5]->Database_0@ == path_joined(
                root@,
                "db/zb.sqlite3"@,
            )
        }),
{
    let mut steps: Vec<SetupStep> = Vec::new();
    if !root_exists {
        steps.push(SetupStep::Root);
    }
    steps.push(SetupStep::DbDir(join(root, "db")));
    steps.push(SetupStep::Cache(join(root, "cache")));
    steps.push(SetupStep::Store);
    // Bottles hold paths that lead to the cellar under the prefix.
    steps.push(SetupStep::Cellar(join(prefix, "Cellar")));
    steps.push(SetupStep::Linker);
    steps.push(SetupStep::Database(join(root, "db/zb.sqlite3")));
    proof {
        assert(setup_views(steps@) =~= setup_steps(root@, prefix@, root_exists));
    }
    steps
}

/// What is said where the root directory, which is shown as `root`, may not be made.
pub open spec fn denied_message(root: Seq<char>) -> Seq<char> {
    "cannot create root directory '"@ + root
        + "': permission denied.\n\nCreate it with:\n  sudo mkdir -p "@ + root
        + " && sudo chown $USER "@ + root
}

/// What is said before the reason for which a step failed, where the root directory
/// is shown as `root`.
pub open spec fn step_message(step: SetupView, root: Seq<char>) -> Seq<char> {
    match step {
        SetupView::Root => "failed to create root directory '"@ + root + "': "@,
        SetupView::DbDir(_) => "failed to create db directory: "@,
        SetupView::Cache(_) => "failed to create blob cache: "@,
        SetupView::Store => "failed to create store: "@,
        SetupView::Cellar(_) => "failed to create cellar: "@,
        SetupView::Linker => "failed to create linker: "@,
        SetupView::Database(_) => Seq::empty(),
    }
}

impl SetupStep {
    fn prelude(&self, root: &str) -> (r: String)
        ensures
            r@ == step_message(self@, root@),
    {
        match self {
            SetupStep::Root => "failed to create root directory '".to_owned().concat(root).concat(
                "': ",
            ),
            SetupStep::DbDir(_) => "failed to create db directory: ".to_owned(),
            SetupStep::Cache(_) => "failed to create blob cache: ".to_owned(),
            SetupStep::Store => "failed to create store: ".to_owned(),
            SetupStep::Cellar(_) => "failed to create cellar: ".to_owned(),
            SetupStep::Linker => "failed to create linker: ".to_owned(),
            SetupStep::Database(_) => {
                proof {
                    reveal_strlit("");
                    assert(""@ =~= Seq::empty());
                }
                "".to_owned()
            },
        }
    }

    /// The error for a step that failed, where the root directory is shown as `root`.
    /// Only the root directory is reported as denied, and only the database says
    /// itself why it failed.
    pub fn error(&self, root: &str, failure: SetupFailure) -> (r: Error)
        requires
            failure is Denied ==> self@ is Root,
            failure is Own <==> self@ is Database,
        ensures
            match failure {
                SetupFailure::Denied => r@ == (ErrorView::StoreCorruption {
                    message: denied_message(root@),
                }),
                SetupFailure::Other(why) => r@ == (ErrorView::StoreCorruption {
                    message: step_message(self@, root@) + why@,
                }),
                SetupFailure::Own(e) => r@ == e@,
            },
            failure is Denied ==> r@ == (ErrorView::StoreCorruption {
                message: "cannot create root directory '"@ + root@
                    + "': permission denied.\n\nCreate it with:\n  sudo mkdir -p "@ + root@
                    + " && sudo chown $USER "@ + root@,
            }),
            failure is Other ==> r@ == (ErrorView::StoreCorruption {
                message: (match *self {
                    SetupStep::Root => "failed to create root directory '"@ + root@ + "': "@,
                    SetupStep::DbDir(_) => "failed to create db directory: "@,
                    SetupStep::Cache(_) => "failed to create blob cache: "@,
                    SetupStep::Store => "failed to create store: "@,
                    SetupStep::Cellar(_) => "failed to create cellar: "@,
                    SetupStep::Linker => "failed to create linker: "@,
                    SetupStep::Database(_) => Seq::empty(),
                }) + failure->Other_0@,
            }),
    {
        match failure {
            SetupFailure::Denied => Error::StoreCorruption {
                message: "cannot create root directory '".to_owned().concat(root).concat(
                    "': permission denied.\n\nCreate it with:\n  sudo mkdir -p ",
                ).concat(root).concat(" && sudo chown $USER ").concat(root),
            },
            SetupFailure::Other(why) => Error::StoreCorruption {
                message: self.prelude(root).concat(why.as_str()),
            },
            SetupFailure::Own(e) => e,
        }
    }
}

} // verus!
