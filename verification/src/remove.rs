//! Removing what was installed, and what nothing needs any more.
use crate::error::{Error, ErrorView};
use crate::install::Installer;
use crate::text::texts;
use vstd::prelude::*;
use vstd::string::*;

verus! {

/// What is to be done next to uninstall a package.
pub enum UninstallStep {
    /// Remove its links.
    Unlink { name: String, version: String },
    /// Remove its record.
    Record { name: String, version: String },
    /// Remove it from the cellar.
    RemoveKeg { name: String, version: String },
    /// Nothing: it is uninstalled.
    Done,
}

/// Model of an [`UninstallStep`].
pub enum UninstallView {
    Unlink { name: Seq<char>, version: Seq<char> },
    Record { name: Seq<char>, version: Seq<char> },
    RemoveKeg { name: Seq<char>, version: Seq<char> },
    Done,
}

impl UninstallStep {
    pub open spec fn view(&self) -> UninstallView {
        match self {
            UninstallStep::Unlink { name, version } => UninstallView::Unlink {
                name: name@,
                version: version@,
            },
            UninstallStep::Record { name, version } => UninstallView::Record {
                name: name@,
                version: version@,
            },
            UninstallStep::RemoveKeg { name, version } => UninstallView::RemoveKeg {
                name: name@,
                version: version@,
            },
            UninstallStep::Done => UninstallView::Done,
        }
    }

    /// What is to be done once a step was taken; the failure, where it failed.
    pub fn taken(self, result: Result<(), Error>) -> (r: Result<UninstallStep, Error>)
        ensures
            match (result, r) {
                (Ok(_), Ok(step)) => step@ == uninstall_after(self@),
                (Err(failure), Err(e)) => e@ == failure@,
                _ => false,
            },
    {
        match result {
            Err(e) => Err(e),
            Ok(_) => Ok(
                match self {
                    UninstallStep::Unlink { name, version } => UninstallStep::Record {
                        name,
                        version,
                    },
                    UninstallStep::Record { name, version } => UninstallStep::RemoveKeg {
                        name,
                        version,
                    },
                    UninstallStep::RemoveKeg { .. } => UninstallStep::Done,
                    UninstallStep::Done => UninstallStep::Done,
                },
            ),
        }
    }
}

/// What is to be done once a step was taken: the links go first, so that none is
/// left that leads nowhere, and the package itself goes last.
pub open spec fn uninstall_after(step: UninstallView) -> UninstallView {
    match step {
        UninstallView::Unlink { name, version } => UninstallView::Record { name, version },
        UninstallView::Record { name, version } => UninstallView::RemoveKeg { name, version },
        UninstallView::RemoveKeg { .. } => UninstallView::Done,
        UninstallView::Done => UninstallView::Done,
    }
}

/// The keys that nothing refers to, and how many of them were removed.
pub struct Collection {
    keys: Vec<String>,
    done: usize,
}

/// Model of a [`Collection`].
#[verifier::ext_equal]
pub struct CollectionView {
    pub keys: Seq<Seq<char>>,
    pub done: int,
}

impl Installer {
    /// What is to be done first to uninstall a package, where the version of it that
    /// is installed is given; that it is not installed, where none is.
    pub fn uninstall(&self, name: &str, installed: Option<String>) -> (r: Result<
        UninstallStep,
        Error,
    >)
        ensures
            match (installed, r) {
                (Some(version), Ok(step)) => step@ == (UninstallView::Unlink {
                    name: name@,
                    version: version@,
                }),
                (None, Err(e)) => e@ == (ErrorView::NotInstalled { name: name@ }),
                _ => false,
            },
    {
        match installed {
            Some(version) => Ok(UninstallStep::Unlink { name: name.to_owned(), version }),
            None => Err(Error::NotInstalled { name: name.to_owned() }),
        }
    }

    /// Starts to remove the keys that nothing refers to.
    pub fn gc(&self, unreferenced: Vec<String>) -> (r: Collection)
        ensures
            r@ == (CollectionView { keys: texts(unreferenced@), done: 0 }),
    {
        Collection { keys: unreferenced, done: 0 }
    }
}

impl Collection {
    pub closed spec fn view(&self) -> CollectionView {
        CollectionView { keys: texts(self.keys@), done: self.done as int }
    }

    #[verifier::type_invariant]
    spec fn within(self) -> bool {
        self.done <= self.keys@.len()
    }

    /// The key to remove now; none, once all are removed.
    pub fn next(&self) -> (r: Option<String>)
        ensures
            0 <= self@.done <= self@.keys.len(),
            match r {
                Some(key) => self@.done < self@.keys.len() && key@ == self@.keys[self@.done],
                None => self@.done == self@.keys.len(),
            },
    {
        proof {
            use_type_invariant(self);
        }
        if self.done < self.keys.len() {
            Some(self.keys[self.done].clone())
        } else {
            None
        }
    }

    /// The collection once that key was removed; the failure, where it was not.
    pub fn taken(self, result: Result<(), Error>) -> (r: Result<Self, Error>)
        requires
            self@.done < self@.keys.len(),
        ensures
            match (result, r) {
                (Ok(_), Ok(c)) => {
                    &&& c@ == one_collected(self@)
                    &&& c@.keys == self@.keys
                    &&& c@.done == self@.done + 1
                },
                (Err(failure), Err(e)) => e@ == failure@,
                _ => false,
            },
    {
        match result {
            Ok(_) => {
                assert(self.done < self.keys.len());
                let done: usize = self.done + 1;
                Ok(Collection { keys: self.keys, done })
            },
            Err(e) => Err(e),
        }
    }

    /// The keys that were removed, in order.
    pub fn finish(self) -> (r: Vec<String>)
        ensures
            texts(r@) == self@.keys.take(self@.done),
            r@.len() == self@.done,
            forall|i: int| 0 <= i < r@.len() ==> (#[trigger] r@[i])@ == self@.keys[i],
    {
        proof {
            use_type_invariant(&self);
        }
        let mut removed = self.keys;
        removed.truncate(self.done);
        proof {
            assert(texts(removed@) =~= self@.keys.take(self@.done));
        }
        removed
    }
}

/// The collection after one more key was removed.
pub open spec fn one_collected(c: CollectionView) -> CollectionView {
    CollectionView { done: c.done + 1, ..c }
}

/// The collection after a number of keys were removed.
pub open spec fn collected(c: CollectionView, count: nat) -> CollectionView
    decreases count,
{
    if count == 0 {
        c
    } else {
        one_collected(collected(c, (count - 1) as nat))
    }
}

/// Where nothing fails, exactly the keys that nothing refers to are removed.
pub proof fn law_all_unreferenced_are_removed(keys: Seq<Seq<char>>)
    ensures
        ({
            let c = collected(CollectionView { keys, done: 0 }, keys.len());
            c.done == keys.len() && c.keys.take(c.done) == keys
        }),
{
    lemma_collected(CollectionView { keys, done: 0 }, keys.len());
    assert(keys.take(keys.len() as int) =~= keys);
}

proof fn lemma_collected(c: CollectionView, count: nat)
    ensures
        collected(c, count).done == c.done + count,
        collected(c, count).keys == c.keys,
    decreases count,
{
    if count > 0 {
        lemma_collected(c, (count - 1) as nat);
    }
}

/// A package is uninstalled in three steps: its links, its record, itself.
pub proof fn law_uninstall_takes_three_steps(name: Seq<char>, version: Seq<char>)
    ensures
        ({
            let first = UninstallView::Unlink { name, version };
            let second = uninstall_after(first);
            let third = uninstall_after(second);
            &&& second == (UninstallView::Record { name, version })
            &&& third == (UninstallView::RemoveKeg { name, version })
            &&& uninstall_after(third) == UninstallView::Done
            &&& uninstall_after(UninstallView::Done) == UninstallView::Done
        }),
{
}

/// The model of a step holds what the step holds.
pub proof fn law_uninstall_model(step: UninstallStep)
    ensures
        match step {
            UninstallStep::Unlink { name, version } => step@ == (UninstallView::Unlink {
                name: name@,
                version: version@,
            }),
            UninstallStep::Record { name, version } => step@ == (UninstallView::Record {
                name: name@,
                version: version@,
            }),
            UninstallStep::RemoveKeg { name, version } => step@ == (UninstallView::RemoveKeg {
                name: name@,
                version: version@,
            }),
            UninstallStep::Done => step@ == UninstallView::Done,
        },
{
}

} // verus!
