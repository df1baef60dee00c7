//! Carrying out a plan: each package is unpacked and linked as soon as its download
//! is complete, and all are recorded once every one has succeeded.
use crate::error::{Error, ErrorView};
use crate::install::{ExecuteResult, InstallPlan, Installer, PlanView};
use crate::progress::{report_views, DownloadRequest, InstallProgress, ProgressView, RequestView};
use crate::text::texts;
use vstd::prelude::*;

verus! {

/// A package of a plan.
pub struct InstallItem {
    pub name: String,
    pub version: String,
    pub url: String,
    pub sha256: String,
}

/// Model of an [`InstallItem`].
pub struct InstallItemView {
    pub name: Seq<char>,
    pub version: Seq<char>,
    pub url: Seq<char>,
    pub sha256: Seq<char>,
}

impl InstallItem {
    pub open spec fn view(&self) -> InstallItemView {
        InstallItemView {
            name: self.name@,
            version: self.version@,
            url: self.url@,
            sha256: self.sha256@,
        }
    }
}

/// A link that was made for a package.
#[derive(Debug)]
pub struct LinkedFile {
    pub link_path: String,
    pub target_path: String,
}

/// The links as pairs of paths.
pub open spec fn link_views(files: Seq<LinkedFile>) -> Seq<(Seq<char>, Seq<char>)> {
    files.map_values(|f: LinkedFile| (f.link_path@, f.target_path@))
}

/// A package that was installed, as it is recorded.
#[derive(Debug)]
pub struct ProcessedPackage {
    pub name: String,
    pub version: String,
    pub store_key: String,
    pub linked_files: Vec<LinkedFile>,
}

/// Model of a [`ProcessedPackage`].
pub struct PackageView {
    pub name: Seq<char>,
    pub version: Seq<char>,
    pub store_key: Seq<char>,
    pub linked_files: Seq<(Seq<char>, Seq<char>)>,
}

impl ProcessedPackage {
    pub open spec fn view(&self) -> PackageView {
        PackageView {
            name: self.name@,
            version: self.version@,
            store_key: self.store_key@,
            linked_files: link_views(self.linked_files@),
        }
    }
}

/// The model of a package that may have been installed.
pub open spec fn option_package(p: Option<ProcessedPackage>) -> Option<PackageView> {
    match p {
        Some(package) => Some(package@),
        None => None,
    }
}

/// A plan that is being carried out.
pub struct Execution {
    items: Vec<InstallItem>,
    link: bool,
    reporting: bool,
    completed: Vec<Option<ProcessedPackage>>,
    error: Option<Error>,
}

/// Model of an [`Execution`].
#[verifier::ext_equal]
pub struct ExecutionView {
    pub items: Seq<InstallItemView>,
    pub link: bool,
    pub reporting: bool,
    pub completed: Seq<Option<PackageView>>,
    pub error: Option<ErrorView>,
}

/// What happened to the package in some position of the plan.
pub enum InstallEvent {
    /// It was downloaded.
    Downloaded { index: usize },
    /// One could not be downloaded.
    DownloadFailed(Error),
    /// It was extracted into the store, or could not be.
    Extracted { index: usize, result: Result<(), Error> },
    /// It was put into the cellar, or could not be.
    Materialized { index: usize, result: Result<(), Error> },
    /// It was linked, or could not be.
    Linked { index: usize, files: Result<Vec<LinkedFile>, Error> },
}

/// Model of an [`InstallEvent`].
pub enum InstallEventView {
    Downloaded { index: int },
    DownloadFailed(ErrorView),
    Extracted { index: int, result: Result<(), ErrorView> },
    Materialized { index: int, result: Result<(), ErrorView> },
    Linked { index: int, files: Result<Seq<(Seq<char>, Seq<char>)>, ErrorView> },
}

/// The model of an outcome without a value.
pub open spec fn outcome_view(result: Result<(), Error>) -> Result<(), ErrorView> {
    match result {
        Ok(_) => Ok(()),
        Err(e) => Err(e@),
    }
}

impl InstallEvent {
    pub open spec fn view(&self) -> InstallEventView {
        match self {
            InstallEvent::Downloaded { index } => InstallEventView::Downloaded {
                index: *index as int,
            },
            InstallEvent::DownloadFailed(e) => InstallEventView::DownloadFailed(e@),
            InstallEvent::Extracted { index, result } => InstallEventView::Extracted {
                index: *index as int,
                result: outcome_view(*result),
            },
            InstallEvent::Materialized { index, result } => InstallEventView::Materialized {
                index: *index as int,
                result: outcome_view(*result),
            },
            InstallEvent::Linked { index, files } => InstallEventView::Linked {
                index: *index as int,
                files: match files {
                    Ok(links) => Ok(link_views(links@)),
                    Err(e) => Err(e@),
                },
            },
        }
    }
}

/// What is to be done next.
pub enum InstallAction {
    /// Wait for the next download.
    Await,
    /// Extract the package into the store.
    Extract { index: usize },
    /// Put the package into the cellar, under its name and version.
    Materialize { index: usize, name: String, version: String },
    /// Link the package.
    Link { index: usize },
}

/// Model of an [`InstallAction`].
pub enum InstallActionView {
    Await,
    Extract { index: int },
    Materialize { index: int, name: Seq<char>, version: Seq<char> },
    Link { index: int },
}

impl InstallAction {
    pub open spec fn view(&self) -> InstallActionView {
        match self {
            InstallAction::Await => InstallActionView::Await,
            InstallAction::Extract { index } => InstallActionView::Extract { index: *index as int },
            InstallAction::Materialize { index, name, version } => InstallActionView::Materialize {
                index: *index as int,
                name: name@,
                version: version@,
            },
            InstallAction::Link { index } => InstallActionView::Link { index: *index as int },
        }
    }
}

/// What comes of an event: what is reported, and what is to be done next.
pub struct InstallStep {
    pub reports: Vec<InstallProgress>,
    pub action: InstallAction,
}

/// The packages of a plan, where the versions are those under which the formulas
/// are installed. What has no counterpart is left out.
pub open spec fn plan_items(plan: PlanView, versions: Seq<Seq<char>>) -> Seq<InstallItemView> {
    let count = if plan.formulas.len() <= plan.bottles.len() {
        plan.formulas.len()
    } else {
        plan.bottles.len()
    };
    Seq::new(
        count,
        |i: int|
            InstallItemView {
                name: plan.formulas[i].name,
                version: versions[i],
                url: plan.bottles[i].url,
                sha256: plan.bottles[i].sha256,
            },
    )
}

/// A plan of which nothing has been done.
pub open spec fn untouched(items: Seq<InstallItemView>, link: bool, reporting: bool) -> ExecutionView {
    ExecutionView {
        items,
        link,
        reporting,
        completed: Seq::new(items.len(), |i: int| None),
        error: None,
    }
}

/// The record of a package.
pub open spec fn record_of(item: InstallItemView, links: Seq<(Seq<char>, Seq<char>)>) -> PackageView {
    PackageView {
        name: item.name,
        version: item.version,
        store_key: item.sha256,
        linked_files: links,
    }
}

/// Whether an event speaks of a package of the plan, and of a link only where
/// packages are linked.
pub open spec fn event_fits(x: ExecutionView, event: InstallEventView) -> bool {
    match event {
        InstallEventView::Downloaded { index } => 0 <= index < x.items.len(),
        InstallEventView::DownloadFailed(_) => true,
        InstallEventView::Extracted { index, .. } => 0 <= index < x.items.len(),
        InstallEventView::Materialized { index, .. } => 0 <= index < x.items.len(),
        InstallEventView::Linked { index, .. } => x.link && 0 <= index < x.items.len(),
    }
}

/// The failure that an event brings.
pub open spec fn failure_of(event: InstallEventView) -> Option<ErrorView> {
    match event {
        InstallEventView::Downloaded { .. } => None,
        InstallEventView::DownloadFailed(e) => Some(e),
        InstallEventView::Extracted { result, .. } => match result {
            Ok(_) => None,
            Err(e) => Some(e),
        },
        InstallEventView::Materialized { result, .. } => match result {
            Ok(_) => None,
            Err(e) => Some(e),
        },
        InstallEventView::Linked { files, .. } => match files {
            Ok(_) => None,
            Err(e) => Some(e),
        },
    }
}

/// The plan after an event: a failure is noted in the place of an earlier one, and
/// a package is complete once it is linked, or in the cellar where none is linked.
pub open spec fn after_event(x: ExecutionView, event: InstallEventView) -> ExecutionView {
    match failure_of(event) {
        Some(e) => ExecutionView { error: Some(e), ..x },
        None => match event {
            InstallEventView::Materialized { index, .. } if !x.link => ExecutionView {
                completed: x.completed.update(
                    index,
                    Some(record_of(x.items[index], Seq::empty())),
                ),
                ..x
            },
            InstallEventView::Linked { index, files } => ExecutionView {
                completed: x.completed.update(
                    index,
                    Some(record_of(x.items[index], files->Ok_0)),
                ),
                ..x
            },
            _ => x,
        },
    }
}

/// What is to be done after an event: nothing more for a package that failed.
pub open spec fn action_after(x: ExecutionView, event: InstallEventView) -> InstallActionView {
    match (failure_of(event), event) {
        (None, InstallEventView::Downloaded { index }) => InstallActionView::Extract { index },
        (None, InstallEventView::Extracted { index, .. }) => InstallActionView::Materialize {
            index,
            name: x.items[index].name,
            version: x.items[index].version,
        },
        (None, InstallEventView::Materialized { index, .. }) => if x.link {
            InstallActionView::Link { index }
        } else {
            InstallActionView::Await
        },
        _ => InstallActionView::Await,
    }
}

/// What there is to report of an event.
pub open spec fn news_of(x: ExecutionView, event: InstallEventView) -> Seq<ProgressView> {
    match (failure_of(event), event) {
        (None, InstallEventView::Downloaded { index }) => seq![
            ProgressView::UnpackStarted { name: x.items[index].name },
        ],
        (None, InstallEventView::Materialized { index, .. }) => {
            let name = x.items[index].name;
            if x.link {
                seq![ProgressView::UnpackCompleted { name }, ProgressView::LinkStarted { name }]
            } else {
                seq![
                    ProgressView::UnpackCompleted { name },
                    ProgressView::InstallCompleted { name },
                ]
            }
        },
        (None, InstallEventView::Linked { index, .. }) => {
            let name = x.items[index].name;
            seq![ProgressView::LinkCompleted { name }, ProgressView::InstallCompleted { name }]
        },
        _ => Seq::empty(),
    }
}

/// What is reported of an event, where anything is reported at all.
pub open spec fn reports_after(x: ExecutionView, event: InstallEventView) -> Seq<ProgressView> {
    if x.reporting {
        news_of(x, event)
    } else {
        Seq::empty()
    }
}

/// The plan after some events.
pub open spec fn after_events(x: ExecutionView, events: Seq<InstallEventView>) -> ExecutionView
    decreases events.len(),
{
    if events.len() == 0 {
        x
    } else {
        after_event(after_events(x, events.drop_last()), events.last())
    }
}

/// The packages that are complete, in the order of the plan.
pub open spec fn records(completed: Seq<Option<PackageView>>) -> Seq<PackageView>
    decreases completed.len(),
{
    if completed.len() == 0 {
        Seq::empty()
    } else {
        let front = records(completed.drop_last());
        match completed.last() {
            Some(package) => front.push(package),
            None => front,
        }
    }
}

/// What holds of a plan at every time: what is complete is what was planned, and
/// has no links where none were wanted.
pub open spec fn execution_holds(x: ExecutionView) -> bool {
    &&& x.completed.len() == x.items.len()
    &&& forall|i: int|
        0 <= i < x.items.len() && (#[trigger] x.completed[i]) is Some ==> x.completed[i]->0
            == record_of(x.items[i], x.completed[i]->0.linked_files) && (!x.link
            ==> x.completed[i]->0.linked_files.len() == 0)
}

/// Every event of a plan keeps what holds of it at every time, leaves its packages
/// as they are, and takes back none that is complete.
pub proof fn law_events_keep(x: ExecutionView, events: Seq<InstallEventView>)
    requires
        execution_holds(x),
        forall|i: int| 0 <= i < events.len() ==> event_fits(x, #[trigger] events[i]),
    ensures
        execution_holds(after_events(x, events)),
        after_events(x, events).items == x.items,
        after_events(x, events).link == x.link,
        after_events(x, events).reporting == x.reporting,
        forall|i: int|
            0 <= i < x.items.len() && (#[trigger] x.completed[i]) is Some ==> after_events(
                x,
                events,
            ).completed[i] is Some,
    decreases events.len(),
{
    if events.len() > 0 {
        let less = events.drop_last();
        assert forall|i: int| 0 <= i < less.len() implies event_fits(x, #[trigger] less[i]) by {
            assert(event_fits(x, events[i]));
        }
        law_events_keep(x, less);
        assert(event_fits(x, events[events.len() - 1]));
    }
}

/// A plan fails if and only if one of its events brought a failure, and then with
/// the last that came.
pub proof fn law_last_failure_counts(x: ExecutionView, events: Seq<InstallEventView>)
    requires
        x.error is None,
    ensures
        after_events(x, events).error is None <==> forall|i: int|
            0 <= i < events.len() ==> failure_of(#[trigger] events[i]) is None,
        forall|i: int|
            0 <= i < events.len() && failure_of(#[trigger] events[i]) is Some && (forall|j: int|
                i < j < events.len() ==> failure_of(#[trigger] events[j]) is None)
                ==> after_events(x, events).error == failure_of(events[i]),
    decreases events.len(),
{
    if events.len() > 0 {
        let less = events.drop_last();
        let last = events.len() - 1;
        law_last_failure_counts(x, less);
        if failure_of(events[last]) is None {
            assert(after_events(x, events).error == after_events(x, less).error);
            assert forall|i: int|
                0 <= i < events.len() && failure_of(#[trigger] events[i]) is Some && (forall|
                    j: int,
                |
                    i < j < events.len() ==> failure_of(#[trigger] events[j])
                        is None) implies after_events(x, events).error == failure_of(events[i]) by {
                assert(less[i] == events[i]);
                assert forall|j: int| i < j < less.len() implies failure_of(#[trigger] less[j])
                    is None by {
                    assert(failure_of(events[j]) is None);
                }
            }
            if forall|i: int| 0 <= i < less.len() ==> failure_of(#[trigger] less[i]) is None {
                assert forall|i: int| 0 <= i < events.len() implies failure_of(
                    #[trigger] events[i],
                ) is None by {
                    if i < last {
                        assert(failure_of(less[i]) is None);
                    }
                }
            } else {
                let i = choose|i: int|
                    0 <= i < less.len() && !(failure_of(#[trigger] less[i]) is None);
                assert(failure_of(events[i]) is Some);
            }
        } else {
            assert(after_events(x, events).error is Some);
        }
    }
}

/// Once every package is complete, all are recorded, in the order of the plan.
pub proof fn law_all_are_recorded_in_order(x: ExecutionView)
    requires
        execution_holds(x),
        forall|i: int| 0 <= i < x.items.len() ==> (#[trigger] x.completed[i]) is Some,
    ensures
        records(x.completed).len() == x.items.len(),
        forall|i: int|
            0 <= i < x.items.len() ==> #[trigger] records(x.completed)[i] == record_of(
                x.items[i],
                x.completed[i]->0.linked_files,
            ),
{
    lemma_records(x.completed);
    assert forall|i: int| 0 <= i < x.items.len() implies #[trigger] records(x.completed)[i]
        == record_of(x.items[i], x.completed[i]->0.linked_files) by {
        assert(x.completed[i] is Some);
    }
}

proof fn lemma_records(completed: Seq<Option<PackageView>>)
    requires
        forall|i: int| 0 <= i < completed.len() ==> (#[trigger] completed[i]) is Some,
    ensures
        records(completed).len() == completed.len(),
        forall|i: int|
            0 <= i < completed.len() ==> #[trigger] records(completed)[i] == completed[i]->0,
    decreases completed.len(),
{
    if completed.len() > 0 {
        let less = completed.drop_last();
        assert forall|i: int| 0 <= i < less.len() implies (#[trigger] less[i]) is Some by {
            assert(completed[i] is Some);
        }
        lemma_records(less);
        assert(completed[completed.len() - 1] is Some);
        assert forall|i: int| 0 <= i < completed.len() implies #[trigger] records(completed)[i]
            == completed[i]->0 by {
            if i < less.len() {
                assert(records(less)[i] == less[i]->0);
            }
        }
    }
}

/// Whether an event completes the package in a position of the plan.
pub open spec fn completes(x: ExecutionView, event: InstallEventView, i: int) -> bool {
    match event {
        InstallEventView::Materialized { index, result } => !x.link && result is Ok && index == i,
        InstallEventView::Linked { index, files } => files is Ok && index == i,
        _ => false,
    }
}

/// Some event completes the package in a position of the plan.
pub open spec fn is_completed_by(x: ExecutionView, events: Seq<InstallEventView>, i: int) -> bool {
    exists|k: int| 0 <= k < events.len() && completes(x, #[trigger] events[k], i)
}

/// The links that an event which completes a package brings.
pub open spec fn links_of(event: InstallEventView) -> Seq<(Seq<char>, Seq<char>)> {
    match event {
        InstallEventView::Linked { files: Ok(links), .. } => links,
        _ => Seq::empty(),
    }
}

/// The links that the last event brings which completes the package in a position of
/// the plan.
pub open spec fn last_links(x: ExecutionView, events: Seq<InstallEventView>, i: int) -> Option<
    Seq<(Seq<char>, Seq<char>)>,
>
    decreases events.len(),
{
    if events.len() == 0 {
        None
    } else if completes(x, events.last(), i) {
        Some(links_of(events.last()))
    } else {
        last_links(x, events.drop_last(), i)
    }
}

proof fn lemma_last_links(x: ExecutionView, events: Seq<InstallEventView>, i: int)
    requires
        is_completed_by(x, events, i),
    ensures
        last_links(x, events, i) is Some,
    decreases events.len(),
{
    let k = choose|k: int| 0 <= k < events.len() && completes(x, #[trigger] events[k], i);
    if !completes(x, events.last(), i) {
        assert(completes(x, events.drop_last()[k], i));
        lemma_last_links(x, events.drop_last(), i);
    }
}

/// A package has the record of the last event that completes it.
pub proof fn law_last_completion_is_recorded(
    x: ExecutionView,
    events: Seq<InstallEventView>,
    i: int,
)
    requires
        execution_holds(x),
        0 <= i < x.items.len(),
        forall|k: int| 0 <= k < events.len() ==> event_fits(x, #[trigger] events[k]),
    ensures
        after_events(x, events).completed[i] == (match last_links(x, events, i) {
            Some(links) => Some(record_of(x.items[i], links)),
            None => x.completed[i],
        }),
    decreases events.len(),
{
    if events.len() > 0 {
        let less = events.drop_last();
        assert forall|k: int| 0 <= k < less.len() implies event_fits(x, #[trigger] less[k]) by {
            assert(event_fits(x, events[k]));
        }
        assert(event_fits(x, events[events.len() - 1]));
        law_events_keep(x, less);
        law_last_completion_is_recorded(x, less, i);
    }
}

/// A plan whose every package is completed, in whatever order, and of which nothing
/// fails, is carried out: all its packages are recorded, in the order of the plan, each
/// with the links that it got last.
pub proof fn law_everything_is_installed(x: ExecutionView, events: Seq<InstallEventView>)
    requires
        execution_holds(x),
        x.error is None,
        forall|k: int| 0 <= k < events.len() ==> event_fits(x, #[trigger] events[k]),
        forall|k: int| 0 <= k < events.len() ==> failure_of(#[trigger] events[k]) is None,
        forall|i: int| 0 <= i < x.items.len() ==> #[trigger] is_completed_by(x, events, i),
    ensures
        after_events(x, events).error is None,
        records(after_events(x, events).completed).len() == x.items.len(),
        forall|i: int|
            0 <= i < x.items.len() ==> (#[trigger] last_links(x, events, i)) is Some && records(
                after_events(x, events).completed,
            )[i] == record_of(x.items[i], last_links(x, events, i)->0),
{
    let done = after_events(x, events);
    law_events_keep(x, events);
    law_last_failure_counts(x, events);
    assert forall|i: int| 0 <= i < x.items.len() implies (#[trigger] last_links(x, events, i))
        is Some && done.completed[i] == Some(
        record_of(x.items[i], last_links(x, events, i)->0),
    ) by {
        assert(is_completed_by(x, events, i));
        lemma_last_links(x, events, i);
        law_last_completion_is_recorded(x, events, i);
    }
    assert forall|i: int| 0 <= i < done.items.len() implies (#[trigger] done.completed[i])
        is Some by {
        assert(last_links(x, events, i) is Some);
    }
    law_all_are_recorded_in_order(done);
    assert forall|i: int| 0 <= i < x.items.len() implies records(done.completed)[i] == record_of(
        x.items[i],
        (#[trigger] last_links(x, events, i))->0,
    ) by {
        assert(records(done.completed)[i] == record_of(
            done.items[i],
            done.completed[i]->0.linked_files,
        ));
    }
}

/// The packages of a plan have, each in its own position, the name of the formula, the
/// version that was given for it, and the address and the hash of the bottle.
pub proof fn law_packages_are_those_of_the_plan(
    plan: PlanView,
    versions: Seq<Seq<char>>,
    link: bool,
    reporting: bool,
)
    ensures
        ({
            let x = untouched(plan_items(plan, versions), link, reporting);
            &&& x.items.len() == plan.formulas.len() || x.items.len() == plan.bottles.len()
            &&& x.items.len() <= plan.formulas.len() && x.items.len() <= plan.bottles.len()
            &&& forall|i: int|
                0 <= i < x.items.len() ==> {
                    let item = #[trigger] x.items[i];
                    &&& item.name == plan.formulas[i].name
                    &&& item.version == versions[i]
                    &&& item.url == plan.bottles[i].url
                    &&& item.sha256 == plan.bottles[i].sha256
                }
            &&& x.link == link && x.reporting == reporting && x.error is None
            &&& x.completed.len() == x.items.len()
            &&& forall|i: int| 0 <= i < x.items.len() ==> (#[trigger] x.completed[i]) is None
        }),
{
}

/// A package of a plan whose packages are linked is extracted once it is downloaded, is
/// then put into the cellar under its own name and version, is linked, and is complete
/// with the links that it got. Each stage is reported, and no other package changes.
pub proof fn law_package_is_linked(
    x: ExecutionView,
    i: int,
    links: Seq<(Seq<char>, Seq<char>)>,
)
    requires
        execution_holds(x),
        0 <= i < x.items.len(),
        x.link,
    ensures
        ({
            let name = x.items[i].name;
            let version = x.items[i].version;
            let downloaded = InstallEventView::Downloaded { index: i };
            let extracted = InstallEventView::Extracted { index: i, result: Ok(()) };
            let materialized = InstallEventView::Materialized { index: i, result: Ok(()) };
            let linked = InstallEventView::Linked { index: i, files: Ok(links) };
            &&& event_fits(x, downloaded) && event_fits(x, extracted)
            &&& event_fits(x, materialized) && event_fits(x, linked)
            &&& action_after(x, downloaded) == (InstallActionView::Extract { index: i })
            &&& action_after(x, extracted) == (InstallActionView::Materialize {
                index: i,
                name,
                version,
            })
            &&& action_after(x, materialized) == (InstallActionView::Link { index: i })
            &&& action_after(x, linked) == InstallActionView::Await
            &&& after_event(x, downloaded) == x
            &&& after_event(x, extracted) == x
            &&& after_event(x, materialized) == x
            &&& after_event(x, linked).completed.len() == x.completed.len()
            &&& after_event(x, linked).completed[i] == Some(
                PackageView {
                    name,
                    version,
                    store_key: x.items[i].sha256,
                    linked_files: links,
                },
            )
            &&& forall|j: int|
                0 <= j < x.items.len() && j != i ==> #[trigger] after_event(
                    x,
                    linked,
                ).completed[j] == x.completed[j]
            &&& after_event(x, linked).error == x.error
            &&& after_event(x, linked).items == x.items
            &&& x.reporting ==> reports_after(x, downloaded) + reports_after(x, extracted)
                + reports_after(x, materialized) + reports_after(x, linked) == seq![
                ProgressView::UnpackStarted { name },
                ProgressView::UnpackCompleted { name },
                ProgressView::LinkStarted { name },
                ProgressView::LinkCompleted { name },
                ProgressView::InstallCompleted { name },
            ]
            &&& x.reporting ==> reports_after(x, downloaded).len() == 1 && reports_after(
                x,
                extracted,
            ).len() == 0 && reports_after(x, materialized).len() == 2
        }),
{
    let downloaded = InstallEventView::Downloaded { index: i };
    let extracted = InstallEventView::Extracted { index: i, result: Ok(()) };
    let materialized = InstallEventView::Materialized { index: i, result: Ok(()) };
    let linked = InstallEventView::Linked { index: i, files: Ok(links) };
    let name = x.items[i].name;
    if x.reporting {
        assert(reports_after(x, downloaded) + reports_after(x, extracted) + reports_after(
            x,
            materialized,
        ) + reports_after(x, linked) =~= seq![
            ProgressView::UnpackStarted { name },
            ProgressView::UnpackCompleted { name },
            ProgressView::LinkStarted { name },
            ProgressView::LinkCompleted { name },
            ProgressView::InstallCompleted { name },
        ]);
    }
}

/// A package of a plan whose packages are not linked is extracted once it is downloaded,
/// is then put into the cellar under its own name and version, and is complete without
/// links. Each stage is reported, and no other package changes.
pub proof fn law_package_is_put_into_the_cellar(x: ExecutionView, i: int)
    requires
        execution_holds(x),
        0 <= i < x.items.len(),
        !x.link,
    ensures
        ({
            let name = x.items[i].name;
            let version = x.items[i].version;
            let downloaded = InstallEventView::Downloaded { index: i };
            let extracted = InstallEventView::Extracted { index: i, result: Ok(()) };
            let materialized = InstallEventView::Materialized { index: i, result: Ok(()) };
            &&& event_fits(x, downloaded) && event_fits(x, extracted)
            &&& event_fits(x, materialized)
            &&& action_after(x, downloaded) == (InstallActionView::Extract { index: i })
            &&& action_after(x, extracted) == (InstallActionView::Materialize {
                index: i,
                name,
                version,
            })
            &&& action_after(x, materialized) == InstallActionView::Await
            &&& after_event(x, downloaded) == x
            &&& after_event(x, extracted) == x
            &&& after_event(x, materialized).completed.len() == x.completed.len()
            &&& after_event(x, materialized).completed[i] == Some(
                PackageView {
                    name,
                    version,
                    store_key: x.items[i].sha256,
                    linked_files: Seq::empty(),
                },
            )
            &&& forall|j: int|
                0 <= j < x.items.len() && j != i ==> #[trigger] after_event(
                    x,
                    materialized,
                ).completed[j] == x.completed[j]
            &&& after_event(x, materialized).error == x.error
            &&& after_event(x, materialized).items == x.items
            &&& x.reporting ==> reports_after(x, downloaded) + reports_after(x, extracted)
                + reports_after(x, materialized) == seq![
                ProgressView::UnpackStarted { name },
                ProgressView::UnpackCompleted { name },
                ProgressView::InstallCompleted { name },
            ]
            &&& x.reporting ==> reports_after(x, downloaded).len() == 1 && reports_after(
                x,
                extracted,
            ).len() == 0
        }),
{
    let downloaded = InstallEventView::Downloaded { index: i };
    let extracted = InstallEventView::Extracted { index: i, result: Ok(()) };
    let materialized = InstallEventView::Materialized { index: i, result: Ok(()) };
    let name = x.items[i].name;
    if x.reporting {
        assert(reports_after(x, downloaded) + reports_after(x, extracted) + reports_after(
            x,
            materialized,
        ) =~= seq![
            ProgressView::UnpackStarted { name },
            ProgressView::UnpackCompleted { name },
            ProgressView::InstallCompleted { name },
        ]);
    }
}

/// A failure at any stage is noted, whatever failed before, and changes nothing else:
/// nothing more is done for the package, nothing is reported, and what is complete stays.
pub proof fn law_failure_is_noted(x: ExecutionView, event: InstallEventView, e: ErrorView)
    requires
        match event {
            InstallEventView::Downloaded { .. } => false,
            InstallEventView::DownloadFailed(why) => why == e,
            InstallEventView::Extracted { result, .. } => result == Err::<(), ErrorView>(e),
            InstallEventView::Materialized { result, .. } => result == Err::<(), ErrorView>(e),
            InstallEventView::Linked { files, .. } => files == Err::<
                Seq<(Seq<char>, Seq<char>)>,
                ErrorView,
            >(e),
        },
    ensures
        after_event(x, event).error == Some(e),
        after_event(x, event).completed == x.completed,
        after_event(x, event).items == x.items,
        after_event(x, event).link == x.link,
        after_event(x, event).reporting == x.reporting,
        action_after(x, event) == InstallActionView::Await,
        reports_after(x, event).len() == 0,
        failure_of(event) == Some(e),
        event is DownloadFailed ==> event_fits(x, event),
{
}

/// Where no reports are wanted, nothing is reported.
pub proof fn law_no_reports(x: ExecutionView, event: InstallEventView)
    requires
        !x.reporting,
    ensures
        reports_after(x, event).len() == 0,
{
}

/// What some events come to is what the first of them come to, and then the others.
pub proof fn law_events_in_order(
    x: ExecutionView,
    a: Seq<InstallEventView>,
    b: Seq<InstallEventView>,
    event: InstallEventView,
)
    ensures
        after_events(x, a + b) == after_events(after_events(x, a), b),
        after_events(x, seq![event]) == after_event(x, event),
        after_events(x, Seq::empty()) == x,
    decreases b.len(),
{
    if b.len() == 0 {
        assert(a + b =~= a);
    } else {
        assert((a + b).drop_last() =~= a + b.drop_last());
        law_events_in_order(x, a, b.drop_last(), event);
    }
    reveal_with_fuel(after_events, 2);
    assert(seq![event].drop_last() =~= Seq::empty());
}

/// A package that was linked, with whatever came before and with no second link after it,
/// is complete with its own name, version and hash and with the links that it got.
pub proof fn law_linked_package_is_complete(
    x: ExecutionView,
    events: Seq<InstallEventView>,
    k: int,
    i: int,
    links: Seq<(Seq<char>, Seq<char>)>,
)
    requires
        execution_holds(x),
        x.link,
        0 <= i < x.items.len(),
        forall|j: int| 0 <= j < events.len() ==> event_fits(x, #[trigger] events[j]),
        0 <= k < events.len(),
        events[k] == (InstallEventView::Linked { index: i, files: Ok(links) }),
        forall|j: int|
            k < j < events.len() ==> !((#[trigger] events[j]) is Linked && events[j]->Linked_index
                == i),
    ensures
        after_events(x, events).completed[i] == Some(
            PackageView {
                name: x.items[i].name,
                version: x.items[i].version,
                store_key: x.items[i].sha256,
                linked_files: links,
            },
        ),
    decreases events.len(),
{
    let less = events.drop_last();
    assert forall|j: int| 0 <= j < less.len() implies event_fits(x, #[trigger] less[j]) by {
        assert(event_fits(x, events[j]));
    }
    law_events_keep(x, less);
    assert(event_fits(x, events[events.len() - 1]));
    if k < events.len() - 1 {
        assert forall|j: int| k < j < less.len() implies !((#[trigger] less[j]) is Linked
            && less[j]->Linked_index == i) by {
            assert(!(events[j] is Linked && events[j]->Linked_index == i));
        }
        law_linked_package_is_complete(x, less, k, i, links);
        assert(!(events.last() is Linked && events[events.len() - 1]->Linked_index == i));
    }
}

/// A package that was put into the cellar, where packages are not linked, is complete
/// with its own name, version and hash and without links, whatever else happens.
pub proof fn law_package_in_the_cellar_is_complete(
    x: ExecutionView,
    events: Seq<InstallEventView>,
    k: int,
    i: int,
)
    requires
        execution_holds(x),
        !x.link,
        0 <= i < x.items.len(),
        forall|j: int| 0 <= j < events.len() ==> event_fits(x, #[trigger] events[j]),
        0 <= k < events.len(),
        events[k] == (InstallEventView::Materialized { index: i, result: Ok(()) }),
    ensures
        after_events(x, events).completed[i] == Some(
            PackageView {
                name: x.items[i].name,
                version: x.items[i].version,
                store_key: x.items[i].sha256,
                linked_files: Seq::empty(),
            },
        ),
    decreases events.len(),
{
    let less = events.drop_last();
    assert forall|j: int| 0 <= j < less.len() implies event_fits(x, #[trigger] less[j]) by {
        assert(event_fits(x, events[j]));
    }
    law_events_keep(x, less);
    assert(event_fits(x, events[events.len() - 1]));
    if k < events.len() - 1 {
        law_package_in_the_cellar_is_complete(x, less, k, i);
    }
}

/// What is recorded is what is complete: one record for each package that is, in the
/// order of the plan, and none for the others.
pub proof fn law_records_in_order(
    a: Seq<Option<PackageView>>,
    b: Seq<Option<PackageView>>,
    package: PackageView,
)
    ensures
        records(a + b) == records(a) + records(b),
        records(seq![Some(package)]) == seq![package],
        records(seq![None]) == Seq::<PackageView>::empty(),
        records(Seq::empty()) == Seq::<PackageView>::empty(),
    decreases b.len(),
{
    if b.len() == 0 {
        assert(a + b =~= a);
        assert(records(a) + records(b) =~= records(a));
    } else {
        assert((a + b).drop_last() =~= a + b.drop_last());
        law_records_in_order(a, b.drop_last(), package);
        assert(records(a + b) =~= records(a) + records(b));
    }
    reveal_with_fuel(records, 2);
    assert(seq![Some(package)].drop_last() =~= Seq::empty());
    assert(seq![None::<PackageView>].drop_last() =~= Seq::empty());
    assert(records(seq![Some(package)]) =~= seq![package]);
}

/// A plan whose packages are all linked, in whatever order, and of which nothing fails,
/// is recorded as it was made: in each position the formula's name, the version that was
/// given for it, the bottle's hash and the links that the package got last.
pub proof fn law_plan_is_recorded(
    plan: PlanView,
    versions: Seq<Seq<char>>,
    reporting: bool,
    events: Seq<InstallEventView>,
    at: Seq<int>,
    links: Seq<Seq<(Seq<char>, Seq<char>)>>,
)
    requires
        ({
            let x = untouched(plan_items(plan, versions), true, reporting);
            &&& forall|j: int|
                0 <= j < events.len() ==> event_fits(x, #[trigger] events[j]) && failure_of(
                    events[j],
                ) is None
            &&& forall|i: int|
                0 <= i < plan.formulas.len() && i < plan.bottles.len() ==> 0
                    <= #[trigger] at[i] < events.len() && events[at[i]] == (
                InstallEventView::Linked { index: i, files: Ok(links[i]) })
            &&& forall|i: int, j: int|
                0 <= i < plan.formulas.len() && i < plan.bottles.len() && #[trigger] at[i] < j
                    < events.len() ==> !((#[trigger] events[j]) is Linked
                    && events[j]->Linked_index == i)
        }),
    ensures
        ({
            let x = untouched(plan_items(plan, versions), true, reporting);
            let recorded = records(after_events(x, events).completed);
            &&& after_events(x, events).error is None
            &&& recorded.len() == x.items.len()
            &&& forall|i: int|
                0 <= i < recorded.len() ==> #[trigger] recorded[i] == (PackageView {
                    name: plan.formulas[i].name,
                    version: versions[i],
                    store_key: plan.bottles[i].sha256,
                    linked_files: links[i],
                })
        }),
{
    let x = untouched(plan_items(plan, versions), true, reporting);
    let done = after_events(x, events);
    assert(execution_holds(x));
    assert forall|j: int| 0 <= j < events.len() implies failure_of(#[trigger] events[j]) is None by {
        assert(event_fits(x, events[j]));
    }
    law_events_keep(x, events);
    law_last_failure_counts(x, events);
    assert forall|i: int| 0 <= i < x.items.len() implies #[trigger] done.completed[i] == Some(
        PackageView {
            name: plan.formulas[i].name,
            version: versions[i],
            store_key: plan.bottles[i].sha256,
            linked_files: links[i],
        },
    ) by {
        let k = at[i];
        assert(events[at[i]] == (InstallEventView::Linked { index: i, files: Ok(links[i]) }));
        assert forall|j: int| k < j < events.len() implies !((#[trigger] events[j]) is Linked
            && events[j]->Linked_index == i) by {
            assert(at[i] == k);
        }
        law_linked_package_is_complete(x, events, k, i, links[i]);
    }
    lemma_records(done.completed);
}

/// The models of actions, of links and of packages hold what the values hold.
pub proof fn law_install_models(
    action: InstallAction,
    files: Seq<LinkedFile>,
    package: ProcessedPackage,
)
    ensures
        match action {
            InstallAction::Await => action@ == InstallActionView::Await,
            InstallAction::Extract { index } => action@ == (InstallActionView::Extract {
                index: index as int,
            }),
            InstallAction::Materialize { index, name, version } => action@ == (
            InstallActionView::Materialize { index: index as int, name: name@, version: version@ }),
            InstallAction::Link { index } => action@ == (InstallActionView::Link {
                index: index as int,
            }),
        },
        link_views(files).len() == files.len(),
        forall|i: int|
            0 <= i < files.len() ==> #[trigger] link_views(files)[i] == (
                files[i].link_path@,
                files[i].target_path@,
            ),
        package@.name == package.name@,
        package@.version == package.version@,
        package@.store_key == package.store_key@,
        package@.linked_files == link_views(package.linked_files@),
{
}

/// The models of events hold what the events hold.
pub proof fn law_install_event_models(event: InstallEvent)
    ensures
        match event {
            InstallEvent::Downloaded { index } => event@ == (InstallEventView::Downloaded {
                index: index as int,
            }),
            InstallEvent::DownloadFailed(e) => event@ == InstallEventView::DownloadFailed(e@),
            InstallEvent::Extracted { index, result: Ok(_) } => event@ == (
            InstallEventView::Extracted { index: index as int, result: Ok(()) }),
            InstallEvent::Extracted { index, result: Err(e) } => event@ == (
            InstallEventView::Extracted { index: index as int, result: Err(e@) }),
            InstallEvent::Materialized { index, result: Ok(_) } => event@ == (
            InstallEventView::Materialized { index: index as int, result: Ok(()) }),
            InstallEvent::Materialized { index, result: Err(e) } => event@ == (
            InstallEventView::Materialized { index: index as int, result: Err(e@) }),
            InstallEvent::Linked { index, files: Ok(links) } => event@ == (
            InstallEventView::Linked { index: index as int, files: Ok(link_views(links@)) }),
            InstallEvent::Linked { index, files: Err(e) } => event@ == (InstallEventView::Linked {
                index: index as int,
                files: Err(e@),
            }),
        },
{
}

/// The packages of a plan.
fn items_of_plan(plan: &InstallPlan, versions: &Vec<String>) -> (r: Vec<InstallItem>)
    requires
        versions@.len() == plan.formulas@.len(),
    ensures
        r@.map_values(|i: InstallItem| i@) == plan_items(plan@, texts(versions@)),
{
    let mut items: Vec<InstallItem> = Vec::new();
    let mut i: usize = 0;
    while i < plan.formulas.len() && i < plan.bottles.len()
        invariant
            versions@.len() == plan.formulas@.len(),
            i <= plan.formulas@.len(),
            i <= plan.bottles@.len(),
            items@.len() == i,
            forall|j: int|
                0 <= j < i ==> (#[trigger] items@[j])@ == plan_items(plan@, texts(versions@))[j],
        decreases plan.formulas.len() - i,
    {
        items.push(
            InstallItem {
                name: plan.formulas[i].name.clone(),
                version: versions[i].clone(),
                url: plan.bottles[i].url.clone(),
                sha256: plan.bottles[i].sha256.clone(),
            },
        );
        i = i + 1;
    }
    proof {
        assert(items@.map_values(|i: InstallItem| i@) =~= plan_items(plan@, texts(versions@)));
    }
    items
}

impl Installer {
    /// Starts to carry out a plan without reports, where the versions are those under
    /// which its formulas are installed.
    pub fn execute(&self, plan: InstallPlan, versions: &Vec<String>, link: bool) -> (r: Execution)
        requires
            versions@.len() == plan.formulas@.len(),
        ensures
            r@ == untouched(plan_items(plan@, texts(versions@)), link, false),
            execution_holds(r@),
            r@.link == link,
            !r@.reporting,
            r@.error is None,
            r@.items.len() == plan.formulas@.len() || r@.items.len() == plan.bottles@.len(),
            r@.items.len() <= plan.formulas@.len() && r@.items.len() <= plan.bottles@.len(),
            forall|i: int|
                0 <= i < r@.items.len() ==> {
                    let item = #[trigger] r@.items[i];
                    &&& item.name == plan.formulas@[i].name@
                    &&& item.version == versions@[i]@
                    &&& item.url == plan.bottles@[i].url@
                    &&& item.sha256 == plan.bottles@[i].sha256@
                },
            r@.completed.len() == r@.items.len(),
            forall|i: int| 0 <= i < r@.completed.len() ==> (#[trigger] r@.completed[i]) is None,
    {
        self.execute_with_progress(plan, versions, link, false)
    }

    /// Starts to carry out a plan, with reports or without.
    pub fn execute_with_progress(
        &self,
        plan: InstallPlan,
        versions: &Vec<String>,
        link: bool,
        reporting: bool,
    ) -> (r: Execution)
        requires
            versions@.len() == plan.formulas@.len(),
        ensures
            r@ == untouched(plan_items(plan@, texts(versions@)), link, reporting),
            execution_holds(r@),
            r@.link == link,
            r@.reporting == reporting,
            r@.error is None,
            r@.items.len() == plan.formulas@.len() || r@.items.len() == plan.bottles@.len(),
            r@.items.len() <= plan.formulas@.len() && r@.items.len() <= plan.bottles@.len(),
            forall|i: int|
                0 <= i < r@.items.len() ==> {
                    let item = #[trigger] r@.items[i];
                    &&& item.name == plan.formulas@[i].name@
                    &&& item.version == versions@[i]@
                    &&& item.url == plan.bottles@[i].url@
                    &&& item.sha256 == plan.bottles@[i].sha256@
                },
            r@.completed.len() == r@.items.len(),
            forall|i: int| 0 <= i < r@.completed.len() ==> (#[trigger] r@.completed[i]) is None,
    {
        let items = items_of_plan(&plan, versions);
        let mut completed: Vec<Option<ProcessedPackage>> = Vec::new();
        let mut i: usize = 0;
        while i < items.len()
            invariant
                i <= items@.len(),
                completed@.len() == i,
                forall|j: int| 0 <= j < i ==> (#[trigger] completed@[j]) is None,
            decreases items.len() - i,
        {
            completed.push(None);
            i = i + 1;
        }
        let r = Execution { items, link, reporting, completed, error: None };
        proof {
            assert(r@ =~= untouched(plan_items(plan@, texts(versions@)), link, reporting));
        }
        r
    }
}

impl Execution {
    pub closed spec fn view(&self) -> ExecutionView {
        ExecutionView {
            items: self.items@.map_values(|i: InstallItem| i@),
            link: self.link,
            reporting: self.reporting,
            completed: self.completed@.map_values(|p: Option<ProcessedPackage>| option_package(p)),
            error: match self.error {
                Some(e) => Some(e@),
                None => None,
            },
        }
    }

    /// The number of packages.
    pub fn len(&self) -> (r: usize)
        ensures
            r == self@.items.len(),
    {
        self.items.len()
    }

    /// What is to be downloaded, in the order of the plan.
    pub fn requests(&self) -> (r: Vec<DownloadRequest>)
        ensures
            r@.map_values(|d: DownloadRequest| d@) == self@.items.map_values(
                |i: InstallItemView| RequestView { url: i.url, sha256: i.sha256, name: i.name },
            ),
            r@.len() == self@.items.len(),
            forall|i: int|
                0 <= i < r@.len() ==> {
                    let request = #[trigger] r@[i];
                    &&& request.url@ == self@.items[i].url
                    &&& request.sha256@ == self@.items[i].sha256
                    &&& request.name@ == self@.items[i].name
                },
    {
        let mut requests: Vec<DownloadRequest> = Vec::new();
        let mut i: usize = 0;
        while i < self.items.len()
            invariant
                i <= self.items@.len(),
                requests@.len() == i,
                forall|j: int|
                    0 <= j < i ==> (#[trigger] requests@[j])@ == (RequestView {
                        url: self.items@[j].url@,
                        sha256: self.items@[j].sha256@,
                        name: self.items@[j].name@,
                    }),
            decreases self.items.len() - i,
        {
            requests.push(
                DownloadRequest {
                    url: self.items[i].url.clone(),
                    sha256: self.items[i].sha256.clone(),
                    name: self.items[i].name.clone(),
                },
            );
            i = i + 1;
        }
        proof {
            assert(requests@.map_values(|d: DownloadRequest| d@) =~= self@.items.map_values(
                |i: InstallItemView| RequestView { url: i.url, sha256: i.sha256, name: i.name },
            ));
        }
        requests
    }

    fn complete(&mut self, index: usize, linked_files: Vec<LinkedFile>)
        requires
            execution_holds(old(self)@),
            index < old(self)@.items.len(),
        ensures
            final(self)@ == (ExecutionView {
                completed: old(self)@.completed.update(
                    index as int,
                    Some(record_of(old(self)@.items[index as int], link_views(linked_files@))),
                ),
                ..old(self)@
            }),
    {
        proof {
            assert(self@.completed.len() == self@.items.len());
            assert(self.completed@.len() == self.items@.len());
        }
        let package = ProcessedPackage {
            name: self.items[index].name.clone(),
            version: self.items[index].version.clone(),
            store_key: self.items[index].sha256.clone(),
            linked_files,
        };
        self.completed.set(index, Some(package));
        proof {
            assert(self@.completed =~= old(self)@.completed.update(
                index as int,
                Some(record_of(old(self)@.items[index as int], link_views(linked_files@))),
            ));
        }
    }

    /// What comes of an event.
    pub fn on_event(&mut self, event: InstallEvent) -> (r: InstallStep)
        requires
            execution_holds(old(self)@),
            event_fits(old(self)@, event@),
        ensures
            final(self)@ == after_event(old(self)@, event@),
            execution_holds(final(self)@),
            report_views(r.reports@) == reports_after(old(self)@, event@),
            r.action@ == action_after(old(self)@, event@),
    {
        let mut reports: Vec<InstallProgress> = Vec::new();
        let mut action = InstallAction::Await;
        let ghost start = self@;
        match event {
            InstallEvent::Downloaded { index } => {
                if self.reporting {
                    let name = self.items[index].name.clone();
                    reports.push(InstallProgress::UnpackStarted { name });
                }
                action = InstallAction::Extract { index };
            },
            InstallEvent::DownloadFailed(e) => {
                self.error = Some(e);
            },
            InstallEvent::Extracted { index, result } => match result {
                Ok(_) => {
                    action = InstallAction::Materialize {
                        index,
                        name: self.items[index].name.clone(),
                        version: self.items[index].version.clone(),
                    };
                },
                Err(e) => {
                    self.error = Some(e);
                },
            },
            InstallEvent::Materialized { index, result } => match result {
                Ok(_) => {
                    let link = self.link;
                    if self.reporting {
                        let name = self.items[index].name.clone();
                        reports.push(InstallProgress::UnpackCompleted { name });
                        let name = self.items[index].name.clone();
                        if link {
                            reports.push(InstallProgress::LinkStarted { name });
                        } else {
                            reports.push(InstallProgress::InstallCompleted { name });
                        }
                    }
                    if link {
                        action = InstallAction::Link { index };
                    } else {
                        let none: Vec<LinkedFile> = Vec::new();
                        proof {
                            assert(link_views(none@) =~= Seq::empty());
                        }
                        self.complete(index, none);
                    }
                },
                Err(e) => {
                    self.error = Some(e);
                },
            },
            InstallEvent::Linked { index, files } => match files {
                Ok(links) => {
                    if self.reporting {
                        let name = self.items[index].name.clone();
                        reports.push(InstallProgress::LinkCompleted { name });
                        let name = self.items[index].name.clone();
                        reports.push(InstallProgress::InstallCompleted { name });
                    }
                    self.complete(index, links);
                },
                Err(e) => {
                    self.error = Some(e);
                },
            },
        }
        proof {
            assert(report_views(reports@) =~= reports_after(start, event@));
        }
        InstallStep { reports, action }
    }

    /// What comes of the plan once there are no more events: the last failure, or the
    /// packages to record, in the order of the plan, and the number of its packages.
    pub fn finish(self) -> (r: Result<(Vec<ProcessedPackage>, ExecuteResult), Error>)
        ensures
            match r {
                Ok((packages, result)) => {
                    &&& self@.error is None
                    &&& packages@.map_values(|p: ProcessedPackage| p@) == records(self@.completed)
                    &&& result.installed == self@.items.len()
                },
                Err(e) => self@.error == Some(e@),
            },
    {
        if let Some(e) = self.error {
            return Err(e);
        }
        let installed: usize = self.items.len();
        let mut packages: Vec<ProcessedPackage> = Vec::new();
        let completed = self.completed;
        let ghost all = self@.completed;
        proof {
            assert(packages@.map_values(|p: ProcessedPackage| p@) =~= records(all.take(0)));
        }
        for slot in it: completed
            invariant
                it.seq() == completed@,
                all == completed@.map_values(|p: Option<ProcessedPackage>| option_package(p)),
                packages@.map_values(|p: ProcessedPackage| p@) == records(all.take(it.index())),
        {
            let ghost held = packages@.map_values(|p: ProcessedPackage| p@);
            proof {
                assert(all.take(it.index() + 1).drop_last() =~= all.take(it.index()));
                assert(all.take(it.index() + 1).last() == option_package(slot));
            }
            if let Some(package) = slot {
                packages.push(package);
                proof {
                    assert(packages@.map_values(|p: ProcessedPackage| p@) =~= held.push(package@));
                }
            }
        }
        proof {
            assert(all.take(all.len() as int) =~= all);
        }
        Ok((packages, ExecuteResult { installed }))
    }
}

} // verus!
