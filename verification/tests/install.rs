use zerobrew::error::Error;
use zerobrew::execute::{Execution, InstallAction, InstallEvent, InstallStep, LinkedFile};
use zerobrew::fetch::FetchQueue;
use zerobrew::formula::{
    Bottle, BottleFile, BottleStable, Formula, SelectedBottle, Versions,
};
use zerobrew::install::{InstallPlan, Installer};
use zerobrew::progress::InstallProgress;
use zerobrew::tap::TapManager;
use zerobrew::text_map::TextMap;

fn installer() -> Installer {
    let taps = TapManager::new("/opt/zerobrew".to_string());
    Installer::new("/opt/zerobrew".to_string(), "/opt/homebrew".to_string(), taps)
}

fn formula(name: &str, dependencies: &[&str]) -> Formula {
    let mut files = TextMap::new();
    files.insert(
        "x86_64_linux".to_string(),
        BottleFile { url: format!("https://example.com/{name}"), sha256: format!("sha_{name}") },
    );
    Formula {
        name: name.to_string(),
        versions: Versions { stable: "1.0.0".to_string() },
        dependencies: dependencies.iter().map(|d| d.to_string()).collect(),
        bottle: Bottle { stable: BottleStable { files, rebuild: 0 } },
        revision: 0,
    }
}

fn bottle(name: &str) -> SelectedBottle {
    SelectedBottle { url: format!("https://example.com/{name}"), sha256: format!("sha_{name}") }
}

fn network(message: &str) -> Error {
    Error::NetworkFailure { message: message.to_string() }
}

fn network_message<T>(result: Result<T, Error>) -> String {
    match result {
        Err(Error::NetworkFailure { message }) => message,
        _ => panic!("not a network failure"),
    }
}

fn plan(names: &[&str]) -> InstallPlan {
    InstallPlan {
        formulas: names.iter().map(|n| formula(n, &[])).collect(),
        bottles: names.iter().map(|n| bottle(n)).collect(),
    }
}

fn started(names: &[&str], link: bool) -> Execution {
    let versions = names.iter().map(|_| "1.0.0_1".to_string()).collect();
    installer().execute_with_progress(plan(names), &versions, link, true)
}

fn names_of(reports: &[InstallProgress]) -> Vec<String> {
    reports
        .iter()
        .map(|r| match r {
            InstallProgress::UnpackStarted { name } => format!("unpack {name}"),
            InstallProgress::UnpackCompleted { name } => format!("unpacked {name}"),
            InstallProgress::LinkStarted { name } => format!("link {name}"),
            InstallProgress::LinkCompleted { name } => format!("linked {name}"),
            InstallProgress::InstallCompleted { name } => format!("installed {name}"),
        })
        .collect()
}

fn linked_file(name: &str) -> LinkedFile {
    LinkedFile {
        link_path: format!("/opt/homebrew/bin/{name}"),
        target_path: format!("/opt/homebrew/Cellar/{name}/1.0.0_1/bin/{name}"),
    }
}

/// Brings the package in a position through all its steps, and gives the reports.
fn carry_out(execution: &mut Execution, index: usize, name: &str) -> Vec<String> {
    let mut reports = Vec::new();
    let mut step: InstallStep = execution.on_event(InstallEvent::Downloaded { index });
    loop {
        reports.extend(names_of(&step.reports));
        step = match step.action {
            InstallAction::Extract { index } => {
                execution.on_event(InstallEvent::Extracted { index, result: Ok(()) })
            }
            InstallAction::Materialize { index, name: n, version } => {
                assert_eq!(n, name);
                assert_eq!(version, "1.0.0_1");
                execution.on_event(InstallEvent::Materialized { index, result: Ok(()) })
            }
            InstallAction::Link { index } => {
                let files = Ok(vec![linked_file(name)]);
                execution.on_event(InstallEvent::Linked { index, files })
            }
            InstallAction::Await => return reports,
        };
    }
}

#[test]
fn dependencies_are_fetched_batch_by_batch() {
    let mut queue = FetchQueue::new("pkg1");
    let mut batches = Vec::new();
    loop {
        let batch = queue.next_batch();
        if batch.is_empty() {
            break;
        }
        let results = batch
            .iter()
            .map(|n| match n.as_str() {
                "pkg5" => Ok(formula("pkg5", &[])),
                "pkg4" => Ok(formula("pkg4", &["pkg5"])),
                "pkg3" => Ok(formula("pkg3", &["pkg4"])),
                "pkg2" => Ok(formula("pkg2", &["pkg3"])),
                _ => Ok(formula("pkg1", &["pkg2"])),
            })
            .collect();
        batches.push(batch);
        queue = queue.on_results(results).unwrap();
    }
    assert_eq!(batches.len(), 5);
    let formulas = queue.finish();
    assert_eq!(formulas.keys(), vec!["pkg1", "pkg2", "pkg3", "pkg4", "pkg5"]);
    assert_eq!(formulas.get("pkg3").unwrap().dependencies, vec!["pkg4"]);
}

#[test]
fn shared_and_circular_dependencies_are_fetched_once() {
    let mut queue = FetchQueue::new("a");
    assert_eq!(queue.next_batch(), vec!["a"]);
    queue = queue.on_results(vec![Ok(formula("a", &["b", "c", "b", "a"]))]).unwrap();
    assert_eq!(queue.next_batch(), vec!["b", "c"]);
    queue = queue
        .on_results(vec![Ok(formula("b", &["d", "a"])), Ok(formula("c", &["d", "b"]))])
        .unwrap();
    assert_eq!(queue.next_batch(), vec!["d"]);
    queue = queue.on_results(vec![Ok(formula("d", &["a"]))]).unwrap();
    assert!(queue.next_batch().is_empty());
    assert_eq!(queue.finish().keys(), vec!["a", "b", "c", "d"]);
}

#[test]
fn first_failure_ends_the_fetching() {
    let mut queue = FetchQueue::new("a");
    queue.next_batch();
    queue = queue.on_results(vec![Ok(formula("a", &["b", "c", "d"]))]).unwrap();
    queue.next_batch();
    let results = vec![Ok(formula("b", &[])), Err(network("first")), Err(network("second"))];
    assert_eq!(network_message(queue.on_results(results)), "first");
}

#[test]
fn plan_follows_the_order() {
    let mut formulas = TextMap::new();
    formulas.insert("mainpkg".to_string(), formula("mainpkg", &["deppkg"]));
    formulas.insert("deppkg".to_string(), formula("deppkg", &[]));
    let ordered = vec!["deppkg".to_string(), "mainpkg".to_string()];
    let selected = vec![Ok(bottle("deppkg")), Ok(bottle("mainpkg"))];
    let plan = installer().plan(&formulas, &ordered, selected).unwrap();
    assert_eq!(plan.formulas.len(), 2);
    assert_eq!(plan.formulas[0].name, "deppkg");
    assert_eq!(plan.formulas[1].name, "mainpkg");
    assert_eq!(plan.formulas[1].dependencies, vec!["deppkg"]);
    assert_eq!(plan.formulas[1].bottle.stable.files.get("x86_64_linux").unwrap().sha256, "sha_mainpkg");
    assert_eq!(plan.bottles[0].sha256, "sha_deppkg");
    assert_eq!(plan.bottles[1].sha256, "sha_mainpkg");
}

#[test]
fn plan_fails_without_a_bottle() {
    let mut formulas = TextMap::new();
    formulas.insert("a".to_string(), formula("a", &[]));
    let ordered = vec!["a".to_string(), "a".to_string(), "a".to_string()];
    let selected = vec![Ok(bottle("a")), Err(network("none")), Err(network("later"))];
    assert_eq!(network_message(installer().plan(&formulas, &ordered, selected)), "none");
}

#[test]
fn empty_plan_installs_nothing() {
    let execution = installer().execute(plan(&[]), &Vec::new(), true);
    assert_eq!(execution.len(), 0);
    assert!(execution.requests().is_empty());
    let (packages, result) = execution.finish().unwrap();
    assert!(packages.is_empty());
    assert_eq!(result.installed, 0);
}

#[test]
fn every_bottle_is_requested() {
    let requests = started(&["dep", "main"], true).requests();
    assert_eq!(requests.len(), 2);
    assert_eq!(requests[0].url, "https://example.com/dep");
    assert_eq!(requests[0].sha256, "sha_dep");
    assert_eq!(requests[0].name, "dep");
    assert_eq!(requests[1].name, "main");
}

#[test]
fn packages_are_recorded_in_the_order_of_the_plan() {
    let mut execution = started(&["slow", "fast"], true);
    carry_out(&mut execution, 1, "fast");
    carry_out(&mut execution, 0, "slow");
    let (packages, result) = execution.finish().unwrap();
    assert_eq!(result.installed, 2);
    assert_eq!(packages.len(), 2);
    assert_eq!(packages[0].name, "slow");
    assert_eq!(packages[0].version, "1.0.0_1");
    assert_eq!(packages[0].store_key, "sha_slow");
    assert_eq!(packages[0].linked_files[0].link_path, "/opt/homebrew/bin/slow");
    assert_eq!(
        packages[0].linked_files[0].target_path,
        "/opt/homebrew/Cellar/slow/1.0.0_1/bin/slow"
    );
    assert_eq!(packages[1].name, "fast");
}

#[test]
fn progress_is_reported() {
    let mut execution = started(&["p"], true);
    assert_eq!(
        carry_out(&mut execution, 0, "p"),
        vec!["unpack p", "unpacked p", "link p", "linked p", "installed p"]
    );
    let mut unlinked = started(&["p"], false);
    assert_eq!(
        carry_out(&mut unlinked, 0, "p"),
        vec!["unpack p", "unpacked p", "installed p"]
    );
    let (packages, _) = unlinked.finish().unwrap();
    assert!(packages[0].linked_files.is_empty());
}

#[test]
fn nothing_is_reported_without_a_listener() {
    let mut execution = installer().execute(plan(&["p"]), &vec!["1.0.0_1".to_string()], true);
    assert!(carry_out(&mut execution, 0, "p").is_empty());
    assert_eq!(execution.finish().unwrap().1.installed, 1);
}

#[test]
fn last_failure_is_reported_and_nothing_recorded() {
    let mut execution = started(&["a", "b", "c"], true);
    carry_out(&mut execution, 0, "a");
    execution.on_event(InstallEvent::DownloadFailed(network("first")));
    execution.on_event(InstallEvent::Downloaded { index: 2 });
    let step = execution.on_event(InstallEvent::Extracted { index: 2, result: Err(network("last")) });
    assert!(matches!(step.action, InstallAction::Await));
    assert!(step.reports.is_empty());
    assert_eq!(network_message(execution.finish()), "last");
}

#[test]
fn each_step_can_fail() {
    let mut execution = started(&["a"], true);
    let step = execution
        .on_event(InstallEvent::Materialized { index: 0, result: Err(network("cellar")) });
    assert!(matches!(step.action, InstallAction::Await));
    assert_eq!(network_message(execution.finish()), "cellar");
    let mut execution = started(&["a"], true);
    let step = execution.on_event(InstallEvent::Linked { index: 0, files: Err(network("link")) });
    assert!(matches!(step.action, InstallAction::Await));
    assert!(step.reports.is_empty());
    assert_eq!(network_message(execution.finish()), "link");
}

#[test]
fn formula_without_a_bottle_in_the_plan_is_left_out() {
    let plan = InstallPlan {
        formulas: vec![formula("a", &[]), formula("b", &[])],
        bottles: vec![bottle("a")],
    };
    let versions = vec!["1".to_string(), "2".to_string()];
    assert_eq!(installer().execute(plan, &versions, true).len(), 1);
}

#[test]
fn last_links_of_a_package_are_recorded() {
    let mut execution = started(&["a"], true);
    carry_out(&mut execution, 0, "a");
    let files = Ok(vec![linked_file("later")]);
    execution.on_event(InstallEvent::Linked { index: 0, files });
    let (packages, _) = execution.finish().unwrap();
    assert_eq!(packages[0].linked_files.len(), 1);
    assert_eq!(packages[0].linked_files[0].link_path, "/opt/homebrew/bin/later");
}
