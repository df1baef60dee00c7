use zerobrew::cask::{Artifact, Cask, CaskError};
use zerobrew::cask_install::{BinaryLink, CaskFailure, CaskStage, LinkStep};
use zerobrew::error::Error;
use zerobrew::extract::{ExtractEvent, ExtractStep, Extraction, MAX_CORRUPTION_RETRIES};
use zerobrew::install::Installer;
use zerobrew::progress::{DownloadRequest, InstallProgress};
use zerobrew::remove::UninstallStep;
use zerobrew::setup::{create_installer, SetupFailure, SetupStep};
use zerobrew::tap::TapManager;

fn installer() -> Installer {
    let taps = TapManager::new("/root".to_string());
    Installer::new("/root".to_string(), "/prefix".to_string(), taps)
}

fn extraction() -> Extraction {
    Extraction::new(DownloadRequest {
        url: "https://example.com/retry".to_string(),
        sha256: "sha".to_string(),
        name: "retrypkg".to_string(),
    })
}

fn corrupted() -> ExtractEvent {
    ExtractEvent::Extracted(Err(Error::StoreCorruption { message: "bad checksum".to_string() }))
}

fn stored_message(error: Error) -> String {
    match error {
        Error::StoreCorruption { message } => message,
        _ => panic!("not a corruption of the store"),
    }
}

#[test]
fn corrupted_download_is_repeated() {
    let mut extraction = extraction();
    match extraction.on_event(corrupted()) {
        ExtractStep::Redownload { corrupted, notice, request } => {
            assert_eq!(corrupted, "sha");
            assert_eq!(notice, "    Corrupted download detected for retrypkg, retrying (2/3)...");
            assert_eq!(request.url, "https://example.com/retry");
            assert_eq!(request.sha256, "sha");
            assert_eq!(request.name, "retrypkg");
        }
        _ => panic!("the download is not repeated"),
    }
    assert!(matches!(extraction.on_event(ExtractEvent::Redownloaded(Ok(()))), ExtractStep::Extract));
    assert!(matches!(extraction.on_event(ExtractEvent::Extracted(Ok(()))), ExtractStep::Done));
}

#[test]
fn download_is_given_up_after_three_attempts() {
    assert_eq!(MAX_CORRUPTION_RETRIES, 3);
    let mut extraction = extraction();
    extraction.on_event(corrupted());
    extraction.on_event(ExtractEvent::Redownloaded(Ok(())));
    match extraction.on_event(corrupted()) {
        ExtractStep::Redownload { notice, .. } => {
            assert_eq!(notice, "    Corrupted download detected for retrypkg, retrying (3/3)...");
        }
        _ => panic!("the download is not repeated"),
    }
    extraction.on_event(ExtractEvent::Redownloaded(Ok(())));
    match extraction.on_event(corrupted()) {
        ExtractStep::Fail { remove, error } => {
            assert_eq!(remove, Some("sha".to_string()));
            assert_eq!(
                stored_message(error),
                "bad checksum\n\nFailed after 3 attempts. The download may be corrupted at the source."
            );
        }
        _ => panic!("the download is not given up"),
    }
}

#[test]
fn other_failures_end_the_extraction() {
    let failed = || Err(Error::NetworkFailure { message: "down".to_string() });
    for event in [ExtractEvent::Extracted(failed()), ExtractEvent::Redownloaded(failed())] {
        match extraction().on_event(event) {
            ExtractStep::Fail { remove, error: Error::NetworkFailure { message } } => {
                assert_eq!(remove, None);
                assert_eq!(message, "down");
            }
            _ => panic!("the extraction goes on"),
        }
    }
}

#[test]
fn package_is_uninstalled_in_order() {
    let mut step = installer().uninstall("tool", Some("1.0".to_string())).unwrap();
    let mut taken = Vec::new();
    loop {
        match &step {
            UninstallStep::Unlink { name, version } => taken.push(format!("unlink {name} {version}")),
            UninstallStep::Record { name, version } => taken.push(format!("record {name} {version}")),
            UninstallStep::RemoveKeg { name, version } => taken.push(format!("keg {name} {version}")),
            UninstallStep::Done => break,
        }
        step = step.taken(Ok(())).unwrap();
    }
    assert_eq!(taken, vec!["unlink tool 1.0", "record tool 1.0", "keg tool 1.0"]);
}

#[test]
fn failed_step_ends_the_uninstall() {
    let step = installer().uninstall("tool", Some("1.0".to_string())).unwrap();
    let failed = step.taken(Err(Error::StoreCorruption { message: "busy".to_string() }));
    match failed {
        Err(e) => assert_eq!(stored_message(e), "busy"),
        Ok(_) => panic!("the uninstall goes on"),
    }
}

#[test]
fn package_that_is_not_there_is_not_uninstalled() {
    match installer().uninstall("tool", None) {
        Err(Error::NotInstalled { name }) => assert_eq!(name, "tool"),
        _ => panic!("the package is uninstalled"),
    }
}

#[test]
fn unreferenced_keys_are_removed() {
    let mut collection = installer().gc(vec!["k1".to_string(), "k2".to_string()]);
    assert_eq!(collection.next(), Some("k1".to_string()));
    collection = collection.taken(Ok(())).unwrap();
    assert_eq!(collection.next(), Some("k2".to_string()));
    collection = collection.taken(Ok(())).unwrap();
    assert_eq!(collection.next(), None);
    assert_eq!(collection.finish(), vec!["k1", "k2"]);
    assert!(installer().gc(Vec::new()).finish().is_empty());
}

#[test]
fn key_that_stays_ends_the_collection() {
    let collection = installer().gc(vec!["k1".to_string()]);
    match collection.taken(Err(Error::StoreCorruption { message: "busy".to_string() })) {
        Err(e) => assert_eq!(stored_message(e), "busy"),
        Ok(_) => panic!("the collection goes on"),
    }
}

fn cask() -> Cask {
    Cask {
        name: "Tool".to_string(),
        version: "2.0".to_string(),
        sha256: "ab".to_string(),
        url: "https://example.com/tool".to_string(),
        homepage: None,
        binary: Some("legacy".to_string()),
        artifacts: vec![
            Artifact::App("Tool.app".to_string()),
            Artifact::Binary("./bin/tool".to_string()),
            Artifact::Binary("/usr/bin/other".to_string()),
        ],
    }
}

fn reports(stage: CaskStage) -> Vec<String> {
    let install = installer().prepare_cask("tool", Ok(cask())).unwrap();
    install
        .reports(stage)
        .iter()
        .map(|r| match r {
            InstallProgress::UnpackStarted { name } => format!("unpack {name}"),
            InstallProgress::UnpackCompleted { name } => format!("unpacked {name}"),
            InstallProgress::LinkStarted { name } => format!("link {name}"),
            InstallProgress::LinkCompleted { name } => format!("linked {name}"),
            InstallProgress::InstallCompleted { name } => format!("installed {name}"),
        })
        .collect()
}

#[test]
fn cask_gets_its_directory_and_links() {
    let install = installer().prepare_cask("tool", Ok(cask())).unwrap();
    assert_eq!(install.title, "Tool");
    assert_eq!(install.request.url, "https://example.com/tool");
    assert_eq!(install.request.sha256, "ab");
    assert_eq!(install.request.name, "tool");
    assert_eq!(install.caskroom, "/root/Caskroom/tool/2.0");
    let links: Vec<(String, bool)> =
        install.links.iter().map(|l| (l.source.clone(), l.expected)).collect();
    assert_eq!(
        links,
        vec![
            ("/root/Caskroom/tool/2.0/./bin/tool".to_string(), true),
            ("/usr/bin/other".to_string(), true),
            ("/root/Caskroom/tool/2.0/legacy".to_string(), false),
        ]
    );
}

#[test]
fn cask_file_is_read_for_installation() {
    let content = "cask 'c' do\n  version \"1\"\n  sha256 \"ab\"\n  url \"u-#{arch}\"\n  name \"C\"\n  binary \"#{staged_path}/c\"\nend\n";
    let install = installer().install_cask("c", content, "arm64_linux").unwrap();
    assert_eq!(install.title, "C");
    assert_eq!(install.request.url, "u-arm64");
    assert_eq!(install.caskroom, "/root/Caskroom/c/1");
    assert_eq!(install.links[0].source, "/root/Caskroom/c/1/./c");
    assert_eq!(install.links.len(), 1);
}

#[test]
fn cask_that_cannot_be_read_is_refused() {
    match installer().install_cask("c", "", "x86_64_linux") {
        Err(Error::FormulaParseError { message }) => {
            assert_eq!(message, "Missing required field: name");
        }
        _ => panic!("the cask was taken"),
    }
    match installer().prepare_cask("c", Err(CaskError::ParseError("why".to_string()))) {
        Err(Error::FormulaParseError { message }) => {
            assert_eq!(message, "Failed to parse cask: why");
        }
        _ => panic!("the cask was taken"),
    }
}

#[test]
fn stages_of_a_cask_are_reported() {
    assert_eq!(reports(CaskStage::Stored), vec!["unpack Tool"]);
    assert_eq!(reports(CaskStage::Placed), vec!["unpacked Tool", "link Tool"]);
    assert_eq!(reports(CaskStage::Linked), vec!["linked Tool", "installed Tool"]);
}

#[test]
fn binary_is_linked_under_its_name() {
    let link = BinaryLink { source: "/room/./bin/tool".to_string(), expected: true };
    match link.step("/prefix", true, "/room/./bin/tool") {
        LinkStep::Link(target) => assert_eq!(target, "/prefix/bin/tool"),
        _ => panic!("the binary is not linked"),
    }
}

#[test]
fn missing_binary_is_only_missed_where_it_is_expected() {
    let expected = BinaryLink { source: "/room/tool".to_string(), expected: true };
    match expected.step("/prefix", false, "/room/tool") {
        LinkStep::Warn(text) => assert_eq!(text, "Warning: Binary /room/tool not found"),
        _ => panic!("there is no warning"),
    }
    let legacy = BinaryLink { source: "/room/tool".to_string(), expected: false };
    assert!(matches!(legacy.step("/prefix", false, "/room/tool"), LinkStep::Skip));
}

#[test]
fn failures_of_a_cask_are_told_apart() {
    let message = |failure: CaskFailure| stored_message(failure.error("why"));
    assert_eq!(
        message(CaskFailure::Read("/a.rb".to_string())),
        "Failed to read cask file /a.rb: why"
    );
    assert_eq!(message(CaskFailure::RemoveOld), "Failed to remove existing caskroom dir: why");
    assert_eq!(message(CaskFailure::MakeParent), "Failed to create caskroom parent: why");
    assert_eq!(
        message(CaskFailure::LinkStore),
        "Failed to symlink store entry to caskroom: why"
    );
    assert_eq!(message(CaskFailure::LinkBinary), "Failed to symlink binary: why");
}

fn shown(steps: &[SetupStep]) -> Vec<String> {
    steps
        .iter()
        .map(|s| match s {
            SetupStep::Root => "root".to_string(),
            SetupStep::DbDir(p) => format!("db {p}"),
            SetupStep::Cache(p) => format!("cache {p}"),
            SetupStep::Store => "store".to_string(),
            SetupStep::Cellar(p) => format!("cellar {p}"),
            SetupStep::Linker => "linker".to_string(),
            SetupStep::Database(p) => format!("database {p}"),
        })
        .collect()
}

#[test]
fn parts_are_set_up_in_order() {
    let common = vec![
        "db /root/db",
        "cache /root/cache",
        "store",
        "cellar /prefix/Cellar",
        "linker",
        "database /root/db/zb.sqlite3",
    ];
    assert_eq!(shown(&create_installer("/root", "/prefix", true)), common);
    let steps = shown(&create_installer("/root", "/prefix", false));
    assert_eq!(steps[0], "root");
    assert_eq!(steps[1..], common[..]);
}

#[test]
fn failures_of_the_setup_are_told_apart() {
    let message = |step: SetupStep| {
        stored_message(step.error("/root", SetupFailure::Other("why".to_string())))
    };
    assert_eq!(message(SetupStep::Root), "failed to create root directory '/root': why");
    assert_eq!(message(SetupStep::DbDir(String::new())), "failed to create db directory: why");
    assert_eq!(message(SetupStep::Cache(String::new())), "failed to create blob cache: why");
    assert_eq!(message(SetupStep::Store), "failed to create store: why");
    assert_eq!(message(SetupStep::Cellar(String::new())), "failed to create cellar: why");
    assert_eq!(message(SetupStep::Linker), "failed to create linker: why");
    assert_eq!(
        stored_message(SetupStep::Root.error("/root", SetupFailure::Denied)),
        "cannot create root directory '/root': permission denied.\n\nCreate it with:\n  sudo mkdir -p /root && sudo chown $USER /root"
    );
    let own = SetupFailure::Own(Error::StoreCorruption { message: "locked".to_string() });
    assert_eq!(stored_message(SetupStep::Database(String::new()).error("/root", own)), "locked");
}
