use zerobrew::error::Error;
use zerobrew::tap::{CloneOutcome, TapClone, TapManager, TapStep};

fn manager() -> TapManager {
    TapManager::new("/opt/zerobrew".to_string())
}

fn clone_of(user: &str, repo: &str) -> TapClone {
    match manager().ensure_tap(user, repo, false) {
        TapStep::Clone(clone) => clone,
        TapStep::Ready(_) => panic!("the tap is there"),
    }
}

#[test]
fn taps_lie_in_the_library() {
    assert_eq!(manager().taps_dir(), "/opt/zerobrew/Library/Taps");
    assert_eq!(manager().tap_dir("user", "foo"), "/opt/zerobrew/Library/Taps/user/homebrew-foo");
}

#[test]
fn prefix_of_a_repository_is_optional() {
    let short = clone_of("user", "foo");
    let long = clone_of("user", "homebrew-foo");
    assert_eq!(short.url, "https://github.com/user/homebrew-foo.git");
    assert_eq!(long.url, short.url);
    assert_eq!(long.dir, short.dir);
    assert_eq!(short.notice, "==> Tapping user/foo...");
    assert_eq!(long.notice, "==> Tapping user/homebrew-foo...");
}

#[test]
fn installed_tap_is_taken_as_it_is() {
    match manager().ensure_tap("user", "foo", true) {
        TapStep::Ready(dir) => assert_eq!(dir, "/opt/zerobrew/Library/Taps/user/homebrew-foo"),
        TapStep::Clone(_) => panic!("the tap is cloned again"),
    }
}

#[test]
fn outcome_of_cloning_is_reported() {
    assert_eq!(
        clone_of("u", "r").finish(CloneOutcome::Exited(true)).unwrap(),
        "/opt/zerobrew/Library/Taps/u/homebrew-r"
    );
    match clone_of("u", "r").finish(CloneOutcome::Exited(false)) {
        Err(Error::NetworkFailure { message }) => {
            assert_eq!(message, "Failed to clone tap https://github.com/u/homebrew-r.git");
        }
        _ => panic!("the tap was cloned"),
    }
    match clone_of("u", "r").finish(CloneOutcome::NoGit("not found".to_string())) {
        Err(Error::NetworkFailure { message }) => {
            assert_eq!(message, "Failed to run git: not found");
        }
        _ => panic!("git was run"),
    }
    match clone_of("u", "r").finish(CloneOutcome::NoDirectory("full".to_string())) {
        Err(Error::StoreCorruption { message }) => {
            assert_eq!(message, "Failed to create tap dir: full");
        }
        _ => panic!("the directory was made"),
    }
}

#[test]
fn cask_is_found_in_its_tap() {
    let location = manager().resolve_cask("user/repo/tool").unwrap();
    assert_eq!(location.user, "user");
    assert_eq!(location.repo, "repo");
    assert_eq!(location.path, "/opt/zerobrew/Library/Taps/user/homebrew-repo/Casks/tool.rb");
    let (path, name) = location.found("user/repo/tool", true).unwrap();
    assert_eq!(path, "/opt/zerobrew/Library/Taps/user/homebrew-repo/Casks/tool.rb");
    assert_eq!(name, "tool");
}

#[test]
fn cask_without_a_file_is_missing() {
    let location = manager().resolve_cask("user/repo/tool").unwrap();
    match location.found("user/repo/tool", false) {
        Err(Error::MissingFormula { name }) => assert_eq!(name, "user/repo/tool"),
        _ => panic!("the cask was found"),
    }
}

#[test]
fn cask_without_a_tap_is_missing() {
    for name in ["firefox", "user/firefox", ""] {
        match manager().resolve_cask(name) {
            Err(Error::MissingFormula { name: missing }) => assert_eq!(missing, name),
            _ => panic!("the cask was found"),
        }
    }
}

#[test]
fn layout_does_not_depend_on_the_root() {
    let bare = TapManager::new(String::new());
    assert_eq!(bare.taps_dir(), "Library/Taps");
    assert_eq!(
        bare.resolve_cask("u/r/c").unwrap().path,
        "Library/Taps/u/homebrew-r/Casks/c.rb"
    );
}
