use zerobrew::cask::{interpolate, Artifact, Cask, CaskContext, CaskError};
use zerobrew::text_map::TextMap;

#[test]
fn parse_antigravity_snippet() {
    let content = r##"
cask "antigravity-linux" do
  arch arm: "arm", intel: "x64"

  version "1.15.8,5724687216017408"
  sha256 arm64_linux:  "a39cb7...",
         x86_64_linux: "44afc..."

  url "https://edgedl.me.gvt1.com/edgedl/release2/j0qc3/antigravity/stable/#{version.csv.first}-#{version.csv.second}/linux-#{arch}/Antigravity.tar.gz"
  name "Google Antigravity"
  
  binary "#{staged_path}/Antigravity/bin/antigravity"
end
"##;
    // Test x86_64_linux
    let cask = Cask::parse(content, "x86_64_linux").unwrap();
    assert_eq!(cask.version, "1.15.8,5724687216017408");
    assert_eq!(cask.name, "Google Antigravity");
    // Verify interpolation
    assert!(cask.url.contains("1.15.8-5724687216017408"));
    assert!(cask.url.contains("linux-x64"));
}

fn context(version: Option<&str>, arch: &str) -> CaskContext {
    CaskContext {
        version: version.map(|v| v.to_string()),
        arch: arch.to_string(),
        variables: TextMap::new(),
        artifacts: Vec::new(),
    }
}

fn small_cask(rest: &str) -> String {
    format!("cask \"c\" do\n  version \"1.0\"\n  sha256 \"ab\"\n  url \"u\"\n  name \"C\"\n{rest}end\n")
}

#[test]
fn platform_hash_is_taken() {
    let content = "cask 'c' do\n  version \"1\"\n  sha256 arm64_linux: \"aa\", x86_64_linux: \"bb\"\n  url \"u\"\n  name \"C\"\nend\n";
    assert_eq!(Cask::parse(content, "arm64_linux").unwrap().sha256, "aa");
    assert_eq!(Cask::parse(content, "x86_64_linux").unwrap().sha256, "bb");
    match Cask::parse(content, "s390x_linux") {
        Err(CaskError::MissingField(field)) => assert_eq!(field, "sha256"),
        _ => panic!("a hash was found"),
    }
}

#[test]
fn cask_is_read_whole() {
    let cask = Cask::parse(
        &small_cask("  homepage \"https://h\"\n  binary \"#{staged_path}/bin/c\"\n  app \"C.app\"\n  artifact \"x\"\n"),
        "x86_64_linux",
    )
    .unwrap();
    assert_eq!(
        cask,
        Cask {
            name: "C".to_string(),
            version: "1.0".to_string(),
            sha256: "ab".to_string(),
            url: "u".to_string(),
            homepage: Some("https://h".to_string()),
            binary: None,
            artifacts: vec![
                Artifact::Binary("./bin/c".to_string()),
                Artifact::App("C.app".to_string()),
                Artifact::Unknown,
            ],
        }
    );
}

#[test]
fn first_plain_string_counts() {
    let cask = Cask::parse(&small_cask("  name \"Other\"\n"), "x86_64_linux").unwrap();
    assert_eq!(cask.name, "C");
}

#[test]
fn version_may_stand_last() {
    let content = "cask 'c' do\n  url \"u-#{version}\"\n  sha256 \"ab\"\n  name \"C\"\n  version \"9\"\nend\n";
    assert_eq!(Cask::parse(content, "x86_64_linux").unwrap().url, "u-9");
}

#[test]
fn missing_fields_are_named_in_order() {
    let missing = |content: &str| match Cask::parse(content, "x86_64_linux") {
        Err(e @ CaskError::MissingField(_)) => e.message(),
        _ => panic!("nothing is missing"),
    };
    assert_eq!(missing(""), "Missing required field: name");
    assert_eq!(missing("name \"C\"\n"), "Missing required field: version");
    assert_eq!(missing("name \"C\"\nversion \"1\"\n"), "Missing required field: sha256");
    assert_eq!(
        missing("name \"C\"\nversion \"1\"\nsha256 \"ab\"\n"),
        "Missing required field: url"
    );
}

#[test]
fn version_without_a_string_is_an_error() {
    match Cask::parse("version :latest\n", "x86_64_linux") {
        Err(e @ CaskError::ParseError(_)) => {
            assert_eq!(e.message(), "Failed to parse cask: Could not find string argument");
        }
        _ => panic!("the cask was taken"),
    }
}

#[test]
fn placeholders_are_filled_in() {
    let ctx = context(Some("1.2,34,5"), "x86_64_linux");
    assert_eq!(interpolate("a-#{version}-b", &ctx), "a-1.2,34,5-b");
    assert_eq!(interpolate("#{version.csv.first}/#{version.csv.second}", &ctx), "1.2/34");
    assert_eq!(interpolate("linux-#{arch}", &ctx), "linux-x64");
    assert_eq!(interpolate("#{arch}", &context(None, "arm64_linux")), "arm64");
    assert_eq!(interpolate("#{staged_path}/bin", &ctx), "./bin");
    assert_eq!(interpolate("plain", &ctx), "plain");
}

#[test]
fn parts_of_a_plain_version_stay() {
    let ctx = context(Some("1.2"), "x86_64_linux");
    assert_eq!(interpolate("#{version.csv.first}", &ctx), "#{version.csv.first}");
    assert_eq!(interpolate("#{version}", &context(None, "x86_64_linux")), "#{version}");
}

#[test]
fn last_value_of_the_platform_counts() {
    let content = "version \"1\"\nsha256 \"plain\"\nsha256 x86_64_linux: \"one\"\nsha256 x86_64_linux: \"two\"\nsha256 \"late\"\nurl \"u\"\nname \"C\"\n";
    assert_eq!(Cask::parse(content, "x86_64_linux").unwrap().sha256, "two");
    assert_eq!(Cask::parse(content, "arm64_linux").unwrap().sha256, "plain");
}
