use zerobrew::error::Error;
use zerobrew::formula::Formula;
use zerobrew::formula_parser::FormulaParser;
use zerobrew::platform::{get_current_arch, platform_key, CpuArch};

#[test]
fn test_parse_simple_formula() {
    let content = r#"
class TestFormula < Formula
  version "1.0.0"
  depends_on "foo"
  
  on_linux do
    url "https://example.com/test-linux.tar.gz"
    sha256 "abc123"
  end
end
"#;

    let formula = FormulaParser::parse(content, "test", CpuArch::X86_64).unwrap();
    assert_eq!(formula.name, "test");
    assert_eq!(formula.versions.stable, "1.0.0");
    assert_eq!(formula.dependencies, vec!["foo"]);
    assert!(formula.bottle.stable.files.contains_key("x86_64_linux"));
}

fn parsed(content: &str, arch: CpuArch) -> Formula {
    FormulaParser::parse(content, "tool", arch).unwrap()
}

fn refusal(content: &str) -> String {
    match FormulaParser::parse(content, "tool", CpuArch::X86_64) {
        Err(Error::StoreCorruption { message }) => message,
        _ => panic!("the formula was taken"),
    }
}

#[test]
fn url_and_hash_make_a_bottle() {
    let formula = parsed(
        "version '2.0'\nurl \"https://example.com/a.tar.gz\"\nsha256 'feed'\n",
        CpuArch::X86_64,
    );
    assert_eq!(formula.versions.stable, "2.0");
    assert_eq!(formula.revision, 0);
    assert_eq!(formula.bottle.stable.rebuild, 0);
    assert_eq!(formula.bottle.stable.files.len(), 1);
    let file = formula.bottle.stable.files.get("x86_64_linux").unwrap();
    assert_eq!(file.url, "https://example.com/a.tar.gz");
    assert_eq!(file.sha256, "feed");
}

#[test]
fn each_platform_has_its_bottle() {
    let content = r#"
class Tool < Formula
  version "1"
  on_macos do
    url "https://example.com/mac.tar.gz"
    sha256 "aa"
  end
  on_linux do
    url "https://example.com/linux.tar.gz"
    sha256 "bb"
  end
end
"#;
    let files = parsed(content, CpuArch::X86_64).bottle.stable.files;
    assert_eq!(files.keys(), vec!["arm64_sonoma", "x86_64_linux"]);
    assert_eq!(files.get("arm64_sonoma").unwrap().sha256, "aa");
    assert_eq!(files.get("x86_64_linux").unwrap().sha256, "bb");
}

#[test]
fn conditional_is_read_for_its_processor() {
    let content = r#"
class Tool < Formula
  version "1"
  depends_on "common"
  if Hardware::CPU.intel?
    depends_on "intel-only"
    url "https://example.com/intel.tar.gz"
    sha256 "11"
  end
  if Hardware::CPU.arm?
    depends_on "arm-only"
    url "https://example.com/arm.tar.gz"
    sha256 "22"
  end
end
"#;
    let intel = parsed(content, CpuArch::X86_64);
    assert_eq!(intel.dependencies, vec!["common", "intel-only"]);
    assert_eq!(intel.bottle.stable.files.get("x86_64_linux").unwrap().sha256, "11");
    let arm = parsed(content, CpuArch::ARM64);
    assert_eq!(arm.dependencies, vec!["common", "arm-only"]);
    assert_eq!(arm.bottle.stable.files.get("x86_64_linux").unwrap().sha256, "22");
}

#[test]
fn modifier_is_a_conditional_and_others_always_hold() {
    let content = r#"
version "1"
url "https://example.com/a.tar.gz"
sha256 "aa"
depends_on "never" if Hardware::CPU.arm?
depends_on "always" if build.head?
"#;
    assert_eq!(parsed(content, CpuArch::X86_64).dependencies, vec!["always"]);
}

#[test]
fn last_version_counts() {
    let content = "version '1'\nversion '2'\nurl 'https://example.com/a'\nsha256 'aa'\n";
    assert_eq!(parsed(content, CpuArch::X86_64).versions.stable, "2");
}

#[test]
fn formula_without_version_is_refused() {
    assert_eq!(refusal("url 'https://example.com/a'\nsha256 'aa'\n"), "Formula tool missing version");
}

#[test]
fn formula_without_bottles_is_refused() {
    assert_eq!(refusal("version '1'\nurl 'https://example.com/a'\n"), "Formula tool has no bottles");
}

#[test]
fn processors_are_known_by_name() {
    assert_eq!(get_current_arch("aarch64"), CpuArch::ARM64);
    assert_eq!(get_current_arch("x86_64"), CpuArch::X86_64);
    assert_eq!(get_current_arch("riscv64"), CpuArch::X86_64);
    assert_eq!(platform_key(CpuArch::ARM64), "arm64_linux");
    assert_eq!(platform_key(CpuArch::X86_64), "x86_64_linux");
}
