use zerobrew::bundle::{Bundle, BundleParser};
use zerobrew::syntax::{Argument, SyntaxNode};

#[test]
fn test_parse_simple_brewfile() {
    let content = r#"
            tap "homebrew/core"
            brew "bat"
            cask "firefox"
            flatpak "org.mozilla.firefox"
        "#;
    let bundle = BundleParser::parse(content).unwrap();

    assert_eq!(bundle.taps, vec!["homebrew/core"]);
    assert_eq!(bundle.brews, vec!["bat"]);
    assert_eq!(bundle.casks, vec!["firefox"]);
    assert_eq!(bundle.flatpaks, vec!["org.mozilla.firefox"]);
}

#[test]
fn test_parse_mixed_quotes_and_comments() {
    let content = r#"
            # This is a comment
            tap 'homebrew/services'
            brew "ripgrep" # Inline comment
            
            # Another comment
            cask "iterm2"
        "#;

    let bundle = BundleParser::parse(content).unwrap();

    assert!(bundle.taps.contains(&"homebrew/services".to_string()));
    assert_eq!(bundle.brews, vec!["ripgrep"]);
    assert_eq!(bundle.casks, vec!["iterm2"]);
}

#[test]
fn test_ignore_unknown_commands() {
    let content = r#"
            gem "rails"
            brew "git"
            mas "Xcode", id: 497799835
        "#;
    let bundle = BundleParser::parse(content).unwrap();

    assert_eq!(bundle.brews, vec!["git"]);
    assert!(bundle.taps.is_empty());
    assert!(bundle.flatpaks.is_empty());
}

fn argument(kind: &str, text: &str, children: Vec<Argument>) -> Argument {
    Argument {
        kind: kind.to_string(),
        text: text.to_string(),
        key: None,
        value: None,
        children,
    }
}

fn call(method: &str, arguments: Option<Argument>) -> SyntaxNode {
    SyntaxNode {
        kind: "call".to_string(),
        text: String::new(),
        method: Some(method.to_string()),
        arguments,
        condition: None,
        children: Vec::new(),
    }
}

fn program(children: Vec<SyntaxNode>) -> SyntaxNode {
    SyntaxNode {
        kind: "program".to_string(),
        text: String::new(),
        method: None,
        arguments: None,
        condition: None,
        children,
    }
}

#[test]
fn entries_keep_their_order() {
    let bundle = BundleParser::parse("brew 'b'\ntap 't/1'\nbrew 'a'\ntap 't/2'\n").unwrap();
    assert_eq!(
        bundle,
        Bundle {
            taps: vec!["t/1".to_string(), "t/2".to_string()],
            brews: vec!["b".to_string(), "a".to_string()],
            casks: Vec::new(),
            flatpaks: Vec::new(),
        }
    );
}

#[test]
fn empty_brewfile_lists_nothing() {
    let bundle = BundleParser::parse("").unwrap();
    assert!(bundle.taps.is_empty() && bundle.brews.is_empty());
    assert!(bundle.casks.is_empty() && bundle.flatpaks.is_empty());
}

#[test]
fn empty_string_is_listed() {
    assert_eq!(BundleParser::parse("brew \"\"\n").unwrap().brews, vec![""]);
}

#[test]
fn nested_calls_are_found() {
    let bundle = BundleParser::parse("if OS.linux?\n  brew \"gcc\", args: [\"x\"]\nend\n").unwrap();
    assert_eq!(bundle.brews, vec!["gcc"]);
}

#[test]
fn content_is_taken_before_the_quoted_text() {
    let content = argument("string_content", "inner", Vec::new());
    let with_content = argument("string", "'outer'", vec![content]);
    let without = argument("string", "\"'plain'\"", Vec::new());
    let root = program(vec![
        call("brew", Some(argument("argument_list", "", vec![with_content]))),
        call("cask", Some(argument("argument_list", "", vec![without]))),
        call("tap", Some(argument("argument_list", "", Vec::new()))),
        call("flatpak", None),
    ]);
    let bundle = BundleParser::from_syntax(&root);
    assert_eq!(bundle.brews, vec!["inner"]);
    assert_eq!(bundle.casks, vec!["plain"]);
    assert!(bundle.taps.is_empty());
    assert!(bundle.flatpaks.is_empty());
}

#[test]
fn two_brewfiles_list_what_both_list() {
    let first = "tap 'a/b'\nbrew 'x'\n";
    let second = "brew 'x'\ncask 'c'\nbrew 'y'\n";
    let both = BundleParser::parse(&format!("{first}\n{second}")).unwrap();
    let a = BundleParser::parse(first).unwrap();
    let b = BundleParser::parse(second).unwrap();
    assert_eq!(both.brews, vec!["x", "x", "y"]);
    assert_eq!(both.taps, [a.taps, b.taps].concat());
    assert_eq!(both.brews, [a.brews, b.brews].concat());
    assert_eq!(both.casks, [a.casks, b.casks].concat());
}
