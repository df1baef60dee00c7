use zerobrew::bundle::{Bundle, BundleParser};
use zerobrew::cask::Cask;
use zerobrew::formula_parser::FormulaParser;
use zerobrew::heredoc::{check_heredocs, STATE_LIMIT, WORD_LIMIT};
use zerobrew::platform::CpuArch;
use zerobrew::stand_in::find_stand_in;

fn heredoc(word: &str) -> String {
    format!("brew \"git\"\nputs <<~{word}\n  brew \"inside\"\n{word}\nbrew \"bat\"\n")
}

/// A comment after which the scanner is not known to be safe with a word of four.
fn doubt() -> String {
    format!("# {}\n", "/".repeat(203))
}

fn parsed(content: &str) -> Bundle {
    BundleParser::parse(content).unwrap()
}

#[test]
fn sources_without_heredocs_fit() {
    assert!(check_heredocs(""));
    assert!(check_heredocs("a < b"));
    assert!(check_heredocs("<<"));
    assert!(check_heredocs(&"\"'`/%".repeat(1000)));
    assert!(check_heredocs(&format!("a << {}", "b".repeat(1000))));
}

#[test]
fn heredocs_are_read() {
    assert_eq!(find_stand_in(&heredoc("EOS")), None);
    assert_eq!(parsed(&heredoc("EOS")).brews, vec!["git", "bat"]);
}

#[test]
fn longest_word_fits() {
    assert_eq!(WORD_LIMIT, 255);
    let word = "A".repeat(255);
    assert!(check_heredocs(&heredoc(&word)));
    assert_eq!(parsed(&heredoc(&word)).brews, vec!["git", "bat"]);
}

#[test]
fn longer_words_do_not_fit() {
    let word = "A".repeat(256);
    assert!(!check_heredocs(&heredoc(&word)));
    for start in ["<<", "<<-", "<<~"] {
        assert!(!check_heredocs(&format!("{start}{word}")));
        assert!(!check_heredocs(&format!("{start}\"{word}\"")));
        assert!(!check_heredocs(&format!("{start}'{word}")));
    }
    assert!(check_heredocs(&format!("<<\"{}\"", "é".repeat(255))));
    assert!(!check_heredocs(&format!("<<\"{}\"", "é".repeat(256))));
}

#[test]
fn longer_words_are_read_all_the_same() {
    let word = "W".repeat(300);
    assert_eq!(parsed(&heredoc(&word)).brews, vec!["git", "bat"]);
}

#[test]
fn state_may_not_have_one_byte_too_many() {
    assert_eq!(STATE_LIMIT, 1024);
    // Two bytes, eight for the word, and five for each literal make 1025 bytes.
    assert!(check_heredocs(&format!("<<RUBY\n{}", "'".repeat(202))));
    assert!(!check_heredocs(&format!("<<RUBY\n{}", "'".repeat(203))));
    // A heredoc with a word of three takes seven bytes, and only four of them, with
    // literals, make up that size.
    let strings = "'".repeat(1000);
    assert!(check_heredocs(&format!("{}{strings}", "<<EOS\n".repeat(3))));
    assert!(!check_heredocs(&format!("{}{strings}", "<<EOS\n".repeat(4))));
}

#[test]
fn lengths_that_depend_on_the_machine_are_all_counted() {
    // The word may end before the character outside ASCII, and then have four.
    assert!(!check_heredocs(&format!("<<RUBYé\n{}", "'".repeat(203))));
    assert!(check_heredocs(&format!("<<RUBYx\n{}", "'".repeat(203))));
}

#[test]
fn words_are_named_in_place() {
    let doubt = doubt();
    let source = format!("a <<~YAML, <<-'TEXT'\n  x\n  YAML\n  y\n\tTEXT \nYAMLS\n{doubt}");
    let expected = format!("a <<~A   , <<-'B'   \n  x\n  A   \n  y\n\tB    \nYAMLS\n{doubt}");
    assert_eq!(find_stand_in(&source), Some(expected));
}

#[test]
fn names_do_not_stand_alone_in_the_source() {
    let doubt = doubt();
    let source = format!("<<YAML\nA\nB B\n C C\nYAML\n{doubt}");
    let expected = format!("<<D   \nA\nB B\n C C\nD   \n{doubt}");
    assert_eq!(find_stand_in(&source), Some(expected));
}

#[test]
fn what_cannot_be_named_does_not_open() {
    let doubt = doubt();
    let source = format!("# <<\"word\" <<else <<YAML\nelse\n{doubt}");
    let expected = format!("# <=\"word\" <=else <<A   \nelse\n{doubt}");
    assert_eq!(find_stand_in(&source), Some(expected));
}

#[test]
fn doubtful_heredocs_are_read() {
    for word in ["YAML", "JSON", "TEXT", "'RUBY'", "\"HTML\""] {
        let end = word.trim_matches(|c| c == '\'' || c == '"');
        let source = format!(
            "brew \"git\"\nputs <<~{word}\n  brew \"inside\"\n  A\n  {end}\nbrew \"bat\"\n{}",
            doubt()
        );
        assert!(!check_heredocs(&source));
        assert_eq!(parsed(&source).brews, vec!["git", "bat"], "{word}");
    }
    let four = format!("{}# {}\n", heredoc("EOS").repeat(4), "'".repeat(199));
    assert!(!check_heredocs(&four));
    assert_eq!(parsed(&four).brews, ["git", "bat"].repeat(4));
}

#[test]
fn calls_in_a_heredoc_are_read_alike() {
    let source = "puts <<~YAML\n  #{brew \"x\"} and <<TEXT\nTEXT\n  YAML\ncask 'c'\n";
    let plain = parsed(source);
    assert_eq!(plain.brews, vec!["x"]);
    assert_eq!(plain.casks, vec!["c"]);
    assert_eq!(parsed(&format!("{source}{}", doubt())), plain);
}

#[test]
fn texts_are_those_of_the_source() {
    let source = format!("brew \"a <<YAML b\"\nbrew 'c <<\"d'\nputs <<YAML\nYAML\n{}", doubt());
    assert!(!check_heredocs(&source));
    assert_eq!(parsed(&source).brews, vec!["a <<YAML b", "c <<\"d"]);
}

#[test]
fn doubtful_comments_do_no_harm() {
    let fields = "name \"C\"\nversion \"1\"\nsha256 \"ab\"\nurl \"u\"\n";
    let cask = Cask::parse(&format!("# <<TEXT\n{}{fields}", doubt()), "x86_64_linux").unwrap();
    assert_eq!(cask, Cask::parse(fields, "x86_64_linux").unwrap());
    let first = "brew 'a' # <<TEXT";
    let second = format!("brew 'b' {}", doubt());
    assert!(!check_heredocs(&format!("{first}\n{second}")));
    assert_eq!(parsed(&format!("{first}\n{second}")).brews, vec!["a", "b"]);
    let long = format!("# <<\"\n{}brew 'c'\n", "# nothing\n".repeat(40));
    assert!(!check_heredocs(&long));
    assert_eq!(parsed(&long).brews, vec!["c"]);
}

#[test]
fn doubtful_formula_is_read() {
    let formula = format!(
        "class T < Formula\n  version \"1\"\n  url \"u\"\n  sha256 \"s\"\n  def caveats\n    <<~JSON\n      version \"2\"\n    JSON\n  end\n  depends_on \"d\"\nend\n{}",
        doubt()
    );
    assert!(!check_heredocs(&formula));
    let formula = FormulaParser::parse(&formula, "t", CpuArch::X86_64).unwrap();
    assert_eq!(formula.versions.stable, "1");
    assert_eq!(formula.dependencies, vec!["d"]);
}

#[test]
fn sources_outside_ascii_are_read() {
    let source = "# für alle\nbrew \"café\"\nputs <<~YAML\n  é brew 'x'\nYAML\nbrew 'git'\n";
    assert_eq!(parsed(source).brews, vec!["café", "git"]);
    let doubtful = format!("{source}{}", doubt());
    assert!(!check_heredocs(&doubtful));
    assert_eq!(parsed(&doubtful).brews, vec!["café", "git"]);
}
