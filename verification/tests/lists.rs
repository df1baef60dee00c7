use zerobrew::cask_api::{cask_download, CaskJson, Variation};
use zerobrew::error::Error;
use zerobrew::json::Json;
use zerobrew::summary::{
    summarize, summary_names, EntryType, FormulaSummary, ItemBottle, ItemBottleStable,
    ItemVersions, ListItem,
};
use zerobrew::text_map::TextMap;

fn text(s: &str) -> Json {
    Json::Text(s.to_string())
}

fn item(name: &str) -> ListItem {
    ListItem {
        name: Some(text(name)),
        token: None,
        desc: None,
        versions: None,
        bottle: None,
        version: None,
    }
}

fn with_bottles(name: &str, tags: &[&str]) -> ListItem {
    let files = tags.iter().map(|t| t.to_string()).collect();
    let mut item = item(name);
    item.bottle = Some(ItemBottle { stable: Some(ItemBottleStable { files: Some(files) }) });
    item
}

fn names(summaries: &Vec<FormulaSummary>) -> Vec<String> {
    summary_names(summaries)
}

#[test]
fn formulas_are_summarized() {
    let mut wget = item("wget");
    wget.desc = Some("Internet file retriever".to_string());
    wget.versions = Some(ItemVersions { stable: Some("1.25".to_string()) });
    let mut head_only = item("head-only");
    head_only.versions = Some(ItemVersions { stable: None });
    let summaries = summarize(vec![wget, head_only, item("bare")], EntryType::Formula, true);
    assert_eq!(names(&summaries), vec!["wget", "head-only", "bare"]);
    assert_eq!(summaries[0].version, "1.25");
    assert_eq!(summaries[0].description, Some("Internet file retriever".to_string()));
    assert!(!summaries[0].is_cask);
    assert_eq!(summaries[1].version, "");
    assert_eq!(summaries[2].version, "");
    assert_eq!(summaries[2].description, None);
}

#[test]
fn formulas_without_linux_bottles_are_left_out_on_linux() {
    let list = || {
        vec![
            with_bottles("linux", &["arm64_sonoma", "x86_64_linux"]),
            with_bottles("arm", &["arm64_linux"]),
            with_bottles("all", &["all"]),
            with_bottles("mac", &["arm64_sonoma", "ventura"]),
            with_bottles("none", &[]),
            item("unknown"),
        ]
    };
    let on_linux = summarize(list(), EntryType::Formula, true);
    assert_eq!(names(&on_linux), vec!["linux", "arm", "all", "unknown"]);
    let elsewhere = summarize(list(), EntryType::Formula, false);
    assert_eq!(names(&elsewhere), vec!["linux", "arm", "all", "mac", "none", "unknown"]);
}

#[test]
fn casks_are_left_out_on_linux() {
    let cask = || ListItem {
        name: Some(Json::List(vec![text("Firefox")])),
        token: Some("firefox".to_string()),
        desc: None,
        versions: Some(ItemVersions { stable: Some("ignored".to_string()) }),
        bottle: None,
        version: Some("120.0".to_string()),
    };
    assert!(summarize(vec![cask()], EntryType::Cask, true).is_empty());
    let summaries = summarize(vec![cask()], EntryType::Cask, false);
    assert_eq!(summaries[0].name, "firefox");
    assert_eq!(summaries[0].version, "120.0");
    assert!(summaries[0].is_cask);
}

#[test]
fn items_without_a_name_are_left_out() {
    let mut listed = item("x");
    listed.name = Some(Json::List(vec![text("x")]));
    let mut nameless = item("x");
    nameless.name = None;
    let summaries = summarize(vec![listed, nameless, item("kept")], EntryType::Formula, true);
    assert_eq!(names(&summaries), vec!["kept"]);
}

fn cask_json() -> CaskJson {
    CaskJson {
        token: "tool".to_string(),
        version: "3.1".to_string(),
        url: Some("https://example.com/mac".to_string()),
        sha256: Some("aa".to_string()),
        artifacts: Vec::new(),
        variations: None,
    }
}

fn missing_name(cask: CaskJson) -> String {
    match cask_download("tool", cask, "x86_64_linux") {
        Err(Error::MissingFormula { name }) => name,
        _ => panic!("nothing is missing"),
    }
}

#[test]
fn variation_of_the_platform_is_downloaded() {
    let mut variations = TextMap::new();
    variations.insert(
        "x86_64_linux".to_string(),
        Variation { url: "https://example.com/linux".to_string(), sha256: "bb".to_string() },
    );
    let cask = CaskJson { variations: Some(variations), ..cask_json() };
    let (url, sha256, version, token, _) = cask_download("tool", cask, "x86_64_linux").unwrap();
    assert_eq!(url, "https://example.com/linux");
    assert_eq!(sha256, "bb");
    assert_eq!(version, "3.1");
    assert_eq!(token, "tool");
}

#[test]
fn common_download_is_the_fallback() {
    let cask = CaskJson { variations: Some(TextMap::new()), ..cask_json() };
    assert_eq!(cask_download("tool", cask, "x86_64_linux").unwrap().0, "https://example.com/mac");
    let download = cask_download("tool", cask_json(), "x86_64_linux").unwrap();
    assert_eq!(download.0, "https://example.com/mac");
    assert_eq!(download.1, "aa");
}

#[test]
fn cask_without_a_download_is_missing() {
    assert_eq!(missing_name(CaskJson { url: None, ..cask_json() }), "tool (no URL)");
    assert_eq!(missing_name(CaskJson { sha256: None, ..cask_json() }), "tool (no sha256)");
    let with_variations = CaskJson { url: None, variations: Some(TextMap::new()), ..cask_json() };
    assert_eq!(missing_name(with_variations), "tool (no Linux URL)");
}

#[test]
fn binaries_are_collected_from_the_artifacts() {
    let binary = |list: Vec<Json>| Json::Object(vec![("binary".to_string(), Json::List(list))]);
    let artifacts = vec![
        binary(vec![text("a"), Json::Other, text("b")]),
        Json::Object(vec![("app".to_string(), Json::List(vec![text("x")]))]),
        Json::Object(vec![("binary".to_string(), text("not a list"))]),
        text("plain"),
        binary(vec![text("c")]),
    ];
    let cask = CaskJson { artifacts, ..cask_json() };
    assert_eq!(cask_download("tool", cask, "x86_64_linux").unwrap().4, vec!["a", "b", "c"]);
}
