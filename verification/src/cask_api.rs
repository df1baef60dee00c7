//! Casks as the API describes them: what to download on a platform, and which
//! binaries it brings.
use crate::error::{Error, ErrorView};
use crate::json::{
    json_views, law_first_entry_counts, texts_in, value_for, Json, JsonView,
};
use crate::text::{option_text, texts};
use crate::text_map::TextMap;
use vstd::prelude::*;
use vstd::string::*;

verus! {

/// What differs on a platform.
pub struct Variation {
    pub url: String,
    pub sha256: String,
}

/// A cask as the API describes it.
pub struct CaskJson {
    pub token: String,
    pub version: String,
    pub url: Option<String>,
    pub sha256: Option<String>,
    pub artifacts: Vec<Json>,
    pub variations: Option<TextMap<Variation>>,
}

/// Model of a [`CaskJson`]: what differs on a platform is an address and a hash.
pub struct CaskJsonView {
    pub token: Seq<char>,
    pub version: Seq<char>,
    pub url: Option<Seq<char>>,
    pub sha256: Option<Seq<char>>,
    pub artifacts: Seq<JsonView>,
    pub variations: Option<Map<Seq<char>, (Seq<char>, Seq<char>)>>,
}

impl CaskJson {
    pub open spec fn view(&self) -> CaskJsonView {
        CaskJsonView {
            token: self.token@,
            version: self.version@,
            url: option_text(self.url),
            sha256: option_text(self.sha256),
            artifacts: json_views(self.artifacts@),
            variations: match self.variations {
                Some(m) => Some(m@.map_values(|v: Variation| (v.url@, v.sha256@))),
                None => None,
            },
        }
    }
}

/// The binaries that an artifact names.
pub open spec fn binaries_in(artifact: JsonView) -> Seq<Seq<char>> {
    match artifact {
        JsonView::Object(entries) => match value_for(entries, "binary"@) {
            Some(JsonView::List(list)) => texts_in(list),
            _ => Seq::empty(),
        },
        _ => Seq::empty(),
    }
}

/// The binaries that the artifacts name, in their order.
pub open spec fn binaries_of(artifacts: Seq<JsonView>) -> Seq<Seq<char>>
    decreases artifacts.len(),
{
    if artifacts.len() == 0 {
        Seq::empty()
    } else {
        binaries_of(artifacts.drop_last()) + binaries_in(artifacts.last())
    }
}

/// The address and the hash of the download on a platform: what differs there,
/// or else what holds everywhere, where both are given.
pub open spec fn source_of(cask: CaskJsonView, name: Seq<char>, platform: Seq<char>) -> Result<
    (Seq<char>, Seq<char>),
    ErrorView,
> {
    let no_url = match cask.variations {
        Some(_) => " (no Linux URL)"@,
        None => " (no URL)"@,
    };
    if cask.variations is Some && cask.variations->0.contains_key(platform) {
        Ok(cask.variations->0[platform])
    } else if cask.url is None {
        Err(ErrorView::MissingFormula { name: name + no_url })
    } else if cask.sha256 is None {
        Err(ErrorView::MissingFormula { name: name + " (no sha256)"@ })
    } else {
        Ok((cask.url->0, cask.sha256->0))
    }
}

/// What a platform has of its own is taken, whatever holds everywhere.
pub proof fn law_variation_is_taken(cask: CaskJsonView, name: Seq<char>, platform: Seq<char>)
    requires
        cask.variations is Some,
        cask.variations->0.contains_key(platform),
    ensures
        source_of(cask, name, platform) == Ok::<(Seq<char>, Seq<char>), ErrorView>(
            cask.variations->0[platform],
        ),
{
}

/// The error for a cask without a part.
fn lacking(name: &str, what: &str) -> (r: Error)
    ensures
        r@ == (ErrorView::MissingFormula { name: name@ + what@ }),
{
    Error::MissingFormula { name: name.to_owned().concat(what) }
}

/// The binaries that the artifacts name.
fn binaries(artifacts: &Vec<Json>) -> (r: Vec<String>)
    ensures
        texts(r@) == binaries_of(json_views(artifacts@)),
{
    let ghost all = json_views(artifacts@);
    let mut r: Vec<String> = Vec::new();
    let mut i: usize = 0;
    proof {
        assert(texts(r@) =~= Seq::empty());
        assert(all.take(0) =~= Seq::empty());
    }
    while i < artifacts.len()
        invariant
            i <= artifacts.len(),
            all == json_views(artifacts@),
            texts(r@) == binaries_of(all.take(i as int)),
        decreases artifacts.len() - i,
    {
        proof {
            assert(all.take(i + 1).drop_last() =~= all.take(i as int));
            assert(all.take(i + 1).last() == artifacts@[i as int]@);
        }
        let ghost held = texts(r@);
        if let Some(value) = artifacts[i].get("binary") {
            let mut found = value.texts();
            let ghost more = texts(found@);
            let ghost left = r@;
            let ghost right = found@;
            r.append(&mut found);
            proof {
                assert(r@ =~= left + right);
                assert(texts(r@) =~= held + more);
            }
        }
        proof {
            assert(texts(r@) =~= held + binaries_in(artifacts@[i as int]@));
        }
        i = i + 1;
    }
    proof {
        assert(all.take(i as int) =~= all);
    }
    r
}

/// The address and the hash of the download of the cask `name` on a platform, the
/// version and the token of the cask, and its binaries.
pub fn cask_download(name: &str, cask: CaskJson, platform: &str) -> (r: Result<
    (String, String, String, String, Vec<String>),
    Error,
>)
    ensures
        match (source_of(cask@, name@, platform@), r) {
            (Ok((url, sha256)), Ok(d)) => {
                &&& d.0@ == url
                &&& d.1@ == sha256
                &&& d.2@ == cask@.version && d.2@ == cask.version@
                &&& d.3@ == cask@.token && d.3@ == cask.token@
                &&& texts(d.4@) == binaries_of(cask@.artifacts)
            },
            (Err(wanted), Err(e)) => e@ == wanted,
            _ => false,
        },
{
    let mut source: Option<(String, String)> = None;
    let mut no_url = " (no URL)";
    if let Some(variations) = &cask.variations {
        no_url = " (no Linux URL)";
        if let Some(variation) = variations.get(platform) {
            source = Some((variation.url.clone(), variation.sha256.clone()));
        }
    }
    let found = binaries(&cask.artifacts);
    match source {
        Some((url, sha256)) => Ok((url, sha256, cask.version, cask.token, found)),
        None => {
            let url = match cask.url {
                Some(url) => url,
                None => return Err(lacking(name, no_url)),
            };
            let sha256 = match cask.sha256 {
                Some(sha256) => sha256,
                None => return Err(lacking(name, " (no sha256)")),
            };
            Ok((url, sha256, cask.version, cask.token, found))
        },
    }
}

/// The binaries of two lists of artifacts, one after the other, are those of the first and
/// then those of the second.
pub proof fn law_binaries_in_order(a: Seq<JsonView>, b: Seq<JsonView>)
    ensures
        binaries_of(a + b) == binaries_of(a) + binaries_of(b),
        binaries_of(Seq::empty()).len() == 0,
    decreases b.len(),
{
    if b.len() == 0 {
        assert(a + b =~= a);
        assert(binaries_of(a) + binaries_of(b) =~= binaries_of(a));
    } else {
        assert((a + b).drop_last() =~= a + b.drop_last());
        law_binaries_in_order(a, b.drop_last());
        assert(binaries_of(a + b) =~= binaries_of(a) + binaries_of(b));
    }
}

/// An artifact names the texts in the list under `binary`, and nothing where there is no
/// such list.
pub proof fn law_binaries_of_an_artifact(
    artifact: JsonView,
    entries: Seq<(Seq<char>, JsonView)>,
    i: int,
)
    requires
        artifact is Object ==> {
            &&& artifact == JsonView::Object(entries)
            &&& 0 <= i <= entries.len()
            &&& i < entries.len() ==> entries[i].0 == "binary"@
            &&& forall|j: int| 0 <= j < i ==> (#[trigger] entries[j]).0 != "binary"@
        },
    ensures
        binaries_of(seq![artifact]) == (if artifact is Object && i < entries.len()
            && entries[i].1 is List {
            texts_in(entries[i].1->List_0)
        } else {
            Seq::empty()
        }),
{
    if artifact is Object {
        law_first_entry_counts(entries, "binary"@, i);
    }
    reveal_with_fuel(binaries_of, 2);
    assert(seq![artifact].drop_last() =~= Seq::empty());
    assert(seq![artifact].last() == artifact);
    assert(binaries_of(seq![artifact]) =~= binaries_in(artifact));
}

/// Where a platform has nothing of its own, what holds everywhere is taken, and a cask
/// without an address, or with one and without a hash, is missing.
pub proof fn law_common_source_is_taken(
    cask: CaskJsonView,
    name: Seq<char>,
    platform: Seq<char>,
)
    requires
        cask.variations is None || !cask.variations->0.contains_key(platform),
    ensures
        ({
            let r = source_of(cask, name, platform);
            &&& cask.url is Some && cask.sha256 is Some ==> r == Ok::<
                (Seq<char>, Seq<char>),
                ErrorView,
            >((cask.url->0, cask.sha256->0))
            &&& cask.url is Some && cask.sha256 is None ==> r == Err::<
                (Seq<char>, Seq<char>),
                ErrorView,
            >(ErrorView::MissingFormula { name: name + " (no sha256)"@ })
            &&& cask.url is None && cask.variations is Some ==> r == Err::<
                (Seq<char>, Seq<char>),
                ErrorView,
            >(ErrorView::MissingFormula { name: name + " (no Linux URL)"@ })
            &&& cask.url is None && cask.variations is None ==> r == Err::<
                (Seq<char>, Seq<char>),
                ErrorView,
            >(ErrorView::MissingFormula { name: name + " (no URL)"@ })
        }),
{
}

/// The model of a cask holds what the cask holds.
pub proof fn law_cask_json_model(cask: CaskJson)
    ensures
        cask@.token == cask.token@,
        cask@.version == cask.version@,
        cask@.url == option_text(cask.url),
        cask@.sha256 == option_text(cask.sha256),
        cask@.artifacts.len() == cask.artifacts@.len(),
        forall|i: int|
            0 <= i < cask.artifacts@.len() ==> #[trigger] cask@.artifacts[i]
                == cask.artifacts@[i]@,
        cask@.variations is Some <==> cask.variations is Some,
        cask.variations is Some ==> forall|p: Seq<char>| #[trigger]
            cask@.variations->0.contains_key(p) <==> cask.variations->0@.contains_key(p),
        cask.variations is Some ==> forall|p: Seq<char>| #[trigger]
            cask@.variations->0.contains_key(p) ==> cask@.variations->0[p] == (
                cask.variations->0@[p].url@,
                cask.variations->0@[p].sha256@,
            ),
{
}

} // verus!
