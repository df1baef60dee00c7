//! Lists of all formulas or casks, summarized.
use crate::json::{Json, JsonView};
use crate::text::{
    contains, contains_text, law_parts_are_contained, option_text, same_text, texts,
};
use vstd::prelude::*;
use vstd::string::*;

verus! {

/// What a list is of.
#[derive(Debug, Clone, Copy, PartialEq, Eq, Structural)]
pub enum EntryType {
    Formula,
    Cask,
}

/// A package in a few words.
#[derive(Debug, Clone)]
pub struct FormulaSummary {
    pub name: String,
    pub version: String,
    pub description: Option<String>,
    pub is_cask: bool,
}

/// The bottle files of an item in a list: the tags for which there is one.
pub struct ItemBottleStable {
    pub files: Option<Vec<String>>,
}

/// The bottles of an item in a list.
pub struct ItemBottle {
    pub stable: Option<ItemBottleStable>,
}

/// The versions of an item in a list.
pub struct ItemVersions {
    pub stable: Option<String>,
}

/// An item in a list. A cask has a token and a version, a formula has a name,
/// versions and bottles.
pub struct ListItem {
    pub name: Option<Json>,
    pub token: Option<String>,
    pub desc: Option<String>,
    pub versions: Option<ItemVersions>,
    pub bottle: Option<ItemBottle>,
    pub version: Option<String>,
}

/// Model of a [`FormulaSummary`].
pub struct SummaryView {
    pub name: Seq<char>,
    pub version: Seq<char>,
    pub description: Option<Seq<char>>,
    pub is_cask: bool,
}

impl FormulaSummary {
    pub open spec fn view(&self) -> SummaryView {
        SummaryView {
            name: self.name@,
            version: self.version@,
            description: option_text(self.description),
            is_cask: self.is_cask,
        }
    }
}

/// The models of a list of summaries.
pub open spec fn summary_views(v: Seq<FormulaSummary>) -> Seq<SummaryView> {
    v.map_values(|s: FormulaSummary| s@)
}

/// Model of a [`ListItem`]: the tags of its bottles are those of the stable
/// version, and its stable version is the one among its versions.
pub struct ItemView {
    pub name: Option<JsonView>,
    pub token: Option<Seq<char>>,
    pub desc: Option<Seq<char>>,
    pub stable: Option<Seq<char>>,
    pub tags: Option<Seq<Seq<char>>>,
    pub version: Option<Seq<char>>,
}

impl ListItem {
    pub open spec fn view(&self) -> ItemView {
        ItemView {
            name: match self.name {
                Some(j) => Some(j@),
                None => None,
            },
            token: option_text(self.token),
            desc: option_text(self.desc),
            stable: match self.versions {
                Some(v) => option_text(v.stable),
                None => None,
            },
            tags: match self.bottle {
                Some(b) => match b.stable {
                    Some(s) => match s.files {
                        Some(files) => Some(texts(files@)),
                        None => None,
                    },
                    None => None,
                },
                None => None,
            },
            version: option_text(self.version),
        }
    }
}

/// The models of a list of items.
pub open spec fn item_views(v: Seq<ListItem>) -> Seq<ItemView> {
    v.map_values(|i: ListItem| i@)
}

/// A bottle with this tag runs under Linux.
pub open spec fn runs_on_linux(tag: Seq<char>) -> bool {
    contains_text(tag, "linux"@) || tag == "all"@ || tag == "x86_64_linux"@
}

/// One of the bottles with these tags runs under Linux.
pub open spec fn any_runs_on_linux(tags: Seq<Seq<char>>) -> bool {
    exists|i: int| 0 <= i < tags.len() && runs_on_linux(#[trigger] tags[i])
}

/// An item is of use: under Linux no cask is, and a formula that names its
/// bottles is where one of them runs under Linux.
pub open spec fn is_of_use(item: ItemView, entry_type: EntryType, on_linux: bool) -> bool {
    !on_linux || (entry_type == EntryType::Formula && (item.tags is Some ==> any_runs_on_linux(
        item.tags->0,
    )))
}

/// The name of an item: its token, or else its name where that is a text.
pub open spec fn item_name(item: ItemView) -> Option<Seq<char>> {
    match item.token {
        Some(token) => Some(token),
        None => match item.name {
            Some(JsonView::Text(s)) => Some(s),
            _ => None,
        },
    }
}

/// An optional text, empty where there is none.
pub open spec fn or_empty(s: Option<Seq<char>>) -> Seq<char> {
    match s {
        Some(t) => t,
        None => Seq::empty(),
    }
}

/// The summary of an item, where it is of use and has a name.
pub open spec fn summary_of(item: ItemView, entry_type: EntryType, on_linux: bool) -> Option<
    SummaryView,
> {
    if is_of_use(item, entry_type, on_linux) && item_name(item) is Some {
        Some(
            SummaryView {
                name: item_name(item)->0,
                version: match entry_type {
                    EntryType::Formula => or_empty(item.stable),
                    EntryType::Cask => or_empty(item.version),
                },
                description: item.desc,
                is_cask: entry_type == EntryType::Cask,
            },
        )
    } else {
        None
    }
}

/// The summaries of several items, in their order.
pub open spec fn summaries_of(items: Seq<ItemView>, entry_type: EntryType, on_linux: bool) -> Seq<
    SummaryView,
>
    decreases items.len(),
{
    if items.len() == 0 {
        Seq::empty()
    } else {
        let front = summaries_of(items.drop_last(), entry_type, on_linux);
        match summary_of(items.last(), entry_type, on_linux) {
            Some(s) => front.push(s),
            None => front,
        }
    }
}

/// Under Linux there are no casks.
pub proof fn law_no_casks_on_linux(items: Seq<ItemView>)
    ensures
        summaries_of(items, EntryType::Cask, true) == Seq::<SummaryView>::empty(),
    decreases items.len(),
{
    if items.len() > 0 {
        law_no_casks_on_linux(items.drop_last());
    }
}

/// A summary says of which kind it is, and no more of them come out than go in.
pub proof fn law_summaries_are_of_one_kind(
    items: Seq<ItemView>,
    entry_type: EntryType,
    on_linux: bool,
)
    ensures
        summaries_of(items, entry_type, on_linux).len() <= items.len(),
        forall|i: int|
            0 <= i < summaries_of(items, entry_type, on_linux).len() ==> (
            #[trigger] summaries_of(items, entry_type, on_linux)[i]).is_cask == (entry_type
                == EntryType::Cask),
    decreases items.len(),
{
    if items.len() > 0 {
        law_summaries_are_of_one_kind(items.drop_last(), entry_type, on_linux);
    }
}

fn tag_runs_on_linux(tag: &str) -> (r: bool)
    ensures
        r == runs_on_linux(tag@),
{
    contains(tag, "linux") || same_text(tag, "all") || same_text(tag, "x86_64_linux")
}

/// Whether one of the tags is that of a bottle that runs under Linux.
fn has_linux(files: &Vec<String>) -> (r: bool)
    ensures
        r == any_runs_on_linux(texts(files@)),
{
    let mut i: usize = 0;
    while i < files.len()
        invariant
            i <= files.len(),
            forall|j: int| 0 <= j < i ==> !runs_on_linux(#[trigger] texts(files@)[j]),
        decreases files.len() - i,
    {
        if tag_runs_on_linux(files[i].as_str()) {
            proof {
                assert(runs_on_linux(texts(files@)[i as int]));
            }
            return true;
        }
        i = i + 1;
    }
    false
}

fn of_use(item: &ListItem, entry_type: EntryType, on_linux: bool) -> (r: bool)
    ensures
        r == is_of_use(item@, entry_type, on_linux),
{
    if !on_linux {
        return true;
    }
    match entry_type {
        EntryType::Cask => false,
        EntryType::Formula => {
            if let Some(bottle) = &item.bottle {
                if let Some(stable) = &bottle.stable {
                    if let Some(files) = &stable.files {
                        return has_linux(files);
                    }
                }
            }
            true
        },
    }
}

fn text_or_empty(s: Option<String>) -> (r: String)
    ensures
        r@ == or_empty(option_text(s)),
{
    match s {
        Some(t) => t,
        None => String::new(),
    }
}

/// The summary of an item.
fn summarize_item(item: ListItem, entry_type: EntryType, on_linux: bool) -> (r: Option<
    FormulaSummary,
>)
    ensures
        match r {
            Some(s) => summary_of(item@, entry_type, on_linux) == Some(s@),
            None => summary_of(item@, entry_type, on_linux) is None,
        },
{
    if !of_use(&item, entry_type, on_linux) {
        return None;
    }
    let name = match item.token {
        Some(token) => token,
        None => match item.name {
            Some(Json::Text(s)) => s,
            _ => return None,
        },
    };
    let version = match entry_type {
        EntryType::Formula => match item.versions {
            Some(versions) => text_or_empty(versions.stable),
            None => String::new(),
        },
        EntryType::Cask => text_or_empty(item.version),
    };
    let is_cask = match entry_type {
        EntryType::Formula => false,
        EntryType::Cask => true,
    };
    Some(FormulaSummary { name, version, description: item.desc, is_cask })
}

/// The summaries of the items of a list.
pub fn summarize(items: Vec<ListItem>, entry_type: EntryType, on_linux: bool) -> (r: Vec<
    FormulaSummary,
>)
    ensures
        summary_views(r@) == summaries_of(item_views(items@), entry_type, on_linux),
{
    let ghost all = item_views(items@);
    let ghost given = items@;
    let mut r: Vec<FormulaSummary> = Vec::new();
    proof {
        assert(all.take(0) =~= Seq::empty());
        assert(summary_views(r@) =~= Seq::empty());
    }
    for item in it: items
        invariant
            all == item_views(given),
            it.seq() == given,
            summary_views(r@) == summaries_of(all.take(it.index()), entry_type, on_linux),
    {
        proof {
            assert(all.take(it.index() + 1).drop_last() =~= all.take(it.index()));
            assert(all.take(it.index() + 1).last() == item@);
        }
        if let Some(s) = summarize_item(item, entry_type, on_linux) {
            let ghost held = r@;
            r.push(s);
            proof {
                assert(summary_views(r@) =~= summary_views(held).push(s@));
            }
        }
    }
    proof {
        assert(all.take(all.len() as int) =~= all);
    }
    r
}

/// The names in a list of summaries.
pub fn summary_names(summaries: &Vec<FormulaSummary>) -> (r: Vec<String>)
    ensures
        texts(r@) == summary_views(summaries@).map_values(|s: SummaryView| s.name),
        r@.len() == summaries@.len(),
        forall|i: int| 0 <= i < r@.len() ==> (#[trigger] r@[i])@ == summaries@[i].name@,
{
    let ghost all = summary_views(summaries@).map_values(|s: SummaryView| s.name);
    let mut r: Vec<String> = Vec::new();
    let mut i: usize = 0;
    proof {
        assert(texts(r@) =~= all.take(0));
    }
    while i < summaries.len()
        invariant
            i <= summaries.len(),
            all == summary_views(summaries@).map_values(|s: SummaryView| s.name),
            texts(r@) == all.take(i as int),
        decreases summaries.len() - i,
    {
        let ghost held = r@;
        r.push(summaries[i].name.clone());
        proof {
            assert(texts(r@) =~= texts(held).push(summaries@[i as int].name@));
            assert(all.take(i + 1) =~= all.take(i as int).push(summaries@[i as int].name@));
        }
        i = i + 1;
    }
    proof {
        assert(all.take(i as int) =~= all);
        assert(texts(r@).len() == all.len());
        assert forall|i: int| 0 <= i < r@.len() implies (#[trigger] r@[i])@
            == summaries@[i].name@ by {
            assert(texts(r@)[i] == all[i]);
        }
    }
    r
}

/// An item has a summary if and only if it has a name and is of use: anywhere but under
/// Linux every item is, and there a formula is that names no bottles, or one whose tag holds
/// `linux` or is `all`. The summary has the token, or else the name, of the item, and the
/// version that belongs to its kind.
pub proof fn law_summary_of_an_item(item: ItemView, entry_type: EntryType, on_linux: bool)
    ensures
        ({
            let named = item.token is Some || (item.name is Some && item.name->0 is Text);
            let useful = !on_linux || (entry_type is Formula && (item.tags is None || exists|i: int|
                0 <= i < item.tags->0.len() && (contains_text(
                    #[trigger] item.tags->0[i],
                    "linux"@,
                ) || item.tags->0[i] == "all"@)));
            let r = summary_of(item, entry_type, on_linux);
            &&& r is Some <==> named && useful
            &&& r is Some ==> {
                &&& item.token is Some ==> r->0.name == item.token->0
                &&& item.token is None ==> item.name == Some(JsonView::Text(r->0.name))
                &&& r->0.description == item.desc
                &&& r->0.is_cask <==> entry_type is Cask
                &&& entry_type is Formula && item.stable is Some ==> r->0.version
                    == item.stable->0
                &&& entry_type is Formula && item.stable is None ==> r->0.version.len() == 0
                &&& entry_type is Cask && item.version is Some ==> r->0.version
                    == item.version->0
                &&& entry_type is Cask && item.version is None ==> r->0.version.len() == 0
            }
        }),
{
    if item.tags is Some {
        let tags = item.tags->0;
        assert forall|i: int| 0 <= i < tags.len() implies runs_on_linux(#[trigger] tags[i]) == (
        contains_text(tags[i], "linux"@) || tags[i] == "all"@) by {
            lemma_linux_tag(tags[i]);
        }
        if any_runs_on_linux(tags) {
            let i = choose|i: int| 0 <= i < tags.len() && runs_on_linux(#[trigger] tags[i]);
            assert(contains_text(tags[i], "linux"@) || tags[i] == "all"@);
        }
        if exists|i: int|
            0 <= i < tags.len() && (contains_text(#[trigger] tags[i], "linux"@) || tags[i]
                == "all"@) {
            let i = choose|i: int|
                0 <= i < tags.len() && (contains_text(#[trigger] tags[i], "linux"@) || tags[i]
                    == "all"@);
            assert(runs_on_linux(tags[i]));
        }
    }
}

proof fn lemma_linux_tag(tag: Seq<char>)
    ensures
        tag == "x86_64_linux"@ ==> contains_text(tag, "linux"@),
{
    reveal_strlit("x86_64_linux");
    reveal_strlit("linux");
    if tag == "x86_64_linux"@ {
        assert(tag =~= tag.take(7) + "linux"@ + Seq::empty());
        law_parts_are_contained(tag.take(7), "linux"@, Seq::empty());
    }
}

/// The summaries of a list are those of its items that have one, in their order.
pub proof fn law_summaries_in_order(items: Seq<ItemView>, entry_type: EntryType, on_linux: bool)
    ensures
        summaries_of(items, entry_type, on_linux) == items.filter_map(
            |item: ItemView| summary_of(item, entry_type, on_linux),
        ),
    decreases items.len(),
{
    if items.len() > 0 {
        law_summaries_in_order(items.drop_last(), entry_type, on_linux);
    }
}

/// The models of summaries and of items hold what the values hold.
pub proof fn law_summary_models(
    s: FormulaSummary,
    item: ListItem,
    all: Seq<FormulaSummary>,
    items: Seq<ListItem>,
)
    ensures
        summary_views(all).len() == all.len(),
        forall|i: int| 0 <= i < all.len() ==> #[trigger] summary_views(all)[i] == all[i]@,
        item_views(items).len() == items.len(),
        forall|i: int| 0 <= i < items.len() ==> #[trigger] item_views(items)[i] == items[i]@,
        s@.name == s.name@,
        s@.version == s.version@,
        s@.description == option_text(s.description),
        s@.is_cask == s.is_cask,
        item@.token == option_text(item.token),
        item@.desc == option_text(item.desc),
        item@.version == option_text(item.version),
        item.name is Some ==> item@.name == Some(item.name->0@),
        item.name is None ==> item@.name is None,
        item.versions is Some ==> item@.stable == option_text(item.versions->0.stable),
        item.versions is None ==> item@.stable is None,
        item@.tags is Some <==> item.bottle is Some && item.bottle->0.stable is Some
            && item.bottle->0.stable->0.files is Some,
        item@.tags is Some ==> item@.tags->0 == texts(item.bottle->0.stable->0.files->0@),
{
}

} // verus!
