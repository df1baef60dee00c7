//! The API: which requests are made for a package, and what their answers mean.
use crate::error::{Error, ErrorView};
use crate::json::{error_text, json_error_text, json_parsed, parse_json};
use crate::text::option_text;
use serde_json::Error as JsonError;
use vstd::prelude::*;
use vstd::string::*;

verus! {

/// What is kept of an answer.
pub struct CacheEntry {
    pub etag: Option<String>,
    pub last_modified: Option<String>,
    pub body: String,
}

/// Model of a [`CacheEntry`].
pub struct CacheEntryView {
    pub etag: Option<Seq<char>>,
    pub last_modified: Option<Seq<char>>,
    pub body: Seq<char>,
}

impl CacheEntry {
    pub open spec fn view(&self) -> CacheEntryView {
        CacheEntryView {
            etag: option_text(self.etag),
            last_modified: option_text(self.last_modified),
            body: self.body@,
        }
    }
}

/// The model of an optional entry.
pub open spec fn option_entry(entry: Option<CacheEntry>) -> Option<CacheEntryView> {
    match entry {
        Some(e) => Some(e@),
        None => None,
    }
}

/// What a request asks for.
#[derive(Debug, Clone, Copy, PartialEq, Eq, Structural)]
pub enum Resource {
    Formula,
    Cask,
    Summaries,
}

/// A request, and what is needed to understand its answer: what it asks for, the
/// name of the package that is missing where nothing is found, what is kept of an
/// earlier answer, and whether the answer is to be kept.
pub struct Exchange {
    pub url: String,
    pub headers: Vec<(String, String)>,
    pub resource: Resource,
    pub missing: Option<String>,
    pub cached: Option<CacheEntry>,
    pub caching: bool,
}

/// Model of an [`Exchange`].
pub struct ExchangeView {
    pub url: Seq<char>,
    pub headers: Seq<(Seq<char>, Seq<char>)>,
    pub resource: Resource,
    pub missing: Option<Seq<char>>,
    pub cached: Option<CacheEntryView>,
    pub caching: bool,
}

/// The headers of a request as texts.
pub open spec fn header_texts(headers: Seq<(String, String)>) -> Seq<(Seq<char>, Seq<char>)> {
    headers.map_values(|h: (String, String)| (h.0@, h.1@))
}

impl Exchange {
    pub open spec fn view(&self) -> ExchangeView {
        ExchangeView {
            url: self.url@,
            headers: header_texts(self.headers@),
            resource: self.resource,
            missing: option_text(self.missing),
            cached: option_entry(self.cached),
            caching: self.caching,
        }
    }
}

/// What happened to a request.
pub enum FetchEvent {
    /// It could not be sent.
    SendFailed(String),
    /// It was answered with a status.
    Answered(u16),
    /// The body of the answer could not be read.
    BodyFailed(String),
    /// The answer was read.
    Received { etag: Option<String>, last_modified: Option<String>, body: String },
}

/// What is to be done next.
pub enum FetchStep {
    /// Read the answer.
    ReadBody,
    /// Take the document from this body, which was kept.
    UseCached(String),
    /// Keep the entry, where there is one, and take the document from this body.
    Use { body: String, store: Option<CacheEntry> },
    /// Give up.
    Fail(Error),
}

/// Model of a [`FetchEvent`].
pub enum FetchEventView {
    SendFailed(Seq<char>),
    Answered(u16),
    BodyFailed(Seq<char>),
    Received { etag: Option<Seq<char>>, last_modified: Option<Seq<char>>, body: Seq<char> },
}

/// Model of a [`FetchStep`].
pub enum FetchStepView {
    ReadBody,
    UseCached(Seq<char>),
    Use { body: Seq<char>, store: Option<CacheEntryView> },
    Fail(ErrorView),
}

impl FetchEvent {
    pub open spec fn view(&self) -> FetchEventView {
        match self {
            FetchEvent::SendFailed(s) => FetchEventView::SendFailed(s@),
            FetchEvent::Answered(status) => FetchEventView::Answered(*status),
            FetchEvent::BodyFailed(s) => FetchEventView::BodyFailed(s@),
            FetchEvent::Received { etag, last_modified, body } => FetchEventView::Received {
                etag: option_text(*etag),
                last_modified: option_text(*last_modified),
                body: body@,
            },
        }
    }
}

impl FetchStep {
    pub open spec fn view(&self) -> FetchStepView {
        match self {
            FetchStep::ReadBody => FetchStepView::ReadBody,
            FetchStep::UseCached(s) => FetchStepView::UseCached(s@),
            FetchStep::Use { body, store } => FetchStepView::Use {
                body: body@,
                store: option_entry(*store),
            },
            FetchStep::Fail(e) => FetchStepView::Fail(e@),
        }
    }
}

/// A status in words.
pub uninterp spec fn status_words(status: u16) -> Seq<char>;

/// Calls the `Display` of `reqwest::StatusCode` for a status, of which
/// `StatusCode::from_u16` takes those from 100 to 999. The words depend on the status
/// alone.
#[verifier::external_body]
fn status_text(status: u16) -> (r: String)
    requires
        100 <= status <= 999,
    ensures
        r@ == status_words(status),
{
    reqwest::StatusCode::from_u16(status).unwrap().to_string()
}

/// A status that servers send.
pub open spec fn is_status(status: u16) -> bool {
    100 <= status <= 999
}

/// The headers that ask for an answer only where it is not the one that was kept.
pub open spec fn conditions(cached: Option<CacheEntryView>) -> Seq<(Seq<char>, Seq<char>)> {
    match cached {
        Some(entry) => {
            let first = match entry.etag {
                Some(etag) => seq![("If-None-Match"@, etag)],
                None => Seq::empty(),
            };
            match entry.last_modified {
                Some(date) => first.push(("If-Modified-Since"@, date)),
                None => first,
            }
        },
        None => Seq::empty(),
    }
}

/// What an answer with a status means: nothing new where an earlier answer was
/// kept, no such package, a failure, or a body to read.
pub open spec fn status_step(x: ExchangeView, status: u16) -> FetchStepView {
    if status == 304 && x.cached is Some {
        FetchStepView::UseCached(x.cached->0.body)
    } else if status == 404 && x.missing is Some {
        FetchStepView::Fail(ErrorView::MissingFormula { name: x.missing->0 })
    } else if status < 200 || status > 299 {
        FetchStepView::Fail(ErrorView::NetworkFailure { message: "HTTP "@ + status_words(status) })
    } else {
        FetchStepView::ReadBody
    }
}

/// What is to be done next. The body of a formula is kept as it was received;
/// that of a list is kept once it is summarized.
pub open spec fn next_step(x: ExchangeView, event: FetchEventView) -> FetchStepView {
    match event {
        FetchEventView::SendFailed(why) => FetchStepView::Fail(
            ErrorView::NetworkFailure { message: why },
        ),
        FetchEventView::Answered(status) => status_step(x, status),
        FetchEventView::BodyFailed(why) => FetchStepView::Fail(
            ErrorView::NetworkFailure { message: "failed to read response body: "@ + why },
        ),
        FetchEventView::Received { etag, last_modified, body } => FetchStepView::Use {
            body,
            store: if x.caching && x.resource != Resource::Summaries {
                Some(CacheEntryView { etag, last_modified, body })
            } else {
                None
            },
        },
    }
}

/// What is kept of a list once it is summarized.
pub open spec fn kept_summaries(
    x: ExchangeView,
    etag: Option<Seq<char>>,
    last_modified: Option<Seq<char>>,
    summaries: Seq<char>,
) -> Option<CacheEntryView> {
    if x.caching {
        Some(CacheEntryView { etag, last_modified, body: summaries })
    } else {
        None
    }
}

/// What is wrong with a body that is not the document that was asked for.
pub open spec fn complaint(resource: Resource, from_cache: bool) -> Seq<char> {
    match resource {
        Resource::Formula => if from_cache {
            "failed to parse cached formula JSON: "@
        } else {
            "failed to parse formula JSON: "@
        },
        Resource::Cask => "failed to parse cask JSON: "@,
        Resource::Summaries => if from_cache {
            "failed to parse cached summaries JSON: "@
        } else {
            "failed to parse full list JSON: "@
        },
    }
}

/// The error for an answer whose status, in words, is a failure.
pub fn status_failure(words: &str) -> (r: Error)
    ensures
        r@ == (ErrorView::NetworkFailure { message: "HTTP "@ + words@ }),
{
    Error::NetworkFailure { message: "HTTP ".to_owned().concat(words) }
}

/// The headers that ask for an answer only where it is not the one that was kept.
fn condition_headers(cached: &Option<CacheEntry>) -> (r: Vec<(String, String)>)
    ensures
        header_texts(r@) == conditions(option_entry(*cached)),
{
    let mut headers: Vec<(String, String)> = Vec::new();
    proof {
        assert(header_texts(headers@) =~= Seq::empty());
    }
    if let Some(entry) = cached {
        if let Some(etag) = &entry.etag {
            headers.push(("If-None-Match".to_owned(), etag.clone()));
            proof {
                assert(header_texts(headers@) =~= seq![("If-None-Match"@, etag@)]);
            }
        }
        if let Some(date) = &entry.last_modified {
            let ghost held = headers@;
            headers.push(("If-Modified-Since".to_owned(), date.clone()));
            proof {
                assert(header_texts(headers@) =~= header_texts(held).push(
                    ("If-Modified-Since"@, date@),
                ));
            }
        }
    }
    headers
}

impl Exchange {
    /// What is to be done after an event.
    pub fn on_event(&self, event: FetchEvent) -> (r: FetchStep)
        requires
            event matches FetchEvent::Answered(status) ==> is_status(status),
        ensures
            r@ == next_step(self@, event@),
            match event {
                FetchEvent::Received { etag, last_modified, body } => match r {
                    FetchStep::Use { body: used, store } => {
                        &&& used@ == body@
                        &&& store is Some <==> self.caching && !(self.resource is Summaries)
                        &&& store is Some ==> store->0.body@ == body@ && option_text(store->0.etag)
                            == option_text(etag) && option_text(store->0.last_modified)
                            == option_text(last_modified)
                    },
                    _ => false,
                },
                FetchEvent::SendFailed(why) => r is Fail && r->Fail_0@ == (
                ErrorView::NetworkFailure { message: why@ }),
                FetchEvent::BodyFailed(why) => r is Fail && r->Fail_0@ == (
                ErrorView::NetworkFailure { message: "failed to read response body: "@ + why@ }),
                FetchEvent::Answered(status) => if 200 <= status <= 299 {
                    r is ReadBody
                } else if status == 304 && self.cached is Some {
                    r is UseCached && r->UseCached_0@ == self.cached->0.body@
                } else if status == 404 && self.missing is Some {
                    r is Fail && r->Fail_0@ == (ErrorView::MissingFormula {
                        name: self.missing->0@,
                    })
                } else {
                    r is Fail && r->Fail_0@ == (ErrorView::NetworkFailure {
                        message: "HTTP "@ + status_words(status),
                    })
                },
            },
    {
        match event {
            FetchEvent::SendFailed(why) => FetchStep::Fail(Error::NetworkFailure { message: why }),
            FetchEvent::Answered(status) => self.on_status(status),
            FetchEvent::BodyFailed(why) => FetchStep::Fail(
                Error::NetworkFailure {
                    message: "failed to read response body: ".to_owned().concat(why.as_str()),
                },
            ),
            FetchEvent::Received { etag, last_modified, body } => {
                let keep = match self.resource {
                    Resource::Summaries => false,
                    _ => self.caching,
                };
                let store = if keep {
                    Some(CacheEntry { etag, last_modified, body: body.clone() })
                } else {
                    None
                };
                FetchStep::Use { body, store }
            },
        }
    }

    fn on_status(&self, status: u16) -> (r: FetchStep)
        requires
            is_status(status),
        ensures
            r@ == status_step(self@, status),
    {
        if status == 304 {
            if let Some(entry) = &self.cached {
                return FetchStep::UseCached(entry.body.clone());
            }
        }
        if status == 404 {
            if let Some(name) = &self.missing {
                return FetchStep::Fail(Error::MissingFormula { name: name.clone() });
            }
        }
        if status < 200 || status > 299 {
            let words = status_text(status);
            return FetchStep::Fail(status_failure(words.as_str()));
        }
        FetchStep::ReadBody
    }

    /// The error for a body that is not the document that was asked for.
    pub fn parse_failed(&self, from_cache: bool, why: &str) -> (r: Error)
        ensures
            r@ == (ErrorView::NetworkFailure {
                message: complaint(self.resource, from_cache) + why@,
            }),
            self.resource is Formula && from_cache ==> r@ == (ErrorView::NetworkFailure {
                message: "failed to parse cached formula JSON: "@ + why@,
            }),
            self.resource is Formula && !from_cache ==> r@ == (ErrorView::NetworkFailure {
                message: "failed to parse formula JSON: "@ + why@,
            }),
            self.resource is Cask ==> r@ == (ErrorView::NetworkFailure {
                message: "failed to parse cask JSON: "@ + why@,
            }),
            self.resource is Summaries && from_cache ==> r@ == (ErrorView::NetworkFailure {
                message: "failed to parse cached summaries JSON: "@ + why@,
            }),
            self.resource is Summaries && !from_cache ==> r@ == (ErrorView::NetworkFailure {
                message: "failed to parse full list JSON: "@ + why@,
            }),
    {
        let start = match self.resource {
            Resource::Formula => if from_cache {
                "failed to parse cached formula JSON: "
            } else {
                "failed to parse formula JSON: "
            },
            Resource::Cask => "failed to parse cask JSON: ",
            Resource::Summaries => if from_cache {
                "failed to parse cached summaries JSON: "
            } else {
                "failed to parse full list JSON: "
            },
        };
        Error::NetworkFailure { message: start.to_owned().concat(why) }
    }

    /// The document that was parsed, or the error for a body that holds none.
    pub fn accept(&self, parsed: Result<serde_json::Value, JsonError>, from_cache: bool) -> (r:
        Result<serde_json::Value, Error>)
        ensures
            match (parsed, r) {
                (Ok(value), Ok(v)) => v == value,
                (Err(e), Err(error)) => error@ == (ErrorView::NetworkFailure {
                    message: complaint(self.resource, from_cache) + json_error_text(e),
                }),
                _ => false,
            },
    {
        match parsed {
            Ok(value) => Ok(value),
            Err(e) => {
                let why = error_text(&e);
                Err(self.parse_failed(from_cache, why.as_str()))
            },
        }
    }

    /// The document in a body.
    pub fn document(&self, body: &str, from_cache: bool) -> (r: Result<serde_json::Value, Error>)
        ensures
            match (json_parsed(body@), r) {
                (Ok(value), Ok(v)) => v == value,
                (Err(e), Err(error)) => error@ == (ErrorView::NetworkFailure {
                    message: complaint(self.resource, from_cache) + json_error_text(e),
                }),
                _ => false,
            },
    {
        self.accept(parse_json(body), from_cache)
    }

    /// What is to be kept of a list once it is summarized.
    pub fn summarized(
        &self,
        etag: Option<String>,
        last_modified: Option<String>,
        summaries: String,
    ) -> (r: Option<CacheEntry>)
        ensures
            option_entry(r) == kept_summaries(
                self@,
                option_text(etag),
                option_text(last_modified),
                summaries@,
            ),
            r is Some <==> self.caching,
            r is Some ==> r->0.body@ == summaries@ && option_text(r->0.etag) == option_text(etag)
                && option_text(r->0.last_modified) == option_text(last_modified),
    {
        if self.caching {
            Some(CacheEntry { etag, last_modified, body: summaries })
        } else {
            None
        }
    }
}

/// A client of the API: the address of the formulas, and whether answers are kept.
pub struct ApiClient {
    pub base_url: String,
    pub caching: bool,
}

/// The address of a formula.
pub open spec fn formula_url(base_url: Seq<char>, name: Seq<char>) -> Seq<char> {
    base_url + "/"@ + name + ".json"@
}

/// The address of a cask.
pub open spec fn cask_url(name: Seq<char>) -> Seq<char> {
    "https://formulae.brew.sh/api/cask/"@ + name + ".json"@
}

/// The address of the list of all formulas.
pub open spec fn formula_list_url() -> Seq<char> {
    "https://formulae.brew.sh/api/formula.json"@
}

/// The address of the list of all casks.
pub open spec fn cask_list_url() -> Seq<char> {
    "https://formulae.brew.sh/api/cask.json"@
}

/// The request for a formula, where an earlier answer may have been kept.
pub open spec fn formula_exchange(
    base_url: Seq<char>,
    caching: bool,
    name: Seq<char>,
    cached: Option<CacheEntryView>,
) -> ExchangeView {
    ExchangeView {
        url: formula_url(base_url, name),
        headers: conditions(cached),
        resource: Resource::Formula,
        missing: Some(name),
        cached,
        caching,
    }
}

/// The request for a cask, of which nothing is kept.
pub open spec fn cask_exchange(name: Seq<char>) -> ExchangeView {
    ExchangeView {
        url: cask_url(name),
        headers: Seq::empty(),
        resource: Resource::Cask,
        missing: Some(name),
        cached: None,
        caching: false,
    }
}

/// The request for a list, where an earlier answer may have been kept.
pub open spec fn list_exchange(
    url: Seq<char>,
    caching: bool,
    cached: Option<CacheEntryView>,
) -> ExchangeView {
    ExchangeView {
        url,
        headers: conditions(cached),
        resource: Resource::Summaries,
        missing: None,
        cached,
        caching,
    }
}

impl Default for ApiClient {
    fn default() -> (r: Self)
        ensures
            r.base_url@ == "https://formulae.brew.sh/api/formula"@,
            !r.caching,
    {
        Self::new()
    }
}

impl ApiClient {
    /// A client of the public API.
    pub fn new() -> (r: Self)
        ensures
            r.base_url@ == "https://formulae.brew.sh/api/formula"@,
            !r.caching,
    {
        Self::with_base_url("https://formulae.brew.sh/api/formula".to_owned())
    }

    /// A client of the API at another address.
    pub fn with_base_url(base_url: String) -> (r: Self)
        ensures
            r.base_url@ == base_url@,
            !r.caching,
    {
        Self { base_url, caching: false }
    }

    /// The same client, which keeps answers.
    pub fn with_cache(self) -> (r: Self)
        ensures
            r.base_url@ == self.base_url@,
            r.caching,
    {
        Self { base_url: self.base_url, caching: true }
    }

    /// The address of a formula, under which an answer is kept.
    pub fn formula_url(&self, name: &str) -> (r: String)
        ensures
            r@ == formula_url(self.base_url@, name@),
            r@ == self.base_url@ + "/"@ + name@ + ".json"@,
    {
        self.base_url.clone().concat("/").concat(name).concat(".json")
    }

    /// The address of the list of all formulas, under which its summaries are kept.
    pub fn formula_list(&self) -> (r: &'static str)
        ensures
            r@ == formula_list_url(),
            r@ == "https://formulae.brew.sh/api/formula.json"@,
    {
        "https://formulae.brew.sh/api/formula.json"
    }

    /// The address of the list of all casks, under which its summaries are kept.
    pub fn cask_list(&self) -> (r: &'static str)
        ensures
            r@ == cask_list_url(),
            r@ == "https://formulae.brew.sh/api/cask.json"@,
    {
        "https://formulae.brew.sh/api/cask.json"
    }

    /// The request for a formula.
    pub fn get_formula(&self, name: &str, cached: Option<CacheEntry>) -> (r: Exchange)
        ensures
            r@ == formula_exchange(self.base_url@, self.caching, name@, option_entry(cached)),
            r.url@ == self.base_url@ + "/"@ + name@ + ".json"@,
            r.resource is Formula,
            r.missing is Some && r.missing->0@ == name@,
            r.cached == cached,
            r.caching == self.caching,
    {
        Exchange {
            url: self.formula_url(name),
            headers: condition_headers(&cached),
            resource: Resource::Formula,
            missing: Some(name.to_owned()),
            cached,
            caching: self.caching,
        }
    }

    /// The request for the document of a formula.
    pub fn get_formula_json(&self, name: &str, cached: Option<CacheEntry>) -> (r: Exchange)
        ensures
            r@ == formula_exchange(self.base_url@, self.caching, name@, option_entry(cached)),
            r.url@ == self.base_url@ + "/"@ + name@ + ".json"@,
            r.resource is Formula,
            r.missing is Some && r.missing->0@ == name@,
            r.cached == cached,
            r.caching == self.caching,
    {
        self.get_formula(name, cached)
    }

    /// The request for a cask.
    pub fn get_cask(&self, name: &str) -> (r: Exchange)
        ensures
            r@ == cask_exchange(name@),
            r.url@ == "https://formulae.brew.sh/api/cask/"@ + name@ + ".json"@,
            r.headers@.len() == 0,
            r.resource is Cask,
            r.missing is Some && r.missing->0@ == name@,
            r.cached is None,
            !r.caching,
    {
        let url = "https://formulae.brew.sh/api/cask/".to_owned().concat(name).concat(".json");
        let headers: Vec<(String, String)> = Vec::new();
        proof {
            assert(header_texts(headers@) =~= Seq::empty());
        }
        Exchange {
            url,
            headers,
            resource: Resource::Cask,
            missing: Some(name.to_owned()),
            cached: None,
            caching: false,
        }
    }

    /// The request for the document of a cask.
    pub fn get_cask_json(&self, name: &str) -> (r: Exchange)
        ensures
            r@ == cask_exchange(name@),
            r.url@ == "https://formulae.brew.sh/api/cask/"@ + name@ + ".json"@,
            r.headers@.len() == 0,
            r.resource is Cask,
            r.missing is Some && r.missing->0@ == name@,
            r.cached is None,
            !r.caching,
    {
        self.get_cask(name)
    }

    /// The request for the list of all formulas.
    pub fn get_all_formula_summaries(&self, cached: Option<CacheEntry>) -> (r: Exchange)
        ensures
            r@ == list_exchange(formula_list_url(), self.caching, option_entry(cached)),
            r.url@ == "https://formulae.brew.sh/api/formula.json"@,
            r.resource is Summaries,
            r.missing is None,
            r.cached == cached,
            r.caching == self.caching,
    {
        self.list(self.formula_list(), cached)
    }

    /// The request for the list of all casks.
    pub fn get_all_cask_summaries(&self, cached: Option<CacheEntry>) -> (r: Exchange)
        ensures
            r@ == list_exchange(cask_list_url(), self.caching, option_entry(cached)),
            r.url@ == "https://formulae.brew.sh/api/cask.json"@,
            r.resource is Summaries,
            r.missing is None,
            r.cached == cached,
            r.caching == self.caching,
    {
        self.list(self.cask_list(), cached)
    }

    fn list(&self, url: &str, cached: Option<CacheEntry>) -> (r: Exchange)
        ensures
            r@ == list_exchange(url@, self.caching, option_entry(cached)),
            r.cached == cached,
    {
        Exchange {
            url: url.to_owned(),
            headers: condition_headers(&cached),
            resource: Resource::Summaries,
            missing: None,
            cached,
            caching: self.caching,
        }
    }
}

/// What is kept of a formula is asked about the next time: its tag is sent, and
/// where nothing has changed the body that was kept is used.
pub proof fn law_kept_answer_is_used(
    base_url: Seq<char>,
    name: Seq<char>,
    cached: Option<CacheEntryView>,
    etag: Option<Seq<char>>,
    last_modified: Option<Seq<char>>,
    body: Seq<char>,
)
    ensures
        ({
            let first = formula_exchange(base_url, true, name, cached);
            let step = next_step(
                first,
                FetchEventView::Received { etag, last_modified, body },
            );
            let kept = step->store;
            let second = formula_exchange(base_url, true, name, kept);
            &&& step == (FetchStepView::Use { body, store: kept })
            &&& kept == Some(CacheEntryView { etag, last_modified, body })
            &&& second.url == first.url
            &&& etag is Some ==> second.headers.contains(("If-None-Match"@, etag->0))
            &&& last_modified is Some ==> second.headers.contains(
                ("If-Modified-Since"@, last_modified->0),
            )
            &&& next_step(second, FetchEventView::Answered(304)) == FetchStepView::UseCached(body)
        }),
{
    let first = formula_exchange(base_url, true, name, cached);
    let step = next_step(first, FetchEventView::Received { etag, last_modified, body });
    let second = formula_exchange(base_url, true, name, step->store);
    if etag is Some {
        assert(second.headers[0] == ("If-None-Match"@, etag->0));
    }
    if last_modified is Some {
        assert(second.headers[second.headers.len() - 1] == (
            "If-Modified-Since"@,
            last_modified->0,
        ));
    }
}

/// What is kept of a list is asked about the next time: its tag is sent, and where
/// nothing has changed the summaries that were kept are used.
pub proof fn law_kept_summaries_are_used(
    url: Seq<char>,
    cached: Option<CacheEntryView>,
    etag: Option<Seq<char>>,
    last_modified: Option<Seq<char>>,
    body: Seq<char>,
    summaries: Seq<char>,
)
    ensures
        ({
            let first = list_exchange(url, true, cached);
            let kept = kept_summaries(first, etag, last_modified, summaries);
            let second = list_exchange(url, true, kept);
            &&& next_step(first, FetchEventView::Received { etag, last_modified, body }) == (
            FetchStepView::Use { body, store: None })
            &&& second.url == first.url
            &&& etag is Some ==> second.headers.contains(("If-None-Match"@, etag->0))
            &&& last_modified is Some ==> second.headers.contains(
                ("If-Modified-Since"@, last_modified->0),
            )
            &&& next_step(second, FetchEventView::Answered(304)) == FetchStepView::UseCached(
                summaries,
            )
        }),
{
    let first = list_exchange(url, true, cached);
    let kept = kept_summaries(first, etag, last_modified, summaries);
    let second = list_exchange(url, true, kept);
    if etag is Some {
        assert(second.headers[0] == ("If-None-Match"@, etag->0));
    }
    if last_modified is Some {
        assert(second.headers[second.headers.len() - 1] == (
            "If-Modified-Since"@,
            last_modified->0,
        ));
    }
}

/// A request without an earlier answer sets no conditions.
pub proof fn law_first_request_is_unconditional(
    base_url: Seq<char>,
    caching: bool,
    name: Seq<char>,
)
    ensures
        formula_exchange(base_url, caching, name, None).headers.len() == 0,
{
}

/// A package that is not found is reported as missing, by its name.
pub proof fn law_not_found_is_missing(
    base_url: Seq<char>,
    caching: bool,
    name: Seq<char>,
    cached: Option<CacheEntryView>,
)
    ensures
        next_step(
            formula_exchange(base_url, caching, name, cached),
            FetchEventView::Answered(404),
        ) == FetchStepView::Fail(ErrorView::MissingFormula { name }),
        next_step(cask_exchange(name), FetchEventView::Answered(404)) == FetchStepView::Fail(
            ErrorView::MissingFormula { name },
        ),
{
}

/// The body of an answer is used as it was received, whatever was asked for and whether or
/// not answers are kept. Where they are, it is kept with its tag and its date, unless it is
/// a list.
pub proof fn law_received_body_is_used(
    x: ExchangeView,
    etag: Option<Seq<char>>,
    last_modified: Option<Seq<char>>,
    body: Seq<char>,
)
    ensures
        ({
            let step = next_step(x, FetchEventView::Received { etag, last_modified, body });
            &&& step is Use
            &&& step->Use_body == body
            &&& step->store is Some <==> x.caching && !(x.resource is Summaries)
            &&& step->store is Some ==> step->store->0.etag == etag
                && step->store->0.last_modified == last_modified && step->store->0.body == body
        }),
{
}

/// Every answer whose status is a success is read, whatever was asked for.
pub proof fn law_success_is_read(x: ExchangeView, status: u16)
    requires
        200 <= status <= 299,
    ensures
        next_step(x, FetchEventView::Answered(status)) == FetchStepView::ReadBody,
        is_status(status),
{
}

/// An answer without success is a failure that names its status: but where nothing has
/// changed and an answer was kept, that answer is used, and where a package is not found,
/// it is reported as missing.
pub proof fn law_other_statuses(x: ExchangeView, status: u16)
    requires
        status < 200 || status > 299,
    ensures
        next_step(x, FetchEventView::Answered(status)) == (if status == 304 && x.cached is Some {
            FetchStepView::UseCached(x.cached->0.body)
        } else if status == 404 && x.missing is Some {
            FetchStepView::Fail(ErrorView::MissingFormula { name: x.missing->0 })
        } else {
            FetchStepView::Fail(
                ErrorView::NetworkFailure { message: "HTTP "@ + status_words(status) },
            )
        }),
        is_status(status) <==> 100 <= status <= 999,
{
}

/// A request that could not be sent, or whose answer could not be read, fails with the
/// reason, whatever was asked for and whatever was kept.
pub proof fn law_broken_exchange_fails(x: ExchangeView, why: Seq<char>)
    ensures
        next_step(x, FetchEventView::SendFailed(why)) == FetchStepView::Fail(
            ErrorView::NetworkFailure { message: why },
        ),
        next_step(x, FetchEventView::BodyFailed(why)) == FetchStepView::Fail(
            ErrorView::NetworkFailure { message: "failed to read response body: "@ + why },
        ),
{
}

/// The tag of a kept answer is sent, and then its date, each where it is known; and nothing
/// else.
pub proof fn law_conditions(entry: CacheEntryView)
    ensures
        ({
            let sent = conditions(Some(entry));
            let tags: int = if entry.etag is Some {
                1
            } else {
                0
            };
            let dates: int = if entry.last_modified is Some {
                1
            } else {
                0
            };
            &&& sent.len() == tags + dates
            &&& entry.etag is Some ==> sent[0] == ("If-None-Match"@, entry.etag->0)
            &&& entry.last_modified is Some ==> sent[tags] == (
                "If-Modified-Since"@,
                entry.last_modified->0,
            )
            &&& conditions(None).len() == 0
        }),
{
}

/// Every request that may use a kept answer sends its conditions, and remembers it.
pub proof fn law_requests_remember(
    base_url: Seq<char>,
    url: Seq<char>,
    caching: bool,
    name: Seq<char>,
    cached: Option<CacheEntryView>,
)
    ensures
        ({
            let formula = formula_exchange(base_url, caching, name, cached);
            let list = list_exchange(url, caching, cached);
            &&& formula.headers == conditions(cached) && formula.cached == cached
            &&& formula.url == base_url + "/"@ + name + ".json"@
            &&& formula.caching == caching && formula.missing == Some(name)
            &&& formula.resource is Formula
            &&& list.headers == conditions(cached) && list.cached == cached
            &&& list.url == url && list.caching == caching && list.missing is None
            &&& list.resource is Summaries
        }),
{
}

/// The models of requests, of events, of steps and of kept answers hold what the values
/// hold.
pub proof fn law_exchange_models(
    x: Exchange,
    event: FetchEvent,
    step: FetchStep,
    entry: CacheEntry,
)
    ensures
        x@.url == x.url@,
        x@.headers.len() == x.headers@.len(),
        forall|i: int|
            0 <= i < x.headers@.len() ==> #[trigger] x@.headers[i] == (
                x.headers@[i].0@,
                x.headers@[i].1@,
            ),
        x@.resource == x.resource,
        x@.missing == option_text(x.missing),
        x@.cached == (match x.cached {
            Some(e) => Some(e@),
            None => None,
        }),
        x@.caching == x.caching,
        match event {
            FetchEvent::SendFailed(why) => event@ == FetchEventView::SendFailed(why@),
            FetchEvent::Answered(status) => event@ == FetchEventView::Answered(status),
            FetchEvent::BodyFailed(why) => event@ == FetchEventView::BodyFailed(why@),
            FetchEvent::Received { etag, last_modified, body } => event@ == (
            FetchEventView::Received {
                etag: option_text(etag),
                last_modified: option_text(last_modified),
                body: body@,
            }),
        },
        match step {
            FetchStep::ReadBody => step@ == FetchStepView::ReadBody,
            FetchStep::UseCached(body) => step@ == FetchStepView::UseCached(body@),
            FetchStep::Use { body, store } => step@ is Use && step@->Use_body == body@
                && step@->store == option_entry(store),
            FetchStep::Fail(e) => step@ == FetchStepView::Fail(e@),
        },
        entry@.etag == option_text(entry.etag),
        entry@.last_modified == option_text(entry.last_modified),
        entry@.body == entry.body@,
{
}

} // verus!
