//! Extracting a download into the store, which is downloaded again where it proves
//! to be corrupted.
use crate::error::{Error, ErrorView};
use crate::execute::outcome_view;
use crate::progress::{DownloadRequest, RequestView};
use vstd::prelude::*;
use vstd::string::*;

verus! {

/// How many times a download is extracted at most.
pub const MAX_CORRUPTION_RETRIES: usize = 3;

/// A download that is being extracted, with the number of attempts that failed.
pub struct Extraction {
    request: DownloadRequest,
    attempt: usize,
}

/// Model of an [`Extraction`].
pub struct ExtractionView {
    pub request: RequestView,
    pub attempt: int,
}

/// What happened to a download.
pub enum ExtractEvent {
    /// It was extracted, or could not be.
    Extracted(Result<(), Error>),
    /// It was downloaded again, or could not be.
    Redownloaded(Result<(), Error>),
}

/// Model of an [`ExtractEvent`].
pub enum ExtractEventView {
    Extracted(Result<(), ErrorView>),
    Redownloaded(Result<(), ErrorView>),
}

impl ExtractEvent {
    pub open spec fn view(&self) -> ExtractEventView {
        match self {
            ExtractEvent::Extracted(result) => ExtractEventView::Extracted(outcome_view(*result)),
            ExtractEvent::Redownloaded(result) => ExtractEventView::Redownloaded(
                outcome_view(*result),
            ),
        }
    }
}

/// What is to be done next.
pub enum ExtractStep {
    /// Extract the download.
    Extract,
    /// Nothing: it is extracted.
    Done,
    /// Remove the corrupted file with this hash, tell the user, and download it again.
    Redownload { corrupted: String, notice: String, request: DownloadRequest },
    /// Remove the file with this hash, where there is one, and give up.
    Fail { remove: Option<String>, error: Error },
}

/// Model of an [`ExtractStep`].
pub enum ExtractStepView {
    Extract,
    Done,
    Redownload { corrupted: Seq<char>, notice: Seq<char>, request: RequestView },
    Fail { remove: Option<Seq<char>>, error: ErrorView },
}

impl ExtractStep {
    pub open spec fn view(&self) -> ExtractStepView {
        match self {
            ExtractStep::Extract => ExtractStepView::Extract,
            ExtractStep::Done => ExtractStepView::Done,
            ExtractStep::Redownload { corrupted, notice, request } => ExtractStepView::Redownload {
                corrupted: corrupted@,
                notice: notice@,
                request: request@,
            },
            ExtractStep::Fail { remove, error } => ExtractStepView::Fail {
                remove: match remove {
                    Some(key) => Some(key@),
                    None => None,
                },
                error: error@,
            },
        }
    }
}

/// A digit as text.
pub open spec fn digit(n: int) -> Seq<char>
    recommends
        0 <= n <= 9,
{
    seq![(0x30 + n) as char]
}

/// What the user is told before a download is repeated, where some attempts failed
/// before this one.
pub open spec fn retry_notice(name: Seq<char>, attempt: int) -> Seq<char> {
    "    Corrupted download detected for "@ + name + ", retrying ("@ + digit(attempt + 2) + "/"@
        + digit(MAX_CORRUPTION_RETRIES as int) + ")..."@
}

/// What is said of a download that was corrupted every time.
pub open spec fn final_message(message: Seq<char>) -> Seq<char> {
    message + "\n\nFailed after "@ + digit(MAX_CORRUPTION_RETRIES as int)
        + " attempts. The download may be corrupted at the source."@
}

/// Whether an event can come: a download is repeated only where an attempt is left.
pub open spec fn extraction_fits(x: ExtractionView, event: ExtractEventView) -> bool {
    event is Redownloaded ==> x.attempt + 1 < MAX_CORRUPTION_RETRIES
}

/// The download after an event: only one that came again is tried again.
pub open spec fn extraction_after(x: ExtractionView, event: ExtractEventView) -> ExtractionView {
    match event {
        ExtractEventView::Redownloaded(Ok(_)) => ExtractionView { attempt: x.attempt + 1, ..x },
        _ => x,
    }
}

/// What is to be done after an event: a corrupted download is removed, and
/// downloaded again where an attempt is left; any other failure is the end.
pub open spec fn extraction_step(x: ExtractionView, event: ExtractEventView) -> ExtractStepView {
    match event {
        ExtractEventView::Extracted(Ok(_)) => ExtractStepView::Done,
        ExtractEventView::Extracted(Err(error)) => match error {
            ErrorView::StoreCorruption { message } => if x.attempt + 1 < MAX_CORRUPTION_RETRIES {
                ExtractStepView::Redownload {
                    corrupted: x.request.sha256,
                    notice: retry_notice(x.request.name, x.attempt),
                    request: x.request,
                }
            } else {
                ExtractStepView::Fail {
                    remove: Some(x.request.sha256),
                    error: ErrorView::StoreCorruption { message: final_message(message) },
                }
            },
            _ => ExtractStepView::Fail { remove: None, error },
        },
        ExtractEventView::Redownloaded(Ok(_)) => ExtractStepView::Extract,
        ExtractEventView::Redownloaded(Err(error)) => ExtractStepView::Fail { remove: None, error },
    }
}

/// The events while a download is corrupted a number of times and comes again after
/// each of them.
pub open spec fn corruptions(messages: Seq<Seq<char>>) -> Seq<ExtractEventView>
    decreases messages.len(),
{
    if messages.len() == 0 {
        Seq::empty()
    } else {
        corruptions(messages.drop_last()).push(
            ExtractEventView::Extracted(
                Err(ErrorView::StoreCorruption { message: messages.last() }),
            ),
        ).push(ExtractEventView::Redownloaded(Ok(())))
    }
}

/// The download after some events.
pub open spec fn extraction_after_all(
    x: ExtractionView,
    events: Seq<ExtractEventView>,
) -> ExtractionView
    decreases events.len(),
{
    if events.len() == 0 {
        x
    } else {
        extraction_after(extraction_after_all(x, events.drop_last()), events.last())
    }
}

/// How many attempts some events ask for after the first.
pub open spec fn more_attempts(x: ExtractionView, events: Seq<ExtractEventView>) -> int
    decreases events.len(),
{
    if events.len() == 0 {
        0
    } else {
        let less = events.drop_last();
        let step = extraction_step(extraction_after_all(x, less), events.last());
        more_attempts(x, less) + if step is Extract {
            1int
        } else {
            0
        }
    }
}

/// Every event can come when it comes.
pub open spec fn all_fit(x: ExtractionView, events: Seq<ExtractEventView>) -> bool {
    forall|i: int|
        0 <= i < events.len() ==> extraction_fits(
            extraction_after_all(x, events.take(i)),
            #[trigger] events[i],
        )
}

/// Whatever happens, a download is extracted no more than the allowed number of
/// times.
pub proof fn law_attempts_are_bounded(x: ExtractionView, events: Seq<ExtractEventView>)
    requires
        x.attempt == 0,
        all_fit(x, events),
    ensures
        1 + more_attempts(x, events) <= MAX_CORRUPTION_RETRIES,
        extraction_after_all(x, events).attempt == more_attempts(x, events),
        extraction_after_all(x, events).request == x.request,
    decreases events.len(),
{
    if events.len() > 0 {
        let less = events.drop_last();
        assert forall|i: int| 0 <= i < less.len() implies extraction_fits(
            extraction_after_all(x, less.take(i)),
            #[trigger] less[i],
        ) by {
            assert(less.take(i) =~= events.take(i));
            assert(extraction_fits(extraction_after_all(x, events.take(i)), events[i]));
        }
        law_attempts_are_bounded(x, less);
        assert(events.take(events.len() - 1) =~= less);
        assert(extraction_fits(extraction_after_all(x, less), events[events.len() - 1]));
    }
}

/// A download that is corrupted fewer times than there are attempts is extracted all
/// the same; one that is corrupted every time fails, with what went wrong last.
pub proof fn law_corruption_is_survived(
    x: ExtractionView,
    messages: Seq<Seq<char>>,
    last: Seq<char>,
)
    requires
        x.attempt == 0,
        messages.len() < MAX_CORRUPTION_RETRIES,
    ensures
        ({
            let now = extraction_after_all(x, corruptions(messages));
            let corrupted = ExtractEventView::Extracted(
                Err(ErrorView::StoreCorruption { message: last }),
            );
            &&& all_fit(x, corruptions(messages))
            &&& extraction_step(now, ExtractEventView::Extracted(Ok(()))) is Done
            &&& extraction_step(now, corrupted) is Redownload <==> messages.len() + 1
                < MAX_CORRUPTION_RETRIES
            &&& messages.len() + 1 == MAX_CORRUPTION_RETRIES ==> extraction_step(now, corrupted)
                == (ExtractStepView::Fail {
                remove: Some(x.request.sha256),
                error: ErrorView::StoreCorruption { message: final_message(last) },
            })
        }),
{
    lemma_corruptions(x, messages);
}

proof fn lemma_corruptions(x: ExtractionView, messages: Seq<Seq<char>>)
    requires
        x.attempt == 0,
        messages.len() < MAX_CORRUPTION_RETRIES,
    ensures
        extraction_after_all(x, corruptions(messages)).attempt == messages.len(),
        extraction_after_all(x, corruptions(messages)).request == x.request,
        all_fit(x, corruptions(messages)),
    decreases messages.len(),
{
    if messages.len() > 0 {
        let less = messages.drop_last();
        lemma_corruptions(x, less);
        let before = corruptions(less);
        let failed = before.push(
            ExtractEventView::Extracted(
                Err(ErrorView::StoreCorruption { message: messages.last() }),
            ),
        );
        let events = corruptions(messages);
        assert(events.drop_last() =~= failed);
        assert(failed.drop_last() =~= before);
        assert(extraction_after_all(x, failed) == extraction_after_all(x, before));
        assert forall|i: int| 0 <= i < events.len() implies extraction_fits(
            extraction_after_all(x, events.take(i)),
            #[trigger] events[i],
        ) by {
            if i < before.len() {
                assert(events.take(i) =~= before.take(i));
                assert(extraction_fits(extraction_after_all(x, before.take(i)), before[i]));
            } else if i == events.len() - 1 {
                assert(events.take(i) =~= failed);
            }
        }
    }
}

/// A digit as text.
fn digit_text(n: usize) -> (r: &'static str)
    requires
        2 <= n <= 3,
    ensures
        r@ == digit(n as int),
{
    proof {
        reveal_strlit("2");
        reveal_strlit("3");
        assert("2"@ =~= digit(2));
        assert("3"@ =~= digit(3));
    }
    if n == 2 {
        "2"
    } else {
        "3"
    }
}

impl Extraction {
    pub closed spec fn view(&self) -> ExtractionView {
        ExtractionView { request: self.request@, attempt: self.attempt as int }
    }

    /// An attempt is left.
    #[verifier::type_invariant]
    spec fn attempt_left(self) -> bool {
        self.attempt < MAX_CORRUPTION_RETRIES
    }

    /// A download of which no attempt has failed.
    pub fn new(request: DownloadRequest) -> (r: Self)
        ensures
            r@ == (ExtractionView { request: request@, attempt: 0 }),
    {
        Self { request, attempt: 0 }
    }

    /// What comes of an event.
    pub fn on_event(&mut self, event: ExtractEvent) -> (r: ExtractStep)
        requires
            extraction_fits(old(self)@, event@),
        ensures
            final(self)@ == extraction_after(old(self)@, event@),
            r@ == extraction_step(old(self)@, event@),
    {
        proof {
            use_type_invariant(&*self);
        }
        match event {
            ExtractEvent::Extracted(Ok(_)) => ExtractStep::Done,
            ExtractEvent::Extracted(Err(Error::StoreCorruption { message })) => {
                let corrupted = self.request.sha256.clone();
                if self.attempt + 1 < MAX_CORRUPTION_RETRIES {
                    let name = self.request.name.as_str();
                    let notice = "    Corrupted download detected for ".to_owned().concat(
                        name,
                    ).concat(", retrying (").concat(digit_text(self.attempt + 2)).concat(
                        "/",
                    ).concat(digit_text(MAX_CORRUPTION_RETRIES)).concat(")...");
                    let request = DownloadRequest {
                        url: self.request.url.clone(),
                        sha256: self.request.sha256.clone(),
                        name: self.request.name.clone(),
                    };
                    ExtractStep::Redownload { corrupted, notice, request }
                } else {
                    let message = message.concat("\n\nFailed after ").concat(
                        digit_text(MAX_CORRUPTION_RETRIES),
                    ).concat(" attempts. The download may be corrupted at the source.");
                    ExtractStep::Fail {
                        remove: Some(corrupted),
                        error: Error::StoreCorruption { message },
                    }
                }
            },
            ExtractEvent::Extracted(Err(error)) => ExtractStep::Fail { remove: None, error },
            ExtractEvent::Redownloaded(Ok(_)) => {
                let attempt: usize = self.attempt + 1;
                self.attempt = attempt;
                ExtractStep::Extract
            },
            ExtractEvent::Redownloaded(Err(error)) => ExtractStep::Fail { remove: None, error },
        }
    }
}

/// A corrupted download is removed and asked for again, as it was asked for first, until it
/// was tried three times: then it is removed and given up, with what went wrong last.
pub proof fn law_corrupted_download_is_repeated(x: ExtractionView, message: Seq<char>)
    requires
        0 <= x.attempt,
    ensures
        ({
            let corrupted = ExtractEventView::Extracted(
                Err(ErrorView::StoreCorruption { message }),
            );
            let step = extraction_step(x, corrupted);
            &&& extraction_fits(x, corrupted)
            &&& extraction_after(x, corrupted) == x
            &&& x.attempt < 2 ==> {
                &&& step is Redownload
                &&& step->Redownload_corrupted == x.request.sha256
                &&& step->request == x.request
                &&& step->notice == "    Corrupted download detected for "@ + x.request.name
                    + ", retrying ("@ + (if x.attempt == 0 {
                    "2"@
                } else {
                    "3"@
                }) + "/3)..."@
            }
            &&& x.attempt >= 2 ==> {
                &&& step is Fail
                &&& step->remove == Some(x.request.sha256)
                &&& step->error == (ErrorView::StoreCorruption {
                    message: message
                        + "\n\nFailed after 3 attempts. The download may be corrupted at the source."@,
                })
            }
        }),
{
    reveal_strlit("2");
    reveal_strlit("3");
    reveal_strlit("/");
    reveal_strlit(")...");
    reveal_strlit("/3)...");
    reveal_strlit("\n\nFailed after ");
    reveal_strlit(" attempts. The download may be corrupted at the source.");
    reveal_strlit("\n\nFailed after 3 attempts. The download may be corrupted at the source.");
    assert("2"@ =~= digit(2));
    assert("3"@ =~= digit(3));
    assert("/3)..."@ =~= "/"@ + digit(3) + ")..."@);
    assert("\n\nFailed after 3 attempts. The download may be corrupted at the source."@
        =~= "\n\nFailed after "@ + digit(3)
        + " attempts. The download may be corrupted at the source."@);
    let start = "    Corrupted download detected for "@ + x.request.name + ", retrying ("@;
    if x.attempt == 0 {
        assert(retry_notice(x.request.name, 0) =~= start + "2"@ + "/3)..."@);
    } else if x.attempt == 1 {
        assert(retry_notice(x.request.name, 1) =~= start + "3"@ + "/3)..."@);
    }
    assert(final_message(message) =~= message
        + "\n\nFailed after 3 attempts. The download may be corrupted at the source."@);
}

/// A download that is extracted is done, whatever was tried before. One that comes again is
/// extracted again, as one attempt more.
pub proof fn law_extraction_goes_on(x: ExtractionView)
    ensures
        extraction_step(x, ExtractEventView::Extracted(Ok(()))) == ExtractStepView::Done,
        extraction_after(x, ExtractEventView::Extracted(Ok(()))) == x,
        extraction_fits(x, ExtractEventView::Extracted(Ok(()))),
        extraction_step(x, ExtractEventView::Redownloaded(Ok(()))) == ExtractStepView::Extract,
        extraction_after(x, ExtractEventView::Redownloaded(Ok(()))).attempt == x.attempt + 1,
        extraction_after(x, ExtractEventView::Redownloaded(Ok(()))).request == x.request,
        extraction_fits(x, ExtractEventView::Redownloaded(Ok(()))) <==> x.attempt < 2,
{
}

/// Any other failure is the end: nothing is removed or repeated, and the failure is handed
/// on as it is.
pub proof fn law_other_failure_is_the_end(x: ExtractionView, error: ErrorView)
    ensures
        !(error is StoreCorruption) ==> extraction_step(
            x,
            ExtractEventView::Extracted(Err(error)),
        ) == (ExtractStepView::Fail { remove: None, error }),
        extraction_step(x, ExtractEventView::Redownloaded(Err(error))) == (ExtractStepView::Fail {
            remove: None,
            error,
        }),
        extraction_after(x, ExtractEventView::Extracted(Err(error))) == x,
        extraction_after(x, ExtractEventView::Redownloaded(Err(error))) == x,
{
}

/// The models of events and of steps hold what the values hold.
pub proof fn law_extract_models(event: ExtractEvent, step: ExtractStep)
    ensures
        match event {
            ExtractEvent::Extracted(Ok(_)) => event@ == ExtractEventView::Extracted(Ok(())),
            ExtractEvent::Extracted(Err(e)) => event@ == ExtractEventView::Extracted(Err(e@)),
            ExtractEvent::Redownloaded(Ok(_)) => event@ == ExtractEventView::Redownloaded(Ok(())),
            ExtractEvent::Redownloaded(Err(e)) => event@ == ExtractEventView::Redownloaded(
                Err(e@),
            ),
        },
        match step {
            ExtractStep::Extract => step@ == ExtractStepView::Extract,
            ExtractStep::Done => step@ == ExtractStepView::Done,
            ExtractStep::Redownload { corrupted, notice, request } => step@ == (
            ExtractStepView::Redownload {
                corrupted: corrupted@,
                notice: notice@,
                request: request@,
            }),
            ExtractStep::Fail { remove: Some(key), error } => step@ == (ExtractStepView::Fail {
                remove: Some(key@),
                error: error@,
            }),
            ExtractStep::Fail { remove: None, error } => step@ == (ExtractStepView::Fail {
                remove: None,
                error: error@,
            }),
        },
{
}

} // verus!
