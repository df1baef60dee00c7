//! What is reported, and what is downloaded, while packages are installed.
use vstd::prelude::*;

verus! {

/// What has happened to a package.
#[derive(Debug)]
pub enum InstallProgress {
    UnpackStarted { name: String },
    UnpackCompleted { name: String },
    LinkStarted { name: String },
    LinkCompleted { name: String },
    InstallCompleted { name: String },
}

/// Model of an [`InstallProgress`].
pub enum ProgressView {
    UnpackStarted { name: Seq<char> },
    UnpackCompleted { name: Seq<char> },
    LinkStarted { name: Seq<char> },
    LinkCompleted { name: Seq<char> },
    InstallCompleted { name: Seq<char> },
}

impl InstallProgress {
    pub open spec fn view(&self) -> ProgressView {
        match self {
            InstallProgress::UnpackStarted { name } => ProgressView::UnpackStarted { name: name@ },
            InstallProgress::UnpackCompleted { name } => ProgressView::UnpackCompleted {
                name: name@,
            },
            InstallProgress::LinkStarted { name } => ProgressView::LinkStarted { name: name@ },
            InstallProgress::LinkCompleted { name } => ProgressView::LinkCompleted { name: name@ },
            InstallProgress::InstallCompleted { name } => ProgressView::InstallCompleted {
                name: name@,
            },
        }
    }
}

/// Some reports, as models.
pub open spec fn report_views(reports: Seq<InstallProgress>) -> Seq<ProgressView> {
    reports.map_values(|p: InstallProgress| p@)
}

/// A file to download: where it is, what it hashes to and the package it is for.
#[derive(Debug)]
pub struct DownloadRequest {
    pub url: String,
    pub sha256: String,
    pub name: String,
}

/// Model of a [`DownloadRequest`].
pub struct RequestView {
    pub url: Seq<char>,
    pub sha256: Seq<char>,
    pub name: Seq<char>,
}

impl DownloadRequest {
    pub open spec fn view(&self) -> RequestView {
        RequestView { url: self.url@, sha256: self.sha256@, name: self.name@ }
    }
}

/// The models of reports and of requests hold what the values hold.
pub proof fn law_progress_models(reports: Seq<InstallProgress>, request: DownloadRequest)
    ensures
        report_views(reports).len() == reports.len(),
        forall|i: int|
            0 <= i < reports.len() ==> match reports[i] {
                InstallProgress::UnpackStarted { name } => #[trigger] report_views(reports)[i] == (
                ProgressView::UnpackStarted { name: name@ }),
                InstallProgress::UnpackCompleted { name } => report_views(reports)[i] == (
                ProgressView::UnpackCompleted { name: name@ }),
                InstallProgress::LinkStarted { name } => report_views(reports)[i] == (
                ProgressView::LinkStarted { name: name@ }),
                InstallProgress::LinkCompleted { name } => report_views(reports)[i] == (
                ProgressView::LinkCompleted { name: name@ }),
                InstallProgress::InstallCompleted { name } => report_views(reports)[i] == (
                ProgressView::InstallCompleted { name: name@ }),
            },
        request@.url == request.url@,
        request@.sha256 == request.sha256@,
        request@.name == request.name@,
{
}

} // verus!
