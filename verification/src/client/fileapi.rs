//! The decisions of a client for the Wi-Fi file API.
//!
//! Everything protocol-shaped comes from [`crate::fileapi`]: the host, the URLs, the reply parsers
//! and the completeness rule. The caller owns the socket.
//!
//! The download check is the point: a body whose length is outside
//! [`crate::fileapi::expected_byte_range`] is refused rather than handed back as a truncated
//! picture. A partial transfer is a real outcome on this access point, and the listing's own `size`
//! is the only thing that can catch it.
use crate::fileapi;
use crate::fileapi::DeleteReply;
use crate::fileapi::DeleteReplyView;
use crate::fileapi::FileEntry;
use crate::fileapi::FileList;
use crate::fileapi::FileListView;
use crate::fileapi::ParseError;
use crate::fileapi::ParseErrorView;
use crate::text;
use vstd::prelude::*;
use vstd::utf8::*;

verus! {

/// The ceiling on a single download body: larger than any clip the glasses can hold, small enough
/// that a wrong-network page cannot exhaust memory.
pub const MAX_BODY_BYTES: u64 = 536_870_912;

/// The per-request timeout, in milliseconds. It covers the whole body, not one packet.
pub const REQUEST_TIMEOUT: u64 = 60_000;

/// The timeout of the request that asks whether the glasses answer at all, in milliseconds.
pub const REACH_TIMEOUT: u64 = 3_000;

/// Why a request did not produce what was asked for.
#[derive(Debug, PartialEq, Eq)]
pub enum ClientError {
    /// Anything below HTTP. Usually "not joined to the glasses' access point".
    Transport { url: String, detail: String },
    /// A response that was not 2xx.
    Status { url: String, status: u16 },
    /// A 2xx body that did not parse.
    Parse { url: String, source: ParseError },
    /// A download whose length is outside the range the listing implies.
    ShortDownload { name: String, size_kib: u64, bytes: u64 },
    /// A local filesystem failure.
    Io { path: String, detail: String },
    /// The delete endpoint answered, and said no.
    DeleteRefused { name: String, reply: DeleteReply },
}

impl ClientError {
    /// The error in words.
    pub open spec fn words(self) -> Seq<char> {
        match self {
            ClientError::Transport { url, detail } => url@ + ": "@ + detail@,
            ClientError::Status { url, status } => url@ + ": HTTP "@ + text::decimal_text(
                status as int,
            ),
            ClientError::Parse { url, source } => url@ + ": "@ + source.words(),
            ClientError::ShortDownload { name, size_kib, bytes } => name@ + ": got "@
                + text::decimal_text(bytes as int) + " bytes, a "@ + text::decimal_text(
                size_kib as int,
            ) + " KiB listing means "@ + text::decimal_text(fileapi::least_bytes(size_kib) as int)
                + "..="@ + text::decimal_text(fileapi::most_bytes(size_kib) as int),
            ClientError::Io { path, detail } => path@ + ": "@ + detail@,
            ClientError::DeleteRefused { name, reply } => name@ + ": delete returned "@
                + text::signed_text(reply.result as int) + " ("@ + reply.info@ + ")"@,
        }
    }

    pub fn to_string(&self) -> (s: String)
        ensures
            s@ == self.words(),
    {
        match self {
            ClientError::Transport { url, detail } => {
                let mut out = url.clone();
                out.append(": ");
                out.append(detail.as_str());
                out
            },
            ClientError::Status { url, status } => {
                let mut out = url.clone();
                out.append(": HTTP ");
                text::push_decimal(&mut out, *status as u64);
                out
            },
            ClientError::Parse { url, source } => {
                let mut out = url.clone();
                out.append(": ");
                out.append(source.to_string().as_str());
                out
            },
            ClientError::ShortDownload { name, size_kib, bytes } => {
                let (low, high) = fileapi::byte_bounds(*size_kib);
                let mut out = name.clone();
                out.append(": got ");
                text::push_decimal(&mut out, *bytes);
                out.append(" bytes, a ");
                text::push_decimal(&mut out, *size_kib);
                out.append(" KiB listing means ");
                text::push_decimal(&mut out, low);
                out.append("..=");
                text::push_decimal(&mut out, high);
                out
            },
            ClientError::Io { path, detail } => {
                let mut out = path.clone();
                out.append(": ");
                out.append(detail.as_str());
                out
            },
            ClientError::DeleteRefused { name, reply } => {
                let mut out = name.clone();
                out.append(": delete returned ");
                text::push_signed(&mut out, reply.result);
                out.append(" (");
                out.append(reply.info.as_str());
                out.append(")");
                out
            },
        }
    }
}

/// What the glasses at one host are asked, and what their replies mean.
#[derive(Debug, Clone, PartialEq, Eq)]
pub struct FileClient {
    host: String,
}

impl View for FileClient {
    type V = Seq<char>;

    /// The host.
    closed spec fn view(&self) -> Seq<char> {
        self.host@
    }
}

impl Default for FileClient {
    fn default() -> (c: Self)
        ensures
            c@ == fileapi::HOST@,
    {
        FileClient::new()
    }
}

impl FileClient {
    /// A client for the glasses at their fixed address.
    pub fn new() -> (c: Self)
        ensures
            c@ == fileapi::HOST@,
    {
        FileClient::with_host(fileapi::HOST)
    }

    /// A client for another host: a replay fixture, a proxy.
    pub fn with_host(host: &str) -> (c: Self)
        ensures
            c@ == host@,
    {
        FileClient { host: String::from_str(host) }
    }

    pub fn host(&self) -> (host: &str)
        ensures
            host@ == self@,
    {
        self.host.as_str()
    }

    pub fn base_url(&self) -> (url: String)
        ensures
            url@ == fileapi::base_of(self@),
    {
        fileapi::base_url(self.host.as_str())
    }

    /// Whether a response with this status has the body that was asked for.
    pub fn check_status(&self, url: &str, status: u16) -> (r: Result<(), ClientError>)
        ensures
            match r {
                Ok(()) => 200 <= status < 300,
                Err(ClientError::Status { url: u, status: s }) => !(200 <= status < 300) && u@ == url@
                    && s == status,
                Err(_) => false,
            },
    {
        if 200 <= status && status < 300 {
            Ok(())
        } else {
            Err(ClientError::Status { url: String::from_str(url), status })
        }
    }

    /// What the body of a listing reply says. A body that is no UTF-8 is read with its bad bytes
    /// replaced.
    pub fn list_reply(&self, body: &[u8]) -> (r: Result<FileList, ClientError>)
        ensures
            ({
                let model = fileapi::list_of(encode_utf8(text::lossy_text(body@)));
                match r {
                    Ok(list) => model == Ok::<FileListView, ParseErrorView>(list@),
                    Err(ClientError::Parse { url, source }) => url@ == fileapi::base_of(self@)
                        + fileapi::LIST_PATH@ && model == Err::<FileListView, ParseErrorView>(
                        source@,
                    ),
                    Err(_) => false,
                }
            }),
            valid_utf8(body@) ==> encode_utf8(text::lossy_text(body@)) == body@,
    {
        let body_text = text::lossy(body);
        proof {
            if valid_utf8(body@) {
                decode_utf8_encode_utf8(body@);
            }
        }
        match FileList::parse(body_text.as_str()) {
            Ok(list) => Ok(list),
            Err(source) => Err(
                ClientError::Parse { url: fileapi::list_url_on(self.host.as_str()), source },
            ),
        }
    }

    /// The body of a download, if its length is one that the listing allows.
    pub fn download_reply(&self, name: &str, size_kib: u64, bytes: Vec<u8>) -> (r: Result<
        Vec<u8>,
        ClientError,
    >)
        ensures
            match r {
                Ok(b) => b == bytes && fileapi::least_bytes(size_kib) <= bytes@.len()
                    <= fileapi::most_bytes(size_kib),
                Err(ClientError::ShortDownload { name: n, size_kib: k, bytes: b }) => n@ == name@
                    && k == size_kib && b == bytes@.len() && !(fileapi::least_bytes(size_kib)
                    <= bytes@.len() <= fileapi::most_bytes(size_kib)),
                Err(_) => false,
            },
    {
        let len: u64 = bytes.len() as u64;
        if fileapi::download_is_complete(size_kib, len) {
            Ok(bytes)
        } else {
            Err(
                ClientError::ShortDownload { name: String::from_str(name), size_kib, bytes: len },
            )
        }
    }

    /// What the body of a delete reply says. An error when the delete did not take. A body that is
    /// no UTF-8 is read with its bad bytes replaced.
    pub fn delete_reply(&self, name: &str, body: &[u8]) -> (r: Result<DeleteReply, ClientError>)
        ensures
            ({
                let model = fileapi::delete_reply_of(encode_utf8(text::lossy_text(body@)));
                match r {
                    Ok(reply) => model == Ok::<DeleteReplyView, ParseErrorView>(reply@)
                        && reply.result == 0,
                    Err(ClientError::DeleteRefused { name: n, reply }) => model == Ok::<
                        DeleteReplyView,
                        ParseErrorView,
                    >(reply@) && reply.result != 0 && n@ == name@,
                    Err(ClientError::Parse { url, source }) => model == Err::<
                        DeleteReplyView,
                        ParseErrorView,
                    >(source@) && url@ == fileapi::query_url(self@, fileapi::DELETE_PATH@, name@),
                    Err(_) => false,
                }
            }),
            valid_utf8(body@) ==> encode_utf8(text::lossy_text(body@)) == body@,
    {
        let body_text = text::lossy(body);
        proof {
            if valid_utf8(body@) {
                decode_utf8_encode_utf8(body@);
            }
        }
        match DeleteReply::parse(body_text.as_str()) {
            Ok(reply) => {
                if reply.is_success() {
                    Ok(reply)
                } else {
                    Err(ClientError::DeleteRefused { name: String::from_str(name), reply })
                }
            },
            Err(source) => Err(
                ClientError::Parse {
                    url: fileapi::delete_url_on(self.host.as_str(), name),
                    source,
                },
            ),
        }
    }
}

// ---- syncing the gallery --------------------------------------------------------------

/// What one sync did.
#[derive(Debug, Clone, PartialEq, Eq)]
pub struct SyncReport {
    /// Files written, in the order they landed.
    pub downloaded: Vec<String>,
    /// Names deleted from the glasses.
    pub deleted: Vec<String>,
    /// Bytes written.
    pub bytes: u64,
    /// Per-file failures. A sync does not stop on one bad file: the next one may be fine.
    pub failures: Vec<(String, String)>,
}

/// A [`SyncReport`] as values.
#[verifier::ext_equal]
pub struct ReportView {
    pub downloaded: Seq<Seq<char>>,
    pub deleted: Seq<Seq<char>>,
    pub bytes: int,
    pub failures: Seq<(Seq<char>, Seq<char>)>,
}

/// Texts as values.
pub open spec fn texts(s: Seq<String>) -> Seq<Seq<char>> {
    s.map_values(|t: String| t@)
}

impl View for SyncReport {
    type V = ReportView;

    open spec fn view(&self) -> ReportView {
        ReportView {
            downloaded: texts(self.downloaded@),
            deleted: texts(self.deleted@),
            bytes: self.bytes as int,
            failures: self.failures@.map_values(|f: (String, String)| (f.0@, f.1@)),
        }
    }
}

/// Nothing done.
pub open spec fn nothing_done() -> ReportView {
    ReportView {
        downloaded: Seq::empty(),
        deleted: Seq::empty(),
        bytes: 0,
        failures: Seq::empty(),
    }
}

impl Default for SyncReport {
    fn default() -> (r: Self)
        ensures
            r@ == nothing_done(),
    {
        let r = SyncReport {
            downloaded: Vec::new(),
            deleted: Vec::new(),
            bytes: 0,
            failures: Vec::new(),
        };
        assert(r@ =~= nothing_done());
        r
    }
}

impl SyncReport {
    pub fn is_clean(&self) -> (b: bool)
        ensures
            b == (self@.failures.len() == 0),
    {
        self.failures.len() == 0
    }
}

/// What a sync does next: something with the file at this place.
#[derive(Debug, Clone, Copy, PartialEq, Eq, Structural)]
pub enum SyncAction {
    Download(usize),
    Delete(usize),
    Done,
}

/// What became of an action.
#[derive(Debug, PartialEq, Eq)]
pub enum SyncOutcome {
    /// The download was verified and written here, with this many bytes.
    Downloaded { path: String, bytes: u64 },
    DownloadFailed { detail: String },
    Deleted,
    DeleteFailed { detail: String },
}

/// A [`SyncOutcome`] as values.
#[verifier::ext_equal]
pub enum OutcomeView {
    Downloaded { path: Seq<char>, bytes: u64 },
    DownloadFailed { detail: Seq<char> },
    Deleted,
    DeleteFailed { detail: Seq<char> },
}

impl View for SyncOutcome {
    type V = OutcomeView;

    open spec fn view(&self) -> OutcomeView {
        match *self {
            SyncOutcome::Downloaded { path, bytes } => OutcomeView::Downloaded {
                path: path@,
                bytes,
            },
            SyncOutcome::DownloadFailed { detail } => OutcomeView::DownloadFailed {
                detail: detail@,
            },
            SyncOutcome::Deleted => OutcomeView::Deleted,
            SyncOutcome::DeleteFailed { detail } => OutcomeView::DeleteFailed { detail: detail@ },
        }
    }
}

/// The whole gallery, file by file. A file is deleted only after its own download has been
/// verified, so an interrupted sync loses nothing that was not already saved.
#[derive(Debug)]
pub struct SyncRun {
    names: Vec<String>,
    delete_after: bool,
    at: usize,
    landed: bool,
    report: SyncReport,
}

/// The state of a [`SyncRun`].
#[verifier::ext_equal]
pub struct RunView {
    /// The files, in order.
    pub names: Seq<Seq<char>>,
    pub delete_after: bool,
    /// The file at hand.
    pub at: int,
    /// Whether that file has been downloaded and is to be deleted.
    pub landed: bool,
    pub report: ReportView,
}

impl View for SyncRun {
    type V = RunView;

    closed spec fn view(&self) -> RunView {
        RunView {
            names: texts(self.names@),
            delete_after: self.delete_after,
            at: self.at as int,
            landed: self.landed,
            report: self.report@,
        }
    }
}

/// What a run does next.
pub open spec fn action_of(r: RunView) -> SyncAction {
    if r.at >= r.names.len() {
        SyncAction::Done
    } else if r.landed {
        SyncAction::Delete(r.at as usize)
    } else {
        SyncAction::Download(r.at as usize)
    }
}

/// Whether an outcome is one of the action at hand.
pub open spec fn answers(action: SyncAction, outcome: OutcomeView) -> bool {
    match outcome {
        OutcomeView::Downloaded { .. } | OutcomeView::DownloadFailed { .. } => action is Download,
        OutcomeView::Deleted | OutcomeView::DeleteFailed { .. } => action is Delete,
    }
}

/// What an outcome does to a run.
pub open spec fn after_outcome(r: RunView, outcome: OutcomeView) -> RunView {
    let name = r.names[r.at];
    match outcome {
        OutcomeView::Downloaded { path, bytes } => RunView {
            at: if r.delete_after {
                r.at
            } else {
                r.at + 1
            },
            landed: r.delete_after,
            report: ReportView {
                downloaded: r.report.downloaded.push(path),
                bytes: r.report.bytes + bytes,
                ..r.report
            },
            ..r
        },
        OutcomeView::Deleted => RunView {
            at: r.at + 1,
            landed: false,
            report: ReportView { deleted: r.report.deleted.push(name), ..r.report },
            ..r
        },
        OutcomeView::DownloadFailed { detail } | OutcomeView::DeleteFailed { detail } => RunView {
            at: r.at + 1,
            landed: false,
            report: ReportView { failures: r.report.failures.push((name, detail)), ..r.report },
            ..r
        },
    }
}

/// The names of some files.
pub open spec fn names_of(files: Seq<&FileEntry>) -> Seq<Seq<char>> {
    files.map_values(|f: &FileEntry| f.name@)
}

impl SyncRun {
    pub closed spec fn wf(&self) -> bool {
        self.at <= self.names@.len()
    }

    /// A sync of these files.
    pub fn new(files: &Vec<&FileEntry>, delete_after: bool) -> (run: Self)
        ensures
            run.wf(),
            run@ == (RunView {
                names: names_of(files@),
                delete_after,
                at: 0,
                landed: false,
                report: nothing_done(),
            }),
    {
        let mut names: Vec<String> = Vec::new();
        for i in 0..files.len()
            invariant
                texts(names@) == names_of(files@).take(i as int),
        {
            let ghost before = texts(names@);
            names.push(files[i].name.clone());
            assert(texts(names@) =~= before.push(files@[i as int].name@));
            assert(names_of(files@).take(i + 1) =~= before.push(files@[i as int].name@));
        }
        assert(names_of(files@).take(files@.len() as int) =~= names_of(files@));
        SyncRun { names, delete_after, at: 0, landed: false, report: SyncReport::default() }
    }

    /// What to do next.
    pub fn action(&self) -> (action: SyncAction)
        requires
            self.wf(),
        ensures
            action == action_of(self@),
    {
        if self.at >= self.names.len() {
            SyncAction::Done
        } else if self.landed {
            SyncAction::Delete(self.at)
        } else {
            SyncAction::Download(self.at)
        }
    }

    /// Take in what became of the action.
    pub fn take(&mut self, outcome: SyncOutcome)
        requires
            old(self).wf(),
            answers(action_of(old(self)@), outcome@),
            outcome@ matches OutcomeView::Downloaded { bytes, .. } ==> old(self)@.report.bytes
                + bytes <= u64::MAX,
        ensures
            final(self).wf(),
            final(self)@ == after_outcome(old(self)@, outcome@),
    {
        assert(self.at < self.names.len());
        let name = self.names[self.at].clone();
        match outcome {
            SyncOutcome::Downloaded { path, bytes } => {
                self.report.bytes = self.report.bytes + bytes;
                self.report.downloaded.push(path);
                self.landed = self.delete_after;
                if !self.delete_after {
                    self.at = self.at + 1;
                }
            },
            SyncOutcome::Deleted => {
                self.report.deleted.push(name);
                self.landed = false;
                self.at = self.at + 1;
            },
            SyncOutcome::DownloadFailed { detail } => {
                self.report.failures.push((name, detail));
                self.landed = false;
                self.at = self.at + 1;
            },
            SyncOutcome::DeleteFailed { detail } => {
                self.report.failures.push((name, detail));
                self.landed = false;
                self.at = self.at + 1;
            },
        }
        assert(self@ =~= after_outcome(old(self)@, outcome@));
    }

    /// What was done.
    pub fn report(&self) -> (report: &SyncReport)
        ensures
            report@ == self@.report,
    {
        &self.report
    }
}

// ---- laws -----------------------------------------------------------------------------

/// A file is deleted only right after its own download was verified.
pub proof fn lemma_only_what_landed_is_deleted(r: RunView, outcome: OutcomeView)
    requires
        answers(action_of(r), outcome),
        0 <= r.at,
        r.names.len() <= usize::MAX,
    ensures
        action_of(after_outcome(r, outcome)) matches SyncAction::Delete(i) ==> action_of(r)
            == SyncAction::Download(i) && outcome is Downloaded,
{
}

/// One bad file does not stop a sync: whatever became of a file, the next one is tried.
pub proof fn lemma_a_failure_moves_on(r: RunView, outcome: OutcomeView)
    requires
        answers(action_of(r), outcome),
        outcome is DownloadFailed || outcome is DeleteFailed,
    ensures
        after_outcome(r, outcome).at == r.at + 1,
        action_of(after_outcome(r, outcome)) == (if r.at + 1 < r.names.len() {
            SyncAction::Download((r.at + 1) as usize)
        } else {
            SyncAction::Done
        }),
{
}

/// The state after some outcomes.
pub open spec fn after_outcomes(r: RunView, outcomes: Seq<OutcomeView>) -> RunView
    decreases outcomes.len(),
{
    if outcomes.len() == 0 {
        r
    } else {
        after_outcome(after_outcomes(r, outcomes.drop_last()), outcomes.last())
    }
}

/// Whether each outcome is one of the action at hand.
pub open spec fn all_answer(r: RunView, outcomes: Seq<OutcomeView>) -> bool
    decreases outcomes.len(),
{
    outcomes.len() == 0 || (all_answer(r, outcomes.drop_last()) && answers(
        action_of(after_outcomes(r, outcomes.drop_last())),
        outcomes.last(),
    ))
}

/// Once a sync is done, a clean report means that every file landed, and that every file was
/// deleted if that was asked for.
pub proof fn lemma_a_clean_report_is_a_whole_gallery(
    names: Seq<Seq<char>>,
    delete_after: bool,
    outcomes: Seq<OutcomeView>,
)
    requires
        all_answer(begun(names, delete_after), outcomes),
        action_of(after_outcomes(begun(names, delete_after), outcomes)) is Done,
    ensures
        ({
            let report = after_outcomes(begun(names, delete_after), outcomes).report;
            report.failures.len() == 0 ==> report.downloaded.len() == names.len() && report.deleted
                == (if delete_after {
                names
            } else {
                Seq::empty()
            })
        }),
{
    lemma_clean_so_far(names, delete_after, outcomes);
    assert(names.take(names.len() as int) =~= names);
}

/// A sync at its beginning.
pub open spec fn begun(names: Seq<Seq<char>>, delete_after: bool) -> RunView {
    RunView { names, delete_after, at: 0, landed: false, report: nothing_done() }
}

proof fn lemma_clean_so_far(
    names: Seq<Seq<char>>,
    delete_after: bool,
    outcomes: Seq<OutcomeView>,
)
    requires
        all_answer(begun(names, delete_after), outcomes),
    ensures
        ({
            let r = after_outcomes(begun(names, delete_after), outcomes);
            &&& r.names == names
            &&& r.delete_after == delete_after
            &&& 0 <= r.at <= names.len()
            &&& r.landed ==> delete_after && r.at < names.len()
            &&& r.report.failures.len() == 0 ==> {
                &&& r.report.downloaded.len() == r.at + (if r.landed {
                    1int
                } else {
                    0
                })
                &&& r.report.deleted == (if delete_after {
                    names.take(r.at)
                } else {
                    Seq::empty()
                })
            }
        }),
    decreases outcomes.len(),
{
    if outcomes.len() == 0 {
        assert(names.take(0) =~= Seq::empty());
    } else {
        lemma_clean_so_far(names, delete_after, outcomes.drop_last());
        let before = after_outcomes(begun(names, delete_after), outcomes.drop_last());
        if before.at < names.len() {
            assert(names.take(before.at + 1) =~= names.take(before.at).push(names[before.at]));
        }
    }
}

/// A run goes through the files in order: it downloads each one, and deletes it after that if this
/// is wanted and the download landed. Behind the last one it is done.
pub proof fn lemma_what_a_run_does_next(r: RunView)
    requires
        0 <= r.at <= usize::MAX,
    ensures
        r.at >= r.names.len() ==> action_of(r) == SyncAction::Done,
        r.at < r.names.len() && !r.landed ==> action_of(r) == SyncAction::Download(r.at as usize),
        r.at < r.names.len() && r.landed ==> action_of(r) == SyncAction::Delete(r.at as usize),
        action_of(begun(r.names, r.delete_after)) == (if r.names.len() > 0 {
            SyncAction::Download(0)
        } else {
            SyncAction::Done
        }),
{
}

/// Only a download answers a download, and only a delete a delete.
pub proof fn lemma_what_answers_an_action(i: usize, path: Seq<char>, bytes: u64)
    ensures
        answers(SyncAction::Download(i), OutcomeView::Downloaded { path, bytes }),
        answers(SyncAction::Download(i), OutcomeView::DownloadFailed { detail: path }),
        !answers(SyncAction::Download(i), OutcomeView::Deleted),
        !answers(SyncAction::Download(i), OutcomeView::DeleteFailed { detail: path }),
        answers(SyncAction::Delete(i), OutcomeView::Deleted),
        answers(SyncAction::Delete(i), OutcomeView::DeleteFailed { detail: path }),
        !answers(SyncAction::Delete(i), OutcomeView::Downloaded { path, bytes }),
        !answers(SyncAction::Delete(i), OutcomeView::DownloadFailed { detail: path }),
{
}

/// What each outcome leaves in the report: a download its path and its bytes, a delete the name of
/// the file, a failure the name and the reason. Nothing that was reported is lost, and the run goes
/// to the next file, or from the download to the delete of the same.
pub proof fn lemma_what_an_outcome_leaves(
    r: RunView,
    path: Seq<char>,
    bytes: u64,
    detail: Seq<char>,
)
    ensures
        ({
            let u = after_outcome(r, OutcomeView::Downloaded { path, bytes });
            &&& u.report.downloaded == r.report.downloaded.push(path)
            &&& u.report.bytes == r.report.bytes + bytes
            &&& u.report.deleted == r.report.deleted
            &&& u.report.failures == r.report.failures
            &&& u.landed == r.delete_after
            &&& u.at == (if r.delete_after {
                r.at
            } else {
                r.at + 1
            })
        }),
        ({
            let u = after_outcome(r, OutcomeView::Deleted);
            &&& u.report.deleted == r.report.deleted.push(r.names[r.at])
            &&& u.report.downloaded == r.report.downloaded
            &&& u.report.bytes == r.report.bytes
            &&& u.report.failures == r.report.failures
            &&& !u.landed
            &&& u.at == r.at + 1
        }),
        forall|outcome: OutcomeView|
            #![trigger after_outcome(r, outcome)]
            outcome == (OutcomeView::DownloadFailed { detail }) || outcome == (
            OutcomeView::DeleteFailed { detail }) ==> ({
                let u = after_outcome(r, outcome);
                &&& u.report.failures == r.report.failures.push((r.names[r.at], detail))
                &&& u.report.downloaded == r.report.downloaded
                &&& u.report.deleted == r.report.deleted
                &&& u.report.bytes == r.report.bytes
                &&& !u.landed
                &&& u.at == r.at + 1
            }),
        forall|outcome: OutcomeView|
            (#[trigger] after_outcome(r, outcome)).names == r.names && after_outcome(
                r,
                outcome,
            ).delete_after == r.delete_after,
        nothing_done().downloaded.len() == 0,
        nothing_done().deleted.len() == 0,
        nothing_done().failures.len() == 0,
        nothing_done().bytes == 0,
{
}

/// A report and an outcome show what they carry, and a run has the names of its files.
pub proof fn lemma_what_a_report_shows(
    report: SyncReport,
    outcome: SyncOutcome,
    files: Seq<&FileEntry>,
    i: int,
)
    ensures
        report@.downloaded.len() == report.downloaded@.len(),
        0 <= i < report.downloaded@.len() ==> report@.downloaded[i] == report.downloaded@[i]@,
        report@.deleted.len() == report.deleted@.len(),
        0 <= i < report.deleted@.len() ==> report@.deleted[i] == report.deleted@[i]@,
        report@.bytes == report.bytes,
        report@.failures.len() == report.failures@.len(),
        0 <= i < report.failures@.len() ==> report@.failures[i] == (
            report.failures@[i].0@,
            report.failures@[i].1@,
        ),
        match outcome {
            SyncOutcome::Downloaded { path, bytes } => outcome@ == (OutcomeView::Downloaded {
                path: path@,
                bytes,
            }),
            SyncOutcome::DownloadFailed { detail } => outcome@ == (OutcomeView::DownloadFailed {
                detail: detail@,
            }),
            SyncOutcome::Deleted => outcome@ == OutcomeView::Deleted,
            SyncOutcome::DeleteFailed { detail } => outcome@ == (OutcomeView::DeleteFailed {
                detail: detail@,
            }),
        },
        names_of(files).len() == files.len(),
        0 <= i < files.len() ==> names_of(files)[i] == files[i].name@,
{
}

// ---- what the operations give back -----------------------------------------------------------

/// A reply is taken if its status is one of success, from 200 to 299, and refused with its address
/// and its status otherwise.
pub proof fn lemma_which_status_is_taken(
    c: FileClient,
    url: &str,
    status: u16,
    r: Result<(), ClientError>,
)
    ensures
        call_ensures(FileClient::check_status, (&c, url, status), r) ==> if status / 100 == 2 {
            r is Ok
        } else {
            r matches Err(ClientError::Status { url: u, status: s }) && u@ == url@ && s == status
        },
{
}

/// A download is taken, byte for byte, if it is as many kibibytes as were listed, and refused with
/// what it is otherwise.
pub proof fn lemma_which_download_is_taken(
    c: FileClient,
    name: &str,
    size_kib: u64,
    bytes: Vec<u8>,
    r: Result<Vec<u8>, ClientError>,
)
    requires
        size_kib < 0x3F_FFFF_FFFF_FFFF,
    ensures
        call_ensures(FileClient::download_reply, (&c, name, size_kib, bytes), r)
            ==> if bytes@.len() as int / 1024 == size_kib {
            r == Ok::<Vec<u8>, ClientError>(bytes)
        } else {
            r matches Err(ClientError::ShortDownload { name: n, size_kib: k, bytes: b }) && n@
                == name@ && k == size_kib && b == bytes@.len()
        },
{
}

/// A deletion is taken if its result is zero, refused if it is another, and an error with the
/// address that was asked if the reply does not parse.
pub proof fn lemma_which_deletion_is_taken(
    c: FileClient,
    name: &str,
    body: &[u8],
    r: Result<DeleteReply, ClientError>,
)
    requires
        valid_utf8(body@),
    ensures
        call_ensures(FileClient::delete_reply, (&c, name, body), r) ==> {
            let read = fileapi::delete_reply_of(body@);
            match read {
                Ok(reply) => if reply.result == 0 {
                    r matches Ok(given) && given@ == reply
                } else {
                    r matches Err(ClientError::DeleteRefused { name: n, reply: given }) && n@
                        == name@ && given@ == reply
                },
                Err(e) => r matches Err(ClientError::Parse { url, source }) && source@ == e
                    && url@ == "http://"@ + c@ + "/app/deletefile"@ + "?file="@
                    + fileapi::percent_encoded(encode_utf8(name@)),
            }
        },
{
}

/// A listing is given as it parses, and one that does not is an error with the address that was
/// asked.
pub proof fn lemma_which_listing_is_taken(
    c: FileClient,
    body: &[u8],
    r: Result<FileList, ClientError>,
)
    requires
        valid_utf8(body@),
    ensures
        call_ensures(FileClient::list_reply, (&c, body), r) ==> {
            let read = fileapi::list_of(body@);
            match read {
                Ok(list) => r matches Ok(given) && given@ == list,
                Err(e) => r matches Err(ClientError::Parse { url, source }) && source@ == e
                    && url@ == "http://"@ + c@ + "/app/getfilelist"@,
            }
        },
{
}

/// A client asks the glasses' own host, or the one that it is told.
pub proof fn lemma_which_host_is_asked(c: FileClient, host: &str, s: &str)
    ensures
        call_ensures(FileClient::new, (), c) ==> c@ == "192.168.169.1"@,
        call_ensures(FileClient::with_host, (host,), c) ==> c@ == host@,
        call_ensures(FileClient::host, (&c,), s) ==> s@ == c@,
{
}

/// What a failure reads as: the address, the path or the name first, and then what went wrong with
/// it.
pub proof fn lemma_what_a_failure_reads_as(e: ClientError, s: String)
    ensures
        call_ensures(ClientError::to_string, (&e,), s) ==> match e {
            ClientError::Transport { url, detail } => s@ == url@ + ": "@ + detail@,
            ClientError::Status { url, status } => s@ == url@ + ": HTTP "@ + text::decimal_text(
                status as int,
            ),
            ClientError::Parse { url, source } => s@ == url@ + ": "@ + source.words(),
            ClientError::ShortDownload { name, size_kib, bytes } => size_kib < 0x3F_FFFF_FFFF_FFFF
                ==> s@ == name@ + ": got "@ + text::decimal_text(bytes as int) + " bytes, a "@
                + text::decimal_text(size_kib as int) + " KiB listing means "@
                + text::decimal_text(1024 * size_kib as int) + "..="@ + text::decimal_text(
                1024 * size_kib + 1023,
            ),
            ClientError::Io { path, detail } => s@ == path@ + ": "@ + detail@,
            ClientError::DeleteRefused { name, reply } => s@ == name@ + ": delete returned "@
                + text::signed_text(reply.result as int) + " ("@ + reply.info@ + ")"@,
        },
{
}

} // verus!
