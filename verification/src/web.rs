//! Plain messages exchanged by the browser page and its render worker, and
//! the page's bookkeeping of the worker: which request waits, which one is
//! being rendered, and what happens when the worker has to be replaced.
use vstd::prelude::*;

use crate::diagnostic::{Diagnostic, diagnostics_view};
use crate::markdown::Analysis;
use crate::model::RenderDocument;
use crate::settings::PaperSize;
use crate::text::{ascii_lower, char_ascii_lower, chars_of, push_char, push_str, string_from_range};

verus! {

/// A request to render one Markdown resume.
#[derive(Debug)]
pub struct RenderRequest {
    pub markdown: String,
    pub paper: PaperSize,
    pub max_pages: Option<usize>,
}

/// The worker's answer to the page.
#[derive(Debug)]
pub enum RenderResponse {
    Ready,
    Rendered { svg_pages: Vec<String>, pdf: Vec<u8>, diagnostics: Vec<Diagnostic> },
    Rejected { diagnostics: Vec<Diagnostic> },
    Failed { message: String },
}

/// The value of a [`RenderRequest`].
pub struct SpecRequest {
    pub markdown: Seq<char>,
    pub paper: PaperSize,
    pub max_pages: Option<usize>,
}

impl View for RenderRequest {
    type V = SpecRequest;

    open spec fn view(&self) -> SpecRequest {
        SpecRequest { markdown: self.markdown@, paper: self.paper, max_pages: self.max_pages }
    }
}

pub open spec fn request_view(request: Option<RenderRequest>) -> Option<SpecRequest> {
    match request {
        Some(r) => Some(r@),
        None => None,
    }
}

/// The document to render, or the answer that refuses the resume: an
/// analysis without a document is answered with its diagnostics.
pub fn document_or_rejection(analysis: Analysis) -> (result: Result<RenderDocument, RenderResponse>)
    ensures
        match result {
            Ok(document) => analysis.document == Some(document),
            Err(response) => analysis.document is None && (response matches RenderResponse::Rejected {
                diagnostics,
            } && diagnostics_view(diagnostics@) == diagnostics_view(analysis.diagnostics@)),
        },
{
    match analysis.document {
        Some(document) => Ok(document),
        None => Err(RenderResponse::Rejected { diagnostics: analysis.diagnostics }),
    }
}

// ---------------------------------------------------------------------------
// The page's view of its render worker
/// A running render worker.
pub struct WorkerSlot {
    /// The worker has said it is ready.
    pub ready: bool,
    /// The request the worker is rendering.
    pub inflight: Option<RenderRequest>,
}

/// How long the page waits for the worker's answer to a request, in
/// milliseconds, before it gives the worker up.
pub const RENDER_TIMEOUT_MS: u32 = 5000;

/// What the page does with its render timeout after a step.
#[derive(Debug, PartialEq, Eq, Structural)]
pub enum TimeoutAction {
    /// Start the timeout afresh, replacing any that runs.
    Arm { after_ms: u32 },
    /// Stop the timeout.
    Clear,
}

/// What the page knows of its worker and of the request waiting for it,
/// and whether a render timeout runs.
pub struct RenderScheduler {
    worker: Option<WorkerSlot>,
    pending: Option<RenderRequest>,
    timeout_armed: bool,
}

/// The value of a [`WorkerSlot`].
pub struct SpecWorker {
    pub ready: bool,
    pub inflight: Option<SpecRequest>,
}

/// The value of a [`RenderScheduler`].
pub struct SpecScheduler {
    pub worker: Option<SpecWorker>,
    pub pending: Option<SpecRequest>,
    pub timeout_armed: bool,
}

impl View for RenderScheduler {
    type V = SpecScheduler;

    closed spec fn view(&self) -> SpecScheduler {
        SpecScheduler {
            worker: match &self.worker {
                Some(slot) => Some(
                    SpecWorker { ready: slot.ready, inflight: request_view(slot.inflight) },
                ),
                None => None,
            },
            pending: request_view(self.pending),
            timeout_armed: self.timeout_armed,
        }
    }
}

/// Whether a request may be sent now: a worker is running, ready, and not
/// rendering anything.
pub open spec fn can_send(s: SpecScheduler) -> bool {
    s.worker matches Some(w) && w.ready && w.inflight is None
}

/// What taking the waiting request for sending gives back, and the state
/// it leaves: the request, and no request waiting, when one waits and the
/// worker can take it; otherwise nothing, and the state unchanged.
pub open spec fn take_for_sending(s: SpecScheduler) -> (Option<SpecRequest>, SpecScheduler) {
    if can_send(s) && s.pending is Some {
        (s.pending, SpecScheduler { pending: None, ..s })
    } else {
        (None, s)
    }
}

/// The state after `request` was handed to the worker: the worker renders
/// it, and the render timeout runs.
pub open spec fn mark_sent(s: SpecScheduler, request: SpecRequest) -> SpecScheduler {
    SpecScheduler {
        worker: Some(SpecWorker { ready: true, inflight: Some(request) }),
        timeout_armed: true,
        ..s
    }
}

/// The state after the worker answered: it renders nothing, and the render
/// timeout is stopped.
pub open spec fn mark_answered(s: SpecScheduler) -> SpecScheduler {
    SpecScheduler {
        worker: match s.worker {
            Some(w) => Some(SpecWorker { inflight: None, ..w }),
            None => None,
        },
        timeout_armed: false,
        ..s
    }
}

/// The state after the worker was given up: no worker, the render timeout
/// stopped, and the request it was rendering waiting again unless a newer
/// one already waits.
pub open spec fn mark_stopped(s: SpecScheduler) -> SpecScheduler {
    SpecScheduler {
        worker: None,
        pending: match s.pending {
            Some(p) => Some(p),
            None => match s.worker {
                Some(w) => w.inflight,
                None => None,
            },
        },
        timeout_armed: false,
    }
}

/// A worker is only given a request once it is ready, and the render
/// timeout runs exactly while a request is being rendered.
pub open spec fn scheduler_wf(s: SpecScheduler) -> bool {
    &&& s.worker matches Some(w) ==> (w.inflight is Some ==> w.ready)
    &&& s.timeout_armed <==> (s.worker matches Some(w) && w.inflight is Some)
}

/// A message from the worker, as the page reads it.
#[derive(Debug, PartialEq, Eq, Structural)]
pub enum WorkerMessage {
    /// The message was not text.
    NotText,
    /// The text was not a response.
    Unreadable,
    /// The worker said it is ready.
    Ready,
    /// The worker answered the request it was rendering.
    Answered,
}

/// What the page does after a message from the worker.
#[derive(Debug, PartialEq, Eq)]
pub enum MessageAction {
    /// Give the worker up: report `failure`, stop the render timeout and
    /// start a new worker.
    Restart { failure: String },
    /// Try to send the waiting request.
    SendPending,
    /// Stop the render timeout, hand the answer on, then try to send the
    /// waiting request.
    DeliverAndSendPending,
}

impl RenderScheduler {
    /// No worker yet, nothing to render, and no timeout running.
    pub fn new() -> (scheduler: Self)
        ensures
            scheduler@ == (SpecScheduler { worker: None, pending: None, timeout_armed: false }),
    {
        RenderScheduler { worker: None, pending: None, timeout_armed: false }
    }

    /// A new worker has started; it is not ready yet.
    pub fn worker_started(&mut self)
        ensures
            final(self)@ == (SpecScheduler {
                worker: Some(SpecWorker { ready: false, inflight: None }),
                ..old(self)@
            }),
    {
        self.worker = Some(WorkerSlot { ready: false, inflight: None });
    }

    /// A new request replaces any request still waiting.
    pub fn schedule(&mut self, request: RenderRequest)
        ensures
            final(self)@ == (SpecScheduler { pending: Some(request@), ..old(self)@ }),
    {
        self.pending = Some(request);
    }

    /// The worker has said it is ready.
    pub fn worker_ready(&mut self)
        ensures
            final(self)@ == (SpecScheduler {
                worker: match old(self)@.worker {
                    Some(w) => Some(SpecWorker { ready: true, ..w }),
                    None => None,
                },
                ..old(self)@
            }),
    {
        match &mut self.worker {
            Some(slot) => {
                slot.ready = true;
            },
            None => {},
        }
    }

    /// The waiting request, taken to be sent, when the worker can take it.
    pub fn next_to_send(&mut self) -> (request: Option<RenderRequest>)
        ensures
            (request_view(request), final(self)@) == take_for_sending(old(self)@),
    {
        let sendable = match &self.worker {
            Some(slot) => slot.ready && slot.inflight.is_none(),
            None => false,
        };
        if sendable {
            self.pending.take()
        } else {
            None
        }
    }

    /// `request` was handed to the worker, which now renders it; the render
    /// timeout is started afresh.
    pub fn sent(&mut self, request: RenderRequest) -> (action: TimeoutAction)
        requires
            can_send(old(self)@),
        ensures
            final(self)@ == mark_sent(old(self)@, request@),
            action == (TimeoutAction::Arm { after_ms: RENDER_TIMEOUT_MS }),
    {
        match &mut self.worker {
            Some(slot) => {
                slot.inflight = Some(request);
            },
            None => {},
        }
        self.timeout_armed = true;
        TimeoutAction::Arm { after_ms: RENDER_TIMEOUT_MS }
    }

    /// The worker answered the request it was rendering; the render timeout
    /// is stopped.
    pub fn response_received(&mut self) -> (action: TimeoutAction)
        ensures
            final(self)@ == mark_answered(old(self)@),
            action == TimeoutAction::Clear,
    {
        match &mut self.worker {
            Some(slot) => {
                slot.inflight = None;
            },
            None => {},
        }
        self.timeout_armed = false;
        TimeoutAction::Clear
    }

    /// The worker failed or timed out and is stopped; the render timeout is
    /// stopped. The request it was rendering waits again, unless a newer
    /// request is already waiting.
    pub fn worker_stopped(&mut self) -> (action: TimeoutAction)
        ensures
            final(self)@ == mark_stopped(old(self)@),
            action == TimeoutAction::Clear,
    {
        let slot = self.worker.take();
        match slot {
            Some(slot) => {
                if self.pending.is_none() {
                    self.pending = slot.inflight;
                }
            },
            None => {},
        }
        self.timeout_armed = false;
        TimeoutAction::Clear
    }

    /// Reads a message from the worker: one that is not text, or not a
    /// response, gives the worker up; a ready message lets the waiting
    /// request go; an answer ends the render in flight.
    pub fn message_received(&mut self, message: WorkerMessage) -> (action: MessageAction)
        ensures
            match message {
                WorkerMessage::NotText => final(self)@ == mark_stopped(old(self)@) && (action
                    matches MessageAction::Restart { failure }
                    && failure@ == "render worker returned a non-text message"@),
                WorkerMessage::Unreadable => final(self)@ == mark_stopped(old(self)@) && (action
                    matches MessageAction::Restart { failure }
                    && failure@ == "render worker returned an unreadable message"@),
                WorkerMessage::Ready => final(self)@ == (SpecScheduler {
                    worker: match old(self)@.worker {
                        Some(w) => Some(SpecWorker { ready: true, ..w }),
                        None => None,
                    },
                    ..old(self)@
                }) && action == MessageAction::SendPending,
                WorkerMessage::Answered => final(self)@ == mark_answered(old(self)@) && action
                    == MessageAction::DeliverAndSendPending,
            },
    {
        match message {
            WorkerMessage::NotText => {
                self.worker_stopped();
                MessageAction::Restart {
                    failure: String::from_str("render worker returned a non-text message"),
                }
            },
            WorkerMessage::Unreadable => {
                self.worker_stopped();
                MessageAction::Restart {
                    failure: String::from_str("render worker returned an unreadable message"),
                }
            },
            WorkerMessage::Ready => {
                self.worker_ready();
                MessageAction::SendPending
            },
            WorkerMessage::Answered => {
                self.response_received();
                MessageAction::DeliverAndSendPending
            },
        }
    }

    /// The render timeout fired: the worker is given up.
    pub fn timed_out(&mut self) -> (action: MessageAction)
        ensures
            final(self)@ == mark_stopped(old(self)@),
            action matches MessageAction::Restart { failure }
                && failure@ == "render timed out after 5 seconds"@,
    {
        self.worker_stopped();
        MessageAction::Restart { failure: String::from_str("render timed out after 5 seconds") }
    }
}

/// Every step keeps the scheduler well formed: a worker is only ever
/// rendering a request after it said it was ready, and the render timeout
/// runs exactly while a request is rendered. A worker is started when there
/// is none, at first and after one was given up.
pub proof fn law_scheduler_steps_keep_wf(s: SpecScheduler, request: SpecRequest)
    requires
        scheduler_wf(s),
    ensures
        s.worker is None ==> scheduler_wf(
            SpecScheduler { worker: Some(SpecWorker { ready: false, inflight: None }), ..s },
        ),
        scheduler_wf(SpecScheduler { pending: Some(request), ..s }),
        scheduler_wf(
            SpecScheduler {
                worker: match s.worker {
                    Some(w) => Some(SpecWorker { ready: true, ..w }),
                    None => None,
                },
                ..s
            },
        ),
        scheduler_wf(take_for_sending(s).1),
        can_send(s) ==> scheduler_wf(mark_sent(s, request)),
        scheduler_wf(mark_answered(s)),
        scheduler_wf(mark_stopped(s)),
{
}

/// Sending the waiting request: a request goes to the worker only when a
/// worker is running, is ready, renders nothing, and a request waits. Then
/// the worker renders exactly that request, nothing waits any more, the
/// render timeout runs, and no second request can be sent before the
/// worker answers or is given up: at most one request is ever in flight.
/// Otherwise nothing is sent and the state stays as it was. An answer, or
/// giving the worker up, stops the timeout.
pub proof fn law_send_pending(s: SpecScheduler)
    ensures
        take_for_sending(s).0 is Some <==> (can_send(s) && s.pending is Some),
        take_for_sending(s).0 is Some ==> take_for_sending(s).0 == s.pending,
        take_for_sending(s).0 is Some ==> ({
            let sent = mark_sent(take_for_sending(s).1, take_for_sending(s).0->0);
            &&& sent.worker == Some(SpecWorker { ready: true, inflight: s.pending })
            &&& sent.pending is None
            &&& sent.timeout_armed
            &&& !can_send(sent)
            &&& take_for_sending(sent) == (None::<SpecRequest>, sent)
            &&& !mark_answered(sent).timeout_armed
            &&& !mark_stopped(sent).timeout_armed
        }),
        take_for_sending(s).0 is None ==> take_for_sending(s).1 == s,
{
}

// ---------------------------------------------------------------------------
// Names of the files the page offers for download
/// Whether `c` is an ASCII letter or digit.
pub open spec fn is_ascii_alnum(c: char) -> bool {
    ('0' <= c && c <= '9') || ('a' <= c && c <= 'z') || ('A' <= c && c <= 'Z')
}

/// The words of `s`: its maximal runs of ASCII letters and digits, in order,
/// lowercased.
pub open spec fn slug_words(s: Seq<char>) -> Seq<Seq<char>>
    decreases s.len(),
{
    if s.len() == 0 {
        seq![]
    } else {
        let before = slug_words(s.drop_last());
        let c = s.last();
        if !is_ascii_alnum(c) {
            before
        } else if s.len() >= 2 && is_ascii_alnum(s[s.len() - 2]) {
            before.update(before.len() - 1, before.last().push(ascii_lower(c)))
        } else {
            before.push(seq![ascii_lower(c)])
        }
    }
}

/// `words` joined by hyphens.
pub open spec fn join_words(words: Seq<Seq<char>>) -> Seq<char>
    decreases words.len(),
{
    if words.len() == 0 {
        seq![]
    } else if words.len() == 1 {
        words[0]
    } else {
        join_words(words.drop_last()) + seq!['-'] + words.last()
    }
}

/// The slug of `s`: its words joined by hyphens.
pub open spec fn slug_of(s: Seq<char>) -> Seq<char> {
    join_words(slug_words(s))
}

/// A word that grows by one character grows the joined text by it.
proof fn lemma_join_extend_last(words: Seq<Seq<char>>, c: char)
    requires
        words.len() > 0,
    ensures
        join_words(words.update(words.len() - 1, words.last().push(c))) == join_words(words).push(c),
{
    let updated = words.update(words.len() - 1, words.last().push(c));
    if words.len() >= 2 {
        assert(updated.drop_last() =~= words.drop_last());
        assert(join_words(updated) =~= join_words(words).push(c));
    }
}

/// A new word is joined after a hyphen, or alone.
proof fn lemma_join_push(words: Seq<Seq<char>>, word: Seq<char>)
    ensures
        join_words(words.push(word)) == if words.len() == 0 {
            word
        } else {
            join_words(words) + seq!['-'] + word
        },
{
    assert(words.push(word).drop_last() =~= words);
}

/// A name made of `value`'s ASCII letters and digits, lowercased, with
/// each run of other characters between two words turned into one hyphen.
pub fn slug(value: &str) -> (result: String)
    ensures
        result@ == slug_of(value@),
{
    let chars = chars_of(value);
    let n = chars.len();
    let mut out = String::new();
    let mut in_word = false;
    let mut has_word = false;
    let mut i: usize = 0;
    proof {
        assert(chars@.take(0) =~= Seq::<char>::empty());
    }
    while i < n
        invariant
            n == chars@.len(),
            chars@ == value@,
            0 <= i <= n,
            out@ == join_words(slug_words(chars@.take(i as int))),
            in_word == (i > 0 && is_ascii_alnum(chars@[i - 1])),
            has_word == (slug_words(chars@.take(i as int)).len() > 0),
            in_word ==> has_word,
        decreases n - i,
    {
        let c = chars[i];
        let ghost before = slug_words(chars@.take(i as int));
        let ghost t = chars@.take(i + 1);
        proof {
            assert(t.drop_last() =~= chars@.take(i as int));
            assert(t.last() == c);
            if i >= 1 {
                assert(t[t.len() - 2] == chars@[i - 1]);
            }
        }
        let alnum = ('0' <= c && c <= '9') || ('a' <= c && c <= 'z') || ('A' <= c && c <= 'Z');
        if alnum {
            let lower = char_ascii_lower(c);
            if in_word {
                proof {
                    lemma_join_extend_last(before, lower);
                }
            } else {
                proof {
                    lemma_join_push(before, seq![lower]);
                }
                if has_word {
                    push_char(&mut out, '-');
                }
            }
            push_char(&mut out, lower);
            proof {
                if !in_word {
                    if before.len() == 0 {
                        assert(out@ =~= seq![lower]);
                    } else {
                        assert(out@ =~= join_words(before) + seq!['-'] + seq![lower]);
                    }
                }
            }
            has_word = true;
        }
        in_word = alnum;
        i = i + 1;
    }
    proof {
        assert(chars@.take(n as int) =~= value@);
    }
    out
}

/// What follows the last `/` of `s`, or all of `s` when it has none.
pub open spec fn last_segment(s: Seq<char>) -> Seq<char>
    decreases s.len(),
{
    if s.len() == 0 || s.last() == '/' {
        seq![]
    } else {
        last_segment(s.drop_last()).push(s.last())
    }
}

/// The name of the PDF offered for a resume file: the file's name without
/// its directory and its `.md` ending, or `resume` when it does not end in
/// `.md`, followed by `.pdf`.
pub open spec fn pdf_filename_of(resume_name: Seq<char>) -> Seq<char> {
    let segment = last_segment(resume_name);
    let stem = if segment.len() >= 3 && segment.subrange(segment.len() - 3, segment.len() as int)
        == ".md"@ {
        segment.take(segment.len() - 3)
    } else {
        "resume"@
    };
    stem + ".pdf"@
}

/// The name of the PDF offered for download for the resume file
/// `resume_name`.
pub fn pdf_filename(resume_name: &str) -> (name: String)
    ensures
        name@ == pdf_filename_of(resume_name@),
{
    let chars = chars_of(resume_name);
    let n = chars.len();
    let mut start: usize = n;
    proof {
        assert(chars@.take(n as int) =~= chars@);
        assert(chars@.subrange(n as int, n as int) =~= Seq::<char>::empty());
    }
    while start > 0 && chars[start - 1] != '/'
        invariant
            n == chars@.len(),
            chars@ == resume_name@,
            start <= n,
            last_segment(chars@) == last_segment(chars@.take(start as int)) + chars@.subrange(
                start as int,
                n as int,
            ),
        decreases start,
    {
        proof {
            let t = chars@.take(start as int);
            assert(t.drop_last() =~= chars@.take(start - 1));
            assert(t.last() == chars@[start - 1]);
            assert(last_segment(chars@.take(start - 1)).push(chars@[start - 1]) + chars@.subrange(
                start as int,
                n as int,
            ) =~= last_segment(chars@.take(start - 1)) + chars@.subrange(start - 1, n as int));
        }
        start = start - 1;
    }
    proof {
        if start > 0 {
            assert(chars@.take(start as int).last() == chars@[start - 1]);
        }
        assert(last_segment(chars@.take(start as int)) =~= Seq::<char>::empty());
        assert(last_segment(chars@) =~= chars@.subrange(start as int, n as int));
    }
    let ghost segment = chars@.subrange(start as int, n as int);
    let md = n - start >= 3 && chars[n - 3] == '.' && chars[n - 2] == 'm' && chars[n - 1] == 'd';
    proof {
        reveal_strlit(".md");
        if n - start >= 3 {
            assert(segment.subrange(segment.len() - 3, segment.len() as int) =~= seq![
                chars@[n - 3],
                chars@[n - 2],
                chars@[n - 1],
            ]);
            assert(".md"@ =~= seq!['.', 'm', 'd']);
        }
        assert(md == (segment.len() >= 3 && segment.subrange(
            segment.len() - 3,
            segment.len() as int,
        ) == ".md"@));
    }
    let mut name = if md {
        let stem = string_from_range(&chars, start, n - 3);
        proof {
            assert(chars@.subrange(start as int, n - 3) =~= segment.take(segment.len() - 3));
        }
        stem
    } else {
        String::from_str("resume")
    };
    push_str(&mut name, ".pdf");
    name
}

/// The name of the theme file offered for download: the slug of the theme's
/// name, read from its manifest, followed by `.typ`; `theme.typ` when the
/// theme file could not be read.
pub fn theme_filename(theme_name: Option<&str>) -> (name: String)
    ensures
        name@ == match theme_name {
            Some(n) => slug_of(n@) + ".typ"@,
            None => "theme.typ"@,
        },
{
    match theme_name {
        Some(n) => {
            let mut name = slug(n);
            push_str(&mut name, ".typ");
            name
        },
        None => String::from_str("theme.typ"),
    }
}

} // verus!
