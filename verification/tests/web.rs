use resumark::markdown::{ParseLimits, analyze_markdown};
use resumark::settings::PaperSize;
use resumark::web::{RenderRequest, RenderResponse, RenderScheduler, document_or_rejection};

fn request(markdown: &str) -> RenderRequest {
    RenderRequest {
        markdown: markdown.to_owned(),
        paper: PaperSize::Letter,
        max_pages: Some(2),
    }
}

#[test]
fn nothing_is_sent_before_the_worker_is_ready() {
    let mut scheduler = RenderScheduler::new();
    scheduler.schedule(request("# A"));
    assert!(scheduler.next_to_send().is_none());
    scheduler.worker_started();
    assert!(scheduler.next_to_send().is_none());
    scheduler.worker_ready();
    let sent = scheduler.next_to_send().expect("the worker is ready");
    assert_eq!(sent.markdown, "# A");
    assert!(scheduler.next_to_send().is_none());
}

#[test]
fn the_latest_request_replaces_a_waiting_one() {
    let mut scheduler = RenderScheduler::new();
    scheduler.worker_started();
    scheduler.worker_ready();
    scheduler.schedule(request("# Old"));
    scheduler.schedule(request("# New"));
    assert_eq!(scheduler.next_to_send().expect("a request waits").markdown, "# New");
}

#[test]
fn one_request_is_rendered_at_a_time() {
    let mut scheduler = RenderScheduler::new();
    scheduler.worker_started();
    scheduler.worker_ready();
    scheduler.schedule(request("# First"));
    let first = scheduler.next_to_send().expect("a request waits");
    scheduler.sent(first);
    scheduler.schedule(request("# Second"));
    assert!(scheduler.next_to_send().is_none());
    scheduler.response_received();
    assert_eq!(scheduler.next_to_send().expect("the worker is free").markdown, "# Second");
}

#[test]
fn a_stopped_worker_gives_its_request_back() {
    let mut scheduler = RenderScheduler::new();
    scheduler.worker_started();
    scheduler.worker_ready();
    scheduler.schedule(request("# Lost?"));
    let inflight = scheduler.next_to_send().expect("a request waits");
    scheduler.sent(inflight);
    scheduler.worker_stopped();
    scheduler.worker_started();
    scheduler.worker_ready();
    assert_eq!(scheduler.next_to_send().expect("the request waits again").markdown, "# Lost?");
}

#[test]
fn a_newer_request_wins_over_the_stopped_one() {
    let mut scheduler = RenderScheduler::new();
    scheduler.worker_started();
    scheduler.worker_ready();
    scheduler.schedule(request("# Old"));
    let inflight = scheduler.next_to_send().expect("a request waits");
    scheduler.sent(inflight);
    scheduler.schedule(request("# New"));
    scheduler.worker_stopped();
    scheduler.worker_started();
    scheduler.worker_ready();
    assert_eq!(scheduler.next_to_send().expect("a request waits").markdown, "# New");
}

#[test]
fn invalid_resumes_are_answered_with_their_diagnostics() {
    let analysis = analyze_markdown("no title here\n", &ParseLimits::default());
    match document_or_rejection(analysis) {
        Err(RenderResponse::Rejected { diagnostics }) => assert_eq!(diagnostics.len(), 1),
        _ => panic!("the resume should be rejected"),
    }
    let analysis = analyze_markdown("# Jane Doe\n", &ParseLimits::default());
    let document = document_or_rejection(analysis).ok().expect("the resume is valid");
    assert_eq!(document.metadata.title, "Jane Doe");
}
