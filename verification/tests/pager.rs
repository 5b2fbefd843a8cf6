use pfp::models::LogEntry;
use pfp::pager::{append_rows, Pager};

fn row(message: &str) -> LogEntry {
    LogEntry {
        level: "20".to_string(),
        message: message.to_string(),
        timestamp: "2026-01-01T00:00:00Z".to_string(),
    }
}

fn page_of(from: usize, count: usize) -> Vec<LogEntry> {
    (from..from + count).map(|i| row(&format!("msg-{}", i))).collect()
}

#[test]
fn get_flow_run_logs_single_page() {
    let mut pager = Pager::new(10_000, 200);
    let mut all: Vec<LogEntry> = Vec::new();
    let mut requests = 0;
    while let Some(req) = pager.next_request() {
        requests += 1;
        // The source holds two rows in all.
        let page = vec![row("hello"), row("world")];
        let returned = page.len().min(req.limit);
        pager.record_page(returned);
        append_rows(&mut all, page);
    }
    assert_eq!(requests, 1);
    assert_eq!(all.len(), 2);
    assert_eq!(all[0].message, "hello");
    assert_eq!(all[1].message, "world");
}

#[test]
fn get_flow_run_logs_multi_page() {
    // A 202-row logical set behind a 200-row page size: two requests, the
    // second at offset 200, all rows in original order.
    let source = page_of(0, 202);
    let mut pager = Pager::new(10_000, 200);
    let mut all: Vec<LogEntry> = Vec::new();
    let mut offsets: Vec<usize> = Vec::new();
    while let Some(req) = pager.next_request() {
        offsets.push(req.offset);
        let upto = (req.offset + req.limit).min(source.len());
        let page: Vec<LogEntry> =
            source[req.offset.min(source.len())..upto].to_vec();
        let returned = page.len();
        pager.record_page(returned);
        append_rows(&mut all, page);
    }
    assert_eq!(offsets, vec![0, 200]);
    assert_eq!(all.len(), 202);
    assert_eq!(all[0].message, "msg-0");
    assert_eq!(all[201].message, "msg-201");
}

#[test]
fn get_flow_run_logs_respects_limit() {
    // A cap smaller than one page: exactly one request, asking for 150.
    let source = page_of(0, 200);
    let mut pager = Pager::new(150, 200);
    let mut all: Vec<LogEntry> = Vec::new();
    let mut asked: Vec<usize> = Vec::new();
    while let Some(req) = pager.next_request() {
        asked.push(req.limit);
        let upto = (req.offset + req.limit).min(source.len());
        let page: Vec<LogEntry> =
            source[req.offset.min(source.len())..upto].to_vec();
        let returned = page.len();
        pager.record_page(returned);
        append_rows(&mut all, page);
    }
    assert_eq!(asked, vec![150]);
    assert_eq!(all.len(), 150);
}

#[test]
fn zero_limit_issues_one_empty_request() {
    let mut pager = Pager::new(0, 200);
    let req = pager.next_request().unwrap();
    assert_eq!(req.offset, 0);
    assert_eq!(req.limit, 0);
    pager.record_page(0);
    assert!(pager.next_request().is_none());
}
