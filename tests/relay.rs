use tcpforward::copy::{request_line, watch_triggered, Client, CopyBuffer, Gate, RelayError, Step};
use tcpforward::rewrite::{Rule, RuleSet};
use tcpforward::session::{on_task_end, TaskType};

fn client(gate: Gate) -> Client {
    Client { local_port: 4000, pos: 0, blocking: gate, search: vec![], pattern_or: false }
}

/// Drains everything pending, `step` bytes per write, and returns what was written.
fn drain(c: &mut CopyBuffer, step: usize) -> Vec<u8> {
    let mut out = Vec::new();
    while c.next_step() == Step::Write {
        let pending = c.pending();
        let n = step.min(pending.len());
        out.extend_from_slice(&pending[..n]);
        c.on_write(n).unwrap();
    }
    out
}

#[test]
fn unmodified_path_delivers_every_byte() {
    let chunks: [&[u8]; 3] = [b"hel", b"lo wor", b"ld!"];
    let mut c = CopyBuffer::new(client(Gate::Disabled), None, vec![]);
    let mut out = Vec::new();
    for chunk in chunks {
        assert_eq!(c.next_step(), Step::Read);
        c.on_read(chunk);
        out.extend(drain(&mut c, 2));
    }
    assert_eq!(c.next_step(), Step::Read);
    c.on_read(b"");
    assert_eq!(c.next_step(), Step::Flush);
    assert_eq!(c.on_flush(), 12);
    assert_eq!(c.next_step(), Step::Done);
    assert_eq!(out, b"hello world!".to_vec());
    assert_eq!(c.client().pos, 12);
}

#[test]
fn scenario_cross_chunk_match_is_not_replaced() {
    let rules = RuleSet {
        strip: None,
        rules: vec![Rule { from: b"before".to_vec(), to: b"B4".to_vec() }],
        marker: None,
    };
    let mut c = CopyBuffer::with_rules(client(Gate::Disabled), Some(rules));
    c.on_read(b"xxxbef");
    assert_eq!(c.pending(), b"xxxbef");
    let first = drain(&mut c, 100);
    c.on_read(b"ore-yy-before-zz");
    assert_eq!(c.pending(), b"ore-yy-B4-zz");
    let second = drain(&mut c, 100);
    assert_eq!(first, b"xxxbef".to_vec());
    assert_eq!(second, b"ore-yy-B4-zz".to_vec());
}

#[test]
fn scenario_zero_byte_write_fails_and_cancels_sibling() {
    let mut c = CopyBuffer::new(client(Gate::Disabled), None, vec![]);
    c.on_read(b"abc");
    assert_eq!(c.next_step(), Step::Write);
    assert_eq!(c.on_write(0), Err(RelayError::WriteFailure));
    assert_eq!(c.pending(), b"abc");
    assert_eq!(on_task_end(TaskType::WriteTask, true), Some(TaskType::ReadTask));
    assert_eq!(on_task_end(TaskType::ReadTask, true), Some(TaskType::WriteTask));
}

#[test]
fn finished_task_cancels_nothing() {
    assert_eq!(on_task_end(TaskType::ReadTask, false), None);
    assert_eq!(on_task_end(TaskType::WriteTask, false), None);
    assert_eq!(TaskType::ReadTask.sibling(), TaskType::WriteTask);
}

#[test]
fn closed_gate_drops_every_later_chunk() {
    let mut c = CopyBuffer::new(client(Gate::Pending), None, vec![]);
    c.on_read(b"GET / HTTP/1.1\r\n");
    assert_eq!(c.client().blocking, Gate::Blocking);
    assert_eq!(c.pending(), b"");
    assert_eq!(c.next_step(), Step::Read);
    c.on_read(b"#allowed-looking");
    assert_eq!(c.client().blocking, Gate::Blocking);
    assert_eq!(c.pending(), b"");
    c.on_read(b"~also");
    assert_eq!(c.pending(), b"");
    c.on_read(b"");
    assert_eq!(c.next_step(), Step::Flush);
    assert_eq!(c.on_flush(), 0);
}

#[test]
fn admitted_first_chunk_opens_the_stream() {
    let mut c = CopyBuffer::new(client(Gate::Pending), None, vec![]);
    c.on_read(b"#hello");
    assert_eq!(c.client().blocking, Gate::Pending);
    assert_eq!(drain(&mut c, 4), b"#hello".to_vec());
    c.on_read(b"next chunk");
    assert_eq!(drain(&mut c, 4), b"next chunk".to_vec());
    assert_eq!(c.amount(), 16);
}

#[test]
fn flush_only_after_end_and_drain() {
    let mut c = CopyBuffer::new(client(Gate::Disabled), None, vec![]);
    assert_eq!(c.next_step(), Step::Read);
    c.on_read(b"abcd");
    assert_eq!(c.next_step(), Step::Write);
    c.on_write(3).unwrap();
    assert_eq!(c.next_step(), Step::Write);
    assert_eq!(c.pending(), b"d");
    c.on_write(1).unwrap();
    assert_eq!(c.next_step(), Step::Read);
    c.on_read(b"");
    assert_eq!(c.next_step(), Step::Flush);
    assert_eq!(c.on_flush(), 4);
    assert_eq!(c.next_step(), Step::Done);
}

#[test]
fn login_direction_rewrites_and_reports_offset() {
    let mut c = CopyBuffer::new(client(Gate::Disabled), Some("pw"), vec![]);
    let report = c.on_read(b"x s=o.getValue(),r=n.getValue() y");
    assert_eq!(report.rewritten_at, Some(0));
    assert_eq!(report.request_line, None);
    assert_eq!(c.pending(), b"x s='admin',r='pw' y");
    drain(&mut c, 100);
    let report = c.on_read(b"second");
    assert_eq!(report.rewritten_at, Some(33));
}

#[test]
fn extra_replacements_follow_the_login_rules() {
    let extra = vec![Rule { from: b"old".to_vec(), to: b"new".to_vec() }];
    let mut c = CopyBuffer::new(client(Gate::Disabled), Some("pw"), extra);
    c.on_read(b"an old page");
    assert_eq!(c.pending(), b"an new page");
}

#[test]
fn read_report_lists_request_line_and_watch_hits() {
    let mut cl = client(Gate::Disabled);
    cl.search = vec![b"Host".to_vec(), b"GET".to_vec()];
    let mut c = CopyBuffer::new(cl, None, vec![]);
    let report = c.on_read(b"GET /index HTTP/1.1\r\nHost: a\r\n");
    assert!(report.dump);
    assert_eq!(report.request_line, Some(b"GET /index HTTP/1.1".to_vec()));
    assert_eq!(report.rewritten_at, None);
}

#[test]
fn watch_all_or_any() {
    let search = vec![b"alpha".to_vec(), b"beta".to_vec()];
    assert!(watch_triggered(&search, false, b"alpha and beta"));
    assert!(!watch_triggered(&search, false, b"alpha only"));
    assert!(watch_triggered(&search, true, b"alpha only"));
    assert!(!watch_triggered(&search, true, b"gamma"));
    assert!(watch_triggered(&vec![], false, b"anything"));
    assert!(!watch_triggered(&vec![], true, b"anything"));
}

#[test]
fn request_lines() {
    assert_eq!(request_line(b"POST /a HTTP/1.1\r\nx"), Some(b"POST /a HTTP/1.1".to_vec()));
    assert_eq!(request_line(b"GET /no-cr"), Some(b"GET /no-cr".to_vec()));
    assert_eq!(request_line(b"PUT /a HTTP/1.1\r\n"), None);
    assert_eq!(request_line(b"GET"), None);
}
