use ptymux::session::{collect, PtySession, ReadEvent};

fn session(id: u32) -> PtySession {
    PtySession::new(id, 100 + id as i32, 3 + id as i32, String::from("/bin/sh"))
}

#[test]
fn new_session_is_alive() {
    let s = session(1);
    assert!(s.is_alive());
    assert!(s.wants_read());
    assert_eq!(s.id, 1);
    assert_eq!(s.child_pid, 101);
    assert_eq!(s.master_fd, 4);
}

#[test]
fn data_is_reported_and_keeps_the_session_alive() {
    let mut s = session(1);
    let rep = s.on_read_event(ReadEvent::Data(b"hi".to_vec())).unwrap();
    assert_eq!(rep.session_id, 1);
    assert_eq!(rep.bytes, b"hi".to_vec());
    assert!(!rep.eof);
    assert!(s.is_alive());
}

#[test]
fn empty_read_and_would_block_report_nothing() {
    let mut s = session(1);
    assert!(s.on_read_event(ReadEvent::Data(Vec::new())).is_none());
    assert!(s.on_read_event(ReadEvent::WouldBlock).is_none());
    assert!(s.is_alive());
}

#[test]
fn eof_is_signalled_exactly_once() {
    // The child exits: one Eof report; afterwards the session is dead,
    // wants no further reads, and reports nothing ever again.
    let mut s = session(1);
    let events = vec![
        ReadEvent::Data(b"bye".to_vec()),
        ReadEvent::Eof,
        ReadEvent::WouldBlock,
        ReadEvent::Eof,
        ReadEvent::Data(b"ghost".to_vec()),
    ];
    let mut eof_reports = 0;
    for ev in events {
        if let Some(rep) = s.on_read_event(ev) {
            if rep.eof {
                eof_reports += 1;
                assert_eq!(rep.bytes.len(), 0);
            }
        }
    }
    assert_eq!(eof_reports, 1);
    assert!(!s.is_alive());
    assert!(!s.wants_read());
}

#[test]
fn read_failure_kills_the_session_silently() {
    let mut s = session(2);
    assert!(s.on_read_event(ReadEvent::Failed).is_none());
    assert!(!s.is_alive());
}

#[test]
fn mark_dead_is_idempotent() {
    let mut s = session(3);
    s.mark_dead();
    assert!(!s.is_alive());
    s.mark_dead();
    assert!(!s.is_alive());
}

#[test]
fn collect_reports_in_session_order() {
    let sessions = vec![session(1), session(2), session(3)];
    let events = vec![
        ReadEvent::Data(b"one".to_vec()),
        ReadEvent::WouldBlock,
        ReadEvent::Eof,
    ];
    let (sessions, reports) = collect(sessions, events);
    assert_eq!(reports.len(), 2);
    assert_eq!(reports[0].session_id, 1);
    assert_eq!(reports[0].bytes, b"one".to_vec());
    assert!(!reports[0].eof);
    assert_eq!(reports[1].session_id, 3);
    assert!(reports[1].eof);
    assert!(sessions[0].is_alive());
    assert!(sessions[1].is_alive());
    assert!(!sessions[2].is_alive());
}

#[test]
fn collect_is_deterministic() {
    let run = || {
        let sessions = vec![session(1), session(2)];
        let events = vec![ReadEvent::Data(b"a".to_vec()), ReadEvent::Data(b"b".to_vec())];
        let (_, reports) = collect(sessions, events);
        reports
            .into_iter()
            .map(|r| (r.session_id, r.bytes, r.eof))
            .collect::<Vec<_>>()
    };
    assert_eq!(run(), run());
}
