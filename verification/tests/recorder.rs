use termtosvg::asciicast::AsciiCastV2Record;
use termtosvg::recorder::{RecordAction, RecordEvent, Recording};

#[test]
fn recording_times_output_from_first_output() {
    let mut rec = Recording::new(80, 24);
    assert!(matches!(&rec.records[0], AsciiCastV2Record::Header(h) if h.width == 80 && h.height == 24));
    let a = rec.step(RecordEvent::InputRead(b"ls\n".to_vec()));
    assert_eq!(a, vec![RecordAction::WriteToProgram(b"ls\n".to_vec())]);
    let a = rec.step(RecordEvent::OutputRead { data: b"one".to_vec(), now_us: 5_000 });
    assert_eq!(a, vec![RecordAction::WriteToOutput(b"one".to_vec())]);
    rec.step(RecordEvent::OutputRead { data: vec![0xff], now_us: 7_500 });
    match (&rec.records[1], &rec.records[2]) {
        (AsciiCastV2Record::Event(e1), AsciiCastV2Record::Event(e2)) => {
            assert_eq!(e1.time, 0);
            assert_eq!(e1.event_data, "one");
            assert_eq!(e2.time, 2_500);
            assert_eq!(e2.event_data, "\u{fffd}");
        }
        _ => panic!("expected two output events"),
    }
    assert!(rec.running);
}

#[test]
fn recording_stops_at_end_of_input_or_failure() {
    let mut rec = Recording::new(80, 24);
    rec.step(RecordEvent::InputError { would_block: true });
    assert!(rec.running);
    rec.step(RecordEvent::OutputError { would_block: false });
    assert!(!rec.running);
    let mut rec = Recording::new(80, 24);
    rec.step(RecordEvent::InputRead(Vec::new()));
    assert!(!rec.running);
}
