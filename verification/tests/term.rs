use std::collections::BTreeMap;

use termtosvg::anim::CharacterCell;
use termtosvg::asciicast::{AsciiCastV2Event, AsciiCastV2Header, AsciiCastV2Record};
use termtosvg::emulator::TermAction;
use termtosvg::term::{self, TimedFrame};

fn header() -> AsciiCastV2Record {
    AsciiCastV2Record::Header(AsciiCastV2Header::new(2, 80, 24, None, None).unwrap())
}

struct Collector(Vec<TermAction>);

impl vte::Perform for Collector {
    fn print(&mut self, c: char) {
        self.0.push(TermAction::Print(c));
    }

    fn execute(&mut self, byte: u8) {
        self.0.push(TermAction::Execute(byte));
    }

    fn csi_dispatch(&mut self, params: &vte::Params, _intermediates: &[u8], _ignore: bool, action: char) {
        let params = params.iter().map(|group| group.to_vec()).collect();
        self.0.push(TermAction::Csi { params, action });
    }

    fn esc_dispatch(&mut self, _intermediates: &[u8], _ignore: bool, byte: u8) {
        self.0.push(TermAction::Esc(byte));
    }
}

fn frames(records: Vec<AsciiCastV2Record>) -> Vec<TimedFrame> {
    let (_geometry, mut session) = term::timed_frames(records, 1, None, 1000);
    let mut parser = vte::Parser::new();
    let mut out = Vec::new();
    while let Some(text) = session.next_output() {
        let text = text.to_string();
        let mut collector = Collector(Vec::new());
        parser.advance(&mut collector, text.as_bytes());
        assert!(session.can_apply(&collector.0));
        out.push(session.advance(&collector.0));
    }
    out
}

fn visible_text(line: &BTreeMap<usize, CharacterCell>) -> String {
    fn is_cursor(cell: &CharacterCell) -> bool {
        cell.text == " " && cell.color == "background" && cell.background_color == "foreground"
    }

    let mut text = String::new();
    for cell in line.values() {
        if is_cursor(cell) {
            continue;
        }
        text.push_str(&cell.text);
    }
    text
}

#[test]
fn group_by_time_respects_min_duration() {
    let events = vec![
        AsciiCastV2Event::new(0, "o", "1", None).unwrap(),
        AsciiCastV2Event::new(5_000, "o", "2", None).unwrap(),
        AsciiCastV2Event::new(8_000, "o", "3", None).unwrap(),
    ];

    let grouped = term::_group_by_time(events, 5, Some(10), 1000);
    assert_eq!(grouped.len(), 2);
    assert_eq!(grouped[0].event_data, "1");
    assert_eq!(grouped[1].event_data, "23");
}

#[test]
fn timed_frames_emits_cursor_and_content() {
    let records = vec![
        header(),
        AsciiCastV2Record::Event(AsciiCastV2Event::new(0, "o", "a\r\nb", None).unwrap()),
    ];
    let frames = frames(records);
    let first = &frames[0];
    assert!(first.buffer.get(&0).unwrap().get(&0).is_some());
    let has_cursor = first
        .buffer
        .values()
        .any(|row| row.values().any(|c| c.text == " "));
    assert!(has_cursor);
}

#[test]
fn zero_width_characters_are_preserved() {
    let text = format!("e{}\u{fe0f}\u{200d}a", '\u{1f575}');
    let records = vec![
        header(),
        AsciiCastV2Record::Event(AsciiCastV2Event::new(0, "o", &text, None).unwrap()),
    ];
    let frames = frames(records);
    let line = frames[0].buffer.get(&0).unwrap();
    let concatenated: String = line.values().map(|c| c.text.clone()).collect();
    assert!(concatenated.contains('a'));
}

#[test]
fn timed_frames_handles_delete_chars() {
    let seq = "abcd\x1b[2D\x1b[P\x1b[10G";
    let records = vec![
        header(),
        AsciiCastV2Record::Event(AsciiCastV2Event::new(0, "o", seq, None).unwrap()),
    ];
    let frames = frames(records);
    let line = frames[0].buffer.get(&0).unwrap();
    assert_eq!(visible_text(line), "abd");
}

#[test]
fn timed_frames_handles_insert_blank_chars() {
    let seq = "abcd\x1b[2D\x1b[@Z\x1b[10G";
    let records = vec![
        header(),
        AsciiCastV2Record::Event(AsciiCastV2Event::new(0, "o", seq, None).unwrap()),
    ];
    let frames = frames(records);
    let line = frames[0].buffer.get(&0).unwrap();
    assert_eq!(visible_text(line), "abZcd");
}

#[test]
fn timed_frames_handles_erase_chars() {
    let seq = "abcd\x1b[3D\x1b[2X\x1b[10G";
    let records = vec![
        header(),
        AsciiCastV2Record::Event(AsciiCastV2Event::new(0, "o", seq, None).unwrap()),
    ];
    let frames = frames(records);
    let line = frames[0].buffer.get(&0).unwrap();
    assert_eq!(visible_text(line), "ad");
    assert!(line.get(&1).is_none());
    assert!(line.get(&2).is_none());
}

#[test]
fn grouping_keeps_all_output_and_timeline() {
    let events = vec![
        AsciiCastV2Event::new(0, "o", "a", None).unwrap(),
        AsciiCastV2Event::new(1_000, "i", "typed", None).unwrap(),
        AsciiCastV2Event::new(2_000, "o", "b", None).unwrap(),
        AsciiCastV2Event::new(60_000_000, "o", "c", None).unwrap(),
    ];
    let grouped = term::_group_by_time(events, 1, Some(500), 2_000);
    let text: String = grouped.iter().map(|e| e.event_data.as_str()).collect();
    assert_eq!(text, "abc");
    assert_eq!(grouped[0].time, 0);
    for pair in grouped.windows(2) {
        assert_eq!(pair[1].time, pair[0].time + pair[0].duration.unwrap());
    }
    assert_eq!(grouped[1].duration, Some(500_000));
    assert_eq!(grouped.last().unwrap().duration, Some(2_000_000));
}

#[test]
fn wide_characters_take_two_columns() {
    let records = vec![
        header(),
        AsciiCastV2Record::Event(AsciiCastV2Event::new(0, "o", "\u{4e2d}x", None).unwrap()),
    ];
    let frames = frames(records);
    let line = frames[0].buffer.get(&0).unwrap();
    assert_eq!(line.get(&0).unwrap().text, "\u{4e2d}");
    assert_eq!(line.get(&2).unwrap().text, "x");
}

#[test]
fn insert_then_delete_gives_the_line_back() {
    let seq = "abcd\x1b[3D\x1b[2@\x1b[2P\x1b[10G";
    let records = vec![
        header(),
        AsciiCastV2Record::Event(AsciiCastV2Event::new(0, "o", seq, None).unwrap()),
    ];
    let frames = frames(records);
    let line = frames[0].buffer.get(&0).unwrap();
    assert_eq!(visible_text(line), "abcd");
}

#[test]
fn every_frame_shows_the_cursor() {
    let records = vec![
        header(),
        AsciiCastV2Record::Event(AsciiCastV2Event::new(0, "o", "ab", None).unwrap()),
        AsciiCastV2Record::Event(AsciiCastV2Event::new(2_000_000, "o", "\r\n", None).unwrap()),
    ];
    let frames = frames(records);
    assert_eq!(frames.len(), 2);
    let cursor = frames[0].buffer.get(&0).unwrap().get(&2).unwrap();
    assert_eq!((cursor.text.as_str(), cursor.color.as_str(), cursor.background_color.as_str()), (" ", "background", "foreground"));
    let cursor = frames[1].buffer.get(&1).unwrap().get(&0).unwrap();
    assert_eq!(cursor.text, " ");
    assert_eq!(frames[0].time, 0);
    assert_eq!(frames[0].duration, 2_000);
    assert_eq!(frames[1].time, 2_000);
}

#[test]
fn omitted_cursor_parameters_mean_one() {
    let seq = "a\r\nb\r\nc\x1b[HX\x1b[3;3H\x1b[AY";
    let records = vec![
        header(),
        AsciiCastV2Record::Event(AsciiCastV2Event::new(0, "o", seq, None).unwrap()),
    ];
    let frames = frames(records);
    let buffer = &frames[0].buffer;
    assert_eq!(buffer.get(&0).unwrap().get(&0).unwrap().text, "X");
    assert_eq!(buffer.get(&1).unwrap().get(&2).unwrap().text, "Y");
    assert_eq!(visible_text(buffer.get(&2).unwrap()), "c");
}

#[test]
fn zero_column_moves_to_first_column() {
    let seq = "abcd\x1b[0GZ\x1b[10G";
    let records = vec![
        header(),
        AsciiCastV2Record::Event(AsciiCastV2Event::new(0, "o", seq, None).unwrap()),
    ];
    let frames = frames(records);
    assert_eq!(visible_text(frames[0].buffer.get(&0).unwrap()), "Zbcd");
}

#[test]
fn pauses_are_cut_to_the_longest_duration_below_the_shortest() {
    let events = vec![
        AsciiCastV2Event::new(0, "o", "a", None).unwrap(),
        AsciiCastV2Event::new(20_000, "o", "b", None).unwrap(),
    ];
    let grouped = term::_group_by_time(events, 10, Some(5), 1000);
    assert_eq!(grouped.len(), 2);
    assert_eq!((grouped[0].time, grouped[0].duration), (0, Some(5_000)));
    assert_eq!((grouped[1].time, grouped[1].duration), (5_000, Some(1_000_000)));
}
