//! Recording a terminal session: the decisions of the recording loop. The
//! caller reads from the keyboard and from the recorded program's terminal,
//! hands each outcome to [`Recording::step`], and performs the writes that it
//! asks for, for as long as the recording runs.

use vstd::prelude::*;
use vstd::utf8::{decode_utf8, valid_utf8};

use crate::asciicast::{AsciiCastV2Event, AsciiCastV2Header, AsciiCastV2Record};

verus! {

/// What `String::from_utf8_lossy` gives for some bytes.
pub uninterp spec fn lossy_text(bytes: Seq<u8>) -> Seq<char>;

/// Calls `String::from_utf8_lossy`. Its result is named by [`lossy_text`];
/// as its documentation says, valid UTF-8 comes out as the text it encodes.
#[verifier::external_body]
fn utf8_lossy(bytes: &[u8]) -> (r: String)
    ensures
        r@ == lossy_text(bytes@),
        valid_utf8(bytes@) ==> r@ == decode_utf8(bytes@),
{
    String::from_utf8_lossy(bytes).into_owned()
}

/// One outcome of the recording loop's reads.
pub enum RecordEvent {
    /// Bytes read from the keyboard; none at the end of input.
    InputRead(Vec<u8>),
    /// Reading the keyboard failed; `would_block` when it had nothing yet.
    InputError { would_block: bool },
    /// Bytes read from the program's terminal, at `now_us` microseconds of a
    /// monotonic clock; none when the program is done.
    OutputRead { data: Vec<u8>, now_us: u64 },
    /// Reading the program's terminal failed; `would_block` when it had
    /// nothing yet.
    OutputError { would_block: bool },
}

/// A write that the recording loop asks for.
#[derive(Debug, PartialEq, Eq)]
pub enum RecordAction {
    /// Bytes typed on the keyboard, for the program.
    WriteToProgram(Vec<u8>),
    /// Bytes the program wrote, for the screen.
    WriteToOutput(Vec<u8>),
}

/// The state of a recording: the records so far, when the first output came,
/// and whether it still runs.
pub struct Recording {
    pub records: Vec<AsciiCastV2Record>,
    pub start_us: Option<u64>,
    pub running: bool,
}

/// The time of an output event: microseconds since the first output.
pub open spec fn elapsed(start: Option<u64>, now: u64) -> u64 {
    match start {
        Some(s) => if now >= s {
            (now - s) as u64
        } else {
            0
        },
        None => 0,
    }
}

/// Whether `r` is the output event of `text` at `time`.
pub open spec fn is_output_event(r: AsciiCastV2Record, time: u64, text: Seq<char>) -> bool {
    r matches AsciiCastV2Record::Event(e) && e.time == time && e.event_type@ == seq!['o'] && e.event_data@
        == text && e.duration is None
}

/// The header that a recording starts with.
pub open spec fn is_recording_header(r: AsciiCastV2Record, columns: u16, lines: u16) -> bool {
    r == AsciiCastV2Record::Header(
        AsciiCastV2Header { version: 2, width: columns, height: lines, theme: None, idle_time_limit: None },
    )
}

impl Recording {
    /// A recording of a terminal of `columns` by `lines`: its header, no
    /// output yet, running.
    pub fn new(columns: u16, lines: u16) -> (r: Self)
        ensures
            r.records@.len() == 1,
            is_recording_header(r.records@[0], columns, lines),
            r.start_us is None,
            r.running,
    {
        let header = match AsciiCastV2Header::new(2, columns, lines, None, None) {
            Ok(h) => h,
            Err(_) => {
                proof {
                    assert(false);
                }
                return Recording { records: Vec::new(), start_us: None, running: false };
            },
        };
        let mut records: Vec<AsciiCastV2Record> = Vec::new();
        records.push(AsciiCastV2Record::Header(header));
        Recording { records, start_us: None, running: true }
    }

    /// Takes one outcome of the loop's reads and gives the writes to make.
    /// Keyboard bytes go to the program and program output to the screen;
    /// program output is also recorded, timed from the first output. The end
    /// of either input, or a read failure other than having nothing yet,
    /// stops the recording.
    pub fn step(&mut self, event: RecordEvent) -> (actions: Vec<RecordAction>)
        ensures
            match event {
                RecordEvent::InputRead(data) => if data@.len() == 0 {
                    &&& !final(self).running
                    &&& final(self).records@ == old(self).records@
                    &&& final(self).start_us == old(self).start_us
                    &&& actions@.len() == 0
                } else {
                    &&& final(self).running == old(self).running
                    &&& final(self).records@ == old(self).records@
                    &&& final(self).start_us == old(self).start_us
                    &&& actions@ == seq![RecordAction::WriteToProgram(data)]
                },
                RecordEvent::InputError { would_block } | RecordEvent::OutputError { would_block } => {
                    &&& final(self).running == (old(self).running && would_block)
                    &&& final(self).records@ == old(self).records@
                    &&& final(self).start_us == old(self).start_us
                    &&& actions@.len() == 0
                },
                RecordEvent::OutputRead { data, now_us } => if data@.len() == 0 {
                    &&& !final(self).running
                    &&& final(self).records@ == old(self).records@
                    &&& final(self).start_us == old(self).start_us
                    &&& actions@.len() == 0
                } else {
                    let start = match old(self).start_us {
                        Some(s) => Some(s),
                        None => Some(now_us),
                    };
                    &&& final(self).running == old(self).running
                    &&& final(self).start_us == start
                    &&& final(self).records@.len() == old(self).records@.len() + 1
                    &&& final(self).records@.drop_last() == old(self).records@
                    &&& is_output_event(final(self).records@.last(), elapsed(start, now_us), lossy_text(data@))
                    &&& actions@ == seq![RecordAction::WriteToOutput(data)]
                },
            },
    {
        match event {
            RecordEvent::InputRead(data) => {
                if data.len() == 0 {
                    self.running = false;
                    return Vec::new();
                }
                let ghost d = data;
                let mut actions: Vec<RecordAction> = Vec::new();
                actions.push(RecordAction::WriteToProgram(data));
                assert(actions@ =~= seq![RecordAction::WriteToProgram(d)]);
                actions
            },
            RecordEvent::InputError { would_block } => {
                if !would_block {
                    self.running = false;
                }
                Vec::new()
            },
            RecordEvent::OutputError { would_block } => {
                if !would_block {
                    self.running = false;
                }
                Vec::new()
            },
            RecordEvent::OutputRead { data, now_us } => {
                if data.len() == 0 {
                    self.running = false;
                    return Vec::new();
                }
                let start = match self.start_us {
                    Some(s) => s,
                    None => now_us,
                };
                self.start_us = Some(start);
                let time: u64 = if now_us >= start {
                    now_us - start
                } else {
                    0
                };
                let text = utf8_lossy(data.as_slice());
                proof {
                    reveal_strlit("o");
                    assert("o"@ =~= seq!['o']);
                }
                let event = match AsciiCastV2Event::new(time, "o", text.as_str(), None) {
                    Ok(e) => e,
                    Err(_) => {
                        proof {
                            reveal_strlit("o");
                            assert(false);
                        }
                        return Vec::new();
                    },
                };
                proof {
                    reveal_strlit("o");
                }
                let ghost before = self.records@;
                self.records.push(AsciiCastV2Record::Event(event));
                assert(self.records@.drop_last() =~= before);
                let ghost d = data;
                let mut actions: Vec<RecordAction> = Vec::new();
                actions.push(RecordAction::WriteToOutput(data));
                assert(actions@ =~= seq![RecordAction::WriteToOutput(d)]);
                actions
            },
        }
    }
}

/// Output times grow with the clock: once the first output has come,
/// output read later is timed no earlier.
pub proof fn law_output_times_grow(start: u64, a: u64, b: u64)
    requires
        start <= a <= b,
    ensures
        elapsed(Some(start), a) <= elapsed(Some(start), b),
        elapsed(Some(start), start) == 0,
{
}

} // verus!
