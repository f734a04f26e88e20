//! From a recording to timed frames: grouping of output events into frames
//! and replay of each frame's output on the terminal emulator.

use std::collections::BTreeMap;

use vstd::prelude::*;

use crate::anim::{CellView, CharacterCell};
use crate::asciicast::{AsciiCastV2Event, AsciiCastV2Header, AsciiCastV2Record};
use crate::emulator::{
    actions_ok, actions_view, advance_width, buffer_view, char_advance, e_apply, e_apply_all,
    emu_init, emu_wf, lemma_apply_keeps_cursor_row, lemma_apply_keeps_size, snapshot, ActionView,
    EmuView, TermAction, TerminalEmulator,
};
use crate::text::push_str;

verus! {

/// One frame of the animation: its start and duration in milliseconds and
/// the screen it shows, as a map from line to the occupied cells of the line
/// by column.
#[derive(Debug, PartialEq, Eq)]
pub struct TimedFrame {
    pub time: u64,
    pub duration: u64,
    pub buffer: BTreeMap<usize, BTreeMap<usize, CharacterCell>>,
}

/// A group of output: start time, text and duration, in microseconds.
pub type Group = (nat, Seq<char>, nat);

/// State of the grouping of events: the groups closed so far, the text of
/// the open group, its start time, and the time cut from overlong pauses.
pub struct GroupState {
    pub done: Seq<Group>,
    pub text: Seq<char>,
    pub time: nat,
    pub dropped: nat,
}

pub open spec fn group_start() -> GroupState {
    GroupState { done: Seq::empty(), text: Seq::empty(), time: 0, dropped: 0 }
}

/// Whether an event is output (type `o`).
pub open spec fn is_output(e: AsciiCastV2Event) -> bool {
    e.event_type@ == seq!['o']
}

/// One event added to the grouping. Only output counts. When at least
/// `min_us` passed since the open group started (not counting cut time),
/// the open group closes with that pause as its duration, capped at
/// `max_us` (the excess is cut), and a new group starts. The event's text
/// joins the open group.
pub open spec fn group_step(
    st: GroupState,
    e: AsciiCastV2Event,
    min_us: nat,
    max_us: Option<nat>,
) -> GroupState {
    if !is_output(e) {
        st
    } else {
        let between = e.time - (st.time + st.dropped);
        let st2 = if between >= min_us {
            let capped = match max_us {
                Some(m) => between > m,
                None => false,
            };
            let duration: nat = if capped { max_us->0 } else { between as nat };
            GroupState {
                done: st.done.push((st.time, st.text, duration)),
                text: Seq::empty(),
                time: st.time + duration,
                dropped: if capped { (st.dropped + between - max_us->0) as nat } else { st.dropped },
            }
        } else {
            st
        };
        GroupState { text: st2.text + e.event_data@, ..st2 }
    }
}

/// The grouping after all the events, in order.
pub open spec fn group_fold(events: Seq<AsciiCastV2Event>, min_us: nat, max_us: Option<nat>) -> GroupState
    decreases events.len(),
{
    if events.len() == 0 {
        group_start()
    } else {
        group_step(group_fold(events.drop_last(), min_us, max_us), events.last(), min_us, max_us)
    }
}

/// `ms` milliseconds in microseconds, capped at the largest `u64`.
pub open spec fn ms_to_us(ms: u64) -> nat {
    if ms * 1000 > u64::MAX { u64::MAX as nat } else { (ms * 1000) as nat }
}

/// The groups of output of a recording: the closed groups, then the open
/// group with the duration given for the last frame.
pub open spec fn spec_group_by_time(
    events: Seq<AsciiCastV2Event>,
    min_rec_duration: u64,
    max_rec_duration: Option<u64>,
    last_rec_duration: u64,
) -> Seq<Group> {
    let st = group_fold(
        events,
        (min_rec_duration * 1000) as nat,
        match max_rec_duration {
            Some(m) => Some((m * 1000) as nat),
            None => None,
        },
    );
    st.done.push((st.time, st.text, ms_to_us(last_rec_duration)))
}

/// An output event as a group.
pub open spec fn event_group(e: AsciiCastV2Event) -> Group {
    (e.time as nat, e.event_data@, match e.duration {
        Some(d) => d as nat,
        None => 0,
    })
}

/// Events that are output events with a duration, seen as groups.
pub open spec fn groups_of(events: Seq<AsciiCastV2Event>) -> Seq<Group> {
    Seq::new(events.len(), |i: int| event_group(events[i]))
}

pub open spec fn all_output_with_duration(events: Seq<AsciiCastV2Event>) -> bool {
    forall|i: int|
        0 <= i < events.len() ==> is_output(#[trigger] events[i]) && events[i].duration is Some
}

pub proof fn lemma_fold_bound(events: Seq<AsciiCastV2Event>, min_us: nat, max_us: Option<nat>)
    ensures
        group_fold(events, min_us, max_us).time + group_fold(events, min_us, max_us).dropped
            <= u64::MAX,
    decreases events.len(),
{
    if events.len() > 0 {
        lemma_fold_bound(events.drop_last(), min_us, max_us);
    }
}

/// The texts of the groups one after the other.
pub open spec fn groups_text(gs: Seq<Group>) -> Seq<char>
    decreases gs.len(),
{
    if gs.len() == 0 {
        Seq::empty()
    } else {
        groups_text(gs.drop_last()) + gs.last().1
    }
}

/// The texts of the output events one after the other.
pub open spec fn output_text(events: Seq<AsciiCastV2Event>) -> Seq<char>
    decreases events.len(),
{
    if events.len() == 0 {
        Seq::empty()
    } else if is_output(events.last()) {
        output_text(events.drop_last()) + events.last().event_data@
    } else {
        output_text(events.drop_last())
    }
}

proof fn lemma_fold_text(events: Seq<AsciiCastV2Event>, min_us: nat, max_us: Option<nat>)
    ensures
        groups_text(group_fold(events, min_us, max_us).done) + group_fold(events, min_us, max_us).text
            == output_text(events),
    decreases events.len(),
{
    if events.len() > 0 {
        let st = group_fold(events.drop_last(), min_us, max_us);
        lemma_fold_text(events.drop_last(), min_us, max_us);
        let e = events.last();
        if is_output(e) {
            let between = e.time - (st.time + st.dropped);
            if between >= min_us {
                let nd = group_fold(events, min_us, max_us).done;
                assert(nd.drop_last() =~= st.done);
                assert(groups_text(nd) =~= groups_text(st.done) + st.text);
            }
            assert(groups_text(group_fold(events, min_us, max_us).done) + group_fold(events, min_us, max_us).text
                =~= output_text(events));
        }
    }
}

/// Grouping loses no output and adds none: the frames' texts, one after the
/// other, are the output events' texts, one after the other.
pub proof fn law_grouping_keeps_output(
    events: Seq<AsciiCastV2Event>,
    min_rec_duration: u64,
    max_rec_duration: Option<u64>,
    last_rec_duration: u64,
)
    ensures
        groups_text(spec_group_by_time(events, min_rec_duration, max_rec_duration, last_rec_duration))
            == output_text(events),
{
    let min_us = (min_rec_duration * 1000) as nat;
    let max_us = match max_rec_duration {
        Some(m) => Some((m * 1000) as nat),
        None => None,
    };
    let st = group_fold(events, min_us, max_us);
    lemma_fold_text(events, min_us, max_us);
    let gs = spec_group_by_time(events, min_rec_duration, max_rec_duration, last_rec_duration);
    assert(gs.drop_last() =~= st.done);
}

/// The closed groups follow one another without gaps from time zero to the
/// open group's start, each lasting no longer than the longest frame
/// duration, and at least the shortest one unless it was cut to the longest.
pub open spec fn timeline_ok(done: Seq<Group>, time: nat, min_us: nat, max_us: Option<nat>) -> bool {
    &&& done.len() == 0 ==> time == 0
    &&& done.len() > 0 ==> done[0].0 == 0 && done.last().0 + done.last().2 == time
    &&& forall|i: int| 0 <= i < done.len() - 1 ==> #[trigger] done[i + 1].0 == done[i].0 + done[i].2
    &&& forall|i: int|
        0 <= i < done.len() ==> (min_us <= #[trigger] done[i].2 || (max_us matches Some(m) && done[i].2 == m)) && (
        max_us matches Some(m) ==> done[i].2 <= m)
}

proof fn lemma_fold_timeline(events: Seq<AsciiCastV2Event>, min_us: nat, max_us: Option<nat>)
    ensures
        timeline_ok(group_fold(events, min_us, max_us).done, group_fold(events, min_us, max_us).time, min_us, max_us),
    decreases events.len(),
{
    if events.len() > 0 {
        let st = group_fold(events.drop_last(), min_us, max_us);
        lemma_fold_timeline(events.drop_last(), min_us, max_us);
        let nst = group_fold(events, min_us, max_us);
        let e = events.last();
        if is_output(e) {
            let between = e.time - (st.time + st.dropped);
            if between >= min_us {
                let nd = nst.done;
                assert(nd.drop_last() =~= st.done);
                assert forall|i: int| 0 <= i < nd.len() - 1 implies #[trigger] nd[i + 1].0 == nd[i].0 + nd[i].2 by {
                    if i < nd.len() - 2 {
                        assert(st.done[i + 1].0 == st.done[i].0 + st.done[i].2);
                    }
                }
            }
        }
    }
}

/// The frames of a recording follow one another without gaps from time zero;
/// each but the last lasts at most the longest frame duration, when there is
/// one, and at least the shortest one unless its pause was cut to the
/// longest; the last lasts the duration given for it.
pub proof fn law_grouping_timeline(
    events: Seq<AsciiCastV2Event>,
    min_rec_duration: u64,
    max_rec_duration: Option<u64>,
    last_rec_duration: u64,
)
    ensures
        ({
            let gs = spec_group_by_time(events, min_rec_duration, max_rec_duration, last_rec_duration);
            &&& gs.len() >= 1
            &&& gs[0].0 == 0
            &&& forall|i: int| 0 <= i < gs.len() - 1 ==> #[trigger] gs[i + 1].0 == gs[i].0 + gs[i].2
            &&& forall|i: int|
                0 <= i < gs.len() - 1 ==> (min_rec_duration * 1000 <= #[trigger] gs[i].2 || (
                max_rec_duration matches Some(m) && gs[i].2 == m * 1000)) && (max_rec_duration matches Some(
                m) ==> gs[i].2 <= m * 1000)
            &&& gs.last().2 == ms_to_us(last_rec_duration)
        }),
{
    let min_us = (min_rec_duration * 1000) as nat;
    let max_us = match max_rec_duration {
        Some(m) => Some((m * 1000) as nat),
        None => None,
    };
    let st = group_fold(events, min_us, max_us);
    lemma_fold_timeline(events, min_us, max_us);
    let gs = spec_group_by_time(events, min_rec_duration, max_rec_duration, last_rec_duration);
    assert(gs.drop_last() =~= st.done);
    assert forall|i: int| 0 <= i < gs.len() - 1 implies #[trigger] gs[i + 1].0 == gs[i].0 + gs[i].2 by {
        if i < gs.len() - 2 {
            assert(st.done[i + 1].0 == st.done[i].0 + st.done[i].2);
        }
    }
    assert forall|i: int| 0 <= i < gs.len() - 1 implies (min_rec_duration * 1000 <= #[trigger] gs[i].2 || (
    max_rec_duration matches Some(m) && gs[i].2 == m * 1000)) && (max_rec_duration matches Some(m) ==> gs[i].2
        <= m * 1000) by {
        assert(gs[i] == st.done[i]);
    }
}

fn is_output_type(t: &String) -> (r: bool)
    ensures
        r == (t@ == seq!['o']),
{
    let c = crate::text::chars_of(t.as_str());
    let r = c.len() == 1 && c[0] == 'o';
    proof {
        if r {
            assert(t@ =~= seq!['o']);
        }
    }
    r
}

fn output_event(time: u64, text: &String, duration: u64) -> (e: AsciiCastV2Event)
    ensures
        event_group(e) == (time as nat, text@, duration as nat),
        is_output(e),
        e.duration == Some(duration),
{
    let mut t = String::new();
    crate::text::string_push(&mut t, 'o');
    AsciiCastV2Event {
        time,
        event_type: t,
        event_data: text.clone(),
        duration: Some(duration),
    }
}

/// Groups output events into frames: a new frame starts when at least
/// `min_rec_duration` milliseconds passed since the current one started;
/// pauses longer than `max_rec_duration` milliseconds are shortened to it;
/// the last frame lasts `last_rec_duration` milliseconds. Input events are
/// ignored. Every resulting event is an output event with a duration.
pub fn _group_by_time(
    event_records: Vec<AsciiCastV2Event>,
    min_rec_duration: u64,
    max_rec_duration: Option<u64>,
    last_rec_duration: u64,
) -> (grouped: Vec<AsciiCastV2Event>)
    ensures
        groups_of(grouped@) == spec_group_by_time(
            event_records@,
            min_rec_duration,
            max_rec_duration,
            last_rec_duration,
        ),
        all_output_with_duration(grouped@),
{
    let ghost evs = event_records@;
    let ghost min_us = (min_rec_duration * 1000) as nat;
    let ghost max_us: Option<nat> = match max_rec_duration {
        Some(m) => Some((m * 1000) as nat),
        None => None,
    };
    let min_us_exec: u128 = min_rec_duration as u128 * 1000;
    let max_us_exec: Option<u128> = match max_rec_duration {
        Some(m) => Some(m as u128 * 1000),
        None => None,
    };
    let mut grouped: Vec<AsciiCastV2Event> = Vec::new();
    let mut current_string = String::new();
    let mut current_time: u64 = 0;
    let mut dropped_time: u64 = 0;
    let mut i: usize = 0;
    while i < event_records.len()
        invariant
            i <= event_records@.len(),
            evs == event_records@,
            min_us == min_us_exec,
            min_us == (min_rec_duration * 1000) as nat,
            max_us == (match max_rec_duration {
                Some(m) => Some((m * 1000) as nat),
                None => None::<nat>,
            }),
            max_us_exec matches Some(m) ==> max_us == Some(m as nat),
            max_us_exec is None ==> max_us is None,
            all_output_with_duration(grouped@),
            ({
                let st = group_fold(evs.take(i as int), min_us, max_us);
                &&& groups_of(grouped@) == st.done
                &&& current_string@ == st.text
                &&& current_time as nat == st.time
                &&& dropped_time as nat == st.dropped
            }),
            current_time + dropped_time <= u64::MAX,
        decreases event_records.len() - i,
    {
        let e = &event_records[i];
        proof {
            assert(evs.take(i + 1).drop_last() =~= evs.take(i as int));
            assert(evs.take(i + 1).last() == evs[i as int]);
            lemma_fold_bound(evs.take(i + 1), min_us, max_us);
        }
        if is_output_type(&e.event_type) {
            let base: u64 = current_time + dropped_time;
            if e.time >= base && (e.time - base) as u128 >= min_us_exec {
                let between: u64 = e.time - base;
                let mut duration: u64 = between;
                match max_us_exec {
                    Some(m) => {
                        if between as u128 > m {
                            dropped_time = dropped_time + (between - m as u64);
                            duration = m as u64;
                        }
                    },
                    None => {},
                }
                let ghost before = grouped@;
                grouped.push(output_event(current_time, &current_string, duration));
                assert(groups_of(grouped@) =~= groups_of(before).push(
                    (current_time as nat, current_string@, duration as nat),
                ));
                current_string = String::new();
                current_time = current_time + duration;
            }
            push_str(&mut current_string, e.event_data.as_str());
        }
        i = i + 1;
    }
    let ghost before = grouped@;
    let last_us: u64 = if last_rec_duration as u128 * 1000 > u64::MAX as u128 {
        u64::MAX
    } else {
        last_rec_duration * 1000
    };
    grouped.push(output_event(current_time, &current_string, last_us));
    proof {
        assert(evs.take(i as int) =~= evs);
        assert(groups_of(grouped@) =~= groups_of(before).push(
            (current_time as nat, current_string@, last_us as nat),
        ));
    }
    grouped
}

/// The events among the records, in order.
pub open spec fn record_events(records: Seq<AsciiCastV2Record>) -> Seq<AsciiCastV2Event>
    decreases records.len(),
{
    if records.len() == 0 {
        Seq::empty()
    } else {
        let r = record_events(records.drop_last());
        match records.last() {
            AsciiCastV2Record::Event(e) => r.push(e),
            AsciiCastV2Record::Header(_) => r,
        }
    }
}

/// The header that starts the records.
pub open spec fn first_header(records: Seq<AsciiCastV2Record>) -> AsciiCastV2Header {
    records[0]->Header_0
}

/// Longest frame duration in milliseconds: the one asked for, or else the
/// idle time limit of the recording.
pub open spec fn frame_limit(h: AsciiCastV2Header, max_frame_dur: Option<u64>) -> Option<u64> {
    match max_frame_dur {
        Some(m) => Some(m),
        None => match h.idle_time_limit {
            Some(v) => Some((v / 1000) as u64),
            None => None,
        },
    }
}

/// Replay of a recording frame by frame. The output of each frame is handed
/// to an escape-sequence parser by the caller, and the actions the parser
/// reports are applied with [`FrameSession::advance`].
pub struct FrameSession {
    term: TerminalEmulator,
    events: Vec<AsciiCastV2Event>,
    next: usize,
}

impl FrameSession {
    /// The screen as it stands.
    pub closed spec fn screen(&self) -> EmuView {
        self.term@
    }

    /// The frames still to replay: start, output and duration in
    /// microseconds.
    pub closed spec fn pending(&self) -> Seq<Group> {
        groups_of(self.events@).skip(self.next as int)
    }

    pub closed spec fn wf(&self) -> bool {
        &&& emu_wf(self.term@)
        &&& self.next <= self.events@.len()
        &&& all_output_with_duration(self.events@)
    }

    /// Whether the screen can take the given actions: every character they
    /// print can be written.
    pub fn can_apply(&self, actions: &Vec<TermAction>) -> (r: bool)
        requires
            self.wf(),
        ensures
            r == actions_ok(self.screen(), actions_view(actions@)),
    {
        if self.term.width > 0 || self.term.height == 0 {
            return true;
        }
        let mut i: usize = 0;
        while i < actions.len()
            invariant
                i <= actions@.len(),
                self.term.width == 0,
                self.term.height > 0,
                self.wf(),
                forall|j: int| 0 <= j < i ==> (#[trigger] actions_view(actions@)[j] matches ActionView::Print(c) ==> advance_width(c) == 0),
            decreases actions.len() - i,
        {
            if let TermAction::Print(c) = &actions[i] {
                if char_advance(*c) != 0 {
                    assert(actions_view(actions@)[i as int] == ActionView::Print(*c));
                    return false;
                }
            }
            i = i + 1;
        }
        true
    }

    /// The output of the next frame, if frames remain.
    pub fn next_output(&self) -> (r: Option<&str>)
        requires
            self.wf(),
        ensures
            self.pending().len() == 0 <==> r is None,
            r matches Some(t) ==> t@ == self.pending()[0].1,
    {
        if self.next < self.events.len() {
            Some(self.events[self.next].event_data.as_str())
        } else {
            None
        }
    }

    /// Applies the actions that the parser reported for the output of the
    /// next frame and returns that frame: its start and duration in
    /// milliseconds and a snapshot of the screen.
    pub fn advance(&mut self, actions: &Vec<TermAction>) -> (frame: TimedFrame)
        requires
            old(self).wf(),
            old(self).pending().len() > 0,
            actions_ok(old(self).screen(), actions_view(actions@)),
        ensures
            final(self).wf(),
            final(self).screen() == e_apply_all(old(self).screen(), actions_view(actions@)),
            final(self).pending() == old(self).pending().drop_first(),
            frame.time as nat == old(self).pending()[0].0 / 1000,
            frame.duration as nat == old(self).pending()[0].2 / 1000,
            buffer_view(frame.buffer) == snapshot(final(self).screen()),
    {
        assert(groups_of(self.events@).len() == self.events@.len());
        let count = self.events.len();
        assert(self.next < count);
        self.term.apply_all(actions);
        let e = &self.events[self.next];
        let duration: u64 = match e.duration {
            Some(d) => d,
            None => 0,
        };
        let frame = TimedFrame { time: e.time / 1000, duration: duration / 1000, buffer: self.term.buffer() };
        self.next = self.next + 1;
        assert(groups_of(self.events@).skip(self.next as int) =~= groups_of(self.events@).skip(
            self.next - 1,
        ).drop_first());
        frame
    }
}

/// Starts the replay of a recording: the screen geometry of its header and
/// a session holding the grouped output events (see [`_group_by_time`]),
/// with frames no shorter than `min_frame_dur`, no longer than
/// `max_frame_dur` (or the idle time limit of the recording) and a last
/// frame of `last_frame_dur` milliseconds, on a blank screen.
pub fn timed_frames(
    records: Vec<AsciiCastV2Record>,
    min_frame_dur: u64,
    max_frame_dur: Option<u64>,
    last_frame_dur: u64,
) -> (r: ((u16, u16), FrameSession))
    requires
        records@.len() > 0,
        records@[0] is Header,
    ensures
        r.0 == (first_header(records@).width, first_header(records@).height),
        r.1.wf(),
        r.1.screen() == emu_init(
            first_header(records@).width as nat,
            first_header(records@).height as nat,
        ),
        r.1.pending() == spec_group_by_time(
            record_events(records@.skip(1)),
            min_frame_dur,
            frame_limit(first_header(records@), max_frame_dur),
            last_frame_dur,
        ),
{
    let header = match &records[0] {
        AsciiCastV2Record::Header(h) => h.clone(),
        AsciiCastV2Record::Event(_) => {
            assert(false);
            return ((0, 0), FrameSession { term: TerminalEmulator::new(0, 0), events: Vec::new(), next: 0 });
        },
    };
    let limit: Option<u64> = match max_frame_dur {
        Some(m) => Some(m),
        None => match header.idle_time_limit {
            Some(v) => Some(v / 1000),
            None => None,
        },
    };
    let ghost rest = records@.skip(1);
    let mut events: Vec<AsciiCastV2Event> = Vec::new();
    let mut i: usize = 1;
    assert(rest.take(0) =~= Seq::<AsciiCastV2Record>::empty());
    while i < records.len()
        invariant
            1 <= i <= records@.len(),
            rest == records@.skip(1),
            events@ == record_events(rest.take(i - 1)),
        decreases records.len() - i,
    {
        assert(rest.take(i as int).drop_last() =~= rest.take(i - 1));
        assert(rest.take(i as int).last() == records@[i as int]);
        match &records[i] {
            AsciiCastV2Record::Event(e) => events.push(e.clone()),
            AsciiCastV2Record::Header(_) => {},
        }
        i = i + 1;
    }
    assert(rest.take(i - 1) =~= rest);
    let grouped = _group_by_time(events, min_frame_dur, limit, last_frame_dur);
    let term = TerminalEmulator::new(header.width as usize, header.height as usize);
    let session = FrameSession { term, events: grouped, next: 0 };
    assert(groups_of(grouped@).skip(0) =~= groups_of(grouped@));
    ((header.width, header.height), session)
}

/// The frames that replaying the groups `gs` on screen `e` gives, when the
/// output of group `i` makes the actions `acts[i]`: each frame's start and
/// duration in milliseconds and the snapshot of the screen after its
/// actions, as [`FrameSession::advance`] gives them one at a time.
pub open spec fn replay(e: EmuView, gs: Seq<Group>, acts: Seq<Seq<ActionView>>) -> Seq<
    (nat, nat, Map<usize, Map<usize, CellView>>),
>
    decreases gs.len(),
{
    if gs.len() == 0 || acts.len() == 0 {
        Seq::empty()
    } else {
        let e1 = e_apply_all(e, acts[0]);
        seq![(gs[0].0 / 1000, gs[0].2 / 1000, snapshot(e1))] + replay(e1, gs.drop_first(), acts.drop_first())
    }
}

proof fn lemma_apply_all_keeps_cursor_row(e: EmuView, actions: Seq<ActionView>)
    requires
        e.cursor_row < e.height,
    ensures
        e_apply_all(e, actions).cursor_row < e.height,
        e_apply_all(e, actions).height == e.height,
    decreases actions.len(),
{
    if actions.len() > 0 {
        lemma_apply_keeps_cursor_row(e, actions[0]);
        lemma_apply_keeps_size(e, actions[0]);
        lemma_apply_all_keeps_cursor_row(e_apply(e, actions[0]), actions.drop_first());
    }
}

proof fn lemma_replay(e: EmuView, gs: Seq<Group>, acts: Seq<Seq<ActionView>>)
    requires
        e.cursor_row < e.height,
        acts.len() == gs.len(),
    ensures
        replay(e, gs, acts).len() == gs.len(),
        forall|i: int|
            0 <= i < gs.len() ==> {
                let f = #[trigger] replay(e, gs, acts)[i];
                &&& f.0 == gs[i].0 / 1000
                &&& f.1 == gs[i].2 / 1000
                &&& f.2.dom() == Set::new(|r: usize| r < e.height)
            },
    decreases gs.len(),
{
    if gs.len() > 0 {
        let e1 = e_apply_all(e, acts[0]);
        lemma_apply_all_keeps_cursor_row(e, acts[0]);
        lemma_replay(e1, gs.drop_first(), acts.drop_first());
        let rest = replay(e1, gs.drop_first(), acts.drop_first());
        let first = seq![(gs[0].0 / 1000, gs[0].2 / 1000, snapshot(e1))];
        assert(snapshot(e1).dom() =~= Set::new(|r: usize| r < e.height));
        assert forall|i: int| 0 <= i < gs.len() implies {
            let f = #[trigger] replay(e, gs, acts)[i];
            &&& f.0 == gs[i].0 / 1000
            &&& f.1 == gs[i].2 / 1000
            &&& f.2.dom() == Set::new(|r: usize| r < e.height)
        } by {
            if i > 0 {
                assert(replay(e, gs, acts)[i] == rest[i - 1]);
                assert(gs.drop_first()[i - 1] == gs[i]);
            }
        }
    }
}

/// Replaying a recording: after [`timed_frames`], the session gives one
/// frame per group of output events (see [`spec_group_by_time`]), in
/// order; frame `i` starts at the start of group `i` and lasts as long as
/// it, both in milliseconds, and its buffer has a line for every row of the
/// screen, whatever actions the output makes.
pub proof fn law_replay_frames(
    records: Seq<AsciiCastV2Record>,
    min_frame_dur: u64,
    max_frame_dur: Option<u64>,
    last_frame_dur: u64,
    acts: Seq<Seq<ActionView>>,
)
    requires
        records.len() > 0,
        records[0] is Header,
        first_header(records).height >= 1,
        acts.len() == spec_group_by_time(
            record_events(records.skip(1)),
            min_frame_dur,
            frame_limit(first_header(records), max_frame_dur),
            last_frame_dur,
        ).len(),
    ensures
        ({
            let h = first_header(records);
            let gs = spec_group_by_time(
                record_events(records.skip(1)),
                min_frame_dur,
                frame_limit(h, max_frame_dur),
                last_frame_dur,
            );
            let frames = replay(emu_init(h.width as nat, h.height as nat), gs, acts);
            &&& frames.len() == gs.len()
            &&& forall|i: int|
                0 <= i < gs.len() ==> {
                    let f = #[trigger] frames[i];
                    &&& f.0 == gs[i].0 / 1000
                    &&& f.1 == gs[i].2 / 1000
                    &&& f.2.dom() == Set::new(|r: usize| r < h.height)
                }
        }),
{
    let h = first_header(records);
    let gs = spec_group_by_time(
        record_events(records.skip(1)),
        min_frame_dur,
        frame_limit(h, max_frame_dur),
        last_frame_dur,
    );
    lemma_replay(emu_init(h.width as nat, h.height as nat), gs, acts);
}

/// Whether some output event among `events` happens at time `t`.
pub open spec fn output_at(events: Seq<AsciiCastV2Event>, t: nat) -> bool {
    exists|k: int| 0 <= k < events.len() && is_output(#[trigger] events[k]) && events[k].time == t
}

/// The grouping with a longest duration against the grouping without one:
/// the same groups are closed with the same texts, each pause is cut to the
/// longest duration, and the real time of the open group's start is kept
/// apart from the time cut.
proof fn lemma_fold_cut(events: Seq<AsciiCastV2Event>, min_us: nat, max_us: nat)
    ensures
        ({
            let s0 = group_fold(events, min_us, None);
            let s = group_fold(events, min_us, Some(max_us));
            &&& s0.dropped == 0
            &&& s.done.len() == s0.done.len()
            &&& s.text == s0.text
            &&& s.time + s.dropped == s0.time
            &&& forall|i: int|
                0 <= i < s.done.len() ==> (#[trigger] s.done[i]).1 == s0.done[i].1 && s.done[i].2 == (if s0.done[i].2
                    > max_us {
                    max_us
                } else {
                    s0.done[i].2
                })
            &&& (s0.done.len() > 0 ==> output_at(events, s0.time))
            &&& forall|i: int| 1 <= i < s0.done.len() ==> output_at(events, (#[trigger] s0.done[i]).0)
        }),
    decreases events.len(),
{
    if events.len() > 0 {
        let prev = events.drop_last();
        lemma_fold_cut(prev, min_us, max_us);
        let p0 = group_fold(prev, min_us, None);
        let p = group_fold(prev, min_us, Some(max_us));
        let s0 = group_fold(events, min_us, None);
        let s = group_fold(events, min_us, Some(max_us));
        let e = events.last();
        assert forall|t: nat| output_at(prev, t) implies output_at(events, t) by {
            let k = choose|k: int| 0 <= k < prev.len() && is_output(#[trigger] prev[k]) && prev[k].time == t;
            assert(events[k] == prev[k]);
        }
        if is_output(e) {
            let between = e.time - (p0.time + p0.dropped);
            assert(between == e.time - (p.time + p.dropped));
            if between >= min_us {
                assert(events[events.len() - 1] == e);
                assert(output_at(events, s0.time));
                assert(s.done.drop_last() =~= p.done);
                assert(s0.done.drop_last() =~= p0.done);
                assert forall|i: int| 0 <= i < s.done.len() implies (#[trigger] s.done[i]).1 == s0.done[i].1
                    && s.done[i].2 == (if s0.done[i].2 > max_us { max_us } else { s0.done[i].2 }) by {
                    if i < p.done.len() {
                        assert(s.done[i] == p.done[i]);
                        assert(s0.done[i] == p0.done[i]);
                    }
                }
                assert forall|i: int| 1 <= i < s0.done.len() implies output_at(events, (#[trigger] s0.done[i]).0) by {
                    if i < p0.done.len() {
                        assert(s0.done[i] == p0.done[i]);
                    } else {
                        assert(s0.done[i].0 == p0.time);
                    }
                }
            } else {
                assert forall|i: int| 1 <= i < s0.done.len() implies output_at(events, (#[trigger] s0.done[i]).0) by {
                    assert(s0.done[i] == p0.done[i]);
                }
            }
        } else {
            assert forall|i: int| 1 <= i < s0.done.len() implies output_at(events, (#[trigger] s0.done[i]).0) by {
                assert(s0.done[i] == p0.done[i]);
            }
        }
    }
}

/// Without a longest duration, every frame after the first starts at the
/// time of an output event: the one whose pause opened it. With the
/// timeline law, a frame lasts exactly from the event that opened it to the
/// event that opened the next one.
pub proof fn law_grouping_starts_at_events(events: Seq<AsciiCastV2Event>, min_rec_duration: u64, last_rec_duration: u64)
    ensures
        ({
            let gs = spec_group_by_time(events, min_rec_duration, None, last_rec_duration);
            forall|i: int| 1 <= i < gs.len() ==> output_at(events, (#[trigger] gs[i]).0)
        }),
{
    let min_us = (min_rec_duration * 1000) as nat;
    lemma_fold_cut(events, min_us, 0);
    let st = group_fold(events, min_us, None);
    let gs = spec_group_by_time(events, min_rec_duration, None, last_rec_duration);
    assert forall|i: int| 1 <= i < gs.len() implies output_at(events, (#[trigger] gs[i]).0) by {
        if i < st.done.len() {
            assert(gs[i] == st.done[i]);
        } else {
            assert(gs[i].0 == st.time);
        }
    }
}

/// A longest frame duration only shortens pauses: grouping with one gives
/// the same frames with the same texts as grouping without one, and each
/// frame but the last lasts as long as without the limit, or the longest
/// duration when that is shorter; a pause after a shortened one keeps its
/// length. The last frame lasts the duration given for it either way.
pub proof fn law_grouping_cuts_pauses(
    events: Seq<AsciiCastV2Event>,
    min_rec_duration: u64,
    max_rec_duration: u64,
    last_rec_duration: u64,
)
    ensures
        ({
            let g0 = spec_group_by_time(events, min_rec_duration, None, last_rec_duration);
            let g = spec_group_by_time(events, min_rec_duration, Some(max_rec_duration), last_rec_duration);
            let max_us = (max_rec_duration * 1000) as nat;
            &&& g.len() == g0.len()
            &&& forall|i: int| 0 <= i < g.len() ==> (#[trigger] g[i]).1 == g0[i].1
            &&& forall|i: int|
                0 <= i < g.len() - 1 ==> (#[trigger] g[i]).2 == (if g0[i].2 > max_us { max_us } else { g0[i].2 })
            &&& g.last().2 == g0.last().2
        }),
{
    let min_us = (min_rec_duration * 1000) as nat;
    let max_us = (max_rec_duration * 1000) as nat;
    lemma_fold_cut(events, min_us, max_us);
    let s0 = group_fold(events, min_us, None);
    let s = group_fold(events, min_us, Some(max_us));
    let g0 = spec_group_by_time(events, min_rec_duration, None, last_rec_duration);
    let g = spec_group_by_time(events, min_rec_duration, Some(max_rec_duration), last_rec_duration);
    assert forall|i: int| 0 <= i < g.len() implies (#[trigger] g[i]).1 == g0[i].1 by {
        if i < s.done.len() {
            assert(g[i] == s.done[i] && g0[i] == s0.done[i]);
        }
    }
    assert forall|i: int| 0 <= i < g.len() - 1 implies (#[trigger] g[i]).2 == (if g0[i].2 > max_us { max_us } else {
        g0[i].2
    }) by {
        assert(g[i] == s.done[i] && g0[i] == s0.done[i]);
    }
}

} // verus!
