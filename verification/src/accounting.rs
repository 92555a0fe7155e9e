use vstd::prelude::*;
use crate::clock::{accumulated, elapsed, saturate};
use crate::handler::{after_event, departed, event_recordable, fresh_member, rejoined};
use crate::laws::{lemma_pos_after_push, lemma_pos_after_update, stamps_not_after};
use crate::model::{lemma_member_pos_facts, member_pos, DataFileView, MemberView};
use crate::voice::{
    channel_events, flag_events, is_deafened, is_muted, is_streaming, old_channel, on_event,
    start_events, state_events, stays_in_channel, voice_events, was_deafened, was_muted,
    was_on_video, was_streaming, VoiceEvent, VoiceSnapshot,
};

verus! {

/// The four states whose time is counted apart.
pub enum Flag {
    Streaming,
    Muted,
    Deafened,
    Video,
}

/// Where a member is, as far as counting goes: in a channel or not, and which
/// states are on while in one.
pub struct Presence {
    pub in_channel: bool,
    pub streaming: bool,
    pub muted: bool,
    pub deafened: bool,
    pub video: bool,
}

pub open spec fn away() -> Presence {
    Presence { in_channel: false, streaming: false, muted: false, deafened: false, video: false }
}

/// In a channel, in the voice state `st`.
pub open spec fn present(st: VoiceSnapshot) -> Presence {
    Presence {
        in_channel: true,
        streaming: is_streaming(st),
        muted: is_muted(st),
        deafened: is_deafened(st),
        video: st.self_video,
    }
}

/// The presence a (possibly unknown) voice state stands for.
pub open spec fn presence_of(s: Option<VoiceSnapshot>) -> Presence {
    match s {
        Some(st) => if st.channel_id is Some {
            present(st)
        } else {
            away()
        },
        None => away(),
    }
}

pub open spec fn flag_on(p: Presence, f: Flag) -> bool {
    match f {
        Flag::Streaming => p.streaming,
        Flag::Muted => p.muted,
        Flag::Deafened => p.deafened,
        Flag::Video => p.video,
    }
}

/// When the open span of a state started.
pub open spec fn span_start(m: MemberView, f: Flag) -> i64 {
    match f {
        Flag::Streaming => m.last_stream,
        Flag::Muted => m.last_mute,
        Flag::Deafened => m.last_deafen,
        Flag::Video => m.last_video,
    }
}

/// The time counted in a state.
pub open spec fn flag_total(m: MemberView, f: Flag) -> i64 {
    match f {
        Flag::Streaming => m.time_streaming,
        Flag::Muted => m.time_muted,
        Flag::Deafened => m.time_defeaned,
        Flag::Video => m.time_video,
    }
}

/// The presence a state starting leads to: in a channel the state is on, outside
/// nothing changes.
pub open spec fn started(p: Presence, f: Flag) -> Presence {
    if p.in_channel {
        set_flag(p, f, true)
    } else {
        p
    }
}

/// The presence after an event.
pub open spec fn step(p: Presence, ev: VoiceEvent) -> Presence {
    match ev {
        VoiceEvent::Joined { state, .. } => present(state),
        VoiceEvent::Left { .. } => away(),
        VoiceEvent::StartedStreaming => if p.in_channel { Presence { streaming: true, ..p } } else { p },
        VoiceEvent::StoppedStreaming => Presence { streaming: false, ..p },
        VoiceEvent::Muted => if p.in_channel { Presence { muted: true, ..p } } else { p },
        VoiceEvent::Unmuted => Presence { muted: false, ..p },
        VoiceEvent::Deafened => if p.in_channel { Presence { deafened: true, ..p } } else { p },
        VoiceEvent::Undeafened => Presence { deafened: false, ..p },
        VoiceEvent::StartedVideo => if p.in_channel { Presence { video: true, ..p } } else { p },
        VoiceEvent::StoppedVideo => Presence { video: false, ..p },
    }
}

/// The event can happen in this presence: joins from outside, leaves in the
/// state the member is in, a state stopping when it is on in a channel. A state
/// can start anywhere: in a channel it opens (or reopens) its span, outside one
/// it only marks when the state came on.
pub open spec fn fits(p: Presence, ev: VoiceEvent) -> bool {
    match ev {
        VoiceEvent::Joined { .. } => !p.in_channel,
        VoiceEvent::Left { state, .. } => p == present(state),
        VoiceEvent::StartedStreaming => true,
        VoiceEvent::StoppedStreaming => p.in_channel && p.streaming,
        VoiceEvent::Muted => true,
        VoiceEvent::Unmuted => p.in_channel && p.muted,
        VoiceEvent::Deafened => true,
        VoiceEvent::Undeafened => p.in_channel && p.deafened,
        VoiceEvent::StartedVideo => true,
        VoiceEvent::StoppedVideo => p.in_channel && p.video,
    }
}

/// A member's entry after one event recorded at `now`.
pub open spec fn member_step(m: MemberView, ev: VoiceEvent, now: i64) -> MemberView {
    match ev {
        VoiceEvent::Joined { state, .. } => rejoined(m, state, now),
        VoiceEvent::Left { state, .. } => departed(m, state, now),
        VoiceEvent::StartedStreaming => MemberView { last_stream: now, ..m },
        VoiceEvent::StoppedStreaming => MemberView {
            time_streaming: accumulated(m.time_streaming, now, m.last_stream),
            ..m
        },
        VoiceEvent::Muted => MemberView { last_mute: now, ..m },
        VoiceEvent::Unmuted => MemberView { time_muted: accumulated(m.time_muted, now, m.last_mute), ..m },
        VoiceEvent::Deafened => MemberView { last_deafen: now, ..m },
        VoiceEvent::Undeafened => MemberView {
            time_defeaned: accumulated(m.time_defeaned, now, m.last_deafen),
            ..m
        },
        VoiceEvent::StartedVideo => MemberView { last_video: now, ..m },
        VoiceEvent::StoppedVideo => MemberView { time_video: accumulated(m.time_video, now, m.last_video), ..m },
    }
}

/// Every span start of the member lies between the epoch and `clock`.
pub open spec fn stamps_within(m: MemberView, clock: i64) -> bool {
    &&& 0 <= m.last_active <= clock
    &&& 0 <= m.last_mute <= clock
    &&& 0 <= m.last_deafen <= clock
    &&& 0 <= m.last_stream <= clock
    &&& 0 <= m.last_video <= clock
}

/// The counting of one state is sound at `clock`: out of a channel, the state
/// has no more time than the member spent in voice; in one, that stays so
/// whenever they leave at or after `clock`, whatever happens meanwhile.
pub open spec fn flag_ok(m: MemberView, p: Presence, f: Flag, clock: i64) -> bool {
    if p.in_channel {
        if flag_on(p, f) {
            m.last_active <= span_start(m, f) && flag_total(m, f) + m.last_active <= m.time + span_start(m, f)
        } else {
            flag_total(m, f) + m.last_active <= m.time + clock
        }
    } else {
        flag_total(m, f) <= m.time
    }
}

/// The counting of a member is sound at `clock`, in every state.
pub open spec fn accounting_ok(m: MemberView, p: Presence, clock: i64) -> bool {
    &&& stamps_within(m, clock)
    &&& flag_ok(m, p, Flag::Streaming, clock)
    &&& flag_ok(m, p, Flag::Muted, clock)
    &&& flag_ok(m, p, Flag::Deafened, clock)
    &&& flag_ok(m, p, Flag::Video, clock)
}

pub open spec fn set_span(m: MemberView, f: Flag, t: i64) -> MemberView {
    match f {
        Flag::Streaming => MemberView { last_stream: t, ..m },
        Flag::Muted => MemberView { last_mute: t, ..m },
        Flag::Deafened => MemberView { last_deafen: t, ..m },
        Flag::Video => MemberView { last_video: t, ..m },
    }
}

pub open spec fn close_span(m: MemberView, f: Flag, t: i64) -> MemberView {
    match f {
        Flag::Streaming => MemberView { time_streaming: accumulated(m.time_streaming, t, m.last_stream), ..m },
        Flag::Muted => MemberView { time_muted: accumulated(m.time_muted, t, m.last_mute), ..m },
        Flag::Deafened => MemberView { time_defeaned: accumulated(m.time_defeaned, t, m.last_deafen), ..m },
        Flag::Video => MemberView { time_video: accumulated(m.time_video, t, m.last_video), ..m },
    }
}

pub open spec fn set_flag(p: Presence, f: Flag, on: bool) -> Presence {
    match f {
        Flag::Streaming => Presence { streaming: on, ..p },
        Flag::Muted => Presence { muted: on, ..p },
        Flag::Deafened => Presence { deafened: on, ..p },
        Flag::Video => Presence { video: on, ..p },
    }
}

proof fn lemma_start_flag(m: MemberView, p: Presence, f: Flag, g: Flag, clock: i64, t: i64)
    requires
        stamps_within(m, clock),
        flag_ok(m, p, g, clock),
        flag_ok(m, p, f, clock),
        clock <= t,
    ensures
        flag_ok(set_span(m, f, t), started(p, f), g, t),
        stamps_within(set_span(m, f, t), t),
{
    let m2 = set_span(m, f, t);
    assert(flag_total(m2, g) == flag_total(m, g));
    assert(m2.time == m.time && m2.last_active == m.last_active);
    if f == g {
        assert(span_start(m2, g) == t) by {
            match f { Flag::Streaming => {}, Flag::Muted => {}, Flag::Deafened => {}, Flag::Video => {} }
        }
        if p.in_channel {
            assert(flag_on(started(p, f), g));
        }
    } else {
        assert(flag_on(started(p, f), g) == flag_on(p, g));
        assert(span_start(m2, g) == span_start(m, g)) by {
            match f { Flag::Streaming => {}, Flag::Muted => {}, Flag::Deafened => {}, Flag::Video => {} }
        }
    }
}

proof fn lemma_stop_flag(m: MemberView, p: Presence, f: Flag, g: Flag, clock: i64, t: i64)
    requires
        stamps_within(m, clock),
        flag_ok(m, p, g, clock),
        flag_ok(m, p, f, clock),
        p.in_channel,
        flag_on(p, f),
        clock <= t,
    ensures
        flag_ok(close_span(m, f, t), set_flag(p, f, false), g, t),
        stamps_within(close_span(m, f, t), t),
{
    let m2 = close_span(m, f, t);
    if f == g {
        assert(!flag_on(set_flag(p, f, false), g));
        assert(elapsed(t, span_start(m, f)) == t - span_start(m, f)) by {
            match f { Flag::Streaming => {}, Flag::Muted => {}, Flag::Deafened => {}, Flag::Video => {} }
        }
        assert(flag_total(m2, g) <= flag_total(m, f) + t - span_start(m, f)) by {
            match f { Flag::Streaming => {}, Flag::Muted => {}, Flag::Deafened => {}, Flag::Video => {} }
        }
    } else {
        assert(flag_on(set_flag(p, f, false), g) == flag_on(p, g));
        assert(span_start(m2, g) == span_start(m, g));
        assert(flag_total(m2, g) == flag_total(m, g)) by {
            match f { Flag::Streaming => {}, Flag::Muted => {}, Flag::Deafened => {}, Flag::Video => {} }
        }
    }
}

proof fn lemma_join_flag(m: MemberView, st: VoiceSnapshot, g: Flag, clock: i64, t: i64)
    requires
        stamps_within(m, clock),
        flag_ok(m, away(), g, clock),
        clock <= t,
    ensures
        flag_ok(rejoined(m, st, t), present(st), g, t),
        stamps_within(rejoined(m, st, t), t),
{
    let m2 = rejoined(m, st, t);
    assert(flag_total(m2, g) == flag_total(m, g));
    assert(flag_on(present(st), g) ==> span_start(m2, g) == t) by {
        match g { Flag::Streaming => {}, Flag::Muted => {}, Flag::Deafened => {}, Flag::Video => {} }
    }
}

proof fn lemma_leave_flag(m: MemberView, st: VoiceSnapshot, g: Flag, clock: i64, t: i64)
    requires
        stamps_within(m, clock),
        flag_ok(m, present(st), g, clock),
        clock <= t,
    ensures
        flag_ok(departed(m, st, t), away(), g, t),
        stamps_within(departed(m, st, t), t),
{
    let m2 = departed(m, st, t);
    assert(m2.time == saturate(m.time + (t - m.last_active)));
    if flag_on(present(st), g) {
        assert(flag_total(m2, g) == saturate(flag_total(m, g) + (t - span_start(m, g)))) by {
            match g { Flag::Streaming => {}, Flag::Muted => {}, Flag::Deafened => {}, Flag::Video => {} }
        }
    } else {
        assert(flag_total(m2, g) == flag_total(m, g)) by {
            match g { Flag::Streaming => {}, Flag::Muted => {}, Flag::Deafened => {}, Flag::Video => {} }
        }
    }
}

/// One event keeps the counting sound, whatever it is, as long as it can happen
/// and the clock does not go back.
pub proof fn lemma_step_keeps_accounting(m: MemberView, p: Presence, ev: VoiceEvent, clock: i64, t: i64)
    requires
        accounting_ok(m, p, clock),
        fits(p, ev),
        clock <= t,
    ensures
        accounting_ok(member_step(m, ev, t), step(p, ev), t),
{
    match ev {
        VoiceEvent::Joined { state, .. } => {
            lemma_join_flag(m, state, Flag::Streaming, clock, t);
            lemma_join_flag(m, state, Flag::Muted, clock, t);
            lemma_join_flag(m, state, Flag::Deafened, clock, t);
            lemma_join_flag(m, state, Flag::Video, clock, t);
        },
        VoiceEvent::Left { state, .. } => {
            lemma_leave_flag(m, state, Flag::Streaming, clock, t);
            lemma_leave_flag(m, state, Flag::Muted, clock, t);
            lemma_leave_flag(m, state, Flag::Deafened, clock, t);
            lemma_leave_flag(m, state, Flag::Video, clock, t);
        },
        VoiceEvent::StartedStreaming => lemma_start_all(m, p, Flag::Streaming, clock, t),
        VoiceEvent::Muted => lemma_start_all(m, p, Flag::Muted, clock, t),
        VoiceEvent::Deafened => lemma_start_all(m, p, Flag::Deafened, clock, t),
        VoiceEvent::StartedVideo => lemma_start_all(m, p, Flag::Video, clock, t),
        VoiceEvent::StoppedStreaming => lemma_stop_all(m, p, Flag::Streaming, clock, t),
        VoiceEvent::Unmuted => lemma_stop_all(m, p, Flag::Muted, clock, t),
        VoiceEvent::Undeafened => lemma_stop_all(m, p, Flag::Deafened, clock, t),
        VoiceEvent::StoppedVideo => lemma_stop_all(m, p, Flag::Video, clock, t),
    }
}

proof fn lemma_start_all(m: MemberView, p: Presence, f: Flag, clock: i64, t: i64)
    requires
        accounting_ok(m, p, clock),
        clock <= t,
    ensures
        accounting_ok(set_span(m, f, t), started(p, f), t),
{
    assert(flag_ok(m, p, f, clock)) by {
        match f { Flag::Streaming => {}, Flag::Muted => {}, Flag::Deafened => {}, Flag::Video => {} }
    }
    lemma_start_flag(m, p, f, Flag::Streaming, clock, t);
    lemma_start_flag(m, p, f, Flag::Muted, clock, t);
    lemma_start_flag(m, p, f, Flag::Deafened, clock, t);
    lemma_start_flag(m, p, f, Flag::Video, clock, t);
}

proof fn lemma_stop_all(m: MemberView, p: Presence, f: Flag, clock: i64, t: i64)
    requires
        accounting_ok(m, p, clock),
        p.in_channel,
        flag_on(p, f),
        clock <= t,
    ensures
        accounting_ok(close_span(m, f, t), set_flag(p, f, false), t),
{
    assert(flag_ok(m, p, f, clock)) by {
        match f { Flag::Streaming => {}, Flag::Muted => {}, Flag::Deafened => {}, Flag::Video => {} }
    }
    lemma_stop_flag(m, p, f, Flag::Streaming, clock, t);
    lemma_stop_flag(m, p, f, Flag::Muted, clock, t);
    lemma_stop_flag(m, p, f, Flag::Deafened, clock, t);
    lemma_stop_flag(m, p, f, Flag::Video, clock, t);
}

/// One event changes the member's own entry by [`member_step`] (a member seen
/// for the first time is added, fresh) and no other entry.
pub proof fn lemma_member_after_event(
    d: DataFileView,
    ev: VoiceEvent,
    id: u64,
    username: Seq<char>,
    fetched: Option<Seq<char>>,
    now: i64,
)
    requires
        event_recordable(d, ev, id),
    ensures
        ({
            let a = after_event(d, ev, id, username, fetched, now);
            let pos = member_pos(d.members, id);
            &&& a.has_member(id)
            &&& pos >= 0 ==> a.members == d.members.update(pos, member_step(d.member(id), ev, now))
                && a.member(id) == member_step(d.member(id), ev, now)
            &&& pos < 0 ==> ev is Joined && a.members == d.members.push(fresh_member(id, username, now))
                && a.member(id) == fresh_member(id, username, now)
        }),
{
    lemma_member_pos_facts(d.members, id);
    let pos = member_pos(d.members, id);
    let a = after_event(d, ev, id, username, fetched, now);
    if pos >= 0 {
        let m2 = member_step(d.member(id), ev, now);
        assert(m2.id == id);
        assert(a.members == d.members.update(pos, m2));
        lemma_pos_after_update(d.members, id, m2);
        assert(a.members[pos].id == id);
    } else {
        assert(!d.has_member(id));
        lemma_pos_after_push(d.members, fresh_member(id, username, now));
        assert(a.members[d.members.len() as int].id == id);
    }
}

/// A member seen for the first time is counted soundly from the start.
proof fn lemma_fresh_accounting(id: u64, username: Seq<char>, st: VoiceSnapshot, t: i64)
    requires
        t >= 0,
    ensures
        accounting_ok(fresh_member(id, username, t), present(st), t),
        rejoined(fresh_member(id, username, t), st, t) == fresh_member(id, username, t),
{
}

/// No total of `b` is below the same total of `a`.
pub open spec fn totals_grow(a: MemberView, b: MemberView) -> bool {
    &&& a.time <= b.time
    &&& a.time_muted <= b.time_muted
    &&& a.time_defeaned <= b.time_defeaned
    &&& a.time_streaming <= b.time_streaming
    &&& a.time_video <= b.time_video
}

/// No entry of `b` has less time than the same entry of `a`.
pub open spec fn store_grows(a: DataFileView, b: DataFileView) -> bool {
    &&& a.members.len() <= b.members.len()
    &&& forall|k: int| 0 <= k < a.members.len() ==> totals_grow(#[trigger] a.members[k], b.members[k])
    &&& a.channels.len() <= b.channels.len()
    &&& forall|k: int| 0 <= k < a.channels.len() ==> #[trigger] a.channels[k].time <= b.channels[k].time
}

proof fn lemma_store_grows_trans(a: DataFileView, b: DataFileView, c: DataFileView)
    requires
        store_grows(a, b),
        store_grows(b, c),
    ensures
        store_grows(a, c),
{
    assert forall|k: int| 0 <= k < a.members.len() implies totals_grow(#[trigger] a.members[k], c.members[k]) by {
        assert(totals_grow(b.members[k], c.members[k]));
    }
    assert forall|k: int| 0 <= k < a.channels.len() implies #[trigger] a.channels[k].time <= c.channels[k].time by {
        assert(b.channels[k].time <= c.channels[k].time);
    }
}

/// One event, recorded no earlier than any span of the member started, lowers
/// no total of any member or channel.
pub(crate) proof fn lemma_event_store_grows(
    d: DataFileView,
    ev: VoiceEvent,
    id: u64,
    username: Seq<char>,
    fetched: Option<Seq<char>>,
    now: i64,
)
    requires
        event_recordable(d, ev, id),
        d.has_member(id) ==> stamps_not_after(d.member(id), now),
    ensures
        store_grows(d, after_event(d, ev, id, username, fetched, now)),
        stamps_not_after(after_event(d, ev, id, username, fetched, now).member(id), now),
{
    lemma_member_after_event(d, ev, id, username, fetched, now);
    lemma_member_pos_facts(d.members, id);
    let a = after_event(d, ev, id, username, fetched, now);
    let pos = member_pos(d.members, id);
    if pos >= 0 {
        assert(totals_grow(d.members[pos], a.members[pos]));
    }
    assert forall|k: int| 0 <= k < d.members.len() implies totals_grow(#[trigger] d.members[k], a.members[k]) by {
        if k != pos {
            assert(a.members[k] == d.members[k]);
        }
    }
    match ev {
        VoiceEvent::Left { channel_id, .. } => {
            crate::model::lemma_channel_pos_facts(d.channels, channel_id);
        },
        _ => {},
    }
}

/// The first event of a run can be recorded: it is a join, or the member is
/// already stored (every later one then finds the member stored).
pub open spec fn first_recordable(d: DataFileView, evs: Seq<VoiceEvent>, id: u64) -> bool {
    d.has_member(id) || evs.len() == 0 || evs[0] is Joined
}

/// The store after a member's events, each recorded at its own time.
pub open spec fn replay(
    d: DataFileView,
    evs: Seq<VoiceEvent>,
    id: u64,
    username: Seq<char>,
    fetched: Seq<Option<Seq<char>>>,
    times: Seq<i64>,
) -> DataFileView
    decreases evs.len(),
{
    if evs.len() == 0 {
        d
    } else {
        replay(
            after_event(d, evs[0], id, username, fetched[0], times[0]),
            evs.drop_first(),
            id,
            username,
            fetched.drop_first(),
            times.drop_first(),
        )
    }
}

/// The presence after a run of events.
pub open spec fn presence_after(p: Presence, evs: Seq<VoiceEvent>) -> Presence
    decreases evs.len(),
{
    if evs.len() == 0 {
        p
    } else {
        presence_after(step(p, evs[0]), evs.drop_first())
    }
}

/// Each event of the run can happen where the previous ones left the member.
pub open spec fn all_fit(p: Presence, evs: Seq<VoiceEvent>) -> bool
    decreases evs.len(),
{
    evs.len() == 0 || (fits(p, evs[0]) && all_fit(step(p, evs[0]), evs.drop_first()))
}

/// Times that never go back, none before `clock`.
pub open spec fn times_from(times: Seq<i64>, clock: i64) -> bool {
    &&& forall|k: int| 0 <= k < times.len() ==> clock <= #[trigger] times[k]
    &&& forall|i: int, j: int| 0 <= i <= j < times.len() ==> #[trigger] times[i] <= #[trigger] times[j]
}

pub open spec fn last_time(times: Seq<i64>, clock: i64) -> i64 {
    if times.len() == 0 {
        clock
    } else {
        times.last()
    }
}

/// A run of events that can happen, recorded at times that never go back,
/// keeps the counting of its member sound and lowers no total.
pub proof fn lemma_replay(
    d: DataFileView,
    p: Presence,
    evs: Seq<VoiceEvent>,
    id: u64,
    username: Seq<char>,
    fetched: Seq<Option<Seq<char>>>,
    times: Seq<i64>,
    clock: i64,
)
    requires
        all_fit(p, evs),
        times.len() == evs.len(),
        fetched.len() == evs.len(),
        times_from(times, clock),
        0 <= clock,
        p.in_channel ==> d.has_member(id),
        first_recordable(d, evs, id),
        d.has_member(id) ==> accounting_ok(d.member(id), p, clock),
    ensures
        ({
            let a = replay(d, evs, id, username, fetched, times);
            let q = presence_after(p, evs);
            &&& q.in_channel ==> a.has_member(id)
            &&& a.has_member(id) ==> accounting_ok(a.member(id), q, last_time(times, clock))
            &&& store_grows(d, a)
        }),
    decreases evs.len(),
{
    if evs.len() == 0 {
        assert(store_grows(d, d));
    } else {
        let ev = evs[0];
        let t = times[0];
        assert(clock <= t);
        assert(event_recordable(d, ev, id));
        let d1 = after_event(d, ev, id, username, fetched[0], t);
        lemma_member_after_event(d, ev, id, username, fetched[0], t);
        lemma_member_pos_facts(d.members, id);
        if d.has_member(id) {
            lemma_step_keeps_accounting(d.member(id), p, ev, clock, t);
            assert(stamps_not_after(d.member(id), t));
            lemma_event_store_grows(d, ev, id, username, fetched[0], t);
        } else {
            let st = ev->Joined_state;
            lemma_fresh_accounting(id, username, st, t);
            lemma_event_store_grows(d, ev, id, username, fetched[0], t);
        }
        assert(accounting_ok(d1.member(id), step(p, ev), t));
        assert(times_from(times.drop_first(), t)) by {
            assert forall|k: int| 0 <= k < times.drop_first().len() implies t <= #[trigger] times.drop_first()[k] by {
                assert(times[0] <= times[k + 1]);
            }
            assert forall|i: int, j: int| 0 <= i <= j < times.drop_first().len() implies #[trigger] times.drop_first()[i]
                <= #[trigger] times.drop_first()[j] by {
                assert(times[i + 1] <= times[j + 1]);
            }
        }
        lemma_replay(d1, step(p, ev), evs.drop_first(), id, username, fetched.drop_first(), times.drop_first(), t);
        let a = replay(d, evs, id, username, fetched, times);
        lemma_store_grows_trans(d, d1, a);
        if times.len() > 1 {
            assert(last_time(times.drop_first(), t) == last_time(times, clock));
        }
    }
}

proof fn lemma_fit_concat(p: Presence, a: Seq<VoiceEvent>, b: Seq<VoiceEvent>)
    ensures
        all_fit(p, a + b) == (all_fit(p, a) && all_fit(presence_after(p, a), b)),
        presence_after(p, a + b) == presence_after(presence_after(p, a), b),
    decreases a.len(),
{
    if a.len() == 0 {
        assert(a + b =~= b);
    } else {
        assert((a + b).drop_first() =~= a.drop_first() + b);
        assert((a + b)[0] == a[0]);
        lemma_fit_concat(step(p, a[0]), a.drop_first(), b);
    }
}

proof fn lemma_fit_single(p: Presence, ev: VoiceEvent)
    ensures
        all_fit(p, seq![ev]) == fits(p, ev),
        presence_after(p, seq![ev]) == step(p, ev),
{
    let s = seq![ev];
    assert(s.drop_first() =~= Seq::<VoiceEvent>::empty());
    assert(s[0] == ev);
    assert(all_fit(step(p, ev), s.drop_first()));
    assert(presence_after(step(p, ev), s.drop_first()) == step(p, ev));
}

proof fn lemma_fit_empty(p: Presence)
    ensures
        all_fit(p, Seq::<VoiceEvent>::empty()),
        presence_after(p, Seq::<VoiceEvent>::empty()) == p,
{
}

/// The state events of a member who stays in a channel can happen, and end in
/// the presence of the new state.
proof fn lemma_state_events_fit(o: VoiceSnapshot, n: VoiceSnapshot)
    ensures
        all_fit(present(o), state_events(o, n)),
        presence_after(present(o), state_events(o, n)) == present(n),
{
    let a = flag_events(is_streaming(o), is_streaming(n), VoiceEvent::StartedStreaming, VoiceEvent::StoppedStreaming);
    let b = flag_events(is_muted(o), is_muted(n), VoiceEvent::Muted, VoiceEvent::Unmuted);
    let c = flag_events(is_deafened(o), is_deafened(n), VoiceEvent::Deafened, VoiceEvent::Undeafened);
    let e = flag_events(o.self_video, n.self_video, VoiceEvent::StartedVideo, VoiceEvent::StoppedVideo);
    let p0 = present(o);
    let p1 = Presence { streaming: is_streaming(n), ..p0 };
    let p2 = Presence { muted: is_muted(n), ..p1 };
    let p3 = Presence { deafened: is_deafened(n), ..p2 };
    if a.len() == 0 { lemma_fit_empty(p0); } else { lemma_fit_single(p0, a[0]); }
    assert(all_fit(p0, a) && presence_after(p0, a) == p1);
    if b.len() == 0 { lemma_fit_empty(p1); } else { lemma_fit_single(p1, b[0]); }
    assert(all_fit(p1, b) && presence_after(p1, b) == p2);
    if c.len() == 0 { lemma_fit_empty(p2); } else { lemma_fit_single(p2, c[0]); }
    assert(all_fit(p2, c) && presence_after(p2, c) == p3);
    if e.len() == 0 { lemma_fit_empty(p3); } else { lemma_fit_single(p3, e[0]); }
    assert(all_fit(p3, e) && presence_after(p3, e) == present(n));
    lemma_fit_concat(p0, a, b);
    lemma_fit_concat(p0, a + b, c);
    lemma_fit_concat(p0, a + b + c, e);
}

/// The start events of an update can happen where the channel events leave the
/// member, and change nothing of where they are.
proof fn lemma_start_events_fit(old: Option<VoiceSnapshot>, new: VoiceSnapshot)
    ensures
        all_fit(presence_of(Some(new)), start_events(old, new)),
        presence_after(presence_of(Some(new)), start_events(old, new)) == presence_of(Some(new)),
{
    let p = presence_of(Some(new));
    let a = on_event(was_streaming(old), is_streaming(new), VoiceEvent::StartedStreaming);
    let b = on_event(was_muted(old), is_muted(new), VoiceEvent::Muted);
    let c = on_event(was_deafened(old), is_deafened(new), VoiceEvent::Deafened);
    let e = on_event(was_on_video(old), new.self_video, VoiceEvent::StartedVideo);
    if a.len() == 0 { lemma_fit_empty(p); } else { lemma_fit_single(p, a[0]); }
    if b.len() == 0 { lemma_fit_empty(p); } else { lemma_fit_single(p, b[0]); }
    if c.len() == 0 { lemma_fit_empty(p); } else { lemma_fit_single(p, c[0]); }
    if e.len() == 0 { lemma_fit_empty(p); } else { lemma_fit_single(p, e[0]); }
    assert(all_fit(p, a) && presence_after(p, a) == p);
    assert(all_fit(p, b) && presence_after(p, b) == p);
    assert(all_fit(p, c) && presence_after(p, c) == p);
    assert(all_fit(p, e) && presence_after(p, e) == p);
    lemma_fit_concat(p, a, b);
    lemma_fit_concat(p, a + b, c);
    lemma_fit_concat(p, a + b + c, e);
}

/// The events of any update can happen, one after the other, and leave the
/// member in the presence of the new state.
pub proof fn lemma_update_fits(old: Option<VoiceSnapshot>, new: VoiceSnapshot)
    ensures
        all_fit(presence_of(old), voice_events(old, new)),
        presence_after(presence_of(old), voice_events(old, new)) == presence_of(Some(new)),
{
    if stays_in_channel(old, new) {
        lemma_state_events_fit(old.unwrap(), new);
    } else {
        let evs = channel_events(old, new);
        match (old_channel(old), new.channel_id) {
            (None, Some(c)) => {
                lemma_fit_single(presence_of(old), evs[0]);
                assert(evs =~= seq![evs[0]]);
            },
            (Some(c), None) => {
                lemma_fit_single(presence_of(old), evs[0]);
                assert(evs =~= seq![evs[0]]);
            },
            (Some(a), Some(b)) => {
                let l = seq![evs[0]];
                let j = seq![evs[1]];
                assert(evs =~= l + j);
                lemma_fit_single(presence_of(old), evs[0]);
                lemma_fit_single(away(), evs[1]);
                lemma_fit_concat(presence_of(old), l, j);
            },
            (None, None) => {
                assert(evs =~= Seq::<VoiceEvent>::empty());
                lemma_fit_empty(presence_of(old));
            },
        }
        assert(all_fit(presence_of(old), evs));
        assert(presence_after(presence_of(old), evs) == presence_of(Some(new)));
        lemma_start_events_fit(old, new);
        lemma_fit_concat(presence_of(old), evs, start_events(old, new));
    }
}

/// Over a whole voice-state update of one member, recorded event by event at
/// times that never go back: the counting stays sound, so a member who ends out
/// of every channel has no more time muted, deafened, streaming or on camera
/// than in voice; each span is counted once; and no total of any member or
/// channel goes down.
pub proof fn lemma_update_keeps_accounting(
    d: DataFileView,
    old: Option<VoiceSnapshot>,
    new: VoiceSnapshot,
    id: u64,
    username: Seq<char>,
    fetched: Seq<Option<Seq<char>>>,
    times: Seq<i64>,
    clock: i64,
)
    requires
        times.len() == voice_events(old, new).len(),
        fetched.len() == voice_events(old, new).len(),
        times_from(times, clock),
        0 <= clock,
        presence_of(old).in_channel ==> d.has_member(id),
        first_recordable(d, voice_events(old, new), id),
        d.has_member(id) ==> accounting_ok(d.member(id), presence_of(old), clock),
    ensures
        ({
            let a = replay(d, voice_events(old, new), id, username, fetched, times);
            &&& new.channel_id is Some ==> a.has_member(id)
            &&& a.has_member(id) ==> accounting_ok(a.member(id), presence_of(Some(new)), last_time(times, clock))
            &&& (new.channel_id is None && a.has_member(id)) ==> {
                &&& a.member(id).time_muted <= a.member(id).time
                &&& a.member(id).time_defeaned <= a.member(id).time
                &&& a.member(id).time_streaming <= a.member(id).time
                &&& a.member(id).time_video <= a.member(id).time
            }
            &&& store_grows(d, a)
        }),
{
    lemma_update_fits(old, new);
    lemma_replay(d, presence_of(old), voice_events(old, new), id, username, fetched, times, clock);
}

/// A run of events whose first can be recorded, at times that never go back
/// and none before any span of the member started, lowers no total of any
/// member or channel.
pub proof fn lemma_replay_grows(
    d: DataFileView,
    evs: Seq<VoiceEvent>,
    id: u64,
    username: Seq<char>,
    fetched: Seq<Option<Seq<char>>>,
    times: Seq<i64>,
    clock: i64,
)
    requires
        times.len() == evs.len(),
        fetched.len() == evs.len(),
        times_from(times, clock),
        first_recordable(d, evs, id),
        d.has_member(id) ==> stamps_not_after(d.member(id), clock),
    ensures
        store_grows(d, replay(d, evs, id, username, fetched, times)),
    decreases evs.len(),
{
    if evs.len() == 0 {
        assert(store_grows(d, d));
    } else {
        let ev = evs[0];
        let t = times[0];
        assert(clock <= t);
        let d1 = after_event(d, ev, id, username, fetched[0], t);
        lemma_member_after_event(d, ev, id, username, fetched[0], t);
        lemma_event_store_grows(d, ev, id, username, fetched[0], t);
        assert(times_from(times.drop_first(), t)) by {
            assert forall|k: int| 0 <= k < times.drop_first().len() implies t <= #[trigger] times.drop_first()[k] by {
                assert(times[0] <= times[k + 1]);
            }
            assert forall|i: int, j: int| 0 <= i <= j < times.drop_first().len() implies #[trigger] times.drop_first()[i]
                <= #[trigger] times.drop_first()[j] by {
                assert(times[i + 1] <= times[j + 1]);
            }
        }
        lemma_replay_grows(d1, evs.drop_first(), id, username, fetched.drop_first(), times.drop_first(), t);
        lemma_store_grows_trans(d, d1, replay(d, evs, id, username, fetched, times));
    }
}

/// Over a whole voice-state update, recorded event by event at times that never
/// go back and none before any span of the member started, no total of any
/// member or channel goes down. (The first event must be recordable: a join, or
/// about a stored member; elsewhere the handler records nothing.)
pub proof fn lemma_update_totals_never_decrease(
    d: DataFileView,
    old: Option<VoiceSnapshot>,
    new: VoiceSnapshot,
    id: u64,
    username: Seq<char>,
    fetched: Seq<Option<Seq<char>>>,
    times: Seq<i64>,
    clock: i64,
)
    requires
        times.len() == voice_events(old, new).len(),
        fetched.len() == voice_events(old, new).len(),
        times_from(times, clock),
        first_recordable(d, voice_events(old, new), id),
        d.has_member(id) ==> stamps_not_after(d.member(id), clock),
    ensures
        store_grows(d, replay(d, voice_events(old, new), id, username, fetched, times)),
{
    lemma_replay_grows(d, voice_events(old, new), id, username, fetched, times, clock);
}

/// A member who is in no channel before an update and none after it, and had no
/// more time in any state than in voice, still has not: outside a channel,
/// states coming on only mark when they did, and nothing is counted.
pub proof fn lemma_outside_update_totals_within_voice(
    d: DataFileView,
    old: Option<VoiceSnapshot>,
    new: VoiceSnapshot,
    id: u64,
    username: Seq<char>,
    fetched: Seq<Option<Seq<char>>>,
    times: Seq<i64>,
    clock: i64,
)
    requires
        !presence_of(old).in_channel,
        new.channel_id is None,
        times.len() == voice_events(old, new).len(),
        fetched.len() == voice_events(old, new).len(),
        times_from(times, clock),
        0 <= clock,
        first_recordable(d, voice_events(old, new), id),
        d.has_member(id) ==> {
            let m = d.member(id);
            &&& stamps_within(m, clock)
            &&& m.time_muted <= m.time
            &&& m.time_defeaned <= m.time
            &&& m.time_streaming <= m.time
            &&& m.time_video <= m.time
        },
    ensures
        ({
            let a = replay(d, voice_events(old, new), id, username, fetched, times);
            a.has_member(id) ==> {
                &&& a.member(id).time_muted <= a.member(id).time
                &&& a.member(id).time_defeaned <= a.member(id).time
                &&& a.member(id).time_streaming <= a.member(id).time
                &&& a.member(id).time_video <= a.member(id).time
            }
        }),
{
    if d.has_member(id) {
        assert(accounting_ok(d.member(id), presence_of(old), clock));
    }
    lemma_update_keeps_accounting(d, old, new, id, username, fetched, times, clock);
}

} // verus!
