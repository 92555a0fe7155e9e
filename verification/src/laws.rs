use vstd::prelude::*;
use crate::clock::{accumulated, elapsed, saturate};
use crate::handler::{
    after_event, after_join, after_leave, channel_label, deafen_started, deafen_stopped,
    event_recordable, mute_started, mute_stopped, stream_started, stream_stopped, video_started,
    video_stopped,
};
use crate::model::{
    channel_pos, lemma_channel_pos_facts, lemma_first_channel_is_pos,
    lemma_first_member_is_pos, lemma_member_pos_facts, member_pos, ChannelView, DataFileView,
    MemberView,
};
use crate::voice::{channel_events, start_events, voice_events, VoiceEvent, VoiceSnapshot};
use crate::accounting::{lemma_member_after_event, member_step};
use crate::commands::{channel_times, member_times, sum_of};

verus! {

/// Replacing the first member with an id by one with the same id keeps it first.
pub(crate) proof fn lemma_pos_after_update(ms: Seq<MemberView>, id: u64, m: MemberView)
    requires
        member_pos(ms, id) >= 0,
        m.id == id,
    ensures
        member_pos(ms.update(member_pos(ms, id), m), id) == member_pos(ms, id),
{
    lemma_member_pos_facts(ms, id);
    let i = member_pos(ms, id);
    lemma_first_member_is_pos(ms.update(i, m), id, i);
}

/// A member appended under a new id is found at the end.
pub(crate) proof fn lemma_pos_after_push(ms: Seq<MemberView>, m: MemberView)
    requires
        member_pos(ms, m.id) < 0,
    ensures
        member_pos(ms.push(m), m.id) == ms.len(),
{
    lemma_member_pos_facts(ms, m.id);
    lemma_first_member_is_pos(ms.push(m), m.id, ms.len() as int);
}

pub(crate) proof fn lemma_channel_pos_after_update(cs: Seq<ChannelView>, id: u64, c: ChannelView)
    requires
        channel_pos(cs, id) >= 0,
        c.id == id,
    ensures
        channel_pos(cs.update(channel_pos(cs, id), c), id) == channel_pos(cs, id),
{
    lemma_channel_pos_facts(cs, id);
    let i = channel_pos(cs, id);
    lemma_first_channel_is_pos(cs.update(i, c), id, i);
}

pub(crate) proof fn lemma_channel_pos_after_push(cs: Seq<ChannelView>, c: ChannelView)
    requires
        channel_pos(cs, c.id) < 0,
    ensures
        channel_pos(cs.push(c), c.id) == cs.len(),
{
    lemma_channel_pos_facts(cs, c.id);
    lemma_first_channel_is_pos(cs.push(c), c.id, cs.len() as int);
}

/// What a member had before a session: their totals, or nothing if unknown.
pub open spec fn prior_time(d: DataFileView, id: u64) -> i64 {
    if d.has_member(id) {
        d.member(id).time
    } else {
        0
    }
}

/// What a channel had before a session: its total, or nothing if unknown.
pub open spec fn prior_channel_time(d: DataFileView, channel_id: u64) -> i64 {
    if channel_pos(d.channels, channel_id) >= 0 {
        d.channels[channel_pos(d.channels, channel_id)].time
    } else {
        0
    }
}

/// The time a channel has now.
pub open spec fn channel_time(d: DataFileView, channel_id: u64) -> i64 {
    d.channels[channel_pos(d.channels, channel_id)].time
}

/// Recording events never gives two members, or two channels, the same id.
pub proof fn lemma_event_keeps_ids_unique(
    d: DataFileView,
    ev: VoiceEvent,
    id: u64,
    username: Seq<char>,
    fetched: Option<Seq<char>>,
    now: i64,
)
    requires
        d.wf(),
        event_recordable(d, ev, id),
    ensures
        after_event(d, ev, id, username, fetched, now).wf(),
{
    lemma_member_pos_facts(d.members, id);
    let a = after_event(d, ev, id, username, fetched, now);
    match ev {
        VoiceEvent::Left { channel_id, .. } => {
            lemma_channel_pos_facts(d.channels, channel_id);
            assert forall|i: int, j: int| 0 <= i < j < a.channels.len() implies a.channels[i].id
                != a.channels[j].id by {
                if j == d.channels.len() {
                    assert(d.channels[i].id != channel_id);
                }
            }
        },
        VoiceEvent::Joined { .. } => {
            assert forall|i: int, j: int| 0 <= i < j < a.members.len() implies a.members[i].id
                != a.members[j].id by {
                if j == d.members.len() {
                    assert(d.members[i].id != id);
                }
            }
        },
        _ => {},
    }
}

/// Recording an event of one member leaves every other member's entry as it was.
pub proof fn lemma_event_touches_only_its_member(
    d: DataFileView,
    ev: VoiceEvent,
    id: u64,
    username: Seq<char>,
    fetched: Option<Seq<char>>,
    now: i64,
    k: int,
)
    requires
        event_recordable(d, ev, id),
        0 <= k < d.members.len(),
        d.members[k].id != id,
    ensures
        after_event(d, ev, id, username, fetched, now).members[k] == d.members[k],
        after_event(d, ev, id, username, fetched, now).members.len() >= d.members.len(),
{
    lemma_member_pos_facts(d.members, id);
}

/// A session counts: a member who enters a channel at `t1` and leaves it at
/// `t2` has the time between added to their total, and so has the channel.
pub proof fn lemma_session_adds_elapsed(
    d: DataFileView,
    entering: VoiceSnapshot,
    leaving: VoiceSnapshot,
    id: u64,
    username: Seq<char>,
    channel_id: u64,
    fetched: Option<Seq<char>>,
    t1: i64,
    t2: i64,
)
    ensures
        ({
            let d1 = after_join(d, entering, id, username, t1);
            let d2 = after_leave(d1, leaving, id, channel_id, channel_label(fetched), t2);
            &&& d2.has_member(id)
            &&& d2.member(id).time == accumulated(prior_time(d, id), t2, t1)
            &&& channel_time(d2, channel_id) == saturate(
                prior_channel_time(d, channel_id) + elapsed(t2, t1),
            )
        }),
{
    let d1 = after_join(d, entering, id, username, t1);
    lemma_member_pos_facts(d.members, id);
    if member_pos(d.members, id) < 0 {
        lemma_pos_after_push(d.members, crate::handler::fresh_member(id, username, t1));
        assert(!d.has_member(id));
    } else {
        lemma_pos_after_update(d.members, id, crate::handler::rejoined(d.member(id), entering, t1));
    }
    let m1 = d1.member(id);
    assert(m1.last_active == t1);
    let label = channel_label(fetched);
    let d2 = after_leave(d1, leaving, id, channel_id, label, t2);
    let i = member_pos(d1.members, id);
    lemma_pos_after_update(d1.members, id, crate::handler::departed(m1, leaving, t2));
    assert(d2.members[i].id == id);
    assert(d2.has_member(id));
    lemma_channel_pos_facts(d1.channels, channel_id);
    let j = channel_pos(d1.channels, channel_id);
    if j < 0 {
        lemma_channel_pos_after_push(
            d1.channels,
            ChannelView { id: channel_id, name: label, time: elapsed(t2, t1) },
        );
    } else {
        lemma_channel_pos_after_update(
            d1.channels,
            channel_id,
            crate::handler::credited(d1.channels[j], label, elapsed(t2, t1)),
        );
    }
}

/// Entering a channel starts spans but counts nothing: a member's totals are
/// the same after a join as before it.
pub proof fn lemma_join_keeps_totals(d: DataFileView, st: VoiceSnapshot, id: u64, username: Seq<char>, now: i64)
    ensures
        ({
            let a = after_join(d, st, id, username, now);
            &&& a.has_member(id)
            &&& a.member(id).time == prior_time(d, id)
            &&& d.has_member(id) ==> {
                &&& a.member(id).time_muted == d.member(id).time_muted
                &&& a.member(id).time_defeaned == d.member(id).time_defeaned
                &&& a.member(id).time_streaming == d.member(id).time_streaming
                &&& a.member(id).time_video == d.member(id).time_video
            }
            &&& a.channels == d.channels
        }),
{
    lemma_member_pos_facts(d.members, id);
    if member_pos(d.members, id) < 0 {
        lemma_pos_after_push(d.members, crate::handler::fresh_member(id, username, now));
        let a = after_join(d, st, id, username, now);
        assert(a.members[d.members.len() as int].id == id);
    } else {
        lemma_pos_after_update(d.members, id, crate::handler::rejoined(d.member(id), st, now));
        let a = after_join(d, st, id, username, now);
        assert(a.members[member_pos(d.members, id)].id == id);
    }
}

/// Starting streaming at `t1` and stopping at `t2` adds the time between to the
/// member's streaming total.
pub proof fn lemma_stream_span(d: DataFileView, id: u64, t1: i64, t2: i64)
    requires
        d.has_member(id),
    ensures
        stream_stopped(stream_started(d, id, t1), id, t2).member(id).time_streaming == accumulated(
            d.member(id).time_streaming,
            t2,
            t1,
        ),
{
    lemma_member_pos_facts(d.members, id);
    lemma_pos_after_update(d.members, id, MemberView { last_stream: t1, ..d.member(id) });
    let d1 = stream_started(d, id, t1);
    lemma_pos_after_update(d1.members, id, MemberView {
        time_streaming: accumulated(d1.member(id).time_streaming, t2, d1.member(id).last_stream),
        ..d1.member(id)
    });
}

/// Muting at `t1` and unmuting at `t2` adds the time between to the muted total.
pub proof fn lemma_mute_span(d: DataFileView, id: u64, t1: i64, t2: i64)
    requires
        d.has_member(id),
    ensures
        mute_stopped(mute_started(d, id, t1), id, t2).member(id).time_muted == accumulated(
            d.member(id).time_muted,
            t2,
            t1,
        ),
{
    lemma_member_pos_facts(d.members, id);
    lemma_pos_after_update(d.members, id, MemberView { last_mute: t1, ..d.member(id) });
    let d1 = mute_started(d, id, t1);
    lemma_pos_after_update(d1.members, id, MemberView {
        time_muted: accumulated(d1.member(id).time_muted, t2, d1.member(id).last_mute),
        ..d1.member(id)
    });
}

/// Deafening at `t1` and undeafening at `t2` adds the time between to the
/// deafened total.
pub proof fn lemma_deafen_span(d: DataFileView, id: u64, t1: i64, t2: i64)
    requires
        d.has_member(id),
    ensures
        deafen_stopped(deafen_started(d, id, t1), id, t2).member(id).time_defeaned == accumulated(
            d.member(id).time_defeaned,
            t2,
            t1,
        ),
{
    lemma_member_pos_facts(d.members, id);
    lemma_pos_after_update(d.members, id, MemberView { last_deafen: t1, ..d.member(id) });
    let d1 = deafen_started(d, id, t1);
    lemma_pos_after_update(d1.members, id, MemberView {
        time_defeaned: accumulated(d1.member(id).time_defeaned, t2, d1.member(id).last_deafen),
        ..d1.member(id)
    });
}

/// Turning the camera on at `t1` and off at `t2` adds the time between to the
/// camera total.
pub proof fn lemma_video_span(d: DataFileView, id: u64, t1: i64, t2: i64)
    requires
        d.has_member(id),
    ensures
        video_stopped(video_started(d, id, t1), id, t2).member(id).time_video == accumulated(
            d.member(id).time_video,
            t2,
            t1,
        ),
{
    lemma_member_pos_facts(d.members, id);
    lemma_pos_after_update(d.members, id, MemberView { last_video: t1, ..d.member(id) });
    let d1 = video_started(d, id, t1);
    lemma_pos_after_update(d1.members, id, MemberView {
        time_video: accumulated(d1.member(id).time_video, t2, d1.member(id).last_video),
        ..d1.member(id)
    });
}

/// No stored span starts after `now`.
pub open spec fn stamps_not_after(m: MemberView, now: i64) -> bool {
    &&& m.last_active <= now
    &&& m.last_mute <= now
    &&& m.last_deafen <= now
    &&& m.last_stream <= now
    &&& m.last_video <= now
}

/// While the clock does not go back, no total ever decreases: not a member's
/// five totals, nor any channel's.
pub proof fn lemma_totals_never_decrease(
    d: DataFileView,
    ev: VoiceEvent,
    id: u64,
    username: Seq<char>,
    fetched: Option<Seq<char>>,
    now: i64,
)
    requires
        event_recordable(d, ev, id),
        d.has_member(id) ==> stamps_not_after(d.member(id), now),
    ensures
        ({
            let a = after_event(d, ev, id, username, fetched, now);
            &&& d.has_member(id) ==> {
                &&& a.member(id).time >= d.member(id).time
                &&& a.member(id).time_muted >= d.member(id).time_muted
                &&& a.member(id).time_defeaned >= d.member(id).time_defeaned
                &&& a.member(id).time_streaming >= d.member(id).time_streaming
                &&& a.member(id).time_video >= d.member(id).time_video
            }
            &&& a.channels.len() >= d.channels.len()
            &&& forall|k: int| 0 <= k < d.channels.len() ==> a.channels[k].time >= d.channels[k].time
        }),
{
    lemma_member_pos_facts(d.members, id);
    if d.has_member(id) {
        let m = d.member(id);
        match ev {
            VoiceEvent::Joined { state, .. } => {
                lemma_pos_after_update(d.members, id, crate::handler::rejoined(m, state, now));
            },
            VoiceEvent::Left { channel_id, state } => {
                lemma_pos_after_update(d.members, id, crate::handler::departed(m, state, now));
                lemma_channel_pos_facts(d.channels, channel_id);
            },
            VoiceEvent::StartedStreaming => {
                lemma_pos_after_update(d.members, id, MemberView { last_stream: now, ..m });
            },
            VoiceEvent::StoppedStreaming => {
                lemma_pos_after_update(d.members, id, MemberView {
                    time_streaming: accumulated(m.time_streaming, now, m.last_stream),
                    ..m
                });
            },
            VoiceEvent::Muted => {
                lemma_pos_after_update(d.members, id, MemberView { last_mute: now, ..m });
            },
            VoiceEvent::Unmuted => {
                lemma_pos_after_update(d.members, id, MemberView {
                    time_muted: accumulated(m.time_muted, now, m.last_mute),
                    ..m
                });
            },
            VoiceEvent::Deafened => {
                lemma_pos_after_update(d.members, id, MemberView { last_deafen: now, ..m });
            },
            VoiceEvent::Undeafened => {
                lemma_pos_after_update(d.members, id, MemberView {
                    time_defeaned: accumulated(m.time_defeaned, now, m.last_deafen),
                    ..m
                });
            },
            VoiceEvent::StartedVideo => {
                lemma_pos_after_update(d.members, id, MemberView { last_video: now, ..m });
            },
            VoiceEvent::StoppedVideo => {
                lemma_pos_after_update(d.members, id, MemberView {
                    time_video: accumulated(m.time_video, now, m.last_video),
                    ..m
                });
            },
        }
    }
}

/// A voice state that did not change gives rise to no event.
pub proof fn lemma_unchanged_state_no_events(s: VoiceSnapshot)
    ensures
        voice_events(Some(s), s) == Seq::<VoiceEvent>::empty(),
{
    assert(voice_events(Some(s), s) =~= Seq::<VoiceEvent>::empty());
}

/// Moving from one channel to another is recorded as leaving the first, then
/// entering the second, then the start of each state that came on.
pub proof fn lemma_move_is_leave_then_join(old: VoiceSnapshot, new: VoiceSnapshot, from: u64, to: u64)
    requires
        old.channel_id == Some(from),
        new.channel_id == Some(to),
        from != to,
    ensures
        voice_events(Some(old), new) == seq![
            VoiceEvent::Left { channel_id: from, state: old },
            VoiceEvent::Joined { channel_id: to, state: new },
        ] + start_events(Some(old), new),
{
    assert(channel_events(Some(old), new) =~= seq![
        VoiceEvent::Left { channel_id: from, state: old },
        VoiceEvent::Joined { channel_id: to, state: new },
    ]);
}

proof fn lemma_sum_update(s: Seq<i64>, i: int, v: i64)
    requires
        0 <= i < s.len(),
    ensures
        sum_of(s.update(i, v)) == sum_of(s) - s[i] + v,
    decreases s.len(),
{
    if i == s.len() - 1 {
        assert(s.update(i, v).drop_last() =~= s.drop_last());
    } else {
        assert(s.update(i, v).drop_last() =~= s.drop_last().update(i, v));
        lemma_sum_update(s.drop_last(), i, v);
    }
}

proof fn lemma_sum_push(s: Seq<i64>, v: i64)
    ensures
        sum_of(s.push(v)) == sum_of(s) + v,
{
    assert(s.push(v).drop_last() =~= s);
}

/// The members' times add up to the channels' times.
pub open spec fn time_sums_balanced(d: DataFileView) -> bool {
    sum_of(member_times(d)) == sum_of(channel_times(d))
}

/// Leaving at `now` adds a span that fits in `i64` to the member and to the
/// channel without either total leaving the range of `i64`.
pub open spec fn leave_in_range(d: DataFileView, id: u64, channel_id: u64, now: i64) -> bool {
    let m = d.member(id);
    let e = now - m.last_active;
    &&& i64::MIN <= e <= i64::MAX
    &&& i64::MIN <= m.time + e <= i64::MAX
    &&& i64::MIN <= prior_channel_time(d, channel_id) + e <= i64::MAX
}

/// Every session is credited to its member and to its channel alike, so the
/// members' times keep adding up to the channels' times (while no total
/// leaves the range of `i64`, where it would be clamped).
pub proof fn lemma_event_keeps_time_sums_balanced(
    d: DataFileView,
    ev: VoiceEvent,
    id: u64,
    username: Seq<char>,
    fetched: Option<Seq<char>>,
    now: i64,
)
    requires
        event_recordable(d, ev, id),
        time_sums_balanced(d),
        ev matches VoiceEvent::Left { channel_id, .. } ==> leave_in_range(d, id, channel_id, now),
    ensures
        time_sums_balanced(after_event(d, ev, id, username, fetched, now)),
{
    let a = after_event(d, ev, id, username, fetched, now);
    lemma_member_after_event(d, ev, id, username, fetched, now);
    lemma_member_pos_facts(d.members, id);
    let pos = member_pos(d.members, id);
    if pos >= 0 {
        let m2 = member_step(d.member(id), ev, now);
        assert(member_times(a) =~= member_times(d).update(pos, m2.time));
        lemma_sum_update(member_times(d), pos, m2.time);
    } else {
        assert(member_times(a) =~= member_times(d).push(0));
        lemma_sum_push(member_times(d), 0);
    }
    match ev {
        VoiceEvent::Left { channel_id, state } => {
            let m = d.member(id);
            let e = elapsed(now, m.last_active);
            assert(e == now - m.last_active);
            assert(member_step(m, ev, now).time == m.time + e);
            lemma_channel_pos_facts(d.channels, channel_id);
            let j = channel_pos(d.channels, channel_id);
            if j < 0 {
                assert(channel_times(a) =~= channel_times(d).push(e));
                lemma_sum_push(channel_times(d), e);
            } else {
                let c2 = crate::handler::credited(d.channels[j], channel_label(fetched), e);
                assert(c2.time == d.channels[j].time + e);
                assert(channel_times(a) =~= channel_times(d).update(j, c2.time));
                lemma_sum_update(channel_times(d), j, c2.time);
            }
        },
        _ => {
            assert(channel_times(a) =~= channel_times(d));
        },
    }
}

} // verus!
