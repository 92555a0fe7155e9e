use vstd::prelude::*;
use crate::accounting::{lemma_event_store_grows, lemma_member_after_event, store_grows, totals_grow};
use crate::clock::{accumulated, elapsed, saturate};
use crate::handler::{after_event, after_join, after_leave, channel_label, event_recordable};
use crate::laws::{lemma_pos_after_push, lemma_pos_after_update, stamps_not_after};
use crate::model::{
    channel_pos, is_first_channel, lemma_channel_pos_facts, lemma_first_channel_is_pos,
    lemma_member_pos_facts, member_pos, ChannelView, DataFileView, MemberView,
};
use crate::voice::{VoiceEvent, VoiceSnapshot};

verus! {

/// Leaving a channel adds the session, from when the member entered to now, to
/// their voice total, and the span of each state that was on as they left
/// (muted or deafened by the server or by themself, streaming, on camera) to
/// that state's total; a state that was off keeps its total. Nothing else of
/// the member changes, and no other member changes.
pub proof fn lemma_leave_counts_each_state(
    d: DataFileView,
    st: VoiceSnapshot,
    id: u64,
    channel_id: u64,
    label: Seq<char>,
    now: i64,
)
    requires
        d.has_member(id),
    ensures
        ({
            let a = after_leave(d, st, id, channel_id, label, now);
            let i = member_pos(d.members, id);
            let m = d.members[i];
            let m2 = a.members[i];
            &&& 0 <= i < d.members.len()
            &&& a.members.len() == d.members.len()
            &&& forall|k: int| 0 <= k < d.members.len() && k != i ==> a.members[k] == d.members[k]
            &&& a.has_member(id) && a.member(id) == m2
            &&& m2.id == id && m2.username == m.username
            &&& m2.time == accumulated(m.time, now, m.last_active)
            &&& m2.time_muted == if st.mute || st.self_mute {
                accumulated(m.time_muted, now, m.last_mute)
            } else {
                m.time_muted
            }
            &&& m2.time_defeaned == if st.deaf || st.self_deaf {
                accumulated(m.time_defeaned, now, m.last_deafen)
            } else {
                m.time_defeaned
            }
            &&& m2.time_streaming == if st.self_stream == Some(true) {
                accumulated(m.time_streaming, now, m.last_stream)
            } else {
                m.time_streaming
            }
            &&& m2.time_video == if st.self_video {
                accumulated(m.time_video, now, m.last_video)
            } else {
                m.time_video
            }
            &&& m2.last_active == m.last_active && m2.last_mute == m.last_mute
            &&& m2.last_deafen == m.last_deafen && m2.last_stream == m.last_stream
            &&& m2.last_video == m.last_video
            &&& a.guild_id == d.guild_id && a.guild_name == d.guild_name
        }),
{
    lemma_member_pos_facts(d.members, id);
    let i = member_pos(d.members, id);
    let a = after_leave(d, st, id, channel_id, label, now);
    lemma_pos_after_update(d.members, id, a.members[i]);
}

/// A session counts in every state: a member who enters a channel at `t1` and
/// leaves it at `t2` in the same voice state has the time between added to
/// their voice total and to the total of each state that was on (muted or
/// deafened by the server or by themself, streaming, on camera); the totals of
/// the states that were off stay as they were. A member not stored before
/// starts from zero.
pub proof fn lemma_session_counts_each_state(
    d: DataFileView,
    st: VoiceSnapshot,
    id: u64,
    username: Seq<char>,
    channel_id: u64,
    label: Seq<char>,
    t1: i64,
    t2: i64,
)
    ensures
        ({
            let d2 = after_leave(after_join(d, st, id, username, t1), st, id, channel_id, label, t2);
            let known = d.has_member(id);
            let m = d.member(id);
            let m2 = d2.member(id);
            &&& d2.has_member(id)
            &&& m2.time == accumulated(if known { m.time } else { 0 }, t2, t1)
            &&& m2.time_muted == if st.mute || st.self_mute {
                accumulated(if known { m.time_muted } else { 0 }, t2, t1)
            } else if known {
                m.time_muted
            } else {
                0
            }
            &&& m2.time_defeaned == if st.deaf || st.self_deaf {
                accumulated(if known { m.time_defeaned } else { 0 }, t2, t1)
            } else if known {
                m.time_defeaned
            } else {
                0
            }
            &&& m2.time_streaming == if st.self_stream == Some(true) {
                accumulated(if known { m.time_streaming } else { 0 }, t2, t1)
            } else if known {
                m.time_streaming
            } else {
                0
            }
            &&& m2.time_video == if st.self_video {
                accumulated(if known { m.time_video } else { 0 }, t2, t1)
            } else if known {
                m.time_video
            } else {
                0
            }
        }),
{
    let d1 = after_join(d, st, id, username, t1);
    lemma_member_pos_facts(d.members, id);
    if member_pos(d.members, id) < 0 {
        lemma_first_join_starts_at_zero(d, st, id, username, t1);
    } else {
        lemma_pos_after_update(d.members, id, crate::handler::rejoined(d.member(id), st, t1));
    }
    crate::laws::lemma_join_keeps_totals(d, st, id, username, t1);
    lemma_leave_counts_each_state(d1, st, id, channel_id, label, t2);
}

/// A member seen for the first time is added at the end of the store with every
/// total at zero and every span starting now; the members already stored stay
/// as they were.
pub proof fn lemma_first_join_starts_at_zero(
    d: DataFileView,
    st: VoiceSnapshot,
    id: u64,
    username: Seq<char>,
    now: i64,
)
    requires
        !d.has_member(id),
    ensures
        ({
            let a = after_join(d, st, id, username, now);
            let m = a.members[d.members.len() as int];
            &&& a.members.len() == d.members.len() + 1
            &&& forall|k: int| 0 <= k < d.members.len() ==> a.members[k] == d.members[k]
            &&& a.has_member(id) && a.member(id) == m
            &&& m.id == id && m.username == username
            &&& m.time == 0 && m.time_muted == 0 && m.time_defeaned == 0
            &&& m.time_streaming == 0 && m.time_video == 0
            &&& m.last_active == now && m.last_mute == now && m.last_deafen == now
            &&& m.last_stream == now && m.last_video == now
            &&& a.channels == d.channels
        }),
{
    lemma_member_pos_facts(d.members, id);
    let a = after_join(d, st, id, username, now);
    lemma_pos_after_push(d.members, a.members[d.members.len() as int]);
}

/// Leaving credits the channel with the session: a channel already stored (the
/// first with that id) has the session added to its time and takes the fetched
/// name, unless the name could not be fetched; an unknown channel is added at
/// the end with the session as its time. No other channel changes.
pub proof fn lemma_leave_credits_the_channel(
    d: DataFileView,
    st: VoiceSnapshot,
    id: u64,
    channel_id: u64,
    fetched: Option<Seq<char>>,
    now: i64,
)
    requires
        d.has_member(id),
    ensures
        ({
            let a = after_leave(d, st, id, channel_id, channel_label(fetched), now);
            let session = elapsed(now, d.member(id).last_active);
            let label = match fetched {
                Some(n) => n,
                None => "Unknown channel"@,
            };
            &&& forall|j: int|
                is_first_channel(d.channels, channel_id, j) ==> {
                    &&& a.channels.len() == d.channels.len()
                    &&& a.channels[j].id == channel_id
                    &&& a.channels[j].time == saturate(d.channels[j].time + session)
                    &&& a.channels[j].name == if fetched is Some && label != d.channels[j].name
                        && label != "Unknown channel"@ {
                        label
                    } else {
                        d.channels[j].name
                    }
                    &&& forall|k: int| 0 <= k < d.channels.len() && k != j ==> a.channels[k] == d.channels[k]
                }
            &&& (forall|j: int| 0 <= j < d.channels.len() ==> d.channels[j].id != channel_id) ==> {
                &&& a.channels.len() == d.channels.len() + 1
                &&& a.channels.last() == (ChannelView { id: channel_id, name: label, time: session })
                &&& forall|k: int| 0 <= k < d.channels.len() ==> a.channels[k] == d.channels[k]
            }
        }),
{
    lemma_channel_pos_facts(d.channels, channel_id);
    assert forall|j: int| is_first_channel(d.channels, channel_id, j) implies channel_pos(d.channels, channel_id) == j by {
        lemma_first_channel_is_pos(d.channels, channel_id, j);
    }
}

/// A channel's name is the fetched one, or "Unknown channel" when it could not
/// be fetched.
pub proof fn lemma_channel_label(fetched: Option<Seq<char>>)
    ensures
        fetched is None ==> channel_label(fetched) == "Unknown channel"@,
        forall|n: Seq<char>| fetched == Some(n) ==> channel_label(fetched) == n,
{
}

/// A known member entering a channel keeps every total; their presence span
/// starts now, and so does the span of each state that is on as they enter
/// (muted or deafened by the server or by themself, streaming, on camera); the
/// other spans keep their start. No other member changes.
pub proof fn lemma_rejoin_restarts_running_spans(
    d: DataFileView,
    st: VoiceSnapshot,
    id: u64,
    username: Seq<char>,
    now: i64,
)
    requires
        d.has_member(id),
    ensures
        ({
            let a = after_join(d, st, id, username, now);
            let i = member_pos(d.members, id);
            let m = d.members[i];
            let m2 = a.members[i];
            &&& 0 <= i < d.members.len()
            &&& a.members.len() == d.members.len()
            &&& forall|k: int| 0 <= k < d.members.len() && k != i ==> a.members[k] == d.members[k]
            &&& a.has_member(id) && a.member(id) == m2
            &&& m2.id == id && m2.username == m.username
            &&& m2.time == m.time && m2.time_muted == m.time_muted && m2.time_defeaned == m.time_defeaned
            &&& m2.time_streaming == m.time_streaming && m2.time_video == m.time_video
            &&& m2.last_active == now
            &&& m2.last_mute == if st.mute || st.self_mute { now } else { m.last_mute }
            &&& m2.last_deafen == if st.deaf || st.self_deaf { now } else { m.last_deafen }
            &&& m2.last_stream == if st.self_stream == Some(true) { now } else { m.last_stream }
            &&& m2.last_video == if st.self_video { now } else { m.last_video }
            &&& a.channels == d.channels
        }),
{
    lemma_member_pos_facts(d.members, id);
    let i = member_pos(d.members, id);
    let a = after_join(d, st, id, username, now);
    lemma_pos_after_update(d.members, id, a.members[i]);
}

pub open spec fn totals_nonnegative(m: MemberView) -> bool {
    &&& m.time >= 0
    &&& m.time_muted >= 0
    &&& m.time_defeaned >= 0
    &&& m.time_streaming >= 0
    &&& m.time_video >= 0
}

/// No total is ever negative: if no member and no channel has a negative total,
/// none has one after an event recorded no earlier than the member's spans
/// started.
pub proof fn lemma_event_keeps_totals_nonnegative(
    d: DataFileView,
    ev: VoiceEvent,
    id: u64,
    username: Seq<char>,
    fetched: Option<Seq<char>>,
    now: i64,
)
    requires
        event_recordable(d, ev, id),
        d.has_member(id) ==> stamps_not_after(d.member(id), now),
        forall|k: int| 0 <= k < d.members.len() ==> totals_nonnegative(#[trigger] d.members[k]),
        forall|k: int| 0 <= k < d.channels.len() ==> #[trigger] d.channels[k].time >= 0,
    ensures
        ({
            let a = after_event(d, ev, id, username, fetched, now);
            &&& forall|k: int| 0 <= k < a.members.len() ==> totals_nonnegative(#[trigger] a.members[k])
            &&& forall|k: int| 0 <= k < a.channels.len() ==> #[trigger] a.channels[k].time >= 0
        }),
{
    let a = after_event(d, ev, id, username, fetched, now);
    lemma_event_store_grows(d, ev, id, username, fetched, now);
    lemma_member_after_event(d, ev, id, username, fetched, now);
    lemma_member_pos_facts(d.members, id);
    assert forall|k: int| 0 <= k < a.members.len() implies totals_nonnegative(#[trigger] a.members[k]) by {
        if k < d.members.len() {
            assert(totals_grow(d.members[k], a.members[k]));
        } else {
            assert(member_pos(d.members, id) < 0);
            assert(a.members[k] == crate::handler::fresh_member(id, username, now));
        }
    }
    assert forall|k: int| 0 <= k < a.channels.len() implies #[trigger] a.channels[k].time >= 0 by {
        if k < d.channels.len() {
            assert(d.channels[k].time <= a.channels[k].time);
        } else {
            match ev {
                VoiceEvent::Left { channel_id, .. } => {
                    lemma_channel_pos_facts(d.channels, channel_id);
                    assert(a.channels[k].time == elapsed(now, d.member(id).last_active));
                },
                _ => {},
            }
        }
    }
}

} // verus!
