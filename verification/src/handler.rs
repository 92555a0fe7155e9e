use vstd::prelude::*;
use crate::clock::{accumulated, add_elapsed, elapsed, elapsed_millis, saturate, saturating_i64};
use crate::model::{
    channel_pos, lemma_channel_pos_facts, lemma_member_pos_facts, member_pos, Channel, ChannelView,
    DataFile, DataFileView, Member, MemberView,
};
use crate::voice::{
    channel_events, is_deafened, is_muted, is_streaming, push_flag_events, push_start_events, voice_events,
    VoiceEvent, VoiceSnapshot,
};

verus! {

/// A member seen for the first time: nothing counted yet, every span starting now.
pub open spec fn fresh_member(id: u64, username: Seq<char>, now: i64) -> MemberView {
    MemberView {
        id,
        username,
        time: 0,
        time_muted: 0,
        time_defeaned: 0,
        time_streaming: 0,
        time_video: 0,
        last_active: now,
        last_mute: now,
        last_deafen: now,
        last_stream: now,
        last_video: now,
    }
}

/// A known member entering a channel: the presence span starts now, and so does
/// the span of each state that is on as they enter.
pub open spec fn rejoined(m: MemberView, st: VoiceSnapshot, now: i64) -> MemberView {
    MemberView {
        last_active: now,
        last_mute: if is_muted(st) { now } else { m.last_mute },
        last_deafen: if is_deafened(st) { now } else { m.last_deafen },
        last_stream: if is_streaming(st) { now } else { m.last_stream },
        last_video: if st.self_video { now } else { m.last_video },
        ..m
    }
}

/// A member leaving a channel: the presence span is added to the total, and the
/// span of each state that was on as they left to that state's total.
pub open spec fn departed(m: MemberView, st: VoiceSnapshot, now: i64) -> MemberView {
    MemberView {
        time: accumulated(m.time, now, m.last_active),
        time_muted: if is_muted(st) { accumulated(m.time_muted, now, m.last_mute) } else { m.time_muted },
        time_defeaned: if is_deafened(st) {
            accumulated(m.time_defeaned, now, m.last_deafen)
        } else {
            m.time_defeaned
        },
        time_streaming: if is_streaming(st) {
            accumulated(m.time_streaming, now, m.last_stream)
        } else {
            m.time_streaming
        },
        time_video: if st.self_video { accumulated(m.time_video, now, m.last_video) } else { m.time_video },
        ..m
    }
}

/// The name a channel goes by when its real name could not be fetched.
pub open spec fn unknown_channel() -> Seq<char> {
    "Unknown channel"@
}

/// The fetched name of a channel, or the placeholder.
pub open spec fn channel_label(fetched: Option<Seq<char>>) -> Seq<char> {
    match fetched {
        Some(n) => n,
        None => unknown_channel(),
    }
}

/// A known channel credited with a session: the time is added, and the name
/// follows the label unless the label is the placeholder.
pub open spec fn credited(c: ChannelView, label: Seq<char>, delta: i64) -> ChannelView {
    ChannelView {
        time: saturate(c.time + delta),
        name: if c.name != label && label != unknown_channel() { label } else { c.name },
        ..c
    }
}

pub open spec fn with_member(d: DataFileView, id: u64, m: MemberView) -> DataFileView {
    DataFileView { members: d.members.update(member_pos(d.members, id), m), ..d }
}

pub open spec fn after_join(d: DataFileView, st: VoiceSnapshot, id: u64, username: Seq<char>, now: i64) -> DataFileView {
    if member_pos(d.members, id) < 0 {
        DataFileView { members: d.members.push(fresh_member(id, username, now)), ..d }
    } else {
        with_member(d, id, rejoined(d.member(id), st, now))
    }
}

pub open spec fn after_leave(
    d: DataFileView,
    st: VoiceSnapshot,
    id: u64,
    channel_id: u64,
    label: Seq<char>,
    now: i64,
) -> DataFileView {
    let m = d.member(id);
    let delta = elapsed(now, m.last_active);
    let j = channel_pos(d.channels, channel_id);
    DataFileView {
        members: d.members.update(member_pos(d.members, id), departed(m, st, now)),
        channels: if j < 0 {
            d.channels.push(ChannelView { id: channel_id, name: label, time: delta })
        } else {
            d.channels.update(j, credited(d.channels[j], label, delta))
        },
        ..d
    }
}

pub open spec fn stream_started(d: DataFileView, id: u64, now: i64) -> DataFileView {
    with_member(d, id, MemberView { last_stream: now, ..d.member(id) })
}

pub open spec fn stream_stopped(d: DataFileView, id: u64, now: i64) -> DataFileView {
    let m = d.member(id);
    with_member(d, id, MemberView { time_streaming: accumulated(m.time_streaming, now, m.last_stream), ..m })
}

pub open spec fn mute_started(d: DataFileView, id: u64, now: i64) -> DataFileView {
    with_member(d, id, MemberView { last_mute: now, ..d.member(id) })
}

pub open spec fn mute_stopped(d: DataFileView, id: u64, now: i64) -> DataFileView {
    let m = d.member(id);
    with_member(d, id, MemberView { time_muted: accumulated(m.time_muted, now, m.last_mute), ..m })
}

pub open spec fn deafen_started(d: DataFileView, id: u64, now: i64) -> DataFileView {
    with_member(d, id, MemberView { last_deafen: now, ..d.member(id) })
}

pub open spec fn deafen_stopped(d: DataFileView, id: u64, now: i64) -> DataFileView {
    let m = d.member(id);
    with_member(d, id, MemberView { time_defeaned: accumulated(m.time_defeaned, now, m.last_deafen), ..m })
}

pub open spec fn video_started(d: DataFileView, id: u64, now: i64) -> DataFileView {
    with_member(d, id, MemberView { last_video: now, ..d.member(id) })
}

pub open spec fn video_stopped(d: DataFileView, id: u64, now: i64) -> DataFileView {
    let m = d.member(id);
    with_member(d, id, MemberView { time_video: accumulated(m.time_video, now, m.last_video), ..m })
}

/// The store after one event of a member, recorded at `now`.
pub open spec fn after_event(
    d: DataFileView,
    ev: VoiceEvent,
    id: u64,
    username: Seq<char>,
    fetched: Option<Seq<char>>,
    now: i64,
) -> DataFileView {
    match ev {
        VoiceEvent::Joined { state, .. } => after_join(d, state, id, username, now),
        VoiceEvent::Left { channel_id, state } => after_leave(
            d,
            state,
            id,
            channel_id,
            channel_label(fetched),
            now,
        ),
        VoiceEvent::StartedStreaming => stream_started(d, id, now),
        VoiceEvent::StoppedStreaming => stream_stopped(d, id, now),
        VoiceEvent::Muted => mute_started(d, id, now),
        VoiceEvent::Unmuted => mute_stopped(d, id, now),
        VoiceEvent::Deafened => deafen_started(d, id, now),
        VoiceEvent::Undeafened => deafen_stopped(d, id, now),
        VoiceEvent::StartedVideo => video_started(d, id, now),
        VoiceEvent::StoppedVideo => video_stopped(d, id, now),
    }
}

/// Every event but a join is about a member the store already holds.
pub open spec fn event_recordable(d: DataFileView, ev: VoiceEvent, id: u64) -> bool {
    ev is Joined || d.has_member(id)
}

/// Receives the voice events of the server and keeps the store up to date.
pub struct Handler {
    pub db: DataFile,
}

pub open spec fn name_view(o: Option<String>) -> Option<Seq<char>> {
    match o {
        Some(s) => Some(s@),
        None => None,
    }
}

/// The fetched name of a channel, or the placeholder.
pub fn channel_label_of(fetched: Option<String>) -> (r: String)
    ensures
        r@ == channel_label(name_view(fetched)),
{
    match fetched {
        Some(n) => n,
        None => String::from_str("Unknown channel"),
    }
}

impl Handler {
    /// The events that a change of a member's voice state from `old` to `new`
    /// gives rise to, in the order they are to be recorded.
    pub fn voice_state_update(old: &Option<VoiceSnapshot>, new: &VoiceSnapshot) -> (events: Vec<VoiceEvent>)
        ensures
            events@ == voice_events(*old, *new),
    {
        let mut events: Vec<VoiceEvent> = Vec::new();
        let old_channel: Option<u64> = match old {
            Some(s) => s.channel_id,
            None => None,
        };
        match (old_channel, new.channel_id) {
            (None, Some(id)) => {
                events.push(VoiceEvent::Joined { channel_id: id, state: *new });
            },
            (Some(id), None) => {
                let st = old.unwrap();
                events.push(VoiceEvent::Left { channel_id: id, state: st });
            },
            (Some(a), Some(b)) => {
                let st = old.unwrap();
                if a != b {
                    events.push(VoiceEvent::Left { channel_id: a, state: st });
                    events.push(VoiceEvent::Joined { channel_id: b, state: *new });
                } else {
                    let was_stream = match st.self_stream {
                        Some(b) => b,
                        None => false,
                    };
                    let is_stream = match new.self_stream {
                        Some(b) => b,
                        None => false,
                    };
                    push_flag_events(&mut events, was_stream, is_stream, VoiceEvent::StartedStreaming, VoiceEvent::StoppedStreaming);
                    push_flag_events(
                        &mut events,
                        st.mute || st.self_mute,
                        new.mute || new.self_mute,
                        VoiceEvent::Muted,
                        VoiceEvent::Unmuted,
                    );
                    push_flag_events(
                        &mut events,
                        st.deaf || st.self_deaf,
                        new.deaf || new.self_deaf,
                        VoiceEvent::Deafened,
                        VoiceEvent::Undeafened,
                    );
                    push_flag_events(&mut events, st.self_video, new.self_video, VoiceEvent::StartedVideo, VoiceEvent::StoppedVideo);
                }
            },
            (None, None) => {},
        }
        let stays = match (old_channel, new.channel_id) {
            (Some(a), Some(b)) => a == b,
            _ => false,
        };
        if !stays {
            proof {
                assert(events@ =~= channel_events(*old, *new));
            }
            push_start_events(&mut events, old, new);
        }
        assert(events@ =~= voice_events(*old, *new));
        events
    }

    pub fn new(db: DataFile) -> (h: Handler)
        ensures
            h.db@ == db@,
    {
        Handler { db }
    }

    /// Records that a member entered a channel, in the state `state`.
    pub fn user_joined(&mut self, state: &VoiceSnapshot, user_id: u64, username: &str, now: i64)
        ensures
            final(self).db@ == after_join(old(self).db@, *state, user_id, username@, now),
    {
        match self.db.member_index(user_id) {
            None => {
                let m = Member {
                    id: user_id,
                    username: String::from_str(username),
                    time: 0,
                    time_muted: 0,
                    time_defeaned: 0,
                    time_streaming: 0,
                    time_video: 0,
                    last_active: now,
                    last_mute: now,
                    last_deafen: now,
                    last_stream: now,
                    last_video: now,
                };
                self.db.members.push(m);
                proof {
                    assert(self.db@.members =~= old(self).db@.members.push(
                        fresh_member(user_id, username@, now),
                    ));
                }
            },
            Some(i) => {
                proof {
                    lemma_member_pos_facts(old(self).db@.members, user_id);
                }
                self.db.members[i].last_active = now;
                if state.mute || state.self_mute {
                    self.db.members[i].last_mute = now;
                }
                if state.deaf || state.self_deaf {
                    self.db.members[i].last_deafen = now;
                }
                if state.self_stream == Some(true) {
                    self.db.members[i].last_stream = now;
                }
                if state.self_video {
                    self.db.members[i].last_video = now;
                }
                proof {
                    let d = old(self).db@;
                    assert(self.db@.members =~= d.members.update(
                        i as int,
                        rejoined(d.member(user_id), *state, now),
                    ));
                }
            },
        }
    }

    /// Records that a member started streaming.
    pub fn user_started_streaming(&mut self, user_id: u64, now: i64)
        requires
            old(self).db@.has_member(user_id),
        ensures
            final(self).db@ == stream_started(old(self).db@, user_id, now),
    {
        let i = self.db.member_slot(user_id);
        self.db.members[i].last_stream = now;
        proof {
            assert(self.db@.members =~= stream_started(old(self).db@, user_id, now).members);
        }
    }

    /// Records that a member stopped streaming: the stream span is counted.
    pub fn user_stopped_streaming(&mut self, user_id: u64, now: i64)
        requires
            old(self).db@.has_member(user_id),
        ensures
            final(self).db@ == stream_stopped(old(self).db@, user_id, now),
    {
        let i = self.db.member_slot(user_id);
        let total = add_elapsed(self.db.members[i].time_streaming, now, self.db.members[i].last_stream);
        self.db.members[i].time_streaming = total;
        proof {
            assert(self.db@.members =~= stream_stopped(old(self).db@, user_id, now).members);
        }
    }

    /// Records that a member was muted, by the server or by themself.
    pub fn user_muted(&mut self, user_id: u64, now: i64)
        requires
            old(self).db@.has_member(user_id),
        ensures
            final(self).db@ == mute_started(old(self).db@, user_id, now),
    {
        let i = self.db.member_slot(user_id);
        self.db.members[i].last_mute = now;
        proof {
            assert(self.db@.members =~= mute_started(old(self).db@, user_id, now).members);
        }
    }

    /// Records that a member is no longer muted: the mute span is counted.
    pub fn user_unmuted(&mut self, user_id: u64, now: i64)
        requires
            old(self).db@.has_member(user_id),
        ensures
            final(self).db@ == mute_stopped(old(self).db@, user_id, now),
    {
        let i = self.db.member_slot(user_id);
        let total = add_elapsed(self.db.members[i].time_muted, now, self.db.members[i].last_mute);
        self.db.members[i].time_muted = total;
        proof {
            assert(self.db@.members =~= mute_stopped(old(self).db@, user_id, now).members);
        }
    }

    /// Records that a member was deafened, by the server or by themself.
    pub fn user_deafen(&mut self, user_id: u64, now: i64)
        requires
            old(self).db@.has_member(user_id),
        ensures
            final(self).db@ == deafen_started(old(self).db@, user_id, now),
    {
        let i = self.db.member_slot(user_id);
        self.db.members[i].last_deafen = now;
        proof {
            assert(self.db@.members =~= deafen_started(old(self).db@, user_id, now).members);
        }
    }

    /// Records that a member is no longer deafened: the deafen span is counted.
    pub fn user_undeafen(&mut self, user_id: u64, now: i64)
        requires
            old(self).db@.has_member(user_id),
        ensures
            final(self).db@ == deafen_stopped(old(self).db@, user_id, now),
    {
        let i = self.db.member_slot(user_id);
        let total = add_elapsed(self.db.members[i].time_defeaned, now, self.db.members[i].last_deafen);
        self.db.members[i].time_defeaned = total;
        proof {
            assert(self.db@.members =~= deafen_stopped(old(self).db@, user_id, now).members);
        }
    }

    /// Records that a member turned their camera on.
    pub fn user_started_video(&mut self, user_id: u64, now: i64)
        requires
            old(self).db@.has_member(user_id),
        ensures
            final(self).db@ == video_started(old(self).db@, user_id, now),
    {
        let i = self.db.member_slot(user_id);
        self.db.members[i].last_video = now;
        proof {
            assert(self.db@.members =~= video_started(old(self).db@, user_id, now).members);
        }
    }

    /// Records that a member turned their camera off: the camera span is counted.
    pub fn user_stopped_video(&mut self, user_id: u64, now: i64)
        requires
            old(self).db@.has_member(user_id),
        ensures
            final(self).db@ == video_stopped(old(self).db@, user_id, now),
    {
        let i = self.db.member_slot(user_id);
        let total = add_elapsed(self.db.members[i].time_video, now, self.db.members[i].last_video);
        self.db.members[i].time_video = total;
        proof {
            assert(self.db@.members =~= video_stopped(old(self).db@, user_id, now).members);
        }
    }

    /// Records that a member left channel `channel_id`, in the state `state`;
    /// `fetched_name` is the channel's name where it could be fetched.
    pub fn user_left(
        &mut self,
        state: &VoiceSnapshot,
        user_id: u64,
        channel_id: u64,
        fetched_name: Option<String>,
        now: i64,
    )
        requires
            old(self).db@.has_member(user_id),
        ensures
            final(self).db@ == after_leave(
                old(self).db@,
                *state,
                user_id,
                channel_id,
                channel_label(name_view(fetched_name)),
                now,
            ),
    {
        let channel_name = channel_label_of(fetched_name);
        let i = self.db.member_slot(user_id);
        let ghost m = old(self).db@.member(user_id);
        let time_delta = elapsed_millis(now, self.db.members[i].last_active);
        let t = add_elapsed(self.db.members[i].time, now, self.db.members[i].last_active);
        self.db.members[i].time = t;
        if state.mute || state.self_mute {
            let t = add_elapsed(self.db.members[i].time_muted, now, self.db.members[i].last_mute);
            self.db.members[i].time_muted = t;
        }
        if state.deaf || state.self_deaf {
            let t = add_elapsed(self.db.members[i].time_defeaned, now, self.db.members[i].last_deafen);
            self.db.members[i].time_defeaned = t;
        }
        if state.self_stream == Some(true) {
            let t = add_elapsed(self.db.members[i].time_streaming, now, self.db.members[i].last_stream);
            self.db.members[i].time_streaming = t;
        }
        if state.self_video {
            let t = add_elapsed(self.db.members[i].time_video, now, self.db.members[i].last_video);
            self.db.members[i].time_video = t;
        }
        proof {
            assert(self.db@.members =~= old(self).db@.members.update(i as int, departed(m, *state, now)));
        }
        let ghost mid = self.db@;
        match self.db.channel_index(channel_id) {
            None => {
                self.db.channels.push(Channel { id: channel_id, name: channel_name, time: time_delta });
                proof {
                    assert(self.db@.channels =~= mid.channels.push(
                        ChannelView { id: channel_id, name: channel_label(name_view(fetched_name)), time: time_delta },
                    ));
                }
            },
            Some(j) => {
                proof {
                    lemma_channel_pos_facts(mid.channels, channel_id);
                }
                let ct = saturating_i64(self.db.channels[j].time as i128 + time_delta as i128);
                self.db.channels[j].time = ct;
                let unknown = String::from_str("Unknown channel");
                if !(self.db.channels[j].name == channel_name) && !(channel_name == unknown) {
                    self.db.channels[j].name = channel_name;
                }
                proof {
                    assert(self.db@.channels =~= mid.channels.update(
                        j as int,
                        credited(mid.channels[j as int], channel_label(name_view(fetched_name)), time_delta),
                    ));
                }
            },
        }
    }

    /// Records one event of a member at `now`.
    pub fn record(
        &mut self,
        event: &VoiceEvent,
        user_id: u64,
        username: &str,
        fetched_name: Option<String>,
        now: i64,
    )
        requires
            event_recordable(old(self).db@, *event, user_id),
        ensures
            final(self).db@ == after_event(old(self).db@, *event, user_id, username@, name_view(fetched_name), now),
    {
        match event {
            VoiceEvent::Joined { state, .. } => self.user_joined(state, user_id, username, now),
            VoiceEvent::Left { channel_id, state } => self.user_left(state, user_id, *channel_id, fetched_name, now),
            VoiceEvent::StartedStreaming => self.user_started_streaming(user_id, now),
            VoiceEvent::StoppedStreaming => self.user_stopped_streaming(user_id, now),
            VoiceEvent::Muted => self.user_muted(user_id, now),
            VoiceEvent::Unmuted => self.user_unmuted(user_id, now),
            VoiceEvent::Deafened => self.user_deafen(user_id, now),
            VoiceEvent::Undeafened => self.user_undeafen(user_id, now),
            VoiceEvent::StartedVideo => self.user_started_video(user_id, now),
            VoiceEvent::StoppedVideo => self.user_stopped_video(user_id, now),
        }
    }
}

} // verus!
