use vstd::prelude::*;

verus! {

/// What the tracker reads of a member's voice state.
#[derive(Clone, Copy)]
pub struct VoiceSnapshot {
    pub channel_id: Option<u64>,
    /// Muted by the server.
    pub mute: bool,
    /// Deafened by the server.
    pub deaf: bool,
    pub self_mute: bool,
    pub self_deaf: bool,
    pub self_stream: Option<bool>,
    pub self_video: bool,
}

/// One change of a member's voice state, in the order the tracker handles them.
#[derive(Clone, Copy)]
pub enum VoiceEvent {
    /// Entered a voice channel; `state` is the state after entering.
    Joined { channel_id: u64, state: VoiceSnapshot },
    /// Left a voice channel; `state` is the state before leaving.
    Left { channel_id: u64, state: VoiceSnapshot },
    StartedStreaming,
    StoppedStreaming,
    Muted,
    Unmuted,
    Deafened,
    Undeafened,
    StartedVideo,
    StoppedVideo,
}

pub open spec fn old_channel(old: Option<VoiceSnapshot>) -> Option<u64> {
    match old {
        Some(s) => s.channel_id,
        None => None,
    }
}

/// The channel part of an update: a join, a leave, or a leave then a join.
pub open spec fn channel_events(old: Option<VoiceSnapshot>, new: VoiceSnapshot) -> Seq<VoiceEvent> {
    match (old_channel(old), new.channel_id) {
        (None, Some(id)) => seq![VoiceEvent::Joined { channel_id: id, state: new }],
        (Some(id), None) => seq![VoiceEvent::Left { channel_id: id, state: old.unwrap() }],
        (Some(a), Some(b)) => if a != b {
            seq![
                VoiceEvent::Left { channel_id: a, state: old.unwrap() },
                VoiceEvent::Joined { channel_id: b, state: new },
            ]
        } else {
            seq![]
        },
        (None, None) => seq![],
    }
}

/// `on` when a flag went from false to true, `off` when it went back.
pub open spec fn flag_events(was_on: bool, now_on: bool, on: VoiceEvent, off: VoiceEvent) -> Seq<VoiceEvent> {
    if !was_on && now_on {
        seq![on]
    } else if was_on && !now_on {
        seq![off]
    } else {
        seq![]
    }
}

/// Muted, by the server or by the member.
pub open spec fn is_muted(st: VoiceSnapshot) -> bool {
    st.mute || st.self_mute
}

/// Deafened, by the server or by the member.
pub open spec fn is_deafened(st: VoiceSnapshot) -> bool {
    st.deaf || st.self_deaf
}

pub open spec fn is_streaming(st: VoiceSnapshot) -> bool {
    st.self_stream == Some(true)
}

/// The member is in the same channel before and after the update.
pub open spec fn stays_in_channel(old: Option<VoiceSnapshot>, new: VoiceSnapshot) -> bool {
    old_channel(old) is Some && old_channel(old) == new.channel_id
}

/// The changes of streaming, mute, deafen and camera of a member who stays in
/// one channel, in that order.
pub open spec fn state_events(old: VoiceSnapshot, new: VoiceSnapshot) -> Seq<VoiceEvent> {
    flag_events(is_streaming(old), is_streaming(new), VoiceEvent::StartedStreaming, VoiceEvent::StoppedStreaming)
        + flag_events(is_muted(old), is_muted(new), VoiceEvent::Muted, VoiceEvent::Unmuted)
        + flag_events(is_deafened(old), is_deafened(new), VoiceEvent::Deafened, VoiceEvent::Undeafened)
        + flag_events(old.self_video, new.self_video, VoiceEvent::StartedVideo, VoiceEvent::StoppedVideo)
}

/// `ev` when a state went from off to on.
pub open spec fn on_event(was_on: bool, now_on: bool, ev: VoiceEvent) -> Seq<VoiceEvent> {
    if !was_on && now_on {
        seq![ev]
    } else {
        seq![]
    }
}

pub open spec fn was_streaming(old: Option<VoiceSnapshot>) -> bool {
    match old {
        Some(s) => is_streaming(s),
        None => false,
    }
}

pub open spec fn was_muted(old: Option<VoiceSnapshot>) -> bool {
    match old {
        Some(s) => is_muted(s),
        None => false,
    }
}

pub open spec fn was_deafened(old: Option<VoiceSnapshot>) -> bool {
    match old {
        Some(s) => is_deafened(s),
        None => false,
    }
}

pub open spec fn was_on_video(old: Option<VoiceSnapshot>) -> bool {
    match old {
        Some(s) => s.self_video,
        None => false,
    }
}

/// The states that went from off to on, in the order streaming, mute, deafen,
/// camera: each starts its span now. A state that is absent counts as off.
pub open spec fn start_events(old: Option<VoiceSnapshot>, new: VoiceSnapshot) -> Seq<VoiceEvent> {
    on_event(was_streaming(old), is_streaming(new), VoiceEvent::StartedStreaming)
        + on_event(was_muted(old), is_muted(new), VoiceEvent::Muted)
        + on_event(was_deafened(old), is_deafened(new), VoiceEvent::Deafened)
        + on_event(was_on_video(old), new.self_video, VoiceEvent::StartedVideo)
}

/// Every change between two voice states of a member. A member who stays in
/// one channel gets an event for each state that changed. Otherwise the channel
/// events come first (leaving closes every span that was open, entering opens
/// one for each state that is on), then an event for each state that went from
/// off to on; a state going off gets none, since leaving already counted its
/// span and outside a channel nothing is counted. A state that is absent counts
/// as "in no channel, nothing on".
pub open spec fn voice_events(old: Option<VoiceSnapshot>, new: VoiceSnapshot) -> Seq<VoiceEvent> {
    if stays_in_channel(old, new) {
        state_events(old.unwrap(), new)
    } else {
        channel_events(old, new) + start_events(old, new)
    }
}

fn push_on_event(out: &mut Vec<VoiceEvent>, was_on: bool, now_on: bool, ev: VoiceEvent)
    ensures
        final(out)@ == old(out)@ + on_event(was_on, now_on, ev),
{
    if !was_on && now_on {
        out.push(ev);
    }
    assert(final(out)@ =~= old(out)@ + on_event(was_on, now_on, ev));
}

/// Appends the events of the states that went from off to on.
pub(crate) fn push_start_events(out: &mut Vec<VoiceEvent>, before: &Option<VoiceSnapshot>, new: &VoiceSnapshot)
    ensures
        final(out)@ == old(out)@ + start_events(*before, *new),
{
    let (was_stream, was_mute, was_deaf, was_video) = match before {
        Some(s) => (
            match s.self_stream {
                Some(b) => b,
                None => false,
            },
            s.mute || s.self_mute,
            s.deaf || s.self_deaf,
            s.self_video,
        ),
        None => (false, false, false, false),
    };
    let is_stream = match new.self_stream {
        Some(b) => b,
        None => false,
    };
    let ghost start = old(out)@;
    push_on_event(out, was_stream, is_stream, VoiceEvent::StartedStreaming);
    push_on_event(out, was_mute, new.mute || new.self_mute, VoiceEvent::Muted);
    push_on_event(out, was_deaf, new.deaf || new.self_deaf, VoiceEvent::Deafened);
    push_on_event(out, was_video, new.self_video, VoiceEvent::StartedVideo);
    assert(final(out)@ =~= start + start_events(*before, *new));
}

pub(crate) fn push_flag_events(out: &mut Vec<VoiceEvent>, was_on: bool, now_on: bool, on: VoiceEvent, off: VoiceEvent)
    ensures
        final(out)@ == old(out)@ + flag_events(was_on, now_on, on, off),
{
    if !was_on && now_on {
        out.push(on);
    } else if was_on && !now_on {
        out.push(off);
    }
    assert(final(out)@ =~= old(out)@ + flag_events(was_on, now_on, on, off));
}

impl VoiceEvent {
    /// The channel whose name the tracker needs before it can record this event.
    pub fn channel_to_name(&self) -> (r: Option<u64>)
        ensures
            r == match *self {
                VoiceEvent::Left { channel_id, .. } => Some(channel_id),
                _ => None::<u64>,
            },
    {
        match self {
            VoiceEvent::Left { channel_id, .. } => Some(*channel_id),
            _ => None,
        }
    }
}

} // verus!
