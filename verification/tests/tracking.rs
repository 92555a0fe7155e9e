use vocal_time_counter::clock::{add_elapsed, elapsed_millis, saturating_i64};
use vocal_time_counter::handler::{channel_label_of, Handler};
use vocal_time_counter::model::{Channel, DataFile, Member};
use vocal_time_counter::voice::{VoiceEvent, VoiceSnapshot};

fn idle(channel: Option<u64>) -> VoiceSnapshot {
    VoiceSnapshot {
        channel_id: channel,
        mute: false,
        deaf: false,
        self_mute: false,
        self_deaf: false,
        self_stream: None,
        self_video: false,
    }
}

fn member(id: u64, name: &str, time: i64, last: i64) -> Member {
    Member {
        id,
        username: name.to_string(),
        time,
        time_muted: 0,
        time_defeaned: 0,
        time_streaming: 0,
        time_video: 0,
        last_active: last,
        last_mute: last,
        last_deafen: last,
        last_stream: last,
        last_video: last,
    }
}

#[test]
fn default_store_is_empty() {
    let d = DataFile::new_default();
    assert_eq!(d.guild_id, 0);
    assert_eq!(d.guild_name, "No server name");
    assert!(d.members.is_empty());
    assert!(d.channels.is_empty());
}

#[test]
fn clock_arithmetic_saturates() {
    assert_eq!(elapsed_millis(5_000, 2_000), 3_000);
    assert_eq!(elapsed_millis(2_000, 5_000), -3_000);
    assert_eq!(elapsed_millis(i64::MAX, i64::MIN), i64::MAX);
    assert_eq!(add_elapsed(10, 5_000, 2_000), 3_010);
    assert_eq!(add_elapsed(i64::MAX - 1, 10, 0), i64::MAX);
    assert_eq!(saturating_i64(i128::MIN), i64::MIN);
}

#[test]
fn first_join_creates_member() {
    let mut h = Handler::new(DataFile::new_default());
    h.user_joined(&idle(Some(7)), 42, "alice", 1_000);
    assert_eq!(h.db.members.len(), 1);
    let m = &h.db.members[0];
    assert_eq!(m.id, 42);
    assert_eq!(m.username, "alice");
    assert_eq!(m.time, 0);
    assert_eq!(m.last_active, 1_000);
    assert_eq!(m.last_video, 1_000);
}

#[test]
fn rejoin_restarts_only_the_states_that_are_on() {
    let mut d = DataFile::new_default();
    d.members.push(member(1, "bob", 500, 100));
    let mut h = Handler::new(d);
    let mut st = idle(Some(3));
    st.mute = true;
    st.self_stream = Some(true);
    h.user_joined(&st, 1, "ignored", 9_000);
    let m = &h.db.members[0];
    assert_eq!(m.username, "bob");
    assert_eq!(m.last_active, 9_000);
    assert_eq!(m.last_mute, 9_000);
    assert_eq!(m.last_stream, 9_000);
    assert_eq!(m.last_deafen, 100);
    assert_eq!(m.last_video, 100);
    assert_eq!(m.time, 500);
    assert_eq!(h.db.members.len(), 1);
}

#[test]
fn session_credits_member_and_channel() {
    let mut h = Handler::new(DataFile::new_default());
    h.user_joined(&idle(Some(7)), 42, "alice", 1_000);
    h.user_left(&idle(Some(7)), 42, 7, Some("General".to_string()), 61_000);
    assert_eq!(h.db.members[0].time, 60_000);
    assert_eq!(h.db.channels.len(), 1);
    assert_eq!(h.db.channels[0].id, 7);
    assert_eq!(h.db.channels[0].name, "General");
    assert_eq!(h.db.channels[0].time, 60_000);
}

#[test]
fn leaving_while_muted_counts_the_mute() {
    let mut d = DataFile::new_default();
    d.members.push(member(1, "bob", 0, 1_000));
    let mut h = Handler::new(d);
    let mut st = idle(Some(3));
    st.self_mute = true;
    st.deaf = true;
    st.self_video = true;
    h.user_left(&st, 1, 3, None, 4_000);
    let m = &h.db.members[0];
    assert_eq!(m.time, 3_000);
    assert_eq!(m.time_muted, 3_000);
    assert_eq!(m.time_defeaned, 3_000);
    assert_eq!(m.time_video, 3_000);
    assert_eq!(m.time_streaming, 0);
    assert_eq!(h.db.channels[0].name, "Unknown channel");
}

#[test]
fn channel_name_follows_fetched_name_but_not_placeholder() {
    let mut d = DataFile::new_default();
    d.members.push(member(1, "bob", 0, 0));
    d.channels.push(Channel { id: 3, name: "Old".to_string(), time: 10 });
    let mut h = Handler::new(d);
    h.user_left(&idle(Some(3)), 1, 3, None, 1_000);
    assert_eq!(h.db.channels[0].name, "Old");
    assert_eq!(h.db.channels[0].time, 1_010);
    h.user_left(&idle(Some(3)), 1, 3, Some("New".to_string()), 1_000);
    assert_eq!(h.db.channels[0].name, "New");
    assert_eq!(h.db.channels.len(), 1);
}

#[test]
fn placeholder_name_when_fetch_failed() {
    assert_eq!(channel_label_of(None), "Unknown channel");
    assert_eq!(channel_label_of(Some("Lounge".to_string())), "Lounge");
}

#[test]
fn flag_spans_are_counted() {
    let mut d = DataFile::new_default();
    d.members.push(member(1, "bob", 0, 0));
    let mut h = Handler::new(d);
    h.user_started_streaming(1, 100);
    h.user_stopped_streaming(1, 350);
    h.user_muted(1, 1_000);
    h.user_unmuted(1, 1_500);
    h.user_deafen(1, 2_000);
    h.user_undeafen(1, 2_100);
    h.user_started_video(1, 3_000);
    h.user_stopped_video(1, 3_007);
    let m = &h.db.members[0];
    assert_eq!(m.time_streaming, 250);
    assert_eq!(m.time_muted, 500);
    assert_eq!(m.time_defeaned, 100);
    assert_eq!(m.time_video, 7);
    assert_eq!(m.time, 0);
}

#[test]
fn other_members_are_untouched() {
    let mut d = DataFile::new_default();
    d.members.push(member(1, "a", 11, 0));
    d.members.push(member(2, "b", 22, 0));
    let mut h = Handler::new(d);
    h.record(&VoiceEvent::Left { channel_id: 9, state: idle(Some(9)) }, 2, "b", None, 100);
    assert_eq!(h.db.members[0].time, 11);
    assert_eq!(h.db.members[1].time, 122);
}

#[test]
fn first_matching_member_is_used() {
    let mut d = DataFile::new_default();
    d.members.push(member(5, "first", 0, 0));
    d.members.push(member(5, "second", 0, 0));
    let mut h = Handler::new(d);
    h.user_stopped_streaming(5, 40);
    assert_eq!(h.db.members[0].time_streaming, 40);
    assert_eq!(h.db.members[1].time_streaming, 0);
}

#[test]
fn join_event_from_nowhere() {
    let ev = Handler::voice_state_update(&None, &idle(Some(4)));
    assert_eq!(ev.len(), 1);
    assert!(matches!(ev[0], VoiceEvent::Joined { channel_id: 4, .. }));
}

#[test]
fn unchanged_state_has_no_events() {
    let s = idle(Some(4));
    assert!(Handler::voice_state_update(&Some(s), &s).is_empty());
}

#[test]
fn move_is_leave_then_join() {
    let ev = Handler::voice_state_update(&Some(idle(Some(1))), &idle(Some(2)));
    assert_eq!(ev.len(), 2);
    assert!(matches!(ev[0], VoiceEvent::Left { channel_id: 1, .. }));
    assert!(matches!(ev[1], VoiceEvent::Joined { channel_id: 2, .. }));
    assert_eq!(ev[0].channel_to_name(), Some(1));
    assert_eq!(ev[1].channel_to_name(), None);
}

#[test]
fn flag_changes_come_in_order() {
    let old = idle(Some(1));
    let mut new = idle(Some(1));
    new.self_stream = Some(true);
    new.self_mute = true;
    new.self_deaf = true;
    new.self_video = true;
    let ev = Handler::voice_state_update(&Some(old), &new);
    assert_eq!(ev.len(), 4);
    assert!(matches!(ev[0], VoiceEvent::StartedStreaming));
    assert!(matches!(ev[1], VoiceEvent::Muted));
    assert!(matches!(ev[2], VoiceEvent::Deafened));
    assert!(matches!(ev[3], VoiceEvent::StartedVideo));
    let back = Handler::voice_state_update(&Some(new), &old);
    assert!(matches!(back[0], VoiceEvent::StoppedStreaming));
    assert!(matches!(back[1], VoiceEvent::Unmuted));
    assert!(matches!(back[2], VoiceEvent::Undeafened));
    assert!(matches!(back[3], VoiceEvent::StoppedVideo));
}

#[test]
fn server_mute_is_a_mute_event() {
    let old = idle(Some(1));
    let mut new = idle(Some(1));
    new.mute = true;
    let ev = Handler::voice_state_update(&Some(old), &new);
    assert_eq!(ev.len(), 1);
    assert!(matches!(ev[0], VoiceEvent::Muted));
    let mut both = new;
    both.self_mute = true;
    assert!(Handler::voice_state_update(&Some(new), &both).is_empty());
    let ev = Handler::voice_state_update(&Some(both), &idle(Some(1)));
    assert!(matches!(ev[0], VoiceEvent::Unmuted));
}

#[test]
fn outside_channels_only_starts_are_marked() {
    let old = idle(None);
    let mut new = idle(None);
    new.self_mute = true;
    new.self_stream = Some(true);
    let ev = Handler::voice_state_update(&Some(old), &new);
    assert_eq!(ev.len(), 2);
    assert!(matches!(ev[0], VoiceEvent::StartedStreaming));
    assert!(matches!(ev[1], VoiceEvent::Muted));
    assert!(Handler::voice_state_update(&Some(new), &old).is_empty());
}

#[test]
fn leaving_while_muting_marks_the_mute_start() {
    let mut h = Handler::new(DataFile::new_default());
    let quiet = idle(Some(5));
    replay(&mut h, None, quiet, 1_000);
    let mut gone_muted = idle(None);
    gone_muted.self_mute = true;
    let ev = Handler::voice_state_update(&Some(quiet), &gone_muted);
    assert_eq!(ev.len(), 2);
    assert!(matches!(ev[0], VoiceEvent::Left { .. }));
    assert!(matches!(ev[1], VoiceEvent::Muted));
    replay(&mut h, Some(quiet), gone_muted, 7_000);
    let m = &h.db.members[0];
    assert_eq!(m.last_mute, 7_000);
    assert_eq!(m.time, 6_000);
    assert_eq!(m.time_muted, 0);
    replay(&mut h, Some(gone_muted), idle(None), 9_000);
    assert_eq!(h.db.members[0].time_muted, 0);
}

#[test]
fn camera_on_while_outside_marks_its_start() {
    let mut d = DataFile::new_default();
    d.members.push(member(1, "u", 0, 100));
    let mut h = Handler::new(d);
    let mut cam = idle(None);
    cam.self_video = true;
    replay(&mut h, Some(idle(None)), cam, 4_000);
    assert_eq!(h.db.members[0].last_video, 4_000);
    assert_eq!(h.db.members[0].time_video, 0);
}

#[test]
fn joining_with_a_state_on_starts_it_again() {
    let mut old = idle(None);
    old.self_video = false;
    let mut new = idle(Some(3));
    new.self_video = true;
    let ev = Handler::voice_state_update(&Some(old), &new);
    assert_eq!(ev.len(), 2);
    assert!(matches!(ev[0], VoiceEvent::Joined { channel_id: 3, .. }));
    assert!(matches!(ev[1], VoiceEvent::StartedVideo));
}

#[test]
fn leaving_gives_left_with_old_state() {
    let mut old = idle(Some(8));
    old.self_stream = Some(true);
    let ev = Handler::voice_state_update(&Some(old), &idle(None));
    assert_eq!(ev.len(), 1);
    match ev[0] {
        VoiceEvent::Left { channel_id, state } => {
            assert_eq!(channel_id, 8);
            assert_eq!(state.self_stream, Some(true));
        }
        _ => panic!("expected a leave"),
    }
}

fn replay(h: &mut Handler, old: Option<VoiceSnapshot>, new: VoiceSnapshot, now: i64) {
    for ev in Handler::voice_state_update(&old, &new).iter() {
        h.record(ev, 1, "u", None, now);
    }
}

#[test]
fn leaving_while_streaming_counts_the_stream_once() {
    let mut h = Handler::new(DataFile::new_default());
    let mut streaming = idle(Some(5));
    streaming.self_stream = Some(true);
    replay(&mut h, None, streaming, 1_000);
    replay(&mut h, Some(streaming), idle(None), 61_000);
    assert_eq!(h.db.members[0].time, 60_000);
    assert_eq!(h.db.members[0].time_streaming, 60_000);
}

#[test]
fn server_mute_mid_session_counts_from_its_start() {
    let mut h = Handler::new(DataFile::new_default());
    let quiet = idle(Some(5));
    replay(&mut h, None, quiet, 0);
    let mut muted = quiet;
    muted.mute = true;
    replay(&mut h, Some(quiet), muted, 90_000);
    replay(&mut h, Some(muted), idle(None), 99_000);
    assert_eq!(h.db.members[0].time, 99_000);
    assert_eq!(h.db.members[0].time_muted, 9_000);
}

#[test]
fn moving_while_on_camera_counts_each_span_once() {
    let mut h = Handler::new(DataFile::new_default());
    let mut a = idle(Some(1));
    a.self_video = true;
    let mut b = idle(Some(2));
    b.self_video = true;
    replay(&mut h, None, a, 0);
    replay(&mut h, Some(a), b, 10_000);
    replay(&mut h, Some(b), idle(None), 25_000);
    assert_eq!(h.db.members[0].time, 25_000);
    assert_eq!(h.db.members[0].time_video, 25_000);
    assert_eq!(h.db.channels[0].time, 10_000);
    assert_eq!(h.db.channels[1].time, 15_000);
    let members: i64 = h.db.members.iter().map(|m| m.time).sum();
    let channels: i64 = h.db.channels.iter().map(|c| c.time).sum();
    assert_eq!(members, channels);
}

