use vocal_time_counter::commands::{
    leaderboard, ping, server, time, EmbedColor, Reply,
};
use vocal_time_counter::config::parse_guild_id;
use vocal_time_counter::model::{Channel, DataFile, Member};
use vocal_time_counter::ranking::rank_top;
use vocal_time_counter::text::{format_duration, format_millis};

fn member(id: u64, name: &str, time: i64) -> Member {
    Member {
        id,
        username: name.to_string(),
        time,
        time_muted: 1_000,
        time_defeaned: 2_000,
        time_streaming: 3_000,
        time_video: 4_000,
        last_active: 1_700_000_000_123,
        last_mute: 0,
        last_deafen: 0,
        last_stream: 0,
        last_video: 0,
    }
}

fn fields(r: &Reply) -> Vec<(String, String, bool)> {
    r.fields.iter().map(|f| (f.name.clone(), f.value.clone(), f.inline)).collect()
}

#[test]
fn duration_formats() {
    assert_eq!(format_duration(0), "0s");
    assert_eq!(format_duration(59), "59s");
    assert_eq!(format_duration(60), "1m 00s");
    assert_eq!(format_duration(65), "1m 05s");
    assert_eq!(format_duration(3_600), "1h 00m 00s");
    assert_eq!(format_duration(3_723), "1h 02m 03s");
    assert_eq!(format_duration(-5), "0s");
    assert_eq!(format_duration(360_000), "100h 00m 00s");
    assert_eq!(format_duration(i128::MAX), "5124095576030431h 00m 15s");
}

#[test]
fn millis_truncate_to_seconds() {
    assert_eq!(format_millis(1_999), "1s");
    assert_eq!(format_millis(-1_500), "0s");
    assert_eq!(format_millis(61_000), "1m 01s");
}

#[test]
fn ranking_is_stable_and_descending() {
    let keys = vec![5, 9, 5, 1, 9];
    assert_eq!(rank_top(&keys, 10), vec![1, 4, 0, 2, 3]);
    assert_eq!(rank_top(&keys, 2), vec![1, 4]);
    assert_eq!(rank_top(&keys, 0), Vec::<usize>::new());
    assert_eq!(rank_top(&vec![], 3), Vec::<usize>::new());
}

#[test]
fn leaderboard_lists_top_members() {
    let mut d = DataFile::new_default();
    d.members.push(member(1, "low", 5_000));
    d.members.push(member(2, "high", 3_725_000));
    d.members.push(member(3, "mid", 65_000));
    d.members.push(member(4, "tail", 1_000));
    let r = leaderboard(&d, None);
    assert_eq!(r.title, "\u{1F3C6} Voice channel activity ranking");
    assert!(r.color == EmbedColor::Gold);
    assert!(r.fields.is_empty());
    assert_eq!(
        r.description.clone().unwrap(),
        "\u{1F947} **high** - 1h 02m 05s\n\u{1F948} **mid** - 1m 05s\n\u{1F949} **low** - 5s\n\u{1F3C5} **tail** - 1s\n"
    );
    let two = leaderboard(&d, Some(2));
    assert_eq!(two.description.unwrap().lines().count(), 2);
    let one = leaderboard(&d, Some(0));
    assert_eq!(one.description.unwrap(), "\u{1F947} **high** - 1h 02m 05s\n");
}

#[test]
fn leaderboard_limit_is_capped() {
    let mut d = DataFile::new_default();
    for i in 0..30 {
        d.members.push(member(i, "m", i as i64));
    }
    assert_eq!(leaderboard(&d, Some(100)).description.unwrap().lines().count(), 25);
    assert_eq!(leaderboard(&d, None).description.unwrap().lines().count(), 10);
}

#[test]
fn quiet_leaderboard() {
    let r = leaderboard(&DataFile::new_default(), Some(5));
    assert_eq!(r.description.clone().unwrap(), "The server has been very quiet... No data recorded !");
}

#[test]
fn server_totals_and_channels() {
    let mut d = DataFile::new_default();
    d.members.push(member(1, "a", 60_000));
    d.members.push(member(2, "b", 3_000));
    d.channels.push(Channel { id: 1, name: "Quiet".to_string(), time: 1_000 });
    d.channels.push(Channel { id: 2, name: "Busy".to_string(), time: 120_000 });
    let r = server(&d, None);
    assert_eq!(r.title, "\u{1F30D} Server's statistics");
    assert!(r.color == EmbedColor::Blurple);
    assert_eq!(
        r.description.clone().unwrap(),
        "**\u{1F3C6} Voice channels ranking**\n\u{1F947} **Busy** - 2m 00s\n\u{1F948} **Quiet** - 1s\n\n\u{200B}"
    );
    assert_eq!(
        fields(&r),
        vec![
            ("\u{23F1}\u{FE0F} Total time".to_string(), "1m 03s".to_string(), true),
            ("\u{1F4FA} Total time streamed".to_string(), "6s".to_string(), true),
            ("\u{1F3A5} Total time video".to_string(), "8s".to_string(), true),
            ("\u{1F64A} Total time muted".to_string(), "2s".to_string(), true),
            ("\u{1F3A7} Total time deafen".to_string(), "4s".to_string(), true),
            ("\u{200B}".to_string(), "\u{200B}".to_string(), true),
        ]
    );
}

#[test]
fn server_without_channels() {
    let r = server(&DataFile::new_default(), Some(50));
    assert_eq!(
        r.description.clone().unwrap(),
        "**\u{1F3C6} Voice channels ranking**\nNo voice channel has been used.\n\n\u{200B}"
    );
    assert_eq!(r.fields[0].value, "0s");
}

#[test]
fn server_totals_do_not_overflow() {
    let mut d = DataFile::new_default();
    d.members.push(member(1, "a", i64::MAX));
    d.members.push(member(2, "b", i64::MAX));
    let r = server(&d, None);
    assert_eq!(r.fields[0].value, format_duration(2 * (i64::MAX as i128) / 1000));
}

#[test]
fn time_of_known_member() {
    let mut d = DataFile::new_default();
    d.members.push(member(9, "stored", 3_723_000));
    let r = time(&d, 9, "Shown");
    assert_eq!(r.title, "\u{1F4CA} Voice channel stats of Shown");
    assert!(r.thumbnail);
    assert!(r.description.is_none());
    assert_eq!(
        fields(&r),
        vec![
            ("\u{23F1}\u{FE0F} Total time".to_string(), "1h 02m 03s".to_string(), false),
            ("\u{1F64A} Mute".to_string(), "1s".to_string(), true),
            ("\u{1F3A7} Deaf".to_string(), "2s".to_string(), true),
            ("\u{200B}".to_string(), "\u{200B}".to_string(), true),
            ("\u{1F4FA} Streaming".to_string(), "3s".to_string(), true),
            ("\u{1F3A5} Video".to_string(), "4s".to_string(), true),
            ("\u{200B}".to_string(), "\u{200B}".to_string(), true),
            ("\u{1F4C5} Last seen".to_string(), "<t:1700000000:R>".to_string(), false),
        ]
    );
}

#[test]
fn last_seen_rounds_down_before_epoch() {
    let mut d = DataFile::new_default();
    let mut m = member(9, "old", 0);
    m.last_active = -1_500;
    d.members.push(m);
    let r = time(&d, 9, "x");
    assert_eq!(r.fields[7].value, "<t:-2:R>");
}

#[test]
fn time_of_unknown_member() {
    let r = time(&DataFile::new_default(), 9, "Ghost");
    assert_eq!(r.title, "\u{274C} User not found");
    assert_eq!(r.description.clone().unwrap(), "No stats found for **Ghost**.");
    assert!(r.color == EmbedColor::Red);
    assert!(!r.thumbnail);
    assert!(r.fields.is_empty());
}

#[test]
fn latency_text() {
    assert_eq!(ping(1_250, 1_000), "250 ms");
    assert_eq!(ping(1_000, 1_250), "-250 ms");
    assert_eq!(ping(i64::MAX, i64::MIN), "9223372036854775807 ms");
}

#[test]
fn guild_id_parsing() {
    assert_eq!(parse_guild_id("123456789012345678"), Some(123456789012345678));
    assert_eq!(parse_guild_id("+42"), Some(42));
    assert_eq!(parse_guild_id("18446744073709551615"), Some(u64::MAX));
    assert_eq!(parse_guild_id("18446744073709551616"), None);
    assert_eq!(parse_guild_id(""), None);
    assert_eq!(parse_guild_id("+"), None);
    assert_eq!(parse_guild_id("-1"), None);
    assert_eq!(parse_guild_id(" 1"), None);
    assert_eq!(parse_guild_id("12a"), None);
    assert_eq!(parse_guild_id("007"), Some(7));
    for s in ["", "0", "99", "+5", "x", "1_0", "99999999999999999999"] {
        assert_eq!(parse_guild_id(s), s.parse::<u64>().ok());
    }
}
