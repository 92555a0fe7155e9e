use vstd::prelude::*;
use crate::clock::{elapsed, elapsed_millis};
use crate::model::{member_pos, ChannelView, DataFile, DataFileView, MemberView};
use crate::ranking::{is_top_ranking, rank_top, top_ranking};
use crate::text::{
    duration_text, format_millis, push_signed_decimal, seconds_of, signed_decimal,
};

verus! {

/// The colour of a reply's side bar.
#[derive(Clone, Copy, PartialEq, Eq, Structural)]
pub enum EmbedColor {
    Gold,
    Blurple,
    Red,
}

/// A titled value shown in a reply.
pub struct EmbedField {
    pub name: String,
    pub value: String,
    pub inline: bool,
}

/// A reply to a command, as the chat client lays it out.
pub struct Reply {
    pub title: String,
    pub description: Option<String>,
    pub color: EmbedColor,
    /// Whether the reply shows the avatar of the member it is about.
    pub thumbnail: bool,
    pub fields: Vec<EmbedField>,
}

pub struct FieldView {
    pub name: Seq<char>,
    pub value: Seq<char>,
    pub inline: bool,
}

pub struct ReplyView {
    pub title: Seq<char>,
    pub description: Option<Seq<char>>,
    pub color: EmbedColor,
    pub thumbnail: bool,
    pub fields: Seq<FieldView>,
}

impl View for EmbedField {
    type V = FieldView;

    open spec fn view(&self) -> FieldView {
        FieldView { name: self.name@, value: self.value@, inline: self.inline }
    }
}

impl View for Reply {
    type V = ReplyView;

    open spec fn view(&self) -> ReplyView {
        ReplyView {
            title: self.title@,
            description: match self.description {
                Some(d) => Some(d@),
                None => None,
            },
            color: self.color,
            thumbnail: self.thumbnail,
            fields: self.fields@.map_values(|f: EmbedField| f@),
        }
    }
}

pub open spec fn field(name: Seq<char>, value: Seq<char>, inline: bool) -> FieldView {
    FieldView { name, value, inline }
}

/// The requested number of entries, 10 when none is given, kept within 1..=max.
pub open spec fn clamp_limit(limit: Option<usize>, max: nat) -> nat {
    let l: nat = match limit {
        Some(x) => x as nat,
        None => 10,
    };
    if l < 1 {
        1
    } else if l > max {
        max
    } else {
        l
    }
}

fn clamp_limit_exec(limit: Option<usize>, max: usize) -> (r: usize)
    requires
        max >= 1,
    ensures
        r as nat == clamp_limit(limit, max as nat),
{
    let l: usize = match limit {
        Some(x) => x,
        None => 10,
    };
    if l < 1 {
        1
    } else if l > max {
        max
    } else {
        l
    }
}

/// The medal in front of a ranking line.
pub open spec fn medal(pos: int) -> Seq<char> {
    if pos == 0 {
        "\u{1F947}"@
    } else if pos == 1 {
        "\u{1F948}"@
    } else if pos == 2 {
        "\u{1F949}"@
    } else {
        "\u{1F3C5}"@
    }
}

fn medal_str(pos: usize) -> (s: &'static str)
    ensures
        s@ == medal(pos as int),
{
    if pos == 0 {
        "\u{1F947}"
    } else if pos == 1 {
        "\u{1F948}"
    } else if pos == 2 {
        "\u{1F949}"
    } else {
        "\u{1F3C5}"
    }
}

/// One line of a ranking: medal, name in bold, and the time.
pub open spec fn rank_line(pos: int, name: Seq<char>, ms: i64) -> Seq<char> {
    medal(pos) + " **"@ + name + "** - "@ + duration_text(seconds_of(ms as int)) + "\n"@
}

fn push_rank_line(out: &mut String, pos: usize, name: &str, ms: i64)
    ensures
        final(out)@ == old(out)@ + rank_line(pos as int, name@, ms),
{
    out.append(medal_str(pos));
    out.append(" **");
    out.append(name);
    out.append("** - ");
    let d = format_millis(ms as i128);
    out.append(d.as_str());
    out.append("\n");
    assert(final(out)@ =~= old(out)@ + rank_line(pos as int, name@, ms));
}

/// The lines of a ranking, one per listed entry, in order.
pub open spec fn ranking_lines(names: Seq<Seq<char>>, times: Seq<i64>, r: Seq<usize>) -> Seq<char>
    decreases r.len(),
{
    if r.len() == 0 {
        seq![]
    } else {
        ranking_lines(names, times, r.drop_last()) + rank_line(
            r.len() - 1,
            names[r.last() as int],
            times[r.last() as int],
        )
    }
}

pub open spec fn member_names(d: DataFileView) -> Seq<Seq<char>> {
    d.members.map_values(|m: MemberView| m.username)
}

pub open spec fn member_times(d: DataFileView) -> Seq<i64> {
    d.members.map_values(|m: MemberView| m.time)
}

pub open spec fn channel_names(d: DataFileView) -> Seq<Seq<char>> {
    d.channels.map_values(|c: ChannelView| c.name)
}

pub open spec fn channel_times(d: DataFileView) -> Seq<i64> {
    d.channels.map_values(|c: ChannelView| c.time)
}

pub open spec fn quiet_server() -> Seq<char> {
    "The server has been very quiet... No data recorded !"@
}

/// The members ranked by the `leaderboard` command.
pub open spec fn leaderboard_ranking(d: DataFileView, limit: Option<usize>) -> Seq<usize> {
    top_ranking(member_times(d), clamp_limit(limit, 25))
}

/// The reply of the `leaderboard` command: the most active members, best first.
pub open spec fn leaderboard_reply(d: DataFileView, limit: Option<usize>) -> ReplyView {
    let r = leaderboard_ranking(d, limit);
    ReplyView {
        title: "\u{1F3C6} Voice channel activity ranking"@,
        description: Some(
            if r.len() == 0 {
                quiet_server()
            } else {
                ranking_lines(member_names(d), member_times(d), r)
            },
        ),
        color: EmbedColor::Gold,
        thumbnail: false,
        fields: seq![],
    }
}

impl DataFile {
    fn member_time_keys(&self) -> (keys: Vec<i64>)
        ensures
            keys@ == member_times(self@),
    {
        let mut keys: Vec<i64> = Vec::new();
        let n = self.members.len();
        for i in 0..n
            invariant
                n == self.members@.len(),
                keys@ =~= member_times(self@).take(i as int),
        {
            keys.push(self.members[i].time);
            assert(keys@ =~= member_times(self@).take(i + 1));
        }
        assert(keys@ =~= member_times(self@));
        keys
    }

    fn channel_time_keys(&self) -> (keys: Vec<i64>)
        ensures
            keys@ == channel_times(self@),
    {
        let mut keys: Vec<i64> = Vec::new();
        let n = self.channels.len();
        for i in 0..n
            invariant
                n == self.channels@.len(),
                keys@ =~= channel_times(self@).take(i as int),
        {
            keys.push(self.channels[i].time);
            assert(keys@ =~= channel_times(self@).take(i + 1));
        }
        assert(keys@ =~= channel_times(self@));
        keys
    }

    fn member_ranking_lines(&self, r: &Vec<usize>) -> (out: String)
        requires
            forall|a: int| 0 <= a < r@.len() ==> r@[a] < self@.members.len(),
        ensures
            out@ == ranking_lines(member_names(self@), member_times(self@), r@),
    {
        let mut out = String::new();
        let n = r.len();
        for p in 0..n
            invariant
                n == r@.len(),
                forall|a: int| 0 <= a < r@.len() ==> r@[a] < self@.members.len(),
                out@ == ranking_lines(member_names(self@), member_times(self@), r@.take(p as int)),
        {
            let idx = r[p];
            push_rank_line(&mut out, p, self.members[idx].username.as_str(), self.members[idx].time);
            assert(r@.take(p + 1).drop_last() =~= r@.take(p as int));
        }
        assert(r@.take(n as int) =~= r@);
        out
    }

    fn channel_ranking_lines(&self, r: &Vec<usize>) -> (out: String)
        requires
            forall|a: int| 0 <= a < r@.len() ==> r@[a] < self@.channels.len(),
        ensures
            out@ == ranking_lines(channel_names(self@), channel_times(self@), r@),
    {
        let mut out = String::new();
        let n = r.len();
        for p in 0..n
            invariant
                n == r@.len(),
                forall|a: int| 0 <= a < r@.len() ==> r@[a] < self@.channels.len(),
                out@ == ranking_lines(channel_names(self@), channel_times(self@), r@.take(p as int)),
        {
            let idx = r[p];
            push_rank_line(&mut out, p, self.channels[idx].name.as_str(), self.channels[idx].time);
            assert(r@.take(p + 1).drop_last() =~= r@.take(p as int));
        }
        assert(r@.take(n as int) =~= r@);
        out
    }
}

/// The `leaderboard` command: ranks the members by time spent in voice channels,
/// showing `limit` of them (10 by default, at least 1 and at most 25).
pub fn leaderboard(db: &DataFile, limit: Option<usize>) -> (r: Reply)
    ensures
        r@ == leaderboard_reply(db@, limit),
        is_top_ranking(member_times(db@), clamp_limit(limit, 25), leaderboard_ranking(db@, limit)),
{
    let keys = db.member_time_keys();
    let k = clamp_limit_exec(limit, 25);
    let ranking = rank_top(&keys, k);
    let description = if ranking.len() == 0 {
        String::from_str("The server has been very quiet... No data recorded !")
    } else {
        db.member_ranking_lines(&ranking)
    };
    let r = Reply {
        title: String::from_str("\u{1F3C6} Voice channel activity ranking"),
        description: Some(description),
        color: EmbedColor::Gold,
        thumbnail: false,
        fields: Vec::new(),
    };
    assert(r@.fields =~= seq![]);
    r
}

/// The sum of a list of durations.
pub open spec fn sum_of(xs: Seq<i64>) -> int
    decreases xs.len(),
{
    if xs.len() == 0 {
        0
    } else {
        sum_of(xs.drop_last()) + xs.last()
    }
}

proof fn lemma_sum_bound(xs: Seq<i64>)
    ensures
        -(xs.len() * 0x8000_0000_0000_0000) <= sum_of(xs) <= xs.len() * 0x8000_0000_0000_0000,
    decreases xs.len(),
{
    if xs.len() > 0 {
        lemma_sum_bound(xs.drop_last());
    }
}

pub open spec fn stream_times(d: DataFileView) -> Seq<i64> {
    d.members.map_values(|m: MemberView| m.time_streaming)
}

pub open spec fn video_times(d: DataFileView) -> Seq<i64> {
    d.members.map_values(|m: MemberView| m.time_video)
}

pub open spec fn muted_times(d: DataFileView) -> Seq<i64> {
    d.members.map_values(|m: MemberView| m.time_muted)
}

pub open spec fn deafened_times(d: DataFileView) -> Seq<i64> {
    d.members.map_values(|m: MemberView| m.time_defeaned)
}

/// A zero-width space, shown where the layout wants an empty cell.
pub open spec fn blank() -> Seq<char> {
    "\u{200B}"@
}

/// The text of a total given in milliseconds.
pub open spec fn total_text(ms: int) -> Seq<char> {
    duration_text(seconds_of(ms))
}

/// The channels ranked by the `server` command.
pub open spec fn server_ranking(d: DataFileView, limit: Option<usize>) -> Seq<usize> {
    top_ranking(channel_times(d), clamp_limit(limit, 20))
}

/// The reply of the `server` command: the server's totals and the most used
/// voice channels.
pub open spec fn server_reply(d: DataFileView, limit: Option<usize>) -> ReplyView {
    let r = server_ranking(d, limit);
    ReplyView {
        title: "\u{1F30D} Server's statistics"@,
        description: Some(
            "**\u{1F3C6} Voice channels ranking**\n"@ + (if r.len() == 0 {
                "No voice channel has been used.\n"@
            } else {
                ranking_lines(channel_names(d), channel_times(d), r)
            }) + "\n\u{200B}"@,
        ),
        color: EmbedColor::Blurple,
        thumbnail: false,
        fields: seq![
            field("\u{23F1}\u{FE0F} Total time"@, total_text(sum_of(member_times(d))), true),
            field("\u{1F4FA} Total time streamed"@, total_text(sum_of(stream_times(d))), true),
            field("\u{1F3A5} Total time video"@, total_text(sum_of(video_times(d))), true),
            field("\u{1F64A} Total time muted"@, total_text(sum_of(muted_times(d))), true),
            field("\u{1F3A7} Total time deafen"@, total_text(sum_of(deafened_times(d))), true),
            field(blank(), blank(), true),
        ],
    }
}

/// Totals over all members: time, streaming, camera, muted, deafened.
pub struct Totals {
    pub time: i128,
    pub streaming: i128,
    pub video: i128,
    pub muted: i128,
    pub deafened: i128,
}

impl DataFile {
    /// The five totals over all members.
    pub fn totals(&self) -> (t: Totals)
        ensures
            t.time == sum_of(member_times(self@)),
            t.streaming == sum_of(stream_times(self@)),
            t.video == sum_of(video_times(self@)),
            t.muted == sum_of(muted_times(self@)),
            t.deafened == sum_of(deafened_times(self@)),
    {
        let ghost d = self@;
        let n = self.members.len();
        let mut t = Totals { time: 0, streaming: 0, video: 0, muted: 0, deafened: 0 };
        for i in 0..n
            invariant
                n == self.members@.len(),
                d == self@,
                t.time == sum_of(member_times(d).take(i as int)),
                t.streaming == sum_of(stream_times(d).take(i as int)),
                t.video == sum_of(video_times(d).take(i as int)),
                t.muted == sum_of(muted_times(d).take(i as int)),
                t.deafened == sum_of(deafened_times(d).take(i as int)),
        {
            proof {
                lemma_sum_bound(member_times(d).take(i as int));
                lemma_sum_bound(stream_times(d).take(i as int));
                lemma_sum_bound(video_times(d).take(i as int));
                lemma_sum_bound(muted_times(d).take(i as int));
                lemma_sum_bound(deafened_times(d).take(i as int));
                assert(member_times(d).take(i + 1).drop_last() =~= member_times(d).take(i as int));
                assert(stream_times(d).take(i + 1).drop_last() =~= stream_times(d).take(i as int));
                assert(video_times(d).take(i + 1).drop_last() =~= video_times(d).take(i as int));
                assert(muted_times(d).take(i + 1).drop_last() =~= muted_times(d).take(i as int));
                assert(deafened_times(d).take(i + 1).drop_last() =~= deafened_times(d).take(i as int));
            }
            let m = &self.members[i];
            t.time = t.time + m.time as i128;
            t.streaming = t.streaming + m.time_streaming as i128;
            t.video = t.video + m.time_video as i128;
            t.muted = t.muted + m.time_muted as i128;
            t.deafened = t.deafened + m.time_defeaned as i128;
        }
        proof {
            assert(member_times(d).take(n as int) =~= member_times(d));
            assert(stream_times(d).take(n as int) =~= stream_times(d));
            assert(video_times(d).take(n as int) =~= video_times(d));
            assert(muted_times(d).take(n as int) =~= muted_times(d));
            assert(deafened_times(d).take(n as int) =~= deafened_times(d));
        }
        t
    }
}

fn make_field(name: &str, value: String, inline: bool) -> (f: EmbedField)
    ensures
        f@ == field(name@, value@, inline),
{
    EmbedField { name: String::from_str(name), value, inline }
}

/// The `server` command: the server's total times and the ranking of its voice
/// channels, showing `limit` of them (10 by default, at least 1 and at most 20).
pub fn server(db: &DataFile, limit: Option<usize>) -> (r: Reply)
    ensures
        r@ == server_reply(db@, limit),
        is_top_ranking(channel_times(db@), clamp_limit(limit, 20), server_ranking(db@, limit)),
{
    let totals = db.totals();
    let keys = db.channel_time_keys();
    let k = clamp_limit_exec(limit, 20);
    let ranking = rank_top(&keys, k);
    let mut ranking_desc = String::from_str("**\u{1F3C6} Voice channels ranking**\n");
    if ranking.len() == 0 {
        ranking_desc.append("No voice channel has been used.\n");
    } else {
        let lines = db.channel_ranking_lines(&ranking);
        ranking_desc.append(lines.as_str());
    }
    ranking_desc.append("\n\u{200B}");
    let mut fields: Vec<EmbedField> = Vec::new();
    fields.push(make_field("\u{23F1}\u{FE0F} Total time", format_millis(totals.time), true));
    fields.push(make_field("\u{1F4FA} Total time streamed", format_millis(totals.streaming), true));
    fields.push(make_field("\u{1F3A5} Total time video", format_millis(totals.video), true));
    fields.push(make_field("\u{1F64A} Total time muted", format_millis(totals.muted), true));
    fields.push(make_field("\u{1F3A7} Total time deafen", format_millis(totals.deafened), true));
    fields.push(make_field("\u{200B}", String::from_str("\u{200B}"), true));
    let r = Reply {
        title: String::from_str("\u{1F30D} Server's statistics"),
        description: Some(ranking_desc),
        color: EmbedColor::Blurple,
        thumbnail: false,
        fields,
    };
    assert(r@.fields =~= server_reply(db@, limit).fields);
    assert(r@.description == server_reply(db@, limit).description);
    r
}

/// The "last seen" cell: a chat timestamp tag, in whole seconds since the epoch.
pub open spec fn last_seen_text(ms: i64) -> Seq<char> {
    "<t:"@ + signed_decimal(ms as int / 1000) + ":R>"@
}

/// The reply of the `time` command about the member `user_id`, shown as `name`.
pub open spec fn time_reply(d: DataFileView, user_id: u64, name: Seq<char>) -> ReplyView {
    let i = member_pos(d.members, user_id);
    if i < 0 {
        ReplyView {
            title: "\u{274C} User not found"@,
            description: Some("No stats found for **"@ + name + "**."@),
            color: EmbedColor::Red,
            thumbnail: false,
            fields: seq![],
        }
    } else {
        let m = d.members[i];
        ReplyView {
            title: "\u{1F4CA} Voice channel stats of "@ + name,
            description: None,
            color: EmbedColor::Blurple,
            thumbnail: true,
            fields: seq![
                field("\u{23F1}\u{FE0F} Total time"@, total_text(m.time as int), false),
                field("\u{1F64A} Mute"@, total_text(m.time_muted as int), true),
                field("\u{1F3A7} Deaf"@, total_text(m.time_defeaned as int), true),
                field(blank(), blank(), true),
                field("\u{1F4FA} Streaming"@, total_text(m.time_streaming as int), true),
                field("\u{1F3A5} Video"@, total_text(m.time_video as int), true),
                field(blank(), blank(), true),
                field("\u{1F4C5} Last seen"@, last_seen_text(m.last_active), false),
            ],
        }
    }
}

/// Whole seconds since the epoch of a millisecond timestamp, rounded down.
fn floor_seconds(ms: i64) -> (s: i64)
    ensures
        s as int == ms as int / 1000,
{
    if ms >= 0 {
        ms / 1000
    } else {
        let magnitude: i128 = -(ms as i128);
        let up: i128 = (magnitude + 999) / 1000;
        assert(-up == ms as int / 1000) by (nonlinear_arith)
            requires
                magnitude == -(ms as int),
                magnitude > 0,
                up == (magnitude + 999) / 1000,
        ;
        (-up) as i64
    }
}

/// The `time` command: the times of the member `user_id`, shown under `name`,
/// or a notice that nothing was recorded for them.
pub fn time(db: &DataFile, user_id: u64, name: &str) -> (r: Reply)
    ensures
        r@ == time_reply(db@, user_id, name@),
{
    match db.member_index(user_id) {
        None => {
            let mut description = String::from_str("No stats found for **");
            description.append(name);
            description.append("**.");
            let r = Reply {
                title: String::from_str("\u{274C} User not found"),
                description: Some(description),
                color: EmbedColor::Red,
                thumbnail: false,
                fields: Vec::new(),
            };
            assert(r@.fields =~= seq![]);
            r
        },
        Some(i) => {
            let m = &db.members[i];
            let mut title = String::from_str("\u{1F4CA} Voice channel stats of ");
            title.append(name);
            let mut last_seen = String::from_str("<t:");
            push_signed_decimal(&mut last_seen, floor_seconds(m.last_active));
            last_seen.append(":R>");
            let mut fields: Vec<EmbedField> = Vec::new();
            fields.push(make_field("\u{23F1}\u{FE0F} Total time", format_millis(m.time as i128), false));
            fields.push(make_field("\u{1F64A} Mute", format_millis(m.time_muted as i128), true));
            fields.push(make_field("\u{1F3A7} Deaf", format_millis(m.time_defeaned as i128), true));
            fields.push(make_field("\u{200B}", String::from_str("\u{200B}"), true));
            fields.push(make_field("\u{1F4FA} Streaming", format_millis(m.time_streaming as i128), true));
            fields.push(make_field("\u{1F3A5} Video", format_millis(m.time_video as i128), true));
            fields.push(make_field("\u{200B}", String::from_str("\u{200B}"), true));
            fields.push(make_field("\u{1F4C5} Last seen", last_seen, false));
            let r = Reply {
                title,
                description: None,
                color: EmbedColor::Blurple,
                thumbnail: true,
                fields,
            };
            assert(r@.fields =~= time_reply(db@, user_id, name@).fields);
            r
        },
    }
}

/// The text of the `ping` command for a command sent at `created_at` and
/// answered at `now` (both in milliseconds since the epoch).
pub open spec fn latency_text(now: i64, created_at: i64) -> Seq<char> {
    signed_decimal(elapsed(now, created_at) as int) + " ms"@
}

/// The `ping` command: how long the bot took to answer a command sent at
/// `created_at` and answered at `now` (both in milliseconds since the epoch).
pub fn ping(now: i64, created_at: i64) -> (r: String)
    ensures
        r@ == latency_text(now, created_at),
{
    let mut out = String::new();
    push_signed_decimal(&mut out, elapsed_millis(now, created_at));
    out.append(" ms");
    assert(out@ =~= latency_text(now, created_at));
    out
}

} // verus!
