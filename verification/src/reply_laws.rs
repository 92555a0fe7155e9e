use vstd::prelude::*;
use crate::commands::{
    blank, clamp_limit, last_seen_text, leaderboard_reply, quiet_server, ranking_lines, server_reply,
    sum_of, time_reply, total_text, EmbedColor,
};
use crate::model::{lemma_first_member_is_pos, ChannelView, DataFileView, MemberView};
use crate::ranking::{is_top_ranking, lemma_top_ranking_unique, top_ranking};

verus! {

/// The number of entries asked for: 10 when none is given, otherwise the number
/// given, raised to 1 and capped at `max`.
pub proof fn lemma_clamp_limit(limit: Option<usize>, max: nat)
    requires
        max >= 10,
    ensures
        limit is None ==> clamp_limit(limit, max) == 10,
        forall|x: usize| limit == Some(x) && 1 <= x && x <= max ==> clamp_limit(limit, max) == x,
        limit == Some(0usize) ==> clamp_limit(limit, max) == 1,
        forall|x: usize| limit == Some(x) && x > max ==> clamp_limit(limit, max) == max,
{
}

/// Any top ranking of `keys` is the one the replies use.
proof fn lemma_is_the_top_ranking(keys: Seq<i64>, k: nat, r: Seq<usize>)
    requires
        is_top_ranking(keys, k, r),
    ensures
        top_ranking(keys, k) == r,
{
    let c = top_ranking(keys, k);
    assert(is_top_ranking(keys, k, c));
    lemma_top_ranking_unique(keys, k, r, c);
}

/// The leaderboard ranks members by their total voice time: whatever list `r`
/// shows, best first, the members with the most voice time (at most the number
/// asked for, 10 by default, between 1 and 25; equal times in stored order),
/// the description is exactly the lines of `r`, with each member's name and
/// voice time, or the "quiet server" notice when there is no member.
pub proof fn lemma_leaderboard_ranks_by_voice_time(d: DataFileView, limit: Option<usize>, r: Seq<usize>)
    requires
        is_top_ranking(d.members.map_values(|m: MemberView| m.time), clamp_limit(limit, 25), r),
    ensures
        leaderboard_reply(d, limit).description == Some(
            if d.members.len() == 0 {
                quiet_server()
            } else {
                ranking_lines(
                    d.members.map_values(|m: MemberView| m.username),
                    d.members.map_values(|m: MemberView| m.time),
                    r,
                )
            },
        ),
        r.len() == if clamp_limit(limit, 25) < d.members.len() {
            clamp_limit(limit, 25)
        } else {
            d.members.len() as nat
        },
        leaderboard_reply(d, limit).title == "\u{1F3C6} Voice channel activity ranking"@,
        leaderboard_reply(d, limit).color == EmbedColor::Gold,
        leaderboard_reply(d, limit).fields.len() == 0,
{
    lemma_is_the_top_ranking(d.members.map_values(|m: MemberView| m.time), clamp_limit(limit, 25), r);
    assert(clamp_limit(limit, 25) >= 1);
}

/// The server reply ranks channels by their total time: whatever list `r`
/// shows, best first, the most used channels (at most the number asked for, 10
/// by default, between 1 and 20; equal times in stored order), the description
/// is the heading, the lines of `r` (or a notice when no channel was used), and
/// a blank line; the fields give the sums over all members of the voice,
/// streaming, camera, muted and deafened times.
pub proof fn lemma_server_ranks_channels_and_sums(d: DataFileView, limit: Option<usize>, r: Seq<usize>)
    requires
        is_top_ranking(d.channels.map_values(|c: ChannelView| c.time), clamp_limit(limit, 20), r),
    ensures
        server_reply(d, limit).description == Some(
            "**\u{1F3C6} Voice channels ranking**\n"@ + (if d.channels.len() == 0 {
                "No voice channel has been used.\n"@
            } else {
                ranking_lines(
                    d.channels.map_values(|c: ChannelView| c.name),
                    d.channels.map_values(|c: ChannelView| c.time),
                    r,
                )
            }) + "\n\u{200B}"@,
        ),
        r.len() == if clamp_limit(limit, 20) < d.channels.len() {
            clamp_limit(limit, 20)
        } else {
            d.channels.len() as nat
        },
        server_reply(d, limit).fields.len() == 6,
        server_reply(d, limit).fields[0].value == total_text(sum_of(d.members.map_values(|m: MemberView| m.time))),
        server_reply(d, limit).fields[1].value == total_text(
            sum_of(d.members.map_values(|m: MemberView| m.time_streaming)),
        ),
        server_reply(d, limit).fields[2].value == total_text(sum_of(d.members.map_values(|m: MemberView| m.time_video))),
        server_reply(d, limit).fields[3].value == total_text(sum_of(d.members.map_values(|m: MemberView| m.time_muted))),
        server_reply(d, limit).fields[4].value == total_text(
            sum_of(d.members.map_values(|m: MemberView| m.time_defeaned)),
        ),
{
    lemma_is_the_top_ranking(d.channels.map_values(|c: ChannelView| c.time), clamp_limit(limit, 20), r);
    assert(clamp_limit(limit, 20) >= 1);
}

/// The `time` reply is about the member asked for: when the first stored member
/// with that id is at position `i`, every value shown is that member's (voice
/// time, muted, deafened, streaming, camera, and when they were last active).
pub proof fn lemma_time_reply_shows_that_member(d: DataFileView, user_id: u64, name: Seq<char>, i: int)
    requires
        0 <= i < d.members.len(),
        d.members[i].id == user_id,
        forall|j: int| 0 <= j < i ==> d.members[j].id != user_id,
    ensures
        ({
            let r = time_reply(d, user_id, name);
            let m = d.members[i];
            &&& r.title == "\u{1F4CA} Voice channel stats of "@ + name
            &&& r.color == EmbedColor::Blurple
            &&& r.thumbnail
            &&& r.description is None
            &&& r.fields.len() == 8
            &&& r.fields[0].value == total_text(m.time as int)
            &&& r.fields[1].value == total_text(m.time_muted as int)
            &&& r.fields[2].value == total_text(m.time_defeaned as int)
            &&& r.fields[3].value == blank()
            &&& r.fields[4].value == total_text(m.time_streaming as int)
            &&& r.fields[5].value == total_text(m.time_video as int)
            &&& r.fields[6].value == blank()
            &&& r.fields[7].value == last_seen_text(m.last_active)
        }),
{
    lemma_first_member_is_pos(d.members, user_id, i);
}

/// The `time` reply for an id no stored member has says so, naming who was asked for.
pub proof fn lemma_time_reply_unknown_member(d: DataFileView, user_id: u64, name: Seq<char>)
    requires
        forall|j: int| 0 <= j < d.members.len() ==> d.members[j].id != user_id,
    ensures
        time_reply(d, user_id, name).title == "\u{274C} User not found"@,
        time_reply(d, user_id, name).description == Some("No stats found for **"@ + name + "**."@),
        time_reply(d, user_id, name).color == EmbedColor::Red,
        time_reply(d, user_id, name).fields.len() == 0,
{
    crate::model::lemma_member_pos_facts(d.members, user_id);
}

} // verus!
