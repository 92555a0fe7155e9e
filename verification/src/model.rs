use vstd::prelude::*;

verus! {

/// What is kept of a server member. Durations are in milliseconds; the `last_*`
/// fields are timestamps, in milliseconds since the Unix epoch, of the moment
/// each running span started.
pub struct Member {
    pub id: u64,
    pub username: String,
    pub time: i64,
    pub time_muted: i64,
    pub time_defeaned: i64,
    pub time_streaming: i64,
    pub time_video: i64,
    pub last_active: i64,
    pub last_mute: i64,
    pub last_deafen: i64,
    pub last_stream: i64,
    pub last_video: i64,
}

/// The mathematical content of a [`Member`].
pub struct MemberView {
    pub id: u64,
    pub username: Seq<char>,
    pub time: i64,
    pub time_muted: i64,
    pub time_defeaned: i64,
    pub time_streaming: i64,
    pub time_video: i64,
    pub last_active: i64,
    pub last_mute: i64,
    pub last_deafen: i64,
    pub last_stream: i64,
    pub last_video: i64,
}

impl View for Member {
    type V = MemberView;

    open spec fn view(&self) -> MemberView {
        MemberView {
            id: self.id,
            username: self.username@,
            time: self.time,
            time_muted: self.time_muted,
            time_defeaned: self.time_defeaned,
            time_streaming: self.time_streaming,
            time_video: self.time_video,
            last_active: self.last_active,
            last_mute: self.last_mute,
            last_deafen: self.last_deafen,
            last_stream: self.last_stream,
            last_video: self.last_video,
        }
    }
}

/// A voice channel and the time members spent in it, in milliseconds.
pub struct Channel {
    pub id: u64,
    pub name: String,
    pub time: i64,
}

/// The mathematical content of a [`Channel`].
pub struct ChannelView {
    pub id: u64,
    pub name: Seq<char>,
    pub time: i64,
}

impl View for Channel {
    type V = ChannelView;

    open spec fn view(&self) -> ChannelView {
        ChannelView { id: self.id, name: self.name@, time: self.time }
    }
}

/// Everything the tracker stores.
pub struct DataFile {
    pub guild_id: u64,
    pub guild_name: String,
    pub members: Vec<Member>,
    pub channels: Vec<Channel>,
}

/// The mathematical content of a [`DataFile`].
pub struct DataFileView {
    pub guild_id: u64,
    pub guild_name: Seq<char>,
    pub members: Seq<MemberView>,
    pub channels: Seq<ChannelView>,
}

impl View for DataFile {
    type V = DataFileView;

    open spec fn view(&self) -> DataFileView {
        DataFileView {
            guild_id: self.guild_id,
            guild_name: self.guild_name@,
            members: self.members@.map_values(|m: Member| m@),
            channels: self.channels@.map_values(|c: Channel| c@),
        }
    }
}

/// `i` is the first position of a member with this id.
pub open spec fn is_first_member(ms: Seq<MemberView>, id: u64, i: int) -> bool {
    &&& 0 <= i < ms.len()
    &&& ms[i].id == id
    &&& forall|j: int| 0 <= j < i ==> ms[j].id != id
}

/// Position of the first member with this id, or -1 when there is none.
pub open spec fn member_pos(ms: Seq<MemberView>, id: u64) -> int {
    if exists|i: int| is_first_member(ms, id, i) {
        choose|i: int| is_first_member(ms, id, i)
    } else {
        -1
    }
}

/// `i` is the first position of a channel with this id.
pub open spec fn is_first_channel(cs: Seq<ChannelView>, id: u64, i: int) -> bool {
    &&& 0 <= i < cs.len()
    &&& cs[i].id == id
    &&& forall|j: int| 0 <= j < i ==> cs[j].id != id
}

/// Position of the first channel with this id, or -1 when there is none.
pub open spec fn channel_pos(cs: Seq<ChannelView>, id: u64) -> int {
    if exists|i: int| is_first_channel(cs, id, i) {
        choose|i: int| is_first_channel(cs, id, i)
    } else {
        -1
    }
}

pub proof fn lemma_first_member_is_pos(ms: Seq<MemberView>, id: u64, i: int)
    requires
        is_first_member(ms, id, i),
    ensures
        member_pos(ms, id) == i,
{
    let c = choose|k: int| is_first_member(ms, id, k);
    assert(is_first_member(ms, id, c));
    if c < i {
        assert(ms[c].id != id);
    } else if i < c {
        assert(ms[i].id != id);
    }
}

pub proof fn lemma_first_channel_is_pos(cs: Seq<ChannelView>, id: u64, i: int)
    requires
        is_first_channel(cs, id, i),
    ensures
        channel_pos(cs, id) == i,
{
    let c = choose|k: int| is_first_channel(cs, id, k);
    assert(is_first_channel(cs, id, c));
    if c < i {
        assert(cs[c].id != id);
    } else if i < c {
        assert(cs[i].id != id);
    }
}

/// A member position is -1 or in range, and holds that id.
pub proof fn lemma_member_pos_facts(ms: Seq<MemberView>, id: u64)
    ensures
        member_pos(ms, id) == -1 || is_first_member(ms, id, member_pos(ms, id)),
        member_pos(ms, id) == -1 <==> forall|j: int| 0 <= j < ms.len() ==> ms[j].id != id,
{
    if exists|i: int| is_first_member(ms, id, i) {
        let c = choose|k: int| is_first_member(ms, id, k);
        assert(is_first_member(ms, id, c));
    } else {
        assert forall|j: int| 0 <= j < ms.len() implies ms[j].id != id by {
            if ms[j].id == id {
                lemma_some_first_member(ms, id, j);
            }
        }
    }
}

/// If some member has the id, a first one has it.
pub proof fn lemma_some_first_member(ms: Seq<MemberView>, id: u64, j: int)
    requires
        0 <= j < ms.len(),
        ms[j].id == id,
    ensures
        exists|i: int| is_first_member(ms, id, i),
    decreases j,
{
    if forall|k: int| 0 <= k < j ==> ms[k].id != id {
        assert(is_first_member(ms, id, j));
    } else {
        let k = choose|k: int| 0 <= k < j && ms[k].id == id;
        lemma_some_first_member(ms, id, k);
    }
}

/// A channel position is -1 or in range, and holds that id.
pub proof fn lemma_channel_pos_facts(cs: Seq<ChannelView>, id: u64)
    ensures
        channel_pos(cs, id) == -1 || is_first_channel(cs, id, channel_pos(cs, id)),
        channel_pos(cs, id) == -1 <==> forall|j: int| 0 <= j < cs.len() ==> cs[j].id != id,
{
    if exists|i: int| is_first_channel(cs, id, i) {
        let c = choose|k: int| is_first_channel(cs, id, k);
        assert(is_first_channel(cs, id, c));
    } else {
        assert forall|j: int| 0 <= j < cs.len() implies cs[j].id != id by {
            if cs[j].id == id {
                lemma_some_first_channel(cs, id, j);
            }
        }
    }
}

/// If some channel has the id, a first one has it.
pub proof fn lemma_some_first_channel(cs: Seq<ChannelView>, id: u64, j: int)
    requires
        0 <= j < cs.len(),
        cs[j].id == id,
    ensures
        exists|i: int| is_first_channel(cs, id, i),
    decreases j,
{
    if forall|k: int| 0 <= k < j ==> cs[k].id != id {
        assert(is_first_channel(cs, id, j));
    } else {
        let k = choose|k: int| 0 <= k < j && cs[k].id == id;
        lemma_some_first_channel(cs, id, k);
    }
}

impl DataFileView {
    /// No two members share an id, and no two channels do.
    pub open spec fn wf(self) -> bool {
        &&& forall|i: int, j: int|
            0 <= i < j < self.members.len() ==> self.members[i].id != self.members[j].id
        &&& forall|i: int, j: int|
            0 <= i < j < self.channels.len() ==> self.channels[i].id != self.channels[j].id
    }

    pub open spec fn has_member(self, id: u64) -> bool {
        exists|i: int| 0 <= i < self.members.len() && self.members[i].id == id
    }

    /// The (first) member with this id.
    pub open spec fn member(self, id: u64) -> MemberView {
        self.members[member_pos(self.members, id)]
    }
}

impl DataFile {
    /// The store a fresh installation starts from.
    pub fn new_default() -> (d: DataFile)
        ensures
            d@.guild_id == 0,
            d@.guild_name == "No server name"@,
            d@.members.len() == 0,
            d@.channels.len() == 0,
    {
        DataFile {
            guild_id: 0,
            guild_name: String::from_str("No server name"),
            members: Vec::new(),
            channels: Vec::new(),
        }
    }

    /// Position of the first member with this id.
    pub fn member_index(&self, id: u64) -> (r: Option<usize>)
        ensures
            match r {
                Some(i) => i as int == member_pos(self@.members, id),
                None => member_pos(self@.members, id) == -1 && !self@.has_member(id),
            },
    {
        let n = self.members.len();
        let mut i: usize = 0;
        while i < n
            invariant
                n == self.members@.len(),
                i <= n,
                forall|j: int| 0 <= j < i ==> self@.members[j].id != id,
            decreases n - i,
        {
            if self.members[i].id == id {
                proof {
                    lemma_first_member_is_pos(self@.members, id, i as int);
                }
                return Some(i);
            }
            i += 1;
        }
        Option::None
    }

    /// Position of the first channel with this id.
    pub fn channel_index(&self, id: u64) -> (r: Option<usize>)
        ensures
            match r {
                Some(i) => i as int == channel_pos(self@.channels, id),
                None => channel_pos(self@.channels, id) == -1,
            },
    {
        let n = self.channels.len();
        let mut i: usize = 0;
        while i < n
            invariant
                n == self.channels@.len(),
                i <= n,
                forall|j: int| 0 <= j < i ==> self@.channels[j].id != id,
            decreases n - i,
        {
            if self.channels[i].id == id {
                proof {
                    lemma_first_channel_is_pos(self@.channels, id, i as int);
                }
                return Some(i);
            }
            i += 1;
        }
        proof {
            lemma_channel_pos_facts(self@.channels, id);
        }
        Option::None
    }

    /// Position of the member with this id, which must be stored.
    pub fn member_slot(&self, id: u64) -> (i: usize)
        requires
            self@.has_member(id),
        ensures
            i as int == member_pos(self@.members, id),
            i < self@.members.len(),
            self@.members[i as int].id == id,
    {
        proof {
            lemma_member_pos_facts(self@.members, id);
        }
        match self.member_index(id) {
            Some(i) => i,
            None => {
                proof {
                    assert(false);
                }
                0
            },
        }
    }

    /// Whether a member with this id is stored.
    pub fn has_member(&self, id: u64) -> (b: bool)
        ensures
            b == self@.has_member(id),
    {
        match self.member_index(id) {
            Some(i) => {
                proof {
                    lemma_member_pos_facts(self@.members, id);
                }
                true
            },
            None => false,
        }
    }
}

} // verus!
