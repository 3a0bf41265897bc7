//! A short memory of each channel's recent messages, so that the latest edit
//! or deletion in a channel can be shown again for a little while.

use vstd::prelude::*;
use vstd::hash_map::HashMapWithView;
use crate::clock::now_millis;

verus! {

broadcast use vstd::std_specs::hash::group_hash_axioms;

/// How long, in milliseconds, an edit or deletion can be sniped.
pub const SNIPE_WINDOW_MS: i64 = 30_000;

/// A channel's log drops its oldest message once it holds more than this.
pub const CHANNEL_LOG_LIMIT: usize = 50;

#[derive(Debug)]
pub enum SnipeContent {
    /// The text of a deleted message.
    Delete(String),
    /// The text of an edited message before and after the edit.
    Edit(String, String),
}

#[derive(Debug)]
pub struct SnipeData {
    /// The author's display name and avatar address.
    pub author: (String, String),
    pub content: SnipeContent,
    /// When it happened, in milliseconds since the Unix epoch.
    pub timestamp: i64,
}

/// A message as the log keeps it.
#[derive(Debug)]
pub struct CachedMessage {
    pub id: u64,
    pub author: (String, String),
    pub content: String,
}

/// Whether something that happened at `at` can still be sniped at `now`.
pub open spec fn fresh(at: i64, now: i64) -> bool {
    now as int - at as int <= SNIPE_WINDOW_MS as int
}

/// The latest edit or deletion in one channel.
#[derive(Debug)]
pub struct SnipeEntry {
    data: Option<SnipeData>,
}

impl SnipeEntry {
    pub closed spec fn data_spec(&self) -> Option<SnipeData> {
        self.data
    }

    pub fn new() -> (r: SnipeEntry)
        ensures
            r.data_spec() is None,
    {
        SnipeEntry { data: None }
    }

    /// Records the latest edit or deletion, replacing the one before.
    pub fn set(&mut self, data: SnipeData)
        ensures
            final(self).data_spec() == Some(data),
    {
        self.data = Some(data);
    }

    /// The latest edit or deletion, while it is fresh at `now`.
    pub fn get_at(&self, now: i64) -> (r: Option<&SnipeData>)
        ensures
            match self.data_spec() {
                Some(d) => if fresh(d.timestamp, now) {
                    r matches Some(x) && *x == d
                } else {
                    r is None
                },
                None => r is None,
            },
    {
        match &self.data {
            Some(d) => if (now as i128) - (d.timestamp as i128) <= SNIPE_WINDOW_MS as i128 {
                Some(d)
            } else {
                None
            },
            None => None,
        }
    }

    /// The latest edit or deletion, while it is fresh now.
    pub fn get(&self) -> (r: Option<&SnipeData>)
        ensures
            r matches Some(x) ==> self.data_spec() == Some(*x),
    {
        self.get_at(now_millis())
    }
}

impl Default for SnipeEntry {
    fn default() -> (r: SnipeEntry)
        ensures
            r.data_spec() is None,
    {
        SnipeEntry::new()
    }
}

/// A log after `m` arrives: newest first, and once it holds more than the
/// limit its oldest message goes first.
pub open spec fn logged(log: Seq<CachedMessage>, m: CachedMessage) -> Seq<CachedMessage> {
    let kept = if log.len() > CHANNEL_LOG_LIMIT {
        log.drop_last()
    } else {
        log
    };
    seq![m] + kept
}

/// The position of the first message of `log` with identity `id`.
pub open spec fn position_of(log: Seq<CachedMessage>, id: u64) -> Option<int> {
    if exists|i: int| 0 <= i < log.len() && (#[trigger] log[i]).id == id {
        Some(choose|i: int| 0 <= i < log.len() && (#[trigger] log[i]).id == id && forall|j: int| 0 <= j < i ==> (#[trigger] log[j]).id != id)
    } else {
        None
    }
}

proof fn lemma_position(log: Seq<CachedMessage>, id: u64)
    ensures
        match position_of(log, id) {
            Some(i) => 0 <= i < log.len() && log[i].id == id && forall|j: int| 0 <= j < i ==> (#[trigger] log[j]).id != id,
            None => forall|i: int| 0 <= i < log.len() ==> (#[trigger] log[i]).id != id,
        },
{
    if exists|i: int| 0 <= i < log.len() && (#[trigger] log[i]).id == id {
        let i = choose|i: int| 0 <= i < log.len() && (#[trigger] log[i]).id == id;
        lemma_first_position(log, id, i);
    }
}

proof fn lemma_first_position(log: Seq<CachedMessage>, id: u64, k: int)
    requires
        0 <= k < log.len(),
        log[k].id == id,
    ensures
        exists|i: int| 0 <= i < log.len() && (#[trigger] log[i]).id == id && forall|j: int| 0 <= j < i ==> (#[trigger] log[j]).id != id,
    decreases k,
{
    if exists|j: int| 0 <= j < k && (#[trigger] log[j]).id == id {
        let j = choose|j: int| 0 <= j < k && (#[trigger] log[j]).id == id;
        lemma_first_position(log, id, j);
    } else {
        assert(forall|j: int| 0 <= j < k ==> (#[trigger] log[j]).id != id);
    }
}

/// Recent messages and the latest edit or deletion, per channel.
pub struct SnipeState {
    cache: HashMapWithView<u64, Vec<CachedMessage>>,
    map: HashMapWithView<u64, SnipeEntry>,
}

impl SnipeState {
    pub closed spec fn log_of(&self, channel: u64) -> Seq<CachedMessage> {
        if self.cache@.contains_key(channel) {
            self.cache@[channel]@
        } else {
            Seq::empty()
        }
    }

    pub closed spec fn entry_of(&self, channel: u64) -> Option<SnipeData> {
        if self.map@.contains_key(channel) {
            self.map@[channel].data_spec()
        } else {
            None
        }
    }

    pub fn new() -> (r: SnipeState)
        ensures
            forall|c: u64| (#[trigger] r.log_of(c)).len() == 0,
            forall|c: u64| (#[trigger] r.entry_of(c)) is None,
    {
        SnipeState { cache: HashMapWithView::new(), map: HashMapWithView::new() }
    }

    /// The recent messages of `channel`, newest first.
    pub fn log(&self, channel: u64) -> (r: Option<&Vec<CachedMessage>>)
        ensures
            match r {
                Some(v) => v@ == self.log_of(channel),
                None => self.log_of(channel).len() == 0,
            },
    {
        self.cache.get(&channel)
    }

    fn take_log(&mut self, channel: u64) -> (r: Vec<CachedMessage>)
        ensures
            r@ == old(self).log_of(channel),
            final(self).cache@ == old(self).cache@.remove(channel),
            final(self).map@ == old(self).map@,
    {
        match self.cache.remove(&channel) {
            Some(v) => v,
            None => Vec::new(),
        }
    }

    fn find(log: &Vec<CachedMessage>, id: u64) -> (r: Option<usize>)
        ensures
            match r {
                Some(i) => position_of(log@, id) == Some(i as int),
                None => position_of(log@, id) is None,
            },
    {
        let mut i: usize = 0;
        while i < log.len()
            invariant
                i <= log@.len(),
                forall|j: int| 0 <= j < i ==> (#[trigger] log@[j]).id != id,
            decreases log@.len() - i,
        {
            if log[i].id == id {
                proof {
                    let k = choose|k: int| 0 <= k < log@.len() && (#[trigger] log@[k]).id == id && forall|j: int| 0 <= j < k ==> (#[trigger] log@[j]).id != id;
                    assert(k == i) by {
                        if k < i {
                        } else if k > i {
                            assert(log@[i as int].id == id);
                        }
                    }
                }
                return Some(i);
            }
            i = i + 1;
        }
        None
    }

    fn set_entry(&mut self, channel: u64, data: SnipeData)
        ensures
            final(self).cache@ == old(self).cache@,
            forall|c: u64| c != channel ==> #[trigger] final(self).entry_of(c) == old(self).entry_of(c),
            final(self).entry_of(channel) == Some(data),
    {
        let mut entry = match self.map.remove(&channel) {
            Some(e) => e,
            None => SnipeEntry::new(),
        };
        entry.set(data);
        self.map.insert(channel, entry);
    }

    /// A new message arrives in `channel`.
    pub fn recv_msg(&mut self, channel: u64, msg: CachedMessage)
        ensures
            final(self).log_of(channel) == logged(old(self).log_of(channel), msg),
            forall|c: u64| c != channel ==> #[trigger] final(self).log_of(c) == old(self).log_of(c),
            forall|c: u64| #[trigger] final(self).entry_of(c) == old(self).entry_of(c),
    {
        let mut log = self.take_log(channel);
        if log.len() > CHANNEL_LOG_LIMIT {
            log.pop();
        }
        let ghost kept = log@;
        log.insert(0, msg);
        assert(log@ =~= seq![msg] + kept);
        self.cache.insert(channel, log);
    }

    /// Message `id` in `channel` was edited to `content` at `now`. If the log
    /// holds it, its text before the edit becomes the channel's latest
    /// snipe, and the log keeps the new text.
    pub fn recv_msg_update(&mut self, channel: u64, id: u64, content: String, now: i64)
        ensures
            forall|c: u64| c != channel ==> #[trigger] final(self).log_of(c) == old(self).log_of(c),
            forall|c: u64| c != channel ==> #[trigger] final(self).entry_of(c) == old(self).entry_of(c),
            match position_of(old(self).log_of(channel), id) {
                None => final(self).log_of(channel) == old(self).log_of(channel)
                    && final(self).entry_of(channel) == old(self).entry_of(channel),
                Some(i) => {
                    let m = old(self).log_of(channel)[i];
                    &&& final(self).log_of(channel).len() == old(self).log_of(channel).len()
                    &&& forall|j: int| 0 <= j < old(self).log_of(channel).len() && j != i
                        ==> #[trigger] final(self).log_of(channel)[j] == old(self).log_of(channel)[j]
                    &&& final(self).log_of(channel)[i].id == id
                    &&& final(self).log_of(channel)[i].content@ == content@
                    &&& final(self).log_of(channel)[i].author == m.author
                    &&& final(self).entry_of(channel) is Some
                    &&& final(self).entry_of(channel).unwrap().timestamp == now
                    &&& final(self).entry_of(channel).unwrap().author.0@ == m.author.0@
                    &&& final(self).entry_of(channel).unwrap().author.1@ == m.author.1@
                    &&& final(self).entry_of(channel).unwrap().content matches SnipeContent::Edit(before, after)
                    &&& final(self).entry_of(channel).unwrap().content->Edit_0 == m.content
                    &&& final(self).entry_of(channel).unwrap().content->Edit_1@ == content@
                },
            },
    {
        let mut log = self.take_log(channel);
        let ghost old_log = log@;
        proof {
            lemma_position(old_log, id);
        }
        match Self::find(&log, id) {
            Some(i) => {
                let CachedMessage { id: mid, author: a, content: before } = log.remove(i);
                let author = (a.0.clone(), a.1.clone());
                let m = CachedMessage { id: mid, author: a, content: content.clone() };
                let data = SnipeData { author, content: SnipeContent::Edit(before, content), timestamp: now };
                log.insert(i, m);
                self.cache.insert(channel, log);
                self.set_entry(channel, data);
            },
            None => {
                self.cache.insert(channel, log);
                proof {
                    if old(self).cache@.contains_key(channel) {
                        assert(old(self).cache@.remove(channel).insert(channel, old(self).cache@[channel]) =~= old(self).cache@);
                    }
                }
            },
        }
    }

    /// Message `id` in `channel` was deleted at `now`. If the log holds it,
    /// its text becomes the channel's latest snipe.
    pub fn recv_msg_delete(&mut self, channel: u64, id: u64, now: i64)
        ensures
            forall|c: u64| #[trigger] final(self).log_of(c) == old(self).log_of(c),
            forall|c: u64| c != channel ==> #[trigger] final(self).entry_of(c) == old(self).entry_of(c),
            match position_of(old(self).log_of(channel), id) {
                None => final(self).entry_of(channel) == old(self).entry_of(channel),
                Some(i) => {
                    let m = old(self).log_of(channel)[i];
                    &&& final(self).entry_of(channel) is Some
                    &&& final(self).entry_of(channel).unwrap().timestamp == now
                    &&& final(self).entry_of(channel).unwrap().author.0@ == m.author.0@
                    &&& final(self).entry_of(channel).unwrap().author.1@ == m.author.1@
                    &&& final(self).entry_of(channel).unwrap().content matches SnipeContent::Delete(text)
                    &&& final(self).entry_of(channel).unwrap().content->Delete_0@ == m.content@
                },
            },
    {
        let found: Option<SnipeData> = match self.cache.get(&channel) {
            Some(log) => {
                proof {
                    lemma_position(log@, id);
                }
                match Self::find(log, id) {
                    Some(i) => {
                        let m = &log[i];
                        Some(SnipeData {
                            author: (m.author.0.clone(), m.author.1.clone()),
                            content: SnipeContent::Delete(m.content.clone()),
                            timestamp: now,
                        })
                    },
                    None => None,
                }
            },
            None => None,
        };
        match found {
            Some(data) => self.set_entry(channel, data),
            None => {},
        }
    }

    /// The latest edit or deletion in `channel`, while it is fresh at `now`.
    pub fn snipe_at(&self, channel: u64, now: i64) -> (r: Option<&SnipeData>)
        ensures
            match self.entry_of(channel) {
                Some(d) => if fresh(d.timestamp, now) {
                    r matches Some(x) && *x == d
                } else {
                    r is None
                },
                None => r is None,
            },
    {
        match self.map.get(&channel) {
            Some(e) => e.get_at(now),
            None => None,
        }
    }

    /// The latest edit or deletion in `channel`, while it is fresh now.
    pub fn snipe(&self, channel: u64) -> (r: Option<&SnipeData>)
        ensures
            r matches Some(x) ==> self.entry_of(channel) == Some(*x),
    {
        match self.map.get(&channel) {
            Some(e) => e.get(),
            None => None,
        }
    }
}

impl Default for SnipeState {
    fn default() -> (r: SnipeState)
        ensures
            forall|c: u64| (#[trigger] r.log_of(c)).len() == 0,
            forall|c: u64| (#[trigger] r.entry_of(c)) is None,
    {
        SnipeState::new()
    }
}

} // verus!
