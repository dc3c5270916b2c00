//! The bot's small durable state: a bounded recency list of the replies it
//! sent, and the set of group chats it has seen. Both only decide; the
//! caller holds them under a lock and writes the snapshots they hand back.

use vstd::prelude::*;
use crate::text::joined;

verus! {

/// The default capacity of the reply list.
pub const REPLY_CAPACITY: usize = 200;

/// One reply the bot sent: its chat and its message.
#[derive(Debug, Clone, Copy, PartialEq, Eq)]
pub struct PlanabrainReplyRecord {
    pub chat_id: i64,
    pub message_id: i32,
}

/// The replies the bot sent, oldest first, at most `max` of them.
#[derive(Debug, Clone)]
pub struct PlanabrainReplyTracker {
    max: usize,
    items: Vec<(i64, i32)>,
}

/// The first index at or after `i` where `key` stands in `s`.
pub open spec fn first_index_from(s: Seq<(i64, i32)>, key: (i64, i32), i: int) -> Option<int>
    decreases s.len() - i,
{
    if i < 0 || i >= s.len() {
        None
    } else if s[i] == key {
        Some(i)
    } else {
        first_index_from(s, key, i + 1)
    }
}

/// `s` with `key` moved to the newest end: its first occurrence is taken out
/// and it is appended.
pub open spec fn promoted(s: Seq<(i64, i32)>, key: (i64, i32)) -> Seq<(i64, i32)> {
    match first_index_from(s, key, 0) {
        Some(i) => s.remove(i).push(key),
        None => s.push(key),
    }
}

/// The newest `max` entries of `s`.
pub open spec fn keep_newest(s: Seq<(i64, i32)>, max: nat) -> Seq<(i64, i32)> {
    if s.len() > max {
        s.subrange(s.len() - max, s.len() as int)
    } else {
        s
    }
}

pub open spec fn record_pairs(v: Seq<PlanabrainReplyRecord>) -> Seq<(i64, i32)> {
    v.map_values(|r: PlanabrainReplyRecord| (r.chat_id, r.message_id))
}

/// The newest `max` entries of `v`.
fn newest(v: &Vec<(i64, i32)>, max: usize) -> (r: Vec<(i64, i32)>)
    ensures
        r@ == keep_newest(v@, max as nat),
{
    let start: usize = if v.len() > max {
        v.len() - max
    } else {
        0
    };
    let mut out: Vec<(i64, i32)> = Vec::new();
    let mut i: usize = start;
    while i < v.len()
        invariant
            start <= i <= v@.len(),
            start == (if v@.len() > max { v@.len() - max } else { 0 }),
            out@ == v@.subrange(start as int, i as int),
        decreases v@.len() - i,
    {
        out.push(v[i]);
        i = i + 1;
    }
    proof {
        if v@.len() <= max {
            assert(v@.subrange(0, v@.len() as int) == v@);
        }
    }
    out
}

/// The first index where `(chat_id, message_id)` stands in `v`.
fn position_of(v: &Vec<(i64, i32)>, chat_id: i64, message_id: i32) -> (r: Option<usize>)
    ensures
        match r {
            Some(p) => p < v@.len() && first_index_from(v@, (chat_id, message_id), 0) == Some(
                p as int,
            ),
            None => first_index_from(v@, (chat_id, message_id), 0) is None,
        },
{
    let ghost key = (chat_id, message_id);
    let mut i: usize = 0;
    while i < v.len()
        invariant
            i <= v@.len(),
            key == (chat_id, message_id),
            first_index_from(v@, key, 0) == first_index_from(v@, key, i as int),
        decreases v@.len() - i,
    {
        let pair = v[i];
        if pair.0 == chat_id && pair.1 == message_id {
            proof {
                assert(v@[i as int] == key);
            }
            return Some(i);
        }
        proof {
            assert(v@[i as int] != key);
        }
        i = i + 1;
    }
    None
}

impl PlanabrainReplyTracker {
    pub closed spec fn view(&self) -> Seq<(i64, i32)> {
        self.items@
    }

    pub closed spec fn capacity(&self) -> nat {
        self.max as nat
    }

    /// The list never holds more than its capacity.
    pub closed spec fn wf(&self) -> bool {
        self.items@.len() <= self.max
    }

    /// An empty list of capacity `max`.
    pub fn new(max: usize) -> (r: Self)
        ensures
            r.wf(),
            r.view() == Seq::<(i64, i32)>::empty(),
            r.capacity() == max,
    {
        PlanabrainReplyTracker { max, items: Vec::new() }
    }

    /// Whether the reply `message_id` in `chat_id` is on the list.
    pub fn contains(&self, chat_id: i64, message_id: i32) -> (r: bool)
        ensures
            r == self.view().contains((chat_id, message_id)),
    {
        let mut i: usize = 0;
        while i < self.items.len()
            invariant
                i <= self.items@.len(),
                forall|k: int| 0 <= k < i ==> self.items@[k] != (chat_id, message_id),
            decreases self.items@.len() - i,
        {
            let (c, m) = self.items[i];
            if c == chat_id && m == message_id {
                proof {
                    assert(self.items@[i as int] == (chat_id, message_id));
                }
                return true;
            }
            i = i + 1;
        }
        false
    }

    /// Puts the reply at the newest end, moving it there if it is already on
    /// the list, and drops the oldest entries beyond the capacity.
    pub fn insert(&mut self, chat_id: i64, message_id: i32)
        requires
            old(self).wf(),
        ensures
            final(self).wf(),
            final(self).capacity() == old(self).capacity(),
            final(self).view() == keep_newest(
                promoted(old(self).view(), (chat_id, message_id)),
                old(self).capacity(),
            ),
    {
        let key = (chat_id, message_id);
        let found = position_of(&self.items, chat_id, message_id);
        if let Some(p) = found {
            self.items.remove(p);
        }
        self.items.push(key);
        self.items = newest(&self.items, self.max);
    }

    /// A list of capacity `max` holding the newest `max` of `records`, oldest
    /// first.
    pub fn from_records(max: usize, records: Vec<PlanabrainReplyRecord>) -> (r: Self)
        ensures
            r.wf(),
            r.capacity() == max,
            r.view() == keep_newest(record_pairs(records@), max as nat),
    {
        let mut items: Vec<(i64, i32)> = Vec::new();
        let mut i: usize = 0;
        while i < records.len()
            invariant
                i <= records@.len(),
                items@ == record_pairs(records@.subrange(0, i as int)),
            decreases records@.len() - i,
        {
            let rec = records[i];
            items.push((rec.chat_id, rec.message_id));
            proof {
                assert(record_pairs(records@.subrange(0, i + 1)) == record_pairs(
                    records@.subrange(0, i as int),
                ).push((rec.chat_id, rec.message_id)));
            }
            i = i + 1;
        }
        proof {
            assert(records@.subrange(0, records@.len() as int) == records@);
        }
        PlanabrainReplyTracker { max, items: newest(&items, max) }
    }

    /// The entries as records, oldest first: what is written to disk.
    pub fn records(&self) -> (r: Vec<PlanabrainReplyRecord>)
        ensures
            record_pairs(r@) == self.view(),
    {
        let mut out: Vec<PlanabrainReplyRecord> = Vec::new();
        let mut i: usize = 0;
        while i < self.items.len()
            invariant
                i <= self.items@.len(),
                record_pairs(out@) == self.items@.subrange(0, i as int),
            decreases self.items@.len() - i,
        {
            let (chat_id, message_id) = self.items[i];
            let ghost before = out@;
            out.push(PlanabrainReplyRecord { chat_id, message_id });
            proof {
                assert(record_pairs(out@) == record_pairs(before).push((chat_id, message_id)));
                assert(self.items@.subrange(0, i + 1) == self.items@.subrange(0, i as int).push(
                    self.items@[i as int],
                ));
            }
            i = i + 1;
        }
        proof {
            assert(self.items@.subrange(0, self.items@.len() as int) == self.items@);
        }
        out
    }
}

/// Writing the list out and reading it back with the same capacity gives the
/// same list, in the same order.
pub proof fn lemma_reply_round_trip(items: Seq<(i64, i32)>, records: Seq<PlanabrainReplyRecord>, max: nat)
    requires
        items.len() <= max,
        record_pairs(records) == items,
    ensures
        keep_newest(record_pairs(records), max) == items,
{
}

/// On a full list, a new reply pushes out exactly the oldest one.
pub proof fn lemma_full_insert_evicts_oldest(items: Seq<(i64, i32)>, key: (i64, i32), max: nat)
    requires
        items.len() == max,
        max > 0,
        !items.contains(key),
    ensures
        keep_newest(promoted(items, key), max) == items.drop_first().push(key),
{
    lemma_first_index_absent(items, key, 0);
    assert(promoted(items, key).subrange(1, max as int + 1) == items.drop_first().push(key));
}

/// A repeated reply is moved, not added: the list keeps its length.
pub proof fn lemma_promote_keeps_length(items: Seq<(i64, i32)>, key: (i64, i32))
    requires
        items.contains(key),
    ensures
        promoted(items, key).len() == items.len(),
        promoted(items, key).last() == key,
{
    let j = choose|j: int| 0 <= j < items.len() && items[j] == key;
    lemma_first_index_present(items, key, 0, j);
}

proof fn lemma_first_index_absent(s: Seq<(i64, i32)>, key: (i64, i32), i: int)
    requires
        !s.contains(key),
    ensures
        first_index_from(s, key, i) is None,
    decreases s.len() - i,
{
    if 0 <= i < s.len() {
        assert(s[i] != key);
        lemma_first_index_absent(s, key, i + 1);
    }
}

proof fn lemma_first_index_present(s: Seq<(i64, i32)>, key: (i64, i32), i: int, j: int)
    requires
        0 <= i <= j < s.len(),
        s[j] == key,
    ensures
        first_index_from(s, key, i) is Some,
        0 <= first_index_from(s, key, i)->0 < s.len(),
    decreases j - i,
{
    if s[i] != key {
        lemma_first_index_present(s, key, i + 1, j);
    }
}

/// The integers of a JSON array text, if the text is one.
pub uninterp spec fn json_i64_list(text: Seq<char>) -> Option<Seq<i64>>;

/// The decimal digits of `n`.
pub open spec fn nat_digits(n: nat) -> Seq<char>
    decreases n,
{
    let digit = seq!['0', '1', '2', '3', '4', '5', '6', '7', '8', '9'][(n % 10) as int];
    if n < 10 {
        seq![digit]
    } else {
        nat_digits(n / 10).push(digit)
    }
}

/// `v` in decimal, with a `-` when negative.
pub open spec fn decimal_text(v: int) -> Seq<char> {
    if v < 0 {
        seq!['-'] + nat_digits((-v) as nat)
    } else {
        nat_digits(v as nat)
    }
}

/// The pretty JSON array of `ids`: `[]` when empty, else each integer on its
/// own line indented by two spaces, lines joined by commas, between `[` and `]`.
pub open spec fn json_array_text(ids: Seq<i64>) -> Seq<char> {
    if ids.len() == 0 {
        seq!['[', ']']
    } else {
        seq!['[', '\n'] + joined(
            ids.map_values(|v: i64| seq![' ', ' '] + decimal_text(v as int)),
            seq![',', '\n'],
        ) + seq!['\n', ']']
    }
}

/// Relies on `serde_json::from_str::<Vec<i64>>`.
#[verifier::external_body]
fn parse_i64_list(text: &str) -> (r: Option<Vec<i64>>)
    ensures
        match r {
            Some(v) => json_i64_list(text@) == Some(v@),
            None => json_i64_list(text@) is None,
        },
{
    serde_json::from_str::<Vec<i64>>(text).ok()
}

/// Relies on `serde_json::to_string_pretty` on a list of integers: its pretty
/// formatter's array layout, integers written in decimal, and no failure,
/// since integers always serialise and the output goes to a `Vec`.
#[verifier::external_body]
fn pretty_i64_list(ids: &Vec<i64>) -> (r: Option<String>)
    ensures
        r is Some && r->0@ == json_array_text(ids@),
{
    serde_json::to_string_pretty(ids).ok()
}

/// Each value of `s` is smaller than the next.
pub open spec fn strictly_ascending(s: Seq<i64>) -> bool {
    forall|i: int, j: int| 0 <= i < j < s.len() ==> s[i] < s[j]
}

/// The group chats the bot has seen. It only grows.
#[derive(Debug, Clone)]
pub struct GroupRegistry {
    ids: Vec<i64>,
}

impl GroupRegistry {
    pub closed spec fn view(&self) -> Set<i64> {
        self.ids@.to_set()
    }

    /// The registered chats in ascending order.
    pub closed spec fn sorted_ids(&self) -> Seq<i64> {
        self.ids@
    }

    /// The identifiers are held once each, in ascending order.
    pub closed spec fn wf(&self) -> bool {
        strictly_ascending(self.ids@)
    }

    /// A registry with no chats.
    pub fn new() -> (r: Self)
        ensures
            r.wf(),
            r.view() == Set::<i64>::empty(),
    {
        let r = GroupRegistry { ids: Vec::new() };
        proof {
            assert(r.ids@.to_set() =~= Set::<i64>::empty());
        }
        r
    }

    /// Whether chat `id` is registered.
    pub fn contains(&self, id: i64) -> (r: bool)
        ensures
            r == self.view().contains(id),
    {
        let mut i: usize = 0;
        while i < self.ids.len()
            invariant
                i <= self.ids@.len(),
                forall|k: int| 0 <= k < i ==> self.ids@[k] != id,
            decreases self.ids@.len() - i,
        {
            if self.ids[i] == id {
                proof {
                    assert(self.ids@.contains(id));
                }
                return true;
            }
            i = i + 1;
        }
        false
    }

    /// Registers chat `id`; true when it was not registered before, which is
    /// when the registry must be written out.
    pub fn insert(&mut self, id: i64) -> (added: bool)
        requires
            old(self).wf(),
        ensures
            final(self).wf(),
            final(self).view() == old(self).view().insert(id),
            added == !old(self).view().contains(id),
    {
        let mut pos: usize = 0;
        while pos < self.ids.len() && self.ids[pos] < id
            invariant
                pos <= self.ids@.len(),
                forall|k: int| 0 <= k < pos ==> self.ids@[k] < id,
            decreases self.ids@.len() - pos,
        {
            pos = pos + 1;
        }
        let ghost s = self.ids@;
        if pos < self.ids.len() && self.ids[pos] == id {
            proof {
                assert(s.contains(id));
                assert(s.to_set().insert(id) =~= s.to_set());
            }
            return false;
        }
        proof {
            assert forall|k: int| 0 <= k < s.len() implies s[k] != id by {
                if k >= pos {
                    assert(s[pos as int] > id);
                    if k > pos {
                        assert(s[pos as int] < s[k]);
                    }
                }
            }
        }
        self.ids.insert(pos, id);
        proof {
            let t = self.ids@;
            s.insert_ensures(pos as int, id);
            assert forall|i: int, j: int| 0 <= i < j < t.len() implies t[i] < t[j] by {
                if j < pos {
                } else if j == pos {
                } else if i < pos {
                    assert(t[j] == s[j - 1]);
                    assert(s[pos as int] > id);
                    if j - 1 > pos {
                        assert(s[pos as int] < s[j - 1]);
                    }
                } else if i == pos {
                    assert(t[j] == s[j - 1]);
                    assert(s[pos as int] > id);
                    if j - 1 > pos {
                        assert(s[pos as int] < s[j - 1]);
                    }
                } else {
                    assert(t[i] == s[i - 1]);
                    assert(t[j] == s[j - 1]);
                }
            }
            assert forall|x: i64| t.to_set().contains(x) <==> s.to_set().insert(id).contains(x) by {
                if t.contains(x) {
                    let k = choose|k: int| 0 <= k < t.len() && t[k] == x;
                    if k < pos {
                        assert(s[k] == x);
                    } else if k > pos {
                        assert(s[k - 1] == x);
                    }
                }
                if s.contains(x) {
                    let k = choose|k: int| 0 <= k < s.len() && s[k] == x;
                    if k < pos {
                        assert(t[k] == x);
                    } else {
                        assert(t[k + 1] == x);
                    }
                }
                if x == id {
                    assert(t[pos as int] == id);
                }
            }
            assert(t.to_set() =~= s.to_set().insert(id));
        }
        true
    }

    /// A registry holding each of `ids`.
    pub fn from_ids(ids: &Vec<i64>) -> (r: Self)
        ensures
            r.wf(),
            r.view() == ids@.to_set(),
    {
        let mut reg = GroupRegistry::new();
        let mut i: usize = 0;
        while i < ids.len()
            invariant
                i <= ids@.len(),
                reg.wf(),
                reg.view() == ids@.subrange(0, i as int).to_set(),
            decreases ids@.len() - i,
        {
            reg.insert(ids[i]);
            proof {
                let a = ids@.subrange(0, i as int);
                let b = ids@.subrange(0, i + 1);
                assert(b == a.push(ids@[i as int]));
                assert(b.to_set() =~= a.to_set().insert(ids@[i as int])) by {
                    assert forall|x: i64| b.contains(x) <==> a.to_set().insert(ids@[i as int]).contains(x) by {
                        if b.contains(x) {
                            let k = choose|k: int| 0 <= k < b.len() && b[k] == x;
                            if k < a.len() {
                                assert(a[k] == x);
                            }
                        }
                        if a.contains(x) {
                            let k = choose|k: int| 0 <= k < a.len() && a[k] == x;
                            assert(b[k] == x);
                        }
                        if x == ids@[i as int] {
                            assert(b[i as int] == x);
                        }
                    }
                }
            }
            i = i + 1;
        }
        proof {
            assert(ids@.subrange(0, ids@.len() as int) == ids@);
        }
        reg
    }

    /// The registered chats in ascending order, each once: what is written
    /// to disk and what start-up announcements go to.
    pub fn ids(&self) -> (r: Vec<i64>)
        requires
            self.wf(),
        ensures
            r@ == self.sorted_ids(),
            r@.to_set() == self.view(),
            strictly_ascending(r@),
    {
        self.ids.clone()
    }

    /// The registry a groups file describes; empty when the file is not a
    /// JSON array of integers.
    pub fn from_json(text: &str) -> (r: Self)
        ensures
            r.wf(),
            r.view() == match json_i64_list(text@) {
                Some(ids) => ids.to_set(),
                None => Set::<i64>::empty(),
            },
    {
        match parse_i64_list(text) {
            Some(ids) => GroupRegistry::from_ids(&ids),
            None => GroupRegistry::new(),
        }
    }

    /// The groups file: the ascending identifiers as a pretty JSON array.
    pub fn to_json(&self) -> (r: String)
        requires
            self.wf(),
        ensures
            r@ == json_array_text(self.sorted_ids()),
    {
        let ids = self.ids();
        pretty_i64_list(&ids).unwrap()
    }
}

/// The kind of chat a message arrived in.
#[derive(Debug, Clone, Copy, PartialEq, Eq)]
pub enum ChatKind {
    Private,
    Group,
    Supergroup,
    Channel,
}

/// Group and supergroup chats are the ones the registry keeps.
pub fn is_group_chat(kind: ChatKind) -> (r: bool)
    ensures
        r == (kind == ChatKind::Group || kind == ChatKind::Supergroup),
{
    match kind {
        ChatKind::Group | ChatKind::Supergroup => true,
        _ => false,
    }
}

/// The reply list and the group registry together, behind the four
/// operations the bot uses. Each change hands back the snapshot to write.
#[derive(Debug, Clone)]
pub struct StateStore {
    replies: PlanabrainReplyTracker,
    groups: GroupRegistry,
}

impl StateStore {
    pub closed spec fn wf(&self) -> bool {
        self.replies.wf() && self.groups.wf()
    }

    pub closed spec fn replies_view(&self) -> Seq<(i64, i32)> {
        self.replies.view()
    }

    pub closed spec fn reply_capacity(&self) -> nat {
        self.replies.capacity()
    }

    pub closed spec fn groups_view(&self) -> Set<i64> {
        self.groups.view()
    }

    pub closed spec fn sorted_group_ids(&self) -> Seq<i64> {
        self.groups.sorted_ids()
    }

    /// The store over state loaded at start-up.
    pub fn new(replies: PlanabrainReplyTracker, groups: GroupRegistry) -> (r: Self)
        requires
            replies.wf(),
            groups.wf(),
        ensures
            r.wf(),
            r.replies_view() == replies.view(),
            r.reply_capacity() == replies.capacity(),
            r.groups_view() == groups.view(),
    {
        StateStore { replies, groups }
    }

    /// Records a reply the bot sent and returns the list to write, oldest
    /// first.
    pub fn record_reply(&mut self, chat_id: i64, message_id: i32) -> (snapshot: Vec<
        PlanabrainReplyRecord,
    >)
        requires
            old(self).wf(),
        ensures
            final(self).wf(),
            final(self).reply_capacity() == old(self).reply_capacity(),
            final(self).replies_view() == keep_newest(
                promoted(old(self).replies_view(), (chat_id, message_id)),
                old(self).reply_capacity(),
            ),
            final(self).groups_view() == old(self).groups_view(),
            record_pairs(snapshot@) == final(self).replies_view(),
    {
        self.replies.insert(chat_id, message_id);
        self.replies.records()
    }

    /// Whether the message `message_id` in `chat_id` is a reply the bot sent.
    pub fn is_known_reply(&self, chat_id: i64, message_id: i32) -> (r: bool)
        ensures
            r == self.replies_view().contains((chat_id, message_id)),
    {
        self.replies.contains(chat_id, message_id)
    }

    /// Registers a group chat. Returns the registry to write when the chat
    /// was new, and nothing when it was known already or is not a group.
    pub fn record_group(&mut self, chat_id: i64, kind: ChatKind) -> (snapshot: Option<Vec<i64>>)
        requires
            old(self).wf(),
        ensures
            final(self).wf(),
            final(self).replies_view() == old(self).replies_view(),
            final(self).reply_capacity() == old(self).reply_capacity(),
            final(self).groups_view() == if is_group_chat_spec(kind) {
                old(self).groups_view().insert(chat_id)
            } else {
                old(self).groups_view()
            },
            snapshot is Some <==> (is_group_chat_spec(kind) && !old(self).groups_view().contains(
                chat_id,
            )),
            snapshot is Some ==> snapshot->0@.to_set() == final(self).groups_view()
                && strictly_ascending(snapshot->0@),
    {
        if !is_group_chat(kind) {
            return None;
        }
        if self.groups.insert(chat_id) {
            Some(self.groups.ids())
        } else {
            None
        }
    }

    /// The groups file for the current registry.
    pub fn groups_json(&self) -> (r: String)
        requires
            self.wf(),
        ensures
            r@ == json_array_text(self.sorted_group_ids()),
    {
        self.groups.to_json()
    }

    /// The registered group chats, ascending.
    pub fn list_groups(&self) -> (r: Vec<i64>)
        requires
            self.wf(),
        ensures
            r@.to_set() == self.groups_view(),
            strictly_ascending(r@),
    {
        self.groups.ids()
    }
}

pub open spec fn is_group_chat_spec(kind: ChatKind) -> bool {
    kind == ChatKind::Group || kind == ChatKind::Supergroup
}

} // verus!
