//! The state that all connections share: the values stored under their
//! keys, the deadlines at which they expire, and the channels. Every
//! operation is one short step on the whole state; whoever holds the state
//! calls them one at a time.

use crate::assoc::{
    distinct_keys, has_key, index_of, lemma_index, lemma_insert_at, lemma_key, lemma_push,
    lemma_remove, lemma_update, to_map,
};
use crate::broadcast::{channel, send, subscribe, CAPACITY};
use crate::payload::bytes_view;
use crate::time::{Duration, Instant};
use bytes::Bytes;
use tokio::sync::broadcast::{Receiver, Sender};
use vstd::prelude::*;

verus! {

/// A stored value, as the contracts see it.
pub struct EntryView {
    /// The number given to the entry when it was stored.
    pub id: u64,
    /// The value's bytes.
    pub data: Seq<u8>,
    /// The instant at which the entry expires, if it does.
    pub expires_at: Option<Instant>,
}

/// The shared state, as the contracts see it.
pub struct DbView {
    /// The entry stored under each key.
    pub entries: Map<Seq<char>, EntryView>,
    /// For each deadline and entry number, the key that expires then.
    pub expirations: Map<(Instant, u64), Seq<char>>,
    /// The names of the channels that exist.
    pub channels: Set<Seq<char>>,
    /// The number that the next entry gets.
    pub next_id: u64,
    /// Whether the expiration worker has been told to stop.
    pub shutdown: bool,
}

/// Whether the deadlines and the entries agree: every entry that expires
/// has its row under its deadline and number, every row names an entry with
/// that deadline and number, and every number in use is below the next one.
pub open spec fn consistent(s: DbView) -> bool {
    &&& forall|k: Seq<char>| #[trigger]
        s.entries.contains_key(k) ==> s.entries[k].id < s.next_id
    &&& forall|k: Seq<char>| #[trigger]
        s.entries.contains_key(k) ==> (s.entries[k].expires_at matches Some(when)
            ==> s.expirations.contains_key((when, s.entries[k].id)) && s.expirations[(
            when,
            s.entries[k].id,
        )] == k)
    &&& forall|r: (Instant, u64)| #[trigger]
        s.expirations.contains_key(r) ==> s.entries.contains_key(s.expirations[r])
            && s.entries[s.expirations[r]].id == r.1 && s.entries[s.expirations[r]].expires_at
            == Some(r.0)
}

/// The instant at which a value stored at `now` expires.
pub open spec fn deadline(expire: Option<Duration>, now: Instant) -> Option<Instant> {
    match expire {
        Some(d) => Some((now + d.nanos) as u128),
        None => None,
    }
}

/// The deadlines without the row of the entry under `key`, if it has one.
pub open spec fn cleared(s: DbView, key: Seq<char>) -> Map<(Instant, u64), Seq<char>> {
    if s.entries.contains_key(key) && s.entries[key].expires_at is Some {
        s.expirations.remove((s.entries[key].expires_at->Some_0, s.entries[key].id))
    } else {
        s.expirations
    }
}

/// The state after `key` is set to `value` at the instant `now`: the entry
/// gets the next number, replaces the one under the key, whose deadline
/// goes, and has its own deadline put down if it expires.
pub open spec fn after_set(
    s: DbView,
    key: Seq<char>,
    value: Seq<u8>,
    expire: Option<Duration>,
    now: Instant,
) -> DbView {
    let entry = EntryView { id: s.next_id, data: value, expires_at: deadline(expire, now) };
    DbView {
        entries: s.entries.insert(key, entry),
        expirations: match deadline(expire, now) {
            Some(when) => cleared(s, key).insert((when, s.next_id), key),
            None => cleared(s, key),
        },
        channels: s.channels,
        next_id: (s.next_id + 1) as u64,
        shutdown: s.shutdown,
    }
}

/// Whether a set wakes the expiration worker: it does where the new entry
/// expires, and before every deadline that was there.
pub open spec fn wakes_worker(s: DbView, expire: Option<Duration>, now: Instant) -> bool {
    expire matches Some(d) && forall|r: (Instant, u64)| #[trigger]
        s.expirations.contains_key(r) ==> now + d.nanos < r.0
}

/// Whether an entry has expired at `now`.
pub open spec fn expired(entry: EntryView, now: Instant) -> bool {
    entry.expires_at matches Some(when) && when <= now
}

/// The state after the entries that have expired at `now` are removed, with
/// their deadlines. A state that is shut down stays as it is.
pub open spec fn after_purge(s: DbView, now: Instant) -> DbView {
    if s.shutdown {
        s
    } else {
        DbView {
            entries: Map::new(
                |k: Seq<char>| s.entries.contains_key(k) && !expired(s.entries[k], now),
                |k: Seq<char>| s.entries[k],
            ),
            expirations: Map::new(
                |r: (Instant, u64)| s.expirations.contains_key(r) && r.0 > now,
                |r: (Instant, u64)| s.expirations[r],
            ),
            channels: s.channels,
            next_id: s.next_id,
            shutdown: s.shutdown,
        }
    }
}

/// Whether `when` is the earliest deadline of `rows`.
pub open spec fn is_earliest(rows: Map<(Instant, u64), Seq<char>>, when: Instant) -> bool {
    &&& exists|id: u64| #[trigger] rows.contains_key((when, id))
    &&& forall|r: (Instant, u64)| #[trigger] rows.contains_key(r) ==> when <= r.0
}

/// Whether `rows` holds no deadline.
pub open spec fn no_deadline(rows: Map<(Instant, u64), Seq<char>>) -> bool {
    forall|r: (Instant, u64)| !#[trigger] rows.contains_key(r)
}

/// What the expiration worker does next.
#[derive(Clone, Copy, Debug, PartialEq, Eq)]
pub enum Wait {
    /// It stops: the state is shut down.
    Exit,
    /// It sleeps until the instant given, or until it is woken.
    Until(Instant),
    /// It sleeps until it is woken.
    Notified,
}

/// The number of subscribers that a publish reports, from what the channel
/// said of the send: that number, or zero where nothing was sent.
pub fn delivered(sent: Option<usize>) -> (count: usize)
    ensures
        count == match sent {
            Some(n) => n,
            None => 0,
        },
{
    match sent {
        Some(n) => n,
        None => 0,
    }
}

/// Setting a key keeps deadlines and entries in agreement.
pub proof fn lemma_set_consistent(
    s: DbView,
    key: Seq<char>,
    value: Seq<u8>,
    expire: Option<Duration>,
    now: Instant,
)
    requires
        consistent(s),
        s.next_id < u64::MAX,
    ensures
        consistent(after_set(s, key, value, expire, now)),
{
    let goal = after_set(s, key, value, expire, now);
    let id = s.next_id;
    assert forall|k: Seq<char>| #[trigger] goal.entries.contains_key(k) implies goal.entries[k].id
        < goal.next_id by {
        if k != key {
            assert(s.entries.contains_key(k));
        }
    }
    assert forall|k: Seq<char>| #[trigger] goal.entries.contains_key(k) implies (
    goal.entries[k].expires_at matches Some(when) ==> goal.expirations.contains_key(
        (when, goal.entries[k].id),
    ) && goal.expirations[(when, goal.entries[k].id)] == k) by {
        if k != key {
            assert(s.entries.contains_key(k));
            if s.entries.contains_key(key) {
                assert(s.entries[key].id < id);
            }
        }
    }
    assert forall|r: (Instant, u64)| #[trigger] goal.expirations.contains_key(r) implies (
    goal.entries.contains_key(goal.expirations[r]) && goal.entries[goal.expirations[r]].id == r.1
        && goal.entries[goal.expirations[r]].expires_at == Some(r.0)) by {
        if r.1 != id {
            assert(s.expirations.contains_key(r));
        }
    }
}

/// Removing what has expired keeps deadlines and entries in agreement.
pub proof fn lemma_purge_consistent(s: DbView, now: Instant)
    requires
        consistent(s),
    ensures
        consistent(after_purge(s, now)),
{
    let goal = after_purge(s, now);
    if !s.shutdown {
        assert forall|k: Seq<char>| #[trigger] goal.entries.contains_key(k) implies (
        goal.entries[k].expires_at matches Some(when) ==> goal.expirations.contains_key(
            (when, goal.entries[k].id),
        ) && goal.expirations[(when, goal.entries[k].id)] == k) by {
            assert(s.entries.contains_key(k));
        }
        assert forall|r: (Instant, u64)| #[trigger] goal.expirations.contains_key(r) implies (
        goal.entries.contains_key(goal.expirations[r]) && goal.entries[goal.expirations[r]].id
            == r.1 && goal.entries[goal.expirations[r]].expires_at == Some(r.0)) by {
            assert(s.expirations.contains_key(r));
        }
        assert forall|k: Seq<char>| #[trigger] goal.entries.contains_key(k) implies
            goal.entries[k].id < goal.next_id by {
            assert(s.entries.contains_key(k));
        }
    }
}

/// An entry that expires has exactly one row: the one under its deadline
/// and number names its key, and no other row names that key.
pub proof fn lemma_one_row_per_entry(s: DbView, key: Seq<char>)
    requires
        consistent(s),
        s.entries.contains_key(key),
    ensures
        match s.entries[key].expires_at {
            Some(when) => {
                &&& s.expirations.contains_key((when, s.entries[key].id))
                &&& s.expirations[(when, s.entries[key].id)] == key
                &&& forall|r: (Instant, u64)| #[trigger]
                    s.expirations.contains_key(r) && s.expirations[r] == key ==> r == (
                        when,
                        s.entries[key].id,
                    )
            },
            None => forall|r: (Instant, u64)| #[trigger]
                s.expirations.contains_key(r) ==> s.expirations[r] != key,
        },
{
}

/// A value that was set is what a get of the key finds, until the key is set
/// again or the value expires: a set of another key leaves it, and so does a
/// purge at an instant at which it has not expired.
pub proof fn lemma_get_after_set(
    s: DbView,
    key: Seq<char>,
    value: Seq<u8>,
    expire: Option<Duration>,
    now: Instant,
    other_key: Seq<char>,
    other_value: Seq<u8>,
    other_expire: Option<Duration>,
    later: Instant,
)
    ensures
        ({
            let t = after_set(s, key, value, expire, now);
            &&& t.entries.contains_key(key)
            &&& t.entries[key].data == value
            &&& other_key != key ==> after_set(
                t,
                other_key,
                other_value,
                other_expire,
                later,
            ).entries[key] == t.entries[key]
            &&& !expired(t.entries[key], later) ==> after_purge(t, later).entries.contains_key(key)
                && after_purge(t, later).entries[key] == t.entries[key]
        }),
{
}

/// A value set to live no time at all has expired at once: a purge at that
/// instant or later removes it, and its deadline with it.
pub proof fn lemma_zero_ttl(s: DbView, key: Seq<char>, value: Seq<u8>, now: Instant, later: Instant)
    requires
        !s.shutdown,
        later >= now,
    ensures
        ({
            let t = after_set(s, key, value, Some(Duration { nanos: 0 }), now);
            &&& expired(t.entries[key], now)
            &&& !after_purge(t, later).entries.contains_key(key)
            &&& !after_purge(t, later).expirations.contains_key((now, s.next_id))
        }),
{
}

/// A set of a key that was set before puts the new value in place of the old
/// one and takes the old deadline away in the same step: after it the only
/// row that names the key is that of the new entry, if it expires.
pub proof fn lemma_set_replaces(
    s: DbView,
    key: Seq<char>,
    value: Seq<u8>,
    expire: Option<Duration>,
    now: Instant,
)
    requires
        consistent(s),
        s.next_id < u64::MAX,
    ensures
        ({
            let t = after_set(s, key, value, expire, now);
            &&& t.entries[key].data == value
            &&& t.entries[key].id == s.next_id
            &&& forall|r: (Instant, u64)| #[trigger]
                t.expirations.contains_key(r) && t.expirations[r] == key ==> expire is Some && r
                    == ((now + expire->Some_0.nanos) as u128, s.next_id)
        }),
{
    lemma_set_consistent(s, key, value, expire, now);
}

struct Entry {
    id: u64,
    data: Bytes,
    expires_at: Option<Instant>,
}

struct Slot {
    key: String,
    entry: Entry,
}

struct Row {
    when: Instant,
    id: u64,
    key: String,
}

struct Channel {
    name: String,
    sender: Sender<Bytes>,
}

spec fn entry_view(entry: Entry) -> EntryView {
    EntryView { id: entry.id, data: bytes_view(entry.data), expires_at: entry.expires_at }
}

spec fn slot_pairs(slots: Seq<Slot>) -> Seq<(Seq<char>, EntryView)> {
    slots.map_values(|s: Slot| (s.key@, entry_view(s.entry)))
}

spec fn row_pairs(rows: Seq<Row>) -> Seq<((Instant, u64), Seq<char>)> {
    rows.map_values(|r: Row| ((r.when, r.id), r.key@))
}

spec fn channel_pairs(channels: Seq<Channel>) -> Seq<(Seq<char>, ())> {
    channels.map_values(|c: Channel| (c.name@, ()))
}

/// The order of the deadlines: by instant, then by entry number.
spec fn before(a: (Instant, u64), b: (Instant, u64)) -> bool {
    a.0 < b.0 || (a.0 == b.0 && a.1 < b.1)
}

spec fn sorted(rows: Seq<Row>) -> bool {
    forall|i: int, j: int|
        0 <= i < j < rows.len() ==> before(
            (#[trigger] rows[i].when, rows[i].id),
            (#[trigger] rows[j].when, rows[j].id),
        )
}

proof fn lemma_sorted_distinct(rows: Seq<Row>)
    requires
        sorted(rows),
    ensures
        distinct_keys(row_pairs(rows)),
{
    let pairs = row_pairs(rows);
    assert forall|i: int, j: int|
        0 <= i < pairs.len() && 0 <= j < pairs.len() && i != j implies (#[trigger] pairs[i]).0 != (
    #[trigger] pairs[j]).0 by {
        if i < j {
            assert(before((rows[i].when, rows[i].id), (rows[j].when, rows[j].id)));
        } else {
            assert(before((rows[j].when, rows[j].id), (rows[i].when, rows[i].id)));
        }
    }
}

/// The index of the slot of `key`.
fn find_slot(slots: &Vec<Slot>, key: &String) -> (found: Option<usize>)
    ensures
        match found {
            Some(i) => i < slots@.len() && slots@[i as int].key@ == key@,
            None => !has_key(slot_pairs(slots@), key@),
        },
{
    let mut i: usize = 0;
    while i < slots.len()
        invariant
            i <= slots.len(),
            forall|j: int| 0 <= j < i ==> (#[trigger] slot_pairs(slots@)[j]).0 != key@,
        decreases slots.len() - i,
    {
        if slots[i].key == *key {
            return Some(i);
        }
        i += 1;
    }
    None
}

/// Puts `entry` under `key`, in place of the entry that was there, of which
/// the number and the deadline come back.
fn put_slot(slots: &mut Vec<Slot>, key: String, entry: Entry) -> (prev: Option<
    (u64, Option<Instant>),
>)
    requires
        distinct_keys(slot_pairs(old(slots)@)),
    ensures
        distinct_keys(slot_pairs(final(slots)@)),
        to_map(slot_pairs(final(slots)@)) == to_map(slot_pairs(old(slots)@)).insert(
            key@,
            entry_view(entry),
        ),
        match prev {
            Some((id, expires_at)) => {
                &&& to_map(slot_pairs(old(slots)@)).contains_key(key@)
                &&& to_map(slot_pairs(old(slots)@))[key@].id == id
                &&& to_map(slot_pairs(old(slots)@))[key@].expires_at == expires_at
            },
            None => !to_map(slot_pairs(old(slots)@)).contains_key(key@),
        },
{
    let ghost pairs = slot_pairs(slots@);
    match find_slot(slots, &key) {
        Some(i) => {
            let prev = (slots[i].entry.id, slots[i].entry.expires_at);
            proof {
                lemma_index(pairs, i as int);
                lemma_update(pairs, i as int, entry_view(entry));
            }
            slots.set(i, Slot { key, entry });
            assert(slot_pairs(slots@) =~= pairs.update(
                i as int,
                (pairs[i as int].0, entry_view(entry)),
            ));
            Some(prev)
        },
        None => {
            proof {
                lemma_push(pairs, (key@, entry_view(entry)));
            }
            slots.push(Slot { key, entry });
            assert(slot_pairs(slots@) =~= pairs.push((key@, entry_view(entry))));
            None
        },
    }
}

/// Takes the entry under `key` out, if there is one.
fn remove_slot(slots: &mut Vec<Slot>, key: &String)
    requires
        distinct_keys(slot_pairs(old(slots)@)),
    ensures
        distinct_keys(slot_pairs(final(slots)@)),
        to_map(slot_pairs(final(slots)@)) == to_map(slot_pairs(old(slots)@)).remove(key@),
{
    let ghost pairs = slot_pairs(slots@);
    match find_slot(slots, key) {
        Some(i) => {
            proof {
                lemma_remove(pairs, i as int);
            }
            slots.remove(i);
            assert(slot_pairs(slots@) =~= pairs.remove(i as int));
        },
        None => {
            assert(to_map(pairs) =~= to_map(pairs).remove(key@));
        },
    }
}

/// Puts a row down at its place in the order.
fn insert_row(rows: &mut Vec<Row>, when: Instant, id: u64, key: String)
    requires
        sorted(old(rows)@),
        !has_key(row_pairs(old(rows)@), (when, id)),
    ensures
        sorted(final(rows)@),
        to_map(row_pairs(final(rows)@)) == to_map(row_pairs(old(rows)@)).insert((when, id), key@),
{
    let ghost before_rows = rows@;
    let ghost pairs = row_pairs(rows@);
    let mut p: usize = 0;
    while p < rows.len() && (rows[p].when < when || (rows[p].when == when && rows[p].id < id))
        invariant
            p <= rows.len(),
            rows@ == before_rows,
            forall|j: int|
                0 <= j < p ==> before((#[trigger] rows@[j].when, rows@[j].id), (when, id)),
        decreases rows.len() - p,
    {
        p += 1;
    }
    proof {
        lemma_sorted_distinct(before_rows);
        lemma_insert_at(pairs, p as int, ((when, id), key@));
        if p < before_rows.len() {
            assert(pairs[p as int].0 == (before_rows[p as int].when, before_rows[p as int].id));
            assert(before((when, id), (before_rows[p as int].when, before_rows[p as int].id)));
        }
        assert forall|j: int| p <= j < before_rows.len() implies before(
            (when, id),
            (#[trigger] before_rows[j].when, before_rows[j].id),
        ) by {
            if p < j {
                assert(before(
                    (before_rows[p as int].when, before_rows[p as int].id),
                    (before_rows[j].when, before_rows[j].id),
                ));
            }
        }
    }
    rows.insert(p, Row { when, id, key });
    proof {
        assert(row_pairs(rows@) =~= pairs.insert(p as int, ((when, id), key@)));
        assert forall|i: int, j: int| 0 <= i < j < rows@.len() implies before(
            (#[trigger] rows@[i].when, rows@[i].id),
            (#[trigger] rows@[j].when, rows@[j].id),
        ) by {
            let a = if i < p { i } else { i - 1 };
            let b = if j < p { j } else { j - 1 };
            if i != p {
                assert(rows@[i] == before_rows[a]);
            }
            if j != p {
                assert(rows@[j] == before_rows[b]);
            }
            if i != p && j != p {
                assert(before(
                    (before_rows[a].when, before_rows[a].id),
                    (before_rows[b].when, before_rows[b].id),
                ));
            }
        }
    }
}

/// Takes the row of a deadline and entry number out, if it is there.
fn remove_row(rows: &mut Vec<Row>, when: Instant, id: u64)
    requires
        sorted(old(rows)@),
    ensures
        sorted(final(rows)@),
        to_map(row_pairs(final(rows)@)) == to_map(row_pairs(old(rows)@)).remove((when, id)),
        has_key(row_pairs(old(rows)@), (when, id)) ==> final(rows)@.len() + 1 == old(rows)@.len(),
{
    let ghost before_rows = rows@;
    let ghost pairs = row_pairs(rows@);
    proof {
        lemma_sorted_distinct(before_rows);
    }
    let mut i: usize = 0;
    while i < rows.len()
        invariant
            i <= rows.len(),
            rows@ == before_rows,
            forall|j: int| 0 <= j < i ==> (#[trigger] pairs[j]).0 != (when, id),
            pairs == row_pairs(before_rows),
            before_rows == old(rows)@,
            sorted(before_rows),
            distinct_keys(pairs),
        decreases rows.len() - i,
    {
        if rows[i].when == when && rows[i].id == id {
            proof {
                lemma_remove(pairs, i as int);
                assert(pairs[i as int].0 == (when, id));
            }
            rows.remove(i);
            proof {
                assert(row_pairs(rows@) =~= pairs.remove(i as int));
                assert forall|a: int, b: int| 0 <= a < b < rows@.len() implies before(
                    (#[trigger] rows@[a].when, rows@[a].id),
                    (#[trigger] rows@[b].when, rows@[b].id),
                ) by {
                    let a2 = if a < i { a } else { a + 1 };
                    let b2 = if b < i { b } else { b + 1 };
                    assert(rows@[a] == before_rows[a2]);
                    assert(rows@[b] == before_rows[b2]);
                    assert(before(
                        (before_rows[a2].when, before_rows[a2].id),
                        (before_rows[b2].when, before_rows[b2].id),
                    ));
                }
            }
            return ;
        }
        i += 1;
    }
    assert(!has_key(pairs, (when, id)));
    assert(to_map(pairs) =~= to_map(pairs).remove((when, id)));
}

/// The earliest deadline.
fn first_deadline(rows: &Vec<Row>) -> (first: Option<Instant>)
    requires
        sorted(rows@),
    ensures
        match first {
            Some(when) => is_earliest(to_map(row_pairs(rows@)), when),
            None => no_deadline(to_map(row_pairs(rows@))),
        },
{
    let ghost pairs = row_pairs(rows@);
    if rows.len() == 0 {
        assert forall|r: (Instant, u64)| !#[trigger] to_map(pairs).contains_key(r) by {
            if has_key(pairs, r) {
                lemma_key(pairs, r);
            }
        }
        None
    } else {
        let when = rows[0].when;
        proof {
            lemma_sorted_distinct(rows@);
            lemma_index(pairs, 0);
            assert(to_map(pairs).contains_key((when, rows@[0].id)));
            assert forall|r: (Instant, u64)| #[trigger]
                to_map(pairs).contains_key(r) implies when <= r.0 by {
                lemma_key(pairs, r);
                let j = index_of(pairs, r);
                if j > 0 {
                    assert(before((rows@[0].when, rows@[0].id), (rows@[j].when, rows@[j].id)));
                }
            }
        }
        Some(when)
    }
}

/// The index of the channel named `name`.
fn find_channel(channels: &Vec<Channel>, name: &String) -> (found: Option<usize>)
    ensures
        match found {
            Some(i) => i < channels@.len() && channels@[i as int].name@ == name@,
            None => !has_key(channel_pairs(channels@), name@),
        },
{
    let mut i: usize = 0;
    while i < channels.len()
        invariant
            i <= channels.len(),
            forall|j: int| 0 <= j < i ==> (#[trigger] channel_pairs(channels@)[j]).0 != name@,
        decreases channels.len() - i,
    {
        if channels[i].name == *name {
            return Some(i);
        }
        i += 1;
    }
    None
}

/// The shared state.
pub struct Db {
    /// The entries, each key once.
    entries: Vec<Slot>,
    /// The deadlines, the earliest first.
    expirations: Vec<Row>,
    /// The channels, each name once.
    pub_sub: Vec<Channel>,
    next_id: u64,
    shutdown: bool,
}

impl View for Db {
    type V = DbView;

    closed spec fn view(&self) -> DbView {
        DbView {
            entries: to_map(slot_pairs(self.entries@)),
            expirations: to_map(row_pairs(self.expirations@)),
            channels: to_map(channel_pairs(self.pub_sub@)).dom(),
            next_id: self.next_id,
            shutdown: self.shutdown,
        }
    }
}

impl Db {
    /// Whether the state is in order: each key and each channel stands
    /// once, the deadlines stand in their order, and deadlines and entries
    /// agree.
    pub closed spec fn wf(&self) -> bool {
        &&& distinct_keys(slot_pairs(self.entries@))
        &&& sorted(self.expirations@)
        &&& distinct_keys(channel_pairs(self.pub_sub@))
        &&& consistent(self@)
    }

    /// In a state that is in order, deadlines and entries agree.
    pub proof fn lemma_wf_consistent(&self)
        requires
            self.wf(),
        ensures
            consistent(self@),
    {
    }

    /// An empty state.
    pub fn new() -> (db: Db)
        ensures
            db.wf(),
            db@.entries == Map::<Seq<char>, EntryView>::empty(),
            db@.expirations == Map::<(Instant, u64), Seq<char>>::empty(),
            db@.channels == Set::<Seq<char>>::empty(),
            db@.next_id == 0,
            !db@.shutdown,
    {
        let db = Db {
            entries: Vec::new(),
            expirations: Vec::new(),
            pub_sub: Vec::new(),
            next_id: 0,
            shutdown: false,
        };
        proof {
            assert forall|k: Seq<char>| !has_key(slot_pairs(db.entries@), k) by {}
            assert forall|r: (Instant, u64)| !has_key(row_pairs(db.expirations@), r) by {}
            assert forall|k: Seq<char>| !has_key(channel_pairs(db.pub_sub@), k) by {}
            assert(db@.entries =~= Map::<Seq<char>, EntryView>::empty());
            assert(db@.expirations =~= Map::<(Instant, u64), Seq<char>>::empty());
            assert(db@.channels =~= Set::<Seq<char>>::empty());
        }
        db
    }

    /// The value under `key`, if there is one.
    pub fn get(&self, key: &str) -> (value: Option<Bytes>)
        requires
            self.wf(),
        ensures
            match value {
                Some(data) => self@.entries.contains_key(key@) && bytes_view(data)
                    == self@.entries[key@].data,
                None => !self@.entries.contains_key(key@),
            },
    {
        let key = key.to_owned();
        match find_slot(&self.entries, &key) {
            Some(i) => {
                proof {
                    lemma_index(slot_pairs(self.entries@), i as int);
                }
                Some(self.entries[i].entry.data.clone())
            },
            None => None,
        }
    }

    /// The earliest deadline, if there is one.
    pub fn next_expiration(&self) -> (first: Option<Instant>)
        requires
            self.wf(),
        ensures
            match first {
                Some(when) => is_earliest(self@.expirations, when),
                None => no_deadline(self@.expirations),
            },
    {
        first_deadline(&self.expirations)
    }

    /// Binds `value` to `key` at the instant `now`, for the time `expire` or
    /// for good. Tells whether the expiration worker is to be woken: the new
    /// deadline is then the earliest.
    pub fn set(
        &mut self,
        key: String,
        value: Bytes,
        expire: Option<Duration>,
        now: Instant,
    ) -> (notify: bool)
        requires
            old(self).wf(),
            old(self)@.next_id < u64::MAX,
            expire matches Some(d) ==> now + d.nanos <= u128::MAX,
        ensures
            final(self).wf(),
            final(self)@ == after_set(old(self)@, key@, bytes_view(value), expire, now),
            notify == wakes_worker(old(self)@, expire, now),
    {
        let ghost s = self@;
        let id = self.next_id;
        self.next_id = id + 1;
        let mut notify = false;
        let mut expires_at: Option<Instant> = None;
        if let Some(d) = expire {
            let when = now + d.as_nanos();
            notify = match first_deadline(&self.expirations) {
                Some(first) => first > when,
                None => true,
            };
            proof {
                if has_key(row_pairs(self.expirations@), (when, id)) {
                    lemma_key(row_pairs(self.expirations@), (when, id));
                    assert(s.expirations.contains_key((when, id)));
                }
            }
            insert_row(&mut self.expirations, when, id, key.clone());
            expires_at = Some(when);
        }
        let ghost entry = EntryView { id, data: bytes_view(value), expires_at };
        let prev = put_slot(&mut self.entries, key, Entry { id, data: value, expires_at });
        if let Some((prev_id, Some(prev_when))) = prev {
            remove_row(&mut self.expirations, prev_when, prev_id);
        }
        proof {
            let goal = after_set(s, key@, bytes_view(value), expire, now);
            if s.entries.contains_key(key@) {
                assert(s.entries[key@].id < id);
            }
            assert(self@.expirations =~= goal.expirations);
            assert(self@.entries =~= goal.entries);
            assert(self@ == goal);
            lemma_set_consistent(s, key@, bytes_view(value), expire, now);
            assert(consistent(goal));
        }
        notify
    }

    /// A receiver of the channel named `key`, which is made if it is not
    /// there.
    pub fn subscribe(&mut self, key: String) -> (receiver: Receiver<Bytes>)
        requires
            old(self).wf(),
        ensures
            final(self).wf(),
            final(self)@ == (DbView { channels: old(self)@.channels.insert(key@), ..old(self)@ }),
    {
        let ghost pairs = channel_pairs(self.pub_sub@);
        match find_channel(&self.pub_sub, &key) {
            Some(i) => {
                proof {
                    lemma_index(pairs, i as int);
                    assert(self@.channels.insert(key@) =~= self@.channels);
                }
                subscribe(&self.pub_sub[i].sender)
            },
            None => {
                let (tx, rx) = channel(CAPACITY);
                proof {
                    lemma_push(pairs, (key@, ()));
                }
                self.pub_sub.push(Channel { name: key, sender: tx });
                proof {
                    assert(channel_pairs(self.pub_sub@) =~= pairs.push((key@, ())));
                    assert(self@.channels =~= old(self)@.channels.insert(key@));
                }
                rx
            },
        }
    }

    /// Sends `value` on the channel named `key` and tells how many
    /// subscribers the channel had. Without such a channel nothing is sent
    /// and the number is zero; a channel that subscribers were sent to had
    /// at least one.
    pub fn publish(&self, key: &str, value: Bytes) -> (count: usize)
        requires
            self.wf(),
        ensures
            !self@.channels.contains(key@) ==> count == 0,
    {
        let key = key.to_owned();
        match find_channel(&self.pub_sub, &key) {
            Some(i) => {
                proof {
                    lemma_index(channel_pairs(self.pub_sub@), i as int);
                }
                delivered(send(&self.pub_sub[i].sender, value))
            },
            None => 0,
        }
    }

    /// Removes the entries that have expired at `now` and tells the next
    /// deadline. A state that is shut down is left as it is, and has no next
    /// deadline.
    pub fn purge_expired_keys(&mut self, now: Instant) -> (next: Option<Instant>)
        requires
            old(self).wf(),
        ensures
            final(self).wf(),
            final(self)@ == after_purge(old(self)@, now),
            old(self)@.shutdown ==> next is None,
            !old(self)@.shutdown ==> match next {
                Some(when) => is_earliest(final(self)@.expirations, when) && when > now,
                None => no_deadline(final(self)@.expirations),
            },
    {
        if self.shutdown {
            return None;
        }
        let ghost s = self@;
        while self.expirations.len() > 0 && self.expirations[0].when <= now
            invariant
                self.wf(),
                s == old(self)@,
                !s.shutdown,
                self@.channels == s.channels,
                self@.next_id == s.next_id,
                self@.shutdown == s.shutdown,
                forall|r: (Instant, u64)| #[trigger]
                    s.expirations.contains_key(r) ==> self@.expirations.contains_key(r) || r.0
                        <= now,
                forall|r: (Instant, u64)| #[trigger]
                    self@.expirations.contains_key(r) ==> s.expirations.contains_key(r)
                        && s.expirations[r] == self@.expirations[r],
                forall|k: Seq<char>| #[trigger]
                    s.entries.contains_key(k) ==> self@.entries.contains_key(k) || expired(
                        s.entries[k],
                        now,
                    ),
                forall|k: Seq<char>| #[trigger]
                    self@.entries.contains_key(k) ==> s.entries.contains_key(k) && s.entries[k]
                        == self@.entries[k],
            decreases self.expirations.len(),
        {
            let ghost cur = self@;
            let when = self.expirations[0].when;
            let id = self.expirations[0].id;
            let key = self.expirations[0].key.clone();
            proof {
                lemma_sorted_distinct(self.expirations@);
                lemma_index(row_pairs(self.expirations@), 0);
                assert(cur.expirations.contains_key((when, id)));
                assert(cur.expirations[(when, id)] == key@);
            }
            remove_slot(&mut self.entries, &key);
            remove_row(&mut self.expirations, when, id);
            proof {
                let new = self@;
                assert(new.entries == cur.entries.remove(key@));
                assert(new.expirations == cur.expirations.remove((when, id)));
                assert forall|k: Seq<char>| #[trigger] new.entries.contains_key(k) implies (
                new.entries[k].expires_at matches Some(w) ==> new.expirations.contains_key(
                    (w, new.entries[k].id),
                ) && new.expirations[(w, new.entries[k].id)] == k) by {
                    assert(cur.entries.contains_key(k));
                }
                assert forall|r: (Instant, u64)| #[trigger]
                    new.expirations.contains_key(r) implies (new.entries.contains_key(
                    new.expirations[r],
                ) && new.entries[new.expirations[r]].id == r.1
                    && new.entries[new.expirations[r]].expires_at == Some(r.0)) by {
                    assert(cur.expirations.contains_key(r));
                }
                assert forall|k: Seq<char>| #[trigger] new.entries.contains_key(k) implies
                    new.entries[k].id < new.next_id by {
                    assert(cur.entries.contains_key(k));
                }
                assert(consistent(new));
                assert forall|k: Seq<char>| #[trigger] s.entries.contains_key(k) implies (
                new.entries.contains_key(k) || expired(s.entries[k], now)) by {
                    if k == key@ {
                        assert(cur.entries.contains_key(k) ==> s.entries[k] == cur.entries[k]);
                    }
                }
            }
        }
        let next = first_deadline(&self.expirations);
        proof {
            let new = self@;
            let goal = after_purge(s, now);
            lemma_sorted_distinct(self.expirations@);
            if self.expirations@.len() > 0 {
                lemma_index(row_pairs(self.expirations@), 0);
            }
            assert forall|r: (Instant, u64)| #[trigger] new.expirations.contains_key(r) implies r.0
                > now by {}
            assert forall|k: Seq<char>| #[trigger] new.entries.contains_key(k) implies !expired(
                s.entries[k],
                now,
            ) by {
                if new.entries[k].expires_at is Some {
                    let w = new.entries[k].expires_at->Some_0;
                    assert(new.expirations.contains_key((w, new.entries[k].id)));
                }
            }
            assert(new.expirations =~= goal.expirations);
            assert(new.entries =~= goal.entries);
        }
        next
    }

    /// One turn of the expiration worker at the instant `now`: what has
    /// expired is removed, and the worker is told how long to sleep. Once
    /// the state is shut down the worker stops.
    pub fn purge_expired_tasks(&mut self, now: Instant) -> (wait: Wait)
        requires
            old(self).wf(),
        ensures
            final(self).wf(),
            final(self)@ == after_purge(old(self)@, now),
            match wait {
                Wait::Exit => old(self)@.shutdown,
                Wait::Until(when) => !old(self)@.shutdown && is_earliest(
                    final(self)@.expirations,
                    when,
                ) && when > now,
                Wait::Notified => !old(self)@.shutdown && no_deadline(final(self)@.expirations),
            },
    {
        if self.is_shutdown() {
            return Wait::Exit;
        }
        match self.purge_expired_keys(now) {
            Some(when) => Wait::Until(when),
            None => Wait::Notified,
        }
    }

    /// Takes note that a handle to the state goes away. `handles` is the
    /// number of handles before that; with two, the one that goes is the
    /// last but the worker's own, so the worker is told to stop, and is to
    /// be woken.
    pub fn drop_handle(&mut self, handles: usize) -> (notify: bool)
        ensures
            notify == (handles == 2),
            final(self)@ == (DbView {
                shutdown: old(self)@.shutdown || handles == 2,
                ..old(self)@
            }),
            old(self).wf() ==> final(self).wf(),
    {
        if handles == 2 {
            self.shutdown = true;
            true
        } else {
            false
        }
    }

    /// The number that the next entry gets.
    pub fn next_id(&self) -> (id: u64)
        ensures
            id == self@.next_id,
    {
        self.next_id
    }

    /// Whether the expiration worker has been told to stop.
    pub fn is_shutdown(&self) -> (b: bool)
        ensures
            b == self@.shutdown,
    {
        self.shutdown
    }
}

} // verus!
