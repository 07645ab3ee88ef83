//! The subscriptions of one connection: a `tokio_stream::StreamMap` from
//! channel names to the streams of their messages. The handler fills and
//! empties the map; whoever owns the connection polls it for messages.

use crate::cmd::subscribe::texts_of;
use bytes::Bytes;
use tokio::sync::broadcast::Receiver;
use tokio_stream::StreamMap;
use tokio_stream::wrappers::BroadcastStream;
use vstd::prelude::*;

verus! {

/// `tokio_stream::StreamMap`, a list of streams under their keys. Nothing
/// inside it is seen here; the keys it holds have the name below.
#[verifier::external_type_specification]
#[verifier::external_body]
#[verifier::reject_recursive_types(K)]
#[verifier::reject_recursive_types(V)]
pub struct ExStreamMap<K, V>(tokio_stream::StreamMap<K, V>);

/// `tokio_stream::wrappers::BroadcastStream`, the messages of a receiver
/// as a stream. It is carried in the map; nothing of it is stated.
#[verifier::external_type_specification]
#[verifier::external_body]
#[verifier::reject_recursive_types(T)]
pub struct ExBroadcastStream<T>(tokio_stream::wrappers::BroadcastStream<T>);

/// The subscriptions of a connection.
pub type Subscriptions = StreamMap<String, BroadcastStream<Bytes>>;

/// The channel names that a map of subscriptions holds, in the order in
/// which the map keeps them.
pub uninterp spec fn stream_names(map: StreamMap<String, BroadcastStream<Bytes>>) -> Seq<Seq<char>>;

/// The first index at or after `from` at which `names` holds `name`, or the
/// length of `names` if there is none.
pub open spec fn position(names: Seq<Seq<char>>, name: Seq<char>, from: int) -> int
    decreases names.len() - from,
{
    if from < 0 || from >= names.len() {
        names.len() as int
    } else if names[from] == name {
        from
    } else {
        position(names, name, from + 1)
    }
}

/// The names without the one at `i`: the last name takes its place.
pub open spec fn swap_removed(names: Seq<Seq<char>>, i: int) -> Seq<Seq<char>> {
    names.update(i, names.last()).drop_last()
}

/// The names without the first `name` among them, if there is one.
pub open spec fn without(names: Seq<Seq<char>>, name: Seq<char>) -> Seq<Seq<char>> {
    if position(names, name, 0) < names.len() {
        swap_removed(names, position(names, name, 0))
    } else {
        names
    }
}

/// The names after `name` has been put in: it leaves its place, if it has
/// one, and stands last.
pub open spec fn with(names: Seq<Seq<char>>, name: Seq<char>) -> Seq<Seq<char>> {
    without(names, name).push(name)
}

/// Where `position` finds the name, and that it finds it exactly if the
/// name is among the names.
pub proof fn lemma_position(names: Seq<Seq<char>>, name: Seq<char>, from: int)
    requires
        0 <= from <= names.len(),
    ensures
        from <= position(names, name, from) <= names.len(),
        position(names, name, from) < names.len() ==> names[position(names, name, from)] == name,
        forall|j: int| from <= j < position(names, name, from) ==> names[j] != name,
    decreases names.len() - from,
{
    if from < names.len() && names[from] != name {
        lemma_position(names, name, from + 1);
    }
}

/// Taking a name out leaves every other name, and one name fewer if the
/// name was there. From names that differ from one another it takes the
/// name out altogether, and leaves names that differ.
pub proof fn lemma_without(names: Seq<Seq<char>>, name: Seq<char>)
    ensures
        names.contains(name) ==> without(names, name).len() + 1 == names.len(),
        !names.contains(name) ==> without(names, name) == names,
        forall|other: Seq<char>|
            other != name ==> (#[trigger] without(names, name).contains(other) <==> names.contains(
                other,
            )),
        names.no_duplicates() ==> without(names, name).no_duplicates() && !without(
            names,
            name,
        ).contains(name),
{
    lemma_position(names, name, 0);
    let i = position(names, name, 0);
    if i < names.len() {
        let t = swap_removed(names, i);
        assert forall|a: int| 0 <= a < t.len() implies #[trigger] t[a] == (if a == i {
            names.last()
        } else {
            names[a]
        }) by {}
        assert forall|other: Seq<char>| other != name implies (#[trigger] t.contains(other)
            <==> names.contains(other)) by {
            if t.contains(other) {
                let a = choose|a: int| 0 <= a < t.len() && t[a] == other;
                assert(t[a] == (if a == i { names.last() } else { names[a] }));
            }
            if names.contains(other) {
                let b = choose|b: int| 0 <= b < names.len() && names[b] == other;
                if b == names.len() - 1 {
                    assert(t[i] == other);
                } else {
                    assert(t[b] == other);
                }
            }
        }
        if names.no_duplicates() {
            assert forall|a: int, b: int| 0 <= a < t.len() && 0 <= b < t.len() && a != b implies t[a]
                != t[b] by {
                assert(t[a] == (if a == i { names.last() } else { names[a] }));
                assert(t[b] == (if b == i { names.last() } else { names[b] }));
            }
            if t.contains(name) {
                let a = choose|a: int| 0 <= a < t.len() && t[a] == name;
                assert(t[a] == (if a == i { names.last() } else { names[a] }));
            }
        }
    } else {
        if names.contains(name) {
            let j = choose|j: int| 0 <= j < names.len() && names[j] == name;
            assert(names[j] != name);
        }
    }
}

/// Putting a name in gives one name more if the name is new, and as many
/// names as before if it was there; names that differ from one another
/// still do.
pub proof fn lemma_with(names: Seq<Seq<char>>, name: Seq<char>)
    ensures
        with(names, name).contains(name),
        names.contains(name) ==> with(names, name).len() == names.len(),
        !names.contains(name) ==> with(names, name).len() == names.len() + 1,
        names.no_duplicates() ==> with(names, name).no_duplicates(),
{
    lemma_without(names, name);
    let rest = without(names, name);
    let t = rest.push(name);
    assert(t[rest.len() as int] == name);
    if names.no_duplicates() {
        assert forall|a: int, b: int| 0 <= a < t.len() && 0 <= b < t.len() && a != b implies t[a]
            != t[b] by {
            if a == rest.len() {
                assert(rest.contains(rest[b]));
            } else if b == rest.len() {
                assert(rest.contains(rest[a]));
            }
        }
    }
}

/// `StreamMap::new`: an empty map.
#[verifier::external_body]
pub(crate) fn streams_new() -> (map: Subscriptions)
    ensures
        stream_names(map) == Seq::<Seq<char>>::empty(),
{
    StreamMap::new()
}

/// `StreamMap::len`: the number of streams in the map.
#[verifier::external_body]
pub(crate) fn streams_len(map: &Subscriptions) -> (n: usize)
    ensures
        n == stream_names(*map).len(),
{
    map.len()
}

/// `StreamMap::keys`: the keys in the map's order, each copied.
#[verifier::external_body]
pub(crate) fn streams_keys(map: &Subscriptions) -> (keys: Vec<String>)
    ensures
        texts_of(keys@) == stream_names(*map),
{
    map.keys().cloned().collect()
}

/// `StreamMap::insert`, with the stream that `BroadcastStream::new` makes
/// of the receiver: the first entry under the name is taken out, the last
/// entry taking its place, and the new entry is put at the end.
#[verifier::external_body]
pub(crate) fn streams_insert(map: &mut Subscriptions, name: String, rx: Receiver<Bytes>)
    ensures
        stream_names(*final(map)) == with(stream_names(*old(map)), name@),
{
    map.insert(name, BroadcastStream::new(rx));
}

/// `StreamMap::remove`: the first entry under the name is taken out, the
/// last entry taking its place; it tells whether there was one.
#[verifier::external_body]
pub(crate) fn streams_remove(map: &mut Subscriptions, name: &String) -> (removed: bool)
    ensures
        stream_names(*final(map)) == without(stream_names(*old(map)), name@),
        removed == (position(stream_names(*old(map)), name@, 0) < stream_names(*old(map)).len()),
{
    map.remove(name).is_some()
}

} // verus!
