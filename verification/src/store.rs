//! The layout of the fact log: how keys are formed and read back, which
//! entries a query selects, and why a scan in key order is a scan in time
//! order.
//!
//! A key is the timestamp as twenty decimal digits, an underscore, and the
//! identifier that the store assigned to the write, as twenty decimal digits
//! too. The store hands its entries out in the order of their keys, so that
//! a scan goes by time and, within one timestamp, by the order of the writes.

use vstd::prelude::*;
use vstd::utf8::{
    encode_utf8, encode_utf8_valid_utf8, is_ascii_chars, is_ascii_chars_encode_utf8, valid_utf8,
};
use crate::decimal::{
    all_digits, ascii_text, is_digit, lemma_bytes_lt_concat,
    lemma_decimal_digits_u64, lemma_digits_order, lemma_zero_padded, parse_u64, parsed_u64,
    push_zero_padded, zero_padded,
};
use crate::encoding::is_utf8;
use crate::facts::AgentFact;
use crate::text::{bytes_lt, lemma_bytes_lt_irreflexive, lemma_bytes_lt_transitive};

verus! {

/// The number of digits that a timestamp takes in a key.
pub const TIMESTAMP_WIDTH: usize = 20;

/// The number of digits that the identifier of a write takes in a key.
pub const ID_WIDTH: usize = 20;

/// The byte between the timestamp and the identifier: an underscore.
pub const KEY_SEPARATOR: u8 = 95;

/// An entry of the log as a scan hands it over: the key, and the fact that
/// the value decodes to, where it decodes to one.
#[derive(Debug)]
pub struct StoredEntry {
    pub key: Vec<u8>,
    pub fact: Option<AgentFact>,
}

/// The key of the write `id` of a fact with the given timestamp: each as a
/// numeral of twenty digits, with the separator between them.
pub open spec fn fact_key_bytes(timestamp: u64, id: u64) -> Seq<u8> {
    zero_padded(timestamp as nat, TIMESTAMP_WIDTH as nat) + seq![KEY_SEPARATOR] + zero_padded(
        id as nat,
        ID_WIDTH as nat,
    )
}

/// The place of the first separator in a key.
pub open spec fn separator_index(key: Seq<u8>) -> Option<int>
    decreases key.len(),
{
    if key.len() == 0 {
        None
    } else if key.first() == KEY_SEPARATOR {
        Some(0)
    } else {
        match separator_index(key.drop_first()) {
            Some(i) => Some(i + 1),
            None => None,
        }
    }
}

/// The timestamp that a key carries: the key is UTF-8 and holds a separator,
/// and what stands before the first one reads as a number of 64 bits.
pub open spec fn key_time(key: Seq<u8>) -> Option<u64> {
    if !valid_utf8(key) {
        None
    } else {
        match separator_index(key) {
            Some(i) => parsed_u64(key.take(i)),
            None => None,
        }
    }
}

/// Whether a query from `start` selects the entry: its key carries a
/// timestamp that is not below `start`, and its value decoded. No entry is
/// selected from a start that no timestamp of 64 bits reaches.
pub open spec fn is_selected(entry: StoredEntry, start: u128) -> bool {
    &&& entry.fact is Some
    &&& key_time(entry.key@) matches Some(time)
    &&& time >= start
}

/// The places of the entries that a query selects, in the order of the scan.
pub open spec fn selected_indices(entries: Seq<StoredEntry>, start: u128) -> Seq<int>
    decreases entries.len(),
{
    if entries.len() == 0 {
        Seq::empty()
    } else if is_selected(entries.last(), start) {
        selected_indices(entries.drop_last(), start).push(entries.len() - 1)
    } else {
        selected_indices(entries.drop_last(), start)
    }
}

/// The facts that a query selects, in the order of the scan.
pub open spec fn selected_facts(entries: Seq<StoredEntry>, start: u128) -> Seq<AgentFact> {
    let indices = selected_indices(entries, start);
    Seq::new(indices.len(), |k: int| entries[indices[k]].fact->0)
}

/// Whether the entries stand in the order of their keys, each key once: the
/// order in which the store hands them out.
pub open spec fn in_key_order(entries: Seq<StoredEntry>) -> bool {
    forall|i: int, j: int|
        0 <= i < j < entries.len() ==> bytes_lt(
            (#[trigger] entries[i]).key@,
            (#[trigger] entries[j]).key@,
        )
}

/// Whether each entry that decoded stands under the key of its own
/// timestamp and of the identifier in `ids`: it was written by `record`.
pub open spec fn written_by_record(entries: Seq<StoredEntry>, ids: Seq<u64>) -> bool {
    &&& ids.len() == entries.len()
    &&& forall|i: int|
        0 <= i < entries.len() && (#[trigger] entries[i]).fact is Some ==> entries[i].key@
            == fact_key_bytes(entries[i].fact->0.timestamp, ids[i])
}

/// The places that a query selects are places of the scan, in rising order;
/// each holds a selected entry, and no selected entry is left out.
pub proof fn lemma_selected_indices(entries: Seq<StoredEntry>, start: u128)
    ensures
        forall|k: int|
            0 <= k < selected_indices(entries, start).len() ==> 0 <= (
            #[trigger] selected_indices(entries, start)[k]) < entries.len() && is_selected(
                entries[selected_indices(entries, start)[k]],
                start,
            ),
        forall|k: int, l: int|
            0 <= k < l < selected_indices(entries, start).len() ==> selected_indices(
                entries,
                start,
            )[k] < selected_indices(entries, start)[l],
        forall|i: int|
            0 <= i < entries.len() && is_selected(#[trigger] entries[i], start)
                ==> selected_indices(entries, start).contains(i),
        selected_indices(entries, start).len() <= entries.len(),
    decreases entries.len(),
{
    if entries.len() > 0 {
        let head = entries.drop_last();
        let inner = selected_indices(head, start);
        let outer = selected_indices(entries, start);
        lemma_selected_indices(head, start);
        assert forall|k: int| 0 <= k < outer.len() implies 0 <= (#[trigger] outer[k])
            < entries.len() && is_selected(entries[outer[k]], start) by {
            if k < inner.len() {
                assert(outer[k] == inner[k]);
                assert(head[inner[k]] == entries[inner[k]]);
            }
        }
        assert forall|k: int, l: int| 0 <= k < l < outer.len() implies outer[k] < outer[l] by {
            assert(outer[k] == inner[k]);
            if l < inner.len() {
                assert(outer[l] == inner[l]);
            }
        }
        assert forall|i: int|
            0 <= i < entries.len() && is_selected(#[trigger] entries[i], start) implies outer.contains(
            i,
        ) by {
            if i < head.len() {
                assert(head[i] == entries[i]);
                assert(inner.contains(i));
                let k = choose|k: int| 0 <= k < inner.len() && inner[k] == i;
                assert(outer[k] == i);
            } else {
                assert(outer[outer.len() - 1] == i);
            }
        }
    }
}

/// A byte string of ASCII is UTF-8.
pub proof fn lemma_ascii_is_utf8(bytes: Seq<u8>)
    requires
        forall|i: int| 0 <= i < bytes.len() ==> #[trigger] bytes[i] < 128,
    ensures
        valid_utf8(bytes),
{
    let chars = ascii_text(bytes);
    assert(is_ascii_chars(chars)) by {
        assert forall|i: int| 0 <= i < chars.len() implies '\0' <= #[trigger] chars[i]
            <= '\u{7f}' by {
            assert(bytes[i] < 128);
        }
    }
    is_ascii_chars_encode_utf8(chars);
    assert(encode_utf8(chars) =~= bytes) by {
        assert forall|i: int| 0 <= i < bytes.len() implies encode_utf8(chars)[i] == bytes[i] by {
            assert(chars[i] as u8 == encode_utf8(chars)[i]);
            assert(bytes[i] < 128);
        }
    }
    encode_utf8_valid_utf8(chars);
}

/// The first separator of a byte string that starts with digits only and
/// then has a separator is that separator.
pub proof fn lemma_separator_after_digits(digits: Seq<u8>, rest: Seq<u8>)
    requires
        all_digits(digits),
    ensures
        separator_index(digits + seq![KEY_SEPARATOR] + rest) == Some(digits.len() as int),
    decreases digits.len(),
{
    let key = digits + seq![KEY_SEPARATOR] + rest;
    if digits.len() == 0 {
        assert(key.first() == KEY_SEPARATOR);
    } else {
        assert(is_digit(digits[0]));
        assert(key.first() == digits[0]);
        let tail = digits.drop_first();
        assert(all_digits(tail)) by {
            assert forall|i: int| 0 <= i < tail.len() implies is_digit(#[trigger] tail[i]) by {
                assert(tail[i] == digits[i + 1]);
            }
        }
        assert(key.drop_first() =~= tail + seq![KEY_SEPARATOR] + rest);
        lemma_separator_after_digits(tail, rest);
    }
}

/// A key gives back the timestamp that it was formed from.
pub proof fn lemma_key_time_of_fact_key(timestamp: u64, id: u64)
    ensures
        key_time(fact_key_bytes(timestamp, id)) == Some(timestamp),
{
    let stamp = zero_padded(timestamp as nat, TIMESTAMP_WIDTH as nat);
    let number = zero_padded(id as nat, ID_WIDTH as nat);
    let key = fact_key_bytes(timestamp, id);
    lemma_zero_padded(timestamp as nat, TIMESTAMP_WIDTH as nat);
    lemma_zero_padded(id as nat, ID_WIDTH as nat);
    lemma_decimal_digits_u64(timestamp);
    lemma_separator_after_digits(stamp, number);
    assert(key.take(stamp.len() as int) =~= stamp);
    assert(stamp.len() == 20);
    assert(is_digit(stamp[0]));
    assert(stamp[0] != 43);
    assert forall|i: int| 0 <= i < key.len() implies #[trigger] key[i] < 128 by {
        if i < stamp.len() {
            assert(is_digit(stamp[i]));
        } else if i > stamp.len() {
            assert(is_digit(number[i - stamp.len() - 1]));
        }
    }
    lemma_ascii_is_utf8(key);
}

/// Keys are ordered as time and writes are: the key of an earlier timestamp
/// is below the key of a later one, whatever the identifiers, and of two keys
/// with one timestamp the one with the lower identifier is below the other.
/// Two keys are equal only if timestamp and identifier are.
pub proof fn lemma_fact_key_order(time_a: u64, id_a: u64, time_b: u64, id_b: u64)
    ensures
        time_a < time_b ==> bytes_lt(fact_key_bytes(time_a, id_a), fact_key_bytes(time_b, id_b)),
        time_a == time_b ==> bytes_lt(fact_key_bytes(time_a, id_a), fact_key_bytes(time_b, id_b))
            == (id_a < id_b),
        bytes_lt(fact_key_bytes(time_a, id_a), fact_key_bytes(time_b, id_b)) == (time_a < time_b
            || (time_a == time_b && id_a < id_b)),
        fact_key_bytes(time_a, id_a) == fact_key_bytes(time_b, id_b) ==> time_a == time_b && id_a
            == id_b,
{
    let stamp_a = zero_padded(time_a as nat, TIMESTAMP_WIDTH as nat);
    let stamp_b = zero_padded(time_b as nat, TIMESTAMP_WIDTH as nat);
    let number_a = zero_padded(id_a as nat, ID_WIDTH as nat);
    let number_b = zero_padded(id_b as nat, ID_WIDTH as nat);
    let rest_a = seq![KEY_SEPARATOR] + number_a;
    let rest_b = seq![KEY_SEPARATOR] + number_b;
    lemma_zero_padded(time_a as nat, TIMESTAMP_WIDTH as nat);
    lemma_zero_padded(time_b as nat, TIMESTAMP_WIDTH as nat);
    lemma_zero_padded(id_a as nat, ID_WIDTH as nat);
    lemma_zero_padded(id_b as nat, ID_WIDTH as nat);
    lemma_decimal_digits_u64(time_a);
    lemma_decimal_digits_u64(time_b);
    lemma_decimal_digits_u64(id_a);
    lemma_decimal_digits_u64(id_b);
    lemma_digits_order(stamp_a, stamp_b);
    lemma_digits_order(number_a, number_b);
    assert(fact_key_bytes(time_a, id_a) =~= stamp_a + rest_a);
    assert(fact_key_bytes(time_b, id_b) =~= stamp_b + rest_b);
    lemma_bytes_lt_concat(stamp_a, rest_a, stamp_b, rest_b);
    lemma_bytes_lt_concat(seq![KEY_SEPARATOR], number_a, seq![KEY_SEPARATOR], number_b);
    if fact_key_bytes(time_a, id_a) == fact_key_bytes(time_b, id_b) {
        assert(stamp_a =~= (stamp_a + rest_a).take(20));
        assert(stamp_b =~= (stamp_b + rest_b).take(20));
        assert(rest_a =~= (stamp_a + rest_a).skip(20));
        assert(rest_b =~= (stamp_b + rest_b).skip(20));
        assert(number_a =~= rest_a.skip(1));
        assert(number_b =~= rest_b.skip(1));
    }
}

/// A query gives the facts in the order of time, and facts with one
/// timestamp in the order in which they were written. Where the entries
/// stand in the order of their keys and were written by `record`, the
/// timestamps of the selected facts never fall, and of two selected facts
/// with one timestamp the one with the lower identifier, the one written
/// first, comes first.
pub proof fn lemma_query_in_time_order(
    entries: Seq<StoredEntry>,
    ids: Seq<u64>,
    start: u128,
    k: int,
    l: int,
)
    requires
        in_key_order(entries),
        written_by_record(entries, ids),
        0 <= k < l < selected_facts(entries, start).len(),
    ensures
        selected_facts(entries, start)[k].timestamp <= selected_facts(entries, start)[l].timestamp,
        selected_facts(entries, start)[k].timestamp == selected_facts(entries, start)[l].timestamp
            ==> ids[selected_indices(entries, start)[k]] < ids[selected_indices(entries, start)[l]],
{
    let indices = selected_indices(entries, start);
    lemma_selected_indices(entries, start);
    let i = indices[k];
    let j = indices[l];
    assert(i < j);
    let first = entries[i];
    let second = entries[j];
    assert(is_selected(first, start) && is_selected(second, start));
    let time_a = first.fact->0.timestamp;
    let time_b = second.fact->0.timestamp;
    assert(bytes_lt(first.key@, second.key@));
    assert(first.key@ == fact_key_bytes(time_a, ids[i]));
    assert(second.key@ == fact_key_bytes(time_b, ids[j]));
    lemma_fact_key_order(time_a, ids[i], time_b, ids[j]);
}

/// Write order within one timestamp. Of two entries that `record` wrote
/// with one timestamp, the one that was written first, with the lower
/// identifier, stands first in a scan in key order.
pub proof fn lemma_ties_keep_write_order(
    entries: Seq<StoredEntry>,
    ids: Seq<u64>,
    i: int,
    j: int,
)
    requires
        in_key_order(entries),
        written_by_record(entries, ids),
        0 <= i < entries.len(),
        0 <= j < entries.len(),
        entries[i].fact is Some,
        entries[j].fact is Some,
        entries[i].fact->0.timestamp == entries[j].fact->0.timestamp,
        ids[i] < ids[j],
    ensures
        i < j,
{
    lemma_fact_key_order(
        entries[i].fact->0.timestamp,
        ids[i],
        entries[j].fact->0.timestamp,
        ids[j],
    );
    lemma_fact_key_order(
        entries[j].fact->0.timestamp,
        ids[j],
        entries[i].fact->0.timestamp,
        ids[i],
    );
    if j < i {
        assert(bytes_lt(entries[j].key@, entries[i].key@));
    }
}

/// Of what `record` wrote, a query selects by the timestamp of the fact: an
/// entry that stands under the key of its fact is selected exactly when its
/// value decoded and the timestamp of the fact is not below `start`.
pub proof fn lemma_query_selects_by_fact_time(
    entries: Seq<StoredEntry>,
    ids: Seq<u64>,
    start: u128,
    i: int,
)
    requires
        written_by_record(entries, ids),
        0 <= i < entries.len(),
        entries[i].fact is Some,
    ensures
        is_selected(entries[i], start) <==> entries[i].fact->0.timestamp >= start,
        selected_indices(entries, start).contains(i) <==> entries[i].fact->0.timestamp >= start,
{
    lemma_key_time_of_fact_key(entries[i].fact->0.timestamp, ids[i]);
    lemma_selected_indices(entries, start);
    let indices = selected_indices(entries, start);
    if indices.contains(i) {
        let k = choose|k: int| 0 <= k < indices.len() && indices[k] == i;
        assert(is_selected(entries[indices[k]], start));
    }
}

/// A query from the beginning leaves out nothing that `record` wrote: each
/// entry that stands under the key of its fact, and whose value decoded, is
/// among the selected ones.
pub proof fn lemma_query_returns_what_record_wrote(
    entries: Seq<StoredEntry>,
    ids: Seq<u64>,
    i: int,
)
    requires
        written_by_record(entries, ids),
        0 <= i < entries.len(),
        entries[i].fact is Some,
    ensures
        selected_indices(entries, 0).contains(i),
        selected_facts(entries, 0).contains(entries[i].fact->0),
{
    lemma_key_time_of_fact_key(entries[i].fact->0.timestamp, ids[i]);
    assert(is_selected(entries[i], 0));
    lemma_selected_indices(entries, 0);
    let indices = selected_indices(entries, 0);
    let k = choose|k: int| 0 <= k < indices.len() && indices[k] == i;
    assert(selected_facts(entries, 0)[k] == entries[i].fact->0);
}

/// The key under which the write `id` of a fact with the given timestamp is
/// stored.
pub fn fact_key(timestamp: u64, id: u64) -> (key: Vec<u8>)
    ensures
        key@ == fact_key_bytes(timestamp, id),
{
    let mut key: Vec<u8> = Vec::new();
    push_zero_padded(&mut key, timestamp, TIMESTAMP_WIDTH);
    key.push(KEY_SEPARATOR);
    push_zero_padded(&mut key, id, ID_WIDTH);
    assert(key@ =~= fact_key_bytes(timestamp, id));
    key
}

/// The place of the first separator in a key.
fn find_separator(key: &[u8]) -> (found: Option<usize>)
    ensures
        match found {
            Some(i) => separator_index(key@) == Some(i as int) && i < key.len(),
            None => separator_index(key@) is None,
        },
{
    let mut i: usize = 0;
    assert(key@.skip(0) =~= key@);
    while i < key.len()
        invariant
            i <= key.len(),
            separator_index(key@) == match separator_index(key@.skip(i as int)) {
                Some(k) => Some(k + i),
                None => None,
            },
        decreases key.len() - i,
    {
        assert(key@.skip(i as int).first() == key@[i as int]);
        if key[i] == KEY_SEPARATOR {
            return Some(i);
        }
        assert(key@.skip(i as int).drop_first() =~= key@.skip(i + 1));
        i += 1;
    }
    assert(key@.skip(i as int).len() == 0);
    None
}

/// The timestamp that a key carries, if it carries one.
pub fn key_timestamp(key: &[u8]) -> (time: Option<u64>)
    ensures
        time == key_time(key@),
{
    if !is_utf8(key) {
        return None;
    }
    match find_separator(key) {
        Some(i) => {
            let stamp = vstd::slice::slice_subrange(key, 0, i);
            assert(stamp@ =~= key@.take(i as int));
            parse_u64(stamp)
        },
        None => None,
    }
}

/// No timestamp of 64 bits reaches a start beyond them: such a query selects
/// nothing.
pub proof fn lemma_query_beyond_all_timestamps(entries: Seq<StoredEntry>, start: u128)
    requires
        start > u64::MAX,
    ensures
        selected_indices(entries, start).len() == 0,
        selected_facts(entries, start).len() == 0,
{
    lemma_selected_indices(entries, start);
    let indices = selected_indices(entries, start);
    if indices.len() > 0 {
        assert(is_selected(entries[indices[0]], start));
    }
}

/// The facts with a timestamp of `start_ts` or later, in the order of the
/// scan. The timestamp is read from the key; an entry whose key carries none,
/// or whose value did not decode, is passed over. From a start beyond every
/// timestamp of 64 bits nothing comes back.
pub fn facts_since(entries: Vec<StoredEntry>, start_ts: u128) -> (facts: Vec<AgentFact>)
    ensures
        facts@ == selected_facts(entries@, start_ts),
        start_ts > u64::MAX ==> facts@.len() == 0,
{
    proof {
        if start_ts > u64::MAX {
            lemma_query_beyond_all_timestamps(entries@, start_ts);
        }
    }
    let mut facts: Vec<AgentFact> = Vec::new();
    assert(entries@.take(0) =~= Seq::<StoredEntry>::empty());
    for entry in scan: entries
        invariant
            scan.seq() == entries@,
            facts@ == selected_facts(entries@.take(scan.index() as int), start_ts),
    {
        let ghost i = scan.index() as int;
        let ghost seen = entries@.take(i);
        let ghost more = entries@.take(i + 1);
        assert(more.drop_last() =~= seen);
        assert(more.last() == entry);
        let StoredEntry { key, fact } = entry;
        let selected = match fact {
            Some(found) => match key_timestamp(key.as_slice()) {
                Some(time) => if time as u128 >= start_ts {
                    Some(found)
                } else {
                    None
                },
                None => None,
            },
            None => None,
        };
        proof {
            lemma_selected_indices(seen, start_ts);
            lemma_selected_indices(more, start_ts);
        }
        match selected {
            Some(found) => {
                assert(is_selected(more.last(), start_ts));
                facts.push(found);
                assert(facts@ =~= selected_facts(more, start_ts)) by {
                    let inner = selected_indices(seen, start_ts);
                    assert forall|k: int| 0 <= k < inner.len() implies seen[inner[k]]
                        == more[inner[k]] by {}
                }
            },
            None => {
                assert(!is_selected(more.last(), start_ts));
                assert(facts@ =~= selected_facts(more, start_ts)) by {
                    let inner = selected_indices(seen, start_ts);
                    assert forall|k: int| 0 <= k < inner.len() implies seen[inner[k]]
                        == more[inner[k]] by {}
                }
            },
        }
    }
    assert(entries@.take(entries@.len() as int) =~= entries@);
    facts
}

} // verus!
