//! Formats: named codecs between values and bytes.
//!
//! One format is built in, `binary`. It writes a value as a tag byte
//! followed by the value's content: nothing for null, one byte for a
//! boolean, eight bytes, lowest first, for an integer or for the bits of a
//! float, and a count in eight bytes followed by the bytes of a string, the
//! items of a list, or the keys and values of a dictionary.

use vstd::prelude::*;
use vstd::bytes::{
    lemma_auto_spec_u64_to_from_le_bytes, spec_u64_from_le_bytes, spec_u64_to_le_bytes,
};
use vstd::bytes::{u64_from_le_bytes, u64_to_le_bytes};
use vstd::slice::slice_subrange;
use vstd::string::StringSliceAdditionalSpecFns;
use crate::value::{distinct_keys, Datum, Dict, List, Value, Variant};

verus! {

pub const TAG_NULL: u8 = 0;

pub const TAG_BOOL: u8 = 1;

pub const TAG_INT: u8 = 2;

pub const TAG_UINT: u8 = 3;

pub const TAG_FLOAT: u8 = 4;

pub const TAG_STRING: u8 = 5;

pub const TAG_LIST: u8 = 6;

pub const TAG_DICT: u8 = 7;

/// How deep lists and dictionaries may lie within one another in a value
/// that is written or read.
pub const MAX_DEPTH: usize = 64;

/// Whether a value can be written with lists and dictionaries at most
/// `room` deep: nothing lies deeper, and every count fits in eight bytes.
pub open spec fn fits(datum: Datum, room: nat) -> bool
    decreases datum,
{
    match datum {
        Datum::String(bytes) => bytes.len() <= u64::MAX,
        Datum::List(items) => {
            &&& room > 0
            &&& items.len() <= u64::MAX
            &&& forall|i: int| 0 <= i < items.len() ==> fits(#[trigger] items[i], (room - 1) as nat)
        },
        Datum::Dict(pairs) => {
            &&& room > 0
            &&& pairs.len() <= u64::MAX
            &&& forall|i: int|
                0 <= i < pairs.len() ==> (#[trigger] pairs[i]).0.len() <= u64::MAX && fits(
                    pairs[i].1,
                    (room - 1) as nat,
                )
        },
        _ => true,
    }
}

/// The bytes of a count.
pub open spec fn count_bytes(count: nat) -> Seq<u8> {
    spec_u64_to_le_bytes(count as u64)
}

/// The bytes that a value is written as.
pub open spec fn encoded(datum: Datum) -> Seq<u8>
    decreases datum, 0nat, 0nat,
{
    match datum {
        Datum::Null => seq![TAG_NULL],
        Datum::Bool(value) => seq![TAG_BOOL, if value { 1u8 } else { 0u8 }],
        Datum::Int(value) => seq![TAG_INT] + spec_u64_to_le_bytes(value as u64),
        Datum::UInt(value) => seq![TAG_UINT] + spec_u64_to_le_bytes(value),
        Datum::Float(bits) => seq![TAG_FLOAT] + spec_u64_to_le_bytes(bits),
        Datum::String(bytes) => seq![TAG_STRING] + count_bytes(bytes.len()) + bytes,
        Datum::List(items) => seq![TAG_LIST] + count_bytes(items.len()) + encoded_items(items, 0),
        Datum::Dict(pairs) => seq![TAG_DICT] + count_bytes(pairs.len()) + encoded_pairs(pairs, 0),
    }
}

/// The bytes of the items of a list from a place on, one after the other.
pub open spec fn encoded_items(items: Seq<Datum>, from: nat) -> Seq<u8>
    decreases items, 1nat, items.len() - from,
{
    if from >= items.len() {
        Seq::empty()
    } else {
        encoded(items[from as int]) + encoded_items(items, from + 1)
    }
}

/// The bytes of the entries of a dictionary from a place on: for each its
/// key, as a count and the key's bytes, and then its value.
pub open spec fn encoded_pairs(pairs: Seq<(Seq<u8>, Datum)>, from: nat) -> Seq<u8>
    decreases pairs, 1nat, pairs.len() - from,
{
    if from >= pairs.len() {
        Seq::empty()
    } else {
        count_bytes(pairs[from as int].0.len()) + pairs[from as int].0 + encoded(
            pairs[from as int].1,
        ) + encoded_pairs(pairs, from + 1)
    }
}

/// The count that stands in the first eight bytes, if there are eight.
pub open spec fn parsed_count(bytes: Seq<u8>) -> Option<nat> {
    if bytes.len() >= 8 {
        Some(spec_u64_from_le_bytes(bytes.subrange(0, 8)) as nat)
    } else {
        None
    }
}

/// The value that stands at the front of some bytes, with the number of
/// bytes that it takes; nothing where the bytes do not begin with a value,
/// or where lists and dictionaries lie more than `room` deep in it.
pub open spec fn parsed(bytes: Seq<u8>, room: nat) -> Option<(Datum, nat)>
    decreases bytes.len(), 0nat,
{
    if bytes.len() == 0 {
        None
    } else if bytes[0] == TAG_NULL {
        Some((Datum::Null, 1))
    } else if bytes[0] == TAG_BOOL {
        if bytes.len() >= 2 && bytes[1] <= 1 {
            Some((Datum::Bool(bytes[1] == 1), 2))
        } else {
            None
        }
    } else if bytes[0] == TAG_INT {
        match parsed_count(bytes.skip(1)) {
            Some(raw) => Some((Datum::Int(raw as u64 as i64), 9)),
            None => None,
        }
    } else if bytes[0] == TAG_UINT {
        match parsed_count(bytes.skip(1)) {
            Some(raw) => Some((Datum::UInt(raw as u64), 9)),
            None => None,
        }
    } else if bytes[0] == TAG_FLOAT {
        match parsed_count(bytes.skip(1)) {
            Some(raw) => Some((Datum::Float(raw as u64), 9)),
            None => None,
        }
    } else if bytes[0] == TAG_STRING {
        match parsed_count(bytes.skip(1)) {
            Some(count) => if 9 + count <= bytes.len() {
                Some((Datum::String(bytes.subrange(9, 9 + count as int)), 9 + count))
            } else {
                None
            },
            None => None,
        }
    } else if bytes[0] == TAG_LIST {
        match parsed_count(bytes.skip(1)) {
            Some(count) => if room > 0 {
                match parsed_items(bytes.skip(9), count, (room - 1) as nat) {
                    Some((items, used)) => Some((Datum::List(items), 9 + used)),
                    None => None,
                }
            } else {
                None
            },
            None => None,
        }
    } else if bytes[0] == TAG_DICT {
        match parsed_count(bytes.skip(1)) {
            Some(count) => if room > 0 {
                match parsed_pairs(bytes.skip(9), count, (room - 1) as nat) {
                    Some((pairs, used)) => if distinct_keys(pairs) {
                        Some((Datum::Dict(pairs), 9 + used))
                    } else {
                        None
                    },
                    None => None,
                }
            } else {
                None
            },
            None => None,
        }
    } else {
        None
    }
}

/// The `count` values that stand one after the other at the front of some
/// bytes, with the number of bytes that they take.
pub open spec fn parsed_items(bytes: Seq<u8>, count: nat, room: nat) -> Option<(Seq<Datum>, nat)>
    decreases bytes.len(), 1nat + count,
{
    if count == 0 {
        Some((Seq::empty(), 0))
    } else {
        match parsed(bytes, room) {
            Some((first, used)) => if 0 < used <= bytes.len() {
                match parsed_items(bytes.skip(used as int), (count - 1) as nat, room) {
                    Some((rest, more)) => Some((seq![first] + rest, used + more)),
                    None => None,
                }
            } else {
                None
            },
            None => None,
        }
    }
}

/// The key that stands at the front of some bytes, as a count and then so
/// many bytes, with the number of bytes that it takes.
pub open spec fn parsed_key(bytes: Seq<u8>) -> Option<(Seq<u8>, nat)> {
    match parsed_count(bytes) {
        Some(count) => if 8 + count <= bytes.len() {
            Some((bytes.subrange(8, 8 + count as int), 8 + count))
        } else {
            None
        },
        None => None,
    }
}

/// The `count` entries that stand one after the other at the front of some
/// bytes, with the number of bytes that they take.
pub open spec fn parsed_pairs(bytes: Seq<u8>, count: nat, room: nat) -> Option<
    (Seq<(Seq<u8>, Datum)>, nat),
>
    decreases bytes.len(), 1nat + count,
{
    if count == 0 {
        Some((Seq::empty(), 0))
    } else {
        match parsed_key(bytes) {
            Some((key, taken)) => match parsed(bytes.skip(taken as int), room) {
                Some((value, used)) => if used <= bytes.len() - taken {
                    match parsed_pairs(
                        bytes.skip(taken as int + used as int),
                        (count - 1) as nat,
                        room,
                    ) {
                        Some((rest, more)) => Some((seq![(key, value)] + rest, taken + used + more)),
                        None => None,
                    }
                } else {
                    None
                },
                None => None,
            },
            None => None,
        }
    }
}

/// What reading some bytes gives: the value that they are, where they are
/// exactly one value.
pub open spec fn decoded(bytes: Seq<u8>) -> Option<Datum> {
    match parsed(bytes, MAX_DEPTH as nat) {
        Some((datum, used)) => if used == bytes.len() {
            Some(datum)
        } else {
            None
        },
        None => None,
    }
}


/// A count that was written at the front of some bytes is read back, and
/// takes eight bytes.
pub proof fn lemma_count_round_trip(count: nat, tail: Seq<u8>)
    requires
        count <= u64::MAX,
    ensures
        count_bytes(count).len() == 8,
        parsed_count(count_bytes(count) + tail) == Some(count),
{
    lemma_auto_spec_u64_to_from_le_bytes();
    assert((count_bytes(count) + tail).subrange(0, 8) =~= count_bytes(count));
}

/// A value is written as at least one byte.
pub proof fn lemma_encoded_is_not_empty(datum: Datum)
    ensures
        encoded(datum).len() >= 1,
{
}

/// Reading what was written gives the value back, whatever follows it: a
/// value without a repeated key, no deeper than `room`, is read from the
/// front of its own bytes, and reading it takes exactly those bytes.
pub proof fn lemma_round_trip(datum: Datum, room: nat, tail: Seq<u8>)
    requires
        datum.well_formed(),
        fits(datum, room),
    ensures
        parsed(encoded(datum) + tail, room) == Some((datum, encoded(datum).len())),
    decreases datum, 0nat, 0nat,
{
    lemma_auto_spec_u64_to_from_le_bytes();
    let bytes = encoded(datum) + tail;
    match datum {
        Datum::Null => {},
        Datum::Bool(value) => {},
        Datum::Int(value) => {
            let raw = spec_u64_to_le_bytes(value as u64);
            assert(bytes.skip(1) =~= raw + tail);
            assert((raw + tail).subrange(0, 8) =~= raw);
            assert((value as u64) as i64 == value) by (bit_vector);
        },
        Datum::UInt(value) => {
            let raw = spec_u64_to_le_bytes(value);
            assert(bytes.skip(1) =~= raw + tail);
            assert((raw + tail).subrange(0, 8) =~= raw);
        },
        Datum::Float(bits) => {
            let raw = spec_u64_to_le_bytes(bits);
            assert(bytes.skip(1) =~= raw + tail);
            assert((raw + tail).subrange(0, 8) =~= raw);
        },
        Datum::String(text) => {
            lemma_count_round_trip(text.len(), text + tail);
            assert(bytes.skip(1) =~= count_bytes(text.len()) + (text + tail));
            assert(bytes.subrange(9, 9 + text.len() as int) =~= text);
        },
        Datum::List(items) => {
            let body = encoded_items(items, 0);
            lemma_count_round_trip(items.len(), body + tail);
            assert(bytes.skip(1) =~= count_bytes(items.len()) + (body + tail));
            assert(bytes.skip(9) =~= body + tail);
            lemma_items_round_trip(items, 0, (room - 1) as nat, tail);
            assert(items.skip(0) =~= items);
        },
        Datum::Dict(pairs) => {
            let body = encoded_pairs(pairs, 0);
            lemma_count_round_trip(pairs.len(), body + tail);
            assert(bytes.skip(1) =~= count_bytes(pairs.len()) + (body + tail));
            assert(bytes.skip(9) =~= body + tail);
            lemma_pairs_round_trip(pairs, 0, (room - 1) as nat, tail);
            assert(pairs.skip(0) =~= pairs);
        },
    }
}

/// Reading the items that were written from a place on gives them back,
/// whatever follows them.
pub proof fn lemma_items_round_trip(items: Seq<Datum>, from: nat, room: nat, tail: Seq<u8>)
    requires
        from <= items.len(),
        forall|i: int| 0 <= i < items.len() ==> (#[trigger] items[i]).well_formed(),
        forall|i: int| 0 <= i < items.len() ==> fits(#[trigger] items[i], room),
    ensures
        parsed_items(encoded_items(items, from) + tail, (items.len() - from) as nat, room) == Some(
            (items.skip(from as int), encoded_items(items, from).len()),
        ),
    decreases items, 1nat, items.len() - from,
{
    if from >= items.len() {
        assert(items.skip(from as int) =~= Seq::<Datum>::empty());
    } else {
        let first = items[from as int];
        let rest = encoded_items(items, from + 1);
        let bytes = encoded_items(items, from) + tail;
        assert(bytes =~= encoded(first) + (rest + tail));
        lemma_round_trip(first, room, rest + tail);
        lemma_encoded_is_not_empty(first);
        assert(bytes.skip(encoded(first).len() as int) =~= rest + tail);
        lemma_items_round_trip(items, from + 1, room, tail);
        assert(seq![first] + items.skip(from as int + 1) =~= items.skip(from as int));
    }
}

/// Reading the entries that were written from a place on gives them back,
/// whatever follows them.
pub proof fn lemma_pairs_round_trip(
    pairs: Seq<(Seq<u8>, Datum)>,
    from: nat,
    room: nat,
    tail: Seq<u8>,
)
    requires
        from <= pairs.len(),
        forall|i: int| 0 <= i < pairs.len() ==> (#[trigger] pairs[i]).1.well_formed(),
        forall|i: int|
            0 <= i < pairs.len() ==> (#[trigger] pairs[i]).0.len() <= u64::MAX && fits(
                pairs[i].1,
                room,
            ),
    ensures
        parsed_pairs(encoded_pairs(pairs, from) + tail, (pairs.len() - from) as nat, room) == Some(
            (pairs.skip(from as int), encoded_pairs(pairs, from).len()),
        ),
    decreases pairs, 1nat, pairs.len() - from,
{
    if from >= pairs.len() {
        assert(pairs.skip(from as int) =~= Seq::<(Seq<u8>, Datum)>::empty());
    } else {
        let key = pairs[from as int].0;
        let value = pairs[from as int].1;
        let rest = encoded_pairs(pairs, from + 1);
        let bytes = encoded_pairs(pairs, from) + tail;
        let after_key = encoded(value) + (rest + tail);
        assert(bytes =~= count_bytes(key.len()) + (key + after_key));
        lemma_count_round_trip(key.len(), key + after_key);
        assert(bytes.subrange(8, 8 + key.len() as int) =~= key);
        assert(bytes.skip(8 + key.len() as int) =~= after_key);
        lemma_round_trip(value, room, rest + tail);
        assert(bytes.skip(8 + key.len() as int + encoded(value).len() as int) =~= rest + tail);
        lemma_pairs_round_trip(pairs, from + 1, room, tail);
        assert(seq![(key, value)] + pairs.skip(from as int + 1) =~= pairs.skip(from as int));
    }
}

/// The round-trip law: every value without a repeated key, in which lists
/// and dictionaries lie at most `MAX_DEPTH` deep, is what reading its
/// written bytes gives.
pub proof fn law_round_trip(datum: Datum)
    requires
        datum.well_formed(),
        fits(datum, MAX_DEPTH as nat),
    ensures
        decoded(encoded(datum)) == Some(datum),
{
    lemma_round_trip(datum, MAX_DEPTH as nat, Seq::empty());
    assert(encoded(datum) + Seq::<u8>::empty() =~= encoded(datum));
}


/// Adds the bytes of a count to what has been written.
fn write_count(out: &mut Vec<u8>, count: usize)
    ensures
        final(out)@ == old(out)@ + count_bytes(count as nat),
{
    let mut raw = u64_to_le_bytes(count as u64);
    out.append(&mut raw);
}

/// Adds the bytes of a value to what has been written, unless lists and
/// dictionaries lie more than `room` deep in it; says whether it did.
fn write_variant(variant: &Variant, out: &mut Vec<u8>, room: usize) -> (done: bool)
    ensures
        done == fits(variant@, room as nat),
        done ==> final(out)@ == old(out)@ + encoded(variant@),
        done ==> variant@.well_formed(),
    decreases room,
{
    match variant {
        Variant::Null => {
            out.push(TAG_NULL);
            proof {
                assert(out@ =~= old(out)@ + encoded(variant@));
            }
            true
        },
        Variant::Bool(value) => {
            out.push(TAG_BOOL);
            out.push(if *value { 1u8 } else { 0u8 });
            proof {
                assert(out@ =~= old(out)@ + encoded(variant@));
            }
            true
        },
        Variant::Int(value) => {
            out.push(TAG_INT);
            let mut raw = u64_to_le_bytes(#[verifier::truncate] (*value as u64));
            out.append(&mut raw);
            proof {
                assert(out@ =~= old(out)@ + encoded(variant@));
            }
            true
        },
        Variant::UInt(value) => {
            out.push(TAG_UINT);
            let mut raw = u64_to_le_bytes(*value);
            out.append(&mut raw);
            proof {
                assert(out@ =~= old(out)@ + encoded(variant@));
            }
            true
        },
        Variant::Float(value) => {
            out.push(TAG_FLOAT);
            let mut raw = u64_to_le_bytes(value.to_bits());
            out.append(&mut raw);
            proof {
                assert(out@ =~= old(out)@ + encoded(variant@));
            }
            true
        },
        Variant::String(string) => {
            out.push(TAG_STRING);
            write_count(out, string.len());
            crate::text::append_bytes(out, string.as_slice());
            proof {
                assert(out@ =~= old(out)@ + encoded(variant@));
            }
            true
        },
        Variant::List(list) => {
            if room == 0 {
                return false;
            }
            out.push(TAG_LIST);
            write_count(out, list.len());
            let ghost items = list@;
            let ghost head = old(out)@ + seq![TAG_LIST] + count_bytes(items.len());
            proof {
                assert(out@ =~= head);
                assert(out@ + encoded_items(items, 0) =~= head + encoded_items(items, 0));
            }
            let count = list.len();
            let mut i: usize = 0;
            while i < count
                invariant
                    i <= count,
                    count == items.len(),
                    items == list@,
                    variant@ == Datum::List(items),
                    room > 0,
                    out@ + encoded_items(items, i as nat) == head + encoded_items(items, 0),
                    forall|k: int| 0 <= k < i ==> (#[trigger] items[k]).well_formed(),
                    forall|k: int| 0 <= k < i ==> fits(#[trigger] items[k], (room - 1) as nat),
                decreases count - i,
            {
                let ghost before = out@;
                if !write_variant(list.item(i), out, room - 1) {
                    proof {
                        assert(!fits(items[i as int], (room - 1) as nat));
                    }
                    return false;
                }
                proof {
                    assert(out@ + encoded_items(items, (i + 1) as nat) =~= before + encoded_items(
                        items,
                        i as nat,
                    ));
                }
                i += 1;
            }
            proof {
                assert(out@ =~= old(out)@ + encoded(variant@));
            }
            true
        },
        Variant::Dict(dict) => {
            if room == 0 {
                return false;
            }
            out.push(TAG_DICT);
            let count = dict.len();
            write_count(out, count);
            let ghost pairs = dict@;
            let ghost head = old(out)@ + seq![TAG_DICT] + count_bytes(pairs.len());
            proof {
                assert(out@ =~= head);
                assert(out@ + encoded_pairs(pairs, 0) =~= head + encoded_pairs(pairs, 0));
            }
            let mut i: usize = 0;
            while i < count
                invariant
                    i <= count,
                    count == pairs.len(),
                    pairs == dict@,
                    variant@ == Datum::Dict(pairs),
                    room > 0,
                    out@ + encoded_pairs(pairs, i as nat) == head + encoded_pairs(pairs, 0),
                    forall|k: int| 0 <= k < i ==> (#[trigger] pairs[k]).1.well_formed(),
                    forall|k: int|
                        0 <= k < i ==> (#[trigger] pairs[k]).0.len() <= u64::MAX && fits(
                            pairs[k].1,
                            (room - 1) as nat,
                        ),
                decreases count - i,
            {
                let ghost before = out@;
                let key = dict.key_at(i);
                write_count(out, key.len());
                crate::text::append_bytes(out, key.as_slice());
                let ghost with_key = out@;
                if !write_variant(dict.value_at(i), out, room - 1) {
                    proof {
                        assert(!fits(pairs[i as int].1, (room - 1) as nat));
                    }
                    return false;
                }
                proof {
                    assert(with_key =~= before + count_bytes(pairs[i as int].0.len())
                        + pairs[i as int].0);
                    assert(out@ + encoded_pairs(pairs, (i + 1) as nat) =~= before + encoded_pairs(
                        pairs,
                        i as nat,
                    ));
                }
                i += 1;
            }
            proof {
                assert(out@ =~= old(out)@ + encoded(variant@));
            }
            true
        },
    }
}


/// What is read takes at least one byte and no more bytes than there are.
pub proof fn lemma_parsed_bounds(bytes: Seq<u8>, room: nat)
    ensures
        parsed(bytes, room).is_some() ==> 0 < parsed(bytes, room).unwrap().1 <= bytes.len(),
    decreases bytes.len(), 0nat,
{
    if bytes.len() > 0 {
        if bytes[0] == TAG_LIST && room > 0 {
            match parsed_count(bytes.skip(1)) {
                Some(count) => {
                    lemma_parsed_items_bounds(bytes.skip(9), count, (room - 1) as nat);
                },
                None => {},
            }
        } else if bytes[0] == TAG_DICT && room > 0 {
            match parsed_count(bytes.skip(1)) {
                Some(count) => {
                    lemma_parsed_pairs_bounds(bytes.skip(9), count, (room - 1) as nat);
                },
                None => {},
            }
        }
    }
}

/// The items that are read are as many as were asked for, and take no more
/// bytes than there are.
pub proof fn lemma_parsed_items_bounds(bytes: Seq<u8>, count: nat, room: nat)
    ensures
        parsed_items(bytes, count, room).is_some() ==> parsed_items(bytes, count, room).unwrap().1
            <= bytes.len() && parsed_items(bytes, count, room).unwrap().0.len() == count,
    decreases bytes.len(), 1nat + count,
{
    if count > 0 {
        lemma_parsed_bounds(bytes, room);
        match parsed(bytes, room) {
            Some((first, used)) => {
                if 0 < used <= bytes.len() {
                    lemma_parsed_items_bounds(bytes.skip(used as int), (count - 1) as nat, room);
                }
            },
            None => {},
        }
    }
}

/// The entries that are read are as many as were asked for, and take no
/// more bytes than there are.
pub proof fn lemma_parsed_pairs_bounds(bytes: Seq<u8>, count: nat, room: nat)
    ensures
        parsed_pairs(bytes, count, room).is_some() ==> parsed_pairs(bytes, count, room).unwrap().1
            <= bytes.len() && parsed_pairs(bytes, count, room).unwrap().0.len() == count,
    decreases bytes.len(), 1nat + count,
{
    if count > 0 {
        match parsed_key(bytes) {
            Some((key, taken)) => {
                lemma_parsed_bounds(bytes.skip(taken as int), room);
                match parsed(bytes.skip(taken as int), room) {
                    Some((value, used)) => {
                        if used <= bytes.len() - taken {
                            lemma_parsed_pairs_bounds(
                                bytes.skip(taken as int + used as int),
                                (count - 1) as nat,
                                room,
                            );
                        }
                    },
                    None => {},
                }
            },
            None => {},
        }
    }
}

/// The items read so far, followed by the items still to be read.
pub open spec fn joined_items(
    before: Seq<Datum>,
    taken: nat,
    after: Option<(Seq<Datum>, nat)>,
) -> Option<(Seq<Datum>, nat)> {
    match after {
        Some((rest, more)) => Some((before + rest, taken + more)),
        None => None,
    }
}

/// The entries read so far, followed by the entries still to be read.
pub open spec fn joined_pairs(
    before: Seq<(Seq<u8>, Datum)>,
    taken: nat,
    after: Option<(Seq<(Seq<u8>, Datum)>, nat)>,
) -> Option<(Seq<(Seq<u8>, Datum)>, nat)> {
    match after {
        Some((rest, more)) => Some((before + rest, taken + more)),
        None => None,
    }
}

/// Reads the count that stands at a place in some bytes.
fn read_count(bytes: &[u8], at: usize) -> (count: Option<u64>)
    requires
        at <= bytes@.len(),
    ensures
        count.is_some() == parsed_count(bytes@.skip(at as int)).is_some(),
        count.is_some() ==> parsed_count(bytes@.skip(at as int)) == Some(count.unwrap() as nat),
        count.is_some() ==> at + 8 <= bytes@.len(),
{
    if bytes.len() - at < 8 {
        None
    } else {
        let raw = slice_subrange(bytes, at, at + 8);
        proof {
            assert(bytes@.skip(at as int).subrange(0, 8) =~= bytes@.subrange(
                at as int,
                at + 8,
            ));
        }
        Some(u64_from_le_bytes(raw))
    }
}

/// Reads the key that stands at a place in some bytes, and says where what
/// follows it begins.
fn read_key(bytes: &[u8], at: usize) -> (key: Option<(crate::text::String, usize)>)
    requires
        at <= bytes@.len(),
    ensures
        key.is_some() == parsed_key(bytes@.skip(at as int)).is_some(),
        key.is_some() ==> {
            &&& key.unwrap().0@ == parsed_key(bytes@.skip(at as int)).unwrap().0
            &&& key.unwrap().1 == at + parsed_key(bytes@.skip(at as int)).unwrap().1
            &&& key.unwrap().1 <= bytes@.len()
        },
{
    match read_count(bytes, at) {
        None => None,
        Some(count) => {
            if count > (bytes.len() - at - 8) as u64 {
                return None;
            }
            let end = at + 8 + count as usize;
            let raw = slice_subrange(bytes, at + 8, end);
            proof {
                assert(bytes@.skip(at as int).subrange(8, 8 + count as int) =~= bytes@.subrange(
                    at + 8,
                    end as int,
                ));
            }
            Some((crate::text::String::from(raw), end))
        },
    }
}


/// Reads the value that stands at a place in some bytes, and says where
/// what follows it begins. Nothing is read where the bytes at that place do
/// not begin with a value, or where lists and dictionaries lie more than
/// `room` deep in it.
fn read_variant(bytes: &[u8], at: usize, room: usize) -> (read: Option<(Variant, usize)>)
    requires
        at <= bytes@.len(),
    ensures
        read.is_some() == parsed(bytes@.skip(at as int), room as nat).is_some(),
        read.is_some() ==> {
            &&& read.unwrap().0@ == parsed(bytes@.skip(at as int), room as nat).unwrap().0
            &&& read.unwrap().1 == at + parsed(bytes@.skip(at as int), room as nat).unwrap().1
            &&& read.unwrap().1 <= bytes@.len()
        },
    decreases room,
{
    let ghost here = bytes@.skip(at as int);
    proof {
        lemma_parsed_bounds(here, room as nat);
    }
    if at >= bytes.len() {
        return None;
    }
    let tag = bytes[at];
    proof {
        assert(here[0] == tag);
        assert(here.skip(1) =~= bytes@.skip(at + 1));
    }
    if tag == TAG_NULL {
        return Some((Variant::Null, at + 1));
    }
    if tag == TAG_BOOL {
        if bytes.len() - at < 2 {
            return None;
        }
        let flag = bytes[at + 1];
        proof {
            assert(here[1] == flag);
        }
        if flag > 1 {
            return None;
        }
        return Some((Variant::Bool(flag == 1), at + 2));
    }
    if tag > TAG_DICT {
        return None;
    }
    let count = match read_count(bytes, at + 1) {
        Some(count) => count,
        None => {
            return None;
        },
    };
    let start = at + 9;
    proof {
        assert(here.skip(9) =~= bytes@.skip(start as int));
    }
    if tag == TAG_INT {
        return Some((Variant::Int(#[verifier::truncate] (count as i64)), start));
    }
    if tag == TAG_UINT {
        return Some((Variant::UInt(count), start));
    }
    if tag == TAG_FLOAT {
        return Some((Variant::Float(crate::value::Float::from_bits(count)), start));
    }
    if tag == TAG_STRING {
        if count > (bytes.len() - start) as u64 {
            return None;
        }
        let end = start + count as usize;
        let raw = slice_subrange(bytes, start, end);
        proof {
            assert(here.subrange(9, 9 + count as int) =~= bytes@.subrange(
                start as int,
                end as int,
            ));
        }
        return Some((Variant::String(crate::text::String::from(raw)), end));
    }
    if room == 0 {
        return None;
    }
    if tag == TAG_LIST {
        let mut list = List::new();
        let mut pos = start;
        let mut k: u64 = 0;
        let ghost whole = parsed_items(bytes@.skip(start as int), count as nat, (room - 1) as nat);
        proof {
            if whole.is_some() {
                assert(Seq::<Datum>::empty() + whole.unwrap().0 =~= whole.unwrap().0);
            }
        }
        while k < count
            invariant
                start <= pos <= bytes@.len(),
                k <= count,
                room > 0,
                start == at + 9,
                parsed(bytes@.skip(at as int), room as nat) == match whole {
                    Some((items, used)) => Some((Datum::List(items), 9 + used)),
                    None => None,
                },
                whole == joined_items(
                    list@,
                    (pos - start) as nat,
                    parsed_items(bytes@.skip(pos as int), (count - k) as nat, (room - 1) as nat),
                ),
            decreases count - k,
        {
            let ghost rest = bytes@.skip(pos as int);
            proof {
                lemma_parsed_bounds(rest, (room - 1) as nat);
            }
            match read_variant(bytes, pos, room - 1) {
                None => {
                    return None;
                },
                Some((item, next)) => {
                    proof {
                        let used = parsed(rest, (room - 1) as nat).unwrap().1;
                        assert(rest.skip(used as int) =~= bytes@.skip(next as int));
                        let after = parsed_items(
                            bytes@.skip(next as int),
                            (count - k - 1) as nat,
                            (room - 1) as nat,
                        );
                        if after.is_some() {
                            assert(list@ + (seq![item@] + after.unwrap().0) =~= list@.push(item@)
                                + after.unwrap().0);
                        }
                    }
                    list.push(item);
                    pos = next;
                    k += 1;
                },
            }
        }
        proof {
            assert(list@ + Seq::<Datum>::empty() =~= list@);
        }
        return Some((Variant::List(list), pos));
    }
    let mut dict = Dict::new();
    let mut repeated = false;
    let mut pos = start;
    let mut k: u64 = 0;
    let ghost whole = parsed_pairs(bytes@.skip(start as int), count as nat, (room - 1) as nat);
    let ghost mut seen: Seq<(Seq<u8>, Datum)> = Seq::empty();
    proof {
        if whole.is_some() {
            assert(seen + whole.unwrap().0 =~= whole.unwrap().0);
        }
    }
    while k < count
        invariant
            start <= pos <= bytes@.len(),
            k <= count,
            room > 0,
            start == at + 9,
            parsed(bytes@.skip(at as int), room as nat) == match whole {
                Some((pairs, used)) => if distinct_keys(pairs) {
                    Some((Datum::Dict(pairs), 9 + used))
                } else {
                    None
                },
                None => None,
            },
            whole == joined_pairs(
                seen,
                (pos - start) as nat,
                parsed_pairs(bytes@.skip(pos as int), (count - k) as nat, (room - 1) as nat),
            ),
            repeated == !distinct_keys(seen),
            !repeated ==> dict@ == seen,
        decreases count - k,
    {
        let ghost rest = bytes@.skip(pos as int);
        match read_key(bytes, pos) {
            None => {
                return None;
            },
            Some((key, middle)) => {
                let ghost after_key = bytes@.skip(middle as int);
                proof {
                    let taken = parsed_key(rest).unwrap().1;
                    assert(rest.skip(taken as int) =~= after_key);
                    lemma_parsed_bounds(after_key, (room - 1) as nat);
                }
                match read_variant(bytes, middle, room - 1) {
                    None => {
                        return None;
                    },
                    Some((value, next)) => {
                        proof {
                            let taken = parsed_key(rest).unwrap().1;
                            let used = parsed(after_key, (room - 1) as nat).unwrap().1;
                            assert(rest.skip(taken as int + used as int) =~= bytes@.skip(
                                next as int,
                            ));
                            let after = parsed_pairs(
                                bytes@.skip(next as int),
                                (count - k - 1) as nat,
                                (room - 1) as nat,
                            );
                            if after.is_some() {
                                assert(seen + (seq![(key@, value@)] + after.unwrap().0)
                                    =~= seen.push((key@, value@)) + after.unwrap().0);
                            }
                        }
                        let ghost grown = seen.push((key@, value@));
                        if !repeated {
                            let size = dict.len();
                            if dict.has_key(key.as_slice()) {
                                repeated = true;
                                proof {
                                    crate::value::lemma_position(seen, key@);
                                    let i = crate::value::position(seen, key@);
                                    assert(grown[i].0 == grown[seen.len() as int].0);
                                }
                            } else {
                                dict.insert(key, value);
                                proof {
                                    crate::value::lemma_position(seen, key@);
                                    assert forall|i: int, j: int|
                                        0 <= i < j < grown.len() implies grown[i].0
                                        != grown[j].0 by {
                                        if j < seen.len() {
                                            assert(grown[i] == seen[i]);
                                            assert(grown[j] == seen[j]);
                                        } else {
                                            assert(grown[i] == seen[i]);
                                        }
                                    }
                                }
                            }
                        } else {
                            proof {
                                let (i, j) = choose|i: int, j: int|
                                    0 <= i < j < seen.len() && seen[i].0 == seen[j].0;
                                assert(grown[i].0 == grown[j].0);
                            }
                        }
                        proof {
                            seen = grown;
                        }
                        pos = next;
                        k += 1;
                    },
                }
            },
        }
    }
    proof {
        assert(seen + Seq::<(Seq<u8>, Datum)>::empty() =~= seen);
    }
    if repeated {
        return None;
    }
    Some((Variant::Dict(dict), pos))
}


/// The name of the built-in format.
pub open spec fn binary_name() -> Seq<char> {
    "binary"@
}

/// The message of the error for a value that lies too deep to be written.
pub open spec fn too_deep() -> Seq<char> {
    "value too deep"@
}

/// The message of the error for bytes that are not exactly one value.
pub open spec fn malformed() -> Seq<char> {
    "malformed input"@
}

/// A codec between values and bytes, known by its name.
#[derive(Clone, Copy, Debug, PartialEq, Eq, Structural)]
pub struct Format {
    code: u8,
}

impl Format {
    /// The format registered under a name: `binary` and no other.
    pub fn by_name(name: &str) -> (format: Option<Format>)
        ensures
            format.is_some() <==> name@ == binary_name(),
    {
        if name.to_owned() == "binary".to_owned() {
            Some(Format { code: 0 })
        } else {
            None
        }
    }

    /// The name under which the format is registered.
    pub fn name(&self) -> (name: &'static str)
        ensures
            name@ == binary_name(),
    {
        "binary"
    }

    /// Writes a value as bytes. Fails, with "value too deep", exactly when
    /// lists and dictionaries lie more than `MAX_DEPTH` deep in it.
    pub fn encode(&self, variant: Variant) -> (written: core::result::Result<
        Vec<u8>,
        std::string::String,
    >)
        ensures
            written.is_ok() == fits(variant@, MAX_DEPTH as nat),
            written.is_ok() ==> written.unwrap()@ == encoded(variant@),
            written.is_ok() ==> variant@.well_formed(),
            written.is_err() ==> written.unwrap_err()@ == too_deep(),
    {
        let mut out: Vec<u8> = Vec::new();
        if write_variant(&variant, &mut out, MAX_DEPTH) {
            proof {
                assert(Seq::<u8>::empty() + encoded(variant@) =~= encoded(variant@));
            }
            Ok(out)
        } else {
            Err("value too deep".to_owned())
        }
    }

    /// Writes what a container holds as a byte string. Fails, with "value
    /// too deep", exactly when lists and dictionaries lie more than
    /// `MAX_DEPTH` deep in it.
    pub fn encode_value(&self, value: &Value) -> (written: core::result::Result<
        crate::text::String,
        crate::text::String,
    >)
        ensures
            written.is_ok() == fits(value@, MAX_DEPTH as nat),
            written matches Ok(string) ==> string@ == encoded(value@),
            written matches Err(message) ==> message@ == "value too deep".spec_bytes(),
    {
        match self.encode(value.to_variant()) {
            Ok(bytes) => Ok(crate::text::String::from_vec(bytes)),
            Err(message) => Err(crate::text::String::from("value too deep")),
        }
    }

    /// Reads bytes as a value. Fails, with "malformed input", exactly when
    /// the bytes are not one value and nothing else, with lists and
    /// dictionaries at most `MAX_DEPTH` deep and no key twice in a
    /// dictionary.
    pub fn decode(&self, slice: &[u8]) -> (read: core::result::Result<
        Variant,
        std::string::String,
    >)
        ensures
            read.is_ok() == decoded(slice@).is_some(),
            read matches Ok(variant) ==> decoded(slice@) == Some(variant@),
            read matches Err(message) ==> message@ == malformed(),
    {
        proof {
            assert(slice@.skip(0) =~= slice@);
        }
        match read_variant(slice, 0, MAX_DEPTH) {
            Some((variant, end)) => {
                if end == slice.len() {
                    Ok(variant)
                } else {
                    Err("malformed input".to_owned())
                }
            },
            None => Err("malformed input".to_owned()),
        }
    }

    /// Reads a byte string as a value, into a container. Fails, with
    /// "malformed input", exactly when `decode` fails on its bytes.
    pub fn decode_string(&self, string: &crate::text::String) -> (read: core::result::Result<
        Value,
        crate::text::String,
    >)
        ensures
            read.is_ok() == decoded(string@).is_some(),
            read matches Ok(value) ==> decoded(string@) == Some(value@),
            read matches Err(message) ==> message@ == "malformed input".spec_bytes(),
    {
        match self.decode(string.as_slice()) {
            Ok(variant) => Ok(Value::from_variant(variant)),
            Err(message) => Err(crate::text::String::from("malformed input")),
        }
    }
}

} // verus!
