//! Rendering values as text, for people to read.

use vstd::prelude::*;
use crate::text::String;
use crate::value::{lemma_value_field, Datum, Dict, Entry, List, Value, Variant};

verus! {

/// The character of a decimal digit.
pub open spec fn digit(value: nat) -> u8 {
    (48 + value % 10) as u8
}

/// A number in decimal digits, without leading zeros.
pub open spec fn decimal(number: nat) -> Seq<u8>
    decreases number,
{
    if number < 10 {
        seq![digit(number)]
    } else {
        decimal(number / 10).push(digit(number % 10))
    }
}

/// A number in decimal digits, with a minus sign before it where it is
/// negative.
pub open spec fn signed_decimal(number: int) -> Seq<u8> {
    if number < 0 {
        seq![45u8] + decimal((-number) as nat)
    } else {
        decimal(number as nat)
    }
}

/// The character of a hexadecimal digit, in lower case.
pub open spec fn hex_digit(value: u64) -> u8 {
    if value < 10 {
        (48 + value) as u8
    } else {
        (87 + value % 16) as u8
    }
}

/// The sixteen hexadecimal digits of a bit pattern, from the `from`-th on,
/// highest first.
pub open spec fn hex_digits(bits: u64, from: nat) -> Seq<u8>
    decreases 16 - from,
{
    if from >= 16 {
        Seq::empty()
    } else {
        seq![hex_digit((bits >> ((60 - 4 * from) as u64)) & 0xf)] + hex_digits(bits, from + 1)
    }
}

/// The text of a value: `null`, `true` or `false`, an integer in decimal, a
/// float as `0x` and the sixteen hexadecimal digits of its bits, a string
/// between double quotes, a list between square brackets, a dictionary
/// between braces with a colon after each key; items and entries are
/// separated by a comma and a space.
pub open spec fn rendered(datum: Datum) -> Seq<u8>
    decreases datum, 0nat, 0nat,
{
    match datum {
        Datum::Null => seq![110u8, 117u8, 108u8, 108u8],
        Datum::Bool(value) => if value {
            seq![116u8, 114u8, 117u8, 101u8]
        } else {
            seq![102u8, 97u8, 108u8, 115u8, 101u8]
        },
        Datum::Int(value) => signed_decimal(value as int),
        Datum::UInt(value) => decimal(value as nat),
        Datum::Float(bits) => seq![48u8, 120u8] + hex_digits(bits, 0),
        Datum::String(bytes) => seq![34u8] + bytes + seq![34u8],
        Datum::List(items) => seq![91u8] + rendered_items(items, 0) + seq![93u8],
        Datum::Dict(pairs) => seq![123u8] + rendered_pairs(pairs, 0) + seq![125u8],
    }
}

/// The text of the items of a list from a place on.
pub open spec fn rendered_items(items: Seq<Datum>, from: nat) -> Seq<u8>
    decreases items, 1nat, items.len() - from,
{
    if from >= items.len() {
        Seq::empty()
    } else if from + 1 == items.len() {
        rendered(items[from as int])
    } else {
        rendered(items[from as int]) + seq![44u8, 32u8] + rendered_items(items, from + 1)
    }
}

/// The text of one entry of a dictionary.
pub open spec fn rendered_pair(pair: (Seq<u8>, Datum)) -> Seq<u8>
    decreases pair, 0nat, 0nat,
{
    seq![34u8] + pair.0 + seq![34u8, 58u8, 32u8] + rendered(pair.1)
}

/// The text of the entries of a dictionary from a place on.
pub open spec fn rendered_pairs(pairs: Seq<(Seq<u8>, Datum)>, from: nat) -> Seq<u8>
    decreases pairs, 1nat, pairs.len() - from,
{
    if from >= pairs.len() {
        Seq::empty()
    } else if from + 1 == pairs.len() {
        rendered_pair(pairs[from as int])
    } else {
        rendered_pair(pairs[from as int]) + seq![44u8, 32u8] + rendered_pairs(pairs, from + 1)
    }
}


/// Adds a number in decimal digits to what has been written.
fn write_decimal(out: &mut Vec<u8>, number: u64)
    ensures
        final(out)@ == old(out)@ + decimal(number as nat),
    decreases number,
{
    if number >= 10 {
        write_decimal(out, number / 10);
    }
    let last: u8 = 48 + (number % 10) as u8;
    out.push(last);
    proof {
        assert(out@ =~= old(out)@ + decimal(number as nat));
    }
}

/// Adds a number in decimal digits, with its sign where it is negative, to
/// what has been written.
fn write_signed(out: &mut Vec<u8>, number: i64)
    ensures
        final(out)@ == old(out)@ + signed_decimal(number as int),
{
    if number < 0 {
        out.push(45u8);
        let size: u64 = if number == i64::MIN {
            9223372036854775808u64
        } else {
            (-number) as u64
        };
        write_decimal(out, size);
        proof {
            assert(out@ =~= old(out)@ + signed_decimal(number as int));
        }
    } else {
        write_decimal(out, number as u64);
    }
}

/// Adds the sixteen hexadecimal digits of a bit pattern to what has been
/// written.
fn write_hex(out: &mut Vec<u8>, bits: u64)
    ensures
        final(out)@ == old(out)@ + hex_digits(bits, 0),
{
    let mut i: u64 = 0;
    proof {
        assert(out@ + hex_digits(bits, 0) =~= old(out)@ + hex_digits(bits, 0));
    }
    while i < 16
        invariant
            i <= 16,
            out@ + hex_digits(bits, i as nat) == old(out)@ + hex_digits(bits, 0),
        decreases 16 - i,
    {
        let shift: u64 = 60 - 4 * i;
        let nibble: u64 = (bits >> shift) & 0xf;
        proof {
            assert(((bits >> shift) & 0xf) < 16) by (bit_vector);
        }
        let ghost before = out@;
        let character: u8 = if nibble < 10 {
            48 + nibble as u8
        } else {
            87 + nibble as u8
        };
        out.push(character);
        proof {
            assert(character == hex_digit(nibble));
            assert(out@ + hex_digits(bits, (i + 1) as nat) =~= before + hex_digits(bits, i as nat));
        }
        i += 1;
    }
    proof {
        assert(out@ + hex_digits(bits, 16) =~= out@);
    }
}

/// Adds the text of a run of items, with commas between them, to what has
/// been written.
fn write_items(items: &Vec<Variant>, out: &mut Vec<u8>)
    ensures
        final(out)@ == old(out)@ + rendered_items(crate::value::models(items@), 0),
    decreases items, 0nat,
{
    let ghost shown = crate::value::models(items@);
    proof {
        crate::value::lemma_models(items@);
        assert(out@ + rendered_items(shown, 0) =~= old(out)@ + rendered_items(shown, 0));
    }
    let mut i: usize = 0;
    while i < items.len()
        invariant
            i <= items.len(),
            shown == crate::value::models(items@),
            shown.len() == items@.len(),
            forall|k: int| 0 <= k < items@.len() ==> shown[k] == (#[trigger] items@[k])@,
            out@ + rendered_items(shown, i as nat) == old(out)@ + rendered_items(shown, 0),
        decreases items.len() - i,
    {
        let ghost before = out@;
        write_rendered(&items[i], out);
        if i + 1 < items.len() {
            out.push(44u8);
            out.push(32u8);
        }
        proof {
            assert(out@ + rendered_items(shown, (i + 1) as nat) =~= before + rendered_items(
                shown,
                i as nat,
            ));
        }
        i += 1;
    }
    proof {
        assert(out@ + rendered_items(shown, items@.len()) =~= out@);
    }
}

/// Adds the text of a run of entries, with commas between them, to what has
/// been written.
fn write_entries(entries: &Vec<Entry>, out: &mut Vec<u8>)
    ensures
        final(out)@ == old(out)@ + rendered_pairs(crate::value::pairs(entries@), 0),
    decreases entries, 0nat,
{
    let ghost shown = crate::value::pairs(entries@);
    proof {
        crate::value::lemma_pairs(entries@);
        assert(out@ + rendered_pairs(shown, 0) =~= old(out)@ + rendered_pairs(shown, 0));
    }
    let mut i: usize = 0;
    while i < entries.len()
        invariant
            i <= entries.len(),
            shown == crate::value::pairs(entries@),
            shown.len() == entries@.len(),
            forall|k: int|
                0 <= k < entries@.len() ==> shown[k] == (
                    (#[trigger] entries@[k]).key@,
                    entries@[k].value@,
                ),
            out@ + rendered_pairs(shown, i as nat) == old(out)@ + rendered_pairs(shown, 0),
        decreases entries.len() - i,
    {
        let ghost before = out@;
        out.push(34u8);
        crate::text::append_bytes(out, entries[i].key.as_slice());
        out.push(34u8);
        out.push(58u8);
        out.push(32u8);
        write_rendered(&entries[i].value, out);
        proof {
            assert(out@ =~= before + rendered_pair(shown[i as int]));
        }
        if i + 1 < entries.len() {
            out.push(44u8);
            out.push(32u8);
        }
        proof {
            assert(out@ + rendered_pairs(shown, (i + 1) as nat) =~= before + rendered_pairs(
                shown,
                i as nat,
            ));
        }
        i += 1;
    }
    proof {
        assert(out@ + rendered_pairs(shown, entries@.len()) =~= out@);
    }
}

/// Adds the text of a value to what has been written.
fn write_rendered(variant: &Variant, out: &mut Vec<u8>)
    ensures
        final(out)@ == old(out)@ + rendered(variant@),
    decreases variant, 1nat,
{
    match variant {
        Variant::Null => {
            out.push(110u8);
            out.push(117u8);
            out.push(108u8);
            out.push(108u8);
            proof {
                assert(out@ =~= old(out)@ + rendered(variant@));
            }
        },
        Variant::Bool(value) => {
            if *value {
                out.push(116u8);
                out.push(114u8);
                out.push(117u8);
                out.push(101u8);
            } else {
                out.push(102u8);
                out.push(97u8);
                out.push(108u8);
                out.push(115u8);
                out.push(101u8);
            }
            proof {
                assert(out@ =~= old(out)@ + rendered(variant@));
            }
        },
        Variant::Int(value) => {
            write_signed(out, *value);
        },
        Variant::UInt(value) => {
            write_decimal(out, *value);
        },
        Variant::Float(value) => {
            out.push(48u8);
            out.push(120u8);
            write_hex(out, value.to_bits());
            proof {
                assert(out@ =~= old(out)@ + rendered(variant@));
            }
        },
        Variant::String(string) => {
            out.push(34u8);
            crate::text::append_bytes(out, string.as_slice());
            out.push(34u8);
            proof {
                assert(out@ =~= old(out)@ + rendered(variant@));
            }
        },
        Variant::List(list) => {
            out.push(91u8);
            write_items(&list.items, out);
            out.push(93u8);
            proof {
                crate::value::lemma_list_is(list);
                assert(out@ =~= old(out)@ + rendered(variant@));
            }
        },
        Variant::Dict(dict) => {
            out.push(123u8);
            write_entries(&dict.entries, out);
            out.push(125u8);
            proof {
                crate::value::lemma_dict_is(dict);
                assert(out@ =~= old(out)@ + rendered(variant@));
            }
        },
    }
}

impl Variant {
    /// The text of the value.
    pub fn to_string(&self) -> (text: String)
        ensures
            text@ == rendered(self@),
    {
        let mut out: Vec<u8> = Vec::new();
        write_rendered(self, &mut out);
        proof {
            assert(Seq::<u8>::empty() + rendered(self@) =~= rendered(self@));
        }
        String::from_vec(out)
    }
}

impl Value {
    /// The text of what the container holds.
    pub fn to_string(&self) -> (text: String)
        ensures
            text@ == rendered(self@),
    {
        proof {
            lemma_value_field(self);
        }
        self.inner.to_string()
    }
}

impl List {
    /// The text of the list: its items between square brackets.
    pub fn to_string(&self) -> (text: String)
        ensures
            text@ == rendered(Datum::List(self@)),
    {
        let mut out: Vec<u8> = Vec::new();
        out.push(91u8);
        write_items(&self.items, &mut out);
        out.push(93u8);
        proof {
            crate::value::lemma_list_is(self);
            assert(out@ =~= rendered(Datum::List(self@)));
        }
        String::from_vec(out)
    }
}

impl Dict {
    /// The text of the dictionary: its entries between braces.
    pub fn to_string(&self) -> (text: String)
        ensures
            text@ == rendered(Datum::Dict(self@)),
    {
        let mut out: Vec<u8> = Vec::new();
        out.push(123u8);
        write_entries(&self.entries, &mut out);
        out.push(125u8);
        proof {
            crate::value::lemma_dict_is(self);
            assert(out@ =~= rendered(Datum::Dict(self@)));
        }
        String::from_vec(out)
    }
}

} // verus!
