//! Taking the arguments of an operation apart: one item of a list, or one
//! entry of a dictionary, as a value of a given type.

use vstd::prelude::*;
use vstd::string::{StringExecFns, StringSliceAdditionalSpecFns};
use crate::render::signed_decimal;
use crate::value::{lookup, Bool, Dict, Float, Get, Int, List, Null, UInt, Value, Variant};

verus! {

/// A type by its name, for messages.
pub trait Kind {
    /// The name of the type.
    spec fn kind_name() -> Seq<char>;

    /// The name of the type.
    fn kind() -> (name: &'static str)
        ensures
            name@ == Self::kind_name(),
    ;
}

impl Kind for Null {
    open spec fn kind_name() -> Seq<char> {
        "Null"@
    }

    fn kind() -> (name: &'static str) {
        "Null"
    }
}

impl Kind for Bool {
    open spec fn kind_name() -> Seq<char> {
        "Bool"@
    }

    fn kind() -> (name: &'static str) {
        "Bool"
    }
}

impl Kind for Int {
    open spec fn kind_name() -> Seq<char> {
        "Int"@
    }

    fn kind() -> (name: &'static str) {
        "Int"
    }
}

impl Kind for UInt {
    open spec fn kind_name() -> Seq<char> {
        "UInt"@
    }

    fn kind() -> (name: &'static str) {
        "UInt"
    }
}

impl Kind for Float {
    open spec fn kind_name() -> Seq<char> {
        "Float"@
    }

    fn kind() -> (name: &'static str) {
        "Float"
    }
}

impl Kind for crate::text::String {
    open spec fn kind_name() -> Seq<char> {
        "String"@
    }

    fn kind() -> (name: &'static str) {
        "String"
    }
}

impl Kind for std::string::String {
    open spec fn kind_name() -> Seq<char> {
        "String"@
    }

    fn kind() -> (name: &'static str) {
        "String"
    }
}

impl Kind for List {
    open spec fn kind_name() -> Seq<char> {
        "List"@
    }

    fn kind() -> (name: &'static str) {
        "List"
    }
}

impl Kind for Dict {
    open spec fn kind_name() -> Seq<char> {
        "Dict"@
    }

    fn kind() -> (name: &'static str) {
        "Dict"
    }
}

impl Kind for Variant {
    open spec fn kind_name() -> Seq<char> {
        "Variant"@
    }

    fn kind() -> (name: &'static str) {
        "Variant"
    }
}

/// The text of a number: its decimal digits, after a minus sign where it
/// is negative.
pub open spec fn decimal_text(number: int) -> Seq<char> {
    signed_decimal(number).map_values(|byte: u8| byte as char)
}

/// The message of the error for an item that is not there.
pub open spec fn invalid_item(label: Seq<char>) -> Seq<char> {
    "invalid item '"@ + label + "'"@
}

/// The message of the error for an item that is of another type.
pub open spec fn invalid_conversion(label: Seq<char>, kind: Seq<char>) -> Seq<char> {
    "invalid conversion of item '"@ + label + "' to type "@ + kind
}

/// The text of one decimal digit.
fn digit_text(digit: u8) -> (text: &'static str)
    requires
        digit < 10,
    ensures
        text@ == seq![(48 + digit) as u8 as char],
{
    proof {
        reveal_strlit("0");
        reveal_strlit("1");
        reveal_strlit("2");
        reveal_strlit("3");
        reveal_strlit("4");
        reveal_strlit("5");
        reveal_strlit("6");
        reveal_strlit("7");
        reveal_strlit("8");
        reveal_strlit("9");
    }
    let text = match digit {
        0 => "0",
        1 => "1",
        2 => "2",
        3 => "3",
        4 => "4",
        5 => "5",
        6 => "6",
        7 => "7",
        8 => "8",
        _ => "9",
    };
    proof {
        assert(text@ =~= seq![(48 + digit) as u8 as char]);
    }
    text
}

/// Adds the decimal digits of a number to a text.
fn append_decimal(text: &mut std::string::String, number: u64)
    ensures
        final(text)@ == old(text)@ + crate::render::decimal(number as nat).map_values(
            |byte: u8| byte as char,
        ),
    decreases number,
{
    if number >= 10 {
        append_decimal(text, number / 10);
    }
    text.append(digit_text((number % 10) as u8));
    proof {
        let show = |byte: u8| byte as char;
        if number >= 10 {
            assert(crate::render::decimal(number as nat).map_values(show) =~= crate::render::decimal(
                (number / 10) as nat,
            ).map_values(show).push(show(crate::render::digit((number % 10) as nat))));
        }
        assert(text@ =~= old(text)@ + crate::render::decimal(number as nat).map_values(show));
    }
}

/// The text of a number.
fn number_text(number: i32) -> (text: std::string::String)
    ensures
        text@ == decimal_text(number as int),
{
    let mut text = std::string::String::new();
    if number < 0 {
        proof {
            reveal_strlit("-");
        }
        text.append("-");
        append_decimal(&mut text, (-(number as i64)) as u64);
        proof {
            assert(text@ =~= decimal_text(number as int));
        }
    } else {
        append_decimal(&mut text, number as u64);
        proof {
            assert(text@ =~= decimal_text(number as int));
        }
    }
    text
}

/// The error message for an item that is not there.
fn item_is_missing(label: &str) -> (message: std::string::String)
    ensures
        message@ == invalid_item(label@),
{
    let mut message = "invalid item '".to_owned();
    message.append(label);
    message.append("'");
    message
}

/// The error message for an item that is of another type.
fn item_is_other(label: &str, kind: &str) -> (message: std::string::String)
    ensures
        message@ == invalid_conversion(label@, kind@),
{
    let mut message = "invalid conversion of item '".to_owned();
    message.append(label);
    message.append("' to type ");
    message.append(kind);
    message
}

/// Takes the item at a place of a list as a value of type `V`. Fails with
/// "invalid item" and the place where the list has no such item, and with
/// "invalid conversion of item" where the item is of another type.
pub fn unpack_item<V: Kind>(list: &List, item: i32) -> (unpacked: core::result::Result<
    V,
    std::string::String,
>) where Value: Get<V>
    ensures
        match unpacked {
            Ok(value) => 0 <= item < list@.len() && <Value as Get<V>>::reads(
                list@[item as int],
                Some(value),
            ),
            Err(message) => if 0 <= item < list@.len() {
                <Value as Get<V>>::reads(list@[item as int], None) && message@
                    == invalid_conversion(decimal_text(item as int), V::kind_name())
            } else {
                message@ == invalid_item(decimal_text(item as int))
            },
        },
{
    match list.find_value(item) {
        None => Err(item_is_missing(number_text(item).as_str())),
        Some(value) => {
            let found: Option<V> = value.get();
            match found {
                Some(unpacked) => Ok(unpacked),
                None => Err(item_is_other(number_text(item).as_str(), V::kind())),
            }
        },
    }
}

/// Takes what a dictionary stores under a key as a value of type `V`.
/// Fails with "invalid item" and the key where the dictionary has no such
/// key, and with "invalid conversion of item" where what is stored is of
/// another type.
pub fn unpack_key<V: Kind>(dict: &Dict, item: &str) -> (unpacked: core::result::Result<
    V,
    std::string::String,
>) where Value: Get<V>
    ensures
        match unpacked {
            Ok(value) => lookup(dict@, item.spec_bytes()).is_some() && <Value as Get<V>>::reads(
                lookup(dict@, item.spec_bytes()).unwrap(),
                Some(value),
            ),
            Err(message) => match lookup(dict@, item.spec_bytes()) {
                Some(held) => <Value as Get<V>>::reads(held, None) && message@
                    == invalid_conversion(item@, V::kind_name()),
                None => message@ == invalid_item(item@),
            },
        },
{
    match dict.find_value(item) {
        None => Err(item_is_missing(item)),
        Some(value) => {
            let found: Option<V> = value.get();
            match found {
                Some(unpacked) => Ok(unpacked),
                None => Err(item_is_other(item, V::kind())),
            }
        },
    }
}

} // verus!
