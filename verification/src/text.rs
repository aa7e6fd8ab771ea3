//! Byte strings: the payload of string values and the keys of dictionaries.

use vstd::prelude::*;
use vstd::std_specs::cmp::PartialEqSpecImpl;
use vstd::std_specs::convert::FromSpecImpl;
use vstd::string::StringSliceAdditionalSpecFns;
use vstd::utf8::valid_utf8;

verus! {

/// A sequence of bytes, UTF-8 by convention but not by force.
#[derive(Debug)]
pub struct String {
    bytes: Vec<u8>,
}

impl View for String {
    type V = Seq<u8>;

    closed spec fn view(&self) -> Seq<u8> {
        self.bytes@
    }
}

/// Reads a byte slice as text with `core::str::from_utf8`, which checks that
/// the whole slice is well-formed UTF-8 and, when it is, hands the very same
/// bytes back as a `str`; any malformed slice gives `None`.
#[verifier::external_body]
fn utf8_str(bytes: &[u8]) -> (text: Option<&str>)
    ensures
        text.is_some() <==> valid_utf8(bytes@),
        text.is_some() ==> text.unwrap().spec_bytes() == bytes@,
{
    match core::str::from_utf8(bytes) {
        Ok(text) => Some(text),
        Err(_) => None,
    }
}

/// Adds some bytes to the end of a vector.
pub(crate) fn append_bytes(out: &mut Vec<u8>, bytes: &[u8])
    ensures
        final(out)@ == old(out)@ + bytes@,
{
    let mut i: usize = 0;
    while i < bytes.len()
        invariant
            i <= bytes.len(),
            out@ == old(out)@ + bytes@.subrange(0, i as int),
        decreases bytes.len() - i,
    {
        out.push(bytes[i]);
        proof {
            assert(old(out)@ + bytes@.subrange(0, i + 1) =~= (old(out)@ + bytes@.subrange(
                0,
                i as int,
            )).push(bytes@[i as int]));
        }
        i += 1;
    }
    proof {
        assert(bytes@.subrange(0, bytes@.len() as int) =~= bytes@);
    }
}

/// Copies a slice of bytes into a fresh vector.
pub(crate) fn copy_bytes(slice: &[u8]) -> (bytes: Vec<u8>)
    ensures
        bytes@ == slice@,
{
    let mut bytes: Vec<u8> = Vec::new();
    append_bytes(&mut bytes, slice);
    proof {
        assert(Seq::<u8>::empty() + slice@ =~= slice@);
    }
    bytes
}

/// Whether two byte slices hold the same bytes.
pub(crate) fn same_bytes(a: &[u8], b: &[u8]) -> (same: bool)
    ensures
        same == (a@ == b@),
{
    if a.len() != b.len() {
        return false;
    }
    let mut i: usize = 0;
    while i < a.len()
        invariant
            i <= a.len(),
            a.len() == b.len(),
            forall|k: int| 0 <= k < i ==> a@[k] == b@[k],
        decreases a.len() - i,
    {
        if a[i] != b[i] {
            return false;
        }
        i += 1;
    }
    proof {
        assert(a@ =~= b@);
    }
    true
}

impl String {
    /// The number of bytes.
    pub fn len(&self) -> (n: usize)
        ensures
            n == self@.len(),
    {
        self.bytes.len()
    }

    /// The bytes themselves.
    pub fn as_slice(&self) -> (slice: &[u8])
        ensures
            slice@ == self@,
    {
        self.bytes.as_slice()
    }

    /// The bytes read as text: present exactly when they are well-formed UTF-8.
    pub fn as_str(&self) -> (text: Option<&str>)
        ensures
            text.is_some() <==> valid_utf8(self@),
            text.is_some() ==> text.unwrap().spec_bytes() == self@,
    {
        utf8_str(self.bytes.as_slice())
    }

    /// A byte string that owns the given bytes.
    pub fn from_vec(bytes: Vec<u8>) -> (string: String)
        ensures
            string@ == bytes@,
    {
        String { bytes }
    }

    /// Gives up the bytes.
    pub fn into_vec(self) -> (bytes: Vec<u8>)
        ensures
            bytes@ == self@,
    {
        self.bytes
    }
}

impl Clone for String {
    fn clone(&self) -> (copy: Self)
        ensures
            copy@ == self@,
    {
        String { bytes: copy_bytes(self.bytes.as_slice()) }
    }
}

impl PartialEq for String {
    fn eq(&self, other: &Self) -> (same: bool) {
        same_bytes(self.bytes.as_slice(), other.bytes.as_slice())
    }
}

impl PartialEqSpecImpl for String {
    open spec fn obeys_eq_spec() -> bool {
        true
    }

    open spec fn eq_spec(&self, other: &Self) -> bool {
        self@ == other@
    }
}

impl<'a> From<&'a str> for String {
    fn from(slice: &'a str) -> (string: Self)
        ensures
            string@ == slice.spec_bytes(),
    {
        String { bytes: copy_bytes(slice.as_bytes()) }
    }
}

impl<'a> FromSpecImpl<&'a str> for String {
    open spec fn obeys_from_spec() -> bool {
        false
    }

    open spec fn from_spec(slice: &'a str) -> Self {
        arbitrary()
    }
}

impl<'a> From<&'a [u8]> for String {
    fn from(slice: &'a [u8]) -> (string: Self)
        ensures
            string@ == slice@,
    {
        String { bytes: copy_bytes(slice) }
    }
}

impl<'a> FromSpecImpl<&'a [u8]> for String {
    open spec fn obeys_from_spec() -> bool {
        false
    }

    open spec fn from_spec(slice: &'a [u8]) -> Self {
        arbitrary()
    }
}

} // verus!
