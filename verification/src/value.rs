//! The value model: a closed union of eight kinds of value, with lists and
//! dictionaries that own their items.

use vstd::prelude::*;
use crate::text::String;
use vstd::std_specs::cmp::PartialEqSpecImpl;
use vstd::std_specs::convert::FromSpecImpl;
use vstd::string::StringSliceAdditionalSpecFns;
use vstd::utf8::{encode_utf8, valid_utf8};

verus! {

/// The type of the one value that says "nothing".
pub type Null = ();

/// The one value of type `Null`.
pub const NULL: Null = ();

pub type Bool = bool;

pub type Int = i64;

pub type UInt = u64;

/// A 64-bit floating-point number, kept as its IEEE 754 bit pattern.
/// Two floats are equal when their bit patterns are.
#[derive(Clone, Copy, Debug, PartialEq, Eq, Structural)]
pub struct Float {
    pub bits: u64,
}

impl Float {
    /// The float with the given bit pattern.
    pub fn from_bits(bits: u64) -> (float: Float)
        ensures
            float.bits == bits,
    {
        Float { bits }
    }

    /// The bit pattern.
    pub fn to_bits(&self) -> (bits: u64)
        ensures
            bits == self.bits,
    {
        self.bits
    }
}

/// What a value is, as mathematics: the meaning of a `Variant`.
pub enum Datum {
    Null,
    Bool(bool),
    Int(i64),
    UInt(u64),
    Float(u64),
    String(Seq<u8>),
    List(Seq<Datum>),
    Dict(Seq<(Seq<u8>, Datum)>),
}

/// One value of any of the eight kinds.
#[derive(Debug)]
pub enum Variant {
    Null,
    Bool(Bool),
    Int(Int),
    UInt(UInt),
    Float(Float),
    String(String),
    List(List),
    Dict(Dict),
}

/// An ordered, resizable sequence of values.
#[derive(Debug)]
pub struct List {
    pub(crate) items: Vec<Variant>,
}

/// A key of a dictionary with the value stored under it.
#[derive(Debug)]
pub(crate) struct Entry {
    pub(crate) key: String,
    pub(crate) value: Variant,
}

/// A mapping from byte-string keys to values. No key occurs twice, and the
/// entries keep the order in which their keys first came in.
#[derive(Debug)]
pub struct Dict {
    pub(crate) entries: Vec<Entry>,
}

/// The meaning of a run of values, item by item.
pub(crate) closed spec fn models(items: Seq<Variant>) -> Seq<Datum>
    decreases items, 0nat,
{
    Seq::new(
        items.len(),
        |i: int|
            if 0 <= i < items.len() {
                items[i].view()
            } else {
                Datum::Null
            },
    )
}

/// The meaning of a run of entries, entry by entry.
pub(crate) closed spec fn pairs(entries: Seq<Entry>) -> Seq<(Seq<u8>, Datum)>
    decreases entries, 0nat,
{
    Seq::new(
        entries.len(),
        |i: int|
            if 0 <= i < entries.len() {
                (entries[i].key@, entries[i].value.view())
            } else {
                (Seq::empty(), Datum::Null)
            },
    )
}

/// Whether no key occurs twice in a run of pairs.
pub open spec fn distinct_keys(pairs: Seq<(Seq<u8>, Datum)>) -> bool {
    forall|i: int, j: int| 0 <= i < j < pairs.len() ==> pairs[i].0 != pairs[j].0
}

impl View for Variant {
    type V = Datum;

    open spec fn view(&self) -> Datum
        decreases self,
    {
        match self {
            Variant::Null => Datum::Null,
            Variant::Bool(value) => Datum::Bool(*value),
            Variant::Int(value) => Datum::Int(*value),
            Variant::UInt(value) => Datum::UInt(*value),
            Variant::Float(value) => Datum::Float(value.bits),
            Variant::String(string) => Datum::String(string@),
            Variant::List(list) => Datum::List(list.view()),
            Variant::Dict(dict) => Datum::Dict(dict.view()),
        }
    }
}

impl View for List {
    type V = Seq<Datum>;

    closed spec fn view(&self) -> Seq<Datum>
        decreases self,
    {
        models(self.items@)
    }
}

impl View for Dict {
    type V = Seq<(Seq<u8>, Datum)>;

    closed spec fn view(&self) -> Seq<(Seq<u8>, Datum)>
        decreases self,
    {
        pairs(self.entries@)
    }
}

impl Dict {
    #[verifier::type_invariant]
    spec fn unique(&self) -> bool {
        distinct_keys(pairs(self.entries@))
    }
}


/// The place of the first pair with the given key, or the number of pairs
/// when no pair has it.
pub open spec fn position(pairs: Seq<(Seq<u8>, Datum)>, key: Seq<u8>) -> int
    decreases pairs.len(),
{
    if pairs.len() == 0 {
        0
    } else if pairs[0].0 == key {
        0
    } else {
        1 + position(pairs.skip(1), key)
    }
}

/// What is stored under a key, if anything.
pub open spec fn lookup(pairs: Seq<(Seq<u8>, Datum)>, key: Seq<u8>) -> Option<Datum> {
    if position(pairs, key) < pairs.len() {
        Some(pairs[position(pairs, key)].1)
    } else {
        None
    }
}

/// `position` stays within bounds, finds the key where it points, and passes
/// over no pair with that key.
pub proof fn lemma_position(pairs: Seq<(Seq<u8>, Datum)>, key: Seq<u8>)
    ensures
        0 <= position(pairs, key) <= pairs.len(),
        position(pairs, key) < pairs.len() ==> pairs[position(pairs, key)].0 == key,
        forall|i: int| 0 <= i < position(pairs, key) ==> pairs[i].0 != key,
    decreases pairs.len(),
{
    if pairs.len() > 0 && pairs[0].0 != key {
        let rest = pairs.skip(1);
        lemma_position(rest, key);
        assert forall|i: int| 0 <= i < position(pairs, key) implies pairs[i].0 != key by {
            if i > 0 {
                assert(rest[i - 1] == pairs[i]);
            }
        }
    }
}

/// Any place that holds the key and has no earlier pair with it is the
/// place that `position` gives.
pub proof fn lemma_position_is(pairs: Seq<(Seq<u8>, Datum)>, key: Seq<u8>, at: int)
    requires
        0 <= at <= pairs.len(),
        at < pairs.len() ==> pairs[at].0 == key,
        forall|i: int| 0 <= i < at ==> pairs[i].0 != key,
    ensures
        position(pairs, key) == at,
{
    lemma_position(pairs, key);
    let p = position(pairs, key);
    if p < at {
        assert(pairs[p].0 == key);
    } else if p > at {
        assert(pairs[at].0 == key);
    }
}

impl Datum {
    /// Whether two values are equal by value: scalars and strings when they
    /// are identical, lists item by item, dictionaries when they have the
    /// same keys with equal values, in whatever order.
    pub open spec fn same(self, other: Datum) -> bool
        decreases self,
    {
        match (self, other) {
            (Datum::List(a), Datum::List(b)) => {
                &&& a.len() == b.len()
                &&& forall|i: int| 0 <= i < a.len() ==> (#[trigger] a[i]).same(b[i])
            },
            (Datum::Dict(a), Datum::Dict(b)) => {
                &&& a.len() == b.len()
                &&& forall|i: int|
                    0 <= i < a.len() ==> {
                        &&& position(b, (#[trigger] a[i]).0) < b.len()
                        &&& a[i].1.same(b[position(b, a[i].0)].1)
                    }
            },
            (Datum::List(_), _) => false,
            (Datum::Dict(_), _) => false,
            (_, _) => self == other,
        }
    }

    /// Whether no dictionary anywhere inside the value has a key twice.
    pub open spec fn well_formed(self) -> bool
        decreases self,
    {
        match self {
            Datum::List(items) => forall|i: int|
                0 <= i < items.len() ==> (#[trigger] items[i]).well_formed(),
            Datum::Dict(pairs) => {
                &&& distinct_keys(pairs)
                &&& forall|i: int| 0 <= i < pairs.len() ==> (#[trigger] pairs[i]).1.well_formed()
            },
            _ => true,
        }
    }
}


/// An independent copy of a run of values.
fn copy_items(items: &Vec<Variant>) -> (copy: Vec<Variant>)
    ensures
        models(copy@) == models(items@),
    decreases items, 0nat,
{
    let mut copy: Vec<Variant> = Vec::new();
    let mut i: usize = 0;
    while i < items.len()
        invariant
            i <= items.len(),
            copy.len() == i,
            forall|k: int| 0 <= k < i ==> copy@[k].view() == items@[k].view(),
        decreases items.len() - i,
    {
        let item = copy_variant(&items[i]);
        copy.push(item);
        i += 1;
    }
    proof {
        assert(models(copy@) =~= models(items@));
    }
    copy
}

/// An independent copy of a run of entries.
fn copy_entries(entries: &Vec<Entry>) -> (copy: Vec<Entry>)
    ensures
        pairs(copy@) == pairs(entries@),
    decreases entries, 0nat,
{
    let mut copy: Vec<Entry> = Vec::new();
    let mut i: usize = 0;
    while i < entries.len()
        invariant
            i <= entries.len(),
            copy.len() == i,
            forall|k: int|
                0 <= k < i ==> copy@[k].key@ == entries@[k].key@ && copy@[k].value.view()
                    == entries@[k].value.view(),
        decreases entries.len() - i,
    {
        let key = entries[i].key.clone();
        let value = copy_variant(&entries[i].value);
        copy.push(Entry { key, value });
        i += 1;
    }
    proof {
        assert(pairs(copy@) =~= pairs(entries@));
    }
    copy
}

/// An independent copy of a value, as deep as the value goes.
fn copy_variant(variant: &Variant) -> (copy: Variant)
    ensures
        copy@ == variant@,
    decreases variant, 1nat,
{
    match variant {
        Variant::Null => Variant::Null,
        Variant::Bool(value) => Variant::Bool(*value),
        Variant::Int(value) => Variant::Int(*value),
        Variant::UInt(value) => Variant::UInt(*value),
        Variant::Float(value) => Variant::Float(*value),
        Variant::String(string) => Variant::String(string.clone()),
        Variant::List(list) => Variant::List(List { items: copy_items(&list.items) }),
        Variant::Dict(dict) => {
            proof {
                use_type_invariant(dict);
            }
            Variant::Dict(Dict { entries: copy_entries(&dict.entries) })
        },
    }
}

impl Clone for Variant {
    /// A copy that shares nothing with the value it was made from.
    fn clone(&self) -> (copy: Self)
        ensures
            copy@ == self@,
    {
        copy_variant(self)
    }
}

impl Clone for List {
    /// A copy that shares nothing with the value it was made from.
    fn clone(&self) -> (copy: Self)
        ensures
            copy@ == self@,
    {
        List { items: copy_items(&self.items) }
    }
}

impl Clone for Dict {
    /// A copy that shares nothing with the value it was made from.
    fn clone(&self) -> (copy: Self)
        ensures
            copy@ == self@,
    {
        proof {
            use_type_invariant(self);
        }
        Dict { entries: copy_entries(&self.entries) }
    }
}


/// What can be stored as a value: each primitive, text, lists, dictionaries
/// and values themselves.
pub trait IntoVariant: Sized {
    /// The value that this stands for.
    spec fn meaning(&self) -> Datum;

    /// Turns this into the value that it stands for.
    fn into_variant(self) -> (variant: Variant)
        ensures
            variant@ == self.meaning(),
    ;
}

impl IntoVariant for Null {
    open spec fn meaning(&self) -> Datum {
        Datum::Null
    }

    fn into_variant(self) -> (variant: Variant) {
        Variant::Null
    }
}

impl IntoVariant for Bool {
    open spec fn meaning(&self) -> Datum {
        Datum::Bool(*self)
    }

    fn into_variant(self) -> (variant: Variant) {
        Variant::Bool(self)
    }
}

impl IntoVariant for Int {
    open spec fn meaning(&self) -> Datum {
        Datum::Int(*self)
    }

    fn into_variant(self) -> (variant: Variant) {
        Variant::Int(self)
    }
}

impl IntoVariant for i32 {
    open spec fn meaning(&self) -> Datum {
        Datum::Int(*self as i64)
    }

    fn into_variant(self) -> (variant: Variant) {
        Variant::Int(self as i64)
    }
}

impl IntoVariant for u32 {
    open spec fn meaning(&self) -> Datum {
        Datum::Int(*self as i64)
    }

    fn into_variant(self) -> (variant: Variant) {
        Variant::Int(self as i64)
    }
}

impl IntoVariant for UInt {
    open spec fn meaning(&self) -> Datum {
        Datum::UInt(*self)
    }

    fn into_variant(self) -> (variant: Variant) {
        Variant::UInt(self)
    }
}

impl IntoVariant for Float {
    open spec fn meaning(&self) -> Datum {
        Datum::Float(self.bits)
    }

    fn into_variant(self) -> (variant: Variant) {
        Variant::Float(self)
    }
}

impl<'a> IntoVariant for &'a str {
    open spec fn meaning(&self) -> Datum {
        Datum::String(self.spec_bytes())
    }

    fn into_variant(self) -> (variant: Variant) {
        Variant::String(String::from(self))
    }
}

impl<'a> IntoVariant for &'a List {
    open spec fn meaning(&self) -> Datum {
        Datum::List(self.view())
    }

    fn into_variant(self) -> (variant: Variant) {
        Variant::List(self.clone())
    }
}

impl<'a> IntoVariant for &'a Dict {
    open spec fn meaning(&self) -> Datum {
        Datum::Dict(self.view())
    }

    fn into_variant(self) -> (variant: Variant) {
        Variant::Dict(self.clone())
    }
}

impl IntoVariant for Variant {
    open spec fn meaning(&self) -> Datum {
        self.view()
    }

    fn into_variant(self) -> (variant: Variant) {
        self
    }
}

impl<'a> IntoVariant for &'a Variant {
    open spec fn meaning(&self) -> Datum {
        self.view()
    }

    fn into_variant(self) -> (variant: Variant) {
        self.clone()
    }
}


/// A container for one value of any kind.
#[derive(Debug)]
pub struct Value {
    pub(crate) inner: Variant,
}

impl View for Value {
    type V = Datum;

    closed spec fn view(&self) -> Datum {
        self.inner.view()
    }
}

impl Clone for Value {
    /// A copy that shares nothing with the value it was made from.
    fn clone(&self) -> (copy: Self)
        ensures
            copy@ == self@,
    {
        Value { inner: self.inner.clone() }
    }
}

/// The meaning of a run of values is as long as the run and holds the
/// meaning of each.
pub(crate) proof fn lemma_models(items: Seq<Variant>)
    ensures
        models(items).len() == items.len(),
        forall|i: int| 0 <= i < items.len() ==> models(items)[i] == (#[trigger] items[i])@,
{
}

/// The meaning of a run of entries is as long as the run and holds the
/// meaning of each.
pub(crate) proof fn lemma_pairs(entries: Seq<Entry>)
    ensures
        pairs(entries).len() == entries.len(),
        forall|i: int|
            0 <= i < entries.len() ==> pairs(entries)[i] == (
                (#[trigger] entries[i]).key@,
                entries[i].value@,
            ),
{
}

/// A list is the meaning of its items.
pub(crate) proof fn lemma_list_is(list: &List)
    ensures
        list@ == models(list.items@),
{
}

/// A dictionary is the meaning of its entries.
pub(crate) proof fn lemma_dict_is(dict: &Dict)
    ensures
        dict@ == pairs(dict.entries@),
{
}

/// What the field of a container holds is what the container holds.
pub(crate) proof fn lemma_value_field(value: &Value)
    ensures
        value@ == value.inner@,
{
}

/// A list of `count` null values after `head`.
pub open spec fn padded(head: Seq<Datum>, count: nat) -> Seq<Datum> {
    head + Seq::new(count, |i: int| Datum::Null)
}

impl List {
    /// The empty list.
    pub fn new() -> (list: List)
        ensures
            list@ == Seq::<Datum>::empty(),
    {
        let list = List { items: Vec::new() };
        proof {
            assert(list@ =~= Seq::<Datum>::empty());
        }
        list
    }

    /// The number of items.
    pub fn len(&self) -> (n: usize)
        ensures
            n == self@.len(),
    {
        self.items.len()
    }

    /// Whether the list has no item.
    pub fn is_empty(&self) -> (empty: bool)
        ensures
            empty == (self@.len() == 0),
    {
        self.items.len() == 0
    }

    /// The item at an index, as a container of its own: present exactly
    /// when the index is within the list.
    pub fn find_value(&self, index: i32) -> (found: Option<Value>)
        ensures
            found.is_some() <==> 0 <= index < self@.len(),
            found.is_some() ==> found.unwrap()@ == self@[index as int],
    {
        if index < 0 {
            return None;
        }
        let at: usize = index as usize;
        if at < self.items.len() {
            Some(Value { inner: self.items[at].clone() })
        } else {
            None
        }
    }

    /// The item at an index: present exactly when the index is within the
    /// list.
    pub fn get(&self, index: i32) -> (found: Option<Variant>)
        ensures
            found.is_some() <==> 0 <= index < self@.len(),
            found.is_some() ==> found.unwrap()@ == self@[index as int],
    {
        match self.find_value(index) {
            Some(value) => Some(value.to_variant()),
            None => None,
        }
    }

    /// Cuts the list down to `size` items, or fills it up to `size` with
    /// null values, and says how long it now is.
    pub fn resize(&mut self, size: usize) -> (achieved: usize)
        ensures
            achieved == size,
            final(self)@.len() == size,
            size <= old(self)@.len() ==> final(self)@ == old(self)@.take(size as int),
            size > old(self)@.len() ==> final(self)@ == padded(
                old(self)@,
                (size - old(self)@.len()) as nat,
            ),
    {
        if size <= self.items.len() {
            self.items.truncate(size);
            proof {
                assert(self@ =~= old(self)@.take(size as int));
            }
        } else {
            let ghost before = self@;
            while self.items.len() < size
                invariant
                    before == old(self)@,
                    before.len() <= self.items.len() <= size,
                    self@ == padded(before, (self.items.len() - before.len()) as nat),
                decreases size - self.items.len(),
            {
                let ghost so_far = self@;
                self.items.push(Variant::Null);
                proof {
                    assert(self@ =~= so_far.push(Datum::Null));
                    assert(self@ =~= padded(before, (self.items.len() - before.len()) as nat));
                }
            }
        }
        self.items.len()
    }

    /// Adds one value at the end.
    pub fn push(&mut self, variant: Variant)
        ensures
            final(self)@ == old(self)@.push(variant@),
    {
        self.items.push(variant);
        proof {
            assert(self@ =~= old(self)@.push(variant@));
        }
    }

    /// Puts a value in the place of the item at an index. Does so, and
    /// says `true`, exactly when the index is within the list; never grows
    /// the list.
    pub fn put(&mut self, index: i32, variant: Variant) -> (done: bool)
        ensures
            done == (0 <= index < old(self)@.len()),
            done ==> final(self)@ == old(self)@.update(index as int, variant@),
            !done ==> final(self)@ == old(self)@,
    {
        if index < 0 {
            return false;
        }
        let at: usize = index as usize;
        if at < self.items.len() {
            self.items.set(at, variant);
            proof {
                assert(self@ =~= old(self)@.update(index as int, variant@));
            }
            true
        } else {
            false
        }
    }

    /// The item at a place within the list, where it lies.
    pub(crate) fn item(&self, at: usize) -> (item: &Variant)
        requires
            at < self@.len(),
        ensures
            item@ == self@[at as int],
    {
        &self.items[at]
    }

    /// A cursor at the first item.
    pub fn iter<'a>(&'a self) -> (cursor: ListIterator<'a>)
        ensures
            cursor.rest() == self@,
    {
        ListIterator { list: self, position: 0 }
    }
}

/// Adding a value of type `V` at the end of a list: the list grows by
/// exactly the value given.
pub trait Append<V: IntoVariant>: View<V = Seq<Datum>> {
    fn append(&mut self, value: V)
        ensures
            final(self)@ == old(self)@.push(value.meaning()),
    ;
}

impl<V: IntoVariant> Append<V> for List {
    fn append(&mut self, value: V) {
        self.push(value.into_variant());
    }
}

/// Replacing the item at an index of a list by a value of type `V`. The
/// item is replaced, and the call says `true`, exactly when the index is
/// within the list; otherwise the list stays as it is.
pub trait SetIndex<V: IntoVariant>: View<V = Seq<Datum>> {
    fn set(&mut self, index: i32, value: V) -> (done: bool)
        ensures
            done == (0 <= index < old(self)@.len()),
            done ==> final(self)@ == old(self)@.update(index as int, value.meaning()),
            !done ==> final(self)@ == old(self)@,
    ;
}

impl<V: IntoVariant> SetIndex<V> for List {
    fn set(&mut self, index: i32, value: V) -> (done: bool) {
        self.put(index, value.into_variant())
    }
}

/// A forward cursor over the items of a list.
pub struct ListIterator<'a> {
    list: &'a List,
    position: usize,
}

impl<'a> ListIterator<'a> {
    /// The items that are still to come, in order.
    pub closed spec fn rest(&self) -> Seq<Datum> {
        if self.position <= self.list@.len() {
            self.list@.skip(self.position as int)
        } else {
            Seq::empty()
        }
    }

    /// The next item, if one is left; the cursor moves past it.
    pub fn next(&mut self) -> (item: Option<Value>)
        ensures
            old(self).rest().len() == 0 ==> item.is_none() && final(self).rest() == old(self).rest(),
            old(self).rest().len() > 0 ==> item.is_some() && item.unwrap()@ == old(self).rest()[0] && final(self).rest() == old(self).rest().skip(1),
    {
        if self.position < self.list.items.len() {
            let value = Value { inner: self.list.items[self.position].clone() };
            self.position = self.position + 1;
            proof {
                assert(self.rest() =~= old(self).rest().skip(1));
            }
            Some(value)
        } else {
            None
        }
    }
}

impl Value {
    /// A container that holds null.
    pub fn new() -> (value: Value)
        ensures
            value@ == Datum::Null,
    {
        Value { inner: Variant::Null }
    }

    /// A container that holds the given value.
    pub fn from_variant(variant: Variant) -> (value: Value)
        ensures
            value@ == variant@,
    {
        Value { inner: variant }
    }

    /// What the container holds.
    pub fn to_variant(&self) -> (variant: Variant)
        ensures
            variant@ == self@,
    {
        self.inner.clone()
    }

    /// Gives up what the container holds.
    pub fn into_variant(self) -> (variant: Variant)
        ensures
            variant@ == self@,
    {
        self.inner
    }
}


/// The pairs after one more value has been stored under a key: in the place
/// of the pair that had the key, or at the end when none had it.
pub open spec fn stored(pairs: Seq<(Seq<u8>, Datum)>, key: Seq<u8>, value: Datum) -> Seq<
    (Seq<u8>, Datum),
> {
    if position(pairs, key) < pairs.len() {
        pairs.update(position(pairs, key), (key, value))
    } else {
        pairs.push((key, value))
    }
}

/// The pairs without the one that had the key, if any had it.
pub open spec fn erased(pairs: Seq<(Seq<u8>, Datum)>, key: Seq<u8>) -> Seq<(Seq<u8>, Datum)> {
    if position(pairs, key) < pairs.len() {
        pairs.remove(position(pairs, key))
    } else {
        pairs
    }
}

impl Dict {
    /// The empty dictionary.
    pub fn new() -> (dict: Dict)
        ensures
            dict@ == Seq::<(Seq<u8>, Datum)>::empty(),
    {
        let entries: Vec<Entry> = Vec::new();
        proof {
            assert(pairs(entries@) =~= Seq::<(Seq<u8>, Datum)>::empty());
        }
        Dict { entries }
    }

    /// The number of keys, none of which occurs twice.
    pub fn len(&self) -> (n: usize)
        ensures
            n == self@.len(),
            distinct_keys(self@),
    {
        proof {
            use_type_invariant(self);
        }
        self.entries.len()
    }

    /// Whether the dictionary has no key.
    pub fn is_empty(&self) -> (empty: bool)
        ensures
            empty == (self@.len() == 0),
    {
        self.entries.len() == 0
    }

    /// Where the key stands among the entries, or their number when it is
    /// not among them.
    fn find(&self, key: &[u8]) -> (at: usize)
        ensures
            at == position(self@, key@),
            at <= self@.len(),
    {
        let mut i: usize = 0;
        while i < self.entries.len()
            invariant
                i <= self.entries.len(),
                forall|k: int| 0 <= k < i ==> self@[k].0 != key@,
            decreases self.entries.len() - i,
        {
            if crate::text::same_bytes(self.entries[i].key.as_slice(), key) {
                proof {
                    lemma_position_is(self@, key@, i as int);
                }
                return i;
            }
            i += 1;
        }
        proof {
            lemma_position_is(self@, key@, i as int);
        }
        i
    }

    /// Whether something is stored under the key.
    pub fn contains(&self, key: &str) -> (found: bool)
        ensures
            found == lookup(self@, key.spec_bytes()).is_some(),
    {
        self.find(key.as_bytes()) < self.entries.len()
    }

    /// What is stored under the key, as a container of its own.
    pub fn find_value(&self, key: &str) -> (found: Option<Value>)
        ensures
            found.is_some() == lookup(self@, key.spec_bytes()).is_some(),
            found.is_some() ==> found.unwrap()@ == lookup(self@, key.spec_bytes()).unwrap(),
    {
        let at = self.find(key.as_bytes());
        if at < self.entries.len() {
            Some(Value { inner: self.entries[at].value.clone() })
        } else {
            None
        }
    }

    /// What is stored under the key.
    pub fn get(&self, key: &str) -> (found: Option<Variant>)
        ensures
            found.is_some() == lookup(self@, key.spec_bytes()).is_some(),
            found.is_some() ==> found.unwrap()@ == lookup(self@, key.spec_bytes()).unwrap(),
    {
        match self.find_value(key) {
            Some(value) => Some(value.into_variant()),
            None => None,
        }
    }

    /// Stores a value under a key given as bytes: over the value that the
    /// key had, or as a new last entry.
    pub fn insert(&mut self, key: String, variant: Variant)
        ensures
            final(self)@ == stored(old(self)@, key@, variant@),
    {
        proof {
            use_type_invariant(&*self);
        }
        let at = self.find(key.as_slice());
        let ghost before = self@;
        let mut entries: Vec<Entry> = Vec::new();
        proof {
            assert(pairs(entries@) =~= Seq::<(Seq<u8>, Datum)>::empty());
        }
        core::mem::swap(&mut self.entries, &mut entries);
        if at < entries.len() {
            entries.set(at, Entry { key, value: variant });
            proof {
                let after = before.update(at as int, (key@, variant@));
                assert(pairs(entries@) =~= after);
                lemma_position(before, key@);
                assert forall|i: int, j: int| 0 <= i < j < after.len() implies after[i].0
                    != after[j].0 by {
                    assert(after[i].0 == before[i].0);
                    assert(after[j].0 == before[j].0);
                }
            }
        } else {
            entries.push(Entry { key, value: variant });
            proof {
                let after = before.push((key@, variant@));
                assert(pairs(entries@) =~= after);
                lemma_position(before, key@);
                assert forall|i: int, j: int| 0 <= i < j < after.len() implies after[i].0
                    != after[j].0 by {
                    if j < before.len() {
                        assert(after[i].0 == before[i].0);
                        assert(after[j].0 == before[j].0);
                    }
                }
            }
        }
        self.entries = entries;
    }

    /// Removes a key and what is stored under it; a key that is not there
    /// changes nothing.
    pub fn erase(&mut self, key: &str)
        ensures
            final(self)@ == erased(old(self)@, key.spec_bytes()),
    {
        proof {
            use_type_invariant(&*self);
        }
        let at = self.find(key.as_bytes());
        let ghost before = self@;
        if at < self.entries.len() {
            let mut entries: Vec<Entry> = Vec::new();
            proof {
                assert(pairs(entries@) =~= Seq::<(Seq<u8>, Datum)>::empty());
            }
            core::mem::swap(&mut self.entries, &mut entries);
            entries.remove(at);
            proof {
                assert(pairs(entries@) =~= before.remove(at as int));
            }
            self.entries = entries;
        }
    }

    /// The key of the entry at a place within the dictionary, where it
    /// lies.
    pub(crate) fn key_at(&self, at: usize) -> (key: &String)
        requires
            at < self@.len(),
        ensures
            key@ == self@[at as int].0,
    {
        &self.entries[at].key
    }

    /// The value of the entry at a place within the dictionary, where it
    /// lies.
    pub(crate) fn value_at(&self, at: usize) -> (value: &Variant)
        requires
            at < self@.len(),
        ensures
            value@ == self@[at as int].1,
    {
        &self.entries[at].value
    }

    /// Whether something is stored under a key given as bytes.
    pub fn has_key(&self, key: &[u8]) -> (found: bool)
        ensures
            found == lookup(self@, key@).is_some(),
    {
        self.find(key) < self.entries.len()
    }

    /// A cursor at the first entry.
    pub fn iter<'a>(&'a self) -> (cursor: MapIterator<'a>)
        ensures
            cursor.rest() == self@,
    {
        MapIterator { dict: self, position: 0 }
    }
}

/// Storing a value of type `V` under a key of a dictionary: the value
/// replaces what the key had, or the key comes in as the last entry.
pub trait SetKey<V: IntoVariant>: View<V = Seq<(Seq<u8>, Datum)>> {
    fn set(&mut self, key: &str, value: V)
        ensures
            final(self)@ == stored(old(self)@, key.spec_bytes(), value.meaning()),
    ;
}

impl<V: IntoVariant> SetKey<V> for Dict {
    fn set(&mut self, key: &str, value: V) {
        self.insert(String::from(key), value.into_variant());
    }
}

/// A forward cursor over the entries of a dictionary.
pub struct MapIterator<'a> {
    dict: &'a Dict,
    position: usize,
}

impl<'a> MapIterator<'a> {
    /// The entries that are still to come, in order.
    pub closed spec fn rest(&self) -> Seq<(Seq<u8>, Datum)> {
        if self.position <= self.dict@.len() {
            self.dict@.skip(self.position as int)
        } else {
            Seq::empty()
        }
    }

    /// The next entry, if one is left; the cursor moves past it.
    pub fn next(&mut self) -> (item: Option<(String, Value)>)
        ensures
            old(self).rest().len() == 0 ==> item.is_none() && final(self).rest() == old(self).rest(),
            old(self).rest().len() > 0 ==> item.is_some() && item.unwrap().0@ == old(self).rest()[0].0 && item.unwrap().1@ == old(self).rest()[0].1 && final(self).rest()
                == old(self).rest().skip(1),
    {
        if self.position < self.dict.entries.len() {
            let key = self.dict.entries[self.position].key.clone();
            let value = Value { inner: self.dict.entries[self.position].value.clone() };
            self.position = self.position + 1;
            proof {
                assert(self.rest() =~= old(self).rest().skip(1));
            }
            Some((key, value))
        } else {
            None
        }
    }
}


impl<'a> IntoVariant for &'a Value {
    open spec fn meaning(&self) -> Datum {
        self.view()
    }

    fn into_variant(self) -> (variant: Variant) {
        self.to_variant()
    }
}

impl IntoVariant for String {
    open spec fn meaning(&self) -> Datum {
        Datum::String(self.view())
    }

    fn into_variant(self) -> (variant: Variant) {
        Variant::String(self)
    }
}

/// Reading a container as a value of type `V`. The answer is absent when
/// the container holds another kind of value: nothing is ever converted.
pub trait Get<V>: View<V = Datum> {
    /// Whether `found` is what reading a container that holds `held` gives.
    spec fn reads(held: Datum, found: Option<V>) -> bool;

    fn get(&self) -> (found: Option<V>)
        ensures
            Self::reads(self@, found),
    ;
}

impl Get<Null> for Value {
    /// Present exactly when the container holds null.
    open spec fn reads(held: Datum, found: Option<Null>) -> bool {
        found.is_some() <==> held is Null
    }

    fn get(&self) -> (found: Option<Null>) {
        match &self.inner {
            Variant::Null => Some(NULL),
            _ => None,
        }
    }
}

impl Get<Bool> for Value {
    /// Present exactly when the container holds a boolean: that boolean.
    open spec fn reads(held: Datum, found: Option<Bool>) -> bool {
        found == match held {
            Datum::Bool(value) => Some(value),
            _ => None,
        }
    }

    fn get(&self) -> (found: Option<Bool>) {
        match &self.inner {
            Variant::Bool(value) => Some(*value),
            _ => None,
        }
    }
}

impl Get<Int> for Value {
    /// Present exactly when the container holds a signed integer: that
    /// integer. An unsigned integer is not read as a signed one.
    open spec fn reads(held: Datum, found: Option<Int>) -> bool {
        found == match held {
            Datum::Int(value) => Some(value),
            _ => None,
        }
    }

    fn get(&self) -> (found: Option<Int>) {
        match &self.inner {
            Variant::Int(value) => Some(*value),
            _ => None,
        }
    }
}

impl Get<UInt> for Value {
    /// Present exactly when the container holds an unsigned integer: that
    /// integer. A signed integer is not read as an unsigned one.
    open spec fn reads(held: Datum, found: Option<UInt>) -> bool {
        found == match held {
            Datum::UInt(value) => Some(value),
            _ => None,
        }
    }

    fn get(&self) -> (found: Option<UInt>) {
        match &self.inner {
            Variant::UInt(value) => Some(*value),
            _ => None,
        }
    }
}

impl Get<Float> for Value {
    /// Present exactly when the container holds a float: that float.
    open spec fn reads(held: Datum, found: Option<Float>) -> bool {
        found == match held {
            Datum::Float(bits) => Some(Float { bits }),
            _ => None,
        }
    }

    fn get(&self) -> (found: Option<Float>) {
        match &self.inner {
            Variant::Float(value) => Some(*value),
            _ => None,
        }
    }
}

impl Get<String> for Value {
    /// Present exactly when the container holds a string: its bytes.
    open spec fn reads(held: Datum, found: Option<String>) -> bool {
        match held {
            Datum::String(bytes) => found.is_some() && found.unwrap()@ == bytes,
            _ => found.is_none(),
        }
    }

    fn get(&self) -> (found: Option<String>) {
        match &self.inner {
            Variant::String(string) => Some(string.clone()),
            _ => None,
        }
    }
}

impl Get<std::string::String> for Value {
    /// Present exactly when the container holds a string whose bytes are
    /// well-formed UTF-8: the text that those bytes spell.
    open spec fn reads(held: Datum, found: Option<std::string::String>) -> bool {
        match held {
            Datum::String(bytes) => if valid_utf8(bytes) {
                found.is_some() && encode_utf8(found.unwrap()@) == bytes
            } else {
                found.is_none()
            },
            _ => found.is_none(),
        }
    }

    fn get(&self) -> (found: Option<std::string::String>) {
        match &self.inner {
            Variant::String(string) => match string.as_str() {
                Some(text) => Some(text.to_owned()),
                None => None,
            },
            _ => None,
        }
    }
}

impl Get<List> for Value {
    /// Present exactly when the container holds a list: a copy of it.
    open spec fn reads(held: Datum, found: Option<List>) -> bool {
        match held {
            Datum::List(items) => found.is_some() && found.unwrap()@ == items,
            _ => found.is_none(),
        }
    }

    fn get(&self) -> (found: Option<List>) {
        match &self.inner {
            Variant::List(list) => Some(list.clone()),
            _ => None,
        }
    }
}

impl Get<Dict> for Value {
    /// Present exactly when the container holds a dictionary: a copy of it.
    open spec fn reads(held: Datum, found: Option<Dict>) -> bool {
        match held {
            Datum::Dict(pairs) => found.is_some() && found.unwrap()@ == pairs,
            _ => found.is_none(),
        }
    }

    fn get(&self) -> (found: Option<Dict>) {
        match &self.inner {
            Variant::Dict(dict) => Some(dict.clone()),
            _ => None,
        }
    }
}

impl Get<Variant> for Value {
    /// Always present: whatever the container holds.
    open spec fn reads(held: Datum, found: Option<Variant>) -> bool {
        found.is_some() && found.unwrap()@ == held
    }

    fn get(&self) -> (found: Option<Variant>) {
        Some(self.to_variant())
    }
}

/// Putting a value of type `V` into a container, in place of what it held:
/// the container then holds exactly the value given.
pub trait Assign<V: IntoVariant>: View<V = Datum> {
    fn set(&mut self, value: V)
        ensures
            final(self)@ == value.meaning(),
    ;
}

impl<V: IntoVariant> Assign<V> for Value {
    fn set(&mut self, value: V) {
        self.inner = value.into_variant();
    }
}


/// Whether two runs of values are equal item by item.
fn same_items(a: &Vec<Variant>, b: &Vec<Variant>) -> (same: bool)
    ensures
        same == Datum::List(models(a@)).same(Datum::List(models(b@))),
    decreases a, 0nat,
{
    if a.len() != b.len() {
        return false;
    }
    let mut i: usize = 0;
    while i < a.len()
        invariant
            i <= a.len(),
            a.len() == b.len(),
            forall|k: int| 0 <= k < i ==> (#[trigger] models(a@)[k]).same(models(b@)[k]),
        decreases a.len() - i,
    {
        if !same_variant(&a[i], &b[i]) {
            proof {
                assert(!models(a@)[i as int].same(models(b@)[i as int]));
            }
            return false;
        }
        i += 1;
    }
    true
}

/// Whether each key of the first run has an equal value in the second,
/// which has as many entries.
fn same_entries(a: &Dict, b: &Dict) -> (same: bool)
    ensures
        same == Datum::Dict(a@).same(Datum::Dict(b@)),
    decreases a, 0nat,
{
    if a.entries.len() != b.entries.len() {
        return false;
    }
    let mut i: usize = 0;
    while i < a.entries.len()
        invariant
            i <= a.entries.len(),
            a.entries.len() == b.entries.len(),
            forall|k: int|
                0 <= k < i ==> {
                    &&& position(b@, (#[trigger] a@[k]).0) < b@.len()
                    &&& a@[k].1.same(b@[position(b@, a@[k].0)].1)
                },
        decreases a.entries.len() - i,
    {
        let at = b.find(a.entries[i].key.as_slice());
        if at >= b.entries.len() {
            proof {
                assert(!(position(b@, a@[i as int].0) < b@.len()));
            }
            return false;
        }
        if !same_variant(&a.entries[i].value, &b.entries[at].value) {
            proof {
                assert(!a@[i as int].1.same(b@[position(b@, a@[i as int].0)].1));
            }
            return false;
        }
        i += 1;
    }
    true
}

/// Whether two values are equal by value.
fn same_variant(a: &Variant, b: &Variant) -> (same: bool)
    ensures
        same == a@.same(b@),
    decreases a, 1nat,
{
    match (a, b) {
        (Variant::Null, Variant::Null) => true,
        (Variant::Bool(x), Variant::Bool(y)) => *x == *y,
        (Variant::Int(x), Variant::Int(y)) => *x == *y,
        (Variant::UInt(x), Variant::UInt(y)) => *x == *y,
        (Variant::Float(x), Variant::Float(y)) => x.bits == y.bits,
        (Variant::String(x), Variant::String(y)) => x == y,
        (Variant::List(x), Variant::List(y)) => same_items(&x.items, &y.items),
        (Variant::Dict(x), Variant::Dict(y)) => same_entries(x, y),
        _ => false,
    }
}

impl PartialEq for Variant {
    fn eq(&self, other: &Self) -> (same: bool) {
        same_variant(self, other)
    }
}

impl PartialEqSpecImpl for Variant {
    open spec fn obeys_eq_spec() -> bool {
        true
    }

    open spec fn eq_spec(&self, other: &Self) -> bool {
        self@.same(other@)
    }
}

impl PartialEq for List {
    fn eq(&self, other: &Self) -> (same: bool) {
        same_items(&self.items, &other.items)
    }
}

impl PartialEqSpecImpl for List {
    open spec fn obeys_eq_spec() -> bool {
        true
    }

    open spec fn eq_spec(&self, other: &Self) -> bool {
        Datum::List(self@).same(Datum::List(other@))
    }
}

impl PartialEq for Dict {
    fn eq(&self, other: &Self) -> (same: bool) {
        same_entries(self, other)
    }
}

impl PartialEqSpecImpl for Dict {
    open spec fn obeys_eq_spec() -> bool {
        true
    }

    open spec fn eq_spec(&self, other: &Self) -> bool {
        Datum::Dict(self@).same(Datum::Dict(other@))
    }
}

impl PartialEq for Value {
    fn eq(&self, other: &Self) -> (same: bool) {
        same_variant(&self.inner, &other.inner)
    }
}

impl PartialEqSpecImpl for Value {
    open spec fn obeys_eq_spec() -> bool {
        true
    }

    open spec fn eq_spec(&self, other: &Self) -> bool {
        self@.same(other@)
    }
}


impl<V: IntoVariant> From<V> for Value {
    /// A container that holds the value given.
    fn from(value: V) -> (container: Self)
        ensures
            container@ == value.meaning(),
    {
        Value { inner: value.into_variant() }
    }
}

impl<V: IntoVariant> FromSpecImpl<V> for Value {
    open spec fn obeys_from_spec() -> bool {
        false
    }

    open spec fn from_spec(value: V) -> Self {
        arbitrary()
    }
}

/// What was stored under a key is what is found under it, and what is
/// found under any other key is what was found there before.
pub proof fn law_stored_is_found(
    pairs: Seq<(Seq<u8>, Datum)>,
    key: Seq<u8>,
    value: Datum,
    other: Seq<u8>,
)
    requires
        distinct_keys(pairs),
        other != key,
    ensures
        distinct_keys(stored(pairs, key, value)),
        lookup(stored(pairs, key, value), key) == Some(value),
        lookup(stored(pairs, key, value), other) == lookup(pairs, other),
        stored(pairs, key, value).len() == if lookup(pairs, key).is_some() {
            pairs.len()
        } else {
            pairs.len() + 1
        },
{
    let after = stored(pairs, key, value);
    lemma_position(pairs, key);
    lemma_position(pairs, other);
    let at = position(pairs, key);
    let there = position(pairs, other);
    assert forall|i: int, j: int| 0 <= i < j < after.len() implies after[i].0 != after[j].0 by {
        if i < pairs.len() {
            assert(after[i].0 == pairs[i].0);
        }
        if j < pairs.len() {
            assert(after[j].0 == pairs[j].0);
        }
    }
    assert(after[at].0 == key);
    assert forall|i: int| 0 <= i < at implies after[i].0 != key by {
        assert(after[i].0 == pairs[i].0);
    }
    lemma_position_is(after, key, at);
    if there < pairs.len() {
        assert(after[there] == pairs[there]);
        assert forall|i: int| 0 <= i < there implies after[i].0 != other by {
            assert(after[i].0 == pairs[i].0);
        }
        lemma_position_is(after, other, there);
    } else {
        assert forall|i: int| 0 <= i < after.len() implies after[i].0 != other by {
            if i < pairs.len() {
                assert(after[i].0 == pairs[i].0);
            }
        }
        lemma_position_is(after, other, after.len() as int);
    }
}

/// What was erased is found no more, and what is found under any other key
/// is what was found there before.
pub proof fn law_erased_is_gone(pairs: Seq<(Seq<u8>, Datum)>, key: Seq<u8>, other: Seq<u8>)
    requires
        distinct_keys(pairs),
        other != key,
    ensures
        distinct_keys(erased(pairs, key)),
        lookup(erased(pairs, key), key).is_none(),
        lookup(erased(pairs, key), other) == lookup(pairs, other),
        erased(pairs, key).len() == if lookup(pairs, key).is_some() {
            pairs.len() - 1
        } else {
            pairs.len() as int
        },
{
    let after = erased(pairs, key);
    lemma_position(pairs, key);
    lemma_position(pairs, other);
    let at = position(pairs, key);
    let there = position(pairs, other);
    if at < pairs.len() {
        assert forall|i: int| 0 <= i < after.len() implies #[trigger] after[i] == pairs[if i
            < at {
            i
        } else {
            i + 1
        }] by {}
        assert forall|i: int, j: int| 0 <= i < j < after.len() implies after[i].0
            != after[j].0 by {
            let a = if i < at { i } else { i + 1 };
            let b = if j < at { j } else { j + 1 };
            assert(after[i] == pairs[a]);
            assert(after[j] == pairs[b]);
        }
        assert forall|i: int| 0 <= i < after.len() implies after[i].0 != key by {
            let a = if i < at { i } else { i + 1 };
            assert(after[i] == pairs[a]);
            if a < at {
            } else {
                assert(pairs[at].0 != pairs[a].0);
            }
        }
        lemma_position_is(after, key, after.len() as int);
        if there < pairs.len() {
            let moved = if there < at { there } else { there - 1 };
            assert(after[moved] == pairs[there]);
            assert forall|i: int| 0 <= i < moved implies after[i].0 != other by {
                let a = if i < at { i } else { i + 1 };
                assert(after[i] == pairs[a]);
            }
            lemma_position_is(after, other, moved);
        } else {
            assert forall|i: int| 0 <= i < after.len() implies after[i].0 != other by {
                let a = if i < at { i } else { i + 1 };
                assert(after[i] == pairs[a]);
            }
            lemma_position_is(after, other, after.len() as int);
        }
    }
}

/// Equality by value holds between every value without a repeated key and
/// itself.
pub proof fn law_same_as_itself(datum: Datum)
    requires
        datum.well_formed(),
    ensures
        datum.same(datum),
    decreases datum,
{
    match datum {
        Datum::List(items) => {
            assert forall|i: int| 0 <= i < items.len() implies (#[trigger] items[i]).same(
                items[i],
            ) by {
                law_same_as_itself(items[i]);
            }
        },
        Datum::Dict(pairs) => {
            assert forall|i: int| 0 <= i < pairs.len() implies {
                &&& position(pairs, (#[trigger] pairs[i]).0) < pairs.len()
                &&& pairs[i].1.same(pairs[position(pairs, pairs[i].0)].1)
            } by {
                lemma_position(pairs, pairs[i].0);
                let at = position(pairs, pairs[i].0);
                if at != i {
                    if at < i {
                        assert(pairs[at].0 != pairs[i].0);
                    }
                }
                law_same_as_itself(pairs[i].1);
            }
        },
        _ => {},
    }
}

/// Copy independence: a copy of a list holds what the list holds, and
/// appending to the copy gives the copy one more item while the list keeps
/// every item, and their number, as they were.
pub proof fn law_copy_independence(list: Seq<Datum>, copy: Seq<Datum>, value: Datum)
    requires
        copy == list,
    ensures
        copy.push(value).len() == list.len() + 1,
        copy.push(value).last() == value,
        copy.push(value).drop_last() == list,
        forall|i: int| 0 <= i < list.len() ==> copy.push(value)[i] == list[i],
{
    assert(copy.push(value).drop_last() =~= list);
}

} // verus!
