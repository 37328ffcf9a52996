//! The values of the byte-aligned container: texts, lists, dictionaries of
//! properties and the records of the content section.
//!
//! For each kind of value there is a function over the input bytes that says
//! what stands at an offset, and a reader that is proved to return just that.

use crate::codec::text_eq;
use crate::codec::lemma_utf_16_encode_decode;
use crate::codec::utf_16;
use crate::codec::utf_16_encode;
use crate::codec::utf_16_of;
use crate::codec::utf_16_units;
use crate::codec::windows_1252;
use crate::codec::windows_1252_of;
use crate::convert::i32_usize;
use crate::error::GetError;
use crate::error::GetFault;
use crate::get::i32_at;
use crate::get::out_of_bounds;
use crate::get::reads;
use crate::get::u32_at;
use crate::get::u64_at;
use crate::get::u8_at;
use crate::get::vec_at;
use crate::get::viewed;
use crate::get::Get;
use crate::get::Parsed;
use vstd::prelude::*;

verus! {

/// The models of `items`, one for one.
pub open spec fn views<T: View>(items: Seq<T>) -> Seq<T::V> {
    Seq::new(items.len(), |i: int| items[i]@)
}

/// A kind of value that stands in the container at a byte offset.
pub trait Decode: Sized + View {
    /// The value at offset `at` of `bytes` and the offset behind it.
    spec fn parse_at(bytes: Seq<u8>, at: int) -> Parsed<Self::V>;

    /// Reads the value under the cursor.
    fn get(get: &mut Get) -> (r: Result<Self, GetError>)
        ensures
            reads(
                old(get)@,
                final(get)@,
                Self::parse_at(old(get)@.bytes, old(get)@.index),
                viewed(r),
            ),
    ;
}

impl Decode for u32 {
    open spec fn parse_at(bytes: Seq<u8>, at: int) -> Parsed<u32> {
        u32_at(bytes, at)
    }

    fn get(get: &mut Get) -> (r: Result<Self, GetError>) {
        get.get_u32()
    }
}

/// The value at offset `at` if `condition` holds, and nothing, from no
/// bytes, if it does not.
pub open spec fn option_at<T: Decode>(bytes: Seq<u8>, at: int, condition: bool) -> Parsed<
    Option<T::V>,
> {
    if condition {
        match T::parse_at(bytes, at) {
            Err(e) => Err(e),
            Ok((value, end)) => Ok((Some(value), end)),
        }
    } else {
        Ok((None, at))
    }
}

impl Get {
    /// Reads a value if `condition` holds, and nothing if it does not.
    pub fn get_option<T: Decode>(&mut self, condition: bool) -> (r: Result<Option<T>, GetError>)
        ensures
            reads(
                old(self)@,
                final(self)@,
                option_at::<T>(old(self)@.bytes, old(self)@.index, condition),
                match r {
                    Ok(Some(value)) => Ok(Some(value@)),
                    Ok(None) => Ok(None),
                    Err(e) => Err(e@),
                },
            ),
    {
        if condition {
            let value = T::get(self)?;
            Ok(Some(value))
        } else {
            proof {
                use_type_invariant(&*self);
                self.lemma_within();
            }
            Ok(None)
        }
    }
}

/// A string with the size field that announced it.
///
/// A negative size announces UTF-16, as many 16-bit units as its magnitude;
/// any other size announces Windows-1252, that many bytes.
#[derive(Debug, PartialEq, Eq)]
pub struct Text {
    pub size: i32,
    pub value: String,
}

/// The mathematical content of a [`Text`].
pub struct TextView {
    pub size: i32,
    pub value: Seq<char>,
}

impl View for Text {
    type V = TextView;

    open spec fn view(&self) -> TextView {
        TextView { size: self.size, value: self.value@ }
    }
}

/// The size that some writers put where they meant eight.
pub const TEXT_SIZE_MISWRITTEN: i32 = 0x0500_0000;

/// The number of bytes that the body of a text of this size field has.
pub open spec fn text_len(size: i32) -> int {
    if size < 0 {
        -2 * size
    } else if size == TEXT_SIZE_MISWRITTEN {
        8
    } else {
        size as int
    }
}

/// The text at offset `at`.
pub open spec fn text_at(bytes: Seq<u8>, at: int) -> Parsed<TextView> {
    match i32_at(bytes, at) {
        Err(e) => Err(e),
        Ok((size, body)) => match vec_at(bytes, body, text_len(size)) {
            Err(e) => Err(e),
            Ok((raw, end)) => if size < 0 {
                match utf_16_of(raw) {
                    None => Err(GetFault::InvalidUtf16(raw)),
                    Some(value) => Ok((TextView { size, value }, end)),
                }
            } else {
                match windows_1252_of(raw) {
                    None => Err(GetFault::InvalidWindows1252(raw)),
                    Some(value) => Ok((TextView { size: text_len(size) as i32, value }, end)),
                }
            },
        },
    }
}

impl Get {
    /// Reads a text. The text has as many code units as its size says.
    pub fn get_text(&mut self) -> (r: Result<Text, GetError>)
        ensures
            reads(old(self)@, final(self)@, text_at(old(self)@.bytes, old(self)@.index), viewed(r)),
            r matches Ok(text) ==> if text.size < 0 {
                utf_16_encode(text.value@).len() == -text.size
            } else {
                text.value@.len() == text.size
            },
    {
        proof {
            lemma_text_at_length(self@.bytes, self@.index);
        }
        let size = self.get_i32()?;
        if size < 0 {
            let units: u64 = (-(size as i64)) as u64;
            let wanted: u64 = 2 * units;
            if wanted > usize::MAX as u64 {
                return Err(GetError::IndexOutOfBounds { index: usize::MAX, len: self.len() });
            }
            let bytes = self.get_vec(wanted as usize)?;
            match utf_16(bytes.as_slice()) {
                None => Err(GetError::InvalidUtf16(bytes)),
                Some(value) => Ok(Text { size, value }),
            }
        } else {
            let size = if size == TEXT_SIZE_MISWRITTEN {
                8
            } else {
                size
            };
            let bytes = self.get_vec(i32_usize(size))?;
            match windows_1252(bytes.as_slice()) {
                None => Err(GetError::InvalidWindows1252(bytes)),
                Some(value) => Ok(Text { size, value }),
            }
        }
    }
}

impl Decode for Text {
    open spec fn parse_at(bytes: Seq<u8>, at: int) -> Parsed<TextView> {
        text_at(bytes, at)
    }

    fn get(get: &mut Get) -> (r: Result<Self, GetError>) {
        get.get_text()
    }
}

/// A sequence of values with the count that announced it.
#[derive(Debug, PartialEq, Eq)]
pub struct List<T> {
    pub size: u32,
    pub value: Vec<T>,
}

/// The mathematical content of a [`List`].
pub struct ListView<V> {
    pub size: u32,
    pub value: Seq<V>,
}

impl<T: View> View for List<T> {
    type V = ListView<T::V>;

    open spec fn view(&self) -> ListView<T::V> {
        ListView { size: self.size, value: views(self.value@) }
    }
}

/// `done` followed by the values of `rest`, where `rest` has any.
pub open spec fn then_items<V>(done: Seq<V>, rest: Parsed<Seq<V>>) -> Parsed<Seq<V>> {
    match rest {
        Err(e) => Err(e),
        Ok((more, end)) => Ok((done + more, end)),
    }
}

/// The `n` values in a row that start at offset `at`.
pub open spec fn items_at<T: Decode>(bytes: Seq<u8>, at: int, n: nat) -> Parsed<Seq<T::V>>
    decreases n,
{
    if n == 0 {
        Ok((Seq::empty(), at))
    } else {
        match T::parse_at(bytes, at) {
            Err(e) => Err(e),
            Ok((first, next)) => then_items(
                seq![first],
                items_at::<T>(bytes, next, (n - 1) as nat),
            ),
        }
    }
}

/// The list at offset `at`: a 32-bit count, then that many values.
pub open spec fn list_at<T: Decode>(bytes: Seq<u8>, at: int) -> Parsed<ListView<T::V>> {
    match u32_at(bytes, at) {
        Err(e) => Err(e),
        Ok((size, first)) => match items_at::<T>(bytes, first, size as nat) {
            Err(e) => Err(e),
            Ok((value, end)) => Ok((ListView { size, value }, end)),
        },
    }
}

proof fn lemma_then_items_push<V>(done: Seq<V>, item: V, rest: Parsed<Seq<V>>)
    ensures
        then_items(done, then_items(seq![item], rest)) == then_items(done.push(item), rest),
{
    if let Ok((more, end)) = rest {
        assert(done + (seq![item] + more) =~= done.push(item) + more);
    }
}

impl Get {
    /// Reads a list.
    pub fn get_list<T: Decode>(&mut self) -> (r: Result<List<T>, GetError>)
        ensures
            reads(
                old(self)@,
                final(self)@,
                list_at::<T>(old(self)@.bytes, old(self)@.index),
                viewed(r),
            ),
            r matches Ok(list) ==> list.value@.len() == list.size,
    {
        let size = self.get_u32()?;
        let mut value: Vec<T> = Vec::new();
        let ghost bytes = self@.bytes;
        let ghost first = self@.index;
        let mut i: u32 = 0;
        proof {
            if let Ok((all, end)) = items_at::<T>(bytes, first, size as nat) {
                assert(Seq::<T::V>::empty() + all =~= all);
            }
            assert(views(value@) =~= Seq::<T::V>::empty());
        }
        while i < size
            invariant
                i <= size,
                bytes == old(self)@.bytes,
                self@.bytes == bytes,
                old(self)@.index <= first <= self@.index <= bytes.len(),
                u32_at(bytes, old(self)@.index) == Ok::<(u32, int), GetFault>((size, first)),
                value@.len() == i,
                items_at::<T>(bytes, first, size as nat) == then_items(
                    views(value@),
                    items_at::<T>(bytes, self@.index, (size - i) as nat),
                ),
            decreases size - i,
        {
            let ghost done = views(value@);
            let x = T::get(self)?;
            value.push(x);
            i += 1;
            proof {
                assert(views(value@) =~= done.push(x@));
                lemma_then_items_push(
                    done,
                    x@,
                    items_at::<T>(bytes, self@.index, (size - i) as nat),
                );
            }
        }
        proof {
            assert(views(value@) + Seq::<T::V>::empty() =~= views(value@));
        }
        Ok(List { size, value })
    }
}

/// The entries of a dictionary, in the order in which they were written,
/// with the key that closed it.
#[derive(Debug, PartialEq, Eq)]
pub struct Dictionary<T> {
    pub value: Vec<(Text, T)>,
    pub last: Text,
}

/// The mathematical content of a [`Dictionary`].
pub struct DictionaryView<V> {
    pub value: Seq<(TextView, V)>,
    pub last: TextView,
}

/// A typed value of the header, with the label of its kind and the size
/// that the writer recorded for it.
#[derive(Debug, PartialEq, Eq)]
pub struct Property {
    pub label: Text,
    pub size: u64,
    pub value: PropertyValue,
}

/// What a [`Property`] holds. A `Float` holds the bit pattern of an IEEE-754
/// single.
#[derive(Debug, PartialEq, Eq)]
pub enum PropertyValue {
    Array(List<Dictionary<Property>>),
    Bool(u8),
    Byte { key: Text, value: Option<Text> },
    Float(u32),
    Int(u32),
    Name(Text),
    QWord(u64),
    Str(Text),
}

/// The mathematical content of a [`Property`].
pub struct PropertyView {
    pub label: TextView,
    pub size: u64,
    pub value: PropertyValueView,
}

/// The mathematical content of a [`PropertyValue`].
pub enum PropertyValueView {
    Array(ListView<DictionaryView<PropertyView>>),
    Bool(u8),
    Byte { key: TextView, value: Option<TextView> },
    Float(u32),
    Int(u32),
    Name(TextView),
    QWord(u64),
    Str(TextView),
}

/// The model of a property.
pub open spec fn property_view(p: Property) -> PropertyView
    decreases p,
{
    PropertyView { label: p.label@, size: p.size, value: property_value_view(p.value) }
}

/// The model of a property's value.
pub open spec fn property_value_view(v: PropertyValue) -> PropertyValueView
    decreases v,
{
    match v {
        PropertyValue::Array(list) => PropertyValueView::Array(
            ListView { size: list.size, value: dictionary_views(list.value@) },
        ),
        PropertyValue::Bool(x) => PropertyValueView::Bool(x),
        PropertyValue::Byte { key, value } => PropertyValueView::Byte {
            key: key@,
            value: match value {
                Some(t) => Some(t@),
                None => None,
            },
        },
        PropertyValue::Float(x) => PropertyValueView::Float(x),
        PropertyValue::Int(x) => PropertyValueView::Int(x),
        PropertyValue::Name(t) => PropertyValueView::Name(t@),
        PropertyValue::QWord(x) => PropertyValueView::QWord(x),
        PropertyValue::Str(t) => PropertyValueView::Str(t@),
    }
}

/// The models of dictionaries of properties, one for one.
pub open spec fn dictionary_views(items: Seq<Dictionary<Property>>) -> Seq<
    DictionaryView<PropertyView>,
>
    decreases items,
{
    Seq::new(
        items.len(),
        |i: int|
            if 0 <= i < items.len() {
                dictionary_view(items[i])
            } else {
                arbitrary()
            },
    )
}

/// The model of a dictionary of properties.
pub open spec fn dictionary_view(d: Dictionary<Property>) -> DictionaryView<PropertyView>
    decreases d,
{
    DictionaryView { value: entry_views(d.value@), last: d.last@ }
}

/// The models of the entries of a dictionary of properties, one for one.
pub open spec fn entry_views(items: Seq<(Text, Property)>) -> Seq<(TextView, PropertyView)>
    decreases items,
{
    Seq::new(
        items.len(),
        |i: int|
            if 0 <= i < items.len() {
                (items[i].0@, property_view(items[i].1))
            } else {
                arbitrary()
            },
    )
}

impl View for Property {
    type V = PropertyView;

    open spec fn view(&self) -> PropertyView {
        property_view(*self)
    }
}

impl View for PropertyValue {
    type V = PropertyValueView;

    open spec fn view(&self) -> PropertyValueView {
        property_value_view(*self)
    }
}

impl View for Dictionary<Property> {
    type V = DictionaryView<PropertyView>;

    open spec fn view(&self) -> DictionaryView<PropertyView> {
        dictionary_view(*self)
    }
}

/// Whether `key` closes a dictionary.
pub open spec fn is_terminator(key: Seq<char>) -> bool {
    key == "None\0"@ || key == "\0\0\0None\0"@
}

/// Whether a value that started at `from` ended at `to`, inside the bytes.
pub open spec fn advances(bytes: Seq<u8>, from: int, to: int) -> bool {
    from <= to <= bytes.len()
}

/// `key` and `value` as the first entry before those of `rest`.
pub open spec fn then_entries(
    key: TextView,
    value: PropertyView,
    rest: Parsed<DictionaryView<PropertyView>>,
) -> Parsed<DictionaryView<PropertyView>> {
    match rest {
        Err(e) => Err(e),
        Ok((more, end)) => Ok(
            (DictionaryView { value: seq![(key, value)] + more.value, last: more.last }, end),
        ),
    }
}

/// The property at offset `at`: the label of its kind, its recorded size and
/// the value that the label calls for.
pub open spec fn property_at(bytes: Seq<u8>, at: int) -> Parsed<PropertyView>
    decreases bytes.len() - at, 0nat,
{
    match text_at(bytes, at) {
        Err(e) => Err(e),
        Ok((label, sized)) => match u64_at(bytes, sized) {
            Err(e) => Err(e),
            Ok((size, body)) => match property_value_at(bytes, body, label.value) {
                Err(e) => Err(e),
                Ok((value, end)) => Ok((PropertyView { label, size, value }, end)),
            },
        },
    }
}

/// The kinds of value that a property can hold.
#[derive(Debug, Clone, Copy, PartialEq, Eq)]
pub enum PropertyKind {
    Array,
    Bool,
    Byte,
    Float,
    Int,
    Name,
    QWord,
    Str,
}

/// The kind of value that the label `label` announces, if it is the label
/// of a kind.
pub open spec fn property_kind(label: Seq<char>) -> Option<PropertyKind> {
    if label == "ArrayProperty\0"@ {
        Some(PropertyKind::Array)
    } else if label == "BoolProperty\0"@ {
        Some(PropertyKind::Bool)
    } else if label == "ByteProperty\0"@ {
        Some(PropertyKind::Byte)
    } else if label == "FloatProperty\0"@ {
        Some(PropertyKind::Float)
    } else if label == "IntProperty\0"@ {
        Some(PropertyKind::Int)
    } else if label == "NameProperty\0"@ {
        Some(PropertyKind::Name)
    } else if label == "QWordProperty\0"@ {
        Some(PropertyKind::QWord)
    } else if label == "StrProperty\0"@ {
        Some(PropertyKind::Str)
    } else {
        None
    }
}

/// The value of a property with the label `label` at offset `at`.
pub open spec fn property_value_at(bytes: Seq<u8>, at: int, label: Seq<char>) -> Parsed<
    PropertyValueView,
>
    decreases bytes.len() - at, 1nat,
{
    match property_kind(label) {
        Some(kind) => property_body_at(bytes, at, kind),
        None => Err(GetFault::UnknownProperty(label)),
    }
}

/// The value of a property of the kind `kind` at offset `at`.
///
/// A byte property holds the name of an enumeration and its value, but for
/// the one enumeration that is written without a value.
pub open spec fn property_body_at(bytes: Seq<u8>, at: int, kind: PropertyKind) -> Parsed<
    PropertyValueView,
>
    decreases bytes.len() - at, 0nat,
{
    match kind {
        PropertyKind::Array => match u32_at(bytes, at) {
            Err(e) => Err(e),
            Ok((size, first)) => match dictionaries_at(bytes, first, size as nat) {
                Err(e) => Err(e),
                Ok((value, end)) => Ok((PropertyValueView::Array(ListView { size, value }), end)),
            },
        },
        PropertyKind::Bool => match u8_at(bytes, at) {
            Err(e) => Err(e),
            Ok((x, end)) => Ok((PropertyValueView::Bool(x), end)),
        },
        PropertyKind::Byte => match text_at(bytes, at) {
            Err(e) => Err(e),
            Ok((key, next)) => if key.value == "OnlinePlatform_Steam\0"@ {
                Ok((PropertyValueView::Byte { key, value: None }, next))
            } else {
                match text_at(bytes, next) {
                    Err(e) => Err(e),
                    Ok((x, end)) => Ok((PropertyValueView::Byte { key, value: Some(x) }, end)),
                }
            },
        },
        PropertyKind::Float => match u32_at(bytes, at) {
            Err(e) => Err(e),
            Ok((x, end)) => Ok((PropertyValueView::Float(x), end)),
        },
        PropertyKind::Int => match u32_at(bytes, at) {
            Err(e) => Err(e),
            Ok((x, end)) => Ok((PropertyValueView::Int(x), end)),
        },
        PropertyKind::Name => match text_at(bytes, at) {
            Err(e) => Err(e),
            Ok((x, end)) => Ok((PropertyValueView::Name(x), end)),
        },
        PropertyKind::QWord => match u64_at(bytes, at) {
            Err(e) => Err(e),
            Ok((x, end)) => Ok((PropertyValueView::QWord(x), end)),
        },
        PropertyKind::Str => match text_at(bytes, at) {
            Err(e) => Err(e),
            Ok((x, end)) => Ok((PropertyValueView::Str(x), end)),
        },
    }
}

/// The `n` dictionaries in a row that start at offset `at`.
///
/// A dictionary ends behind its start and inside the bytes
/// ([`lemma_property_at_advances`]), so the test that stands before the next
/// one never fails; it is what shows that the rows come to an end.
pub open spec fn dictionaries_at(bytes: Seq<u8>, at: int, n: nat) -> Parsed<
    Seq<DictionaryView<PropertyView>>,
>
    decreases bytes.len() - at, n + 1,
{
    if n == 0 {
        Ok((Seq::empty(), at))
    } else {
        match dictionary_at(bytes, at) {
            Err(e) => Err(e),
            Ok((first, next)) => if advances(bytes, at, next) {
                then_items(seq![first], dictionaries_at(bytes, next, (n - 1) as nat))
            } else {
                Err(out_of_bounds(bytes, next))
            },
        }
    }
}

/// The dictionary at offset `at`: keys, each followed by a property, up to
/// the first key that is a terminator.
///
/// A property ends behind its start and inside the bytes
/// ([`lemma_property_at_advances`]), so the test that stands before the next
/// key never fails; it is what shows that the entries come to an end.
pub open spec fn dictionary_at(bytes: Seq<u8>, at: int) -> Parsed<DictionaryView<PropertyView>>
    decreases bytes.len() - at, 0nat,
{
    match text_at(bytes, at) {
        Err(e) => Err(e),
        Ok((key, body)) => if is_terminator(key.value) {
            Ok((DictionaryView { value: Seq::empty(), last: key }, body))
        } else {
            match property_at(bytes, body) {
                Err(e) => Err(e),
                Ok((value, next)) => if advances(bytes, body, next) {
                    then_entries(key, value, dictionary_at(bytes, next))
                } else {
                    Err(out_of_bounds(bytes, next))
                },
            }
        },
    }
}

/// The entries `done` before those of `rest`.
pub open spec fn after_entries(
    done: Seq<(TextView, PropertyView)>,
    rest: Parsed<DictionaryView<PropertyView>>,
) -> Parsed<DictionaryView<PropertyView>> {
    match rest {
        Err(e) => Err(e),
        Ok((more, end)) => Ok(
            (DictionaryView { value: done + more.value, last: more.last }, end),
        ),
    }
}

proof fn lemma_after_entries_push(
    done: Seq<(TextView, PropertyView)>,
    key: TextView,
    value: PropertyView,
    rest: Parsed<DictionaryView<PropertyView>>,
)
    ensures
        after_entries(done, then_entries(key, value, rest)) == after_entries(
            done.push((key, value)),
            rest,
        ),
{
    if let Ok((more, end)) = rest {
        assert(done + (seq![(key, value)] + more.value) =~= done.push((key, value)) + more.value);
    }
}

impl Get {
    /// Reads a property.
    pub fn get_property(&mut self) -> (r: Result<Property, GetError>)
        ensures
            reads(
                old(self)@,
                final(self)@,
                property_at(old(self)@.bytes, old(self)@.index),
                viewed(r),
            ),
        decreases old(self)@.bytes.len() - old(self)@.index, 0nat,
    {
        let label = self.get_text()?;
        let size = self.get_u64()?;
        let value = self.get_property_value(label.value.as_str())?;
        Ok(Property { label, size, value })
    }

    /// Reads the value of a property with the label `label`.
    pub fn get_property_value(&mut self, label: &str) -> (r: Result<PropertyValue, GetError>)
        ensures
            reads(
                old(self)@,
                final(self)@,
                property_value_at(old(self)@.bytes, old(self)@.index, label@),
                viewed(r),
            ),
        decreases old(self)@.bytes.len() - old(self)@.index, 2nat,
    {
        match get_property_kind(label) {
            Some(kind) => self.get_property_body(kind),
            None => {
                proof {
                    use_type_invariant(&*self);
                    self.lemma_within();
                }
                Err(GetError::UnknownProperty(label.to_owned()))
            },
        }
    }

    /// Reads the value of a property of the kind `kind`.
    pub fn get_property_body(&mut self, kind: PropertyKind) -> (r: Result<PropertyValue, GetError>)
        ensures
            reads(
                old(self)@,
                final(self)@,
                property_body_at(old(self)@.bytes, old(self)@.index, kind),
                viewed(r),
            ),
        decreases old(self)@.bytes.len() - old(self)@.index, 1nat,
    {
        match kind {
            PropertyKind::Array => self.get_property_value_array(),
            PropertyKind::Bool => self.get_property_value_bool(),
            PropertyKind::Byte => self.get_property_value_byte(),
            PropertyKind::Float => self.get_property_value_float(),
            PropertyKind::Int => self.get_property_value_int(),
            PropertyKind::Name => self.get_property_value_name(),
            PropertyKind::QWord => self.get_property_value_qword(),
            PropertyKind::Str => self.get_property_value_str(),
        }
    }

    /// Reads the value of a bool property.
    pub fn get_property_value_bool(&mut self) -> (r: Result<PropertyValue, GetError>)
        ensures
            reads(
                old(self)@,
                final(self)@,
                property_body_at(old(self)@.bytes, old(self)@.index, PropertyKind::Bool),
                viewed(r),
            ),
    {
        let x = self.get_u8()?;
        Ok(PropertyValue::Bool(x))
    }

    /// Reads the value of a float property, as a bit pattern.
    pub fn get_property_value_float(&mut self) -> (r: Result<PropertyValue, GetError>)
        ensures
            reads(
                old(self)@,
                final(self)@,
                property_body_at(old(self)@.bytes, old(self)@.index, PropertyKind::Float),
                viewed(r),
            ),
    {
        let x = self.get_u32()?;
        Ok(PropertyValue::Float(x))
    }

    /// Reads the value of an int property.
    pub fn get_property_value_int(&mut self) -> (r: Result<PropertyValue, GetError>)
        ensures
            reads(
                old(self)@,
                final(self)@,
                property_body_at(old(self)@.bytes, old(self)@.index, PropertyKind::Int),
                viewed(r),
            ),
    {
        let x = self.get_u32()?;
        Ok(PropertyValue::Int(x))
    }

    /// Reads the value of a name property.
    pub fn get_property_value_name(&mut self) -> (r: Result<PropertyValue, GetError>)
        ensures
            reads(
                old(self)@,
                final(self)@,
                property_body_at(old(self)@.bytes, old(self)@.index, PropertyKind::Name),
                viewed(r),
            ),
    {
        let x = self.get_text()?;
        Ok(PropertyValue::Name(x))
    }

    /// Reads the value of a qword property.
    pub fn get_property_value_qword(&mut self) -> (r: Result<PropertyValue, GetError>)
        ensures
            reads(
                old(self)@,
                final(self)@,
                property_body_at(old(self)@.bytes, old(self)@.index, PropertyKind::QWord),
                viewed(r),
            ),
    {
        let x = self.get_u64()?;
        Ok(PropertyValue::QWord(x))
    }

    /// Reads the value of a str property.
    pub fn get_property_value_str(&mut self) -> (r: Result<PropertyValue, GetError>)
        ensures
            reads(
                old(self)@,
                final(self)@,
                property_body_at(old(self)@.bytes, old(self)@.index, PropertyKind::Str),
                viewed(r),
            ),
    {
        let x = self.get_text()?;
        Ok(PropertyValue::Str(x))
    }

    /// Reads the value of a byte property.
    pub fn get_property_value_byte(&mut self) -> (r: Result<PropertyValue, GetError>)
        ensures
            reads(
                old(self)@,
                final(self)@,
                property_body_at(old(self)@.bytes, old(self)@.index, PropertyKind::Byte),
                viewed(r),
            ),
    {
        let key = self.get_text()?;
        if text_eq(key.value.as_str(), "OnlinePlatform_Steam\0") {
            Ok(PropertyValue::Byte { key, value: None })
        } else {
            let x = self.get_text()?;
            Ok(PropertyValue::Byte { key, value: Some(x) })
        }
    }

    /// Reads the value of an array property: a list of dictionaries.
    pub fn get_property_value_array(&mut self) -> (r: Result<PropertyValue, GetError>)
        ensures
            reads(
                old(self)@,
                final(self)@,
                property_body_at(old(self)@.bytes, old(self)@.index, PropertyKind::Array),
                viewed(r),
            ),
        decreases old(self)@.bytes.len() - old(self)@.index, 0nat,
    {
        let size = self.get_u32()?;
        let mut value: Vec<Dictionary<Property>> = Vec::new();
        let ghost bytes = self@.bytes;
        let ghost first = self@.index;
        let mut i: u32 = 0;
        proof {
            if let Ok((all, end)) = dictionaries_at(bytes, first, size as nat) {
                assert(Seq::<DictionaryView<PropertyView>>::empty() + all =~= all);
            }
            assert(dictionary_views(value@) =~= Seq::<DictionaryView<PropertyView>>::empty());
        }
        while i < size
            invariant
                i <= size,
                bytes == old(self)@.bytes,
                self@.bytes == bytes,
                old(self)@.index < first <= self@.index <= bytes.len(),
                u32_at(bytes, old(self)@.index) == Ok::<(u32, int), GetFault>((size, first)),
                value@.len() == i,
                dictionaries_at(bytes, first, size as nat) == then_items(
                    dictionary_views(value@),
                    dictionaries_at(bytes, self@.index, (size - i) as nat),
                ),
            decreases size - i,
        {
            let ghost done = dictionary_views(value@);
            let d = self.get_dictionary()?;
            value.push(d);
            i += 1;
            proof {
                assert(dictionary_views(value@) =~= done.push(dictionary_view(d)));
                lemma_then_items_push(
                    done,
                    dictionary_view(d),
                    dictionaries_at(bytes, self@.index, (size - i) as nat),
                );
            }
        }
        proof {
            assert(dictionary_views(value@) + Seq::<DictionaryView<PropertyView>>::empty()
                =~= dictionary_views(value@));
        }
        Ok(PropertyValue::Array(List { size, value }))
    }

    /// Reads a dictionary of properties.
    pub fn get_dictionary(&mut self) -> (r: Result<Dictionary<Property>, GetError>)
        ensures
            reads(
                old(self)@,
                final(self)@,
                dictionary_at(old(self)@.bytes, old(self)@.index),
                viewed(r),
            ),
        decreases old(self)@.bytes.len() - old(self)@.index, 0nat,
    {
        let mut value: Vec<(Text, Property)> = Vec::new();
        let ghost bytes = self@.bytes;
        let ghost start = self@.index;
        proof {
            if let Ok((all, end)) = dictionary_at(bytes, start) {
                assert(Seq::<(TextView, PropertyView)>::empty() + all.value =~= all.value);
            }
            assert(entry_views(value@) =~= Seq::<(TextView, PropertyView)>::empty());
        }
        loop
            invariant
                bytes == old(self)@.bytes,
                start == old(self)@.index,
                self@.bytes == bytes,
                start <= self@.index,
                dictionary_at(bytes, start) == after_entries(
                    entry_views(value@),
                    dictionary_at(bytes, self@.index),
                ),
            decreases bytes.len() - self@.index,
        {
            let ghost done = entry_views(value@);
            let ghost at = self@.index;
            let k = self.get_text()?;
            if text_eq(k.value.as_str(), "None\0") || text_eq(k.value.as_str(), "\0\0\0None\0") {
                proof {
                    assert(done + Seq::<(TextView, PropertyView)>::empty() =~= done);
                }
                return Ok(Dictionary { value, last: k });
            }
            let v = self.get_property()?;
            proof {
                lemma_after_entries_push(done, k@, v@, dictionary_at(bytes, self@.index));
            }
            value.push((k, v));
            proof {
                assert(entry_views(value@) =~= done.push((k@, v@)));
            }
        }
    }
}

/// Finds the kind of value that the label `label` announces.
pub fn get_property_kind(label: &str) -> (r: Option<PropertyKind>)
    ensures
        r == property_kind(label@),
{
    if text_eq(label, "ArrayProperty\0") {
        Some(PropertyKind::Array)
    } else if text_eq(label, "BoolProperty\0") {
        Some(PropertyKind::Bool)
    } else if text_eq(label, "ByteProperty\0") {
        Some(PropertyKind::Byte)
    } else if text_eq(label, "FloatProperty\0") {
        Some(PropertyKind::Float)
    } else if text_eq(label, "IntProperty\0") {
        Some(PropertyKind::Int)
    } else if text_eq(label, "NameProperty\0") {
        Some(PropertyKind::Name)
    } else if text_eq(label, "QWordProperty\0") {
        Some(PropertyKind::QWord)
    } else if text_eq(label, "StrProperty\0") {
        Some(PropertyKind::Str)
    } else {
        None
    }
}

/// The version of the format in which a replay was written.
#[derive(Debug, Clone, Copy, PartialEq, Eq)]
pub struct Version {
    pub major: u32,
    pub minor: u32,
    pub patch: Option<u32>,
}

/// Whether a replay of this major and minor version records a patch version.
pub open spec fn has_patch(major: u32, minor: u32) -> bool {
    major > 868 || (major == 868 && minor >= 18)
}

/// The version at offset `at`.
pub open spec fn version_at(bytes: Seq<u8>, at: int) -> Parsed<Version> {
    match u32_at(bytes, at) {
        Err(e) => Err(e),
        Ok((major, second)) => match u32_at(bytes, second) {
            Err(e) => Err(e),
            Ok((minor, third)) => match option_at::<u32>(bytes, third, has_patch(major, minor)) {
                Err(e) => Err(e),
                Ok((patch, end)) => Ok((Version { major, minor, patch }, end)),
            },
        },
    }
}

/// What stands first in a replay: its version, a label and the properties
/// of the match.
#[derive(Debug, PartialEq, Eq)]
pub struct Header {
    pub version: Version,
    pub label: Text,
    pub properties: Dictionary<Property>,
}

/// The mathematical content of a [`Header`].
pub struct HeaderView {
    pub version: Version,
    pub label: TextView,
    pub properties: DictionaryView<PropertyView>,
}

impl View for Header {
    type V = HeaderView;

    open spec fn view(&self) -> HeaderView {
        HeaderView { version: self.version, label: self.label@, properties: self.properties@ }
    }
}

/// The header at offset `at`.
pub open spec fn header_at(bytes: Seq<u8>, at: int) -> Parsed<HeaderView> {
    match version_at(bytes, at) {
        Err(e) => Err(e),
        Ok((version, second)) => match text_at(bytes, second) {
            Err(e) => Err(e),
            Ok((label, third)) => match dictionary_at(bytes, third) {
                Err(e) => Err(e),
                Ok((properties, end)) => Ok((HeaderView { version, label, properties }, end)),
            },
        },
    }
}

/// A frame from which playback can start. `time` holds the bit pattern of an
/// IEEE-754 single.
#[derive(Debug, Clone, Copy, PartialEq, Eq)]
pub struct Keyframe {
    pub time: u32,
    pub frame: u32,
    pub offset: u32,
}

impl View for Keyframe {
    type V = Keyframe;

    open spec fn view(&self) -> Keyframe {
        *self
    }
}

/// The keyframe at offset `at`.
pub open spec fn keyframe_at(bytes: Seq<u8>, at: int) -> Parsed<Keyframe> {
    match u32_at(bytes, at) {
        Err(e) => Err(e),
        Ok((time, second)) => match u32_at(bytes, second) {
            Err(e) => Err(e),
            Ok((frame, third)) => match u32_at(bytes, third) {
                Err(e) => Err(e),
                Ok((offset, end)) => Ok((Keyframe { time, frame, offset }, end)),
            },
        },
    }
}

/// A line of the match log.
#[derive(Debug, PartialEq, Eq)]
pub struct Message {
    pub frame: u32,
    pub label: Text,
    pub value: Text,
}

/// The mathematical content of a [`Message`].
pub struct MessageView {
    pub frame: u32,
    pub label: TextView,
    pub value: TextView,
}

impl View for Message {
    type V = MessageView;

    open spec fn view(&self) -> MessageView {
        MessageView { frame: self.frame, label: self.label@, value: self.value@ }
    }
}

/// The message at offset `at`.
pub open spec fn message_at(bytes: Seq<u8>, at: int) -> Parsed<MessageView> {
    match u32_at(bytes, at) {
        Err(e) => Err(e),
        Ok((frame, second)) => match text_at(bytes, second) {
            Err(e) => Err(e),
            Ok((label, third)) => match text_at(bytes, third) {
                Err(e) => Err(e),
                Ok((value, end)) => Ok((MessageView { frame, label, value }, end)),
            },
        },
    }
}

/// A highlight that was marked during the match.
#[derive(Debug, PartialEq, Eq)]
pub struct Mark {
    pub value: Text,
    pub frame: u32,
}

/// The mathematical content of a [`Mark`].
pub struct MarkView {
    pub value: TextView,
    pub frame: u32,
}

impl View for Mark {
    type V = MarkView;

    open spec fn view(&self) -> MarkView {
        MarkView { value: self.value@, frame: self.frame }
    }
}

/// The mark at offset `at`.
pub open spec fn mark_at(bytes: Seq<u8>, at: int) -> Parsed<MarkView> {
    match text_at(bytes, at) {
        Err(e) => Err(e),
        Ok((value, second)) => match u32_at(bytes, second) {
            Err(e) => Err(e),
            Ok((frame, end)) => Ok((MarkView { value, frame }, end)),
        },
    }
}

/// A replicable class by name, with the id under which objects refer to it.
#[derive(Debug, PartialEq, Eq)]
pub struct Class {
    pub name: Text,
    pub id: u32,
}

/// The mathematical content of a [`Class`].
pub struct ClassView {
    pub name: TextView,
    pub id: u32,
}

impl View for Class {
    type V = ClassView;

    open spec fn view(&self) -> ClassView {
        ClassView { name: self.name@, id: self.id }
    }
}

/// The class at offset `at`.
pub open spec fn class_at(bytes: Seq<u8>, at: int) -> Parsed<ClassView> {
    match text_at(bytes, at) {
        Err(e) => Err(e),
        Ok((name, second)) => match u32_at(bytes, second) {
            Err(e) => Err(e),
            Ok((id, end)) => Ok((ClassView { name, id }, end)),
        },
    }
}

/// One attribute of a class: `index` is the place of the attribute's name
/// in the object table, `id` is the stream id under which its updates are
/// sent.
#[derive(Debug, Clone, Copy, PartialEq, Eq)]
pub struct Object {
    pub index: u32,
    pub id: u32,
}

impl View for Object {
    type V = Object;

    open spec fn view(&self) -> Object {
        *self
    }
}

/// The object at offset `at`.
pub open spec fn object_at(bytes: Seq<u8>, at: int) -> Parsed<Object> {
    match u32_at(bytes, at) {
        Err(e) => Err(e),
        Ok((index, second)) => match u32_at(bytes, second) {
            Err(e) => Err(e),
            Ok((id, end)) => Ok((Object { index, id }, end)),
        },
    }
}

/// The attributes that a class adds to those of its parent: `class` is the
/// id of the class, `index` the place of the class in the hierarchy and
/// `parent` the place of its parent.
#[derive(Debug, PartialEq, Eq)]
pub struct Cache {
    pub class: u32,
    pub parent: u32,
    pub index: u32,
    pub objects: List<Object>,
}

/// The mathematical content of a [`Cache`].
pub struct CacheView {
    pub class: u32,
    pub parent: u32,
    pub index: u32,
    pub objects: ListView<Object>,
}

impl View for Cache {
    type V = CacheView;

    open spec fn view(&self) -> CacheView {
        CacheView {
            class: self.class,
            parent: self.parent,
            index: self.index,
            objects: self.objects@,
        }
    }
}

/// The cache at offset `at`.
pub open spec fn cache_at(bytes: Seq<u8>, at: int) -> Parsed<CacheView> {
    match u32_at(bytes, at) {
        Err(e) => Err(e),
        Ok((class, second)) => match u32_at(bytes, second) {
            Err(e) => Err(e),
            Ok((parent, third)) => match u32_at(bytes, third) {
                Err(e) => Err(e),
                Ok((index, fourth)) => match list_at::<Object>(bytes, fourth) {
                    Err(e) => Err(e),
                    Ok((objects, end)) => Ok((CacheView { class, parent, index, objects }, end)),
                },
            },
        },
    }
}

impl Get {
    /// Reads a version.
    pub fn get_version(&mut self) -> (r: Result<Version, GetError>)
        ensures
            reads(
                old(self)@,
                final(self)@,
                version_at(old(self)@.bytes, old(self)@.index),
                crate::get::plain(r),
            ),
    {
        let major = self.get_u32()?;
        let minor = self.get_u32()?;
        let patch = self.get_option::<u32>(major > 868 || (major == 868 && minor >= 18))?;
        Ok(Version { major, minor, patch })
    }

    /// Reads a header.
    pub fn get_header(&mut self) -> (r: Result<Header, GetError>)
        ensures
            reads(
                old(self)@,
                final(self)@,
                header_at(old(self)@.bytes, old(self)@.index),
                viewed(r),
            ),
    {
        let version = self.get_version()?;
        let label = self.get_text()?;
        let properties = self.get_dictionary()?;
        Ok(Header { version, label, properties })
    }

    /// Reads a keyframe.
    pub fn get_keyframe(&mut self) -> (r: Result<Keyframe, GetError>)
        ensures
            reads(
                old(self)@,
                final(self)@,
                keyframe_at(old(self)@.bytes, old(self)@.index),
                viewed(r),
            ),
    {
        let time = self.get_u32()?;
        let frame = self.get_u32()?;
        let offset = self.get_u32()?;
        Ok(Keyframe { time, frame, offset })
    }

    /// Reads a message.
    pub fn get_message(&mut self) -> (r: Result<Message, GetError>)
        ensures
            reads(
                old(self)@,
                final(self)@,
                message_at(old(self)@.bytes, old(self)@.index),
                viewed(r),
            ),
    {
        let frame = self.get_u32()?;
        let label = self.get_text()?;
        let value = self.get_text()?;
        Ok(Message { frame, label, value })
    }

    /// Reads a mark.
    pub fn get_mark(&mut self) -> (r: Result<Mark, GetError>)
        ensures
            reads(old(self)@, final(self)@, mark_at(old(self)@.bytes, old(self)@.index), viewed(r)),
    {
        let value = self.get_text()?;
        let frame = self.get_u32()?;
        Ok(Mark { value, frame })
    }

    /// Reads a class.
    pub fn get_class(&mut self) -> (r: Result<Class, GetError>)
        ensures
            reads(
                old(self)@,
                final(self)@,
                class_at(old(self)@.bytes, old(self)@.index),
                viewed(r),
            ),
    {
        let name = self.get_text()?;
        let id = self.get_u32()?;
        Ok(Class { name, id })
    }

    /// Reads an object.
    pub fn get_object(&mut self) -> (r: Result<Object, GetError>)
        ensures
            reads(
                old(self)@,
                final(self)@,
                object_at(old(self)@.bytes, old(self)@.index),
                viewed(r),
            ),
    {
        let index = self.get_u32()?;
        let id = self.get_u32()?;
        Ok(Object { index, id })
    }

    /// Reads a cache.
    pub fn get_cache(&mut self) -> (r: Result<Cache, GetError>)
        ensures
            reads(
                old(self)@,
                final(self)@,
                cache_at(old(self)@.bytes, old(self)@.index),
                viewed(r),
            ),
    {
        let class = self.get_u32()?;
        let parent = self.get_u32()?;
        let index = self.get_u32()?;
        let objects = self.get_list::<Object>()?;
        Ok(Cache { class, parent, index, objects })
    }
}

impl Decode for Keyframe {
    open spec fn parse_at(bytes: Seq<u8>, at: int) -> Parsed<Keyframe> {
        keyframe_at(bytes, at)
    }

    fn get(get: &mut Get) -> (r: Result<Self, GetError>) {
        get.get_keyframe()
    }
}

impl Decode for Message {
    open spec fn parse_at(bytes: Seq<u8>, at: int) -> Parsed<MessageView> {
        message_at(bytes, at)
    }

    fn get(get: &mut Get) -> (r: Result<Self, GetError>) {
        get.get_message()
    }
}

impl Decode for Mark {
    open spec fn parse_at(bytes: Seq<u8>, at: int) -> Parsed<MarkView> {
        mark_at(bytes, at)
    }

    fn get(get: &mut Get) -> (r: Result<Self, GetError>) {
        get.get_mark()
    }
}

impl Decode for Class {
    open spec fn parse_at(bytes: Seq<u8>, at: int) -> Parsed<ClassView> {
        class_at(bytes, at)
    }

    fn get(get: &mut Get) -> (r: Result<Self, GetError>) {
        get.get_class()
    }
}

impl Decode for Object {
    open spec fn parse_at(bytes: Seq<u8>, at: int) -> Parsed<Object> {
        object_at(bytes, at)
    }

    fn get(get: &mut Get) -> (r: Result<Self, GetError>) {
        get.get_object()
    }
}

impl Decode for Cache {
    open spec fn parse_at(bytes: Seq<u8>, at: int) -> Parsed<CacheView> {
        cache_at(bytes, at)
    }

    fn get(get: &mut Get) -> (r: Result<Self, GetError>) {
        get.get_cache()
    }
}

/// A text has as many code units as its size field says: characters for a
/// Windows-1252 text, whose size is not negative, and UTF-16 units for a
/// UTF-16 text, whose size is the negated count.
pub proof fn lemma_text_at_length(bytes: Seq<u8>, at: int)
    ensures
        text_at(bytes, at) matches Ok((text, end)) ==> if text.size < 0 {
            utf_16_encode(text.value).len() == -text.size
        } else {
            text.value.len() == text.size
        },
{
    if let Ok((text, end)) = text_at(bytes, at) {
        let size = i32_at(bytes, at)->Ok_0.0;
        let body = i32_at(bytes, at)->Ok_0.1;
        let raw = vec_at(bytes, body, text_len(size))->Ok_0.0;
        if size < 0 {
            lemma_utf_16_encode_decode(utf_16_units(raw));
        }
    }
}

/// A text ends at least four bytes behind its start, inside the bytes.
pub proof fn lemma_text_at_advances(bytes: Seq<u8>, at: int)
    ensures
        text_at(bytes, at) matches Ok((text, end)) ==> 0 <= at && at + 4 <= end <= bytes.len(),
{
}

/// A property and a dictionary each end behind their start, inside the
/// bytes: the tests in [`dictionary_at`] and [`dictionaries_at`] never fail.
pub proof fn lemma_property_at_advances(bytes: Seq<u8>, at: int)
    ensures
        property_at(bytes, at) matches Ok((property, end)) ==> at < end <= bytes.len(),
        dictionary_at(bytes, at) matches Ok((dictionary, end)) ==> at < end <= bytes.len(),
    decreases bytes.len() - at, 0nat,
{
    lemma_text_at_advances(bytes, at);
    if let Ok((label, sized)) = text_at(bytes, at) {
        if let Ok((size, body)) = u64_at(bytes, sized) {
            if let Some(kind) = property_kind(label.value) {
                lemma_property_body_at_advances(bytes, body, kind);
            }
        }
        if !is_terminator(label.value) {
            if let Ok((value, next)) = property_at(bytes, sized) {
                lemma_property_at_advances(bytes, sized);
                if advances(bytes, sized, next) {
                    lemma_property_at_advances(bytes, next);
                }
            }
        }
    }
}

/// The value of a property ends at or behind its start, inside the bytes.
pub proof fn lemma_property_body_at_advances(bytes: Seq<u8>, at: int, kind: PropertyKind)
    ensures
        property_body_at(bytes, at, kind) matches Ok((value, end)) ==> at <= end <= bytes.len(),
    decreases bytes.len() - at, 0nat,
{
    match kind {
        PropertyKind::Array => {
            if let Ok((size, first)) = u32_at(bytes, at) {
                lemma_dictionaries_at_advances(bytes, first, size as nat);
            }
        },
        PropertyKind::Byte => {
            lemma_text_at_advances(bytes, at);
            if let Ok((key, next)) = text_at(bytes, at) {
                lemma_text_at_advances(bytes, next);
            }
        },
        PropertyKind::Name | PropertyKind::Str => {
            lemma_text_at_advances(bytes, at);
        },
        _ => {},
    }
}

/// A row of dictionaries that starts inside the bytes ends at or behind its
/// start, inside the bytes.
pub proof fn lemma_dictionaries_at_advances(bytes: Seq<u8>, at: int, n: nat)
    requires
        at <= bytes.len(),
    ensures
        dictionaries_at(bytes, at, n) matches Ok((items, end)) ==> at <= end <= bytes.len(),
    decreases bytes.len() - at, n + 1,
{
    if n > 0 {
        if let Ok((first, next)) = dictionary_at(bytes, at) {
            lemma_property_at_advances(bytes, at);
            lemma_dictionaries_at_advances(bytes, next, (n - 1) as nat);
        }
    }
}

} // verus!
