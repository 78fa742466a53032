//! Values of a reading, raw or normalised.

use vstd::prelude::*;

verus! {

/// A calendar timestamp as the device reports it. A time field that the
/// device leaves unspecified is `None`.
#[derive(Clone, Copy, Debug, PartialEq, Eq, Structural)]
pub struct Timestamp {
    pub year: u16,
    pub month: u8,
    pub day: u8,
    pub weekday: u8,
    pub hour: Option<u8>,
    pub minute: Option<u8>,
    pub second: Option<u8>,
    pub hundredth: Option<u8>,
    pub offset_minutes: Option<i16>,
    pub clock_status: Option<u8>,
}

/// One value of a reading.
#[derive(Debug, PartialEq, Eq)]
pub enum Value {
    Null,
    Bytes(Vec<u8>),
    Text(String),
    Signed(i64),
    Unsigned(u64),
    /// A binary floating-point number, held as the bit pattern of its
    /// double-precision form.
    Real(u64),
    Timestamp(Timestamp),
    /// A structure: values in a row, each of any shape.
    List(Vec<Value>),
}

/// The mathematical content of a `Value`.
pub enum ValueView {
    Null,
    Bytes(Seq<u8>),
    Text(Seq<char>),
    Signed(int),
    Unsigned(nat),
    Real(u64),
    Timestamp(Timestamp),
    List(Seq<ValueView>),
}

/// The shape of a value, fixed for a property when it is defined.
#[derive(Clone, Copy, Debug, PartialEq, Eq, Structural)]
pub enum ValueKind {
    Null,
    Bytes,
    Text,
    Number,
    Timestamp,
    List,
}

pub open spec fn kind_of(v: ValueView) -> ValueKind {
    match v {
        ValueView::Null => ValueKind::Null,
        ValueView::Bytes(_) => ValueKind::Bytes,
        ValueView::Text(_) => ValueKind::Text,
        ValueView::Signed(_) => ValueKind::Number,
        ValueView::Unsigned(_) => ValueKind::Number,
        ValueView::Real(_) => ValueKind::Number,
        ValueView::Timestamp(_) => ValueKind::Timestamp,
        ValueView::List(_) => ValueKind::List,
    }
}

/// The content of a value; that of a structure holds the contents of its
/// items, in their order.
pub open spec fn value_view(v: Value) -> ValueView
    decreases v,
{
    match v {
        Value::Null => ValueView::Null,
        Value::Bytes(b) => ValueView::Bytes(b@),
        Value::Text(s) => ValueView::Text(s@),
        Value::Signed(n) => ValueView::Signed(n as int),
        Value::Unsigned(n) => ValueView::Unsigned(n as nat),
        Value::Real(bits) => ValueView::Real(bits),
        Value::Timestamp(t) => ValueView::Timestamp(t),
        Value::List(items) => ValueView::List(
            Seq::new(
                items@.len(),
                |i: int|
                    if 0 <= i < items@.len() {
                        value_view(items@[i])
                    } else {
                        ValueView::Null
                    },
            ),
        ),
    }
}

impl View for Value {
    type V = ValueView;

    open spec fn view(&self) -> ValueView {
        value_view(*self)
    }
}

impl Clone for Value {
    fn clone(&self) -> (r: Value)
        ensures
            r@ == self@,
    {
        self.copy()
    }
}

/// A copy of a byte vector.
pub fn copy_bytes(bytes: &Vec<u8>) -> (r: Vec<u8>)
    ensures
        r@ == bytes@,
{
    let mut r: Vec<u8> = Vec::new();
    let mut i: usize = 0;
    while i < bytes.len()
        invariant
            i <= bytes.len(),
            r@ == bytes@.subrange(0, i as int),
        decreases bytes.len() - i,
    {
        r.push(bytes[i]);
        i = i + 1;
        assert(r@ =~= bytes@.subrange(0, i as int));
    }
    assert(r@ =~= bytes@);
    r
}

/// Copies of the values of a row, in their order.
pub fn copy_values(items: &Vec<Value>) -> (out: Vec<Value>)
    ensures
        out@.len() == items@.len(),
        forall|j: int| 0 <= j < items@.len() ==> out@[j]@ == items@[j]@,
    decreases items, 0nat,
{
    let mut out: Vec<Value> = Vec::new();
    let mut i: usize = 0;
    while i < items.len()
        invariant
            i <= items.len(),
            out@.len() == i,
            forall|j: int| 0 <= j < i ==> out@[j]@ == items@[j]@,
        decreases items.len() - i,
    {
        assert(decreases_to!(*items => items[i as int]));
        out.push(items[i].copy());
        i = i + 1;
    }
    out
}

impl Value {
    /// A second value with the same content.
    pub fn copy(&self) -> (r: Value)
        ensures
            r@ == self@,
        decreases self, 1nat,
    {
        match self {
            Value::Null => Value::Null,
            Value::Bytes(b) => Value::Bytes(copy_bytes(b)),
            Value::Text(s) => Value::Text(s.clone()),
            Value::Signed(n) => Value::Signed(*n),
            Value::Unsigned(n) => Value::Unsigned(*n),
            Value::Real(bits) => Value::Real(*bits),
            Value::Timestamp(t) => Value::Timestamp(*t),
            Value::List(items) => {
                let r = Value::List(copy_values(items));
                assert(r@->List_0 =~= self@->List_0);
                r
            },
        }
    }

    pub fn kind(&self) -> (k: ValueKind)
        ensures
            k == kind_of(self@),
    {
        match self {
            Value::Null => ValueKind::Null,
            Value::Bytes(_) => ValueKind::Bytes,
            Value::Text(_) => ValueKind::Text,
            Value::Signed(_) => ValueKind::Number,
            Value::Unsigned(_) => ValueKind::Number,
            Value::Real(_) => ValueKind::Number,
            Value::Timestamp(_) => ValueKind::Timestamp,
            Value::List(_) => ValueKind::List,
        }
    }
}

} // verus!
