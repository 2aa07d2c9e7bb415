//! Logical values: what business logic on either side of the boundary sees.

use vstd::prelude::*;

verus! {

/// A logical value of some interface type.
#[derive(Debug)]
pub enum Value {
    Bool(bool),
    U8(u8),
    U16(u16),
    U32(u32),
    U64(u64),
    S8(i8),
    S16(i16),
    S32(i32),
    S64(i64),
    /// The bit pattern of a 32-bit float.
    F32(u32),
    /// The bit pattern of a 64-bit float.
    F64(u64),
    Char(char),
    Str(String),
    List(Vec<Value>),
    Record(Vec<Value>),
    /// The index of the case, and its payload if the case carries one.
    Variant(u32, Option<Box<Value>>),
    Flags(u64),
    Handle(u32),
}

/// The mathematical value that a `Value` stands for.
pub ghost enum Val {
    Bool(bool),
    U8(u8),
    U16(u16),
    U32(u32),
    U64(u64),
    S8(i8),
    S16(i16),
    S32(i32),
    S64(i64),
    F32(u32),
    F64(u64),
    Char(char),
    Str(Seq<char>),
    List(Seq<Val>),
    Record(Seq<Val>),
    Variant(u32, Option<Box<Val>>),
    Flags(u64),
    Handle(u32),
}

/// The mathematical values of a run of `Value`s.
pub open spec fn view_all(items: Seq<Value>) -> Seq<Val>
    decreases items, 1nat,
{
    Seq::new(
        items.len(),
        |i: int|
            if 0 <= i < items.len() {
                val_of(items[i])
            } else {
                Val::Bool(false)
            },
    )
}

/// The mathematical value of one `Value`.
pub open spec fn val_of(value: Value) -> Val
    decreases value, 0nat,
{
    match value {
        Value::Bool(b) => Val::Bool(b),
        Value::U8(x) => Val::U8(x),
        Value::U16(x) => Val::U16(x),
        Value::U32(x) => Val::U32(x),
        Value::U64(x) => Val::U64(x),
        Value::S8(x) => Val::S8(x),
        Value::S16(x) => Val::S16(x),
        Value::S32(x) => Val::S32(x),
        Value::S64(x) => Val::S64(x),
        Value::F32(x) => Val::F32(x),
        Value::F64(x) => Val::F64(x),
        Value::Char(c) => Val::Char(c),
        Value::Str(s) => Val::Str(s@),
        Value::List(items) => Val::List(view_all(items@)),
        Value::Record(fields) => Val::Record(view_all(fields@)),
        Value::Variant(case, payload) => Val::Variant(
            case,
            match payload {
                None => None,
                Some(inner) => Some(Box::new(val_of(*inner))),
            },
        ),
        Value::Flags(bits) => Val::Flags(bits),
        Value::Handle(h) => Val::Handle(h),
    }
}

/// The values of a run are the values of its members, one for one.
pub proof fn lemma_view_all(items: Seq<Value>)
    ensures
        view_all(items).len() == items.len(),
        forall|k: int| 0 <= k < items.len() ==> #[trigger] view_all(items)[k] == val_of(items[k]),
{
}

/// What a list, a record and a variant stand for, in terms of their parts.
pub proof fn lemma_view_parts(value: Value)
    ensures
        value matches Value::List(items) ==> val_of(value) == Val::List(view_all(items@)),
        value matches Value::Record(fields) ==> val_of(value) == Val::Record(view_all(fields@)),
        value matches Value::Variant(case, None) ==> val_of(value) == Val::Variant(case, None),
        value matches Value::Str(s) ==> val_of(value) == Val::Str(s@),
        !(value is Str) ==> !(val_of(value) is Str),
        !(value is List) ==> !(val_of(value) is List),
        !(value is Record) ==> !(val_of(value) is Record),
        !(value is Variant) ==> !(val_of(value) is Variant),
        !(value is U64) ==> !(val_of(value) is U64),
        !(value is U32) ==> !(val_of(value) is U32),
        value matches Value::U64(x) ==> val_of(value) == Val::U64(x),
        value matches Value::U32(x) ==> val_of(value) == Val::U32(x),
        value matches Value::Variant(case, Some(inner)) ==> val_of(value)->Variant_1 is Some,
{
}

impl View for Value {
    type V = Val;

    open spec fn view(&self) -> Val {
        val_of(*self)
    }
}

} // verus!
