//! Builders for the types and values that are written as variants and
//! records: options, results, enumerations and tuples.

use crate::types::{Case, Field, Ty};
use crate::value::{lemma_view_parts, Val, Value};
use vstd::prelude::*;

verus! {

impl Ty {
    /// `option<inner>`: case 0 is the absent value, case 1 carries `inner`.
    pub fn option(inner: Ty) -> (ty: Ty)
        ensures
            ty is Variant,
            ty->Variant_0@.len() == 2,
            ty->Variant_0@[0].payload is None,
            ty->Variant_0@[1].payload == Some(inner),
    {
        let mut cases: Vec<Case> = Vec::new();
        cases.push(Case { name: "none".to_owned(), payload: None });
        cases.push(Case { name: "some".to_owned(), payload: Some(inner) });
        Ty::Variant(cases)
    }

    /// `result<ok, err>`: case 0 is success, case 1 is failure; either may
    /// carry nothing.
    pub fn result(ok: Option<Ty>, err: Option<Ty>) -> (ty: Ty)
        ensures
            ty is Variant,
            ty->Variant_0@.len() == 2,
            ty->Variant_0@[0].payload == ok,
            ty->Variant_0@[1].payload == err,
    {
        let mut cases: Vec<Case> = Vec::new();
        cases.push(Case { name: "ok".to_owned(), payload: ok });
        cases.push(Case { name: "err".to_owned(), payload: err });
        Ty::Variant(cases)
    }

    /// An enumeration: one case without payload for each name.
    pub fn enumeration(names: Vec<String>) -> (ty: Ty)
        ensures
            ty is Variant,
            ty->Variant_0@.len() == names@.len(),
            forall|i: int|
                0 <= i < names@.len() ==> (#[trigger] ty->Variant_0@[i]).payload is None
                    && ty->Variant_0@[i].name@ == names@[i]@,
    {
        let mut cases: Vec<Case> = Vec::new();
        let mut i: usize = 0;
        while i < names.len()
            invariant
                i <= names@.len(),
                cases@.len() == i,
                forall|k: int|
                    0 <= k < i ==> (#[trigger] cases@[k]).payload is None && cases@[k].name@
                        == names@[k]@,
            decreases names@.len() - i,
        {
            cases.push(Case { name: names[i].clone(), payload: None });
            i = i + 1;
        }
        Ty::Variant(cases)
    }

    /// A tuple: a record whose fields have no names.
    pub fn tuple(mut members: Vec<Ty>) -> (ty: Ty)
        ensures
            ty is Record,
            ty->Record_0@.len() == members@.len(),
            forall|i: int| 0 <= i < members@.len() ==> (#[trigger] ty->Record_0@[i]).ty == members@[i],
    {
        let ghost all = members@;
        let mut fields: Vec<Field> = Vec::new();
        while members.len() > 0
            invariant
                members@.len() + fields@.len() == all.len(),
                members@ == all.take(members@.len() as int),
                forall|k: int|
                    0 <= k < fields@.len() ==> (#[trigger] fields@[k]).ty == all[members@.len() + k],
            decreases members@.len(),
        {
            let member = members.pop().unwrap();
            fields.insert(0, Field { name: String::new(), ty: member });
        }
        Ty::Record(fields)
    }
}

impl Value {
    /// The absent value of an option.
    pub fn none() -> (v: Value)
        ensures
            v@ == Val::Variant(0, None),
    {
        let v = Value::Variant(0, None);
        proof {
            lemma_view_parts(v);
        }
        v
    }

    /// The present value of an option.
    pub fn some(inner: Value) -> (v: Value)
        ensures
            v@ == Val::Variant(1, Some(Box::new(inner@))),
    {
        Value::Variant(1, Some(Box::new(inner)))
    }

    /// The success of a result, with or without a payload.
    pub fn ok(inner: Option<Value>) -> (v: Value)
        ensures
            v@ == Val::Variant(
                0,
                match inner {
                    Some(x) => Some(Box::new(x@)),
                    None => None,
                },
            ),
    {
        match inner {
            Some(x) => Value::Variant(0, Some(Box::new(x))),
            None => Value::Variant(0, None),
        }
    }

    /// The failure of a result, with or without a payload.
    pub fn err(inner: Option<Value>) -> (v: Value)
        ensures
            v@ == Val::Variant(
                1,
                match inner {
                    Some(x) => Some(Box::new(x@)),
                    None => None,
                },
            ),
    {
        match inner {
            Some(x) => Value::Variant(1, Some(Box::new(x))),
            None => Value::Variant(1, None),
        }
    }
}

} // verus!
