//! Comparing logical values by what they stand for.

use crate::value::{lemma_view_all, view_all, Value};
use vstd::prelude::*;

verus! {

/// Whether two runs of values stand for the same values, one for one.
#[verifier::loop_isolation(false)]
fn same_all(a: &Vec<Value>, b: &Vec<Value>) -> (eq: bool)
    ensures
        eq == (view_all(a@) == view_all(b@)),
    decreases a, 1nat,
{
    proof {
        lemma_view_all(a@);
        lemma_view_all(b@);
    }
    if a.len() != b.len() {
        return false;
    }
    let mut i: usize = 0;
    while i < a.len()
        invariant
            i <= a@.len() == b@.len(),
            forall|k: int| 0 <= k < i ==> a@[k]@ == b@[k]@,
        decreases a@.len() - i,
    {
        proof {
            assert(decreases_to!(*a => a[i as int]));
        }
        if !a[i].same(&b[i]) {
            assert(view_all(a@)[i as int] != view_all(b@)[i as int]);
            return false;
        }
        i = i + 1;
    }
    assert(view_all(a@) =~= view_all(b@));
    true
}

impl Value {
    /// Whether `self` and `other` stand for the same value.
    pub fn same(&self, other: &Value) -> (eq: bool)
        ensures
            eq == (self@ == other@),
        decreases self, 2nat,
    {
        match (self, other) {
            (Value::Bool(a), Value::Bool(b)) => *a == *b,
            (Value::U8(a), Value::U8(b)) => *a == *b,
            (Value::U16(a), Value::U16(b)) => *a == *b,
            (Value::U32(a), Value::U32(b)) => *a == *b,
            (Value::U64(a), Value::U64(b)) => *a == *b,
            (Value::S8(a), Value::S8(b)) => *a == *b,
            (Value::S16(a), Value::S16(b)) => *a == *b,
            (Value::S32(a), Value::S32(b)) => *a == *b,
            (Value::S64(a), Value::S64(b)) => *a == *b,
            (Value::F32(a), Value::F32(b)) => *a == *b,
            (Value::F64(a), Value::F64(b)) => *a == *b,
            (Value::Char(a), Value::Char(b)) => *a == *b,
            (Value::Str(a), Value::Str(b)) => *a == *b,
            (Value::List(a), Value::List(b)) => same_all(a, b),
            (Value::Record(a), Value::Record(b)) => same_all(a, b),
            (Value::Variant(c, p), Value::Variant(d, q)) => {
                if *c != *d {
                    return false;
                }
                match (p, q) {
                    (None, None) => true,
                    (Some(x), Some(y)) => (**x).same(&**y),
                    _ => false,
                }
            },
            (Value::Flags(a), Value::Flags(b)) => *a == *b,
            (Value::Handle(a), Value::Handle(b)) => *a == *b,
            _ => false,
        }
    }
}

} // verus!
