//! One crossing of the boundary: a value is lowered on one side and lifted
//! on the other.

use crate::abi::laws::{law_lift_of_lowered, lemma_lower_facts};
use crate::abi::lift::lift;
use crate::abi::lower::lower;
use crate::abi::memory::Memory;
use crate::abi::model::{lower_spec, scalar_bits, ty_wf, LowerError, Types};
use crate::schema::Schema;
use crate::types::Ty;
use crate::value::{Val, Value};
use vstd::pervasive::unreached;
use vstd::prelude::*;

verus! {

/// Carries `value` across the boundary as a `ty`: lowers it into `mem` and
/// lifts it again from there. What arrives is the value that was sent; the
/// crossing fails only where lowering does, and then leaves `mem` as it was.
pub fn cross(schema: &Schema, ty: &Ty, value: &Value, mem: &mut Memory) -> (res: Result<
    Value,
    LowerError,
>)
    requires
        schema.wf(),
        ty_wf(schema@, schema@.top(), *ty),
        old(mem).wf(),
    ensures
        final(mem).wf(),
        final(mem).capacity() == old(mem).capacity(),
        match lower_spec(
            schema@,
            schema@.top(),
            *ty,
            value@,
            old(mem)@,
            old(mem).capacity(),
        ) {
            Ok(low) => res is Ok && res->Ok_0@ == value@ && final(mem)@ == low.mem,
            Err(e) => res == Err::<Value, LowerError>(e) && final(mem)@ == old(mem)@,
        },
{
    let ghost before = mem@;
    let ghost cap = mem.capacity();
    proof {
        mem.lemma_bounds();
        schema.lemma_wf();
    }
    match lower(schema, ty, value, mem) {
        Err(e) => Err(e),
        Ok(flat) => {
            proof {
                law_lift_of_lowered(schema@, *ty, value@, before, cap);
                lemma_lower_facts(schema@, schema@.top(), *ty, value@, before, cap);
                assert(flat@.subrange(0, flat@.len() as int) =~= flat@);
            }
            match lift(schema, ty, flat.as_slice(), mem) {
                Ok(arrived) => Ok(arrived),
                Err(_) => unreached(),
            }
        },
    }
}

/// A value of a fixed-width leaf type always lowers, and needs no memory.
pub proof fn lemma_scalar_lowers(t: Types, r: nat, ty: Ty, v: Val, mem: Seq<u8>, cap: nat)
    requires
        scalar_bits(ty, v) is Some,
    ensures
        lower_spec(t, r, ty, v, mem, cap) is Ok,
        lower_spec(t, r, ty, v, mem, cap)->Ok_0.mem == mem,
{
}

/// A case without payload of a variant always lowers, and needs no memory.
pub proof fn lemma_plain_case_lowers(t: Types, r: nat, ty: Ty, case: u32, mem: Seq<u8>, cap: nat)
    requires
        ty is Variant,
        case < ty->Variant_0@.len(),
        ty->Variant_0@[case as int].payload is None,
    ensures
        lower_spec(t, r, ty, Val::Variant(case, None), mem, cap) is Ok,
        lower_spec(t, r, ty, Val::Variant(case, None), mem, cap)->Ok_0.mem == mem,
{
}

} // verus!
