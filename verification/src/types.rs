//! The types an interface is written in, and where their values lie in the
//! flat encoding: size, alignment, field offsets.

use vstd::prelude::*;

verus! {

/// A type of the interface language.
///
/// Tuples are records, and options, results and enumerations are variants:
/// their builders make them, and the flat encoding treats them alike.
#[derive(Debug)]
pub enum Ty {
    Bool,
    U8,
    U16,
    U32,
    U64,
    S8,
    S16,
    S32,
    S64,
    /// A 32-bit float, carried as its bit pattern.
    F32,
    /// A 64-bit float, carried as its bit pattern.
    F64,
    Char,
    Str,
    List(Box<Ty>),
    Record(Vec<Field>),
    Variant(Vec<Case>),
    /// A bit set with this many named bits, at most `MAX_FLAGS`.
    Flags(u32),
    /// A handle to a resource of the given type tag.
    Handle(u32, Passing),
    /// The named type at this position of the schema's definitions.
    Ref(usize),
}

/// How a handle parameter crosses the boundary.
#[derive(Clone, Copy, Debug, PartialEq, Eq, Structural)]
pub enum Passing {
    /// The callee may use the resource until the call returns.
    Borrowed,
    /// The resource leaves the caller's table when the argument is lowered.
    Owning,
}

/// A named field of a record.
#[derive(Debug)]
pub struct Field {
    pub name: String,
    pub ty: Ty,
}

/// A named case of a variant, with or without a payload.
#[derive(Debug)]
pub struct Case {
    pub name: String,
    pub payload: Option<Ty>,
}

/// Size and alignment of a type's flat encoding, in bytes.
#[derive(Clone, Copy, Debug, PartialEq, Eq, Structural)]
pub struct Layout {
    pub size: u32,
    pub align: u32,
}

/// The most bits a flags type can name.
pub const MAX_FLAGS: u32 = 64;

/// Size and alignment as mathematical numbers.
pub struct SpecLayout {
    pub size: nat,
    pub align: nat,
}

/// One of the four alignments in use.
pub open spec fn is_align(a: nat) -> bool {
    a == 1 || a == 2 || a == 4 || a == 8
}

/// The least multiple of `a` that is not below `x`, for the alignments in use.
pub open spec fn align_up(x: nat, a: nat) -> nat {
    if a == 2 {
        ((x + 1) / 2 * 2) as nat
    } else if a == 4 {
        ((x + 3) / 4 * 4) as nat
    } else if a == 8 {
        ((x + 7) / 8 * 8) as nat
    } else {
        x
    }
}

/// The least multiple of `align` that is not below `x`.
pub fn round_up(x: u64, align: u32) -> (y: u64)
    requires
        x <= u64::MAX - 8,
    ensures
        y == align_up(x as nat, align as nat),
        x <= y < x + 8,
{
    if align == 2 {
        (x + 1) / 2 * 2
    } else if align == 4 {
        (x + 3) / 4 * 4
    } else if align == 8 {
        (x + 7) / 8 * 8
    } else {
        x
    }
}

/// The larger of two numbers.
pub open spec fn max_nat(a: nat, b: nat) -> nat {
    if a >= b {
        a
    } else {
        b
    }
}

/// Bytes of the smallest unsigned discriminant that tells `n` cases apart.
pub open spec fn disc_width(n: nat) -> nat {
    if n <= 0x100 {
        1
    } else if n <= 0x1_0000 {
        2
    } else {
        4
    }
}

/// Bytes of a bit set of `n` bits.
pub open spec fn flags_width(n: nat) -> nat {
    if n <= 8 {
        1
    } else if n <= 16 {
        2
    } else if n <= 32 {
        4
    } else {
        8
    }
}

/// Layout of a type, given the layouts of the schema's named types.
pub open spec fn layout_of(named: Seq<Layout>, ty: Ty) -> SpecLayout
    decreases ty, 0nat,
{
    match ty {
        Ty::Bool | Ty::U8 | Ty::S8 => SpecLayout { size: 1, align: 1 },
        Ty::U16 | Ty::S16 => SpecLayout { size: 2, align: 2 },
        Ty::U32 | Ty::S32 | Ty::F32 | Ty::Char => SpecLayout { size: 4, align: 4 },
        Ty::U64 | Ty::S64 | Ty::F64 => SpecLayout { size: 8, align: 8 },
        Ty::Str | Ty::List(_) => SpecLayout { size: 8, align: 4 },
        Ty::Handle(_, _) => SpecLayout { size: 4, align: 4 },
        Ty::Flags(n) => SpecLayout {
            size: flags_width(n as nat),
            align: if n <= 32 {
                flags_width(n as nat)
            } else {
                4
            },
        },
        Ty::Record(fields) => {
            let placed = fields_layout(named, fields@, fields@.len());
            SpecLayout { size: align_up(placed.size, placed.align), align: placed.align }
        },
        Ty::Variant(cases) => {
            let widest = cases_layout(named, cases@, cases@.len());
            let disc = disc_width(cases@.len());
            let align = max_nat(disc, widest.align);
            SpecLayout {
                size: align_up(align_up(disc, widest.align) + widest.size, align),
                align,
            }
        },
        Ty::Ref(j) => if j < named.len() {
            SpecLayout { size: named[j as int].size as nat, align: named[j as int].align as nat }
        } else {
            SpecLayout { size: 0, align: 1 }
        },
    }
}

/// Where the first `n` fields of a record end, and the largest alignment
/// among them: each field starts at the next multiple of its own alignment.
pub open spec fn fields_layout(named: Seq<Layout>, fields: Seq<Field>, n: nat) -> SpecLayout
    decreases fields, n,
{
    if n == 0 || n > fields.len() {
        SpecLayout { size: 0, align: 1 }
    } else {
        let before = fields_layout(named, fields, (n - 1) as nat);
        let own = layout_of(named, fields[n - 1].ty);
        SpecLayout {
            size: align_up(before.size, own.align) + own.size,
            align: max_nat(before.align, own.align),
        }
    }
}

/// The largest payload size and the largest payload alignment among the first
/// `n` cases of a variant.
pub open spec fn cases_layout(named: Seq<Layout>, cases: Seq<Case>, n: nat) -> SpecLayout
    decreases cases, n,
{
    if n == 0 || n > cases.len() {
        SpecLayout { size: 0, align: 1 }
    } else {
        let before = cases_layout(named, cases, (n - 1) as nat);
        match cases[n - 1].payload {
            None => before,
            Some(ty) => {
                let own = layout_of(named, ty);
                SpecLayout {
                    size: max_nat(before.size, own.size),
                    align: max_nat(before.align, own.align),
                }
            },
        }
    }
}

/// The size of a type, given the layouts of the named types.
pub open spec fn size_of(named: Seq<Layout>, ty: Ty) -> nat {
    layout_of(named, ty).size
}

/// The alignment of a type, given the layouts of the named types.
pub open spec fn align_of(named: Seq<Layout>, ty: Ty) -> nat {
    layout_of(named, ty).align
}

/// Offset of field `i` inside its record.
pub open spec fn field_offset(named: Seq<Layout>, fields: Seq<Field>, i: nat) -> nat {
    align_up(fields_layout(named, fields, i).size, align_of(named, fields[i as int].ty))
}

/// Offset of the payload inside a variant.
pub open spec fn payload_offset(named: Seq<Layout>, cases: Seq<Case>) -> nat {
    align_up(disc_width(cases.len()), cases_layout(named, cases, cases.len()).align)
}

} // verus!
