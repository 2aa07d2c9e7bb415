//! Between the values that business logic is written in and the logical
//! values that cross the boundary, for the types of the reactor world.

use crate::abi::cross::{lemma_plain_case_lowers, lemma_scalar_lowers};
use crate::abi::model::{lower_fields, lower_spec, ty_wf, Types};
use crate::guest::strings_of;
use crate::stat::{Datetime, DescriptorStat, DescriptorType};
use crate::types::{cases_layout, fields_layout, layout_of, Case, Field, Passing, Ty};
use crate::value::{lemma_view_all, lemma_view_parts, view_all, Val, Value};
use vstd::prelude::*;

verus! {

/// The type tag of output streams.
pub const OUTPUT_STREAM: u32 = 1;

/// A list of strings as a logical value.
pub open spec fn strings_val(ss: Seq<Seq<char>>) -> Val {
    Val::List(Seq::new(ss.len(), |i: int| Val::Str(ss[i])))
}

/// The index of a descriptor type among the cases of its enumeration.
pub open spec fn kind_index(kind: DescriptorType) -> u32 {
    match kind {
        DescriptorType::Unknown => 0,
        DescriptorType::BlockDevice => 1,
        DescriptorType::CharacterDevice => 2,
        DescriptorType::Directory => 3,
        DescriptorType::Fifo => 4,
        DescriptorType::SymbolicLink => 5,
        DescriptorType::RegularFile => 6,
        DescriptorType::Socket => 7,
    }
}

/// A point in time as a logical value: seconds, then nanoseconds.
pub open spec fn datetime_val(at: Datetime) -> Val {
    Val::Record(seq![Val::U64(at.seconds), Val::U32(at.nanoseconds)])
}

/// A file status as a logical value: a record of its fields in the order of
/// their declaration.
pub open spec fn stat_val(stat: DescriptorStat) -> Val {
    Val::Record(
        seq![
            Val::U64(stat.device),
            Val::U64(stat.inode),
            Val::Variant(kind_index(stat.type_), None),
            Val::U64(stat.link_count),
            Val::U64(stat.size),
            datetime_val(stat.data_access_timestamp),
            datetime_val(stat.data_modification_timestamp),
            datetime_val(stat.status_change_timestamp),
        ],
    )
}

/// The type is `list<string>`.
pub open spec fn is_strings_ty(ty: Ty) -> bool {
    ty == Ty::List(Box::new(Ty::Str))
}

/// The type is a variant of `n` cases without payloads.
pub open spec fn is_plain_variant(ty: Ty, n: nat) -> bool {
    &&& ty is Variant
    &&& ty->Variant_0@.len() == n
    &&& forall|i: int| 0 <= i < n ==> (#[trigger] ty->Variant_0@[i]).payload is None
}

/// The type is the record that `datetime` is declared as.
pub open spec fn is_datetime_ty(ty: Ty) -> bool {
    &&& ty is Record
    &&& ty->Record_0@.len() == 2
    &&& ty->Record_0@[0].ty == Ty::U64
    &&& ty->Record_0@[1].ty == Ty::U32
}

/// The type is the record that `descriptor-stat` is declared as.
pub open spec fn is_stat_ty(ty: Ty) -> bool {
    &&& ty is Record
    &&& ty->Record_0@.len() == 8
    &&& ty->Record_0@[0].ty == Ty::U64
    &&& ty->Record_0@[1].ty == Ty::U64
    &&& is_plain_variant(ty->Record_0@[2].ty, 8)
    &&& ty->Record_0@[3].ty == Ty::U64
    &&& ty->Record_0@[4].ty == Ty::U64
    &&& is_datetime_ty(ty->Record_0@[5].ty)
    &&& is_datetime_ty(ty->Record_0@[6].ty)
    &&& is_datetime_ty(ty->Record_0@[7].ty)
}

/// A variant without payloads is as wide as its discriminant.
pub proof fn lemma_plain_variant(t: Types, r: nat, ty: Ty, n: nat)
    requires
        is_plain_variant(ty, n),
        1 <= n <= 0x100,
    ensures
        ty_wf(t, r, ty),
        layout_of(t.layouts, ty).size == 1,
        layout_of(t.layouts, ty).align == 1,
{
    let cases = ty->Variant_0@;
    lemma_plain_cases(t, cases, n);
}

proof fn lemma_plain_cases(t: Types, cases: Seq<Case>, k: nat)
    requires
        k <= cases.len(),
        forall|i: int| 0 <= i < cases.len() ==> (#[trigger] cases[i]).payload is None,
    ensures
        cases_layout(t.layouts, cases, k).size == 0,
        cases_layout(t.layouts, cases, k).align == 1,
    decreases k,
{
    if k > 0 {
        lemma_plain_cases(t, cases, (k - 1) as nat);
    }
}

/// A point in time takes sixteen bytes, aligned to eight.
pub proof fn lemma_datetime_ty(t: Types, r: nat, ty: Ty)
    requires
        is_datetime_ty(ty),
    ensures
        ty_wf(t, r, ty),
        layout_of(t.layouts, ty).size == 16,
        layout_of(t.layouts, ty).align == 8,
{
    let fields = ty->Record_0@;
    let named = t.layouts;
    assert(layout_of(named, fields[0].ty).size == 8 && layout_of(named, fields[0].ty).align == 8);
    assert(layout_of(named, fields[1].ty).size == 4 && layout_of(named, fields[1].ty).align == 4);
    assert(fields_layout(named, fields, 0).size == 0 && fields_layout(named, fields, 0).align
        == 1);
    assert(fields_layout(named, fields, 1).size == 8 && fields_layout(named, fields, 1).align == 8);
    assert(fields_layout(named, fields, 2).size == 12 && fields_layout(named, fields, 2).align
        == 8);
    assert forall|i: int| 0 <= i < fields.len() implies ty_wf(t, r, (#[trigger] fields[i]).ty) by {
        if i == 0 {
        } else {
            assert(i == 1);
        }
    }
}

/// A file status takes eighty-eight bytes, aligned to eight.
pub proof fn lemma_stat_ty(t: Types, r: nat, ty: Ty)
    requires
        is_stat_ty(ty),
    ensures
        ty_wf(t, r, ty),
        layout_of(t.layouts, ty).size == 88,
        layout_of(t.layouts, ty).align == 8,
{
    let fields = ty->Record_0@;
    let named = t.layouts;
    lemma_plain_variant(t, r, fields[2].ty, 8);
    lemma_datetime_ty(t, r, fields[5].ty);
    lemma_datetime_ty(t, r, fields[6].ty);
    lemma_datetime_ty(t, r, fields[7].ty);
    assert(layout_of(named, fields[0].ty).size == 8 && layout_of(named, fields[0].ty).align == 8);
    assert(layout_of(named, fields[1].ty).size == 8 && layout_of(named, fields[1].ty).align == 8);
    assert(layout_of(named, fields[3].ty).size == 8 && layout_of(named, fields[3].ty).align == 8);
    assert(layout_of(named, fields[4].ty).size == 8 && layout_of(named, fields[4].ty).align == 8);
    assert(fields_layout(named, fields, 0).size == 0 && fields_layout(named, fields, 0).align
        == 1);
    assert(fields_layout(named, fields, 1).size == 8 && fields_layout(named, fields, 1).align
        == 8);
    assert(fields_layout(named, fields, 2).size == 16 && fields_layout(named, fields, 2).align
        == 8);
    assert(fields_layout(named, fields, 3).size == 17 && fields_layout(named, fields, 3).align
        == 8);
    assert(fields_layout(named, fields, 4).size == 32 && fields_layout(named, fields, 4).align
        == 8);
    assert(fields_layout(named, fields, 5).size == 40 && fields_layout(named, fields, 5).align
        == 8);
    assert(fields_layout(named, fields, 6).size == 56 && fields_layout(named, fields, 6).align
        == 8);
    assert(fields_layout(named, fields, 7).size == 72 && fields_layout(named, fields, 7).align
        == 8);
    assert(fields_layout(named, fields, 8).size == 88 && fields_layout(named, fields, 8).align
        == 8);
    assert forall|i: int| 0 <= i < fields.len() implies ty_wf(t, r, (#[trigger] fields[i]).ty) by {
        if i == 0 {
        } else if i == 1 {
        } else if i == 2 {
        } else if i == 3 {
        } else if i == 4 {
        } else if i == 5 {
        } else if i == 6 {
        } else {
            assert(i == 7);
        }
    }
}

/// The type `list<string>`.
pub fn strings_ty() -> (ty: Ty)
    ensures
        is_strings_ty(ty),
{
    Ty::List(Box::new(Ty::Str))
}

/// The type of a handle to a borrowed output stream.
pub fn stream_ty() -> (ty: Ty)
    ensures
        ty == Ty::Handle(OUTPUT_STREAM, Passing::Borrowed),
{
    Ty::Handle(OUTPUT_STREAM, Passing::Borrowed)
}

fn plain_case(name: &str) -> (case: Case)
    ensures
        case.payload is None,
        case.name@ == name@,
{
    Case { name: name.to_owned(), payload: None }
}

fn field(name: &str, ty: Ty) -> (f: Field)
    ensures
        f.ty == ty,
        f.name@ == name@,
{
    Field { name: name.to_owned(), ty }
}

/// The type `result`, with no payload on either side.
pub fn unit_result_ty() -> (ty: Ty)
    ensures
        is_plain_variant(ty, 2),
{
    let mut cases: Vec<Case> = Vec::new();
    cases.push(plain_case("ok"));
    cases.push(plain_case("err"));
    Ty::Variant(cases)
}

/// The enumeration `descriptor-type`.
pub fn descriptor_type_ty() -> (ty: Ty)
    ensures
        is_plain_variant(ty, 8),
{
    let mut cases: Vec<Case> = Vec::new();
    cases.push(plain_case("unknown"));
    cases.push(plain_case("block-device"));
    cases.push(plain_case("character-device"));
    cases.push(plain_case("directory"));
    cases.push(plain_case("fifo"));
    cases.push(plain_case("symbolic-link"));
    cases.push(plain_case("regular-file"));
    cases.push(plain_case("socket"));
    Ty::Variant(cases)
}

/// The record `datetime`.
pub fn datetime_ty() -> (ty: Ty)
    ensures
        is_datetime_ty(ty),
{
    let mut fields: Vec<Field> = Vec::new();
    fields.push(field("seconds", Ty::U64));
    fields.push(field("nanoseconds", Ty::U32));
    Ty::Record(fields)
}

/// The record `descriptor-stat`.
pub fn stat_ty() -> (ty: Ty)
    ensures
        is_stat_ty(ty),
{
    let mut fields: Vec<Field> = Vec::new();
    fields.push(field("device", Ty::U64));
    fields.push(field("inode", Ty::U64));
    fields.push(field("type", descriptor_type_ty()));
    fields.push(field("link-count", Ty::U64));
    fields.push(field("size", Ty::U64));
    fields.push(field("data-access-timestamp", datetime_ty()));
    fields.push(field("data-modification-timestamp", datetime_ty()));
    fields.push(field("status-change-timestamp", datetime_ty()));
    Ty::Record(fields)
}

/// A list of strings as a logical value.
pub fn strings_to_value(ss: &Vec<String>) -> (v: Value)
    ensures
        v@ == strings_val(strings_of(ss@)),
{
    let mut items: Vec<Value> = Vec::new();
    let mut i: usize = 0;
    while i < ss.len()
        invariant
            i <= ss@.len(),
            items@.len() == i,
            forall|k: int| 0 <= k < i ==> (#[trigger] items@[k])@ == Val::Str(ss@[k]@),
        decreases ss@.len() - i,
    {
        items.push(Value::Str(ss[i].clone()));
        i = i + 1;
    }
    let v = Value::List(items);
    proof {
        lemma_view_all(items@);
        lemma_view_parts(v);
        assert(v@->List_0 =~= strings_val(strings_of(ss@))->List_0);
    }
    v
}

/// The strings of a logical value that is a list of strings.
#[verifier::loop_isolation(false)]
pub fn value_to_strings(v: &Value) -> (out: Option<Vec<String>>)
    ensures
        match out {
            Some(ss) => v@ == strings_val(strings_of(ss@)),
            None => forall|ss: Seq<Seq<char>>| v@ != strings_val(ss),
        },
{
    proof {
        lemma_view_parts(*v);
    }
    match v {
        Value::List(items) => {
            proof {
                lemma_view_all(items@);
            }
            let mut out: Vec<String> = Vec::new();
            let mut i: usize = 0;
            while i < items.len()
                invariant
                    i <= items@.len(),
                    out@.len() == i,
                    forall|k: int| 0 <= k < i ==> items@[k]@ == Val::Str((#[trigger] out@[k])@),
                decreases items@.len() - i,
            {
                match &items[i] {
                    Value::Str(s) => {
                        out.push(s.clone());
                    },
                    _ => {
                        assert forall|ss: Seq<Seq<char>>| v@ != strings_val(ss) by {
                            lemma_view_parts(items@[i as int]);
                            if v@ == strings_val(ss) {
                                assert(view_all(items@).len() == ss.len());
                                assert(view_all(items@)[i as int] == strings_val(ss)->List_0[i as int]);
                            }
                        }
                        return None;
                    },
                }
                i = i + 1;
            }
            assert(v@->List_0 =~= strings_val(strings_of(out@))->List_0);
            Some(out)
        },
        _ => None,
    }
}

/// The index of a descriptor type among the cases of its enumeration.
pub fn kind_to_index(kind: DescriptorType) -> (i: u32)
    ensures
        i == kind_index(kind),
{
    match kind {
        DescriptorType::Unknown => 0,
        DescriptorType::BlockDevice => 1,
        DescriptorType::CharacterDevice => 2,
        DescriptorType::Directory => 3,
        DescriptorType::Fifo => 4,
        DescriptorType::SymbolicLink => 5,
        DescriptorType::RegularFile => 6,
        DescriptorType::Socket => 7,
    }
}

/// The descriptor type at an index of its enumeration.
pub fn kind_from_index(i: u32) -> (kind: Option<DescriptorType>)
    ensures
        match kind {
            Some(k) => kind_index(k) == i,
            None => i >= 8,
        },
{
    if i == 0 {
        Some(DescriptorType::Unknown)
    } else if i == 1 {
        Some(DescriptorType::BlockDevice)
    } else if i == 2 {
        Some(DescriptorType::CharacterDevice)
    } else if i == 3 {
        Some(DescriptorType::Directory)
    } else if i == 4 {
        Some(DescriptorType::Fifo)
    } else if i == 5 {
        Some(DescriptorType::SymbolicLink)
    } else if i == 6 {
        Some(DescriptorType::RegularFile)
    } else if i == 7 {
        Some(DescriptorType::Socket)
    } else {
        None
    }
}

fn datetime_to_value(at: Datetime) -> (v: Value)
    ensures
        v@ == datetime_val(at),
{
    let mut fields: Vec<Value> = Vec::new();
    fields.push(Value::U64(at.seconds));
    fields.push(Value::U32(at.nanoseconds));
    let v = Value::Record(fields);
    proof {
        lemma_view_all(fields@);
        lemma_view_parts(v);
        assert(v@->Record_0 =~= datetime_val(at)->Record_0);
    }
    v
}

fn value_to_datetime(v: &Value) -> (out: Option<Datetime>)
    ensures
        match out {
            Some(at) => v@ == datetime_val(at),
            None => forall|at: Datetime| v@ != datetime_val(at),
        },
{
    proof {
        lemma_view_parts(*v);
    }
    match v {
        Value::Record(fields) => {
            proof {
                lemma_view_all(fields@);
                if fields@.len() == 2 {
                    lemma_view_parts(fields@[0]);
                    lemma_view_parts(fields@[1]);
                }
            }
            if fields.len() != 2 {
                assert forall|at: Datetime| v@ != datetime_val(at) by {
                    assert(datetime_val(at)->Record_0.len() == 2);
                }
                return None;
            }
            match (&fields[0], &fields[1]) {
                (Value::U64(seconds), Value::U32(nanoseconds)) => {
                    let at = Datetime { seconds: *seconds, nanoseconds: *nanoseconds };
                    assert(v@->Record_0 =~= datetime_val(at)->Record_0);
                    Some(at)
                },
                _ => {
                    assert forall|at: Datetime| v@ != datetime_val(at) by {
                        if v@ == datetime_val(at) {
                            assert(v@->Record_0[0] == datetime_val(at)->Record_0[0]);
                            assert(v@->Record_0[1] == datetime_val(at)->Record_0[1]);
                        }
                    }
                    None
                },
            }
        },
        _ => None,
    }
}

/// A file status as a logical value.
pub fn stat_to_value(stat: &DescriptorStat) -> (v: Value)
    ensures
        v@ == stat_val(*stat),
{
    let mut fields: Vec<Value> = Vec::new();
    fields.push(Value::U64(stat.device));
    fields.push(Value::U64(stat.inode));
    fields.push(Value::Variant(kind_to_index(stat.type_), None));
    fields.push(Value::U64(stat.link_count));
    fields.push(Value::U64(stat.size));
    fields.push(datetime_to_value(stat.data_access_timestamp));
    fields.push(datetime_to_value(stat.data_modification_timestamp));
    fields.push(datetime_to_value(stat.status_change_timestamp));
    let v = Value::Record(fields);
    proof {
        lemma_view_all(fields@);
        lemma_view_parts(v);
        lemma_view_parts(fields@[2]);
        assert(v@->Record_0 =~= stat_val(*stat)->Record_0);
    }
    v
}

/// The file status of a logical value that is one.
pub fn value_to_stat(v: &Value) -> (out: Option<DescriptorStat>)
    ensures
        match out {
            Some(stat) => v@ == stat_val(stat),
            None => forall|stat: DescriptorStat| v@ != stat_val(stat),
        },
{
    proof {
        lemma_view_parts(*v);
    }
    match v {
        Value::Record(fields) => {
            proof {
                lemma_view_all(fields@);
                if fields@.len() == 8 {
                    lemma_view_parts(fields@[0]);
                    lemma_view_parts(fields@[1]);
                    lemma_view_parts(fields@[2]);
                    lemma_view_parts(fields@[3]);
                    lemma_view_parts(fields@[4]);
                }
            }
            if fields.len() != 8 {
                assert forall|stat: DescriptorStat| v@ != stat_val(stat) by {
                    assert(stat_val(stat)->Record_0.len() == 8);
                }
                return None;
            }
            let access = value_to_datetime(&fields[5]);
            let modification = value_to_datetime(&fields[6]);
            let change = value_to_datetime(&fields[7]);
            match (
                &fields[0],
                &fields[1],
                &fields[2],
                &fields[3],
                &fields[4],
                access,
                modification,
                change,
            ) {
                (
                    Value::U64(device),
                    Value::U64(inode),
                    Value::Variant(kind, None),
                    Value::U64(link_count),
                    Value::U64(size),
                    Some(data_access_timestamp),
                    Some(data_modification_timestamp),
                    Some(status_change_timestamp),
                ) => {
                    match kind_from_index(*kind) {
                        Some(type_) => {
                            let stat = DescriptorStat {
                                device: *device,
                                inode: *inode,
                                type_,
                                link_count: *link_count,
                                size: *size,
                                data_access_timestamp,
                                data_modification_timestamp,
                                status_change_timestamp,
                            };
                            assert(v@->Record_0 =~= stat_val(stat)->Record_0);
                            Some(stat)
                        },
                        None => {
                            assert forall|stat: DescriptorStat| v@ != stat_val(stat) by {
                                if v@ == stat_val(stat) {
                                    assert(v@->Record_0[2] == stat_val(stat)->Record_0[2]);
                                }
                            }
                            None
                        },
                    }
                },
                _ => {
                    assert forall|stat: DescriptorStat| v@ != stat_val(stat) by {
                        if v@ == stat_val(stat) {
                            assert(v@->Record_0[0] == stat_val(stat)->Record_0[0]);
                            assert(v@->Record_0[1] == stat_val(stat)->Record_0[1]);
                            assert(v@->Record_0[2] == stat_val(stat)->Record_0[2]);
                            assert(v@->Record_0[3] == stat_val(stat)->Record_0[3]);
                            assert(v@->Record_0[4] == stat_val(stat)->Record_0[4]);
                            assert(v@->Record_0[5] == stat_val(stat)->Record_0[5]);
                            assert(v@->Record_0[6] == stat_val(stat)->Record_0[6]);
                            assert(v@->Record_0[7] == stat_val(stat)->Record_0[7]);
                        }
                    }
                    None
                },
            }
        },
        _ => None,
    }
}

/// A point in time always lowers, and needs no memory.
pub proof fn lemma_datetime_lowers(t: Types, r: nat, ty: Ty, at: Datetime, mem: Seq<u8>, cap: nat)
    requires
        is_datetime_ty(ty),
    ensures
        lower_spec(t, r, ty, datetime_val(at), mem, cap) is Ok,
        lower_spec(t, r, ty, datetime_val(at), mem, cap)->Ok_0.mem == mem,
{
    let fields = ty->Record_0@;
    let vals = datetime_val(at)->Record_0;
    assert(lower_fields(t, r, fields, vals, 0, mem, cap) is Ok);
    lemma_scalar_lowers(t, r, fields[0].ty, vals[0], mem, cap);
    assert(lower_fields(t, r, fields, vals, 1, mem, cap) is Ok && lower_fields(
        t,
        r,
        fields,
        vals,
        1,
        mem,
        cap,
    )->Ok_0.mem == mem);
    lemma_scalar_lowers(t, r, fields[1].ty, vals[1], mem, cap);
    assert(lower_fields(t, r, fields, vals, 2, mem, cap) is Ok && lower_fields(
        t,
        r,
        fields,
        vals,
        2,
        mem,
        cap,
    )->Ok_0.mem == mem);
}

/// The first `n` fields of a file status lower, and need no memory.
pub open spec fn stat_fields_lower(
    t: Types,
    r: nat,
    ty: Ty,
    stat: DescriptorStat,
    mem: Seq<u8>,
    cap: nat,
    n: nat,
) -> bool {
    &&& lower_fields(t, r, ty->Record_0@, stat_val(stat)->Record_0, n, mem, cap) is Ok
    &&& lower_fields(t, r, ty->Record_0@, stat_val(stat)->Record_0, n, mem, cap)->Ok_0.mem == mem
}

/// A file status always lowers, and needs no memory.
pub proof fn lemma_stat_lowers(
    t: Types,
    r: nat,
    ty: Ty,
    stat: DescriptorStat,
    mem: Seq<u8>,
    cap: nat,
)
    requires
        is_stat_ty(ty),
    ensures
        lower_spec(t, r, ty, stat_val(stat), mem, cap) is Ok,
        lower_spec(t, r, ty, stat_val(stat), mem, cap)->Ok_0.mem == mem,
{
    let fields = ty->Record_0@;
    let vals = stat_val(stat)->Record_0;
    assert(stat_fields_lower(t, r, ty, stat, mem, cap, 0));
    lemma_scalar_lowers(t, r, fields[0].ty, vals[0], mem, cap);
    assert(stat_fields_lower(t, r, ty, stat, mem, cap, 1));
    lemma_scalar_lowers(t, r, fields[1].ty, vals[1], mem, cap);
    assert(stat_fields_lower(t, r, ty, stat, mem, cap, 2));
    lemma_plain_case_lowers(t, r, fields[2].ty, kind_index(stat.type_), mem, cap);
    assert(stat_fields_lower(t, r, ty, stat, mem, cap, 3));
    lemma_scalar_lowers(t, r, fields[3].ty, vals[3], mem, cap);
    assert(stat_fields_lower(t, r, ty, stat, mem, cap, 4));
    lemma_scalar_lowers(t, r, fields[4].ty, vals[4], mem, cap);
    assert(stat_fields_lower(t, r, ty, stat, mem, cap, 5));
    lemma_datetime_lowers(t, r, fields[5].ty, stat.data_access_timestamp, mem, cap);
    assert(stat_fields_lower(t, r, ty, stat, mem, cap, 6));
    lemma_datetime_lowers(t, r, fields[6].ty, stat.data_modification_timestamp, mem, cap);
    assert(stat_fields_lower(t, r, ty, stat, mem, cap, 7));
    lemma_datetime_lowers(t, r, fields[7].ty, stat.status_change_timestamp, mem, cap);
    assert(stat_fields_lower(t, r, ty, stat, mem, cap, 8));
}

} // verus!
