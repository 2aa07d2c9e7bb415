//! The file-status record of the filesystem capability, and the text a guest
//! returns for it.

use vstd::prelude::*;
use vstd::string::StringExecFns;

verus! {

/// What kind of object a descriptor names.
#[derive(Clone, Copy, Debug, PartialEq, Eq, Structural)]
pub enum DescriptorType {
    Unknown,
    BlockDevice,
    CharacterDevice,
    Directory,
    Fifo,
    SymbolicLink,
    RegularFile,
    Socket,
}

/// A point in time on the wall clock.
#[derive(Clone, Copy, Debug, PartialEq, Eq, Structural)]
pub struct Datetime {
    pub seconds: u64,
    pub nanoseconds: u32,
}

/// The status of a file, as the filesystem capability reports it.
#[derive(Clone, Copy, Debug, PartialEq, Eq, Structural)]
pub struct DescriptorStat {
    pub device: u64,
    pub inode: u64,
    pub type_: DescriptorType,
    pub link_count: u64,
    pub size: u64,
    pub data_access_timestamp: Datetime,
    pub data_modification_timestamp: Datetime,
    pub status_change_timestamp: Datetime,
}

/// The character of one decimal digit.
pub open spec fn digit_char(d: nat) -> char {
    if d == 0 {
        '0'
    } else if d == 1 {
        '1'
    } else if d == 2 {
        '2'
    } else if d == 3 {
        '3'
    } else if d == 4 {
        '4'
    } else if d == 5 {
        '5'
    } else if d == 6 {
        '6'
    } else if d == 7 {
        '7'
    } else if d == 8 {
        '8'
    } else {
        '9'
    }
}

/// A number in decimal, without leading zeros.
pub open spec fn decimal(n: nat) -> Seq<char>
    decreases n,
{
    if n < 10 {
        seq![digit_char(n)]
    } else {
        decimal(n / 10).push(digit_char(n % 10))
    }
}

/// The name a descriptor type is printed under.
pub open spec fn type_text(ty: DescriptorType) -> Seq<char> {
    match ty {
        DescriptorType::Unknown => "DescriptorType::Unknown"@,
        DescriptorType::BlockDevice => "DescriptorType::BlockDevice"@,
        DescriptorType::CharacterDevice => "DescriptorType::CharacterDevice"@,
        DescriptorType::Directory => "DescriptorType::Directory"@,
        DescriptorType::Fifo => "DescriptorType::Fifo"@,
        DescriptorType::SymbolicLink => "DescriptorType::SymbolicLink"@,
        DescriptorType::RegularFile => "DescriptorType::RegularFile"@,
        DescriptorType::Socket => "DescriptorType::Socket"@,
    }
}

/// The text of a point in time: both fields by name.
pub open spec fn datetime_text(at: Datetime) -> Seq<char> {
    "Datetime { seconds: "@ + decimal(at.seconds as nat) + ", nanoseconds: "@ + decimal(
        at.nanoseconds as nat,
    ) + " }"@
}

/// The text of a file status: every field by name, in the order of the
/// record's declaration.
pub open spec fn stat_text(stat: DescriptorStat) -> Seq<char> {
    "DescriptorStat { device: "@ + decimal(stat.device as nat) + ", inode: "@ + decimal(
        stat.inode as nat,
    ) + ", type: "@ + type_text(stat.type_) + ", link-count: "@ + decimal(stat.link_count as nat)
        + ", size: "@ + decimal(stat.size as nat) + ", data-access-timestamp: "@ + datetime_text(
        stat.data_access_timestamp,
    ) + ", data-modification-timestamp: "@ + datetime_text(stat.data_modification_timestamp)
        + ", status-change-timestamp: "@ + datetime_text(stat.status_change_timestamp) + " }"@
}

/// The text of one decimal digit.
fn digit_text(d: u8) -> (text: &'static str)
    requires
        d < 10,
    ensures
        text@ == seq![digit_char(d as nat)],
{
    proof {
        reveal_strlit("0");
        reveal_strlit("1");
        reveal_strlit("2");
        reveal_strlit("3");
        reveal_strlit("4");
        reveal_strlit("5");
        reveal_strlit("6");
        reveal_strlit("7");
        reveal_strlit("8");
        reveal_strlit("9");
    }
    let text = if d == 0 {
        "0"
    } else if d == 1 {
        "1"
    } else if d == 2 {
        "2"
    } else if d == 3 {
        "3"
    } else if d == 4 {
        "4"
    } else if d == 5 {
        "5"
    } else if d == 6 {
        "6"
    } else if d == 7 {
        "7"
    } else if d == 8 {
        "8"
    } else {
        "9"
    };
    assert(text@ =~= seq![digit_char(d as nat)]);
    text
}

/// Appends `n` in decimal.
pub fn write_decimal(out: &mut String, n: u64)
    ensures
        final(out)@ == old(out)@ + decimal(n as nat),
    decreases n,
{
    if n >= 10 {
        write_decimal(out, n / 10);
    }
    out.append(digit_text((n % 10) as u8));
    proof {
        if n >= 10 {
            assert(out@ =~= old(out)@ + decimal((n / 10) as nat).push(digit_char((n % 10) as nat)));
        }
    }
}

/// The name of a descriptor type.
pub fn kind_name(ty: DescriptorType) -> (text: &'static str)
    ensures
        text@ == type_text(ty),
{
    match ty {
        DescriptorType::Unknown => "DescriptorType::Unknown",
        DescriptorType::BlockDevice => "DescriptorType::BlockDevice",
        DescriptorType::CharacterDevice => "DescriptorType::CharacterDevice",
        DescriptorType::Directory => "DescriptorType::Directory",
        DescriptorType::Fifo => "DescriptorType::Fifo",
        DescriptorType::SymbolicLink => "DescriptorType::SymbolicLink",
        DescriptorType::RegularFile => "DescriptorType::RegularFile",
        DescriptorType::Socket => "DescriptorType::Socket",
    }
}

/// Appends the text of a point in time.
pub fn write_datetime(out: &mut String, at: Datetime)
    ensures
        final(out)@ == old(out)@ + datetime_text(at),
{
    out.append("Datetime { seconds: ");
    write_decimal(out, at.seconds);
    out.append(", nanoseconds: ");
    write_decimal(out, at.nanoseconds as u64);
    out.append(" }");
    assert(out@ =~= old(out)@ + datetime_text(at));
}

/// The text of a file status.
pub fn render_stat(stat: &DescriptorStat) -> (text: String)
    ensures
        text@ == stat_text(*stat),
{
    let mut out = String::new();
    out.append("DescriptorStat { device: ");
    write_decimal(&mut out, stat.device);
    out.append(", inode: ");
    write_decimal(&mut out, stat.inode);
    out.append(", type: ");
    out.append(kind_name(stat.type_));
    out.append(", link-count: ");
    write_decimal(&mut out, stat.link_count);
    out.append(", size: ");
    write_decimal(&mut out, stat.size);
    out.append(", data-access-timestamp: ");
    write_datetime(&mut out, stat.data_access_timestamp);
    out.append(", data-modification-timestamp: ");
    write_datetime(&mut out, stat.data_modification_timestamp);
    out.append(", status-change-timestamp: ");
    write_datetime(&mut out, stat.status_change_timestamp);
    out.append(" }");
    assert(out@ =~= stat_text(*stat));
    out
}

/// One of the ten decimal digits.
pub open spec fn is_digit(c: char) -> bool {
    c == '0' || c == '1' || c == '2' || c == '3' || c == '4' || c == '5' || c == '6' || c == '7'
        || c == '8' || c == '9'
}

/// A number in decimal is one digit below ten and more from ten on, and
/// holds digits only.
pub proof fn lemma_decimal_shape(n: nat)
    ensures
        decimal(n).len() >= 1,
        (n < 10) == (decimal(n).len() == 1),
        forall|i: int| 0 <= i < decimal(n).len() ==> is_digit(#[trigger] decimal(n)[i]),
    decreases n,
{
    if n >= 10 {
        lemma_decimal_shape(n / 10);
    }
}

/// Numbers with the same decimal text are the same.
pub proof fn lemma_decimal_injective(a: nat, b: nat)
    requires
        decimal(a) == decimal(b),
    ensures
        a == b,
    decreases a,
{
    lemma_decimal_shape(a);
    lemma_decimal_shape(b);
    if a < 10 {
        assert(decimal(a)[0] == digit_char(a));
        assert(decimal(b)[0] == digit_char(b));
    } else {
        let x = decimal(a / 10).push(digit_char(a % 10));
        let y = decimal(b / 10).push(digit_char(b % 10));
        assert(x.last() == y.last());
        assert(x.drop_last() =~= decimal(a / 10));
        assert(y.drop_last() =~= decimal(b / 10));
        lemma_decimal_injective(a / 10, b / 10);
    }
}

/// Behind equal beginnings, texts that are equal as a whole are equal.
pub proof fn lemma_cancel(p: Seq<char>, x: Seq<char>, y: Seq<char>)
    requires
        p + x == p + y,
    ensures
        x == y,
{
    assert(x =~= (p + x).subrange(p.len() as int, (p + x).len() as int));
    assert(y =~= (p + y).subrange(p.len() as int, (p + y).len() as int));
}

/// A number in decimal ends where the first character that is no digit
/// stands: two such texts that are equal hold the same number and go on in
/// the same way.
pub proof fn lemma_split_decimal(a: nat, s: Seq<char>, b: nat, s2: Seq<char>)
    requires
        decimal(a) + s == decimal(b) + s2,
        s.len() > 0,
        !is_digit(s[0]),
        s2.len() > 0,
        !is_digit(s2[0]),
    ensures
        a == b,
        s == s2,
{
    let x = decimal(a);
    let y = decimal(b);
    lemma_decimal_shape(a);
    lemma_decimal_shape(b);
    if x.len() < y.len() {
        assert((x + s)[x.len() as int] == s[0]);
        assert((y + s2)[x.len() as int] == y[x.len() as int]);
    } else if y.len() < x.len() {
        assert((y + s2)[y.len() as int] == s2[0]);
        assert((x + s)[y.len() as int] == x[y.len() as int]);
    } else {
        assert(x =~= (x + s).subrange(0, x.len() as int));
        assert(y =~= (y + s2).subrange(0, y.len() as int));
        lemma_decimal_injective(a, b);
        lemma_cancel(x, s, s2);
    }
}

/// The text of a point in time with what follows it, grouped from the
/// right.
pub open spec fn datetime_then(at: Datetime, rest: Seq<char>) -> Seq<char> {
    "Datetime { seconds: "@ + (decimal(at.seconds as nat) + (", nanoseconds: "@ + (decimal(
        at.nanoseconds as nat,
    ) + (" }"@ + rest))))
}

/// Points in time whose texts, with what follows them, are equal are the
/// same, and so is what follows them.
pub proof fn lemma_datetime_split(a: Datetime, rest: Seq<char>, b: Datetime, rest2: Seq<char>)
    requires
        datetime_then(a, rest) == datetime_then(b, rest2),
    ensures
        a == b,
        rest == rest2,
{
    reveal_strlit(", nanoseconds: ");
    reveal_strlit(" }");
    let a4 = " }"@ + rest;
    let b4 = " }"@ + rest2;
    let a3 = decimal(a.nanoseconds as nat) + a4;
    let b3 = decimal(b.nanoseconds as nat) + b4;
    let a2 = ", nanoseconds: "@ + a3;
    let b2 = ", nanoseconds: "@ + b3;
    let a1 = decimal(a.seconds as nat) + a2;
    let b1 = decimal(b.seconds as nat) + b2;
    lemma_cancel("Datetime { seconds: "@, a1, b1);
    assert(a2[0] == ',' && b2[0] == ',');
    lemma_split_decimal(a.seconds as nat, a2, b.seconds as nat, b2);
    lemma_cancel(", nanoseconds: "@, a3, b3);
    assert(a4[0] == ' ' && b4[0] == ' ');
    lemma_split_decimal(a.nanoseconds as nat, a4, b.nanoseconds as nat, b4);
    lemma_cancel(" }"@, rest, rest2);
}

/// Descriptor types whose names, with what follows them, are equal are the
/// same.
pub proof fn lemma_type_split(a: DescriptorType, rest: Seq<char>, b: DescriptorType, rest2: Seq<char>)
    requires
        type_text(a) + rest == type_text(b) + rest2,
    ensures
        a == b,
        rest == rest2,
{
    reveal_strlit("DescriptorType::Unknown");
    reveal_strlit("DescriptorType::BlockDevice");
    reveal_strlit("DescriptorType::CharacterDevice");
    reveal_strlit("DescriptorType::Directory");
    reveal_strlit("DescriptorType::Fifo");
    reveal_strlit("DescriptorType::SymbolicLink");
    reveal_strlit("DescriptorType::RegularFile");
    reveal_strlit("DescriptorType::Socket");
    let x = type_text(a);
    let y = type_text(b);
    assert((x + rest)[16] == x[16] && (x + rest)[17] == x[17]);
    assert((y + rest2)[16] == y[16] && (y + rest2)[17] == y[17]);
    lemma_cancel(x, rest, rest2);
}

/// What follows the size in the text of a file status: the three
/// timestamps and the closing brace.
pub open spec fn after_size(stat: DescriptorStat) -> Seq<char> {
    ", data-access-timestamp: "@ + datetime_then(
        stat.data_access_timestamp,
        ", data-modification-timestamp: "@ + datetime_then(
            stat.data_modification_timestamp,
            ", status-change-timestamp: "@ + datetime_then(stat.status_change_timestamp, " }"@),
        ),
    )
}

/// What follows the link count in the text of a file status.
pub open spec fn after_links(stat: DescriptorStat) -> Seq<char> {
    ", size: "@ + (decimal(stat.size as nat) + after_size(stat))
}

/// What follows the type in the text of a file status.
pub open spec fn after_type(stat: DescriptorStat) -> Seq<char> {
    ", link-count: "@ + (decimal(stat.link_count as nat) + after_links(stat))
}

/// What follows the inode in the text of a file status.
pub open spec fn after_inode(stat: DescriptorStat) -> Seq<char> {
    ", type: "@ + (type_text(stat.type_) + after_type(stat))
}

/// What follows the device in the text of a file status.
pub open spec fn after_device(stat: DescriptorStat) -> Seq<char> {
    ", inode: "@ + (decimal(stat.inode as nat) + after_inode(stat))
}

/// The text of a file status, grouped from the right.
pub open spec fn stat_then(stat: DescriptorStat) -> Seq<char> {
    "DescriptorStat { device: "@ + (decimal(stat.device as nat) + after_device(stat))
}

/// Joining texts does not depend on how they are grouped.
pub proof fn lemma_assoc(a: Seq<char>, b: Seq<char>, c: Seq<char>)
    ensures
        (a + b) + c == a + (b + c),
{
    assert((a + b) + c =~= a + (b + c));
}

/// The text of a point in time with what follows it, either way of
/// grouping.
pub proof fn lemma_datetime_grouping(at: Datetime, rest: Seq<char>)
    ensures
        datetime_text(at) + rest == datetime_then(at, rest),
{
    let d0 = "Datetime { seconds: "@;
    let s = decimal(at.seconds as nat);
    let d1 = ", nanoseconds: "@;
    let n = decimal(at.nanoseconds as nat);
    let d2 = " }"@;
    lemma_assoc(d0 + s + d1 + n, d2, rest);
    lemma_assoc(d0 + s + d1, n, d2 + rest);
    lemma_assoc(d0 + s, d1, n + (d2 + rest));
    lemma_assoc(d0, s, d1 + (n + (d2 + rest)));
}

/// Grouping does not change the text.
pub proof fn lemma_stat_grouping(stat: DescriptorStat)
    ensures
        stat_text(stat) == stat_then(stat),
{
    let d = decimal(stat.device as nat);
    let i = decimal(stat.inode as nat);
    let t = type_text(stat.type_);
    let l = decimal(stat.link_count as nat);
    let z = decimal(stat.size as nat);
    let ta = datetime_text(stat.data_access_timestamp);
    let tm = datetime_text(stat.data_modification_timestamp);
    let tc = datetime_text(stat.status_change_timestamp);
    let q1 = "DescriptorStat { device: "@ + d;
    let q2 = q1 + ", inode: "@;
    let q3 = q2 + i;
    let q4 = q3 + ", type: "@;
    let q5 = q4 + t;
    let q6 = q5 + ", link-count: "@;
    let q7 = q6 + l;
    let q8 = q7 + ", size: "@;
    let q9 = q8 + z;
    let q10 = q9 + ", data-access-timestamp: "@;
    let q11 = q10 + ta;
    let q12 = q11 + ", data-modification-timestamp: "@;
    let q13 = q12 + tm;
    let q14 = q13 + ", status-change-timestamp: "@;
    let q15 = q14 + tc;
    assert(stat_text(stat) == q15 + " }"@);
    let end_c = datetime_then(stat.status_change_timestamp, " }"@);
    lemma_assoc(q14, tc, " }"@);
    lemma_datetime_grouping(stat.status_change_timestamp, " }"@);
    assert(stat_text(stat) == q14 + end_c);
    let rest_m = ", status-change-timestamp: "@ + end_c;
    lemma_assoc(q13, ", status-change-timestamp: "@, end_c);
    let end_m = datetime_then(stat.data_modification_timestamp, rest_m);
    lemma_assoc(q12, tm, rest_m);
    lemma_datetime_grouping(stat.data_modification_timestamp, rest_m);
    assert(stat_text(stat) == q12 + end_m);
    let rest_a = ", data-modification-timestamp: "@ + end_m;
    lemma_assoc(q11, ", data-modification-timestamp: "@, end_m);
    let end_a = datetime_then(stat.data_access_timestamp, rest_a);
    lemma_assoc(q10, ta, rest_a);
    lemma_datetime_grouping(stat.data_access_timestamp, rest_a);
    assert(stat_text(stat) == q10 + end_a);
    lemma_assoc(q9, ", data-access-timestamp: "@, end_a);
    assert(stat_text(stat) == q9 + after_size(stat));
    lemma_assoc(q8, z, after_size(stat));
    lemma_assoc(q7, ", size: "@, z + after_size(stat));
    assert(stat_text(stat) == q7 + after_links(stat));
    lemma_assoc(q6, l, after_links(stat));
    lemma_assoc(q5, ", link-count: "@, l + after_links(stat));
    assert(stat_text(stat) == q5 + after_type(stat));
    lemma_assoc(q4, t, after_type(stat));
    lemma_assoc(q3, ", type: "@, t + after_type(stat));
    assert(stat_text(stat) == q3 + after_inode(stat));
    lemma_assoc(q2, i, after_inode(stat));
    lemma_assoc(q1, ", inode: "@, i + after_inode(stat));
    assert(stat_text(stat) == q1 + after_device(stat));
    lemma_assoc("DescriptorStat { device: "@, d, after_device(stat));
}

/// The text of a file status determines every field of the record: two
/// records with the same text are the same record.
pub proof fn law_stat_text_determines(a: DescriptorStat, b: DescriptorStat)
    requires
        stat_text(a) == stat_text(b),
    ensures
        a == b,
{
    lemma_stat_grouping(a);
    lemma_stat_grouping(b);
    reveal_strlit(", inode: ");
    reveal_strlit(", type: ");
    reveal_strlit(", link-count: ");
    reveal_strlit(", size: ");
    reveal_strlit(", data-access-timestamp: ");
    lemma_cancel(
        "DescriptorStat { device: "@,
        decimal(a.device as nat) + after_device(a),
        decimal(b.device as nat) + after_device(b),
    );
    assert(after_device(a)[0] == ',' && after_device(b)[0] == ',');
    lemma_split_decimal(a.device as nat, after_device(a), b.device as nat, after_device(b));
    lemma_cancel(
        ", inode: "@,
        decimal(a.inode as nat) + after_inode(a),
        decimal(b.inode as nat) + after_inode(b),
    );
    assert(after_inode(a)[0] == ',' && after_inode(b)[0] == ',');
    lemma_split_decimal(a.inode as nat, after_inode(a), b.inode as nat, after_inode(b));
    lemma_cancel(", type: "@, type_text(a.type_) + after_type(a), type_text(b.type_) + after_type(b));
    lemma_type_split(a.type_, after_type(a), b.type_, after_type(b));
    lemma_cancel(
        ", link-count: "@,
        decimal(a.link_count as nat) + after_links(a),
        decimal(b.link_count as nat) + after_links(b),
    );
    assert(after_links(a)[0] == ',' && after_links(b)[0] == ',');
    lemma_split_decimal(a.link_count as nat, after_links(a), b.link_count as nat, after_links(b));
    lemma_cancel(
        ", size: "@,
        decimal(a.size as nat) + after_size(a),
        decimal(b.size as nat) + after_size(b),
    );
    assert(after_size(a)[0] == ',' && after_size(b)[0] == ',');
    lemma_split_decimal(a.size as nat, after_size(a), b.size as nat, after_size(b));
    let ac = " }"@;
    let am = ", status-change-timestamp: "@ + datetime_then(a.status_change_timestamp, ac);
    let bm = ", status-change-timestamp: "@ + datetime_then(b.status_change_timestamp, ac);
    let aa = ", data-modification-timestamp: "@ + datetime_then(a.data_modification_timestamp, am);
    let ba = ", data-modification-timestamp: "@ + datetime_then(b.data_modification_timestamp, bm);
    lemma_cancel(
        ", data-access-timestamp: "@,
        datetime_then(a.data_access_timestamp, aa),
        datetime_then(b.data_access_timestamp, ba),
    );
    lemma_datetime_split(a.data_access_timestamp, aa, b.data_access_timestamp, ba);
    lemma_cancel(
        ", data-modification-timestamp: "@,
        datetime_then(a.data_modification_timestamp, am),
        datetime_then(b.data_modification_timestamp, bm),
    );
    lemma_datetime_split(a.data_modification_timestamp, am, b.data_modification_timestamp, bm);
    lemma_cancel(
        ", status-change-timestamp: "@,
        datetime_then(a.status_change_timestamp, ac),
        datetime_then(b.status_change_timestamp, ac),
    );
    lemma_datetime_split(a.status_change_timestamp, ac, b.status_change_timestamp, ac);
}

} // verus!
