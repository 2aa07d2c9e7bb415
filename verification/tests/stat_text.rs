use test_reactor::guest::Guest;
use test_reactor::stat::{render_stat, write_decimal, Datetime, DescriptorStat, DescriptorType};

fn sample() -> DescriptorStat {
    DescriptorStat {
        device: 0,
        inode: 0,
        type_: DescriptorType::Unknown,
        link_count: 0,
        size: 0,
        data_access_timestamp: Datetime { seconds: 45, nanoseconds: 123 },
        data_modification_timestamp: Datetime { seconds: 10, nanoseconds: 789 },
        status_change_timestamp: Datetime { seconds: 1, nanoseconds: 0 },
    }
}

#[test]
fn record_text_names_every_field() {
    let text = Guest::pass_an_imported_record(sample());
    assert_eq!(
        text,
        "DescriptorStat { device: 0, inode: 0, type: DescriptorType::Unknown, link-count: 0, \
         size: 0, data-access-timestamp: Datetime { seconds: 45, nanoseconds: 123 }, \
         data-modification-timestamp: Datetime { seconds: 10, nanoseconds: 789 }, \
         status-change-timestamp: Datetime { seconds: 1, nanoseconds: 0 } }"
    );
}

#[test]
fn record_text_tells_records_apart() {
    let base = render_stat(&sample());
    let mut changed = Vec::new();
    let mut s = sample();
    s.device = 1;
    changed.push(s);
    let mut s = sample();
    s.inode = u64::MAX;
    changed.push(s);
    let mut s = sample();
    s.type_ = DescriptorType::SymbolicLink;
    changed.push(s);
    let mut s = sample();
    s.link_count = 2;
    changed.push(s);
    let mut s = sample();
    s.size = 4096;
    changed.push(s);
    let mut s = sample();
    s.data_access_timestamp.nanoseconds = 124;
    changed.push(s);
    let mut s = sample();
    s.data_modification_timestamp.seconds = 11;
    changed.push(s);
    let mut s = sample();
    s.status_change_timestamp.seconds = 0;
    changed.push(s);
    let texts: Vec<String> = changed.iter().map(render_stat).collect();
    for (i, text) in texts.iter().enumerate() {
        assert_ne!(*text, base);
        for other in &texts[..i] {
            assert_ne!(text, other);
        }
    }
}

#[test]
fn record_text_of_largest_values() {
    let stat = DescriptorStat {
        device: u64::MAX,
        inode: 10,
        type_: DescriptorType::RegularFile,
        link_count: 100,
        size: 18446744073709551614,
        data_access_timestamp: Datetime { seconds: 0, nanoseconds: u32::MAX },
        data_modification_timestamp: Datetime { seconds: 9, nanoseconds: 99 },
        status_change_timestamp: Datetime { seconds: 1000000, nanoseconds: 1 },
    };
    assert_eq!(
        render_stat(&stat),
        "DescriptorStat { device: 18446744073709551615, inode: 10, \
         type: DescriptorType::RegularFile, link-count: 100, size: 18446744073709551614, \
         data-access-timestamp: Datetime { seconds: 0, nanoseconds: 4294967295 }, \
         data-modification-timestamp: Datetime { seconds: 9, nanoseconds: 99 }, \
         status-change-timestamp: Datetime { seconds: 1000000, nanoseconds: 1 } }"
    );
}

#[test]
fn decimal_has_no_leading_zeros() {
    for (n, text) in [(0u64, "0"), (7, "7"), (10, "10"), (1009, "1009"), (u64::MAX, "18446744073709551615")] {
        let mut out = String::from("n=");
        write_decimal(&mut out, n);
        assert_eq!(out, format!("n={text}"));
    }
}
