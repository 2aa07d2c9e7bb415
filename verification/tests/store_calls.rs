use test_reactor::bridge::{CallError, Phase, Progress, Stream};
use test_reactor::convert::OUTPUT_STREAM;
use test_reactor::abi::model::LowerError;
use test_reactor::env::Env;
use test_reactor::framing::LineReader;
use test_reactor::handles::HandleError;
use test_reactor::stat::{Datetime, DescriptorStat, DescriptorType};
use test_reactor::store::Store;

fn strings(items: &[&str]) -> Vec<String> {
    items.iter().map(|s| s.to_string()).collect()
}

fn seeded() -> Store {
    let mut env = Env::new();
    env.push_env("GOOD_DOG", "gussie");
    env.push_env("POUTY_DOG", "willa");
    Store::new(env, 1 << 16)
}

#[test]
fn call_add_strings_interpolates_the_environment() {
    let mut store = seeded();
    assert_eq!(store.call_add_strings(&strings(&["hello", "$GOOD_DOG"])), Ok(2));
    assert_eq!(store.call_get_strings(), Ok(strings(&["hello", "gussie"])));
    assert_eq!(store.call_add_strings(&strings(&["$POUTY_DOG"])), Ok(3));
    assert_eq!(store.call_get_strings(), Ok(strings(&["hello", "gussie", "willa"])));
    assert_eq!(store.current_phase(), Phase::Idle);
}

#[test]
fn call_add_strings_without_the_variable() {
    let mut store = Store::new(Env::new(), 1 << 16);
    assert_eq!(store.call_add_strings(&strings(&["$NOPE"])), Ok(1));
    assert_eq!(store.call_get_strings(), Ok(strings(&["undefined"])));
}

#[test]
fn call_add_strings_passes_literals_through() {
    let mut store = seeded();
    assert_eq!(store.call_add_strings(&strings(&["plain", "also$tail"])), Ok(2));
    assert_eq!(store.call_get_strings(), Ok(strings(&["plain", "also$tail"])));
    assert_eq!(store.call_add_strings(&Vec::new()), Ok(2));
}

#[test]
fn environment_seeded_later_is_seen() {
    let mut store = Store::new(Env::new(), 1 << 16);
    store.push_env("DOG", "gussie");
    assert_eq!(store.ctx().get("DOG"), Some("gussie".to_string()));
    assert_eq!(store.call_add_strings(&strings(&["$DOG", "$CAT"])), Ok(2));
    assert_eq!(store.call_get_strings(), Ok(strings(&["gussie", "undefined"])));
}

#[test]
fn memory_sink_receives_each_string_as_a_line() {
    let mut store = seeded();
    store.call_add_strings(&strings(&["hello", "$GOOD_DOG"])).unwrap();
    let sink = store.push_output_stream(Stream::Memory(Vec::new())).unwrap();
    assert_eq!(store.call_write_strings_to(sink), Ok(Progress::Done(Ok(()))));
    assert_eq!(store.stream_contents(sink), Ok(b"hello\ngussie\n".to_vec()));
    assert_eq!(store.call_write_strings_to(sink), Ok(Progress::Done(Ok(()))));
    assert_eq!(store.stream_contents(sink), Ok(b"hello\ngussie\nhello\ngussie\n".to_vec()));
    assert_eq!(store.current_phase(), Phase::Idle);
}

#[test]
fn memory_sink_keeps_what_it_held() {
    let mut store = seeded();
    store.call_add_strings(&strings(&["ü"])).unwrap();
    let other = store.push_output_stream(Stream::Memory(b"x".to_vec())).unwrap();
    let sink = store.push_output_stream(Stream::Memory(b">".to_vec())).unwrap();
    assert_eq!(store.call_write_strings_to(sink), Ok(Progress::Done(Ok(()))));
    assert_eq!(store.stream_contents(sink), Ok(vec![b'>', 0xc3, 0xbc, b'\n']));
    assert_eq!(store.stream_contents(other), Ok(b"x".to_vec()));
}

#[test]
fn external_stream_parks_the_call_at_each_line() {
    let mut store = seeded();
    store.call_add_strings(&strings(&["hello", "$GOOD_DOG"])).unwrap();
    let pipe = store.push_output_stream(Stream::External).unwrap();
    let mut reader = LineReader::new();
    let mut frames: Vec<Vec<u8>> = Vec::new();
    let mut progress = store.call_write_strings_to(pipe).unwrap();
    let mut parks = 0;
    loop {
        match progress {
            Progress::Parked(bytes) => {
                parks += 1;
                assert_eq!(store.current_phase(), Phase::Parked);
                for byte in bytes {
                    if let Some(frame) = reader.push(byte) {
                        frames.push(frame);
                    }
                }
                progress = store.resume(true).unwrap();
            }
            Progress::Done(verdict) => {
                assert_eq!(verdict, Ok(()));
                break;
            }
        }
    }
    assert_eq!(parks, 2);
    assert_eq!(frames, vec![b"hello".to_vec(), b"gussie".to_vec()]);
    assert_eq!(reader.finish(), Vec::<u8>::new());
    assert_eq!(store.current_phase(), Phase::Idle);
    assert_eq!(store.resume(true), Err(CallError::NotParked));
}

#[test]
fn failed_write_makes_the_guest_give_up() {
    let mut store = seeded();
    store.call_add_strings(&strings(&["a", "b"])).unwrap();
    let pipe = store.push_output_stream(Stream::External).unwrap();
    assert_eq!(store.call_write_strings_to(pipe), Ok(Progress::Parked(b"a\n".to_vec())));
    assert_eq!(store.resume(false), Ok(Progress::Done(Err(()))));
    assert_eq!(store.current_phase(), Phase::Idle);
    assert_eq!(store.call_get_strings(), Ok(strings(&["a", "b"])));
}

#[test]
fn nothing_to_write_returns_at_once() {
    let mut store = seeded();
    let pipe = store.push_output_stream(Stream::External).unwrap();
    assert_eq!(store.call_write_strings_to(pipe), Ok(Progress::Done(Ok(()))));
}

#[test]
fn handle_must_name_an_output_stream() {
    let mut store = seeded();
    store.call_add_strings(&strings(&["a"])).unwrap();
    assert_eq!(
        store.call_write_strings_to(5).err(),
        Some(CallError::Table(HandleError::InvalidHandle))
    );
    assert_eq!(
        store.stream_contents(5),
        Err(CallError::Table(HandleError::InvalidHandle))
    );
    let pipe = store.push_output_stream(Stream::External).unwrap();
    assert_eq!(store.stream_contents(pipe), Err(CallError::Table(HandleError::TypeMismatch)));
    assert_eq!(store.current_phase(), Phase::Idle);
}

#[test]
fn calls_on_one_store_do_not_overlap() {
    let mut store = seeded();
    store.call_add_strings(&strings(&["a"])).unwrap();
    let pipe = store.push_output_stream(Stream::External).unwrap();
    assert!(matches!(store.call_write_strings_to(pipe), Ok(Progress::Parked(_))));
    assert_eq!(store.call_add_strings(&strings(&["b"])), Err(CallError::Busy));
    assert_eq!(store.call_get_strings(), Err(CallError::Busy));
    assert_eq!(store.call_write_strings_to(pipe).err(), Some(CallError::Busy));
    assert_eq!(store.resume(true), Ok(Progress::Done(Ok(()))));
    assert_eq!(store.call_get_strings(), Ok(strings(&["a"])));
}

#[test]
fn cancellation_releases_what_the_call_created() {
    let mut store = seeded();
    store.call_add_strings(&strings(&["a", "b"])).unwrap();
    let kept = store.push_output_stream(Stream::Memory(b"mine".to_vec())).unwrap();
    let pipe = store.push_output_stream(Stream::External).unwrap();
    assert_eq!(store.checkout(Stream::External), Err(CallError::NotParked));
    assert!(!store.cancel());
    assert!(matches!(store.call_write_strings_to(pipe), Ok(Progress::Parked(_))));
    let first = store.checkout(Stream::Memory(Vec::new())).unwrap();
    let second = store.checkout(Stream::External).unwrap();
    assert!(store.table().contains(first) && store.table().contains(second));
    assert!(store.cancel());
    assert_eq!(store.current_phase(), Phase::Aborted);
    assert!(!store.table().contains(first));
    assert!(!store.table().contains(second));
    assert!(store.table().contains(kept));
    assert!(store.table().contains(pipe));
    assert_eq!(store.stream_contents(kept), Ok(b"mine".to_vec()));
    assert_eq!(store.call_add_strings(&strings(&["c"])), Err(CallError::Aborted));
    assert_eq!(store.call_get_strings(), Err(CallError::Aborted));
    assert_eq!(store.resume(true), Err(CallError::NotParked));
    assert!(!store.cancel());
}

#[test]
fn return_releases_what_was_not_kept() {
    let mut store = seeded();
    store.call_add_strings(&strings(&["a"])).unwrap();
    let pipe = store.push_output_stream(Stream::External).unwrap();
    assert!(!store.keep(pipe));
    assert!(matches!(store.call_write_strings_to(pipe), Ok(Progress::Parked(_))));
    let passing = store.checkout(Stream::Memory(Vec::new())).unwrap();
    let lasting = store.checkout(Stream::Memory(b"stay".to_vec())).unwrap();
    assert!(store.keep(lasting));
    assert_eq!(store.resume(true), Ok(Progress::Done(Ok(()))));
    assert!(!store.table().contains(passing));
    assert_eq!(store.stream_contents(lasting), Ok(b"stay".to_vec()));
    assert_eq!(store.push_output_stream(Stream::External), Ok(passing));
}

#[test]
fn arguments_that_do_not_fit_leave_the_instance_usable() {
    let mut store = Store::new(Env::new(), 16);
    assert_eq!(
        store.call_add_strings(&strings(&["123456789"])),
        Err(CallError::Lower(LowerError::OutOfMemory))
    );
    assert_eq!(store.current_phase(), Phase::Idle);
    assert_eq!(store.call_add_strings(&strings(&["12345678"])), Ok(1));
    assert_eq!(store.call_get_strings(), Ok(strings(&["12345678"])));
}

#[test]
fn result_that_does_not_fit_poisons_the_instance() {
    let mut store = Store::new(Env::new(), 16);
    assert_eq!(store.call_add_strings(&strings(&["abcdefgh"])), Ok(1));
    assert_eq!(store.call_add_strings(&strings(&["ijklmnop"])), Ok(2));
    assert_eq!(store.call_get_strings(), Err(CallError::Lower(LowerError::OutOfMemory)));
    assert_eq!(store.current_phase(), Phase::Poisoned);
    assert_eq!(store.call_add_strings(&strings(&["x"])), Err(CallError::Poisoned));
    assert_eq!(store.call_get_strings(), Err(CallError::Poisoned));
    assert_eq!(store.call_write_strings_to(0).err(), Some(CallError::Poisoned));
}

#[test]
fn imported_record_comes_back_as_its_text() {
    let mut store = seeded();
    let stat = DescriptorStat {
        device: 0,
        inode: 0,
        type_: DescriptorType::Unknown,
        link_count: 0,
        size: 0,
        data_access_timestamp: Datetime { seconds: 45, nanoseconds: 123 },
        data_modification_timestamp: Datetime { seconds: 10, nanoseconds: 789 },
        status_change_timestamp: Datetime { seconds: 1, nanoseconds: 0 },
    };
    assert_eq!(
        store.call_pass_an_imported_record(&stat),
        Ok("DescriptorStat { device: 0, inode: 0, type: DescriptorType::Unknown, link-count: 0, \
            size: 0, data-access-timestamp: Datetime { seconds: 45, nanoseconds: 123 }, \
            data-modification-timestamp: Datetime { seconds: 10, nanoseconds: 789 }, \
            status-change-timestamp: Datetime { seconds: 1, nanoseconds: 0 } }"
            .to_string())
    );
    let mut small = Store::new(Env::new(), 8);
    assert_eq!(
        small.call_pass_an_imported_record(&stat),
        Err(CallError::Lower(LowerError::OutOfMemory))
    );
    assert_eq!(small.current_phase(), Phase::Poisoned);
}

#[test]
fn streams_get_dense_handles_and_the_handle_freed_last_first() {
    let mut store = seeded();
    store.call_add_strings(&strings(&["a"])).unwrap();
    assert_eq!(store.push_output_stream(Stream::Memory(Vec::new())), Ok(0));
    assert_eq!(store.push_output_stream(Stream::External), Ok(1));
    assert!(matches!(store.call_write_strings_to(1), Ok(Progress::Parked(_))));
    assert_eq!(store.checkout(Stream::External), Ok(2));
    assert_eq!(store.checkout(Stream::Memory(Vec::new())), Ok(3));
    assert_eq!(store.checkout(Stream::External), Ok(4));
    assert!(store.cancel());
    assert_eq!(store.push_output_stream(Stream::Memory(b"x".to_vec())), Ok(4));
    assert_eq!(store.push_output_stream(Stream::External), Ok(3));
    assert_eq!(store.push_output_stream(Stream::External), Ok(2));
    assert_eq!(store.push_output_stream(Stream::External), Ok(5));
    assert_eq!(store.stream_contents(4), Ok(b"x".to_vec()));
}

#[test]
fn checkout_outside_a_parked_call_changes_nothing() {
    let mut store = seeded();
    assert_eq!(store.checkout(Stream::External), Err(CallError::NotParked));
    assert_eq!(store.table().capacity_used(), 0);
    assert_eq!(store.push_output_stream(Stream::External), Ok(0));
    assert_eq!(store.checkout(Stream::External), Err(CallError::NotParked));
    assert_eq!(store.push_output_stream(Stream::External), Ok(1));
}

#[test]
fn table_of_a_store_lends_its_streams() {
    let mut store = seeded();
    let sink = store.push_output_stream(Stream::Memory(b"held".to_vec())).unwrap();
    let pipe = store.push_output_stream(Stream::External).unwrap();
    assert_eq!(store.table().borrow(sink, OUTPUT_STREAM), Ok(&Stream::Memory(b"held".to_vec())));
    assert_eq!(store.table().borrow(pipe, OUTPUT_STREAM), Ok(&Stream::External));
    assert_eq!(store.table().borrow(sink, OUTPUT_STREAM + 1), Err(HandleError::TypeMismatch));
    assert_eq!(store.table().borrow(7, OUTPUT_STREAM), Err(HandleError::InvalidHandle));
}

#[test]
fn memory_sink_gains_every_line_and_no_other_stream_is_touched() {
    let mut store = seeded();
    store.call_add_strings(&strings(&["one", "$POUTY_DOG", "three"])).unwrap();
    let other = store.push_output_stream(Stream::Memory(b"other".to_vec())).unwrap();
    let sink = store.push_output_stream(Stream::Memory(b"held:".to_vec())).unwrap();
    assert_eq!(store.call_write_strings_to(sink), Ok(Progress::Done(Ok(()))));
    assert_eq!(store.stream_contents(sink), Ok(b"held:one\nwilla\nthree\n".to_vec()));
    assert_eq!(store.stream_contents(other), Ok(b"other".to_vec()));
    assert_eq!(store.current_phase(), Phase::Idle);
}

#[test]
fn names_that_no_variable_can_have_are_undefined() {
    let mut env = Env::new();
    env.push_env("", "empty");
    env.push_env("A=B", "equals");
    env.push_env("N\0L", "nul");
    env.push_env("A", "plain");
    let mut store = Store::new(env, 1 << 16);
    assert_eq!(store.call_add_strings(&strings(&["$", "$A=B", "$N\0L", "$A"])), Ok(4));
    assert_eq!(
        store.call_get_strings(),
        Ok(strings(&["undefined", "undefined", "undefined", "plain"]))
    );
}
