use test_reactor::framing::{split_frames, LineReader};

#[test]
fn reader_hands_out_a_frame_at_each_newline() {
    let mut reader = LineReader::new();
    let mut frames = Vec::new();
    for byte in b"hello\ngussie\n" {
        if let Some(frame) = reader.push(*byte) {
            frames.push(frame);
        }
    }
    assert_eq!(frames, vec![b"hello".to_vec(), b"gussie".to_vec()]);
    assert_eq!(reader.finish(), Vec::<u8>::new());
}

#[test]
fn reader_keeps_what_follows_the_last_newline() {
    let mut reader = LineReader::new();
    assert_eq!(reader.push(b'a'), None);
    assert_eq!(reader.push(b'\n'), Some(b"a".to_vec()));
    assert_eq!(reader.push(b'\n'), Some(Vec::new()));
    assert_eq!(reader.push(b'b'), None);
    assert_eq!(reader.push(b'c'), None);
    assert_eq!(reader.finish(), b"bc".to_vec());
}

#[test]
fn split_frames_of_a_whole_stream() {
    let (frames, rest) = split_frames(b"one\n\ntwo\nthr");
    assert_eq!(frames, vec![b"one".to_vec(), Vec::new(), b"two".to_vec()]);
    assert_eq!(rest, b"thr".to_vec());
    let (frames, rest) = split_frames(b"");
    assert!(frames.is_empty());
    assert!(rest.is_empty());
}
