use testbed_ingest::fields::{parse_count, parse_i64, same_bytes, split, strip_spaces};
use testbed_ingest::lines::LineBuffer;

fn feed(chunks: &[&[u8]]) -> (Vec<Vec<u8>>, Option<Vec<u8>>) {
    let mut buf = LineBuffer::new();
    let mut out = Vec::new();
    for c in chunks {
        out.extend(buf.push_chunk(c));
    }
    let last = buf.finish();
    (out, last)
}

#[test]
fn chunk_sizes_do_not_change_lines() {
    let input: &[u8] = b"t1;n1;stats,1\nt2;n1;hello\n\nt3;n2;udp,1,2,3,4\ntail";
    let whole = feed(&[input]);
    for cut in 0..=input.len() {
        let (a, b) = input.split_at(cut);
        assert_eq!(feed(&[a, b]), whole, "cut at {}", cut);
    }
    let bytes: Vec<&[u8]> = input.chunks(1).collect();
    assert_eq!(feed(&bytes), whole);
    assert_eq!(whole.0.len(), 4);
    assert_eq!(whole.0[2], b"".to_vec());
    assert_eq!(whole.1, Some(b"tail".to_vec()));
}

#[test]
fn chunk_ending_on_newline_keeps_nothing() {
    let mut buf = LineBuffer::new();
    let lines = buf.push_chunk(b"a;b;c\n");
    assert_eq!(lines, vec![b"a;b;c".to_vec()]);
    assert_eq!(buf.finish(), None);
}

#[test]
fn chunk_without_newline_yields_no_line() {
    let mut buf = LineBuffer::new();
    assert!(buf.push_chunk(b"partial").is_empty());
    assert!(buf.push_chunk(b" more").is_empty());
    assert_eq!(buf.push_chunk(b"\n"), vec![b"partial more".to_vec()]);
}

#[test]
fn empty_stream_has_no_lines() {
    assert_eq!(feed(&[]), (vec![], None));
    assert_eq!(feed(&[b""]), (vec![], None));
}

#[test]
fn split_keeps_empty_pieces() {
    assert_eq!(split(b"a,,b", b','), vec![b"a".to_vec(), b"".to_vec(), b"b".to_vec()]);
    assert_eq!(split(b"", b','), vec![b"".to_vec()]);
    assert_eq!(split(b"x;", b';'), vec![b"x".to_vec(), b"".to_vec()]);
}

#[test]
fn same_bytes_compares_contents() {
    assert!(same_bytes(b"stats", b"stats"));
    assert!(!same_bytes(b"stats", b"stat"));
    assert!(!same_bytes(b"abc", b"abd"));
}

#[test]
fn spaces_are_removed() {
    assert_eq!(strip_spaces(b" 1 234 567 "), b"1234567".to_vec());
}

#[test]
fn integers_read_in_range() {
    assert_eq!(parse_i64(b"42"), Some(42));
    assert_eq!(parse_i64(b"-7"), Some(-7));
    assert_eq!(parse_i64(b"+3"), Some(3));
    assert_eq!(parse_i64(b"007"), Some(7));
    assert_eq!(parse_i64(b"9223372036854775807"), Some(i64::MAX));
    assert_eq!(parse_i64(b"-9223372036854775808"), Some(i64::MIN));
    assert_eq!(parse_i64(b"9223372036854775808"), None);
    assert_eq!(parse_i64(b"-9223372036854775809"), None);
    assert_eq!(parse_i64(b"123456789012345678901234"), None);
}

#[test]
fn malformed_integers_are_rejected() {
    assert_eq!(parse_i64(b""), None);
    assert_eq!(parse_i64(b"-"), None);
    assert_eq!(parse_i64(b"+"), None);
    assert_eq!(parse_i64(b"abc"), None);
    assert_eq!(parse_i64(b"1 2"), None);
    assert_eq!(parse_i64(b"12x"), None);
    assert_eq!(parse_i64(b"--1"), None);
}

#[test]
fn counts_may_hold_group_spaces() {
    assert_eq!(parse_count(b"1 000 000"), Some(1_000_000));
    assert_eq!(parse_count(b" -12 "), Some(-12));
    assert_eq!(parse_count(b"   "), None);
}
