use testbed_ingest::records::{LineError, Table, Value};
use testbed_ingest::server::{process_server_line, server_row, ServerIngest};

fn v(s: &str) -> Vec<u8> {
    s.as_bytes().to_vec()
}

#[test]
fn server_header_row_is_dropped() {
    let mut p = ServerIngest::new();
    let first = p.push_chunk(b"timestamp,ipv6,port,payload\n2021-03-01 10:00:00.5,fe80::1,");
    assert!(first.is_empty());
    let second = p.push_chunk(b"8080,hi\n2021-03-01 10:00:01.5,fe80::2,1,x");
    assert_eq!(second, vec![v("2021-03-01 10:00:00.5,fe80::1,8080,hi")]);
    assert_eq!(p.finish(), vec![v("2021-03-01 10:00:01.5,fe80::2,1,x")]);
}

#[test]
fn server_rows_from_lines() {
    let r = server_row(b"2021-03-01 10:00:00.5,fe80::1,8080,hello", Some(v("canon"))).unwrap();
    assert_eq!(r.table, Table::Server);
    assert_eq!(r.timestamp, v("canon"));
    assert_eq!(r.source, v("fe80::1"));
    assert_eq!(r.values, vec![Value::Integer(8080), Value::Text(v("hello"))]);
    assert_eq!(server_row(b"a,b,c,d", None), Err(LineError::BadTimestamp));
    assert_eq!(server_row(b"a,b,c", Some(v("t"))), Err(LineError::BadEnvelope));
    assert_eq!(server_row(b"a,b,80 80,d", Some(v("t"))), Err(LineError::BadNumber));
}

#[test]
fn unreadable_server_timestamps_are_skipped() {
    let lines = [
        "2021-03-01 10:00:00.250,fe80::1,8080,first",
        "yesterday,fe80::1,8080,bad",
        "2021-03-01 10:00:02.000,fe80::1,8081,last",
    ];
    let results: Vec<_> = lines.iter().map(|l| process_server_line(l.as_bytes())).collect();
    assert_eq!(results[1], Err(LineError::BadTimestamp));
    let first = results[0].as_ref().unwrap();
    let last = results[2].as_ref().unwrap();
    assert_eq!(first.values[1], Value::Text(v("first")));
    assert_eq!(last.values[0], Value::Integer(8081));
    for row in [first, last] {
        let text = String::from_utf8(row.timestamp.clone()).unwrap();
        assert_eq!(text.len(), "2021-03-01 10:00:00.250000000".len(), "{}", text);
        assert_eq!(&text[4..5], "-");
        assert_eq!(&text[10..11], " ");
        assert_eq!(&text[19..20], ".");
    }
    assert!(String::from_utf8(first.timestamp.clone()).unwrap().ends_with(".250000000"));
}
