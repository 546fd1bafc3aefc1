use testbed_ingest::records::{
    field_shape, parse_fields, table_for_tag, tag_bytes, FieldKind, LineError, Row, Table, Value,
};
use testbed_ingest::serial::{data_row, line_row, HeaderState, SerialIngest, SerialLine};

fn v(s: &str) -> Vec<u8> {
    s.as_bytes().to_vec()
}

fn fields(s: &str) -> Vec<Vec<u8>> {
    s.split(',').map(v).collect()
}

/// Runs a whole serial input through one pipeline and returns the stored rows
/// and the errors of the lines that were skipped. Data timestamps are taken as
/// already canonical.
fn ingest(chunks: &[&str]) -> (Vec<Row>, Vec<LineError>) {
    let mut p = SerialIngest::new();
    let mut classified = Vec::new();
    for c in chunks {
        classified.extend(p.push_chunk(c.as_bytes()));
    }
    classified.extend(p.finish());
    let mut rows = Vec::new();
    let mut errors = Vec::new();
    for line in classified {
        let stamp = match &line {
            SerialLine::Data { timestamp, .. } => Some(timestamp.clone()),
            _ => None,
        };
        match line_row(line, stamp) {
            Ok(Some(r)) => rows.push(r),
            Ok(None) => {}
            Err(e) => errors.push(e),
        }
    }
    (rows, errors)
}

#[test]
fn first_line_of_a_tag_is_a_header() {
    let mut h = HeaderState::new();
    let first = h.classify(b"t1;nodeA;stats,10,200,3,4,5,6,7,8");
    assert!(matches!(first, SerialLine::Header { ref node, ref tag } if node == b"nodeA" && tag == b"stats"));
    assert!(h.contains(b"nodeA", b"stats"));
    let second = h.classify(b"t2;nodeA;stats,11,210,3,4,5,6,7,8");
    match second {
        SerialLine::Data { timestamp, node, fields } => {
            assert_eq!(timestamp, v("t2"));
            assert_eq!(node, v("nodeA"));
            assert_eq!(fields[0], v("stats"));
            assert_eq!(fields.len(), 9);
        }
        other => panic!("expected data, got {:?}", other),
    }
}

#[test]
fn header_state_is_per_node() {
    let mut h = HeaderState::new();
    assert!(matches!(h.classify(b"t;a;udp,1,2,3,4"), SerialLine::Header { .. }));
    assert!(matches!(h.classify(b"t;b;udp,1,2,3,4"), SerialLine::Header { .. }));
    assert!(matches!(h.classify(b"t;a;udp,1,2,3,4"), SerialLine::Data { .. }));
    assert!(matches!(h.classify(b"t;a;stats,1"), SerialLine::Header { .. }));
}

#[test]
fn header_then_data_stores_one_row() {
    let (rows, errors) = ingest(&["t1;nodeA;stats,10,200,1,2,3,4,5,6\nt2;nodeA;stats,11,210,1,2,3,4,5,6\n"]);
    assert!(errors.is_empty());
    assert_eq!(rows.len(), 1);
    assert_eq!(rows[0].table, Table::Stats);
    assert_eq!(rows[0].timestamp, v("t2"));
    assert_eq!(rows[0].values[0], Value::Integer(11));
    assert_eq!(rows[0].values[1], Value::Text(v("210")));
}

#[test]
fn info_lines_are_always_stored() {
    let mut h = HeaderState::new();
    let a = h.classify(b"t1;n;info,booted");
    let b = h.classify(b"t2;n;info,ready");
    assert!(matches!(a, SerialLine::Info { ref message, .. } if message == b"info,booted"));
    assert!(matches!(b, SerialLine::Info { ref message, .. } if message == b"info,ready"));
    assert!(h.contains(b"n", b"info"));
    let (rows, _) = ingest(&["t1;n;info,booted\nt2;n;info,ready\n"]);
    assert_eq!(rows.len(), 2);
    assert!(rows.iter().all(|r| r.table == Table::Info));
    assert_eq!(rows[1].values, vec![Value::Text(v("info,ready"))]);
}

#[test]
fn bad_number_skips_only_its_line() {
    let input = "t;n;stats,1,2,3,4,5,6,7,8\nt;n;stats,abc,2,3,4,5,6,7,8\nt;n;stats,9,2,3,4,5,6,7,8\n";
    let (rows, errors) = ingest(&[input]);
    assert_eq!(errors, vec![LineError::BadNumber]);
    assert_eq!(rows.len(), 1);
    assert_eq!(rows[0].values[0], Value::Integer(9));
}

#[test]
fn end_to_end_header_data_unknown() {
    let (rows, errors) =
        ingest(&["t;n;stats,1,2,3,4,5,6,7,8\nt;n;stats,1,2,3,4,5,6,7,8\nt;n;unknowntag,x\n"]);
    let stats: Vec<&Row> = rows.iter().filter(|r| r.table == Table::Stats).collect();
    assert_eq!(stats.len(), 1);
    assert_eq!(rows.len(), 1);
    assert!(errors.is_empty());
    let mut h = HeaderState::new();
    h.classify(b"t;n;unknowntag,x");
    match h.classify(b"t;n;unknowntag,x") {
        SerialLine::Data { timestamp, node, fields } => {
            assert_eq!(data_row(Some(timestamp), node, &fields), Err(LineError::UnknownTag));
        }
        other => panic!("expected data, got {:?}", other),
    }
}

#[test]
fn chunking_gives_the_same_rows() {
    let input = "t;n;stats,1,2,3,4,5,6,7,8\nt;n;stats,1,2,3,4,5,6,7,8\nt;n;out put\nt;n;info,x\nt;m;udp,1,2,3,4\nt;m;udp,5,6,7,8";
    let whole = ingest(&[input]);
    for cut in 0..=input.len() {
        let (a, b) = input.split_at(cut);
        assert_eq!(ingest(&[a, b]), whole, "cut at {}", cut);
    }
    assert_eq!(whole.0.len(), 4);
    assert_eq!(whole.0[3].table, Table::Udp);
}

#[test]
fn output_lines_keep_their_text() {
    let (rows, _) = ingest(&["12.5;node7;Hello world\r\n"]);
    assert_eq!(
        rows,
        vec![Row {
            table: Table::Output,
            timestamp: v("12.5"),
            source: v("node7"),
            values: vec![Value::Text(v("Hello world"))],
        }]
    );
}

#[test]
fn short_envelope_is_malformed() {
    let mut h = HeaderState::new();
    let line = h.classify(b"no separators here");
    assert!(matches!(line, SerialLine::Malformed));
    assert_eq!(line_row(line, None), Err(LineError::BadEnvelope));
    assert!(matches!(h.classify(b""), SerialLine::Malformed));
}

#[test]
fn data_row_reports_each_error() {
    assert_eq!(data_row(None, v("n"), &fields("udp,1,2,3,4")), Err(LineError::BadTimestamp));
    assert_eq!(data_row(Some(v("t")), v("n"), &fields("nope,1")), Err(LineError::UnknownTag));
    assert_eq!(data_row(Some(v("t")), v("n"), &fields("udp,1,2,3")), Err(LineError::TooFewFields));
    assert_eq!(
        data_row(Some(v("t")), v("n"), &fields("rpl_stats,a,b,1,2,x,4")),
        Err(LineError::BadNumber)
    );
}

#[test]
fn data_row_reads_each_table() {
    let r = data_row(Some(v("ts")), v("n"), &fields("neighbor_stats,aa:bb,1,2,3,4,-70,255,1 200")).unwrap();
    assert_eq!(r.table, Table::NeighborStats);
    assert_eq!(r.values.len(), 8);
    assert_eq!(r.values[0], Value::Text(v("aa:bb")));
    assert_eq!(r.values[2], Value::Text(v("2")));
    assert_eq!(r.values[5], Value::Integer(-70));
    assert_eq!(r.values[7], Value::Integer(1200));
    let r = data_row(Some(v("ts")), v("n"), &fields("rpl_stats_dodag,0,fe80::1,256,root,p,1,2,3,4,5,extra")).unwrap();
    assert_eq!(r.table, Table::RplStatsDodag);
    assert_eq!(r.values.len(), 10);
    assert_eq!(r.values[2], Value::Integer(256));
    assert_eq!(r.values[9], Value::Integer(5));
    let r = data_row(Some(v("ts")), v("n"), &fields("rpl_stats_instance,a,b,c,d,e,f")).unwrap();
    assert_eq!(r.values.len(), 6);
    let r = data_row(Some(v("ts")), v("n"), &fields("rpl_stats_parent,0,fe80::2,512")).unwrap();
    assert_eq!(r.table, Table::RplStatsParent);
    let r = data_row(Some(v("ts")), v("n"), &fields("rpl_status,a,b,c")).unwrap();
    assert_eq!(r.table, Table::RplStatus);
    assert_eq!(r.source, v("n"));
    assert_eq!(r.timestamp, v("ts"));
}

#[test]
fn tags_route_to_tables() {
    for t in [
        Table::NeighborStats,
        Table::RplStats,
        Table::RplStatsDodag,
        Table::RplStatsInstance,
        Table::RplStatsParent,
        Table::RplStatus,
        Table::Stats,
        Table::Udp,
    ] {
        assert_eq!(table_for_tag(&tag_bytes(t)), Some(t));
    }
    assert_eq!(table_for_tag(b"info"), None);
    assert_eq!(table_for_tag(b"output"), None);
    assert_eq!(table_for_tag(b"Stats"), None);
    assert_eq!(tag_bytes(Table::RplStatsDodag), v("rpl_stats_dodag"));
}

#[test]
fn shapes_follow_the_columns() {
    let (I, T) = (FieldKind::Integer, FieldKind::Text);
    assert_eq!(field_shape(Table::Stats), vec![I, T, I, I, I, I, I, I]);
    assert_eq!(field_shape(Table::Udp), vec![T, T, T, T]);
    assert_eq!(parse_fields(&vec![T, I], &fields("x,a,2")), Ok(vec![Value::Text(v("a")), Value::Integer(2)]));
    assert_eq!(parse_fields(&vec![T, I], &fields("x,a")), Err(LineError::TooFewFields));
}

#[test]
fn finish_classifies_the_last_partial_line() {
    let mut p = SerialIngest::new();
    assert!(p.push_chunk(b"t;n;info,a\nt;n;info,b").len() == 1);
    let last = p.finish();
    assert_eq!(last.len(), 1);
    assert!(matches!(last[0], SerialLine::Info { ref message, .. } if message == b"info,b"));
    assert!(p.finish().is_empty());
}
