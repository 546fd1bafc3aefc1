use vstd::prelude::*;

use chrono::{NaiveDateTime, TimeZone};

use crate::fields::{byte_views, i64_of_text, parse_i64, split, split_bytes};
use crate::lines::{scan_from, LineBuffer};
use crate::records::{LineError, Row, Table, Value};
use crate::serial::{strip_cr, COMMA, CARRIAGE_RETURN};

verus! {

/// chrono's `NaiveDateTime`, carried unopened from parsing to local formatting.
#[verifier::external_type_specification]
#[verifier::external_body]
pub struct ExNaiveDateTime(NaiveDateTime);

/// Whether the server stream's timestamp pattern, `%Y-%m-%d %H:%M:%S%.f`,
/// reads `text`.
pub uninterp spec fn server_time_valid(text: Seq<u8>) -> bool;

/// Relies on chrono's `NaiveDateTime::parse_from_str` with the server stream's
/// pattern, after `std::str::from_utf8`: whether a date-time comes back depends
/// on the bytes alone.
#[verifier::external_body]
fn parse_server_time(text: &[u8]) -> (r: Option<NaiveDateTime>)
    ensures
        r is Some == server_time_valid(text@),
{
    match std::str::from_utf8(text) {
        Ok(s) => NaiveDateTime::parse_from_str(s, "%Y-%m-%d %H:%M:%S%.f").ok(),
        Err(_) => None,
    }
}

/// Relies on chrono's `Local::from_local_datetime`, keeping a single mapping,
/// written with `%Y-%m-%d %H:%M:%S.%f`. The result depends on the machine's time
/// zone: nothing is stated of it.
#[verifier::external_body]
fn local_time_text(t: &NaiveDateTime) -> (r: Option<Vec<u8>>) {
    match chrono::Local.from_local_datetime(t).single() {
        Some(d) => Some(d.format("%Y-%m-%d %H:%M:%S.%f").to_string().into_bytes()),
        None => None,
    }
}

/// The comma-separated fields of a server line: timestamp, address, port, payload.
pub open spec fn server_fields(line: Seq<u8>) -> Seq<Seq<u8>> {
    split_bytes(strip_cr(line), COMMA)
}

/// Whether a server line is stored, given whether its timestamp could be read,
/// and why not.
pub open spec fn server_outcome(has_timestamp: bool, line: Seq<u8>) -> Result<(), LineError> {
    let f = server_fields(line);
    if !has_timestamp {
        Err(LineError::BadTimestamp)
    } else if f.len() < 4 {
        Err(LineError::BadEnvelope)
    } else if i64_of_text(f[2]) is None {
        Err(LineError::BadNumber)
    } else {
        Ok(())
    }
}

/// `row` stores the server line `line` under the canonical timestamp `ts`.
pub open spec fn server_row_is(line: Seq<u8>, ts: Seq<u8>, row: Row) -> bool {
    let f = server_fields(line);
    &&& row.table == Table::Server
    &&& row.timestamp@ == ts
    &&& row.source@ == f[1]
    &&& row.values@.len() == 2
    &&& row.values@[0] == Value::Integer(i64_of_text(f[2])->0)
    &&& row.values@[1] is Text
    &&& row.values@[1]->Text_0@ == f[3]
}

/// The row for one server line. `timestamp` is the line's timestamp in
/// canonical form, or `None` where it could not be read.
pub fn server_row(line: &[u8], timestamp: Option<Vec<u8>>) -> (r: Result<Row, LineError>)
    ensures
        match r {
            Ok(row) => server_outcome(timestamp is Some, line@) == Ok::<(), LineError>(())
                && server_row_is(line@, timestamp->0@, row),
            Err(e) => server_outcome(timestamp is Some, line@) == Err::<(), LineError>(e),
        },
{
    let stamp = match timestamp {
        Some(t) => t,
        None => return Err(LineError::BadTimestamp),
    };
    let f = split_line(line);
    if f.len() < 4 {
        return Err(LineError::BadEnvelope);
    }
    let port = match parse_i64(f[2].as_slice()) {
        Some(p) => p,
        None => return Err(LineError::BadNumber),
    };
    let source = f[1].clone();
    let payload = f[3].clone();
    assert(source@ =~= f@[1]@);
    assert(payload@ =~= f@[3]@);
    Ok(Row { table: Table::Server, timestamp: stamp, source, values: vec![Value::Integer(port), Value::Text(payload)] })
}

/// The fields of a server line.
fn split_line(line: &[u8]) -> (r: Vec<Vec<u8>>)
    ensures
        byte_views(r@) == server_fields(line@),
{
    let n = line.len();
    let body: &[u8] = if n > 0 && line[n - 1] == CARRIAGE_RETURN {
        vstd::slice::slice_subrange(line, 0, n - 1)
    } else {
        line
    };
    assert(body@ == strip_cr(line@));
    split(body, COMMA)
}

/// Reads the timestamp of a server line in the local time zone, and makes
/// its row. A timestamp that the pattern rejects gives `BadTimestamp`; one that
/// it reads gives the row of `server_row` for the text that the time zone gave.
pub fn process_server_line(line: &[u8]) -> (r: Result<Row, LineError>)
    ensures
        !server_time_valid(server_fields(line@)[0]) ==> r == Err::<Row, LineError>(LineError::BadTimestamp),
        server_time_valid(server_fields(line@)[0]) ==> match r {
            Ok(row) => server_outcome(true, line@) == Ok::<(), LineError>(())
                && server_row_is(line@, row.timestamp@, row),
            Err(e) => e == LineError::BadTimestamp || server_outcome(true, line@) == Err::<(), LineError>(e),
        },
{
    let f = split_line(line);
    assert(f@.len() >= 1);
    assert(f@[0]@ == server_fields(line@)[0]);
    let stamp = match parse_server_time(f[0].as_slice()) {
        Some(t) => local_time_text(&t),
        None => None,
    };
    server_row(line, stamp)
}

/// Ingestion of the server stream: line reassembly, and the header row that
/// opens the stream, which is dropped.
pub struct ServerIngest {
    buffer: LineBuffer,
    header_pending: bool,
}

impl View for ServerIngest {
    type V = (Seq<u8>, bool);

    closed spec fn view(&self) -> (Seq<u8>, bool) {
        (self.buffer@, self.header_pending)
    }
}

/// The lines after the header is dropped, and whether it is still to come.
pub open spec fn after_header(pending: bool, ls: Seq<Seq<u8>>) -> (Seq<Seq<u8>>, bool) {
    if pending && ls.len() > 0 {
        (ls.drop_first(), false)
    } else {
        (ls, pending)
    }
}

impl ServerIngest {
    pub fn new() -> (r: ServerIngest)
        ensures
            r@ == (Seq::<u8>::empty(), true),
    {
        ServerIngest { buffer: LineBuffer::new(), header_pending: true }
    }

    fn drop_header(&mut self, lines: Vec<Vec<u8>>) -> (r: Vec<Vec<u8>>)
        ensures
            (byte_views(r@), final(self)@.1) == after_header(old(self)@.1, byte_views(lines@)),
            final(self)@.0 == old(self)@.0,
    {
        let mut lines = lines;
        if self.header_pending && lines.len() > 0 {
            let ghost before = byte_views(lines@);
            lines.remove(0);
            assert(byte_views(lines@) =~= before.drop_first());
            self.header_pending = false;
        }
        lines
    }

    /// Takes one chunk of the stream and returns the data lines it completes.
    pub fn push_chunk(&mut self, chunk: &[u8]) -> (r: Vec<Vec<u8>>)
        ensures
            ({
                let st = scan_from((Seq::empty(), old(self)@.0), chunk@);
                &&& final(self)@.0 == st.1
                &&& (byte_views(r@), final(self)@.1) == after_header(old(self)@.1, st.0)
            }),
    {
        let lines = self.buffer.push_chunk(chunk);
        self.drop_header(lines)
    }

    /// At the end of the stream: the partial line left, if any, unless it is the header.
    pub fn finish(&mut self) -> (r: Vec<Vec<u8>>)
        ensures
            final(self)@.0 == Seq::<u8>::empty(),
            old(self)@.0.len() == 0 ==> r@.len() == 0,
            old(self)@.0.len() > 0 ==> (byte_views(r@), final(self)@.1) == after_header(
                old(self)@.1,
                seq![old(self)@.0],
            ),
    {
        let mut lines: Vec<Vec<u8>> = Vec::new();
        match self.buffer.finish() {
            Some(last) => lines.push(last),
            None => {},
        }
        assert(old(self)@.0.len() > 0 ==> byte_views(lines@) =~= seq![old(self)@.0]);
        self.drop_header(lines)
    }
}

} // verus!
