use vstd::prelude::*;

use crate::fields::{byte_views, same_bytes, split, split_bytes};
use crate::lines::{scan_from, LineBuffer};
use crate::records::{
    data_outcome, field_shape, parse_fields, shape, table_for_tag, tag_bytes,
    tag_name, values_match, LineError, Row, Table, Value,
};

verus! {

pub const SEMICOLON: u8 = 59;

pub const COMMA: u8 = 44;

pub const CARRIAGE_RETURN: u8 = 13;

/// A node and a record-type tag.
pub type HeaderKey = (Seq<u8>, Seq<u8>);

/// A line without the carriage return that may end it.
pub open spec fn strip_cr(l: Seq<u8>) -> Seq<u8> {
    if l.len() > 0 && l.last() == CARRIAGE_RETURN {
        l.drop_last()
    } else {
        l
    }
}

/// The envelope of a serial line: timestamp, node, payload, and anything after.
pub open spec fn envelope(l: Seq<u8>) -> Seq<Seq<u8>> {
    split_bytes(strip_cr(l), SEMICOLON)
}

/// The comma-separated fields of a line's payload; the first is the tag.
pub open spec fn payload_fields(l: Seq<u8>) -> Seq<Seq<u8>> {
    split_bytes(envelope(l)[2], COMMA)
}

/// The (node, tag) pair of a line that carries a tagged record.
pub open spec fn line_key(l: Seq<u8>) -> Option<HeaderKey> {
    if envelope(l).len() >= 3 && payload_fields(l).len() > 1 {
        Some((envelope(l)[1], payload_fields(l)[0]))
    } else {
        None
    }
}

/// What one serial line is.
#[derive(Debug)]
pub enum SerialLine {
    /// Fewer than three envelope fields.
    Malformed,
    /// Free-form output of the node: its payload holds no comma.
    Output { timestamp: Vec<u8>, node: Vec<u8>, text: Vec<u8> },
    /// A message of the `info` tag; the whole payload is kept.
    Info { timestamp: Vec<u8>, node: Vec<u8>, message: Vec<u8> },
    /// The first line of its (node, tag): it declares columns and is not stored.
    Header { node: Vec<u8>, tag: Vec<u8> },
    /// A record of a (node, tag) whose header was seen; `fields[0]` is the tag.
    Data { timestamp: Vec<u8>, node: Vec<u8>, fields: Vec<Vec<u8>> },
}

/// `r` is what `line` is, when the pairs in `seen` have had their header.
pub open spec fn classified(seen: Set<HeaderKey>, line: Seq<u8>, r: SerialLine) -> bool {
    let env = envelope(line);
    if env.len() < 3 {
        r is Malformed
    } else {
        let p = payload_fields(line);
        if p.len() == 1 {
            &&& r is Output
            &&& r->Output_timestamp@ == env[0]
            &&& r->Output_node@ == env[1]
            &&& r->Output_text@ == env[2]
        } else if p[0] == tag_name(Table::Info) {
            &&& r is Info
            &&& r->Info_timestamp@ == env[0]
            &&& r->Info_node@ == env[1]
            &&& r->Info_message@ == env[2]
        } else if seen.contains((env[1], p[0])) {
            &&& r is Data
            &&& r->Data_timestamp@ == env[0]
            &&& r->Data_node@ == env[1]
            &&& byte_views(r->Data_fields@) == p
        } else {
            &&& r is Header
            &&& r->Header_node@ == env[1]
            &&& r->Header_tag@ == p[0]
        }
    }
}

/// The pairs that have had their header once `line` is read.
pub open spec fn seen_after(seen: Set<HeaderKey>, line: Seq<u8>) -> Set<HeaderKey> {
    match line_key(line) {
        Some(k) => seen.insert(k),
        None => seen,
    }
}

/// The pairs that have had their header once all of `ls` is read.
pub open spec fn seen_after_all(seen: Set<HeaderKey>, ls: Seq<Seq<u8>>) -> Set<HeaderKey>
    decreases ls.len(),
{
    if ls.len() == 0 {
        seen
    } else {
        seen_after(seen_after_all(seen, ls.drop_last()), ls.last())
    }
}

/// `rs` classifies the lines `ls` one after the other, from the state `seen`.
pub open spec fn classified_all(seen: Set<HeaderKey>, ls: Seq<Seq<u8>>, rs: Seq<SerialLine>) -> bool {
    &&& rs.len() == ls.len()
    &&& forall|i: int|
        0 <= i < ls.len() ==> classified(seen_after_all(seen, ls.take(i)), ls[i], #[trigger] rs[i])
}

/// Reading `a` then `b` is reading `a + b`.
pub proof fn lemma_seen_after_append(seen: Set<HeaderKey>, a: Seq<Seq<u8>>, b: Seq<Seq<u8>>)
    ensures
        seen_after_all(seen, a + b) == seen_after_all(seen_after_all(seen, a), b),
    decreases b.len(),
{
    if b.len() == 0 {
        assert(a + b =~= a);
    } else {
        assert((a + b).drop_last() =~= a + b.drop_last());
        assert((a + b).last() == b.last());
        lemma_seen_after_append(seen, a, b.drop_last());
    }
}

/// Classifying the lines of one chunk, then those of the next from the state
/// the first left, classifies all of them as one run: where the input is cut
/// changes nothing.
pub proof fn lemma_classified_append(
    seen: Set<HeaderKey>,
    a: Seq<Seq<u8>>,
    ra: Seq<SerialLine>,
    b: Seq<Seq<u8>>,
    rb: Seq<SerialLine>,
)
    requires
        classified_all(seen, a, ra),
        classified_all(seen_after_all(seen, a), b, rb),
    ensures
        classified_all(seen, a + b, ra + rb),
        seen_after_all(seen, a + b) == seen_after_all(seen_after_all(seen, a), b),
{
    lemma_seen_after_append(seen, a, b);
    let ab = a + b;
    let rab = ra + rb;
    assert forall|i: int| 0 <= i < ab.len() implies classified(
        seen_after_all(seen, ab.take(i)),
        ab[i],
        #[trigger] rab[i],
    ) by {
        if i < a.len() {
            assert(ab.take(i) =~= a.take(i));
            assert(classified(seen_after_all(seen, a.take(i)), a[i], ra[i]));
        } else {
            let k = i - a.len();
            assert(ab.take(i) =~= a + b.take(k));
            lemma_seen_after_append(seen, a, b.take(k));
            assert(classified(seen_after_all(seen_after_all(seen, a), b.take(k)), b[k], rb[k]));
        }
    }
}

/// A pair has had its header after `ls` exactly when it had before, or some
/// line of `ls` carries it.
pub proof fn lemma_seen_after_all(seen: Set<HeaderKey>, ls: Seq<Seq<u8>>, k: HeaderKey)
    ensures
        seen_after_all(seen, ls).contains(k) <==> (seen.contains(k) || exists|j: int|
            0 <= j < ls.len() && line_key(#[trigger] ls[j]) == Some(k)),
    decreases ls.len(),
{
    if ls.len() > 0 {
        let front = ls.drop_last();
        lemma_seen_after_all(seen, front, k);
        if exists|j: int| 0 <= j < front.len() && line_key(#[trigger] front[j]) == Some(k) {
            let j = choose|j: int| 0 <= j < front.len() && line_key(#[trigger] front[j]) == Some(k);
            assert(ls[j] == front[j]);
        }
        if exists|j: int| 0 <= j < ls.len() && line_key(#[trigger] ls[j]) == Some(k) {
            let j = choose|j: int| 0 <= j < ls.len() && line_key(#[trigger] ls[j]) == Some(k);
            if j < front.len() {
                assert(front[j] == ls[j]);
            }
        }
    }
}

/// Over a run that starts with no header seen, a line with a tag other than
/// `info` is its (node, tag)'s header when no earlier line carries that pair,
/// and a data row otherwise.
pub proof fn lemma_first_line_is_header(ls: Seq<Seq<u8>>, rs: Seq<SerialLine>, i: int)
    requires
        classified_all(Set::empty(), ls, rs),
        0 <= i < ls.len(),
        line_key(ls[i]) is Some,
        (line_key(ls[i])->0).1 != tag_name(Table::Info),
    ensures
        rs[i] is Header <==> !(exists|j: int| 0 <= j < i && line_key(#[trigger] ls[j]) == line_key(ls[i])),
        rs[i] is Data <==> (exists|j: int| 0 <= j < i && line_key(#[trigger] ls[j]) == line_key(ls[i])),
{
    let k = line_key(ls[i])->0;
    let front = ls.take(i);
    lemma_seen_after_all(Set::empty(), front, k);
    assert(classified(seen_after_all(Set::empty(), front), ls[i], rs[i]));
    if exists|j: int| 0 <= j < i && line_key(#[trigger] ls[j]) == line_key(ls[i]) {
        let j = choose|j: int| 0 <= j < i && line_key(#[trigger] ls[j]) == line_key(ls[i]);
        assert(front[j] == ls[j]);
    }
    if exists|j: int| 0 <= j < front.len() && line_key(#[trigger] front[j]) == Some(k) {
        let j = choose|j: int| 0 <= j < front.len() && line_key(#[trigger] front[j]) == Some(k);
        assert(front[j] == ls[j]);
    }
}

/// A line of the `info` tag is stored whatever came before it.
pub proof fn lemma_info_always_stored(
    seen: Set<HeaderKey>,
    ls: Seq<Seq<u8>>,
    rs: Seq<SerialLine>,
    i: int,
)
    requires
        classified_all(seen, ls, rs),
        0 <= i < ls.len(),
        line_key(ls[i]) is Some,
        (line_key(ls[i])->0).1 == tag_name(Table::Info),
    ensures
        rs[i] is Info,
{
    assert(classified(seen_after_all(seen, ls.take(i)), ls[i], rs[i]));
}

/// A data line, whether its fields then read or not, leaves the header state
/// as it was: every later line is classified as it would be without it.
pub proof fn lemma_data_line_keeps_state(
    seen: Set<HeaderKey>,
    ls: Seq<Seq<u8>>,
    rs: Seq<SerialLine>,
    i: int,
    j: int,
)
    requires
        classified_all(seen, ls, rs),
        0 <= i < j <= ls.len(),
        rs[i] is Data,
    ensures
        seen_after_all(seen, ls.take(j)) == seen_after_all(seen, ls.take(i) + ls.subrange(i + 1, j)),
    decreases j - i,
{
    if j == i + 1 {
        let before = seen_after_all(seen, ls.take(i));
        assert(classified(before, ls[i], rs[i]));
        assert(ls.take(i + 1).drop_last() =~= ls.take(i));
        assert(ls.take(i) + ls.subrange(i + 1, i + 1) =~= ls.take(i));
        assert(before.insert(line_key(ls[i])->0) =~= before);
    } else {
        lemma_data_line_keeps_state(seen, ls, rs, i, j - 1);
        let without = ls.take(i) + ls.subrange(i + 1, j);
        assert(ls.take(j).drop_last() =~= ls.take(j - 1));
        assert(without.drop_last() =~= ls.take(i) + ls.subrange(i + 1, j - 1));
        assert(without.last() == ls[j - 1]);
    }
}

/// The (node, tag) pairs whose header has been seen.
pub struct HeaderState {
    seen: Vec<(Vec<u8>, Vec<u8>)>,
}

pub open spec fn key_views(v: Seq<(Vec<u8>, Vec<u8>)>) -> Seq<HeaderKey> {
    v.map_values(|p: (Vec<u8>, Vec<u8>)| (p.0@, p.1@))
}

impl View for HeaderState {
    type V = Set<HeaderKey>;

    closed spec fn view(&self) -> Set<HeaderKey> {
        Set::new(|k: HeaderKey| key_views(self.seen@).contains(k))
    }
}

impl HeaderState {
    pub fn new() -> (r: HeaderState)
        ensures
            r@ == Set::<HeaderKey>::empty(),
    {
        let r = HeaderState { seen: Vec::new() };
        assert(r@ =~= Set::<HeaderKey>::empty());
        r
    }

    pub fn contains(&self, node: &[u8], tag: &[u8]) -> (r: bool)
        ensures
            r == self@.contains((node@, tag@)),
    {
        let ghost keys = key_views(self.seen@);
        let mut i: usize = 0;
        while i < self.seen.len()
            invariant
                keys == key_views(self.seen@),
                i <= self.seen@.len(),
                forall|j: int| 0 <= j < i ==> keys[j] != (node@, tag@),
            decreases self.seen.len() - i,
        {
            let entry = &self.seen[i];
            if same_bytes(entry.0.as_slice(), node) && same_bytes(entry.1.as_slice(), tag) {
                assert(keys[i as int] == (node@, tag@));
                return true;
            }
            i += 1;
        }
        assert(!keys.contains((node@, tag@)));
        false
    }

    pub fn insert(&mut self, node: Vec<u8>, tag: Vec<u8>)
        ensures
            final(self)@ == old(self)@.insert((node@, tag@)),
    {
        let ghost key = (node@, tag@);
        let ghost before = key_views(self.seen@);
        self.seen.push((node, tag));
        let ghost after = key_views(self.seen@);
        proof {
            assert(after =~= before.push(key));
            assert forall|k: HeaderKey| after.contains(k) <==> before.contains(k) || k == key by {
                if before.contains(k) {
                    let j = choose|j: int| 0 <= j < before.len() && before[j] == k;
                    assert(after[j] == k);
                }
                if k == key {
                    assert(after[before.len() as int] == k);
                }
                if after.contains(k) {
                    let j = choose|j: int| 0 <= j < after.len() && after[j] == k;
                    if j < before.len() {
                        assert(before[j] == k);
                    }
                }
            }
        }
        assert(self@ =~= old(self)@.insert(key));
    }

    /// Classifies one line and records its (node, tag) pair as seen.
    pub fn classify(&mut self, line: &[u8]) -> (r: SerialLine)
        ensures
            classified(old(self)@, line@, r),
            final(self)@ == seen_after(old(self)@, line@),
    {
        let n = line.len();
        let body: &[u8] = if n > 0 && line[n - 1] == CARRIAGE_RETURN {
            vstd::slice::slice_subrange(line, 0, n - 1)
        } else {
            line
        };
        assert(body@ == strip_cr(line@));
        let env = split(body, SEMICOLON);
        assert(byte_views(env@) == envelope(line@));
        if env.len() < 3 {
            return SerialLine::Malformed;
        }
        assert(env@[1]@ == envelope(line@)[1]);
        assert(env@[2]@ == envelope(line@)[2]);
        let payload = split(env[2].as_slice(), COMMA);
        assert(byte_views(payload@) == payload_fields(line@));
        let timestamp = env[0].clone();
        let node = env[1].clone();
        let text = env[2].clone();
        assert(timestamp@ =~= env@[0]@);
        assert(node@ =~= env@[1]@);
        assert(text@ =~= env@[2]@);
        if payload.len() == 1 {
            return SerialLine::Output { timestamp, node, text };
        }
        let tag = payload[0].clone();
        assert(tag@ =~= payload@[0]@);
        assert(payload@[0]@ == payload_fields(line@)[0]);
        let info = tag_bytes(Table::Info);
        if same_bytes(tag.as_slice(), info.as_slice()) {
            self.insert(node.clone(), tag);
            return SerialLine::Info { timestamp, node, message: text };
        }
        if self.contains(node.as_slice(), tag.as_slice()) {
            assert(old(self)@.insert((node@, tag@)) =~= old(self)@);
            SerialLine::Data { timestamp, node, fields: payload }
        } else {
            let node_key = node.clone();
            let tag_key = tag.clone();
            assert(node_key@ =~= node@);
            assert(tag_key@ =~= tag@);
            self.insert(node_key, tag_key);
            SerialLine::Header { node, tag }
        }
    }
}

/// Sorts the lines `lines` in order, each against the pairs seen before it.
fn classify_lines(headers: &mut HeaderState, lines: &Vec<Vec<u8>>) -> (r: Vec<SerialLine>)
    ensures
        classified_all(old(headers)@, byte_views(lines@), r@),
        final(headers)@ == seen_after_all(old(headers)@, byte_views(lines@)),
{
    let ghost s0 = headers@;
    let ghost lv = byte_views(lines@);
    let mut out: Vec<SerialLine> = Vec::new();
    let mut i: usize = 0;
    while i < lines.len()
        invariant
            s0 == old(headers)@,
            lv == byte_views(lines@),
            i <= lines@.len(),
            out@.len() == i,
            forall|k: int| 0 <= k < i ==> classified(seen_after_all(s0, lv.take(k)), lv[k], #[trigger] out@[k]),
            headers@ == seen_after_all(s0, lv.take(i as int)),
        decreases lines.len() - i,
    {
        assert(lv.take(i + 1).drop_last() =~= lv.take(i as int));
        assert(lv[i as int] == lines@[i as int]@);
        let r = headers.classify(lines[i].as_slice());
        out.push(r);
        i += 1;
    }
    assert(lv.take(lines@.len() as int) =~= lv);
    out
}

/// Routes a data record to its table and reads its fields. `timestamp` is the
/// record's timestamp in canonical form, or `None` where it could not be read.
pub fn data_row(timestamp: Option<Vec<u8>>, node: Vec<u8>, fields: &Vec<Vec<u8>>) -> (r: Result<Row, LineError>)
    ensures
        match r {
            Ok(row) => {
                &&& data_outcome(timestamp is Some, byte_views(fields@)) == Ok::<Table, LineError>(row.table)
                &&& row.timestamp@ == timestamp->0@
                &&& row.source@ == node@
                &&& values_match(shape(row.table), byte_views(fields@), row.values@)
            },
            Err(e) => data_outcome(timestamp is Some, byte_views(fields@)) == Err::<Table, LineError>(e),
        },
{
    let stamp = match timestamp {
        Some(t) => t,
        None => return Err(LineError::BadTimestamp),
    };
    if fields.len() == 0 {
        return Err(LineError::UnknownTag);
    }
    assert(byte_views(fields@)[0] == fields@[0]@);
    let table = match table_for_tag(fields[0].as_slice()) {
        Some(t) => t,
        None => return Err(LineError::UnknownTag),
    };
    let kinds = field_shape(table);
    match parse_fields(&kinds, fields) {
        Ok(values) => Ok(Row { table, timestamp: stamp, source: node, values }),
        Err(e) => Err(e),
    }
}

/// The row that a classified line is stored as, if any. `timestamp` is only
/// read for data records: their timestamp in canonical form, or `None` where it
/// could not be read. Output and info lines keep their timestamp as written.
pub fn line_row(line: SerialLine, timestamp: Option<Vec<u8>>) -> (r: Result<Option<Row>, LineError>)
    ensures
        match line {
            SerialLine::Malformed => r == Err::<Option<Row>, LineError>(LineError::BadEnvelope),
            SerialLine::Header { .. } => r == Ok::<Option<Row>, LineError>(None),
            SerialLine::Output { timestamp: ts, node, text } => r is Ok && r->Ok_0 is Some && ({
                let row = r->Ok_0->0;
                &&& row.table == Table::Output
                &&& row.timestamp@ == ts@
                &&& row.source@ == node@
                &&& row.values@.len() == 1
                &&& row.values@[0] is Text && row.values@[0]->Text_0@ == text@
            }),
            SerialLine::Info { timestamp: ts, node, message } => r is Ok && r->Ok_0 is Some && ({
                let row = r->Ok_0->0;
                &&& row.table == Table::Info
                &&& row.timestamp@ == ts@
                &&& row.source@ == node@
                &&& row.values@.len() == 1
                &&& row.values@[0] is Text && row.values@[0]->Text_0@ == message@
            }),
            SerialLine::Data { node, fields, .. } => match r {
                Ok(Some(row)) => {
                    &&& data_outcome(timestamp is Some, byte_views(fields@)) == Ok::<Table, LineError>(row.table)
                    &&& row.timestamp@ == timestamp->0@
                    &&& row.source@ == node@
                    &&& values_match(shape(row.table), byte_views(fields@), row.values@)
                },
                Ok(None) => false,
                Err(e) => data_outcome(timestamp is Some, byte_views(fields@)) == Err::<Table, LineError>(e),
            },
        },
{
    match line {
        SerialLine::Malformed => Err(LineError::BadEnvelope),
        SerialLine::Header { .. } => Ok(None),
        SerialLine::Output { timestamp: ts, node, text } => {
            Ok(Some(Row { table: Table::Output, timestamp: ts, source: node, values: vec![Value::Text(text)] }))
        },
        SerialLine::Info { timestamp: ts, node, message } => {
            Ok(Some(Row { table: Table::Info, timestamp: ts, source: node, values: vec![Value::Text(message)] }))
        },
        SerialLine::Data { node, fields, .. } => match data_row(timestamp, node, &fields) {
            Ok(row) => Ok(Some(row)),
            Err(e) => Err(e),
        },
    }
}

/// Ingestion of the serial stream: line reassembly and the header state of
/// one run.
pub struct SerialIngest {
    buffer: LineBuffer,
    headers: HeaderState,
}

impl View for SerialIngest {
    type V = (Seq<u8>, Set<HeaderKey>);

    closed spec fn view(&self) -> (Seq<u8>, Set<HeaderKey>) {
        (self.buffer@, self.headers@)
    }
}

impl SerialIngest {
    pub fn new() -> (r: SerialIngest)
        ensures
            r@ == (Seq::<u8>::empty(), Set::<HeaderKey>::empty()),
    {
        SerialIngest { buffer: LineBuffer::new(), headers: HeaderState::new() }
    }

    /// Takes one chunk of the stream and classifies, in order, the lines it completes.
    pub fn push_chunk(&mut self, chunk: &[u8]) -> (r: Vec<SerialLine>)
        ensures
            ({
                let st = scan_from((Seq::empty(), old(self)@.0), chunk@);
                &&& final(self)@.0 == st.1
                &&& classified_all(old(self)@.1, st.0, r@)
                &&& final(self)@.1 == seen_after_all(old(self)@.1, st.0)
            }),
    {
        let lines = self.buffer.push_chunk(chunk);
        classify_lines(&mut self.headers, &lines)
    }

    /// At the end of the stream: classifies the partial line left, if any.
    pub fn finish(&mut self) -> (r: Vec<SerialLine>)
        ensures
            final(self)@.0 == Seq::<u8>::empty(),
            old(self)@.0.len() == 0 ==> r@.len() == 0 && final(self)@.1 == old(self)@.1,
            old(self)@.0.len() > 0 ==> classified_all(old(self)@.1, seq![old(self)@.0], r@)
                && final(self)@.1 == seen_after_all(old(self)@.1, seq![old(self)@.0]),
    {
        let mut lines: Vec<Vec<u8>> = Vec::new();
        match self.buffer.finish() {
            Some(last) => lines.push(last),
            None => {},
        }
        assert(old(self)@.0.len() > 0 ==> byte_views(lines@) =~= seq![old(self)@.0]);
        assert(old(self)@.0.len() == 0 ==> byte_views(lines@) =~= Seq::<Seq<u8>>::empty());
        classify_lines(&mut self.headers, &lines)
    }
}

} // verus!
