use vstd::prelude::*;

use crate::fields::{byte_views, i64_of_text, parse_count, same_bytes, without_spaces};

verus! {

/// The destination tables of the store.
#[derive(Debug, Clone, Copy, PartialEq, Eq, Structural)]
pub enum Table {
    NeighborStats,
    RplStats,
    RplStatsDodag,
    RplStatsInstance,
    RplStatsParent,
    RplStatus,
    Stats,
    Udp,
    Output,
    Info,
    Server,
}

/// How one positional field is stored.
#[derive(Debug, Clone, Copy, PartialEq, Eq, Structural)]
pub enum FieldKind {
    Text,
    Integer,
}

/// Why one line yields no row. None of these stops the batch.
#[derive(Debug, Clone, Copy, PartialEq, Eq, Structural)]
pub enum LineError {
    /// The line lacks the fields of its envelope.
    BadEnvelope,
    /// The record has fewer fields than its table needs.
    TooFewFields,
    /// A field stored as an integer does not read as one.
    BadNumber,
    /// The timestamp could not be read.
    BadTimestamp,
    /// The record-type tag names no table.
    UnknownTag,
}

/// A column value ready to be bound.
#[derive(Debug, Clone, PartialEq, Eq)]
pub enum Value {
    Text(Vec<u8>),
    Integer(i64),
}

/// One row for one table: its timestamp, the node or host it came from, and
/// the remaining columns in the table's order.
#[derive(Debug, Clone, PartialEq, Eq)]
pub struct Row {
    pub table: Table,
    pub timestamp: Vec<u8>,
    pub source: Vec<u8>,
    pub values: Vec<Value>,
}

pub open spec fn tag_name(t: Table) -> Seq<u8> {
    match t {
        // neighbor_stats
        Table::NeighborStats => seq![110u8, 101, 105, 103, 104, 98, 111, 114, 95, 115, 116, 97, 116, 115],
        // rpl_stats
        Table::RplStats => seq![114u8, 112, 108, 95, 115, 116, 97, 116, 115],
        // rpl_stats_dodag
        Table::RplStatsDodag => seq![114u8, 112, 108, 95, 115, 116, 97, 116, 115, 95, 100, 111, 100, 97, 103],
        // rpl_stats_instance
        Table::RplStatsInstance => seq![114u8, 112, 108, 95, 115, 116, 97, 116, 115, 95, 105, 110, 115, 116, 97, 110, 99, 101],
        // rpl_stats_parent
        Table::RplStatsParent => seq![114u8, 112, 108, 95, 115, 116, 97, 116, 115, 95, 112, 97, 114, 101, 110, 116],
        // rpl_status
        Table::RplStatus => seq![114u8, 112, 108, 95, 115, 116, 97, 116, 117, 115],
        // stats
        Table::Stats => seq![115u8, 116, 97, 116, 115],
        // udp
        Table::Udp => seq![117u8, 100, 112],
        // output
        Table::Output => seq![111u8, 117, 116, 112, 117, 116],
        // info
        Table::Info => seq![105u8, 110, 102, 111],
        // server
        Table::Server => seq![115u8, 101, 114, 118, 101, 114],
    }
}

/// The table that a record-type tag of the serial stream routes to.
pub open spec fn data_table_of(tag: Seq<u8>) -> Option<Table> {
    if tag == tag_name(Table::NeighborStats) {
        Some(Table::NeighborStats)
    } else if tag == tag_name(Table::RplStats) {
        Some(Table::RplStats)
    } else if tag == tag_name(Table::RplStatsDodag) {
        Some(Table::RplStatsDodag)
    } else if tag == tag_name(Table::RplStatsInstance) {
        Some(Table::RplStatsInstance)
    } else if tag == tag_name(Table::RplStatsParent) {
        Some(Table::RplStatsParent)
    } else if tag == tag_name(Table::RplStatus) {
        Some(Table::RplStatus)
    } else if tag == tag_name(Table::Stats) {
        Some(Table::Stats)
    } else if tag == tag_name(Table::Udp) {
        Some(Table::Udp)
    } else {
        None
    }
}

/// The fields, after the tag, that a record of each tagged table carries.
pub open spec fn shape(t: Table) -> Seq<FieldKind> {
    let s = FieldKind::Text;
    let i = FieldKind::Integer;
    match t {
        Table::NeighborStats => seq![s, s, s, i, i, i, i, i],
        Table::RplStats => seq![s, s, i, i, i, i],
        Table::RplStatsDodag => seq![s, s, i, s, s, i, i, i, i, i],
        Table::RplStatsInstance => seq![s, s, s, s, s, s],
        Table::RplStatsParent => seq![s, s, s],
        Table::RplStatus => seq![s, s, s],
        Table::Stats => seq![i, s, i, i, i, i, i, i],
        Table::Udp => seq![s, s, s, s],
        Table::Output => seq![s],
        Table::Info => seq![s],
        Table::Server => seq![i, s],
    }
}

/// Whether field text `f` can be stored as kind `k`.
pub open spec fn field_ok(k: FieldKind, f: Seq<u8>) -> bool {
    match k {
        FieldKind::Text => true,
        FieldKind::Integer => i64_of_text(without_spaces(f)) is Some,
    }
}

/// `v` is what field text `f` is stored as, for kind `k`.
pub open spec fn value_is(k: FieldKind, f: Seq<u8>, v: Value) -> bool {
    match k {
        FieldKind::Text => v is Text && v->Text_0@ == f,
        FieldKind::Integer => v == Value::Integer(i64_of_text(without_spaces(f))->0),
    }
}

/// What reading the fields `fields[1..]` against `kinds` comes to.
pub open spec fn fields_outcome(kinds: Seq<FieldKind>, fields: Seq<Seq<u8>>) -> Result<(), LineError> {
    if fields.len() < kinds.len() + 1 {
        Err(LineError::TooFewFields)
    } else if forall|j: int| 0 <= j < kinds.len() ==> field_ok(kinds[j], #[trigger] fields[j + 1]) {
        Ok(())
    } else {
        Err(LineError::BadNumber)
    }
}

/// `vals` holds, in order, the values of `fields[1..]` read against `kinds`.
pub open spec fn values_match(kinds: Seq<FieldKind>, fields: Seq<Seq<u8>>, vals: Seq<Value>) -> bool {
    &&& vals.len() == kinds.len()
    &&& forall|j: int| 0 <= j < kinds.len() ==> value_is(kinds[j], fields[j + 1], #[trigger] vals[j])
}

/// Where a data record goes, or why it goes nowhere, given whether its
/// timestamp could be read.
pub open spec fn data_outcome(has_timestamp: bool, fields: Seq<Seq<u8>>) -> Result<Table, LineError> {
    if !has_timestamp {
        Err(LineError::BadTimestamp)
    } else if fields.len() == 0 || data_table_of(fields[0]) is None {
        Err(LineError::UnknownTag)
    } else {
        let t = data_table_of(fields[0])->0;
        match fields_outcome(shape(t), fields) {
            Ok(_) => Ok(t),
            Err(e) => Err(e),
        }
    }
}

/// The tag that a table's records carry.
pub fn tag_bytes(t: Table) -> (r: Vec<u8>)
    ensures
        r@ == tag_name(t),
{
    let v = match t {
        // neighbor_stats
        Table::NeighborStats => vec![110u8, 101, 105, 103, 104, 98, 111, 114, 95, 115, 116, 97, 116, 115],
        // rpl_stats
        Table::RplStats => vec![114u8, 112, 108, 95, 115, 116, 97, 116, 115],
        // rpl_stats_dodag
        Table::RplStatsDodag => vec![114u8, 112, 108, 95, 115, 116, 97, 116, 115, 95, 100, 111, 100, 97, 103],
        // rpl_stats_instance
        Table::RplStatsInstance => vec![114u8, 112, 108, 95, 115, 116, 97, 116, 115, 95, 105, 110, 115, 116, 97, 110, 99, 101],
        // rpl_stats_parent
        Table::RplStatsParent => vec![114u8, 112, 108, 95, 115, 116, 97, 116, 115, 95, 112, 97, 114, 101, 110, 116],
        // rpl_status
        Table::RplStatus => vec![114u8, 112, 108, 95, 115, 116, 97, 116, 117, 115],
        // stats
        Table::Stats => vec![115u8, 116, 97, 116, 115],
        // udp
        Table::Udp => vec![117u8, 100, 112],
        // output
        Table::Output => vec![111u8, 117, 116, 112, 117, 116],
        // info
        Table::Info => vec![105u8, 110, 102, 111],
        // server
        Table::Server => vec![115u8, 101, 114, 118, 101, 114],
    };
    assert(v@ =~= tag_name(t));
    v
}

/// Finds the table that a record-type tag routes to.
pub fn table_for_tag(tag: &[u8]) -> (r: Option<Table>)
    ensures
        r == data_table_of(tag@),
{
    if same_bytes(tag, tag_bytes(Table::NeighborStats).as_slice()) {
        Some(Table::NeighborStats)
    } else if same_bytes(tag, tag_bytes(Table::RplStats).as_slice()) {
        Some(Table::RplStats)
    } else if same_bytes(tag, tag_bytes(Table::RplStatsDodag).as_slice()) {
        Some(Table::RplStatsDodag)
    } else if same_bytes(tag, tag_bytes(Table::RplStatsInstance).as_slice()) {
        Some(Table::RplStatsInstance)
    } else if same_bytes(tag, tag_bytes(Table::RplStatsParent).as_slice()) {
        Some(Table::RplStatsParent)
    } else if same_bytes(tag, tag_bytes(Table::RplStatus).as_slice()) {
        Some(Table::RplStatus)
    } else if same_bytes(tag, tag_bytes(Table::Stats).as_slice()) {
        Some(Table::Stats)
    } else if same_bytes(tag, tag_bytes(Table::Udp).as_slice()) {
        Some(Table::Udp)
    } else {
        None
    }
}

/// The field shape of a table, as a list.
pub fn field_shape(t: Table) -> (r: Vec<FieldKind>)
    ensures
        r@ == shape(t),
{
    let s = FieldKind::Text;
    let i = FieldKind::Integer;
    let v = match t {
        Table::NeighborStats => vec![s, s, s, i, i, i, i, i],
        Table::RplStats => vec![s, s, i, i, i, i],
        Table::RplStatsDodag => vec![s, s, i, s, s, i, i, i, i, i],
        Table::RplStatsInstance => vec![s, s, s, s, s, s],
        Table::RplStatsParent => vec![s, s, s],
        Table::RplStatus => vec![s, s, s],
        Table::Stats => vec![i, s, i, i, i, i, i, i],
        Table::Udp => vec![s, s, s, s],
        Table::Output => vec![s],
        Table::Info => vec![s],
        Table::Server => vec![i, s],
    };
    assert(v@ =~= shape(t));
    v
}

/// Reads `fields[1..]` against `kinds`, one value per kind; fields beyond
/// those are ignored.
pub fn parse_fields(kinds: &Vec<FieldKind>, fields: &Vec<Vec<u8>>) -> (r: Result<Vec<Value>, LineError>)
    ensures
        match r {
            Ok(vals) => fields_outcome(kinds@, byte_views(fields@)) == Ok::<(), LineError>(())
                && values_match(kinds@, byte_views(fields@), vals@),
            Err(e) => fields_outcome(kinds@, byte_views(fields@)) == Err::<(), LineError>(e),
        },
{
    let ghost fv = byte_views(fields@);
    if fields.len() <= kinds.len() {
        return Err(LineError::TooFewFields);
    }
    let mut vals: Vec<Value> = Vec::new();
    let mut j: usize = 0;
    while j < kinds.len()
        invariant
            fv == byte_views(fields@),
            fields@.len() >= kinds@.len() + 1,
            j <= kinds@.len(),
            vals@.len() == j,
            forall|k: int| 0 <= k < j ==> field_ok(kinds@[k], #[trigger] fv[k + 1]),
            forall|k: int| 0 <= k < j ==> value_is(kinds@[k], fv[k + 1], #[trigger] vals@[k]),
        decreases kinds.len() - j,
    {
        let f = &fields[j + 1];
        assert(fv[j + 1] == f@);
        match kinds[j] {
            FieldKind::Text => {
                let c = f.clone();
                assert(c@ =~= f@);
                vals.push(Value::Text(c));
            },
            FieldKind::Integer => {
                match parse_count(f.as_slice()) {
                    Some(n) => vals.push(Value::Integer(n)),
                    None => {
                        assert(!field_ok(kinds@[j as int], fv[j + 1]));
                        return Err(LineError::BadNumber);
                    },
                }
            },
        }
        j += 1;
    }
    Ok(vals)
}

} // verus!
