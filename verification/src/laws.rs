//! The guarantees that tie the writer, the log and the replayer together.

use vstd::prelude::*;
use crate::log::{
    Record, apply_record, del_line, lemma_del_line_parses, lemma_set_line_parses, parse_line,
    replay_lines, set_line, valid_key, valid_value,
};

verus! {

/// The line the writer appends for a record.
pub open spec fn line_of(r: Record) -> Seq<char> {
    match r {
        Record::Put { key, value } => set_line(key, value),
        Record::Del { key } => del_line(key),
    }
}

/// A record the log format represents faithfully.
pub open spec fn record_valid(r: Record) -> bool {
    match r {
        Record::Put { key, value } => valid_key(key) && valid_value(value),
        Record::Del { key } => valid_key(key),
    }
}

/// Folding a sequence of records directly, in order, from the empty
/// mapping: `SET` overwrites (last write wins), `DEL` removes (a no-op on
/// an absent key).
pub open spec fn fold_records(rs: Seq<Record>) -> Map<Seq<char>, Seq<char>>
    decreases rs.len(),
{
    if rs.len() == 0 {
        Map::empty()
    } else {
        apply_record(fold_records(rs.drop_last()), rs.last())
    }
}

/// Fold equivalence: for any finite sequence of faithful `SET`/`DEL`
/// records, replaying the log lines written for them rebuilds exactly the
/// mapping obtained by folding the records directly.
pub proof fn lemma_fold_equivalence(rs: Seq<Record>)
    requires
        forall|i: int| 0 <= i < rs.len() ==> record_valid(#[trigger] rs[i]),
    ensures
        replay_lines(rs.map_values(|r: Record| line_of(r))) == fold_records(rs),
    decreases rs.len(),
{
    let f = |r: Record| line_of(r);
    let lines = rs.map_values(f);
    if rs.len() == 0 {
        assert(lines =~= Seq::<Seq<char>>::empty());
    } else {
        let prefix = rs.drop_last();
        assert(forall|i: int| 0 <= i < prefix.len() ==> record_valid(#[trigger] prefix[i]));
        lemma_fold_equivalence(prefix);
        assert(lines.drop_last() =~= prefix.map_values(f));
        assert(lines.last() == f(rs.last()));
        assert(record_valid(rs[rs.len() - 1]));
        match rs.last() {
            Record::Put { key, value } => {
                lemma_set_line_parses(key, value);
            },
            Record::Del { key } => {
                lemma_del_line_parses(key);
            },
        }
    }
}

/// Session round-trip: a `SET` of a key immediately followed by a lookup
/// of the same key finds exactly the value that was set.
pub proof fn lemma_set_then_get(m: Map<Seq<char>, Seq<char>>, k: Seq<char>, v: Seq<char>)
    ensures
        m.insert(k, v).contains_key(k),
        m.insert(k, v)[k] == v,
{
}

/// Malformed-line tolerance: appending a line that denotes no record
/// leaves the replayed mapping exactly as it was.
pub proof fn lemma_malformed_line_ignored(lines: Seq<Seq<char>>, line: Seq<char>)
    requires
        parse_line(line) is None,
    ensures
        replay_lines(lines.push(line)) == replay_lines(lines),
{
    assert(lines.push(line).drop_last() =~= lines);
}

} // verus!
