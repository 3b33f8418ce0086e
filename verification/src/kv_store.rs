//! The store: an in-memory index that mirrors an append-only log.

use vstd::prelude::*;
use vstd::hash_map::StringHashMap;
use crate::log::{
    LogRecord, del_line, lemma_del_line_parses, lemma_set_line_parses, parse_record,
    replay_lines, set_line, valid_key, valid_value,
};

verus! {

/// The mapping a string-valued index denotes, with values as char sequences.
pub open spec fn map_view(m: Map<Seq<char>, String>) -> Map<Seq<char>, Seq<char>> {
    Map::new(|k: Seq<char>| m.dom().contains(k), |k: Seq<char>| m[k]@)
}

/// A key-value store rebuilt from, and kept consistent with, an
/// append-only log. The store holds only the in-memory side; the caller
/// appends each record line durably before committing it here, so the
/// ghost `log_view` tracks exactly the lines on disk.
pub struct KvStore {
    index: StringHashMap<String>,
    log: Ghost<Seq<Seq<char>>>,
}

impl View for KvStore {
    type V = Map<Seq<char>, Seq<char>>;

    closed spec fn view(&self) -> Map<Seq<char>, Seq<char>> {
        map_view(self.index@)
    }
}

impl KvStore {
    /// The log lines recorded so far, in append order.
    pub closed spec fn log_view(&self) -> Seq<Seq<char>> {
        self.log@
    }

    /// The store invariant: the in-memory mapping equals the replay of the
    /// recorded log lines.
    pub closed spec fn inv(&self) -> bool {
        self@ == replay_lines(self.log@)
    }

    /// Create a store over a fresh, empty log.
    pub fn new() -> (s: Self)
        ensures
            s.inv(),
            s@ == Map::<Seq<char>, Seq<char>>::empty(),
            s.log_view() == Seq::<Seq<char>>::empty(),
    {
        let s = KvStore { index: StringHashMap::new(), log: Ghost(Seq::empty()) };
        proof {
            assert(s@ =~= Map::<Seq<char>, Seq<char>>::empty());
        }
        s
    }

    /// Rebuild a store by replaying an existing log, line by line, in file
    /// order. This is how an opened store loads its state: a caller reads
    /// the log file into lines (a missing file reads as no lines) and
    /// hands them over unchanged.
    pub fn replay(lines: &Vec<String>) -> (s: Self)
        ensures
            s.inv(),
            s@ == replay_lines(lines.deep_view()),
            s.log_view() == lines.deep_view(),
    {
        let ghost dv = lines.deep_view();
        let mut index = StringHashMap::<String>::new();
        proof {
            assert(map_view(index@) =~= Map::<Seq<char>, Seq<char>>::empty());
            assert(dv.take(0) =~= Seq::<Seq<char>>::empty());
        }
        let n = lines.len();
        let mut i: usize = 0;
        while i < n
            invariant
                i <= n,
                n == lines.len(),
                dv == lines.deep_view(),
                map_view(index@) == replay_lines(dv.take(i as int)),
            decreases n - i,
        {
            let ghost prefix = dv.take(i as int);
            let line = &lines[i];
            let rec = parse_record(line.as_str());
            proof {
                assert(dv.take(i + 1).drop_last() =~= prefix);
                assert(dv.take(i + 1).last() == line@);
            }
            match rec {
                Some(LogRecord::Put { key, value }) => {
                    proof {
                        lemma_map_view_insert(index@, key@, value);
                    }
                    index.insert(key, value);
                }
                Some(LogRecord::Del { key }) => {
                    proof {
                        lemma_map_view_remove(index@, key@);
                    }
                    index.remove(key.as_str());
                }
                None => {},
            }
            i += 1;
        }
        proof {
            assert(dv.take(n as int) =~= dv);
        }
        KvStore { index, log: Ghost(dv) }
    }

    /// Look a key up in memory; no I/O is performed and no failure exists.
    pub fn get(&self, key: &str) -> (r: Option<&String>)
        ensures
            match r {
                Some(v) => self@.contains_key(key@) && v@ == self@[key@],
                None => !self@.contains_key(key@),
            },
    {
        self.index.get(key)
    }

    /// Commit a `SET` to memory, recording its log line. The caller has
    /// already appended exactly that line durably; on a failed append it
    /// does not call this, so memory and recorded log stay unchanged.
    pub fn set(&mut self, key: String, value: String)
        requires
            old(self).inv(),
            valid_key(key@),
            valid_value(value@),
        ensures
            final(self).inv(),
            final(self)@ == old(self)@.insert(key@, value@),
            final(self).log_view() == old(self).log_view().push(set_line(key@, value@)),
    {
        let ghost k = key@;
        let ghost v = value@;
        let ghost newlog = self.log@.push(set_line(k, v));
        proof {
            lemma_set_line_parses(k, v);
            assert(newlog.drop_last() =~= self.log@);
            lemma_map_view_insert(self.index@, k, value);
        }
        self.index.insert(key, value);
        self.log = Ghost(newlog);
    }

    /// Commit a `DEL` to memory, recording its log line; the line is
    /// appended, and so recorded, whether or not the key was present, and
    /// the result says whether it had been.
    pub fn delete(&mut self, key: &str) -> (was_present: bool)
        requires
            old(self).inv(),
            valid_key(key@),
        ensures
            final(self).inv(),
            final(self)@ == old(self)@.remove(key@),
            final(self).log_view() == old(self).log_view().push(del_line(key@)),
            was_present == old(self)@.contains_key(key@),
    {
        let ghost k = key@;
        let ghost newlog = self.log@.push(del_line(k));
        proof {
            lemma_del_line_parses(k);
            assert(newlog.drop_last() =~= self.log@);
            lemma_map_view_remove(self.index@, k);
        }
        let was_present = self.index.contains_key(key);
        self.index.remove(key);
        self.log = Ghost(newlog);
        was_present
    }
}

/// Inserting into an index inserts the value's view into its mapping.
proof fn lemma_map_view_insert(m: Map<Seq<char>, String>, k: Seq<char>, v: String)
    ensures
        map_view(m.insert(k, v)) == map_view(m).insert(k, v@),
{
    assert(map_view(m.insert(k, v)) =~= map_view(m).insert(k, v@));
}

/// Removing from an index removes the key from its mapping.
proof fn lemma_map_view_remove(m: Map<Seq<char>, String>, k: Seq<char>)
    ensures
        map_view(m.remove(k)) == map_view(m).remove(k),
{
    assert(map_view(m.remove(k)) =~= map_view(m).remove(k));
}

/// Durability across restart: replaying the log a store has recorded
/// yields exactly its in-memory mapping, so a store reopened from that log
/// serves the same values the closed one did.
pub proof fn lemma_replay_recovers(s: &KvStore)
    requires
        s.inv(),
    ensures
        replay_lines(s.log_view()) == s@,
{
}

} // verus!
