//! The log record format and its replay semantics.
//!
//! A log is a sequence of text lines. A well-formed line is either
//! `SET key value` (three fields) or `DEL key` (two fields), where fields
//! are separated by single spaces and outer whitespace is stripped first.
//! Any other line is skipped on replay.

use vstd::prelude::*;

verus! {

/// One logged mutation, as a parsed line denotes it.
pub ghost enum Record {
    Put { key: Seq<char>, value: Seq<char> },
    Del { key: Seq<char> },
}

/// The characters stripped from the ends of a line before it is split.
pub open spec fn is_ws(c: char) -> bool {
    c == ' ' || c == '\t' || c == '\r' || c == '\n'
}

/// First index in `[from, end)` holding a space, or `end` if there is none.
pub open spec fn find_space(s: Seq<char>, from: int, end: int) -> int
    decreases end - from,
{
    if from < 0 || from >= end {
        end
    } else if s[from] == ' ' {
        from
    } else {
        find_space(s, from + 1, end)
    }
}

/// First index in `[from, end)` holding a non-whitespace character, or `end`.
pub open spec fn skip_ws(s: Seq<char>, from: int, end: int) -> int
    decreases end - from,
{
    if from < 0 || from >= end {
        end
    } else if is_ws(s[from]) {
        skip_ws(s, from + 1, end)
    } else {
        from
    }
}

/// Largest `e` in `[start, end]` such that every character of `[e, end)` is
/// whitespace and, unless `e == start`, the character before `e` is not.
pub open spec fn rstrip(s: Seq<char>, start: int, end: int) -> int
    decreases end - start,
{
    if end <= start {
        start
    } else if is_ws(s[end - 1]) {
        rstrip(s, start, end - 1)
    } else {
        end
    }
}

/// The command word of a `SET` line.
pub open spec fn set_word() -> Seq<char> {
    seq!['S', 'E', 'T']
}

/// The command word of a `DEL` line.
pub open spec fn del_word() -> Seq<char> {
    seq!['D', 'E', 'L']
}

/// What one log line denotes: strip outer whitespace, split on single
/// spaces into at most three fields, and accept exactly `SET key value`
/// (the value keeps any further spaces) or `DEL key`. Every other shape
/// denotes no record at all.
pub open spec fn parse_line(line: Seq<char>) -> Option<Record> {
    let n = line.len() as int;
    let start = skip_ws(line, 0, n);
    let end = rstrip(line, start, n);
    let i1 = find_space(line, start, end);
    if i1 >= end {
        None
    } else {
        let word = line.subrange(start, i1);
        let i2 = find_space(line, i1 + 1, end);
        if i2 >= end {
            if word == del_word() {
                Some(Record::Del { key: line.subrange(i1 + 1, end) })
            } else {
                None
            }
        } else {
            if word == set_word() {
                Some(Record::Put {
                    key: line.subrange(i1 + 1, i2),
                    value: line.subrange(i2 + 1, end),
                })
            } else {
                None
            }
        }
    }
}

/// The one line the writer appends for a `SET` (without its terminator).
pub open spec fn set_line(key: Seq<char>, value: Seq<char>) -> Seq<char> {
    set_word() + seq![' '] + key + seq![' '] + value
}

/// The one line the writer appends for a `DEL` (without its terminator).
pub open spec fn del_line(key: Seq<char>) -> Seq<char> {
    del_word() + seq![' '] + key
}

/// Keys the format represents faithfully: non-empty, with no whitespace.
pub open spec fn valid_key(k: Seq<char>) -> bool {
    k.len() > 0 && forall|i: int| 0 <= i < k.len() ==> !is_ws(#[trigger] k[i])
}

/// Values the format represents faithfully: non-empty, free of line
/// terminators, and not ending in whitespace (the replayer would strip it).
pub open spec fn valid_value(v: Seq<char>) -> bool {
    &&& v.len() > 0
    &&& !is_ws(v[v.len() - 1])
    &&& forall|i: int| 0 <= i < v.len() ==> (#[trigger] v[i]) != '\n' && v[i] != '\r'
}

/// The mapping one record leaves behind: `SET` overwrites, `DEL` removes.
pub open spec fn apply_record(
    m: Map<Seq<char>, Seq<char>>,
    r: Record,
) -> Map<Seq<char>, Seq<char>> {
    match r {
        Record::Put { key, value } => m.insert(key, value),
        Record::Del { key } => m.remove(key),
    }
}

/// Replay of a whole log: fold every line that denotes a record, in file
/// order, starting from the empty mapping.
pub open spec fn replay_lines(lines: Seq<Seq<char>>) -> Map<Seq<char>, Seq<char>>
    decreases lines.len(),
{
    if lines.len() == 0 {
        Map::empty()
    } else {
        let m = replay_lines(lines.drop_last());
        match parse_line(lines.last()) {
            Some(r) => apply_record(m, r),
            None => m,
        }
    }
}

/// A scan that saw no space over `[from, i)`, and a space (or the end) at
/// `i`, has found exactly `find_space`.
pub proof fn lemma_find_space_at(s: Seq<char>, from: int, end: int, i: int)
    requires
        0 <= from <= i <= end,
        forall|j: int| from <= j < i ==> s[j] != ' ',
        i < end ==> s[i] == ' ',
    ensures
        find_space(s, from, end) == i,
    decreases i - from,
{
    if from < i {
        assert(s[from] != ' ');
        lemma_find_space_at(s, from + 1, end, i);
    }
}

/// A scan that saw only whitespace over `[from, i)`, and none (or the end)
/// at `i`, has found exactly `skip_ws`.
pub proof fn lemma_skip_ws_at(s: Seq<char>, from: int, end: int, i: int)
    requires
        0 <= from <= i <= end,
        forall|j: int| from <= j < i ==> is_ws(s[j]),
        i < end ==> !is_ws(s[i]),
    ensures
        skip_ws(s, from, end) == i,
    decreases i - from,
{
    if from < i {
        assert(is_ws(s[from]));
        lemma_skip_ws_at(s, from + 1, end, i);
    }
}

/// A backward scan that saw only whitespace over `[e, end)`, and none (or
/// the start) just before `e`, has found exactly `rstrip`.
pub proof fn lemma_rstrip_at(s: Seq<char>, start: int, end: int, e: int)
    requires
        start <= e <= end,
        forall|j: int| e <= j < end ==> is_ws(s[j]),
        e > start ==> !is_ws(s[e - 1]),
    ensures
        rstrip(s, start, end) == e,
    decreases end - e,
{
    if e < end {
        assert(is_ws(s[end - 1]));
        lemma_rstrip_at(s, start, end - 1, e);
    }
}

/// Whether a character is stripped from the ends of a line.
pub fn is_ws_char(c: char) -> (r: bool)
    ensures
        r == is_ws(c),
{
    c == ' ' || c == '\t' || c == '\r' || c == '\n'
}

/// First index in `[from, end)` of `s` holding a space, or `end`.
fn scan_space(s: &str, from: usize, end: usize) -> (r: usize)
    requires
        from <= end <= s@.len(),
    ensures
        from <= r <= end,
        r == find_space(s@, from as int, end as int),
{
    let mut i = from;
    loop
        invariant
            from <= i <= end,
            end <= s@.len(),
            forall|j: int| from <= j < i ==> s@[j] != ' ',
        ensures
            from <= i <= end,
            forall|j: int| from <= j < i ==> s@[j] != ' ',
            i < end ==> s@[i as int] == ' ',
        decreases end - i,
    {
        if i >= end {
            break;
        }
        if s.get_char(i) == ' ' {
            break;
        }
        i += 1;
    }
    proof {
        lemma_find_space_at(s@, from as int, end as int, i as int);
    }
    i
}

/// First index in `[from, end)` of `s` holding a non-whitespace character,
/// or `end`.
fn scan_non_ws(s: &str, from: usize, end: usize) -> (r: usize)
    requires
        from <= end <= s@.len(),
    ensures
        from <= r <= end,
        r == skip_ws(s@, from as int, end as int),
{
    let mut i = from;
    loop
        invariant
            from <= i <= end,
            end <= s@.len(),
            forall|j: int| from <= j < i ==> is_ws(s@[j]),
        ensures
            from <= i <= end,
            forall|j: int| from <= j < i ==> is_ws(s@[j]),
            i < end ==> !is_ws(s@[i as int]),
        decreases end - i,
    {
        if i >= end {
            break;
        }
        if !is_ws_char(s.get_char(i)) {
            break;
        }
        i += 1;
    }
    proof {
        lemma_skip_ws_at(s@, from as int, end as int, i as int);
    }
    i
}

/// End of the trimmed region: scan back from `end` over trailing whitespace.
fn scan_rstrip(s: &str, start: usize, end: usize) -> (r: usize)
    requires
        start <= end <= s@.len(),
    ensures
        start <= r <= end,
        r == rstrip(s@, start as int, end as int),
{
    let mut e = end;
    loop
        invariant
            start <= e <= end,
            end <= s@.len(),
            forall|j: int| e <= j < end ==> is_ws(s@[j]),
        ensures
            start <= e <= end,
            forall|j: int| e <= j < end ==> is_ws(s@[j]),
            e > start ==> !is_ws(s@[e - 1]),
        decreases e - start,
    {
        if e <= start {
            break;
        }
        if !is_ws_char(s.get_char(e - 1)) {
            break;
        }
        e -= 1;
    }
    proof {
        lemma_rstrip_at(s@, start as int, end as int, e as int);
    }
    e
}

/// One logged mutation, as executable data.
pub enum LogRecord {
    Put { key: String, value: String },
    Del { key: String },
}

impl View for LogRecord {
    type V = Record;

    open spec fn view(&self) -> Record {
        match self {
            LogRecord::Put { key, value } => Record::Put { key: key@, value: value@ },
            LogRecord::Del { key } => Record::Del { key: key@ },
        }
    }
}

/// Parse one log line, exactly as replay interprets it: the result is the
/// record the line denotes, or `None` for every malformed shape.
pub fn parse_record(line: &str) -> (r: Option<LogRecord>)
    ensures
        match r {
            Some(rec) => parse_line(line@) == Some(rec@),
            None => parse_line(line@) is None,
        },
{
    let n = line.unicode_len();
    let start = scan_non_ws(line, 0, n);
    let end = scan_rstrip(line, start, n);
    let i1 = scan_space(line, start, end);
    if i1 >= end {
        return None;
    }
    let word_set = i1 - start == 3 && line.get_char(start) == 'S' && line.get_char(start + 1)
        == 'E' && line.get_char(start + 2) == 'T';
    let word_del = i1 - start == 3 && line.get_char(start) == 'D' && line.get_char(start + 1)
        == 'E' && line.get_char(start + 2) == 'L';
    proof {
        let w = line@.subrange(start as int, i1 as int);
        if word_set {
            assert(w =~= set_word());
        } else if w == set_word() {
            assert(w.len() == 3);
            assert(line@[start as int] == w[0]);
            assert(line@[start + 1] == w[1]);
            assert(line@[start + 2] == w[2]);
        }
        if word_del {
            assert(w =~= del_word());
        } else if w == del_word() {
            assert(w.len() == 3);
            assert(line@[start as int] == w[0]);
            assert(line@[start + 1] == w[1]);
            assert(line@[start + 2] == w[2]);
        }
    }
    let i2 = scan_space(line, i1 + 1, end);
    if i2 >= end {
        if word_del {
            let key = line.substring_char(i1 + 1, end).to_owned();
            Some(LogRecord::Del { key })
        } else {
            None
        }
    } else {
        if word_set {
            let key = line.substring_char(i1 + 1, i2).to_owned();
            let value = line.substring_char(i2 + 1, end).to_owned();
            Some(LogRecord::Put { key, value })
        } else {
            None
        }
    }
}

/// A `SET` line written for a faithful key and value denotes, on replay,
/// exactly the record it was written for.
pub proof fn lemma_set_line_parses(k: Seq<char>, v: Seq<char>)
    requires
        valid_key(k),
        valid_value(v),
    ensures
        parse_line(set_line(k, v)) == Some(Record::Put { key: k, value: v }),
{
    let s = set_line(k, v);
    let n = s.len() as int;
    let kl = k.len() as int;
    assert(n == kl + v.len() + 5);
    assert(s[0] == 'S');
    assert(s[1] == 'E');
    assert(s[2] == 'T');
    assert(s[3] == ' ');
    assert forall|j: int| 4 <= j < 4 + kl implies s[j] == k[j - 4] by {}
    assert(s[4 + kl] == ' ');
    assert forall|j: int| 5 + kl <= j < n implies s[j] == v[j - 5 - kl] by {}
    lemma_skip_ws_at(s, 0, n, 0);
    assert(s[n - 1] == v[v.len() - 1]);
    lemma_rstrip_at(s, 0, n, n);
    lemma_find_space_at(s, 0, n, 3);
    assert(s.subrange(0, 3) =~= set_word());
    assert forall|j: int| 4 <= j < 4 + kl implies s[j] != ' ' by {
        assert(!is_ws(k[j - 4]));
    }
    lemma_find_space_at(s, 4, n, 4 + kl);
    assert(s.subrange(4, 4 + kl) =~= k);
    assert(s.subrange(4 + kl + 1, n) =~= v);
}

/// A `DEL` line written for a faithful key denotes, on replay, exactly the
/// record it was written for.
pub proof fn lemma_del_line_parses(k: Seq<char>)
    requires
        valid_key(k),
    ensures
        parse_line(del_line(k)) == Some(Record::Del { key: k }),
{
    let s = del_line(k);
    let n = s.len() as int;
    assert(n == k.len() + 4);
    assert(s[0] == 'D');
    assert(s[1] == 'E');
    assert(s[2] == 'L');
    assert(s[3] == ' ');
    assert forall|j: int| 4 <= j < n implies s[j] == k[j - 4] by {}
    lemma_skip_ws_at(s, 0, n, 0);
    assert(s[n - 1] == k[k.len() - 1]);
    lemma_rstrip_at(s, 0, n, n);
    lemma_find_space_at(s, 0, n, 3);
    assert(s.subrange(0, 3) =~= del_word());
    assert forall|j: int| 4 <= j < n implies s[j] != ' ' by {
        assert(!is_ws(k[j - 4]));
    }
    lemma_find_space_at(s, 4, n, n);
    assert(s.subrange(4, n) =~= k);
}

/// Build the one-line `SET` record for a key and value.
pub fn set_record_line(key: &str, value: &str) -> (line: String)
    ensures
        line@ == set_line(key@, value@),
{
    let mut line = "SET ".to_owned();
    line.append(key);
    line.append(" ");
    line.append(value);
    proof {
        reveal_strlit("SET ");
        reveal_strlit(" ");
        assert(line@ =~= set_line(key@, value@));
    }
    line
}

/// Build the one-line `DEL` record for a key.
pub fn del_record_line(key: &str) -> (line: String)
    ensures
        line@ == del_line(key@),
{
    let mut line = "DEL ".to_owned();
    line.append(key);
    proof {
        reveal_strlit("DEL ");
        assert(line@ =~= del_line(key@));
    }
    line
}

/// Whether the format represents this key faithfully.
pub fn check_key(key: &str) -> (r: bool)
    ensures
        r == valid_key(key@),
{
    let n = key.unicode_len();
    if n == 0 {
        return false;
    }
    let mut i: usize = 0;
    while i < n
        invariant
            i <= n,
            n == key@.len(),
            forall|j: int| 0 <= j < i ==> !is_ws(#[trigger] key@[j]),
        decreases n - i,
    {
        if is_ws_char(key.get_char(i)) {
            return false;
        }
        i += 1;
    }
    true
}

/// Whether the format represents this value faithfully.
pub fn check_value(value: &str) -> (r: bool)
    ensures
        r == valid_value(value@),
{
    let n = value.unicode_len();
    if n == 0 {
        return false;
    }
    if is_ws_char(value.get_char(n - 1)) {
        return false;
    }
    let mut i: usize = 0;
    while i < n
        invariant
            i <= n,
            n == value@.len(),
            forall|j: int| 0 <= j < i ==> (#[trigger] value@[j]) != '\n' && value@[j] != '\r',
        decreases n - i,
    {
        let c = value.get_char(i);
        if c == '\n' || c == '\r' {
            return false;
        }
        i += 1;
    }
    true
}

} // verus!
