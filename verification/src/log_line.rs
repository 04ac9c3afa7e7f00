use vstd::prelude::*;

use crate::text::{
    chars_of, copy_range, find_char, is_blank, is_blank_chars, lemma_split_at, split_seq,
    string_from_chars, trim, trim_chars,
};

verus! {

/// The severity of a log line.
#[derive(Debug, Clone, Copy, PartialEq, Eq, Structural)]
pub enum LogLevel {
    Error,
    Warn,
    Info,
    Debug,
    Trace,
}

impl Default for LogLevel {
    fn default() -> (r: LogLevel)
        ensures
            r == LogLevel::Debug,
    {
        LogLevel::Debug
    }
}

/// One parsed line of a log: `timestamp | LEVEL | content`.
#[derive(Debug, Default, Clone, PartialEq, Eq)]
pub struct LogLine {
    time_stamp: String,
    log_level: LogLevel,
    content: String,
}

/// What a parsed line holds, as mathematical values.
pub struct LogLineView {
    pub time_stamp: Seq<char>,
    pub log_level: LogLevel,
    pub content: Seq<char>,
}

impl View for LogLine {
    type V = LogLineView;

    closed spec fn view(&self) -> LogLineView {
        LogLineView {
            time_stamp: self.time_stamp@,
            log_level: self.log_level,
            content: self.content@,
        }
    }
}

/// The character that separates the fields of a line.
pub open spec fn delimiter() -> char {
    '|'
}

/// The level that a trimmed level field names; anything unknown counts as `Trace`.
pub open spec fn level_of(s: Seq<char>) -> LogLevel {
    if s == seq!['E', 'R', 'R', 'O', 'R'] {
        LogLevel::Error
    } else if s == seq!['W', 'A', 'R', 'N'] {
        LogLevel::Warn
    } else if s == seq!['I', 'N', 'F', 'O'] {
        LogLevel::Info
    } else if s == seq!['D', 'E', 'B', 'U', 'G'] {
        LogLevel::Debug
    } else {
        LogLevel::Trace
    }
}

/// How a line parses: blank lines and lines with fewer than three `|`-separated
/// fields give nothing; otherwise the first three fields, trimmed, give the
/// timestamp, the level and the content (anything after a third `|` is dropped).
pub open spec fn parse_spec(line: Seq<char>) -> Option<LogLineView> {
    let fields = split_seq(line, delimiter());
    if is_blank(line) || fields.len() < 3 {
        None
    } else {
        Some(
            LogLineView {
                time_stamp: trim(fields[0]),
                log_level: level_of(trim(fields[1])),
                content: trim(fields[2]),
            },
        )
    }
}

/// The level named by a trimmed field.
fn level_of_chars(s: &[char]) -> (l: LogLevel)
    ensures
        l == level_of(s@),
{
    let n = s.len();
    if n == 5 && s[0] == 'E' && s[1] == 'R' && s[2] == 'R' && s[3] == 'O' && s[4] == 'R' {
        assert(s@ =~= seq!['E', 'R', 'R', 'O', 'R']);
        LogLevel::Error
    } else if n == 4 && s[0] == 'W' && s[1] == 'A' && s[2] == 'R' && s[3] == 'N' {
        assert(s@ =~= seq!['W', 'A', 'R', 'N']);
        LogLevel::Warn
    } else if n == 4 && s[0] == 'I' && s[1] == 'N' && s[2] == 'F' && s[3] == 'O' {
        assert(s@ =~= seq!['I', 'N', 'F', 'O']);
        LogLevel::Info
    } else if n == 5 && s[0] == 'D' && s[1] == 'E' && s[2] == 'B' && s[3] == 'U' && s[4]
        == 'G' {
        assert(s@ =~= seq!['D', 'E', 'B', 'U', 'G']);
        LogLevel::Debug
    } else {
        proof {
            if s@ == seq!['E', 'R', 'R', 'O', 'R'] {
                assert(s@[0] == 'E' && s@[4] == 'R');
            }
            if s@ == seq!['W', 'A', 'R', 'N'] {
                assert(s@[0] == 'W' && s@[3] == 'N');
            }
            if s@ == seq!['I', 'N', 'F', 'O'] {
                assert(s@[0] == 'I' && s@[3] == 'O');
            }
            if s@ == seq!['D', 'E', 'B', 'U', 'G'] {
                assert(s@[0] == 'D' && s@[4] == 'G');
            }
        }
        LogLevel::Trace
    }
}

/// The trimmed field `s[a..b]`.
fn trimmed_field(s: &[char], a: usize, b: usize) -> (r: Vec<char>)
    requires
        a <= b <= s@.len(),
    ensures
        r@ == trim(s@.subrange(a as int, b as int)),
{
    let piece = copy_range(s, a, b);
    trim_chars(piece.as_slice())
}

impl LogLine {
    /// Parses a line of the form `timestamp | LEVEL | content`.
    pub fn new(line: &str) -> (r: Option<Self>)
        ensures
            r matches Some(l) ==> parse_spec(line@) == Some(l@),
            r is None ==> parse_spec(line@) is None,
    {
        parse_log_line(line)
    }

    /// The trimmed timestamp field.
    pub fn time_stamp(&self) -> (r: &str)
        ensures
            r@ == self@.time_stamp,
    {
        self.time_stamp.as_str()
    }

    /// The level named by the second field.
    pub fn log_level(&self) -> (r: &LogLevel)
        ensures
            *r == self@.log_level,
    {
        &self.log_level
    }

    /// The trimmed content field.
    pub fn content(&self) -> (r: &str)
        ensures
            r@ == self@.content,
    {
        self.content.as_str()
    }
}

/// Parses one line; see `parse_spec`.
pub fn parse_log_line(line: &str) -> (r: Option<LogLine>)
    ensures
        r matches Some(l) ==> parse_spec(line@) == Some(l@),
        r is None ==> parse_spec(line@) is None,
{
    let chars = chars_of(line);
    let s = chars.as_slice();
    if is_blank_chars(s) {
        return None;
    }
    let ghost t0 = s@;
    let n = s.len();
    let p1 = find_char(s, 0, '|');
    proof {
        lemma_split_at(t0, '|', p1 as int);
    }
    if p1 == n {
        return None;
    }
    let p2 = find_char(s, p1 + 1, '|');
    let ghost t1 = t0.skip(p1 + 1);
    proof {
        assert forall|k: int| 0 <= k < p2 - p1 - 1 implies t1[k] != '|' by {
            assert(t1[k] == t0[k + p1 + 1]);
        }
        if p2 < n {
            assert(t1[p2 - p1 - 1] == t0[p2 as int]);
        }
        lemma_split_at(t1, '|', p2 - p1 - 1);
        assert(t1.take(p2 - p1 - 1) =~= t0.subrange(p1 + 1, p2 as int));
    }
    if p2 == n {
        return None;
    }
    let p3 = find_char(s, p2 + 1, '|');
    let ghost t2 = t1.skip(p2 - p1);
    proof {
        assert(t2 =~= t0.skip(p2 + 1));
        assert forall|k: int| 0 <= k < p3 - p2 - 1 implies t2[k] != '|' by {
            assert(t2[k] == t0[k + p2 + 1]);
        }
        if p3 < n {
            assert(t2[p3 - p2 - 1] == t0[p3 as int]);
        }
        lemma_split_at(t2, '|', p3 - p2 - 1);
        assert(t2.take(p3 - p2 - 1) =~= t0.subrange(p2 + 1, p3 as int));
        let f = split_seq(t0, '|');
        assert(f[0] == t0.take(p1 as int));
        assert(t0.take(p1 as int) =~= t0.subrange(0, p1 as int));
        assert(f[1] == t0.subrange(p1 + 1, p2 as int));
        assert(f[2] == t0.subrange(p2 + 1, p3 as int));
    }
    let ts = trimmed_field(s, 0, p1);
    let lv = trimmed_field(s, p1 + 1, p2);
    let ct = trimmed_field(s, p2 + 1, p3);
    let log_level = level_of_chars(lv.as_slice());
    Some(
        LogLine {
            time_stamp: string_from_chars(ts.as_slice()),
            log_level,
            content: string_from_chars(ct.as_slice()),
        },
    )
}

} // verus!
