use crate::revision::{lex_order, RevisionId};
use std::cmp::Ordering;
use vstd::prelude::*;
use vstd::string::*;

verus! {

/// True when `c` is one of the two indentation characters, space and tab.
pub open spec fn is_indent(c: char) -> bool {
    c == ' ' || c == '\t'
}

/// Number of indentation characters at the front of `s`.
pub open spec fn indent_len(s: Seq<char>) -> nat
    decreases s.len(),
{
    if s.len() > 0 && is_indent(s[0]) {
        1 + indent_len(s.drop_first())
    } else {
        0
    }
}

/// `s` without its leading indentation; everything after it is kept verbatim.
pub open spec fn strip_indent(s: Seq<char>) -> Seq<char> {
    s.skip(indent_len(s) as int)
}

/// The indentation of `s` is a run of indentation characters that ends at
/// the first other character or at the end of `s`.
pub proof fn lemma_indent_len(s: Seq<char>)
    ensures
        indent_len(s) <= s.len(),
        forall|i: int| 0 <= i < indent_len(s) ==> is_indent(#[trigger] s[i]),
        indent_len(s) < s.len() ==> !is_indent(s[indent_len(s) as int]),
    decreases s.len(),
{
    if s.len() > 0 && is_indent(s[0]) {
        let t = s.drop_first();
        lemma_indent_len(t);
        assert forall|i: int| 0 <= i < indent_len(s) implies is_indent(#[trigger] s[i]) by {
            if i > 0 {
                assert(s[i] == t[i - 1]);
            }
        }
        if indent_len(s) < s.len() {
            assert(s[indent_len(s) as int] == t[indent_len(t) as int]);
        }
    }
}

/// A run of `n` indentation characters followed by something else, or by
/// nothing, is exactly the indentation of `s`.
pub proof fn lemma_indent_len_unique(s: Seq<char>, n: int)
    requires
        0 <= n <= s.len(),
        forall|i: int| 0 <= i < n ==> is_indent(#[trigger] s[i]),
        n < s.len() ==> !is_indent(s[n]),
    ensures
        indent_len(s) == n,
    decreases s.len(),
{
    if n > 0 {
        let t = s.drop_first();
        assert(is_indent(s[0]));
        assert forall|i: int| 0 <= i < n - 1 implies is_indent(#[trigger] t[i]) by {
            assert(t[i] == s[i + 1]);
        }
        if n - 1 < t.len() {
            assert(t[n - 1] == s[n]);
        }
        lemma_indent_len_unique(t, n - 1);
    }
}

/// Stripping leading indentation a second time changes nothing.
pub proof fn lemma_strip_indent_idempotent(s: Seq<char>)
    ensures
        strip_indent(strip_indent(s)) == strip_indent(s),
{
    lemma_indent_len(s);
    let t = strip_indent(s);
    if t.len() > 0 {
        assert(t[0] == s[indent_len(s) as int]);
    }
    assert(indent_len(t) == 0);
    assert(t.skip(0) =~= t);
}

/// Removes the leading spaces and tabs of `line`.
pub fn strip_leading_indent(line: &str) -> (out: String)
    ensures
        out@ == strip_indent(line@),
{
    let n = line.unicode_len();
    let mut i: usize = 0;
    while i < n && (line.get_char(i) == ' ' || line.get_char(i) == '\t')
        invariant
            0 <= i <= n,
            n == line@.len(),
            forall|j: int| 0 <= j < i ==> is_indent(#[trigger] line@[j]),
        decreases n - i,
    {
        i += 1;
    }
    proof {
        lemma_indent_len_unique(line@, i as int);
        assert(line@.subrange(i as int, n as int) =~= line@.skip(i as int));
    }
    line.substring_char(i, n).to_owned()
}

/// The moment a file was last modified, as whole seconds and nanoseconds
/// counted from a fixed origin.
#[derive(Clone, Copy, Debug)]
pub struct Timestamp {
    pub secs: i64,
    pub nanos: u32,
}

impl Timestamp {
    /// The nanoseconds from the origin to this moment, negative for a
    /// moment before the origin.
    pub open spec fn since_origin(self) -> int {
        self.secs * 1_000_000_000 + self.nanos
    }

    /// The moment that lies `secs` seconds and `nanos` nanoseconds after the
    /// origin, or before it when `before` is set. Absent when `nanos` is a
    /// whole second or more, or when `secs` is too large to be held.
    pub fn from_distance(before: bool, secs: u64, nanos: u32) -> (moment: Option<Timestamp>)
        ensures
            moment is Some <==> nanos < 1_000_000_000 && secs < i64::MAX,
            moment matches Some(t) ==> t.nanos < 1_000_000_000 && t.since_origin() == if before {
                -(secs * 1_000_000_000 + nanos)
            } else {
                secs * 1_000_000_000 + nanos
            },
    {
        if nanos >= 1_000_000_000 || secs >= i64::MAX as u64 {
            return None;
        }
        let whole: i64 = secs as i64;
        if !before {
            Some(Timestamp { secs: whole, nanos })
        } else if nanos == 0 {
            Some(Timestamp { secs: -whole, nanos: 0 })
        } else {
            Some(Timestamp { secs: -whole - 1, nanos: 1_000_000_000 - nanos })
        }
    }

    /// True when `self` is strictly earlier than `other`.
    pub open spec fn earlier(self, other: Timestamp) -> bool {
        self.secs < other.secs || (self.secs == other.secs && self.nanos < other.nanos)
    }

    /// Tells whether `self` is strictly earlier than `other`.
    pub fn is_earlier(&self, other: &Timestamp) -> (r: bool)
        ensures
            r == self.earlier(*other),
    {
        self.secs < other.secs || (self.secs == other.secs && self.nanos < other.nanos)
    }
}

/// Of two moments whose nanoseconds stay below a whole second, the earlier
/// is the one that lies fewer nanoseconds from the origin.
pub proof fn lemma_earlier_by_distance(a: Timestamp, b: Timestamp)
    requires
        a.nanos < 1_000_000_000,
        b.nanos < 1_000_000_000,
    ensures
        a.earlier(b) <==> a.since_origin() < b.since_origin(),
{
}

/// One matched line together with what is known of its history.
#[derive(Clone, Debug)]
pub struct Entry {
    /// Path of the file that holds the line.
    pub path: String,
    /// Number of the line within its file, counted from one.
    pub line_number: u64,
    /// Text of the line without its leading indentation.
    pub content: String,
    /// The revision that introduced the line and the one that last touched
    /// it, known together or not at all.
    pub history: Option<(RevisionId, RevisionId)>,
    /// When the file was last modified.
    pub modified: Timestamp,
}

impl Entry {
    /// The revision that introduced the line, if known.
    pub open spec fn origin(self) -> Option<RevisionId> {
        match self.history {
            Some(pair) => Some(pair.0),
            None => None,
        }
    }

    /// The revision that last touched the line, if known.
    pub open spec fn latest(self) -> Option<RevisionId> {
        match self.history {
            Some(pair) => Some(pair.1),
            None => None,
        }
    }

    /// Builds the record of a matched line. The content loses its leading
    /// indentation and nothing else.
    pub fn new(
        path: String,
        line_number: u64,
        content: String,
        line_history: Option<(RevisionId, RevisionId)>,
        modified: Timestamp,
    ) -> (entry: Entry)
        ensures
            entry.path == path,
            entry.line_number == line_number,
            entry.content@ == strip_indent(content@),
            entry.history == line_history,
            entry.modified == modified,
    {
        let content = strip_leading_indent(content.as_str());
        Entry { path, line_number, content, history: line_history, modified }
    }

    /// The revision that introduced the line, if known.
    pub fn orig_commit(&self) -> (id: Option<RevisionId>)
        ensures
            id == self.origin(),
    {
        match self.history {
            Some(pair) => Some(pair.0),
            None => None,
        }
    }

    /// The revision that last touched the line, if known.
    pub fn final_commit(&self) -> (id: Option<RevisionId>)
        ensures
            id == self.latest(),
    {
        match self.history {
            Some(pair) => Some(pair.1),
            None => None,
        }
    }
}

/// Order of two optional revisions: byte order when both are known, equal
/// as soon as one of them is unknown.
pub open spec fn revision_order(a: Option<RevisionId>, b: Option<RevisionId>) -> Ordering {
    match (a, b) {
        (Some(x), Some(y)) => lex_order(x@, y@),
        _ => Ordering::Equal,
    }
}

/// Order of two timestamps: by seconds, then by nanoseconds.
pub open spec fn time_order(a: Timestamp, b: Timestamp) -> Ordering {
    if a.earlier(b) {
        Ordering::Less
    } else if b.earlier(a) {
        Ordering::Greater
    } else {
        Ordering::Equal
    }
}

impl Entry {
    /// Compares two records by the revision that last touched each line.
    pub fn cmp_last_commit(lhs: &Entry, rhs: &Entry) -> (r: Ordering)
        ensures
            r == revision_order(lhs.latest(), rhs.latest()),
    {
        match (lhs.final_commit(), rhs.final_commit()) {
            (Some(lhs_id), Some(rhs_id)) => lhs_id.compare(&rhs_id),
            _ => Ordering::Equal,
        }
    }

    /// Compares two records by the revision that introduced each line.
    pub fn cmp_first_commit(lhs: &Entry, rhs: &Entry) -> (r: Ordering)
        ensures
            r == revision_order(lhs.origin(), rhs.origin()),
    {
        match (lhs.orig_commit(), rhs.orig_commit()) {
            (Some(lhs_id), Some(rhs_id)) => lhs_id.compare(&rhs_id),
            _ => Ordering::Equal,
        }
    }

    /// Compares two records by the time their files were last modified.
    pub fn cmp_last_modified(lhs: &Entry, rhs: &Entry) -> (r: Ordering)
        ensures
            r == time_order(lhs.modified, rhs.modified),
    {
        if lhs.modified.is_earlier(&rhs.modified) {
            Ordering::Less
        } else if rhs.modified.is_earlier(&lhs.modified) {
            Ordering::Greater
        } else {
            Ordering::Equal
        }
    }
}

/// The two revisions of a record are known together or not at all.
pub proof fn lemma_revisions_paired(entry: Entry)
    ensures
        entry.origin() is Some <==> entry.latest() is Some,
{
}

} // verus!
