use crate::entry::{revision_order, time_order, Entry};
use crate::git::{resolve_step, GitContext, RevisionMetadata};
use crate::revision::{lemma_lex_less_total, RevisionId};
use crate::options::{Options, SortByOption};
use std::cmp::Ordering;
use vstd::multiset::Multiset;
use vstd::prelude::*;
use vstd::seq_lib::{to_multiset_build, to_multiset_insert};
use vstd::string::*;

verus! {

/// How two records stand to each other under the order `by`. Without an
/// order all records are equal.
pub open spec fn entry_order(by: SortByOption, a: Entry, b: Entry) -> Ordering {
    match by {
        SortByOption::Unsorted => Ordering::Equal,
        SortByOption::FirstCommit => revision_order(a.origin(), b.origin()),
        SortByOption::LastCommit => revision_order(a.latest(), b.latest()),
        SortByOption::LastModified => time_order(a.modified, b.modified),
    }
}

/// True when `a` has to stand behind `b` under the order `by`.
pub open spec fn follows(by: SortByOption, a: Entry, b: Entry) -> bool {
    entry_order(by, a, b) == Ordering::Greater
}

/// `sorted` with `x` put in from the end: `x` passes every record that has
/// to stand behind it and stops at the first that has not.
pub open spec fn insert_stable(by: SortByOption, sorted: Seq<Entry>, x: Entry) -> Seq<Entry>
    decreases sorted.len(),
{
    if sorted.len() > 0 && follows(by, sorted.last(), x) {
        insert_stable(by, sorted.drop_last(), x).push(sorted.last())
    } else {
        sorted.push(x)
    }
}

/// The records of `entries` in ascending order under `by`, records that are
/// equal under `by` staying in the order they came in.
pub open spec fn sorted_by(by: SortByOption, entries: Seq<Entry>) -> Seq<Entry>
    decreases entries.len(),
{
    if entries.len() == 0 {
        entries
    } else {
        insert_stable(by, sorted_by(by, entries.drop_last()), entries.last())
    }
}

/// The records as they are shown: in ascending order under `by`, and turned
/// round when `reverse` is set.
pub open spec fn arranged(by: SortByOption, reverse: bool, entries: Seq<Entry>) -> Seq<Entry> {
    if reverse {
        sorted_by(by, entries).reverse()
    } else {
        sorted_by(by, entries)
    }
}

/// Putting `x` in at position `at` is what `insert_stable` does, when all
/// records from `at` on have to stand behind `x` and the one before `at`
/// has not.
proof fn lemma_insert_at(by: SortByOption, sorted: Seq<Entry>, x: Entry, at: int)
    requires
        0 <= at <= sorted.len(),
        forall|k: int| at <= k < sorted.len() ==> follows(by, #[trigger] sorted[k], x),
        at > 0 ==> !follows(by, sorted[at - 1], x),
    ensures
        insert_stable(by, sorted, x) == sorted.insert(at, x),
    decreases sorted.len() - at,
{
    if at < sorted.len() {
        let shorter = sorted.drop_last();
        assert(follows(by, sorted[sorted.len() - 1], x));
        assert forall|k: int| at <= k < shorter.len() implies follows(
            by,
            #[trigger] shorter[k],
            x,
        ) by {
            assert(shorter[k] == sorted[k]);
        }
        lemma_insert_at(by, shorter, x, at);
        assert(shorter.insert(at, x).push(sorted.last()) =~= sorted.insert(at, x));
    } else {
        assert(sorted.push(x) =~= sorted.insert(at, x));
    }
}

/// The place where `insert_stable` puts `x`: behind the last record that
/// does not have to stand behind it.
pub open spec fn insert_point(by: SortByOption, sorted: Seq<Entry>, x: Entry) -> int
    decreases sorted.len(),
{
    if sorted.len() > 0 && follows(by, sorted.last(), x) {
        insert_point(by, sorted.drop_last(), x)
    } else {
        sorted.len() as int
    }
}

/// `insert_stable` leaves `sorted` as it is and puts `x` in at
/// `insert_point`: every record behind that place has to stand behind `x`,
/// and the record before it has not.
pub proof fn lemma_insert_point(by: SortByOption, sorted: Seq<Entry>, x: Entry)
    ensures
        0 <= insert_point(by, sorted, x) <= sorted.len(),
        forall|k: int|
            insert_point(by, sorted, x) <= k < sorted.len() ==> follows(by, #[trigger] sorted[k], x),
        insert_point(by, sorted, x) > 0 ==> !follows(
            by,
            sorted[insert_point(by, sorted, x) - 1],
            x,
        ),
        insert_stable(by, sorted, x) == sorted.insert(insert_point(by, sorted, x), x),
    decreases sorted.len(),
{
    if sorted.len() > 0 && follows(by, sorted.last(), x) {
        let shorter = sorted.drop_last();
        lemma_insert_point(by, shorter, x);
        let at = insert_point(by, shorter, x);
        assert forall|k: int| at <= k < sorted.len() implies follows(by, #[trigger] sorted[k], x) by {
            if k < shorter.len() {
                assert(shorter[k] == sorted[k]);
            }
        }
        if at > 0 {
            assert(shorter[at - 1] == sorted[at - 1]);
        }
    }
    lemma_insert_at(by, sorted, x, insert_point(by, sorted, x));
}

/// Sorting keeps every record, each as often as it came.
pub proof fn lemma_sorted_by_permutes(by: SortByOption, entries: Seq<Entry>)
    ensures
        sorted_by(by, entries).to_multiset() == entries.to_multiset(),
        sorted_by(by, entries).len() == entries.len(),
    decreases entries.len(),
{
    lemma_sorted_by_len(by, entries);
    if entries.len() > 0 {
        let shorter = entries.drop_last();
        let x = entries.last();
        lemma_sorted_by_permutes(by, shorter);
        let sorted = sorted_by(by, shorter);
        lemma_insert_point(by, sorted, x);
        to_multiset_insert(sorted, insert_point(by, sorted, x), x);
        to_multiset_build(shorter, x);
        assert(shorter.push(x) =~= entries);
    }
}

/// Turning the order round keeps every record, each as often as it came.
pub proof fn lemma_arranged_permutes(by: SortByOption, reverse: bool, entries: Seq<Entry>)
    ensures
        arranged(by, reverse, entries).to_multiset() == entries.to_multiset(),
        arranged(by, reverse, entries).len() == entries.len(),
{
    lemma_sorted_by_permutes(by, entries);
    if reverse {
        sorted_by(by, entries).lemma_reverse_to_multiset();
    }
}

/// Without an order the records stay as they came.
pub proof fn lemma_unsorted_keeps_order(entries: Seq<Entry>)
    ensures
        sorted_by(SortByOption::Unsorted, entries) == entries,
    decreases entries.len(),
{
    if entries.len() > 0 {
        lemma_unsorted_keeps_order(entries.drop_last());
        assert(entries.drop_last().push(entries.last()) =~= entries);
    }
}

/// Of two records, at most one has to stand behind the other.
pub proof fn lemma_follows_asymmetric(by: SortByOption, a: Entry, b: Entry)
    requires
        follows(by, a, b),
    ensures
        !follows(by, b, a),
{
    match by {
        SortByOption::Unsorted => {},
        SortByOption::FirstCommit => {
            let x = a.origin().unwrap()@;
            let y = b.origin().unwrap()@;
            lemma_lex_less_total(x, y);
        },
        SortByOption::LastCommit => {
            let x = a.latest().unwrap()@;
            let y = b.latest().unwrap()@;
            lemma_lex_less_total(x, y);
        },
        SortByOption::LastModified => {},
    }
}

/// In sorted records no record has to stand behind its right neighbour.
pub proof fn lemma_sorted_by_neighbours(by: SortByOption, entries: Seq<Entry>)
    ensures
        forall|i: int|
            0 <= i && i + 1 < sorted_by(by, entries).len() ==> !follows(
                by,
                #[trigger] sorted_by(by, entries)[i],
                sorted_by(by, entries)[i + 1],
            ),
    decreases entries.len(),
{
    if entries.len() > 0 {
        let sorted = sorted_by(by, entries.drop_last());
        let x = entries.last();
        lemma_sorted_by_neighbours(by, entries.drop_last());
        lemma_insert_point(by, sorted, x);
        let at = insert_point(by, sorted, x);
        let out = sorted.insert(at, x);
        assert forall|i: int| 0 <= i && i + 1 < out.len() implies !follows(
            by,
            #[trigger] out[i],
            out[i + 1],
        ) by {
            if i + 1 < at {
                assert(out[i] == sorted[i] && out[i + 1] == sorted[i + 1]);
            } else if i + 1 == at {
                assert(out[i] == sorted[at - 1] && out[i + 1] == x);
            } else if i == at {
                assert(out[i] == x && out[i + 1] == sorted[at]);
                lemma_follows_asymmetric(by, sorted[at], x);
            } else {
                assert(out[i] == sorted[i - 1] && out[i + 1] == sorted[i]);
            }
        }
    }
}

/// Sorted by time, no record stands before one that was modified earlier.
pub proof fn lemma_sorted_by_time(entries: Seq<Entry>)
    ensures
        forall|i: int, j: int|
            0 <= i < j < sorted_by(SortByOption::LastModified, entries).len() ==> !(
            #[trigger] sorted_by(SortByOption::LastModified, entries)[j]).modified.earlier(
                (#[trigger] sorted_by(SortByOption::LastModified, entries)[i]).modified,
            ),
    decreases entries.len(),
{
    let by = SortByOption::LastModified;
    if entries.len() > 0 {
        let sorted = sorted_by(by, entries.drop_last());
        let x = entries.last();
        lemma_sorted_by_time(entries.drop_last());
        lemma_insert_point(by, sorted, x);
        let at = insert_point(by, sorted, x);
        let out = sorted.insert(at, x);
        assert forall|i: int, j: int| 0 <= i < j < out.len() implies !(#[trigger] out[j]).modified.earlier(
            (#[trigger] out[i]).modified,
        ) by {
            if j < at {
                assert(out[i] == sorted[i] && out[j] == sorted[j]);
            } else if j == at {
                assert(out[i] == sorted[i]);
                if i < at - 1 {
                    assert(!sorted[at - 1].modified.earlier(sorted[i].modified));
                }
                assert(!follows(by, sorted[at - 1], x));
            } else if i == at {
                assert(out[j] == sorted[j - 1]);
                assert(follows(by, sorted[j - 1], x));
            } else if i < at {
                assert(out[i] == sorted[i] && out[j] == sorted[j - 1]);
            } else {
                assert(out[i] == sorted[i - 1] && out[j] == sorted[j - 1]);
            }
        }
    }
}

/// Sorting is stable: records of which none has to stand behind another
/// keep, among themselves, the order they came in.
pub proof fn lemma_sorted_by_stable(
    by: SortByOption,
    entries: Seq<Entry>,
    group: spec_fn(Entry) -> bool,
)
    requires
        forall|i: int, j: int|
            0 <= i < entries.len() && 0 <= j < entries.len() && group(#[trigger] entries[i])
                && group(#[trigger] entries[j]) ==> !follows(by, entries[i], entries[j]),
    ensures
        sorted_by(by, entries).filter(group) == entries.filter(group),
    decreases entries.len(),
{
    reveal(Seq::filter);
    if entries.len() > 0 {
        let shorter = entries.drop_last();
        let x = entries.last();
        assert forall|i: int, j: int|
            0 <= i < shorter.len() && 0 <= j < shorter.len() && group(#[trigger] shorter[i])
                && group(#[trigger] shorter[j]) implies !follows(by, shorter[i], shorter[j]) by {
            assert(shorter[i] == entries[i] && shorter[j] == entries[j]);
        }
        lemma_sorted_by_stable(by, shorter, group);
        let sorted = sorted_by(by, shorter);
        lemma_sorted_by_permutes(by, shorter);
        lemma_insert_point(by, sorted, x);
        let at = insert_point(by, sorted, x);
        let front = sorted.take(at);
        let back = sorted.skip(at);
        let out = sorted.insert(at, x);
        assert(out =~= front + seq![x] + back);
        assert(sorted =~= front + back);
        Seq::filter_distributes_over_add(front, back, group);
        Seq::filter_distributes_over_add(front, seq![x], group);
        Seq::filter_distributes_over_add(front + seq![x], back, group);
        assert(Seq::<Entry>::empty().filter(group) =~= Seq::<Entry>::empty());
        assert(seq![x].drop_last() =~= Seq::<Entry>::empty());
        assert(seq![x].last() == x);
        if group(x) {
            assert(seq![x].filter(group) =~= seq![x]);
            assert forall|k: int| 0 <= k < back.len() implies !group(#[trigger] back[k]) by {
                let e = sorted[at + k];
                assert(back[k] == e);
                assert(follows(by, e, x));
                if group(e) {
                    sorted.to_multiset_ensures();
                    shorter.to_multiset_ensures();
                    assert(sorted.contains(e));
                    assert(sorted.to_multiset().count(e) > 0);
                    assert(shorter.to_multiset().count(e) > 0);
                    assert(shorter.contains(e));
                    let m = choose|m: int| 0 <= m < shorter.len() && shorter[m] == e;
                    assert(entries[m] == e);
                    assert(entries[entries.len() - 1] == x);
                }
            }
            assert(back.all(|e: Entry| !group(e)));
            back.lemma_all_neg_filter_empty(group);
            assert(back.filter(group) =~= Seq::<Entry>::empty());
            assert(out.filter(group) =~= sorted.filter(group).push(x));
        } else {
            assert(seq![x].filter(group) =~= Seq::<Entry>::empty());
            assert(out.filter(group) =~= sorted.filter(group));
        }
    }
}

/// True when no two records of `entries` were modified at the same time.
pub open spec fn distinct_times(entries: Seq<Entry>) -> bool {
    forall|i: int, j: int|
        0 <= i < j < entries.len() ==> (#[trigger] entries[i]).modified != (
        #[trigger] entries[j]).modified
}

/// True when the times of `entries` climb strictly from each record to the
/// next, or fall strictly when `reverse` is set.
pub open spec fn in_time_order(entries: Seq<Entry>, reverse: bool) -> bool {
    forall|i: int, j: int|
        0 <= i < j < entries.len() ==> if reverse {
            (#[trigger] entries[j]).modified.earlier((#[trigger] entries[i]).modified)
        } else {
            entries[i].modified.earlier(entries[j].modified)
        }
}

/// Sorting by time and turning the result round gives the ascending order
/// read backwards; for records with distinct times the ascending order
/// climbs strictly and the reversed one falls strictly.
pub proof fn lemma_reversed_time_order(entries: Seq<Entry>)
    requires
        distinct_times(entries),
    ensures
        arranged(SortByOption::LastModified, true, entries) == arranged(
            SortByOption::LastModified,
            false,
            entries,
        ).reverse(),
        forall|i: int, j: int|
            0 <= i < j < entries.len() ==> (#[trigger] arranged(
                SortByOption::LastModified,
                false,
                entries,
            )[i]).modified.earlier(
                (#[trigger] arranged(SortByOption::LastModified, false, entries)[j]).modified,
            ),
        forall|i: int, j: int|
            0 <= i < j < entries.len() ==> (#[trigger] arranged(
                SortByOption::LastModified,
                true,
                entries,
            )[j]).modified.earlier(
                (#[trigger] arranged(SortByOption::LastModified, true, entries)[i]).modified,
            ),
{
    let by = SortByOption::LastModified;
    let up = sorted_by(by, entries);
    let down = up.reverse();
    lemma_sorted_by_permutes(by, entries);
    lemma_sorted_by_time(entries);
    lemma_distinct_times_kept(entries);
    assert forall|i: int, j: int| 0 <= i < j < entries.len() implies (#[trigger] up[i]).modified.earlier(
        (#[trigger] up[j]).modified,
    ) by {
        assert(up[i].modified != up[j].modified);
        assert(!up[j].modified.earlier(up[i].modified));
    }
    assert forall|i: int, j: int| 0 <= i < j < entries.len() implies (#[trigger] down[j]).modified.earlier(
        (#[trigger] down[i]).modified,
    ) by {
        let n = up.len() as int;
        assert(down[i] == up[n - 1 - i]);
        assert(down[j] == up[n - 1 - j]);
        assert(up[n - 1 - j].modified.earlier(up[n - 1 - i].modified));
    }
}

/// Sorting records with distinct times leaves their times distinct.
proof fn lemma_distinct_times_kept(entries: Seq<Entry>)
    requires
        distinct_times(entries),
    ensures
        distinct_times(sorted_by(SortByOption::LastModified, entries)),
    decreases entries.len(),
{
    let by = SortByOption::LastModified;
    if entries.len() > 0 {
        let shorter = entries.drop_last();
        let x = entries.last();
        assert(distinct_times(shorter)) by {
            assert forall|i: int, j: int| 0 <= i < j < shorter.len() implies (
            #[trigger] shorter[i]).modified != (#[trigger] shorter[j]).modified by {
                assert(shorter[i] == entries[i] && shorter[j] == entries[j]);
            }
        }
        lemma_distinct_times_kept(shorter);
        let sorted = sorted_by(by, shorter);
        lemma_sorted_by_permutes(by, shorter);
        lemma_insert_point(by, sorted, x);
        let at = insert_point(by, sorted, x);
        let out = sorted.insert(at, x);
        assert forall|k: int| 0 <= k < sorted.len() implies (#[trigger] sorted[k]).modified
            != x.modified by {
            sorted.to_multiset_ensures();
            shorter.to_multiset_ensures();
            assert(sorted.contains(sorted[k]));
            assert(sorted.to_multiset().count(sorted[k]) > 0);
            assert(shorter.to_multiset().count(sorted[k]) > 0);
            assert(shorter.contains(sorted[k]));
            let m = choose|m: int| 0 <= m < shorter.len() && shorter[m] == sorted[k];
            assert(shorter[m] == entries[m]);
            assert(entries[m].modified != entries[entries.len() - 1].modified);
        }
        assert forall|i: int, j: int| 0 <= i < j < out.len() implies (#[trigger] out[i]).modified
            != (#[trigger] out[j]).modified by {
            if i == at {
                assert(out[j] == sorted[j - 1]);
            } else if j == at {
                assert(out[i] == sorted[i]);
            } else if j < at {
                assert(out[i] == sorted[i] && out[j] == sorted[j]);
            } else if i < at {
                assert(out[i] == sorted[i] && out[j] == sorted[j - 1]);
            } else {
                assert(out[i] == sorted[i - 1] && out[j] == sorted[j - 1]);
            }
        }
    }
}

/// Tells whether `a` has to stand behind `b` under the order `by`.
fn comes_after(by: SortByOption, a: &Entry, b: &Entry) -> (r: bool)
    ensures
        r == follows(by, *a, *b),
{
    let order = match by {
        SortByOption::Unsorted => Ordering::Equal,
        SortByOption::FirstCommit => Entry::cmp_first_commit(a, b),
        SortByOption::LastCommit => Entry::cmp_last_commit(a, b),
        SortByOption::LastModified => Entry::cmp_last_modified(a, b),
    };
    match order {
        Ordering::Greater => true,
        _ => false,
    }
}

/// Sorts `entries` in ascending order under `by`, keeping records that are
/// equal under `by` in the order they came in.
fn sort_entries(entries: &mut Vec<Entry>, by: SortByOption)
    ensures
        final(entries)@ == sorted_by(by, old(entries)@),
{
    let ghost input = entries@;
    let n = entries.len();
    let mut i: usize = 0;
    assert(input.take(0) =~= Seq::<Entry>::empty());
    assert(input.skip(0) =~= input);
    while i < n
        invariant
            0 <= i <= n,
            n == input.len(),
            entries@ == sorted_by(by, input.take(i as int)) + input.skip(i as int),
        decreases n - i,
    {
        let ghost done = sorted_by(by, input.take(i as int));
        proof {
            lemma_sorted_by_len(by, input.take(i as int));
        }
        let x = entries.remove(i);
        assert(x == input[i as int]);
        assert(entries@ =~= done + input.skip(i + 1));
        let mut at: usize = i;
        while at > 0 && comes_after(by, &entries[at - 1], &x)
            invariant
                0 <= at <= i,
                i < n,
                n == input.len(),
                done.len() == i,
                entries@ == done + input.skip(i + 1),
                forall|k: int| at <= k < i ==> follows(by, #[trigger] done[k], x),
            decreases at,
        {
            at -= 1;
        }
        entries.insert(at, x);
        proof {
            lemma_insert_at(by, done, x, at as int);
            assert(input.take(i + 1).drop_last() =~= input.take(i as int));
            assert(input.take(i + 1).last() == x);
            assert(entries@ =~= sorted_by(by, input.take(i + 1)) + input.skip(i + 1));
        }
        i += 1;
    }
    proof {
        assert(input.take(n as int) =~= input);
        assert(entries@ =~= sorted_by(by, input));
    }
}

/// Sorting neither adds nor drops a record.
pub proof fn lemma_sorted_by_len(by: SortByOption, entries: Seq<Entry>)
    ensures
        sorted_by(by, entries).len() == entries.len(),
    decreases entries.len(),
{
    if entries.len() > 0 {
        lemma_sorted_by_len(by, entries.drop_last());
        lemma_insert_stable_len(by, sorted_by(by, entries.drop_last()), entries.last());
    }
}

/// Putting one record in makes the sequence one longer.
pub proof fn lemma_insert_stable_len(by: SortByOption, sorted: Seq<Entry>, x: Entry)
    ensures
        insert_stable(by, sorted, x).len() == sorted.len() + 1,
    decreases sorted.len(),
{
    if sorted.len() > 0 && follows(by, sorted.last(), x) {
        lemma_insert_stable_len(by, sorted.drop_last(), x);
    }
}

/// Turns the order of `entries` round.
fn reverse_entries(entries: &mut Vec<Entry>)
    ensures
        final(entries)@ == old(entries)@.reverse(),
{
    let ghost input = entries@;
    let mut turned: Vec<Entry> = Vec::new();
    while entries.len() > 0
        invariant
            entries@.len() <= input.len(),
            entries@ == input.take(entries@.len() as int),
            turned@.len() == input.len() - entries@.len(),
            forall|k: int| 0 <= k < turned@.len() ==> turned@[k] == input[input.len() - 1 - k],
        decreases entries@.len(),
    {
        match entries.pop() {
            Some(last) => {
                turned.push(last);
                assert(entries@ =~= input.take(entries@.len() as int));
            },
            None => {},
        }
    }
    *entries = turned;
    assert(entries@ =~= input.reverse());
}

/// How many characters of an identifier are shown.
pub const SHORT_HASH_LENGTH: usize = 7;

/// The sixteen digits of the hexadecimal notation, in order.
pub open spec fn hex_digits() -> Seq<char> {
    "0123456789abcdef"@
}

/// The hexadecimal notation of `bytes`: two digits for each byte, the high
/// half first.
pub open spec fn hex_of(bytes: Seq<u8>) -> Seq<char> {
    Seq::new(
        2 * bytes.len(),
        |i: int|
            if i % 2 == 0 {
                hex_digits()[bytes[i / 2] as int / 16]
            } else {
                hex_digits()[bytes[i / 2] as int % 16]
            },
    )
}

/// The short form of an identifier: the first seven digits of its
/// hexadecimal notation.
pub open spec fn short_hash_of(id: Seq<u8>) -> Seq<char> {
    hex_of(id).take(SHORT_HASH_LENGTH as int)
}

/// Writes the short form of `id`.
pub fn short_hash(id: &RevisionId) -> (text: String)
    ensures
        text@ == short_hash_of(id@),
{
    let digits = "0123456789abcdef";
    proof {
        reveal_strlit("0123456789abcdef");
    }
    let mut text = String::new();
    let mut i: usize = 0;
    while i < SHORT_HASH_LENGTH
        invariant
            0 <= i <= SHORT_HASH_LENGTH,
            id@.len() == 20,
            digits@ == hex_digits(),
            digits@.len() == 16,
            text@ == hex_of(id@).take(i as int),
        decreases SHORT_HASH_LENGTH - i,
    {
        let byte = id.bytes[i / 2];
        let digit: usize = if i % 2 == 0 {
            (byte / 16) as usize
        } else {
            (byte % 16) as usize
        };
        text.append(digits.substring_char(digit, digit + 1));
        proof {
            let full = hex_of(id@);
            assert(digits@.subrange(digit as int, digit + 1) =~= seq![digits@[digit as int]]);
            assert(full[i as int] == digits@[digit as int]);
            assert(text@ =~= full.take(i + 1));
        }
        i += 1;
    }
    text
}

/// What is shown of the revision that introduced a line.
#[derive(Debug)]
pub struct CommitLabel {
    /// The identifier of the revision.
    pub id: RevisionId,
    /// The short form of the identifier.
    pub short_id: String,
    /// The first paragraph of the message, where there is one.
    pub summary: Option<String>,
}

/// The revision that a label shows, if there is a label.
pub open spec fn shown_revision(label: Option<CommitLabel>) -> Option<RevisionMetadata> {
    match label {
        Some(l) => Some(RevisionMetadata { id: l.id, summary: l.summary }),
        None => None,
    }
}

/// Holds the records of a scan, puts them in order and looks up what is
/// shown with each.
pub struct Printer {
    entries: Vec<Entry>,
    git_ctx: GitContext,
    options: Options,
}

impl Printer {
    /// The records, in their present order.
    pub closed spec fn records(&self) -> Seq<Entry> {
        self.entries@
    }

    /// The context of version control.
    pub closed spec fn context(&self) -> GitContext {
        self.git_ctx
    }

    /// What the user asked for.
    pub closed spec fn settings(&self) -> Options {
        self.options
    }

    /// Takes the records of a scan as they came.
    pub fn new(entries: Vec<Entry>, git_ctx: GitContext, options: Options) -> (printer: Printer)
        ensures
            printer.records() == entries@,
            printer.context() == git_ctx,
            printer.settings() == options,
    {
        Printer { entries, git_ctx, options }
    }

    /// Puts the records in the order that the options ask for. Records
    /// with distinct times, sorted by time, come out strictly ascending,
    /// and strictly descending when the reverse flag is set.
    pub fn sort(&mut self)
        ensures
            final(self).records() == arranged(
                old(self).settings().sort_by,
                old(self).settings().reverse,
                old(self).records(),
            ),
            final(self).context() == old(self).context(),
            final(self).settings() == old(self).settings(),
            old(self).settings().sort_by == SortByOption::LastModified && distinct_times(
                old(self).records(),
            ) ==> in_time_order(final(self).records(), old(self).settings().reverse),
    {
        proof {
            if self.options.sort_by == SortByOption::LastModified && distinct_times(self.entries@) {
                lemma_reversed_time_order(self.entries@);
                lemma_sorted_by_len(SortByOption::LastModified, self.entries@);
            }
        }
        sort_entries(&mut self.entries, self.options.sort_by);
        if self.options.reverse {
            reverse_entries(&mut self.entries);
        }
    }

    /// Puts the records in the order that the options ask for: ascending
    /// under the chosen order, equal records staying as they came, and the
    /// whole turned round when the reverse flag is set.
    pub fn prepare(self) -> (printer: Printer)
        ensures
            printer.records() == arranged(
                self.settings().sort_by,
                self.settings().reverse,
                self.records(),
            ),
            printer.context() == self.context(),
            printer.settings() == self.settings(),
            self.settings().sort_by == SortByOption::LastModified && distinct_times(self.records())
                ==> in_time_order(printer.records(), self.settings().reverse),
    {
        let mut printer = self;
        printer.sort();
        printer
    }

    /// The context of version control.
    pub fn git_context(&self) -> (ctx: &GitContext)
        ensures
            *ctx == self.context(),
    {
        &self.git_ctx
    }

    /// The number of records.
    pub fn len(&self) -> (n: usize)
        ensures
            n == self.records().len(),
    {
        self.entries.len()
    }

    /// The record at position `at`.
    pub fn entry(&self, at: usize) -> (entry: &Entry)
        requires
            at < self.records().len(),
        ensures
            *entry == self.records()[at as int],
    {
        &self.entries[at]
    }

    /// What is shown of the revision that introduced the line of the record
    /// at position `at`: nothing when that revision is not known, or when
    /// looking it up finds nothing. The lookup goes through the cache of
    /// the context.
    pub fn print_commit(&mut self, at: usize) -> (label: Option<CommitLabel>)
        requires
            at < old(self).records().len(),
            old(self).context().wf(),
        ensures
            final(self).records() == old(self).records(),
            final(self).settings() == old(self).settings(),
            final(self).context().wf(),
            label matches Some(l) ==> l.short_id@ == short_hash_of(l.id@) && Some(l.id@) == match old(
                self,
            ).records()[at as int].origin() {
                Some(id) => Some(id@),
                None => None,
            },
            match old(self).records()[at as int].origin() {
                None => label is None && final(self).context() == old(self).context(),
                Some(id) => resolve_step(
                    old(self).context(),
                    id@,
                    final(self).context(),
                    shown_revision(label),
                ),
            },
    {
        match self.entries[at].orig_commit() {
            None => None,
            Some(id) => {
                match self.git_ctx.find_commit(id) {
                    None => None,
                    Some(meta) => {
                        let summary = match &meta.summary {
                            Some(text) => Some(text.clone()),
                            None => None,
                        };
                        Some(CommitLabel { id: meta.id, short_id: short_hash(&meta.id), summary })
                    },
                }
            },
        }
    }

    /// Gives the records, the context and the options back.
    pub fn into_parts(self) -> (parts: (Vec<Entry>, GitContext, Options))
        ensures
            parts.0@ == self.records(),
            parts.1 == self.context(),
            parts.2 == self.settings(),
    {
        (self.entries, self.git_ctx, self.options)
    }
}

} // verus!
