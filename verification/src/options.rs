use vstd::prelude::*;
use vstd::string::*;

verus! {

/// How the records are ordered before they are shown.
#[derive(Clone, Copy, Debug, PartialEq, Eq, Structural)]
pub enum SortByOption {
    /// No sorting: the records stay in the order of the scan.
    Unsorted,
    /// By the revision that introduced each line.
    FirstCommit,
    /// By the revision that last touched each line.
    LastCommit,
    /// By the time each file was last modified.
    LastModified,
}

/// The name of the order by the revision that introduced a line.
pub open spec fn first_commit_name() -> Seq<char> {
    seq!['f', 'c']
}

/// The name of the order by the revision that last touched a line.
pub open spec fn last_commit_name() -> Seq<char> {
    seq!['l', 'c']
}

/// The name of the order by the time of the last modification.
pub open spec fn last_modified_name() -> Seq<char> {
    seq!['l', 'm']
}

/// True when `name` is absent or names one of the three orders.
pub open spec fn is_sort_name(name: Option<Seq<char>>) -> bool {
    match name {
        None => true,
        Some(text) => text == first_commit_name() || text == last_commit_name() || text
            == last_modified_name(),
    }
}

/// The order that `name` stands for; no sorting when it is absent.
pub open spec fn sort_by_name(name: Option<Seq<char>>) -> SortByOption {
    match name {
        None => SortByOption::Unsorted,
        Some(text) => if text == first_commit_name() {
            SortByOption::FirstCommit
        } else if text == last_commit_name() {
            SortByOption::LastCommit
        } else {
            SortByOption::LastModified
        },
    }
}

/// The text of `name`, if there is one.
pub open spec fn name_text(name: Option<&str>) -> Option<Seq<char>> {
    match name {
        Some(text) => Some(text@),
        None => None,
    }
}

/// Tells whether `text` is made of the two characters `a` and `b`.
fn is_pair(text: &str, a: char, b: char) -> (r: bool)
    ensures
        r == (text@ == seq![a, b]),
{
    if text.unicode_len() == 2 {
        let same = text.get_char(0) == a && text.get_char(1) == b;
        proof {
            if same {
                assert(text@ =~= seq![a, b]);
            } else {
                assert(seq![a, b][0] == a && seq![a, b][1] == b);
            }
        }
        same
    } else {
        proof {
            assert(seq![a, b].len() == 2);
        }
        false
    }
}

impl SortByOption {
    /// Tells whether `name` is absent or names one of the three orders.
    pub fn is_known(name: Option<&str>) -> (r: bool)
        ensures
            r == is_sort_name(name_text(name)),
    {
        match name {
            None => true,
            Some(text) => is_pair(text, 'f', 'c') || is_pair(text, 'l', 'c') || is_pair(
                text,
                'l',
                'm',
            ),
        }
    }

    /// The order that `name` stands for: `fc`, `lc` and `lm` name the three
    /// orders, and without a name nothing is sorted.
    pub fn from(name: Option<&str>) -> (by: SortByOption)
        requires
            is_sort_name(name_text(name)),
        ensures
            by == sort_by_name(name_text(name)),
    {
        match name {
            None => SortByOption::Unsorted,
            Some(text) => if is_pair(text, 'f', 'c') {
                SortByOption::FirstCommit
            } else if is_pair(text, 'l', 'c') {
                SortByOption::LastCommit
            } else {
                SortByOption::LastModified
            },
        }
    }
}

/// What the user asked for.
#[derive(Debug)]
pub struct Options {
    /// The directory to scan, as an absolute path.
    pub root_dir: String,
    /// How to order the records.
    pub sort_by: SortByOption,
    /// Whether to turn the order round at the end.
    pub reverse: bool,
}

} // verus!
