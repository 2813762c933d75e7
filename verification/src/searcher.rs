use crate::entry::{strip_indent, Entry, Timestamp};
use crate::error::LstodoError;
use crate::git::GitContext;
use crate::walk::{WalkEntry, WalkStep};
use vstd::prelude::*;
use vstd::string::*;

verus! {

/// A set of compiled patterns.
#[verifier::external_type_specification]
#[verifier::external_body]
pub struct ExRegexSet(regex::RegexSet);

/// The patterns that a compiled set was made from, in the order given.
pub uninterp spec fn set_patterns(set: regex::RegexSet) -> Seq<Seq<char>>;

/// Whether a compiled set was made with the options that
/// `regex::RegexSet::new` gives it, and with no others.
pub uninterp spec fn made_by_default(set: regex::RegexSet) -> bool;

/// Whether `patterns` compile to a set, as `regex::RegexSet::new` decides.
pub uninterp spec fn patterns_compile(patterns: Seq<Seq<char>>) -> bool;

/// Whether at least one pattern of `patterns` matches somewhere in `line`,
/// as `regex::RegexSet::matches` decides for a set made of them with the
/// default options.
pub uninterp spec fn any_pattern_matches(patterns: Seq<Seq<char>>, line: Seq<char>) -> bool;

/// Compiles `rules` into one set with `regex::RegexSet::new`. It succeeds
/// exactly when the patterns compile, and the set then holds them in the
/// order given.
#[verifier::external_body]
fn compile_patterns(rules: &Vec<String>) -> (r: Result<regex::RegexSet, regex::Error>)
    ensures
        r is Ok <==> patterns_compile(rules.deep_view()),
        r matches Ok(set) ==> set_patterns(set) == rules.deep_view() && made_by_default(set),
{
    regex::RegexSet::new(rules)
}

/// Runs `regex::RegexSet::matches` on `line` and tells with
/// `regex::SetMatches::matched_any` whether any pattern of the set matched.
/// For a set made with the default options the answer depends on its
/// patterns and on `line` alone.
#[verifier::external_body]
fn set_matches_any(set: &regex::RegexSet, line: &str) -> (r: bool)
    ensures
        made_by_default(*set) ==> r == any_pattern_matches(set_patterns(*set), line@),
{
    set.matches(line).matched_any()
}

/// The pattern that finds a line comment which opens with the word "todo",
/// in any mix of upper and lower case, after any amount of white space.
pub const DEFAULT_REGEXS: [&'static str; 1] = ["(?i)//\\s*todo"];

/// The texts of `rules`, one for one.
pub open spec fn rule_texts(rules: Seq<&str>) -> Seq<Seq<char>> {
    Seq::new(rules.len(), |i: int| rules[i]@)
}

/// Collects what a searcher is made from: the directory to scan, the
/// patterns to look for and, if there is one, the context of version
/// control.
pub struct RegexSearcherBuilder {
    root: String,
    rules: Vec<String>,
    git_ctx: Option<GitContext>,
}

impl RegexSearcherBuilder {
    /// The directory to scan.
    pub closed spec fn root(&self) -> Seq<char> {
        self.root@
    }

    /// The patterns collected so far, in the order given.
    pub closed spec fn rules(&self) -> Seq<Seq<char>> {
        self.rules.deep_view()
    }

    /// The context of version control, if one was given.
    pub closed spec fn context(&self) -> Option<GitContext> {
        self.git_ctx
    }

    /// Starts a builder for the directory `root`, with no pattern and no
    /// context of version control.
    pub fn new(root: String) -> (builder: RegexSearcherBuilder)
        ensures
            builder.root() == root@,
            builder.rules() == Seq::<Seq<char>>::empty(),
            builder.context() is None,
    {
        let builder = RegexSearcherBuilder { root, rules: Vec::new(), git_ctx: None };
        assert(builder.rules.deep_view() =~= Seq::<Seq<char>>::empty());
        builder
    }

    /// Adds `rules` behind the patterns collected so far.
    pub fn add_rules(self, rules: &[&str]) -> (builder: RegexSearcherBuilder)
        ensures
            builder.root() == self.root(),
            builder.context() == self.context(),
            builder.rules() == self.rules() + rule_texts(rules@),
    {
        let ghost before = self.rules.deep_view();
        let RegexSearcherBuilder { root, rules: mut all, git_ctx } = self;
        let mut i: usize = 0;
        while i < rules.len()
            invariant
                0 <= i <= rules@.len(),
                all.deep_view() == before + rule_texts(rules@).take(i as int),
            decreases rules@.len() - i,
        {
            let ghost prev = all.deep_view();
            all.push(rules[i].to_owned());
            proof {
                let texts = rule_texts(rules@);
                assert(all.deep_view() =~= prev.push(texts[i as int]));
                assert(texts.take(i + 1) =~= texts.take(i as int).push(texts[i as int]));
                assert(all.deep_view() =~= before + texts.take(i + 1));
            }
            i += 1;
        }
        proof {
            assert(rule_texts(rules@).take(i as int) =~= rule_texts(rules@));
        }
        RegexSearcherBuilder { root, rules: all, git_ctx }
    }

    /// Sets the context of version control.
    pub fn git_ctx(self, git_ctx: GitContext) -> (builder: RegexSearcherBuilder)
        ensures
            builder.root() == self.root(),
            builder.rules() == self.rules(),
            builder.context() == Some(git_ctx),
    {
        RegexSearcherBuilder { root: self.root, rules: self.rules, git_ctx: Some(git_ctx) }
    }

    /// Compiles the patterns into one matcher. Fails, and builds nothing,
    /// exactly when they do not compile.
    pub fn build(self) -> (r: Result<RegexSearcher, LstodoError>)
        ensures
            r is Ok <==> patterns_compile(self.rules()),
            r matches Ok(searcher) ==> {
                &&& searcher.patterns() == self.rules()
                &&& searcher.root() == self.root()
                &&& searcher.context() == self.context()
            },
            r matches Err(e) ==> e is Pattern,
    {
        match compile_patterns(&self.rules) {
            Ok(regex) => Ok(RegexSearcher { regex, root: self.root, git_ctx: self.git_ctx }),
            Err(e) => Err(LstodoError::Pattern(e)),
        }
    }
}

/// Positions, counted from zero and ascending, of the lines among the first
/// `n` of `lines` that match one of `patterns`.
pub open spec fn matching_upto(patterns: Seq<Seq<char>>, lines: Seq<Seq<char>>, n: nat) -> Seq<int>
    decreases n,
{
    if n == 0 {
        Seq::empty()
    } else {
        let before = matching_upto(patterns, lines, (n - 1) as nat);
        if any_pattern_matches(patterns, lines[n - 1]) {
            before.push(n - 1)
        } else {
            before
        }
    }
}

/// Positions, counted from zero and ascending, of the lines of `lines` that
/// match one of `patterns`.
pub open spec fn matching_lines(patterns: Seq<Seq<char>>, lines: Seq<Seq<char>>) -> Seq<int> {
    matching_upto(patterns, lines, lines.len())
}

/// `matching_upto` lists exactly the positions below `n` whose lines match,
/// each once and in ascending order.
pub proof fn lemma_matching_upto(patterns: Seq<Seq<char>>, lines: Seq<Seq<char>>, n: nat)
    ensures
        forall|k: int|
            0 <= k < matching_upto(patterns, lines, n).len() ==> {
                let at = #[trigger] matching_upto(patterns, lines, n)[k];
                0 <= at < n && any_pattern_matches(patterns, lines[at])
            },
        forall|j: int, k: int|
            0 <= j < k < matching_upto(patterns, lines, n).len() ==> matching_upto(
                patterns,
                lines,
                n,
            )[j] < matching_upto(patterns, lines, n)[k],
        forall|at: int|
            0 <= at < n && any_pattern_matches(patterns, #[trigger] lines[at]) ==> matching_upto(
                patterns,
                lines,
                n,
            ).contains(at),
    decreases n,
{
    if n > 0 {
        let m = (n - 1) as nat;
        lemma_matching_upto(patterns, lines, m);
        let before = matching_upto(patterns, lines, m);
        let now = matching_upto(patterns, lines, n);
        assert forall|at: int|
            0 <= at < n && any_pattern_matches(patterns, #[trigger] lines[at]) implies now.contains(
            at,
        ) by {
            if at < m {
                assert(before.contains(at));
                let k = choose|k: int| 0 <= k < before.len() && before[k] == at;
                assert(now[k] == at);
            } else {
                assert(now[now.len() - 1] == at);
            }
        }
    }
}

/// True when `entry` records line `number` of the file `path`, whose text
/// is `line`: the content is the line without its leading indentation, and
/// without a repository to ask no revision is known.
pub open spec fn is_record_of(
    entry: Entry,
    path: Seq<char>,
    number: int,
    line: Seq<char>,
    modified: Timestamp,
    with_history: bool,
) -> bool {
    &&& entry.path@ == path
    &&& entry.line_number == number
    &&& entry.content@ == strip_indent(line)
    &&& entry.modified == modified
    &&& !with_history ==> entry.history is None
}

/// The more lines are looked at, the more of them match.
pub proof fn lemma_matching_upto_grows(
    patterns: Seq<Seq<char>>,
    lines: Seq<Seq<char>>,
    m: nat,
    n: nat,
)
    requires
        m <= n,
    ensures
        matching_upto(patterns, lines, m).len() <= matching_upto(patterns, lines, n).len(),
    decreases n,
{
    if m < n {
        lemma_matching_upto_grows(patterns, lines, m, (n - 1) as nat);
    }
}

/// What the scan of one file does to the records, from `before` to
/// `after`, and how it ends. It succeeds whenever there is no repository
/// to ask, and whenever no line matches, for then nothing is asked. A
/// failure is one of the repository and leaves the records as they were.
/// On success the old records stay in front, and one record follows for
/// each line that matches, in the order of the lines, numbered from one.
pub open spec fn scan_outcome(
    patterns: Seq<Seq<char>>,
    path: Seq<char>,
    lines: Seq<Seq<char>>,
    modified: Timestamp,
    with_history: bool,
    before: Seq<Entry>,
    after: Seq<Entry>,
    r: Result<(), LstodoError>,
) -> bool {
    let hits = matching_lines(patterns, lines);
    &&& !with_history ==> r is Ok
    &&& hits.len() == 0 ==> r is Ok
    &&& r matches Err(e) ==> e is Git && after == before
    &&& r is Ok ==> {
        &&& after.len() == before.len() + hits.len()
        &&& after.take(before.len() as int) == before
        &&& forall|k: int|
            0 <= k < hits.len() ==> is_record_of(
                #[trigger] after[before.len() + k],
                path,
                hits[k] + 1,
                lines[hits[k]],
                modified,
                with_history,
            )
    }
}

/// Whether an entry stays in the walk, given what the repository answered
/// when asked whether it is ignored: a hidden entry never stays, a
/// directory that is not hidden always does, and any other entry stays
/// unless it is ignored. A failed query is passed on.
pub open spec fn filter_verdict_of(
    hidden: bool,
    is_dir: bool,
    ignored: Result<bool, LstodoError>,
) -> Result<bool, LstodoError> {
    if hidden {
        Ok(false)
    } else if is_dir {
        Ok(true)
    } else {
        match ignored {
            Ok(ignored) => Ok(!ignored),
            Err(e) => Err(e),
        }
    }
}

/// Decides whether an entry stays in the walk once the repository has
/// answered.
pub fn filter_verdict(hidden: bool, is_dir: bool, ignored: Result<bool, LstodoError>) -> (r: Result<
    bool,
    LstodoError,
>)
    ensures
        r == filter_verdict_of(hidden, is_dir, ignored),
{
    if hidden {
        Ok(false)
    } else if is_dir {
        Ok(true)
    } else {
        match ignored {
            Ok(ignored) => Ok(!ignored),
            Err(e) => Err(e),
        }
    }
}

/// No hidden entry stays in the walk, and no entry other than a directory
/// that the repository reports as ignored.
pub proof fn lemma_filter_keeps(hidden: bool, is_dir: bool, ignored: Result<bool, LstodoError>)
    requires
        filter_verdict_of(hidden, is_dir, ignored) == Ok::<bool, LstodoError>(true),
    ensures
        !hidden,
        !is_dir ==> ignored == Ok::<bool, LstodoError>(false),
{
}

/// Looks for the lines of a directory tree that match a set of patterns.
pub struct RegexSearcher {
    regex: regex::RegexSet,
    root: String,
    git_ctx: Option<GitContext>,
}

impl RegexSearcher {
    #[verifier::type_invariant]
    spec fn made_from_patterns(&self) -> bool {
        made_by_default(self.regex)
    }

    /// The patterns of the matcher, in the order given.
    pub closed spec fn patterns(&self) -> Seq<Seq<char>> {
        set_patterns(self.regex)
    }

    /// The directory to scan.
    pub closed spec fn root(&self) -> Seq<char> {
        self.root@
    }

    /// The context of version control, if there is one.
    pub closed spec fn context(&self) -> Option<GitContext> {
        self.git_ctx
    }

    /// Tells whether at least one pattern matches somewhere in `line`.
    pub fn matches(&self, line: &str) -> (r: bool)
        ensures
            r == any_pattern_matches(self.patterns(), line@),
    {
        proof {
            use_type_invariant(self);
        }
        set_matches_any(&self.regex, line)
    }

    /// The directory to scan.
    pub fn root_dir(&self) -> (root: &str)
        ensures
            root@ == self.root(),
    {
        self.root.as_str()
    }

    /// The context of version control, if there is one.
    pub fn git_context(&self) -> (ctx: &Option<GitContext>)
        ensures
            *ctx == self.context(),
    {
        &self.git_ctx
    }

    /// Decides whether `entry` stays in the walk. A hidden entry is left
    /// out. Without a context of version control every other entry stays,
    /// and so does every directory. Any other entry stays unless `git_ctx`
    /// reports it as ignored; a failed query is passed on.
    pub fn file_filter(entry: &WalkEntry, git_ctx: &Option<GitContext>) -> (r: Result<
        bool,
        LstodoError,
    >)
        requires
            !entry.hidden() && !entry.is_dir ==> (git_ctx matches Some(ctx) ==> ctx.covers(
                entry.path@,
            )),
        ensures
            entry.hidden() ==> r == Ok::<bool, LstodoError>(false),
            !entry.hidden() && (entry.is_dir || git_ctx is None) ==> r == Ok::<bool, LstodoError>(
                true,
            ),
            !entry.hidden() && !entry.is_dir ==> (git_ctx matches Some(ctx) && (!ctx.is_bound()
                || ctx.converted(entry.path@).len() == 0) ==> r == Ok::<bool, LstodoError>(true)),
            r matches Err(e) ==> e is Git,
    {
        if entry.is_hidden() {
            return Ok(false);
        }
        match git_ctx {
            Some(ctx) => {
                if entry.is_dir {
                    Ok(true)
                } else {
                    filter_verdict(false, false, ctx.is_ignored(entry.path.as_str()))
                }
            },
            None => Ok(true),
        }
    }

    /// True when there is a repository to ask for the history of a line.
    pub open spec fn has_history(&self) -> bool {
        self.context() matches Some(ctx) && ctx.is_bound()
    }

    /// True when the context of version control, if there is one, can take
    /// `path`.
    pub open spec fn covers(&self, path: Seq<char>) -> bool {
        self.context() matches Some(ctx) ==> ctx.covers(path)
    }

    /// Tells whether the context of version control, if there is one, can
    /// take `path`.
    pub fn covers_path(&self, path: &str) -> (r: bool)
        ensures
            r == self.covers(path@),
    {
        match &self.git_ctx {
            Some(ctx) => ctx.covers_path(path),
            None => true,
        }
    }

    /// Scans the lines of one file, given in order, and appends one record
    /// to `results` for each line that matches, in the order of the lines.
    /// Lines are numbered from one. The history of a line is asked for only
    /// when the line matches. When the repository fails to answer, the scan
    /// ends with its error and `results` is as it was before; without a
    /// repository to ask, and without a line that matches, the scan cannot
    /// fail.
    pub fn search(
        &self,
        path: &str,
        lines: &Vec<String>,
        modified: Timestamp,
        results: &mut Vec<Entry>,
    ) -> (r: Result<(), LstodoError>)
        requires
            self.covers(path@),
        ensures
            scan_outcome(
                self.patterns(),
                path@,
                lines.deep_view(),
                modified,
                self.has_history(),
                old(results)@,
                final(results)@,
                r,
            ),
    {
        let first = results.len();
        let ghost start = results@.len() as int;
        let ghost texts = lines.deep_view();
        let ghost patterns = self.patterns();
        let mut i: usize = 0;
        while i < lines.len()
            invariant
                0 <= i <= lines@.len(),
                texts == lines.deep_view(),
                patterns == self.patterns(),
                self.covers(path@),
                start == old(results)@.len(),
                first == start,
                results@.len() == start + matching_upto(patterns, texts, i as nat).len(),
                results@.take(start) == old(results)@,
                forall|k: int|
                    0 <= k < matching_upto(patterns, texts, i as nat).len() ==> is_record_of(
                        #[trigger] results@[start + k],
                        path@,
                        matching_upto(patterns, texts, i as nat)[k] + 1,
                        texts[matching_upto(patterns, texts, i as nat)[k]],
                        modified,
                        self.has_history(),
                    ),
            decreases lines@.len() - i,
        {
            let ghost found = matching_upto(patterns, texts, i as nat);
            let ghost prev = results@;
            assert(texts[i as int] == lines@[i as int]@);
            if self.matches(lines[i].as_str()) {
                let number: usize = i + 1;
                let answer = match &self.git_ctx {
                    Some(ctx) => ctx.get_line_history(path, number),
                    None => Ok(None),
                };
                let history = match answer {
                    Ok(history) => history,
                    Err(e) => {
                        results.truncate(first);
                        proof {
                            assert(results@ =~= old(results)@);
                            let now = matching_upto(patterns, texts, (i + 1) as nat);
                            assert(now == found.push(i as int));
                            lemma_matching_upto_grows(
                                patterns,
                                texts,
                                (i + 1) as nat,
                                texts.len(),
                            );
                        }
                        return Err(e);
                    },
                };
                let entry = Entry::new(
                    path.to_owned(),
                    number as u64,
                    lines[i].clone(),
                    history,
                    modified,
                );
                results.push(entry);
                proof {
                    let now = matching_upto(patterns, texts, (i + 1) as nat);
                    assert(now == found.push(i as int));
                    assert(results@.take(start) =~= prev.take(start));
                    assert forall|k: int| 0 <= k < now.len() implies is_record_of(
                        #[trigger] results@[start + k],
                        path@,
                        now[k] + 1,
                        texts[now[k]],
                        modified,
                        self.has_history(),
                    ) by {
                        if k < found.len() {
                            assert(results@[start + k] == prev[start + k]);
                        }
                    }
                }
            }
            i += 1;
        }
        Ok(())
    }

    /// Goes on from one step of the walk: a file is scanned, its lines
    /// given in `lines`, and any other step leaves `results` as it is. So a
    /// record is made only of a file that the walk handed out, never of one
    /// that was left out as hidden or ignored, nor of a directory.
    pub fn scan_step(
        &self,
        step: &WalkStep,
        lines: &Vec<String>,
        modified: Timestamp,
        results: &mut Vec<Entry>,
    ) -> (r: Result<(), LstodoError>)
        requires
            step matches WalkStep::File(entry) ==> self.covers(entry.path@),
        ensures
            match *step {
                WalkStep::File(entry) => scan_outcome(
                    self.patterns(),
                    entry.path@,
                    lines.deep_view(),
                    modified,
                    self.has_history(),
                    old(results)@,
                    final(results)@,
                    r,
                ),
                _ => r is Ok && final(results)@ == old(results)@,
            },
    {
        match step {
            WalkStep::File(entry) => self.search(entry.path.as_str(), lines, modified, results),
            _ => Ok(()),
        }
    }

    /// Gives the context of version control back.
    pub fn into_git_context(self) -> (ctx: Option<GitContext>)
        ensures
            ctx == self.context(),
    {
        self.git_ctx
    }
}

} // verus!
