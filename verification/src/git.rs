use crate::error::LstodoError;
use crate::path::{
    is_absolute, is_absolute_path, is_under, path_is_under, path_relative_to, relative_to,
};
use crate::revision::RevisionId;
use vstd::prelude::*;
use vstd::string::*;

verus! {

/// The handle of an open repository.
#[verifier::external_type_specification]
#[verifier::external_body]
pub struct ExRepository(git2::Repository);

/// Opens the repository that holds `root`, searching upwards from it, with
/// `git2::Repository::discover`. Whether one is found depends on what is on
/// disk, so nothing is promised of the result.
#[verifier::external_body]
fn discover_repository(root: &str) -> (found: Option<git2::Repository>) {
    git2::Repository::discover(root).ok()
}

/// The working directory of `repo`, from `git2::Repository::workdir`, as
/// text. Absent for a bare repository, and for a directory whose name is no
/// valid text.
#[verifier::external_body]
fn repository_workdir(repo: &git2::Repository) -> (dir: Option<String>) {
    repo.workdir().and_then(|p| p.to_str()).map(String::from)
}

/// Asks `git2::Repository::status_file` for the status of `rel`, a path
/// relative to the working directory, and reads the ignored flag off it
/// with `git2::Status::is_ignored`. The answer depends on what is on disk.
#[verifier::external_body]
fn status_is_ignored(repo: &git2::Repository, rel: &str) -> (outcome: Result<bool, git2::Error>) {
    repo.status_file(std::path::Path::new(rel)).map(|status| status.is_ignored())
}

/// The line-by-line history of one file.
#[verifier::external_type_specification]
#[verifier::external_body]
pub struct ExBlame<'a>(git2::Blame<'a>);

/// One revision as the backend hands it out.
#[verifier::external_type_specification]
#[verifier::external_body]
pub struct ExCommit<'a>(git2::Commit<'a>);

/// One stretch of lines of a file that share their history.
#[verifier::external_type_specification]
#[verifier::external_body]
pub struct ExBlameHunk<'a>(git2::BlameHunk<'a>);

/// Resolves the history of every line of `rel`, a path relative to the
/// working directory, with `git2::Repository::blame_file` and its default
/// options. The answer depends on what is on disk.
#[verifier::external_body]
fn blame_file<'a>(repo: &'a git2::Repository, rel: &str) -> (blame: Result<
    git2::Blame<'a>,
    git2::Error,
>) {
    repo.blame_file(std::path::Path::new(rel), None)
}

/// Asks `git2::Repository::is_empty` whether the repository holds no
/// revision yet. The answer depends on what is on disk.
#[verifier::external_body]
fn repository_is_empty(repo: &git2::Repository) -> (r: Result<bool, git2::Error>) {
    repo.is_empty()
}

/// Tells whether the code of `failure`, from `git2::Error::code`, is
/// `git2::ErrorCode::NotFound`: the backend holds nothing of what was
/// asked for.
#[verifier::external_body]
fn is_not_found(failure: &git2::Error) -> (r: bool) {
    failure.code() == git2::ErrorCode::NotFound
}

/// Finds with `git2::Blame::get_line` the stretch that holds line `line`,
/// counted from one. Absent when the history has no such line.
#[verifier::external_body]
fn blame_hunk<'a>(blame: &'a git2::Blame<'_>, line: usize) -> (hunk: Option<git2::BlameHunk<'a>>) {
    blame.get_line(line)
}

/// The identifier of the revision in which the lines of `hunk` were found,
/// from `git2::BlameHunk::orig_commit_id`. Absent when it is not twenty
/// bytes long.
#[verifier::external_body]
fn hunk_origin(hunk: &git2::BlameHunk<'_>) -> (id: Option<RevisionId>) {
    <[u8; 20]>::try_from(hunk.orig_commit_id().as_bytes()).ok().map(|bytes| RevisionId { bytes })
}

/// The identifier of the revision that last changed the lines of `hunk`,
/// from `git2::BlameHunk::final_commit_id`. Absent when it is not twenty
/// bytes long.
#[verifier::external_body]
fn hunk_latest(hunk: &git2::BlameHunk<'_>) -> (id: Option<RevisionId>) {
    <[u8; 20]>::try_from(hunk.final_commit_id().as_bytes()).ok().map(|bytes| RevisionId { bytes })
}

/// Looks up the revision `id` with `git2::Repository::find_commit`. Absent
/// when the repository holds no such revision or cannot be read.
#[verifier::external_body]
fn lookup_commit<'a>(repo: &'a git2::Repository, id: &RevisionId) -> (commit: Option<
    git2::Commit<'a>,
>) {
    git2::Oid::from_bytes(&id.bytes).ok().and_then(|oid| repo.find_commit(oid).ok())
}

/// The first paragraph of the message of `commit`, from
/// `git2::Commit::summary`. Absent when the message is empty or no valid
/// text.
#[verifier::external_body]
fn commit_summary(commit: &git2::Commit<'_>) -> (summary: Option<String>) {
    commit.summary().ok().flatten().map(String::from)
}

/// What an ignore query yields once the backend has answered: its answer,
/// or its failure as an error of this library.
pub open spec fn ignore_verdict_of(outcome: Result<bool, git2::Error>) -> Result<
    bool,
    LstodoError,
> {
    match outcome {
        Ok(ignored) => Ok(ignored),
        Err(e) => Err(LstodoError::Git(e)),
    }
}

/// Turns the backend's answer to an ignore query into the result of the
/// query. A failure of the backend is passed on, never read as "not
/// ignored".
pub fn ignore_verdict(outcome: Result<bool, git2::Error>) -> (r: Result<bool, LstodoError>)
    ensures
        r == ignore_verdict_of(outcome),
{
    match outcome {
        Ok(ignored) => Ok(ignored),
        Err(e) => Err(LstodoError::Git(e)),
    }
}

/// The two revisions of a line, known together or not at all.
pub open spec fn pair_of(origin: Option<RevisionId>, latest: Option<RevisionId>) -> Option<
    (RevisionId, RevisionId),
> {
    match (origin, latest) {
        (Some(first), Some(last)) => Some((first, last)),
        _ => None,
    }
}

/// Puts the revision that introduced a line and the one that last touched
/// it together, the first in front. Either both are known or none is.
pub fn revision_pair(origin: Option<RevisionId>, latest: Option<RevisionId>) -> (pair: Option<
    (RevisionId, RevisionId),
>)
    ensures
        pair == pair_of(origin, latest),
{
    match (origin, latest) {
        (Some(first), Some(last)) => Some((first, last)),
        _ => None,
    }
}

/// Whether there is any history to ask for, once the backend has said
/// whether the repository is still empty: none while it is empty. A
/// failure to find that out is passed on as an error.
pub open spec fn tracking_verdict_of(empty: Result<bool, git2::Error>) -> Result<
    bool,
    LstodoError,
> {
    match empty {
        Ok(empty) => Ok(!empty),
        Err(e) => Err(LstodoError::Git(e)),
    }
}

/// Turns the backend's answer to "is the repository empty" into the answer
/// to "is there any history to ask for".
pub fn tracking_verdict(empty: Result<bool, git2::Error>) -> (r: Result<bool, LstodoError>)
    ensures
        r == tracking_verdict_of(empty),
{
    match empty {
        Ok(empty) => Ok(!empty),
        Err(e) => Err(LstodoError::Git(e)),
    }
}

/// What a history query yields once the backend has answered. A pair that
/// was found, or the want of one, is handed on. A failure that only says
/// that the backend holds no data reads as "nothing known"; any other
/// failure is passed on as an error.
pub open spec fn history_verdict_of(
    answer: Result<Option<(RevisionId, RevisionId)>, git2::Error>,
    no_data: bool,
) -> Result<Option<(RevisionId, RevisionId)>, LstodoError> {
    match answer {
        Ok(pair) => Ok(pair),
        Err(e) => if no_data {
            Ok(None)
        } else {
            Err(LstodoError::Git(e))
        },
    }
}

/// Turns the backend's answer to a history query into the result of the
/// query; `no_data` tells whether a failure only says that the backend
/// holds no data.
pub fn history_verdict(
    answer: Result<Option<(RevisionId, RevisionId)>, git2::Error>,
    no_data: bool,
) -> (r: Result<Option<(RevisionId, RevisionId)>, LstodoError>)
    ensures
        r == history_verdict_of(answer, no_data),
{
    match answer {
        Ok(pair) => Ok(pair),
        Err(e) => if no_data {
            Ok(None)
        } else {
            Err(LstodoError::Git(e))
        },
    }
}

/// What is kept of one revision once it has been looked up.
#[derive(Debug)]
pub struct RevisionMetadata {
    /// The identifier of the revision.
    pub id: RevisionId,
    /// The first paragraph of its message, where it has one.
    pub summary: Option<String>,
}

/// Access to the facts of version control. It is either bound to a
/// repository or empty; an empty one answers every question with "nothing
/// known".
pub struct GitContext {
    repo: Option<git2::Repository>,
    workdir: Option<String>,
    commits: Vec<RevisionMetadata>,
    queries: u64,
}

/// True when no two entries of `commits` carry the same identifier.
pub open spec fn distinct_ids(commits: Seq<RevisionMetadata>) -> bool {
    forall|i: int, j: int|
        0 <= i < commits.len() && 0 <= j < commits.len() && i != j ==> commits[i].id@
            != commits[j].id@
}

/// How a lookup of `id` takes the context from `before` to `after` and what
/// it hands out. An empty context knows nothing and stays as it is. A
/// revision that was looked up before is served from the cache, which stays
/// as it is, and the backend is not asked. Otherwise the backend is asked
/// once: what it finds enters the cache under `id`, and what it does not
/// find leaves the cache as it was. Nothing ever leaves the cache.
pub open spec fn resolve_step(
    before: GitContext,
    id: Seq<u8>,
    after: GitContext,
    r: Option<RevisionMetadata>,
) -> bool {
    &&& after.is_bound() == before.is_bound()
    &&& after.working_dir() == before.working_dir()
    &&& r matches Some(found) ==> found.id@ == id
    &&& if !before.is_bound() {
        r is None && after == before
    } else if before.cache().dom().contains(id) {
        r == Some(before.cache()[id]) && after == before
    } else {
        &&& after.backend_queries() == if before.backend_queries() < u64::MAX {
            before.backend_queries() + 1
        } else {
            u64::MAX as int
        }
        &&& match r {
            Some(found) => found.id@ == id && after.cache() == before.cache().insert(id, found),
            None => after.cache() == before.cache(),
        }
    }
}

/// Looking a revision up a second time hands out what the first lookup
/// found, which carries the identifier asked for, leaves the cache as it is
/// and does not ask the backend again.
pub proof fn lemma_resolve_twice(
    s0: GitContext,
    s1: GitContext,
    s2: GitContext,
    id: Seq<u8>,
    r1: Option<RevisionMetadata>,
    r2: Option<RevisionMetadata>,
)
    requires
        resolve_step(s0, id, s1, r1),
        r1 is Some,
        resolve_step(s1, id, s2, r2),
    ensures
        r2 == r1,
        r2 matches Some(found) && found.id@ == id,
        s1.cache().dom().contains(id) && s1.cache()[id] == r1->0,
        s2 == s1,
        s2.backend_queries() == s1.backend_queries(),
        s1.backend_queries() <= s0.backend_queries() + 1,
{
}

/// An empty context answers every lookup with "nothing known".
pub proof fn lemma_resolve_empty(
    s0: GitContext,
    s1: GitContext,
    id: Seq<u8>,
    r: Option<RevisionMetadata>,
)
    requires
        !s0.is_bound(),
        resolve_step(s0, id, s1, r),
    ensures
        r is None,
        s1 == s0,
{
}

impl GitContext {
    /// True when a repository is bound.
    pub closed spec fn is_bound(&self) -> bool {
        self.repo is Some
    }

    /// The working directory of the bound repository, where it has one.
    pub closed spec fn working_dir(&self) -> Option<Seq<char>> {
        match self.workdir {
            Some(dir) => Some(dir@),
            None => None,
        }
    }

    /// The revisions looked up so far, each under its identifier.
    pub closed spec fn cache(&self) -> Map<Seq<u8>, RevisionMetadata> {
        Map::new(
            |id: Seq<u8>| exists|i: int| 0 <= i < self.commits@.len() && self.commits@[i].id@ == id,
            |id: Seq<u8>|
                self.commits@[choose|i: int|
                    0 <= i < self.commits@.len() && self.commits@[i].id@ == id],
        )
    }

    /// How often the backend was asked for a revision.
    pub closed spec fn backend_queries(&self) -> int {
        self.queries as int
    }

    /// True when the cache is sound: no revision is held twice.
    pub closed spec fn wf(&self) -> bool {
        distinct_ids(self.commits@)
    }

    /// True when `path` can be turned into the form the backend takes: any
    /// path for an empty context, a relative path, or an absolute one at or
    /// below the working directory.
    pub open spec fn covers(&self, path: Seq<char>) -> bool {
        self.is_bound() && is_absolute(path) ==> (self.working_dir() matches Some(dir) && is_under(
            path,
            dir,
        ))
    }

    /// The form of `path` that the backend takes: an absolute path loses the
    /// working directory at its front, a relative one stays as it is.
    pub open spec fn converted(&self, path: Seq<char>) -> Seq<char> {
        if is_absolute(path) {
            relative_to(path, self.working_dir().unwrap())
        } else {
            path
        }
    }

    /// Creates an empty context, bound to no repository.
    pub fn new() -> (ctx: GitContext)
        ensures
            ctx.wf(),
            !ctx.is_bound(),
            ctx.working_dir() is None,
            ctx.cache() == Map::<Seq<u8>, RevisionMetadata>::empty(),
            ctx.backend_queries() == 0,
    {
        let ctx = GitContext { repo: None, workdir: None, commits: Vec::new(), queries: 0 };
        assert(ctx.cache() =~= Map::<Seq<u8>, RevisionMetadata>::empty());
        ctx
    }

    /// Binds the context to `repo`, whose working directory is `workdir`.
    /// What was looked up before stays.
    pub fn bind(&mut self, repo: git2::Repository, workdir: Option<String>)
        ensures
            old(self).wf() ==> final(self).wf(),
            final(self).is_bound(),
            final(self).working_dir() == match workdir {
                Some(dir) => Some(dir@),
                None => None,
            },
            final(self).cache() == old(self).cache(),
            final(self).backend_queries() == old(self).backend_queries(),
    {
        self.repo = Some(repo);
        self.workdir = workdir;
    }

    /// Binds the context to the repository that holds `root`, if there is
    /// one; otherwise the context stays as it was.
    pub fn with_dir(&mut self, root: &str)
        ensures
            old(self).wf() ==> final(self).wf(),
            final(self).is_bound() || *final(self) == *old(self),
            old(self).is_bound() ==> final(self).is_bound(),
            final(self).cache() == old(self).cache(),
            final(self).backend_queries() == old(self).backend_queries(),
    {
        match discover_repository(root) {
            Some(repo) => {
                let workdir = repository_workdir(&repo);
                self.bind(repo, workdir);
            },
            None => {},
        }
    }

    /// Tells whether a repository is bound.
    pub fn has_repository(&self) -> (r: bool)
        ensures
            r == self.is_bound(),
    {
        self.repo.is_some()
    }

    /// Tells whether `path` can be turned into the form the backend takes.
    pub fn covers_path(&self, path: &str) -> (r: bool)
        ensures
            r == self.covers(path@),
    {
        if self.repo.is_none() || !is_absolute_path(path) {
            return true;
        }
        match &self.workdir {
            Some(dir) => path_is_under(path, dir.as_str()),
            None => false,
        }
    }

    /// Turns `path` into the form the backend takes.
    fn convert_path(&self, path: &str) -> (rel: String)
        requires
            self.is_bound(),
            self.covers(path@),
        ensures
            rel@ == self.converted(path@),
    {
        if is_absolute_path(path) {
            match &self.workdir {
                Some(dir) => path_relative_to(path, dir.as_str()),
                None => path.to_owned(),
            }
        } else {
            path.to_owned()
        }
    }

    /// Tells whether the ignore rules of the repository cover `path`. An
    /// empty context ignores nothing, and the working directory itself is
    /// never ignored; in both cases the backend is not asked. Otherwise the
    /// backend decides, and its failure is passed on.
    pub fn is_ignored(&self, path: &str) -> (r: Result<bool, LstodoError>)
        requires
            self.covers(path@),
        ensures
            !self.is_bound() ==> r == Ok::<bool, LstodoError>(false),
            self.is_bound() && self.converted(path@).len() == 0 ==> r == Ok::<bool, LstodoError>(
                false,
            ),
            r matches Err(e) ==> e is Git,
    {
        match &self.repo {
            Some(repo) => {
                let rel = self.convert_path(path);
                if rel.as_str().is_empty() {
                    Ok(false)
                } else {
                    ignore_verdict(status_is_ignored(repo, rel.as_str()))
                }
            },
            None => Ok(false),
        }
    }

    /// The revision that introduced line `line_number` of `path` and the
    /// one that last touched it, lines counted from one. An empty context
    /// knows of none, and neither has the working directory itself any; in
    /// both cases the backend is not asked. Otherwise the backend decides:
    /// the pair is absent while the repository holds no revision, when the
    /// backend holds no data for the file, as
    /// for a file that is not tracked yet, or when its history has no such
    /// line, as for a line that is not committed yet. Any other failure of
    /// the backend is passed on.
    pub fn get_line_history(&self, path: &str, line_number: usize) -> (r: Result<
        Option<(RevisionId, RevisionId)>,
        LstodoError,
    >)
        requires
            self.covers(path@),
            self.is_bound() ==> line_number >= 1,
        ensures
            !self.is_bound() ==> r == Ok::<Option<(RevisionId, RevisionId)>, LstodoError>(None),
            self.is_bound() && self.converted(path@).len() == 0 ==> r == Ok::<
                Option<(RevisionId, RevisionId)>,
                LstodoError,
            >(None),
            r matches Err(e) ==> e is Git,
    {
        match &self.repo {
            Some(repo) => {
                let rel = self.convert_path(path);
                if rel.as_str().is_empty() {
                    return Ok(None);
                }
                match tracking_verdict(repository_is_empty(repo)) {
                    Ok(true) => {},
                    Ok(false) => {
                        return Ok(None);
                    },
                    Err(e) => {
                        return Err(e);
                    },
                }
                let answer = match blame_file(repo, rel.as_str()) {
                    Ok(blame) => Ok(
                        match blame_hunk(&blame, line_number) {
                            Some(hunk) => revision_pair(hunk_origin(&hunk), hunk_latest(&hunk)),
                            None => None,
                        },
                    ),
                    Err(e) => Err(e),
                };
                let no_data = match &answer {
                    Ok(_) => false,
                    Err(e) => is_not_found(e),
                };
                history_verdict(answer, no_data)
            },
            None => Ok(None),
        }
    }

    /// How often the backend was asked for a revision so far.
    pub fn query_count(&self) -> (n: u64)
        ensures
            n == self.backend_queries(),
    {
        self.queries
    }

    /// Position in the cache of the revision `id`.
    fn cache_index(&self, id: &RevisionId) -> (at: Option<usize>)
        ensures
            match at {
                Some(i) => i < self.commits@.len() && self.commits@[i as int].id@ == id@,
                None => forall|i: int| 0 <= i < self.commits@.len() ==> self.commits@[i].id@ != id@,
            },
    {
        let mut i: usize = 0;
        while i < self.commits.len()
            invariant
                0 <= i <= self.commits@.len(),
                forall|j: int| 0 <= j < i ==> self.commits@[j].id@ != id@,
            decreases self.commits@.len() - i,
        {
            if self.commits[i].id.same_as(id) {
                return Some(i);
            }
            i += 1;
        }
        None
    }

    /// Tells whether the revision `id` was looked up before.
    pub fn is_cached(&self, id: &RevisionId) -> (r: bool)
        requires
            self.wf(),
        ensures
            r == self.cache().dom().contains(id@),
    {
        match self.cache_index(id) {
            Some(i) => {
                proof {
                    self.lemma_cache_at(i as int);
                }
                true
            },
            None => false,
        }
    }

    /// Keeps what the backend answered when asked for the revision `id`,
    /// which was not looked up before: what it found enters the cache under
    /// `id` and is handed out; when it found nothing the context stays as
    /// it is. `found` holds the first paragraph of the message, where the
    /// revision has one.
    pub fn remember(&mut self, id: RevisionId, found: Option<Option<String>>) -> (r: Option<
        &RevisionMetadata,
    >)
        requires
            old(self).wf(),
            old(self).is_bound(),
            !old(self).cache().dom().contains(id@),
        ensures
            final(self).wf(),
            final(self).is_bound(),
            final(self).working_dir() == old(self).working_dir(),
            final(self).backend_queries() == old(self).backend_queries(),
            found matches Some(summary) ==> r matches Some(kept) && kept.id@ == id@ && kept.summary
                == summary && final(self).cache() == old(self).cache().insert(id@, *kept),
            found is None ==> r is None && *final(self) == *old(self),
    {
        match found {
            Some(summary) => {
                let ghost before = *self;
                assert forall|i: int| 0 <= i < self.commits@.len() implies self.commits@[i].id@
                    != id@ by {
                    if self.commits@[i].id@ == id@ {
                        assert(self.cache().dom().contains(id@));
                    }
                }
                self.commits.push(RevisionMetadata { id, summary });
                proof {
                    assert(self.commits@.drop_last() =~= before.commits@);
                    before.lemma_cache_push(*self);
                }
                let at = self.commits.len() - 1;
                Some(&self.commits[at])
            },
            None => None,
        }
    }

    /// What is known of the revision `oid`. An empty context knows nothing.
    /// A revision that was looked up before is served from the cache;
    /// otherwise the backend is asked once and its answer is kept. Absent
    /// also where the backend holds no such revision.
    pub fn find_commit(&mut self, oid: RevisionId) -> (r: Option<&RevisionMetadata>)
        requires
            old(self).wf(),
        ensures
            final(self).wf(),
            resolve_step(*old(self), oid@, *final(self), match r {
                Some(found) => Some(*found),
                None => None,
            }),
    {
        if self.repo.is_none() {
            return None;
        }
        match self.cache_index(&oid) {
            Some(at) => {
                proof {
                    self.lemma_cache_at(at as int);
                }
                Some(&self.commits[at])
            },
            None => {
                if self.queries < u64::MAX {
                    self.queries = self.queries + 1;
                }
                let found = match &self.repo {
                    Some(repo) => match lookup_commit(repo, &oid) {
                        Some(commit) => Some(commit_summary(&commit)),
                        None => None,
                    },
                    None => None,
                };
                self.remember(oid, found)
            },
        }
    }

    /// Every record of the cache carries the identifier it is kept under.
    pub proof fn lemma_cache_keys(self)
        requires
            self.wf(),
        ensures
            forall|id: Seq<u8>|
                self.cache().dom().contains(id) ==> (#[trigger] self.cache()[id]).id@ == id,
    {
        assert forall|id: Seq<u8>| self.cache().dom().contains(id) implies (
        #[trigger] self.cache()[id]).id@ == id by {
            let i = choose|i: int| 0 <= i < self.commits@.len() && self.commits@[i].id@ == id;
            self.lemma_cache_at(i);
        }
    }

    /// The entry at position `i` is what the cache holds under its
    /// identifier.
    proof fn lemma_cache_at(self, i: int)
        requires
            distinct_ids(self.commits@),
            0 <= i < self.commits@.len(),
        ensures
            self.cache().dom().contains(self.commits@[i].id@),
            self.cache()[self.commits@[i].id@] == self.commits@[i],
    {
    }

    /// Appending an entry with a new identifier inserts it into the cache.
    proof fn lemma_cache_push(self, after: GitContext)
        requires
            distinct_ids(self.commits@),
            after.commits@.len() == self.commits@.len() + 1,
            after.commits@.drop_last() == self.commits@,
            forall|i: int|
                0 <= i < self.commits@.len() ==> self.commits@[i].id@ != after.commits@.last().id@,
        ensures
            distinct_ids(after.commits@),
            after.cache() == self.cache().insert(after.commits@.last().id@, after.commits@.last()),
    {
        let last = after.commits@.last();
        assert forall|i: int| 0 <= i < self.commits@.len() implies after.commits@[i]
            == self.commits@[i] by {
            assert(after.commits@.drop_last()[i] == after.commits@[i]);
        }
        after.lemma_cache_at(self.commits@.len() as int);
        assert forall|id: Seq<u8>| self.cache().dom().contains(id) implies after.cache().dom().contains(
            id,
        ) && after.cache()[id] == self.cache()[id] by {
            let i = choose|i: int| 0 <= i < self.commits@.len() && self.commits@[i].id@ == id;
            self.lemma_cache_at(i);
            after.lemma_cache_at(i);
        }
        assert forall|id: Seq<u8>| after.cache().dom().contains(id) && id != last.id@ implies self.cache().dom().contains(
            id,
        ) by {
            let i = choose|i: int| 0 <= i < after.commits@.len() && after.commits@[i].id@ == id;
            assert(i < self.commits@.len());
            self.lemma_cache_at(i);
        }
        assert(after.cache() =~= self.cache().insert(last.id@, last));
    }
}

} // verus!
