use crate::error::LstodoError;
use crate::git::GitContext;
use crate::searcher::{filter_verdict_of, RegexSearcher};
use vstd::prelude::*;
use vstd::string::*;

verus! {

/// A walk over a directory tree, under way.
#[verifier::external_type_specification]
#[verifier::external_body]
pub struct ExWalk(walkdir::IntoIter);

/// One entry of a directory as the walk hands it out.
#[verifier::external_type_specification]
#[verifier::external_body]
pub struct ExDirEntry(walkdir::DirEntry);

/// Starts a walk at `root` with `walkdir::WalkDir::new` and its default
/// options. Nothing is read before the first step.
#[verifier::external_body]
fn start_walk(root: &str) -> (walk: walkdir::IntoIter) {
    walkdir::WalkDir::new(root).into_iter()
}

/// Takes the next entry of the walk with the `next` of `walkdir::IntoIter`.
/// What comes depends on what is on disk.
#[verifier::external_body]
fn next_raw(walk: &mut walkdir::IntoIter) -> (next: Option<
    Result<walkdir::DirEntry, walkdir::Error>,
>) {
    walk.next()
}

/// Keeps the walk out of the directory it handed out last, with
/// `walkdir::IntoIter::skip_current_dir`.
#[verifier::external_body]
fn skip_directory(walk: &mut walkdir::IntoIter) {
    walk.skip_current_dir()
}

/// The last component of the entry's path, from
/// `walkdir::DirEntry::file_name`. Absent when it is no valid text.
#[verifier::external_body]
fn entry_name(entry: &walkdir::DirEntry) -> (name: Option<String>) {
    entry.file_name().to_str().map(String::from)
}

/// The path of the entry, from `walkdir::DirEntry::path`, as text.
#[verifier::external_body]
fn entry_path(entry: &walkdir::DirEntry) -> (path: String) {
    entry.path().to_string_lossy().into_owned()
}

/// Reads the entry's metadata with `walkdir::DirEntry::metadata` and tells
/// whether it is that of a directory. Reading may fail.
#[verifier::external_body]
fn entry_is_dir(entry: &walkdir::DirEntry) -> (r: Result<bool, walkdir::Error>) {
    entry.metadata().map(|meta| meta.is_dir())
}

/// Tells from `walkdir::DirEntry::file_type`, which reads nothing, whether
/// the walk took the entry for a directory and may enter it.
#[verifier::external_body]
fn entry_type_is_dir(entry: &walkdir::DirEntry) -> (r: bool) {
    entry.file_type().is_dir()
}

/// A name is hidden when it starts with a dot. A name that is no valid
/// text is not hidden.
pub open spec fn is_hidden_name(name: Option<Seq<char>>) -> bool {
    name matches Some(text) && text.len() > 0 && text[0] == '.'
}

/// What the walk knows of one entry.
#[derive(Debug)]
pub struct WalkEntry {
    /// The last component of the path, where it is valid text.
    pub name: Option<String>,
    /// The path of the entry.
    pub path: String,
    /// Whether the entry is a directory.
    pub is_dir: bool,
}

impl WalkEntry {
    /// True when the name of the entry starts with a dot.
    pub open spec fn hidden(&self) -> bool {
        is_hidden_name(
            match self.name {
                Some(name) => Some(name@),
                None => None,
            },
        )
    }

    /// Tells whether the name of the entry starts with a dot.
    pub fn is_hidden(&self) -> (r: bool)
        ensures
            r == self.hidden(),
    {
        name_is_hidden(&self.name)
    }
}

/// Tells whether `name` starts with a dot.
pub fn name_is_hidden(name: &Option<String>) -> (r: bool)
    ensures
        r == is_hidden_name(
            match *name {
                Some(text) => Some(text@),
                None => None,
            },
        ),
{
    match name {
        Some(text) => text.as_str().unicode_len() > 0 && text.as_str().get_char(0) == '.',
        None => false,
    }
}

/// What one step of a walk brings.
#[derive(Debug)]
pub enum WalkStep {
    /// The walk is over.
    Finished,
    /// An entry was met and left out; a directory left out is not entered.
    Pruned,
    /// A directory that stays in the walk: it is entered, and there is
    /// nothing in it to scan.
    Directory(WalkEntry),
    /// A file to scan.
    File(WalkEntry),
}

/// What the walk goes on with after asking for its next entry: nothing
/// when it is over, the entry when there is one, and an error when the
/// entry could not be read.
pub open spec fn next_verdict_of(next: Option<Result<walkdir::DirEntry, walkdir::Error>>) -> Result<
    Option<walkdir::DirEntry>,
    LstodoError,
> {
    match next {
        None => Ok(None),
        Some(Ok(entry)) => Ok(Some(entry)),
        Some(Err(e)) => Err(LstodoError::WalkDir(e)),
    }
}

/// Turns what the walk handed out into what the step goes on with. An
/// entry that could not be read ends the walk with an error.
pub fn next_verdict(next: Option<Result<walkdir::DirEntry, walkdir::Error>>) -> (r: Result<
    Option<walkdir::DirEntry>,
    LstodoError,
>)
    ensures
        r == next_verdict_of(next),
{
    match next {
        None => Ok(None),
        Some(Ok(entry)) => Ok(Some(entry)),
        Some(Err(e)) => Err(LstodoError::WalkDir(e)),
    }
}

/// Whether an entry is a directory, once its metadata was asked for: the
/// answer, or an error when the metadata could not be read.
pub open spec fn directory_verdict_of(read: Result<bool, walkdir::Error>) -> Result<
    bool,
    LstodoError,
> {
    match read {
        Ok(is_dir) => Ok(is_dir),
        Err(e) => Err(LstodoError::WalkDir(e)),
    }
}

/// Turns the outcome of reading an entry's metadata into the answer to
/// "is it a directory". Metadata that could not be read ends the walk with
/// an error.
pub fn directory_verdict(read: Result<bool, walkdir::Error>) -> (r: Result<bool, LstodoError>)
    ensures
        r == directory_verdict_of(read),
{
    match read {
        Ok(is_dir) => Ok(is_dir),
        Err(e) => Err(LstodoError::WalkDir(e)),
    }
}

/// The step that hands `entry` out: as a directory or as a file to scan.
pub open spec fn kept_step(entry: WalkEntry) -> WalkStep {
    if entry.is_dir {
        WalkStep::Directory(entry)
    } else {
        WalkStep::File(entry)
    }
}

/// What a step of the walk brings for `entry` once it is known whether the
/// entry stays in the walk: it is handed out when it stays and left out
/// when it does not, and a failure to find that out ends the walk.
pub open spec fn step_verdict_of(entry: WalkEntry, kept: Result<bool, LstodoError>) -> Result<
    WalkStep,
    LstodoError,
> {
    match kept {
        Ok(true) => Ok(kept_step(entry)),
        Ok(false) => Ok(WalkStep::Pruned),
        Err(e) => Err(e),
    }
}

/// Turns the answer to "does `entry` stay in the walk" into the step that
/// the walk takes.
pub fn step_verdict(entry: WalkEntry, kept: Result<bool, LstodoError>) -> (r: Result<
    WalkStep,
    LstodoError,
>)
    ensures
        r == step_verdict_of(entry, kept),
{
    match kept {
        Ok(true) => if entry.is_dir {
            Ok(WalkStep::Directory(entry))
        } else {
            Ok(WalkStep::File(entry))
        },
        Ok(false) => Ok(WalkStep::Pruned),
        Err(e) => Err(e),
    }
}

/// A file that the repository reports as ignored is left out of the walk,
/// whatever it holds: the step for it is never a file to scan.
pub proof fn lemma_ignored_is_pruned(entry: WalkEntry)
    requires
        !entry.is_dir,
    ensures
        step_verdict_of(
            entry,
            filter_verdict_of(entry.hidden(), false, Ok::<bool, LstodoError>(true)),
        ) == Ok::<WalkStep, LstodoError>(WalkStep::Pruned),
{
}

/// Decides what the walk does with `entry`, an entry it has just met. A
/// hidden entry is left out. A directory stays, and so does every entry
/// when there is no context of version control. A file that `git_ctx`
/// cannot take ends the walk with `NotFound`. Any other file stays unless
/// `git_ctx` reports it as ignored; a failed query ends the walk.
pub fn classify(entry: WalkEntry, git_ctx: &Option<GitContext>) -> (r: Result<WalkStep, LstodoError>)
    ensures
        entry.hidden() ==> r == Ok::<WalkStep, LstodoError>(WalkStep::Pruned),
        !entry.hidden() && (entry.is_dir || git_ctx is None) ==> r == Ok::<WalkStep, LstodoError>(
            kept_step(entry),
        ),
        !entry.hidden() && !entry.is_dir ==> (git_ctx matches Some(ctx) && !ctx.covers(entry.path@)
            ==> r == Err::<WalkStep, LstodoError>(LstodoError::NotFound)),
        !entry.hidden() && !entry.is_dir ==> (git_ctx matches Some(ctx) && ctx.covers(entry.path@)
            && (!ctx.is_bound() || ctx.converted(entry.path@).len() == 0) ==> r == Ok::<
            WalkStep,
            LstodoError,
        >(WalkStep::File(entry))),
        r matches Ok(step) ==> step == WalkStep::Pruned || step == kept_step(entry),
        r matches Err(e) ==> (e is Git || e is NotFound) && !entry.hidden() && !entry.is_dir && (
        git_ctx matches Some(ctx) && ctx.is_bound()),
        r matches Err(e) && e is NotFound ==> (git_ctx matches Some(ctx) && !ctx.covers(
            entry.path@,
        )),
        r matches Err(e) && e is Git ==> (git_ctx matches Some(ctx) && ctx.covers(entry.path@)),
{
    if entry.is_hidden() {
        return Ok(WalkStep::Pruned);
    }
    let covered = match git_ctx {
        Some(ctx) => entry.is_dir || ctx.covers_path(entry.path.as_str()),
        None => true,
    };
    if !covered {
        return Err(LstodoError::NotFound);
    }
    let kept = RegexSearcher::file_filter(&entry, git_ctx);
    step_verdict(entry, kept)
}

/// True when the walk has to be kept out of the entry it met: the entry
/// was left out and is a directory that the walk would enter.
pub open spec fn must_skip_of(step: Result<WalkStep, LstodoError>, enters: bool) -> bool {
    enters && step == Ok::<WalkStep, LstodoError>(WalkStep::Pruned)
}

/// Tells whether the walk has to be kept out of the entry it met, `step`
/// being what was decided of the entry and `enters` whether the walk would
/// enter it.
pub fn must_skip(step: &Result<WalkStep, LstodoError>, enters: bool) -> (r: bool)
    ensures
        r == must_skip_of(*step, enters),
{
    match step {
        Ok(WalkStep::Pruned) => enters,
        _ => false,
    }
}

/// Walks a directory tree and leaves out what is hidden or ignored.
pub struct FileWalker {
    walk: walkdir::IntoIter,
    root: String,
    current: Option<walkdir::DirEntry>,
}

impl FileWalker {
    /// The directory at which the walk started.
    pub closed spec fn root(&self) -> Seq<char> {
        self.root@
    }

    /// Starts a walk at the directory `root`. Nothing is read before the
    /// first step.
    pub fn new(root: &str) -> (walker: FileWalker)
        ensures
            walker.root() == root@,
    {
        FileWalker { walk: start_walk(root), root: root.to_owned(), current: None }
    }

    /// The directory at which the walk started.
    pub fn root_dir(&self) -> (root: &str)
        ensures
            root@ == self.root(),
    {
        self.root.as_str()
    }

    /// The entry that the last step met, as the walk handed it out.
    pub fn current_entry(&self) -> (entry: &Option<walkdir::DirEntry>) {
        &self.current
    }

    /// Takes one step of the walk. The name of the entry met is looked at
    /// first: a hidden entry is left out and nothing more is read of it.
    /// Of any other entry the metadata is read, and `classify` decides what
    /// is done with it. A directory that is left out is not entered. A
    /// failure to read an entry or its metadata, or to ask whether it is
    /// ignored, ends the walk with an error, and so does a file that
    /// `git_ctx` cannot take. What is met depends on what is on disk.
    pub fn advance(&mut self, git_ctx: &Option<GitContext>) -> (r: Result<WalkStep, LstodoError>)
        ensures
            final(self).root() == old(self).root(),
            r matches Ok(WalkStep::File(entry)) ==> {
                &&& !entry.hidden()
                &&& !entry.is_dir
                &&& git_ctx matches Some(ctx) ==> ctx.covers(entry.path@)
            },
            r matches Ok(WalkStep::Directory(entry)) ==> !entry.hidden() && entry.is_dir,
            r matches Err(e) ==> e is WalkDir || e is Git || e is NotFound,
            r matches Err(e) && (e is Git || e is NotFound) ==> (git_ctx matches Some(ctx)
                && ctx.is_bound()),
    {
        self.current = None;
        let raw = match next_verdict(next_raw(&mut self.walk)) {
            Ok(Some(raw)) => raw,
            Ok(None) => {
                return Ok(WalkStep::Finished);
            },
            Err(e) => {
                return Err(e);
            },
        };
        let name = entry_name(&raw);
        let enters = entry_type_is_dir(&raw);
        let is_dir = if name_is_hidden(&name) {
            enters
        } else {
            match directory_verdict(entry_is_dir(&raw)) {
                Ok(is_dir) => is_dir,
                Err(e) => {
                    return Err(e);
                },
            }
        };
        let entry = WalkEntry { name, path: entry_path(&raw), is_dir };
        self.current = Some(raw);
        let step = classify(entry, git_ctx);
        if must_skip(&step, enters) {
            skip_directory(&mut self.walk);
        }
        step
    }
}

} // verus!
