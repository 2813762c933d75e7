use vstd::prelude::*;

verus! {

/// An error of the input and output functions of the standard library.
#[verifier::external_type_specification]
#[verifier::external_body]
pub struct ExIoError(std::io::Error);

/// An error of the repository backend.
#[verifier::external_type_specification]
#[verifier::external_body]
pub struct ExGitError(git2::Error);

/// An error met while walking a directory tree.
#[verifier::external_type_specification]
#[verifier::external_body]
pub struct ExWalkError(walkdir::Error);

/// An error met while compiling a set of patterns.
#[verifier::external_type_specification]
#[verifier::external_body]
pub struct ExPatternError(regex::Error);

/// Everything that can stop a scan.
#[derive(Debug)]
pub enum LstodoError {
    /// A file or a directory could not be read.
    IO(std::io::Error),
    /// A failure that fits no other variant.
    Common,
    /// Something that was asked for does not exist.
    NotFound,
    /// The directory is not inside a repository.
    NotRepo,
    /// The repository backend failed.
    Git(git2::Error),
    /// The directory walk failed.
    WalkDir(walkdir::Error),
    /// A pattern is not valid.
    Pattern(regex::Error),
}

} // verus!
