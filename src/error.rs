use vstd::prelude::*;
use vstd::string::StringExecFns;

verus! {

/// Why a path has no display name.
#[derive(Debug, Clone, Copy, PartialEq, Eq)]
pub enum PathFault {
    /// The path is a root, empty, or ends in `..`.
    NoFinalComponent,
    /// The final component is not valid Unicode.
    NotUnicode,
}

/// Failure kinds of the file-system layer; each carries the offending path.
#[derive(Debug, PartialEq, Eq)]
pub enum FsError {
    /// The path has no final component, or that component is not text.
    InvalidPath(String, PathFault),
    /// The target is not a directory that can be opened and read.
    DirectoryUnreadable(String),
    /// The file type of a directory child cannot be determined.
    MetadataUnavailable(String),
    /// Opening, reading, creating or writing a regular file failed.
    IoError(String),
    /// The decoder cannot identify or parse the audio stream.
    UnsupportedFormat(String),
}

/// The human-readable text of an error, quoting the offending path.
pub open spec fn message_of(e: FsError) -> Seq<char> {
    match e {
        FsError::InvalidPath(p, PathFault::NoFinalComponent) => "File path \""@ + p@
            + "\" does not have a final component"@,
        FsError::InvalidPath(p, PathFault::NotUnicode) => "File name \""@ + p@
            + "\" is not valid Unicode"@,
        FsError::DirectoryUnreadable(p) => "Directory \""@ + p@ + "\" cannot be read"@,
        FsError::MetadataUnavailable(p) => "File type of \""@ + p@ + "\" cannot be determined"@,
        FsError::IoError(p) => "File \""@ + p@ + "\" cannot be read or written"@,
        FsError::UnsupportedFormat(p) => "File \""@ + p@
            + "\" does not hold audio in a supported format"@,
    }
}

fn framed(prefix: &str, p: &String, suffix: &str) -> (r: String)
    ensures
        r@ == prefix@ + p@ + suffix@,
{
    let mut m = String::from_str(prefix);
    m.append(p.as_str());
    m.append(suffix);
    m
}

impl FsError {
    /// The human-readable text of this error, quoting the offending path.
    pub fn message(&self) -> (r: String)
        ensures
            r@ == message_of(*self),
    {
        match self {
            FsError::InvalidPath(p, PathFault::NoFinalComponent) => framed(
                "File path \"",
                p,
                "\" does not have a final component",
            ),
            FsError::InvalidPath(p, PathFault::NotUnicode) => framed(
                "File name \"",
                p,
                "\" is not valid Unicode",
            ),
            FsError::DirectoryUnreadable(p) => framed("Directory \"", p, "\" cannot be read"),
            FsError::MetadataUnavailable(p) => framed(
                "File type of \"",
                p,
                "\" cannot be determined",
            ),
            FsError::IoError(p) => framed("File \"", p, "\" cannot be read or written"),
            FsError::UnsupportedFormat(p) => framed(
                "File \"",
                p,
                "\" does not hold audio in a supported format",
            ),
        }
    }
}

} // verus!
