//! The failures of an invocation and the diagnostics that report them.

use vstd::prelude::*;
use vstd::string::StringExecFns;

verus! {

/// The name of the file that holds a store, in whichever directory.
pub const SPITCONFIG: &'static str = ".spitconfig";

/// The exit code of an invocation that ran to its end.
pub const EXIT_SUCCESS: i32 = 0;

/// The exit code of an invocation that failed.
pub const EXIT_FAILURE: i32 = 1;

/// The kinds of failure.
#[derive(Clone, Copy, Debug, PartialEq, Eq, Structural)]
pub enum ErrorKind {
    /// The store to create is already there.
    AlreadyExists,
    /// A store file, or the home directory, is not there.
    NotFound,
    /// The contents of the primary store do not spell a mapping.
    CorruptData,
    /// Any other failure to read or write a store.
    IoError,
    /// A requested name is in neither store.
    NameNotFound,
    /// Options that exclude each other were given together.
    ConflictingFlags,
}

/// Why the operating system refused to open a file.
#[derive(Clone, Copy, Debug, PartialEq, Eq, Structural)]
pub enum Cause {
    /// No file is at the path.
    Missing,
    /// A file is at the path already.
    Present,
    /// Anything else: permissions, a missing directory, the disk.
    Other,
}

/// A fatal failure: its kind, and the line to write to standard error.
#[derive(Debug)]
pub struct StoreError {
    pub kind: ErrorKind,
    pub message: String,
}

/// The diagnostic for a failed step on a store file: what could not be
/// done, to which file, and why.
pub open spec fn could_not(verb: Seq<char>, detail: Seq<char>) -> Seq<char> {
    "Could not "@ + verb + " '"@ + SPITCONFIG@ + "': "@ + detail
}

/// The diagnostic for a name that is in neither store.
pub open spec fn could_not_find(name: Seq<char>) -> Seq<char> {
    "Couldn't find "@ + name
}

/// The kind of failure that a refused open is.
pub open spec fn kind_of(cause: Cause) -> ErrorKind {
    match cause {
        Cause::Missing => ErrorKind::NotFound,
        Cause::Present => ErrorKind::AlreadyExists,
        Cause::Other => ErrorKind::IoError,
    }
}

/// Builds the diagnostic for a failed step on a store file.
pub fn could_not_message(verb: &str, detail: &str) -> (message: String)
    ensures
        message@ == could_not(verb@, detail@),
{
    let mut message = String::from_str("Could not ");
    message.append(verb);
    message.append(" '");
    message.append(SPITCONFIG);
    message.append("': ");
    message.append(detail);
    message
}

/// Builds the diagnostic for a name that is in neither store.
pub fn could_not_find_message(name: &str) -> (message: String)
    ensures
        message@ == could_not_find(name@),
{
    let mut message = String::from_str("Couldn't find ");
    message.append(name);
    message
}

/// The exit code of an invocation: zero if it ran to its end, not zero if
/// it failed.
pub fn exit_code(outcome: &Result<(), StoreError>) -> (code: i32)
    ensures
        code == if outcome is Ok {
            EXIT_SUCCESS
        } else {
            EXIT_FAILURE
        },
        code == 0 <==> outcome is Ok,
{
    match outcome {
        Ok(_) => EXIT_SUCCESS,
        Err(_) => EXIT_FAILURE,
    }
}

impl StoreError {
    /// The failure of opening a store file for `verb` ("create", "open" or
    /// "find"), refused for `cause` with the system's words `detail`.
    pub fn open_failed(verb: &str, cause: Cause, detail: &str) -> (e: StoreError)
        ensures
            e.kind == kind_of(cause),
            e.message@ == could_not(verb@, detail@),
    {
        let kind = match cause {
            Cause::Missing => ErrorKind::NotFound,
            Cause::Present => ErrorKind::AlreadyExists,
            Cause::Other => ErrorKind::IoError,
        };
        StoreError { kind, message: could_not_message(verb, detail) }
    }

    /// The failure of reading a mapping out of the primary store's bytes.
    pub fn corrupt(detail: &str) -> (e: StoreError)
        ensures
            e.kind == ErrorKind::CorruptData,
            e.message@ == could_not("deserialize"@, detail@),
    {
        StoreError { kind: ErrorKind::CorruptData, message: could_not_message("deserialize", detail) }
    }

    /// The failure of writing a store.
    pub fn write_failed(detail: &str) -> (e: StoreError)
        ensures
            e.kind == ErrorKind::IoError,
            e.message@ == could_not("write to"@, detail@),
    {
        StoreError { kind: ErrorKind::IoError, message: could_not_message("write to", detail) }
    }

    /// The failure of finding the user's home directory.
    pub fn home_not_found() -> (e: StoreError)
        ensures
            e.kind == ErrorKind::NotFound,
            e.message@ == "Couldn't find home directory."@,
    {
        StoreError {
            kind: ErrorKind::NotFound,
            message: String::from_str("Couldn't find home directory."),
        }
    }

    /// The failure of resolving `name` under a policy that gives up.
    pub fn name_not_found(name: &str) -> (e: StoreError)
        ensures
            e.kind == ErrorKind::NameNotFound,
            e.message@ == could_not_find(name@),
    {
        StoreError { kind: ErrorKind::NameNotFound, message: could_not_find_message(name) }
    }

    /// The failure of an invocation that asks both to start an empty store
    /// and to copy one.
    pub fn conflicting_flags() -> (e: StoreError)
        ensures
            e.kind == ErrorKind::ConflictingFlags,
            e.message@ == "The argument '--init' cannot be used with '--copy <FOLDER>'"@,
    {
        StoreError {
            kind: ErrorKind::ConflictingFlags,
            message: String::from_str(
                "The argument '--init' cannot be used with '--copy <FOLDER>'",
            ),
        }
    }
}

} // verus!
