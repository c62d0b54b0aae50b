//! The steps of an invocation on the stores, as far as they compute: where a
//! store lives, what a new store holds, what adding, listing and copying
//! make of the bytes that were read.

use vstd::prelude::*;
use vstd::string::StringExecFns;
use crate::codec::{deserialize, serialize, stored, written_for};
use crate::error::{could_not, kind_of, Cause, ErrorKind, StoreError, SPITCONFIG};
use crate::mapping::{all_valid, assigned, sorted_listing, Mapping};
use crate::resolver::{
    lemma_primary_names_need_no_fallback, output_of, resolution, Outcome, Policy,
};

verus! {

/// The directories in which a store file is looked for.
#[derive(Clone, Copy, Debug, PartialEq, Eq, Structural)]
pub enum Directory {
    /// The current working directory: the local store.
    Working,
    /// The user's home directory: the global store.
    Home,
    /// The folder named with the request to copy a store.
    Folder,
}

/// The place of a store file: a directory and the file's name in it.
#[derive(Clone, Copy, Debug)]
pub struct Location {
    pub directory: Directory,
    pub file_name: &'static str,
}

/// The store file in `directory`.
pub fn store_in(directory: Directory) -> (location: Location)
    ensures
        location.directory == directory,
        location.file_name@ == SPITCONFIG@,
{
    Location { directory, file_name: SPITCONFIG }
}

/// The place of the primary store: the global one in the home directory if
/// `global` is set, else the local one in the working directory.
///
/// Fails with `NotFound` exactly when the global store is asked for and the
/// home directory is not known.
pub fn get_config(global: bool, home_known: bool) -> (r: Result<Location, StoreError>)
    ensures
        r is Err <==> global && !home_known,
        r matches Ok(location) ==> {
            &&& location.directory == if global {
                Directory::Home
            } else {
                Directory::Working
            }
            &&& location.file_name@ == SPITCONFIG@
        },
        r matches Err(e) ==> e.kind == ErrorKind::NotFound && e.message@
            == "Couldn't find home directory."@,
{
    if global {
        if home_known {
            Ok(store_in(Directory::Home))
        } else {
            Err(StoreError::home_not_found())
        }
    } else {
        Ok(store_in(Directory::Working))
    }
}

/// The fallback mapping of a lookup, given what was read of the global
/// store, if anything could be read.
pub open spec fn fallback_of(global: bool, contents: Option<Seq<u8>>) -> Map<Seq<char>, Seq<char>> {
    if global {
        Map::empty()
    } else {
        match contents {
            Some(bytes) => match stored(bytes) {
                Some(map) => map,
                None => Map::empty(),
            },
            None => Map::empty(),
        }
    }
}

/// Fallback absorption: a global store that is missing or holds no mapping
/// makes an empty fallback, and a lookup in the local store still resolves
/// every name that the local store holds, with nothing reported.
pub proof fn lemma_fallback_absorbed(
    primary: Map<Seq<char>, Seq<char>>,
    contents: Option<Seq<u8>>,
    names: Seq<Seq<char>>,
    sep: Seq<char>,
    policy: Policy,
)
    requires
        contents matches Some(bytes) ==> stored(bytes) is None,
        forall|i: int| 0 <= i < names.len() ==> primary.contains_key(#[trigger] names[i]),
    ensures
        fallback_of(false, contents) == Map::<Seq<char>, Seq<char>>::empty(),
        resolution(primary, fallback_of(false, contents), names, sep, policy) == (Outcome::Done {
            output: output_of(primary, Map::empty(), names, sep, policy),
            not_found: Seq::empty(),
        }),
{
    lemma_primary_names_need_no_fallback(
        primary,
        fallback_of(false, contents),
        names,
        sep,
        policy,
    );
}

/// With the global store as the primary one, nothing is fallen back to,
/// whatever the global store holds.
pub proof fn lemma_global_has_no_fallback(contents: Option<Seq<u8>>)
    ensures
        fallback_of(true, contents) == Map::<Seq<char>, Seq<char>>::empty(),
{
}

/// The bytes behind an optional slice.
pub open spec fn bytes_of(contents: Option<&[u8]>) -> Option<Seq<u8>> {
    match contents {
        Some(bytes) => Some(bytes@),
        None => None,
    }
}

/// The fallback mapping of a lookup.
///
/// With the global store as the primary one there is nothing to fall back
/// to. Otherwise it is the mapping in the global store; a store that could
/// not be read (`contents` is `None`) or that holds no mapping counts as
/// empty.
pub fn get_global(global: bool, contents: Option<&[u8]>) -> (fallback: Mapping)
    ensures
        fallback@ == fallback_of(global, bytes_of(contents)),
{
    if global {
        Mapping::new()
    } else {
        match contents {
            Some(bytes) => match deserialize(bytes) {
                Ok(mapping) => mapping,
                Err(_) => Mapping::new(),
            },
            None => Mapping::new(),
        }
    }
}

/// The bytes of a new store: they hold the empty mapping.
pub fn init_config() -> (r: Result<Vec<u8>, StoreError>)
    ensures
        written_for(Map::empty(), r),
{
    serialize(&Mapping::new())
}

/// The bytes of the store after `text` has been put under each of `names`,
/// given the bytes of the store before.
///
/// Fails with `CorruptData` exactly when the bytes before hold no mapping.
pub fn add_to_config(text: &str, names: &Vec<String>, config: &[u8]) -> (r: Result<
    Vec<u8>,
    StoreError,
>)
    requires
        all_valid(names.deep_view()),
    ensures
        match r {
            Ok(bytes) => {
                &&& stored(config@) matches Some(before)
                &&& stored(bytes@) == Some(assigned(before, names.deep_view(), text@))
            },
            Err(e) => {
                &&& stored(config@) is None
                &&& e.kind == ErrorKind::CorruptData
                &&& exists|detail: Seq<char>| e.message@ == could_not("deserialize"@, detail)
            },
        },
{
    match deserialize(config) {
        Ok(mut spit) => {
            spit.assign(names, text);
            serialize(&spit)
        },
        Err(e) => Err(e),
    }
}

/// What the attempt to read the store to copy came to: its bytes, or why
/// the file could not be opened, with the system's words.
#[derive(Debug)]
pub enum Source {
    Read { bytes: Vec<u8> },
    Refused { cause: Cause, detail: String },
}

/// The bytes of the copy of a store, given what reading the store to copy
/// came to: the bytes as they were read, whatever they hold.
///
/// Fails exactly when the store to copy could not be opened.
pub fn copy_config(source: Source) -> (r: Result<Vec<u8>, StoreError>)
    ensures
        match source {
            Source::Read { bytes } => r == Ok::<Vec<u8>, StoreError>(bytes),
            Source::Refused { cause, detail } => {
                &&& r matches Err(e)
                &&& e.kind == kind_of(cause)
                &&& e.message@ == could_not("find"@, detail@)
            },
        },
{
    match source {
        Source::Read { bytes } => Ok(bytes),
        Source::Refused { cause, detail } => Err(
            StoreError::open_failed("find", cause, detail.as_str()),
        ),
    }
}

/// The line that lists one entry.
pub open spec fn line_of(name: Seq<char>, text: Seq<char>) -> Seq<char> {
    name + ": "@ + text + "\n"@
}

/// The lines of the entries, one after the other.
pub open spec fn listing_text(lines: Seq<(Seq<char>, Seq<char>)>) -> Seq<char>
    decreases lines.len(),
{
    if lines.len() == 0 {
        Seq::empty()
    } else {
        listing_text(lines.drop_last()) + line_of(lines.last().0, lines.last().1)
    }
}

/// The listing of a mapping: a line "name: text" for each entry, in
/// strictly increasing order of the names.
pub fn print_alphabetical(spit: &Mapping) -> (out: String)
    ensures
        out@ == listing_text(sorted_listing(spit@)),
{
    let entries = spit.entries();
    let ghost lines = sorted_listing(spit@);
    let mut out = String::new();
    let mut i: usize = 0;
    while i < entries.len()
        invariant
            i <= entries@.len(),
            lines.len() == entries@.len(),
            forall|j: int|
                0 <= j < lines.len() ==> #[trigger] lines[j] == (
                    entries@[j].name@,
                    entries@[j].text@,
                ),
            out@ == listing_text(lines.take(i as int)),
        decreases entries@.len() - i,
    {
        proof {
            assert(lines.take(i + 1).drop_last() =~= lines.take(i as int));
        }
        out.append(entries[i].name.as_str());
        out.append(": ");
        out.append(entries[i].text.as_str());
        out.append("\n");
        i = i + 1;
    }
    proof {
        assert(lines.take(i as int) =~= lines);
    }
    out
}

} // verus!
