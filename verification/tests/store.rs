use spit::codec::deserialize;
use spit::dispatch::{dispatch, Action, Plan, Request, Setup};
use spit::error::{
    could_not_find_message, could_not_message, exit_code, Cause, ErrorKind, StoreError,
    EXIT_FAILURE, EXIT_SUCCESS, SPITCONFIG,
};
use spit::mapping::Mapping;
use spit::resolver::{spit_out, Policy, Resolution};
use spit::store::{
    add_to_config, copy_config, get_config, get_global, init_config, print_alphabetical,
    store_in, Directory, Source,
};

fn listed(mapping: &Mapping) -> Vec<(String, String)> {
    mapping.entries().iter().map(|entry| (entry.name.clone(), entry.text.clone())).collect()
}

fn pair(name: &str, text: &str) -> (String, String) {
    (name.to_string(), text.to_string())
}

fn request() -> Request {
    Request { init: false, copy: false, global: false, add: false, list: false }
}

#[test]
fn store_file_name_is_fixed() {
    assert_eq!(SPITCONFIG, ".spitconfig");
    assert_eq!(store_in(Directory::Folder).file_name, ".spitconfig");
    assert_eq!(store_in(Directory::Folder).directory, Directory::Folder);
}

#[test]
fn local_store_is_in_the_working_directory() {
    for home_known in [false, true] {
        let location = get_config(false, home_known).unwrap();
        assert_eq!(location.directory, Directory::Working);
        assert_eq!(location.file_name, ".spitconfig");
    }
}

#[test]
fn global_store_is_in_the_home_directory() {
    let location = get_config(true, true).unwrap();
    assert_eq!(location.directory, Directory::Home);
    assert_eq!(location.file_name, ".spitconfig");
}

#[test]
fn global_store_needs_a_home_directory() {
    let error = get_config(true, false).unwrap_err();
    assert_eq!(error.kind, ErrorKind::NotFound);
    assert_eq!(error.message, "Couldn't find home directory.");
}

#[test]
fn new_store_holds_the_empty_mapping() {
    let bytes = init_config().unwrap();
    assert_eq!(bytes, b"{}");
    assert!(deserialize(&bytes).unwrap().entries().is_empty());
}

#[test]
fn init_on_existing_store_fails() {
    let error = StoreError::open_failed("create", Cause::Present, "File exists (os error 17)");
    assert_eq!(error.kind, ErrorKind::AlreadyExists);
    assert_eq!(error.message, "Could not create '.spitconfig': File exists (os error 17)");
    assert_eq!(exit_code(&Err(error)), 1);
}

#[test]
fn exit_code_is_zero_only_on_success() {
    assert_eq!(exit_code(&Ok(())), 0);
    assert_eq!(EXIT_SUCCESS, 0);
    assert_eq!(exit_code(&Err(StoreError::home_not_found())), EXIT_FAILURE);
    assert_ne!(EXIT_FAILURE, 0);
}

#[test]
fn open_failures_keep_their_cause() {
    let missing = StoreError::open_failed("open", Cause::Missing, "No such file");
    assert_eq!(missing.kind, ErrorKind::NotFound);
    assert_eq!(missing.message, "Could not open '.spitconfig': No such file");
    let other = StoreError::open_failed("open", Cause::Other, "Permission denied");
    assert_eq!(other.kind, ErrorKind::IoError);
    assert_eq!(other.message, "Could not open '.spitconfig': Permission denied");
}

#[test]
fn write_failure_is_an_io_error() {
    let error = StoreError::write_failed("No space left on device");
    assert_eq!(error.kind, ErrorKind::IoError);
    assert_eq!(error.message, "Could not write to '.spitconfig': No space left on device");
}

#[test]
fn corrupt_store_failure() {
    let error = StoreError::corrupt("expected value");
    assert_eq!(error.kind, ErrorKind::CorruptData);
    assert_eq!(error.message, "Could not deserialize '.spitconfig': expected value");
}

#[test]
fn name_not_found_failure() {
    let error = StoreError::name_not_found("bye");
    assert_eq!(error.kind, ErrorKind::NameNotFound);
    assert_eq!(error.message, "Couldn't find bye");
    assert_eq!(could_not_find_message("bye"), "Couldn't find bye");
}

#[test]
fn diagnostic_names_the_step_and_the_file() {
    assert_eq!(could_not_message("find", "gone"), "Could not find '.spitconfig': gone");
    assert_eq!(could_not_message("", ""), "Could not  '.spitconfig': ");
}

#[test]
fn copy_is_byte_identical() {
    let source = b"{ \"hi\" :\t\"hello there\" }\n".to_vec();
    let copy = copy_config(Source::Read { bytes: source.clone() }).unwrap();
    assert_eq!(copy, source);
}

#[test]
fn copy_does_not_look_into_the_bytes() {
    let source = vec![0xff, 0x00, b'{', b'['];
    let copy = copy_config(Source::Read { bytes: source.clone() }).unwrap();
    assert_eq!(copy, source);
    assert!(copy_config(Source::Read { bytes: Vec::new() }).unwrap().is_empty());
}

#[test]
fn copy_needs_the_store_to_copy() {
    let error = copy_config(Source::Refused {
        cause: Cause::Missing,
        detail: "No such file or directory (os error 2)".to_string(),
    })
    .unwrap_err();
    assert_eq!(error.kind, ErrorKind::NotFound);
    assert_eq!(
        error.message,
        "Could not find '.spitconfig': No such file or directory (os error 2)"
    );
    let error = copy_config(Source::Refused {
        cause: Cause::Other,
        detail: "Permission denied".to_string(),
    })
    .unwrap_err();
    assert_eq!(error.kind, ErrorKind::IoError);
}

#[test]
fn add_puts_the_text_under_every_name() {
    let names = vec!["b".to_string(), "a".to_string()];
    let bytes = add_to_config("text", &names, b"{\"b\": \"old\", \"c\": \"kept\"}").unwrap();
    assert_eq!(bytes, b"{\"a\":\"text\",\"b\":\"text\",\"c\":\"kept\"}");
}

#[test]
fn add_to_new_store() {
    let names = vec!["hi".to_string()];
    let bytes = add_to_config("hello there", &names, &init_config().unwrap()).unwrap();
    assert_eq!(
        listed(&deserialize(&bytes).unwrap()),
        vec![pair("hi", "hello there")]
    );
}

#[test]
fn add_twice_keeps_the_last_text() {
    let names = vec!["k".to_string()];
    let first = add_to_config("one", &names, b"{}").unwrap();
    let second = add_to_config("two", &names, &first).unwrap();
    assert_eq!(listed(&deserialize(&second).unwrap()), vec![pair("k", "two")]);
}

#[test]
fn add_without_names_rewrites_the_store() {
    let bytes = add_to_config("text", &Vec::new(), b" { \"b\" : \"old\" } ").unwrap();
    assert_eq!(bytes, b"{\"b\":\"old\"}");
}

#[test]
fn add_to_corrupt_store_fails() {
    let names = vec!["a".to_string()];
    let error = add_to_config("text", &names, b"{\"a\": 1}").unwrap_err();
    assert_eq!(error.kind, ErrorKind::CorruptData);
    assert!(error.message.starts_with("Could not deserialize '.spitconfig': "));
}

#[test]
fn fallback_is_the_global_store() {
    let fallback = get_global(false, Some(&b"{\"g\": \"global\"}"[..]));
    assert_eq!(listed(&fallback), vec![pair("g", "global")]);
}

#[test]
fn missing_global_store_is_an_empty_fallback() {
    assert!(get_global(false, None).entries().is_empty());
}

#[test]
fn corrupt_global_store_is_an_empty_fallback() {
    assert!(get_global(false, Some(&b"{\"g\": "[..])).entries().is_empty());
    assert!(get_global(false, Some(&b""[..])).entries().is_empty());
    assert!(get_global(false, Some(&b"{\"\": \"x\", \"g\": \"y\"}"[..])).entries().is_empty());
}

#[test]
fn global_scope_has_no_fallback() {
    assert!(get_global(true, Some(&b"{\"g\": \"global\"}"[..])).entries().is_empty());
    assert!(get_global(true, None).entries().is_empty());
}

#[test]
fn lookup_succeeds_without_global_store() {
    let spit = deserialize(b"{\"hi\": \"hello there\"}").unwrap();
    let names = vec!["hi".to_string()];
    let policy = Policy { warn: false, pass: false };
    for contents in [None, Some(&b"corrupt"[..])] {
        let global = get_global(false, contents);
        match spit_out(&spit, &global, &names, "\n", policy) {
            Resolution::Done { output, not_found } => {
                assert_eq!(output, "hello there\n");
                assert!(not_found.is_empty());
            }
            Resolution::Failed { name } => panic!("gave up on {}", name),
        }
    }
}

#[test]
fn listing_is_sorted_by_name() {
    let spit = deserialize(b"{\"pear\": \"p\", \"apple\": \"a\", \"Fig\": \"f: g\", \"fig\": \"\"}")
        .unwrap();
    assert_eq!(print_alphabetical(&spit), "Fig: f: g\napple: a\nfig: \npear: p\n");
}

#[test]
fn listing_of_empty_store_is_empty() {
    assert_eq!(print_alphabetical(&Mapping::new()), "");
}

#[test]
fn plain_invocation_looks_names_up_with_fallback() {
    let plan = dispatch(request()).unwrap();
    assert_eq!(plan, Plan { setup: Setup::Nothing, action: Action::Lookup, fallback: true });
}

#[test]
fn global_lookup_has_no_fallback() {
    let plan = dispatch(Request { global: true, ..request() }).unwrap();
    assert_eq!(plan, Plan { setup: Setup::Nothing, action: Action::Lookup, fallback: false });
}

#[test]
fn init_and_copy_conflict() {
    for global in [false, true] {
        for add in [false, true] {
            for list in [false, true] {
                let error =
                    dispatch(Request { init: true, copy: true, global, add, list }).unwrap_err();
                assert_eq!(error.kind, ErrorKind::ConflictingFlags);
                assert_eq!(
                    error.message,
                    "The argument '--init' cannot be used with '--copy <FOLDER>'"
                );
            }
        }
    }
}

#[test]
fn add_comes_before_list_and_lookup() {
    let plan = dispatch(Request { add: true, list: true, ..request() }).unwrap();
    assert_eq!(plan, Plan { setup: Setup::Nothing, action: Action::Add, fallback: false });
    let plan = dispatch(Request { add: true, ..request() }).unwrap();
    assert_eq!(plan.action, Action::Add);
}

#[test]
fn list_silences_lookup() {
    let plan = dispatch(Request { list: true, ..request() }).unwrap();
    assert_eq!(plan, Plan { setup: Setup::Nothing, action: Action::List, fallback: false });
}

#[test]
fn setup_composes_with_every_action() {
    let plan = dispatch(Request { init: true, add: true, ..request() }).unwrap();
    assert_eq!(plan, Plan { setup: Setup::Init, action: Action::Add, fallback: false });
    let plan = dispatch(Request { copy: true, ..request() }).unwrap();
    assert_eq!(plan, Plan { setup: Setup::Copy, action: Action::Lookup, fallback: true });
    let plan = dispatch(Request { init: true, list: true, global: true, ..request() }).unwrap();
    assert_eq!(plan, Plan { setup: Setup::Init, action: Action::List, fallback: false });
}
