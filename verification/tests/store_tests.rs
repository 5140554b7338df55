//! Tests of the store: loading a document and selecting grants.

use ags::error::{Args, Error};
use ags::store::filter::Builder;
use ags::store::AGSFile;

const TWO_GRANTS: &str = r#"# storage

## bucket-ro
grant = payload-ro
tags = one, two
description = read only
notes =
permissions = read
metadata =

## bucket-rw
grant = payload-rw
tags = two
description = read write
notes =
permissions = read, write
metadata =

"#;

#[test]
fn find_grants_selects_only_matching_grants() {
    let store = AGSFile::load(TWO_GRANTS).expect("unsuccessful parse");
    let f = Builder::new()
        .regex("tags", "one")
        .and()
        .regex("name", "bucket.*")
        .end()
        .expect("valid regex");
    let found = store.find_grants(&f);
    assert_eq!(found.len(), 1);
    assert_eq!(found[0].name, "bucket-ro");
    assert_eq!(found[0].encrypted_grant, "payload-ro");
}

#[test]
fn find_grants_keeps_document_order() {
    let store = AGSFile::load(TWO_GRANTS).expect("unsuccessful parse");
    let f = Builder::new()
        .regex("tags", "one")
        .or()
        .regex("name", ".*rw")
        .end()
        .expect("valid regex");
    let found = store.find_grants(&f);
    assert_eq!(found.len(), 2);
    assert_eq!(found[0].name, "bucket-ro");
    assert_eq!(found[1].name, "bucket-rw");
}

#[test]
fn find_grants_matches_project_and_permissions() {
    let store = AGSFile::load(TWO_GRANTS).expect("unsuccessful parse");
    let by_project = Builder::new().regex("project", "^storage$").end().expect("valid regex");
    assert_eq!(store.find_grants(&by_project).len(), 2);
    let by_permission = Builder::new().regex("permissions", "^write$").end().expect("valid regex");
    let found = store.find_grants(&by_permission);
    assert_eq!(found.len(), 1);
    assert_eq!(found[0].name, "bucket-rw");
}

#[test]
fn new_internal_keeps_the_context_message() {
    let e = Error::new_internal("something unexpected");
    match e {
        Error::Internal(i) => assert_eq!(i.ctx_msg, "something unexpected"),
        _ => panic!("expected an internal error"),
    }
}

#[test]
fn new_invalid_arguments_keeps_names_and_message() {
    let e = Error::new_invalid_arguments("(a,b)", "a and b cannot be mixed");
    match e {
        Error::InvalidArguments(args) => {
            assert_eq!(args.names, "(a,b)");
            assert_eq!(args.msg, "a and b cannot be mixed");
        },
        _ => panic!("expected an invalid-arguments error"),
    }
}

#[test]
fn args_new_keeps_its_fields() {
    let args = Args::new("div", "div cannot be 0");
    assert_eq!(args.names, "div");
    assert_eq!(args.msg, "div cannot be 0");
}
