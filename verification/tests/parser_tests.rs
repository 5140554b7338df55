//! Tests of parsing AGS documents.

use ags::store::AGSFile;

#[test]
fn test_ags_pest_parse_one_project_one_access_all_filled() {
    let unparsed_file = r#"# my project

## my access
grant = my grant value encrypted
tags = one, two
description = this is my access grant for ...
notes =
	This is a note.
	Notes support multiline text.
permissions =
- my-bucket
	wow
		read, write
metadata =
- field 1
	wow
- field 2
	Multiple lines are OK. Each new line has to be indented by one tab, which are not
	considered part of the text.
	The last blank line before the next user's field, field, project or access grant is not
	considered part of this text.

"#;

    AGSFile::load(unparsed_file).expect("unsuccessful parse");
}

#[test]
fn test_ags_pest_parse_one_project_one_minimal_access_grant() {
    let unparsed_file = r#"# my project

## my access
grant = my grant value encrypted
tags =
description =
notes =
permissions = all
metadata =

"#;

    AGSFile::load(unparsed_file).expect("unsuccessful parse");
}

#[test]
fn test_ags_pest_parse_one_project_more_than_one_access() {
    let unparsed_file = r#"# my project

## my-bucket full access
grant = my grant value encrypted
tags = one, two
description =
notes =
permissions =
- my-bucket
	/
		all
metadata =
- field 1
	TBD

## my root write access
grant = my grant value encrypted
tags = one
description =
notes =
	This is a note.
permissions = write
metadata =
- app
	web3
- clients
	- Client A
	- Client B
	- Client C

"#;

    AGSFile::load(unparsed_file).expect("unsuccessful parse");
}

#[test]
fn test_ags_pest_parse_more_than_one_project() {
    let unparsed_file = r#"# my project 1

## my-bucket full access
grant = my grant value encrypted
tags = one, two
description =
notes =
permissions =
- my-bucket
	/
		all
metadata =
- field 1
	TBD

## my-bucket full access
grant = my grant value encrypted
tags = one, two
description =
notes =
permissions =
- my-bucket
	/
		all
metadata =
- field 1
	TBD

## my readonly root access proj1
grant = my grant value encrypted
tags = one
description =
notes =
	This is a note.
permissions = list, read
metadata =
- app
	web3
- clients
	- Client A
	- Client B
	- Client C

# my project 2

## my-bucket access
grant = my grant value encrypted
tags = one, two
description =
notes =
permissions =
- my-bucket
	/
		list, read, write
metadata =

## my root access proj2
grant = my grant value encrypted
tags = one, root-access
description = this is my access grant for ...
notes =
	This is a note.
	Notes support multiline text.
permissions = all
metadata =
- field 1
	TBD
- field 2
	Multiple lines are OK. Each new line has to be indented by one tab, which are not
	considered part of the text.
	The last blank line before the next user's field, field, project or access grant is not
	considered part of this text.

"#;

    AGSFile::load(unparsed_file).expect("unsuccessful parse");
}

#[test]
fn test_ags_pest_parse_one_project_with_description() {
    let unparsed_file = r#"# my project

This is the description of this project
in multiple lines

## my-bucket full access
grant = my grant value encrypted
tags = one, two
description =
notes =
permissions =
- my-bucket
	/
		all
metadata =
- field 1
	TBD

## my root write access
grant = my grant value encrypted
tags = one
description =
notes =
	This is a note.
permissions = write
metadata =
- app
	web3
- clients
	- Client A
	- Client B
	- Client C

"#;

    AGSFile::load(unparsed_file).expect("unsuccessful parse");
}

#[test]
fn test_ags_pest_parse_more_than_one_project_with_descripion() {
    let unparsed_file = r#"# my project 1

## my-bucket full access
grant = my grant value encrypted
tags = one, two
description =
notes =
permissions =
- my-bucket
	/
		all
metadata =
- field 1
	TBD

## my-bucket full access
grant = my grant value encrypted
tags = one, two
description =
notes =
permissions =
- my-bucket
	/
		all
metadata =
- field 1
	TBD

## my readonly root access proj1
grant = my grant value encrypted
tags = one
description =
notes =
	This is a note.
permissions = list, read
metadata =
- app
	web3
- clients
	- Client A
	- Client B
	- Client C

# my project 2

It has a single line description

## my-bucket access
grant = my grant value encrypted
tags = one, two
description =
notes =
permissions =
- my-bucket
	/
		list, read, write
metadata =

## my root access proj2
grant = my grant value encrypted
tags = one, root-access
description = this is my access grant for ...
notes =
	This is a note.
	Notes support multiline text.
permissions = all
metadata =
- field 1
	TBD
- field 2
	Multiple lines are OK. Each new line has to be indented by one tab, which are not
	considered part of the text.
	The last blank line before the next user's field, field, project or access grant is not
	considered part of this text.

# my project 3

It has a multi line
description

## my-bucket access
grant = my grant value encrypted
tags = one, two
description =
notes =
permissions =
- my-bucket
	/
		list, read, write
metadata =

"#;

    AGSFile::load(unparsed_file).expect("unsuccessful parse");
}

#[test]
fn parse_extracts_every_field() {
    let content = r#"# proj one

## access one
grant = secret payload
tags = one, two
description = a readonly access
notes =
	first note
	second note
permissions =
- my-bucket
	wow
		read, write
metadata =
- field 1
	TBD

"#;

    let store = AGSFile::load(content).expect("unsuccessful parse");
    let all = store.find_grants(
        &ags::store::filter::Builder::new().regex("name", ".*").end().expect("valid regex"),
    );
    assert_eq!(all.len(), 1);
    let g = &all[0];
    assert_eq!(g.name, "access one");
    assert_eq!(g.project, "proj one");
    assert_eq!(g.encrypted_grant, "secret payload");
    assert_eq!(g.tags, vec!["one".to_string(), "two".to_string()]);
    assert_eq!(g.description, "a readonly access");
    assert_eq!(g.notes, vec!["first note".to_string(), "second note".to_string()]);
    assert_eq!(
        g.permissions,
        vec!["my-bucket".to_string(), "wow".to_string(), "read".to_string(), "write".to_string()]
    );
    assert_eq!(g.metadata, vec!["field 1".to_string(), "TBD".to_string()]);
}

#[test]
fn parse_inline_permissions_value_is_split() {
    let content = r#"# p

## a
grant = g
tags =
description =
notes =
permissions = list, read
metadata =

"#;

    let store = AGSFile::load(content).expect("unsuccessful parse");
    let all = store.find_grants(
        &ags::store::filter::Builder::new().regex("name", ".*").end().expect("valid regex"),
    );
    assert_eq!(all[0].permissions, vec!["list".to_string(), "read".to_string()]);
    assert!(all[0].tags.is_empty());
    assert!(all[0].notes.is_empty());
    assert!(all[0].metadata.is_empty());
}

#[test]
fn load_of_empty_document_holds_no_grants() {
    let store = AGSFile::load("").expect("empty document is a valid store");
    let all = store.find_grants(
        &ags::store::filter::Builder::new().regex("name", ".*").end().expect("valid regex"),
    );
    assert!(all.is_empty());
}

#[test]
fn load_rejects_text_before_any_project() {
    let e = match AGSFile::load("no heading here\n") {
        Err(e) => e,
        Ok(_) => panic!("expected an invalid-arguments error"),
    };
    match e {
        ags::error::Error::InvalidArguments(args) => assert_eq!(args.names, "content"),
        _ => panic!("expected an invalid-arguments error"),
    }
}

#[test]
fn load_rejects_a_grant_cut_short() {
    let content = r#"# p

## a
grant = g
tags =
"#;

    let e = match AGSFile::load(content) {
        Err(e) => e,
        Ok(_) => panic!("expected an invalid-arguments error"),
    };
    match e {
        ags::error::Error::InvalidArguments(args) => assert_eq!(args.names, "content"),
        _ => panic!("expected an invalid-arguments error"),
    }
}

#[test]
fn load_rejects_fields_out_of_order() {
    let content = r#"# p

## a
tags =
grant = g
description =
notes =
permissions =
metadata =

"#;

    assert!(AGSFile::load(content).is_err());
}

#[test]
fn comma_list_values_are_trimmed_and_empties_dropped() {
    let content = r#"# p

## a
grant = g
tags =  one ,   two  ,
description =
notes =
permissions =
metadata =

"#;

    let store = AGSFile::load(content).expect("unsuccessful parse");
    let all = store.find_grants(
        &ags::store::filter::Builder::new().regex("name", ".*").end().expect("valid regex"),
    );
    assert_eq!(all[0].tags, vec!["one".to_string(), "two".to_string()]);
}

#[test]
fn blank_lines_between_fields_are_tolerated() {
    let content = r#"# p


## a
grant = g

tags = one
description =
notes =

	a note
permissions =
metadata =


"#;

    let store = AGSFile::load(content).expect("unsuccessful parse");
    let all = store.find_grants(
        &ags::store::filter::Builder::new().regex("name", ".*").end().expect("valid regex"),
    );
    assert_eq!(all.len(), 1);
    assert_eq!(all[0].notes, vec!["a note".to_string()]);
}
