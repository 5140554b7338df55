//! Tests of building and evaluating filters.

use ags::store::filter::{evaluate, Builder, Filter, Record};

fn record_with_name(name: &str) -> Record {
    let mut r = Record::new();
    r.add_value("name", name);
    r
}

#[test]
fn build_filter_with_num_conds_1() {
    let f = Builder::new().regex("foo", "bar").end();
    assert!(f.is_ok());
}

#[test]
fn build_filter_with_num_conds_2() {
    let f = Builder::new().regex("foo", "bar").and().regex("foo2", "bar2").end();
    assert!(f.is_ok());
}

#[test]
fn build_filter_with_num_conds_3() {
    let f = Builder::new()
        .regex("foo", "bar")
        .and()
        .regex("foo2", "bar2")
        .or()
        .regex("foo2", "bar3")
        .end();
    assert!(f.is_ok());
}

#[test]
fn build_filter_with_num_conds_4() {
    let f = Builder::new()
        .regex("foo", "bar")
        .or()
        .regex("foo2", "bar2")
        .and()
        .regex("foo3", "bar3")
        .or()
        .regex("foo4", "bar4")
        .end();
    assert!(f.is_ok());
}

#[test]
fn right_nesting_is_observable_by_evaluation() {
    // a OR b AND c must associate as a OR (b AND c): with a true and b, c
    // false it holds, while the left-nested (a OR b) AND c would not.
    let f = Builder::new()
        .regex("name", "^yes$")
        .or()
        .regex("name", "^no1$")
        .and()
        .regex("name", "^no2$")
        .end()
        .expect("valid regex");
    let r = record_with_name("yes");
    assert!(evaluate(&f, &r));
}

#[test]
fn nest_as_sole_content_is_transparent() {
    let sub: Filter = Builder::new()
        .regex("name", "^a")
        .and()
        .regex("name", "b$")
        .end()
        .expect("valid regex");
    let whole = Builder::new().nest(sub).end().expect("valid regex");
    let direct = Builder::new()
        .regex("name", "^a")
        .and()
        .regex("name", "b$")
        .end()
        .expect("valid regex");
    for name in ["ab", "axb", "ax", "xb", ""] {
        let r = record_with_name(name);
        assert_eq!(evaluate(&whole, &r), evaluate(&direct, &r));
    }
}

#[test]
fn nest_groups_inside_a_chain() {
    // a OR (b AND c): nesting forces the grouping that the right-nesting rule
    // would give to a chain anyway, but here the group is built separately.
    let group = Builder::new()
        .regex("name", "^b")
        .and()
        .regex("name", "c$")
        .end()
        .expect("valid regex");
    let f = Builder::new().regex("name", "^a$").or().nest(group).end().expect("valid regex");
    assert!(evaluate(&f, &record_with_name("a")));
    assert!(evaluate(&f, &record_with_name("bxc")));
    assert!(!evaluate(&f, &record_with_name("bx")));
    assert!(!evaluate(&f, &record_with_name("xc")));
}

#[test]
fn and_with_false_left_side_is_false() {
    // The right side matches every record; a false left side decides alone.
    let f = Builder::new()
        .regex("nonexistent_field", ".*")
        .and()
        .regex("name", ".*")
        .end()
        .expect("valid regex");
    assert!(!evaluate(&f, &record_with_name("anything")));
}

#[test]
fn multi_valued_field_matches_existentially() {
    let mut r = Record::new();
    r.add_values("tags", vec!["alpha".to_string(), "beta".to_string()]);
    let matches_alpha = Builder::new().regex("tags", "al.*").end().expect("valid regex");
    assert!(evaluate(&matches_alpha, &r));
    let matches_nothing = Builder::new().regex("tags", "^x$").end().expect("valid regex");
    assert!(!evaluate(&matches_nothing, &r));
}

#[test]
fn missing_field_evaluates_to_false() {
    let f = Builder::new().regex("nonexistent_field", ".*").end().expect("valid regex");
    assert!(!evaluate(&f, &record_with_name("anything")));
    assert!(!evaluate(&f, &Record::new()));
}

#[test]
fn end_to_end_two_records() {
    // R1 { name: "bucket-ro", tags: ["one", "two"] }
    let mut r1 = Record::new();
    r1.add_value("name", "bucket-ro");
    r1.add_values("tags", vec!["one".to_string(), "two".to_string()]);
    // R2 { name: "bucket-rw", tags: ["two"] }
    let mut r2 = Record::new();
    r2.add_value("name", "bucket-rw");
    r2.add_values("tags", vec!["two".to_string()]);

    let both_conds = Builder::new()
        .regex("tags", "one")
        .and()
        .regex("name", "bucket.*")
        .end()
        .expect("valid regex");
    assert!(evaluate(&both_conds, &r1));
    assert!(!evaluate(&both_conds, &r2));

    let either_cond = Builder::new()
        .regex("tags", "one")
        .or()
        .regex("name", ".*rw")
        .end()
        .expect("valid regex");
    assert!(evaluate(&either_cond, &r1));
    assert!(evaluate(&either_cond, &r2));
}

#[test]
fn invalid_patterns_are_aggregated_into_one_error() {
    let e = match Builder::new().regex("f1", "[unclosed").and().regex("f2", "(unclosed").end() {
        Err(e) => e,
        Ok(_) => panic!("expected an invalid-pattern error"),
    };
    assert_eq!(
        e.entries,
        vec![
            ("f1".to_string(), "[unclosed".to_string()),
            ("f2".to_string(), "(unclosed".to_string()),
        ]
    );
}

#[test]
fn one_invalid_pattern_among_valid_ones_is_reported() {
    let e = match Builder::new().regex("good", ".*").or().regex("bad", "[unclosed").end() {
        Err(e) => e,
        Ok(_) => panic!("expected an invalid-pattern error"),
    };
    assert_eq!(e.entries, vec![("bad".to_string(), "[unclosed".to_string())]);
}

#[test]
fn nest_as_first_operation_starts_the_tree() {
    // (a AND b) OR c: the nested group is the root's left side.
    let group = Builder::new()
        .regex("name", "^a")
        .and()
        .regex("name", "b$")
        .end()
        .expect("valid regex");
    let f = Builder::new().nest(group).or().regex("name", "^c$").end().expect("valid regex");
    assert!(evaluate(&f, &record_with_name("axb")));
    assert!(evaluate(&f, &record_with_name("c")));
    assert!(!evaluate(&f, &record_with_name("ax")));
}
