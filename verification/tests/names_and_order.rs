use armerge::archives::get_object_name_from_path;
use armerge::archives::scratch_object_name;
use armerge::order::parse_order_file;
use armerge::order::priority_of;
use armerge::order::sort_objects_by_order;

#[test]
fn scratch_name_shape() {
    let name = scratch_object_name("liba.a", "a.o", "AbCd1234");
    assert_eq!(name, "liba.a@a.o.AbCd1234.o");
}

#[test]
fn base_name_round_trip() {
    let name = scratch_object_name("liba.a", "a.o", "AbCd1234");
    let mut path = String::from("/tmp/scratch/");
    path.push_str(&name);
    assert_eq!(get_object_name_from_path(&path), "liba.a@a.o");
}

#[test]
fn base_name_without_directory() {
    assert_eq!(get_object_name_from_path("alpha.tok.o"), "alpha");
    assert_eq!(get_object_name_from_path("a.b.c.d"), "a.b");
}

#[test]
fn order_file_skips_blank_and_comments() {
    let entries = parse_order_file("alpha\n# a comment\n\n  beta  \n");
    assert_eq!(entries, vec!["alpha".to_string(), "beta".to_string()]);
}

#[test]
fn order_file_without_trailing_newline() {
    let entries = parse_order_file("one\ntwo");
    assert_eq!(entries, vec!["one".to_string(), "two".to_string()]);
}

#[test]
fn order_file_empty() {
    let entries = parse_order_file("");
    assert!(entries.is_empty());
}

#[test]
fn order_file_with_crlf_endings() {
    let entries = parse_order_file("one\r\ntwo\r\n");
    assert_eq!(entries, vec!["one".to_string(), "two".to_string()]);
}

#[test]
fn priority_listed_and_unlisted() {
    let order = vec!["alpha".to_string(), "beta".to_string()];
    assert_eq!(priority_of(&order, &"alpha".to_string()), 0);
    assert_eq!(priority_of(&order, &"beta".to_string()), 1);
    assert_eq!(priority_of(&order, &"gamma".to_string()), usize::MAX);
}

#[test]
fn ordering_respects_order_file() {
    // retained base names {gamma, alpha, beta}; order file lists alpha, beta
    let paths = vec![
        "/s/gamma.t1.o".to_string(),
        "/s/alpha.t2.o".to_string(),
        "/s/beta.t3.o".to_string(),
    ];
    let order = vec!["alpha".to_string(), "beta".to_string()];
    let sorted = sort_objects_by_order(&paths, &order);
    assert_eq!(
        sorted,
        vec![
            "/s/alpha.t2.o".to_string(),
            "/s/beta.t3.o".to_string(),
            "/s/gamma.t1.o".to_string(),
        ]
    );
}

#[test]
fn ordering_is_stable_for_unlisted() {
    let paths = vec![
        "/s/c.t1.o".to_string(),
        "/s/a.t2.o".to_string(),
        "/s/b.t3.o".to_string(),
    ];
    let order: Vec<String> = Vec::new();
    let sorted = sort_objects_by_order(&paths, &order);
    assert_eq!(sorted, paths);
}
