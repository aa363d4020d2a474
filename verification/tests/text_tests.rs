use artifact_resolver::text::{
    ends_with, get_first_segment, rfind_char, same_text, seperate_path_makefile, starts_with,
    text_before_last,
};

#[test]
fn first_segment_strips_the_hash() {
    assert_eq!(get_first_segment("kernel-aaa111"), "kernel");
}

#[test]
fn first_segment_cuts_at_the_last_dash_only() {
    assert_eq!(get_first_segment("my-os-kernel-0f3c"), "my-os-kernel");
}

#[test]
fn first_segment_without_dash_is_whole() {
    assert_eq!(get_first_segment("kernel"), "kernel");
    assert_eq!(get_first_segment(""), "");
}

#[test]
fn first_segment_of_leading_and_trailing_dash() {
    assert_eq!(get_first_segment("-abc"), "");
    assert_eq!(get_first_segment("abc-"), "abc");
}

#[test]
fn first_segment_counts_characters_not_bytes() {
    assert_eq!(get_first_segment("k\u{e9}rnel-\u{fc}ber"), "k\u{e9}rnel");
}

#[test]
fn manifest_path_drops_the_colon() {
    assert_eq!(seperate_path_makefile("/t/deps/libkernel-aaa111.a:"), "/t/deps/libkernel-aaa111.a");
    assert_eq!(seperate_path_makefile("src/lib.rs:"), "src/lib.rs");
}

#[test]
fn manifest_path_cuts_at_the_last_colon() {
    assert_eq!(seperate_path_makefile("/t/deps/kernel.d: src/main.rs"), "/t/deps/kernel.d");
    assert_eq!(seperate_path_makefile("a:b:c"), "a:b");
}

#[test]
fn manifest_path_without_colon_is_whole() {
    assert_eq!(seperate_path_makefile("no colon here"), "no colon here");
    assert_eq!(seperate_path_makefile(""), "");
}

#[test]
fn rfind_char_gives_the_last_position() {
    assert_eq!(rfind_char("a-b-c", '-'), Some(3));
    assert_eq!(rfind_char("abc", '-'), None);
    assert_eq!(rfind_char("-", '-'), Some(0));
    assert_eq!(rfind_char("", '-'), None);
}

#[test]
fn starts_with_tests_a_prefix() {
    assert!(starts_with("src/lib.rs:", "src"));
    assert!(starts_with("src", "src"));
    assert!(starts_with("anything", ""));
    assert!(!starts_with("sr", "src"));
    assert!(!starts_with("/src/lib.rs", "src"));
}

#[test]
fn ends_with_tests_a_suffix() {
    assert!(ends_with("libkernel-aaa111.a", ".a"));
    assert!(ends_with(".a", ".a"));
    assert!(ends_with("anything", ""));
    assert!(!ends_with("a", ".a"));
    assert!(!ends_with("kernel.o", ".a"));
    assert!(!ends_with("kernel.a.d", ".a"));
}

#[test]
fn same_text_compares_all_characters() {
    assert!(same_text("deps", "deps"));
    assert!(same_text("", ""));
    assert!(!same_text("deps", "dep"));
    assert!(!same_text("dep", "deps"));
    assert!(!same_text("deps", "dept"));
}

#[test]
fn text_before_last_cuts_at_the_last_occurrence() {
    assert_eq!(text_before_last("boot.header.asm", '.'), "boot.header");
    assert_eq!(text_before_last("boot", '.'), "boot");
    assert_eq!(text_before_last(".asm", '.'), "");
}
