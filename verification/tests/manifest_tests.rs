use artifact_resolver::manifest::{
    append_all, candidate_archives, candidate_objects, collect_inputs, count_internal_mentions,
    input_count, is_library_manifest, manifest_archives, manifest_objects, ManifestError,
};

fn lines(text: &[&str]) -> Vec<String> {
    text.iter().map(|l| l.to_string()).collect()
}

fn library_manifest() -> Vec<String> {
    lines(&[
        "/t/deps/libbootloader-111.a:",
        "/t/deps/libcore-222.rlib:",
        "/t/deps/libkernel-aaa111.a:",
        "/t/deps/kernel-aaa111.o:",
        "src/memory.rs:",
        "/t/deps/late-333.a:",
        "",
        "src/lib.rs:",
    ])
}

fn own_build_manifest() -> Vec<String> {
    lines(&["/t/deps/libkernel-bbb222.a:", "src/serial.rs:", "", "src/lib.rs:"])
}

fn program_manifest() -> Vec<String> {
    lines(&["/t/deps/kernel-ccc333.o:", "/t/deps/libextra-444.a:", "src/main.rs:"])
}

#[test]
fn library_manifest_is_told_by_its_final_line() {
    assert_eq!(is_library_manifest(&library_manifest()), Ok(true));
    assert_eq!(is_library_manifest(&program_manifest()), Ok(false));
    assert_eq!(is_library_manifest(&lines(&["src/lib.rs:", "src/main.rs:"])), Ok(false));
    assert_eq!(is_library_manifest(&lines(&["src/lib.rs"])), Ok(false));
}

#[test]
fn manifest_without_lines_is_refused() {
    assert_eq!(is_library_manifest(&Vec::new()), Err(ManifestError::Empty));
    assert_eq!(manifest_archives(&Vec::new()), Err(ManifestError::Empty));
    assert_eq!(manifest_objects(&Vec::new()), Err(ManifestError::Empty));
}

#[test]
fn manifest_with_blank_final_line_is_refused() {
    let m = lines(&["/t/deps/libkernel-aaa111.a:", "src/lib.rs:", ""]);
    assert_eq!(is_library_manifest(&m), Err(ManifestError::BlankFinalLine));
    assert_eq!(manifest_archives(&m), Err(ManifestError::BlankFinalLine));
    assert_eq!(manifest_objects(&m), Err(ManifestError::BlankFinalLine));
}

#[test]
fn inputs_end_where_the_source_listing_starts() {
    assert_eq!(input_count(&library_manifest()), 4);
    assert_eq!(input_count(&program_manifest()), 2);
    assert_eq!(input_count(&lines(&["a:", "b:"])), 2);
    assert_eq!(input_count(&lines(&["src/lib.rs:", "a:"])), 0);
    assert_eq!(input_count(&Vec::new()), 0);
}

#[test]
fn archives_are_collected_in_file_order_once_each() {
    assert_eq!(
        collect_inputs(&library_manifest(), ".a"),
        lines(&["/t/deps/libbootloader-111.a", "/t/deps/libkernel-aaa111.a"])
    );
}

#[test]
fn objects_are_collected_by_their_suffix() {
    assert_eq!(collect_inputs(&library_manifest(), ".o"), lines(&["/t/deps/kernel-aaa111.o"]));
    assert_eq!(collect_inputs(&library_manifest(), ".so"), Vec::<String>::new());
}

#[test]
fn equal_lines_are_collected_as_often_as_they_stand() {
    let m = lines(&["/x/liba.a:", "/x/liba.a:", "src/lib.rs:"]);
    assert_eq!(collect_inputs(&m, ".a"), lines(&["/x/liba.a", "/x/liba.a"]));
}

#[test]
fn internal_module_lines_are_counted() {
    assert_eq!(count_internal_mentions(&library_manifest()), 0);
    assert_eq!(count_internal_mentions(&own_build_manifest()), 1);
    let m = lines(&["src/serial.rs:", "x src/serial.rs:", "src/serial.rs: more"]);
    assert_eq!(count_internal_mentions(&m), 2);
}

#[test]
fn library_manifest_gives_its_archives() {
    assert_eq!(
        manifest_archives(&library_manifest()),
        Ok(lines(&["/t/deps/libbootloader-111.a", "/t/deps/libkernel-aaa111.a"]))
    );
}

#[test]
fn manifest_of_the_crate_itself_gives_no_archive() {
    assert_eq!(manifest_archives(&own_build_manifest()), Ok(Vec::new()));
}

#[test]
fn program_manifest_gives_no_archive() {
    assert_eq!(manifest_archives(&program_manifest()), Ok(Vec::new()));
}

#[test]
fn manifest_that_lists_the_internal_module_is_left_out_however_often() {
    let m = lines(&["/x/liba.a:", "/x/libb.a:", "src/serial.rs:", "src/serial.rs: again", "src/lib.rs:"]);
    assert_eq!(manifest_archives(&m), Ok(Vec::new()));
    let late = lines(&["/x/liba.a:", "src/memory.rs:", "src/serial.rs:", "src/lib.rs:"]);
    assert_eq!(manifest_archives(&late), Ok(Vec::new()));
}

#[test]
fn line_that_only_mentions_the_internal_module_later_does_not_count() {
    let m = lines(&["/x/liba.a: src/lib.rs src/serial.rs", "src/lib.rs:"]);
    assert_eq!(manifest_archives(&m), Ok(lines(&["/x/liba.a"])));
}

#[test]
fn program_manifest_gives_its_objects() {
    assert_eq!(manifest_objects(&program_manifest()), Ok(lines(&["/t/deps/kernel-ccc333.o"])));
    assert_eq!(manifest_objects(&library_manifest()), Ok(Vec::new()));
}

#[test]
fn candidates_come_manifest_after_manifest() {
    let second = lines(&["/t/deps/libkernel-bbb222.a:", "src/lib.rs:"]);
    let all = vec![library_manifest(), program_manifest(), own_build_manifest(), second];
    assert_eq!(
        candidate_archives(&all),
        Ok(lines(&[
            "/t/deps/libbootloader-111.a",
            "/t/deps/libkernel-aaa111.a",
            "/t/deps/libkernel-bbb222.a",
        ]))
    );
    assert_eq!(candidate_objects(&all), Ok(lines(&["/t/deps/kernel-ccc333.o"])));
}

#[test]
fn no_manifests_give_no_candidates() {
    assert_eq!(candidate_archives(&Vec::new()), Ok(Vec::new()));
    assert_eq!(candidate_objects(&Vec::new()), Ok(Vec::new()));
}

#[test]
fn the_first_defective_manifest_decides_the_error() {
    let all = vec![library_manifest(), lines(&["a:", ""]), Vec::new()];
    assert_eq!(candidate_archives(&all), Err(ManifestError::BlankFinalLine));
    assert_eq!(candidate_objects(&all), Err(ManifestError::BlankFinalLine));
    let other = vec![Vec::new(), lines(&["a:", ""])];
    assert_eq!(candidate_archives(&other), Err(ManifestError::Empty));
}

#[test]
fn append_all_keeps_what_was_there() {
    let mut out = lines(&["a"]);
    append_all(&mut out, &lines(&["b", "c"]));
    assert_eq!(out, lines(&["a", "b", "c"]));
    append_all(&mut out, &Vec::new());
    assert_eq!(out, lines(&["a", "b", "c"]));
}
