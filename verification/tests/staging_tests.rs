use artifact_resolver::manifest::ManifestError;
use artifact_resolver::staging::{
    get_bin, get_files_with_extension_and_prefix, get_lib, get_object, pick, StageOp,
};

fn lines(text: &[&str]) -> Vec<String> {
    text.iter().map(|l| l.to_string()).collect()
}

fn library_manifests() -> Vec<Vec<String>> {
    vec![
        lines(&["/t/deps/libkernel-aaa111.a:", "src/lib.rs:"]),
        lines(&["/t/deps/libkernel-bbb222.a:", "src/lib.rs:"]),
    ]
}

fn program_manifests() -> Vec<Vec<String>> {
    vec![
        lines(&["/t/deps/kernel-ccc333.o:", "src/main.rs:"]),
        lines(&["/t/deps/libkernel-aaa111.a:", "src/lib.rs:"]),
        lines(&["/t/deps/kernel-ddd444.o:", "src/main.rs:"]),
    ]
}

#[test]
fn names_are_kept_by_prefix_and_extension_in_listing_order() {
    let names = lines(&[
        "kernel-ddd444.d",
        "libkernel-aaa111.d",
        "kernel-ccc333.d",
        "kernel-ccc333.o",
        "kern.d",
        "kernel.d",
    ]);
    assert_eq!(
        get_files_with_extension_and_prefix(&names, ".d", "kernel"),
        lines(&["kernel-ddd444.d", "kernel-ccc333.d", "kernel.d"])
    );
    assert_eq!(get_files_with_extension_and_prefix(&names, ".a", "kernel"), Vec::<String>::new());
    assert_eq!(get_files_with_extension_and_prefix(&Vec::new(), ".d", "kernel"), Vec::<String>::new());
}

#[test]
fn pick_takes_the_candidate_at_the_index() {
    let c = lines(&["a", "b"]);
    assert_eq!(pick(&c, 0), Some("a".to_string()));
    assert_eq!(pick(&c, 1), Some("b".to_string()));
    assert_eq!(pick(&c, 2), None);
    assert_eq!(pick(&Vec::new(), 0), None);
}

#[test]
fn archive_is_selected_by_index() {
    assert_eq!(get_lib(&library_manifests(), 0), Ok(Some("/t/deps/libkernel-aaa111.a".to_string())));
    assert_eq!(get_lib(&library_manifests(), 1), Ok(Some("/t/deps/libkernel-bbb222.a".to_string())));
    assert_eq!(get_lib(&library_manifests(), 2), Ok(None));
}

#[test]
fn no_archive_is_selected_from_manifests_of_the_crate_itself() {
    let own = vec![
        lines(&["/t/deps/libkernel-aaa111.a:", "src/serial.rs:", "src/lib.rs:"]),
        lines(&["/t/deps/libkernel-bbb222.a:", "src/serial.rs:", "src/lib.rs:"]),
    ];
    assert_eq!(get_lib(&own, 0), Ok(None));
    assert_eq!(get_lib(&own, 1), Ok(None));
    assert_eq!(
        get_object(0, 0, &own, &program_manifests(), true),
        Ok(vec![
            StageOp::ResetScratch,
            StageOp::AssembleBoot(true),
            StageOp::CopyObject("/t/deps/kernel-ccc333.o".to_string()),
        ])
    );
}

#[test]
fn object_is_selected_by_index() {
    assert_eq!(get_bin(&program_manifests(), 0), Ok(Some("/t/deps/kernel-ccc333.o".to_string())));
    assert_eq!(get_bin(&program_manifests(), 1), Ok(Some("/t/deps/kernel-ddd444.o".to_string())));
    assert_eq!(get_bin(&program_manifests(), 2), Ok(None));
}

#[test]
fn selection_fails_on_a_defective_manifest() {
    let bad = vec![lines(&["/t/deps/libkernel-aaa111.a:", "src/lib.rs:"]), Vec::new()];
    assert_eq!(get_lib(&bad, 0), Err(ManifestError::Empty));
    assert_eq!(get_bin(&bad, 5), Err(ManifestError::Empty));
}

#[test]
fn an_attempt_is_staged_in_order() {
    assert_eq!(
        get_object(1, 0, &library_manifests(), &program_manifests(), true),
        Ok(vec![
            StageOp::ResetScratch,
            StageOp::ExtractArchive("/t/deps/libkernel-aaa111.a".to_string()),
            StageOp::AssembleBoot(true),
            StageOp::CopyObject("/t/deps/kernel-ddd444.o".to_string()),
        ])
    );
}

#[test]
fn an_attempt_without_candidates_still_resets_and_assembles() {
    assert_eq!(
        get_object(7, 9, &library_manifests(), &program_manifests(), false),
        Ok(vec![StageOp::ResetScratch, StageOp::AssembleBoot(false)])
    );
    assert_eq!(
        get_object(0, 9, &library_manifests(), &program_manifests(), false),
        Ok(vec![
            StageOp::ResetScratch,
            StageOp::AssembleBoot(false),
            StageOp::CopyObject("/t/deps/kernel-ccc333.o".to_string()),
        ])
    );
    assert_eq!(
        get_object(9, 1, &library_manifests(), &program_manifests(), false),
        Ok(vec![
            StageOp::ResetScratch,
            StageOp::ExtractArchive("/t/deps/libkernel-bbb222.a".to_string()),
            StageOp::AssembleBoot(false),
        ])
    );
}

#[test]
fn two_attempts_in_a_row_each_start_with_the_reset() {
    let first = get_object(0, 0, &library_manifests(), &program_manifests(), true).unwrap();
    let second = get_object(1, 1, &library_manifests(), &program_manifests(), true).unwrap();
    assert_eq!(first[0], StageOp::ResetScratch);
    assert_eq!(second[0], StageOp::ResetScratch);
    assert!(!second.contains(&StageOp::ExtractArchive("/t/deps/libkernel-aaa111.a".to_string())));
    assert!(!second.contains(&StageOp::CopyObject("/t/deps/kernel-ccc333.o".to_string())));
    assert_eq!(second.iter().filter(|op| **op == StageOp::ResetScratch).count(), 1);
}

#[test]
fn staging_reports_the_library_manifests_defect_first() {
    let bad_library = vec![lines(&["a:", ""])];
    let bad_program = vec![Vec::new()];
    assert_eq!(
        get_object(0, 0, &bad_library, &bad_program, true),
        Err(ManifestError::BlankFinalLine)
    );
    assert_eq!(
        get_object(0, 0, &library_manifests(), &bad_program, true),
        Err(ManifestError::Empty)
    );
}
