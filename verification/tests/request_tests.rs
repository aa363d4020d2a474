use artifact_resolver::request::{absolute_path, classify, is_debug_build, Artifact, Request};

fn artifact(path: &str, file_name: &str, parent_name: &str, grandparent_name: &str) -> Artifact {
    Artifact {
        path: path.to_string(),
        file_name: file_name.to_string(),
        parent_name: parent_name.to_string(),
        grandparent_name: grandparent_name.to_string(),
    }
}

#[test]
fn duplicate_output_is_removed_with_its_manifest() {
    let a = artifact("/w/target/x/debug/deps/kernel-aaa111", "kernel-aaa111", "deps", "debug");
    assert_eq!(
        classify(&a, "kernel"),
        Request::RemoveDuplicate {
            artifact: "/w/target/x/debug/deps/kernel-aaa111".to_string(),
            manifest: "/w/target/x/debug/deps/kernel-aaa111.d".to_string(),
        }
    );
}

#[test]
fn other_crates_output_in_the_dependency_directory_is_resolved_by_its_whole_name() {
    let a = artifact("/w/target/x/debug/deps/basic_boot-0f3c", "basic_boot-0f3c", "deps", "debug");
    assert_eq!(
        classify(&a, "kernel"),
        Request::Resolve { prefix: "basic_boot-0f3c".to_string(), in_deps: true, debug: true }
    );
    let b = artifact("/w/target/x/release/deps/basic_boot-0f3c", "basic_boot-0f3c", "deps", "release");
    assert_eq!(
        classify(&b, "kernel"),
        Request::Resolve { prefix: "basic_boot-0f3c".to_string(), in_deps: true, debug: false }
    );
}

#[test]
fn artifact_outside_the_dependency_directory_is_resolved_by_its_first_segment() {
    let a = artifact("/w/target/x/debug/kernel", "kernel", "debug", "x");
    assert_eq!(
        classify(&a, "kernel"),
        Request::Resolve { prefix: "kernel".to_string(), in_deps: false, debug: true }
    );
    let b = artifact("/w/target/x/release/kernel-abc", "kernel-abc", "release", "x");
    assert_eq!(
        classify(&b, "kernel"),
        Request::Resolve { prefix: "kernel".to_string(), in_deps: false, debug: false }
    );
}

#[test]
fn debug_build_is_told_by_the_profile_directory() {
    assert!(is_debug_build(&artifact("/t/debug/kernel", "kernel", "debug", "t")));
    assert!(!is_debug_build(&artifact("/t/release/kernel", "kernel", "release", "t")));
    assert!(!is_debug_build(&artifact("/debug/other/kernel", "kernel", "other", "debug")));
    assert!(!is_debug_build(&artifact("/t/Debug/kernel", "kernel", "Debug", "t")));
    assert!(!is_debug_build(&artifact("kernel", "kernel", "", "")));
}

#[test]
fn debug_build_inside_the_dependency_directory_goes_by_the_directory_above() {
    assert!(is_debug_build(&artifact("/t/debug/deps/k-1", "k-1", "deps", "debug")));
    assert!(!is_debug_build(&artifact("/t/release/deps/k-1", "k-1", "deps", "release")));
    assert!(!is_debug_build(&artifact("/deps/k-1", "k-1", "deps", "")));
}

#[test]
fn relative_path_is_put_below_the_working_directory() {
    assert_eq!(absolute_path("target/x/debug/kernel", "/w"), "/w/target/x/debug/kernel");
}

#[test]
fn path_below_the_working_directory_is_kept() {
    assert_eq!(absolute_path("/w/target/x/debug/kernel", "/w"), "/w/target/x/debug/kernel");
    assert_eq!(absolute_path("/w", "/w"), "/w");
}

#[test]
fn foreign_absolute_path_is_prefixed_too() {
    assert_eq!(absolute_path("/other/kernel", "/w"), "/w//other/kernel");
}
