use iai::command::{cachegrind_output_files, callgrind_output_files};
use iai::paths::{parent, with_file_name};
use std::path::Path;

const PATHS: [&str; 30] = [
    "",
    "/",
    "//",
    ".",
    "..",
    "./",
    "../",
    "/.",
    "/..",
    "a",
    "a/",
    "a//",
    "a/.",
    "a/./",
    "a/..",
    "/a",
    "/a/b",
    "a/b",
    "a//b",
    "a/./b",
    "a/../b",
    "a/b/../..",
    "a/b/.",
    "a/.b",
    "a/b.",
    "./a",
    "target/iai/callgrind.out",
    "target/iai/cachegrind.out.x",
    "target/iai/cachegrind.out.x/y/",
    "target/iai/cachegrind.out.ä",
];

#[test]
fn parents_are_those_of_the_standard_library() {
    for path in PATHS {
        let expected = Path::new(path).parent().map(|p| p.to_str().unwrap());
        assert_eq!(parent(path).as_deref(), expected, "{path}");
    }
}

#[test]
fn files_are_renamed_as_by_the_standard_library() {
    for path in PATHS {
        for name in ["new", "new.old", "a/b", "/root", "..", ""] {
            let expected = Path::new(path).with_file_name(name);
            assert_eq!(
                with_file_name(path, name),
                expected.to_str().unwrap(),
                "{path} {name}"
            );
        }
    }
}

#[test]
fn output_files_lie_in_target() {
    let files = cachegrind_output_files("bench_a").ok().unwrap();
    assert_eq!(files.directory, "target/iai");
    assert_eq!(files.output, "target/iai/cachegrind.out.bench_a");
    assert_eq!(files.old_output, "target/iai/cachegrind.out.bench_a.old");

    let files = callgrind_output_files().ok().unwrap();
    assert_eq!(files.directory, "target/iai");
    assert_eq!(files.output, "target/iai/callgrind.out");
    assert_eq!(files.old_output, "target/iai/callgrind.out.old");
}

#[test]
fn output_files_differ_between_benchmarks() {
    let first = cachegrind_output_files("bench_a").ok().unwrap();
    let second = cachegrind_output_files("bench_b").ok().unwrap();
    assert_ne!(first.output, second.output);
}

#[test]
fn output_files_of_other_names_follow_the_standard_library() {
    for name in ["", ".", "/", "a/b", "..", "a/", "a/..", "//."] {
        let output = format!("target/iai/cachegrind.out.{name}");
        let files = cachegrind_output_files(name).ok().unwrap();
        let path = Path::new(&output);
        assert_eq!(files.output, output);
        assert_eq!(files.directory, path.parent().unwrap().to_str().unwrap());
        assert_eq!(
            files.old_output,
            path.with_file_name(format!("cachegrind.out.{name}.old"))
                .to_str()
                .unwrap()
        );
    }
}
