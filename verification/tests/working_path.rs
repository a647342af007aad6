use phazer::decimal::push_decimal;
use phazer::path::{extension_of, find_file_name, make_working_path, set_extension};
use phazer::{Phazer, PhazerBuilder, RENAME_WITH_RETRY_STRATEGY};
use std::path::{Path, PathBuf};

fn bytes(text: &str) -> Vec<u8> {
    text.as_bytes().to_vec()
}

fn text(bytes: &[u8]) -> String {
    String::from_utf8(bytes.to_vec()).unwrap()
}

/// The working path as `std::path` derives it: the extension, if any, a dot,
/// the marker, the process and the serial number, set as the new extension.
/// Where the target has no file name, and so no extension to set, a dot and
/// the new extension are appended.
fn by_std(target: &str, process_id: u32, serial: usize) -> String {
    let target_path = PathBuf::from(target);
    let lft = if let Some(ext) = target_path.extension() {
        format!("{}.phazer-", Path::new(ext).display())
    } else {
        String::from("phazer-")
    };
    let rgt = format!("-{}-{}", process_id, serial);
    let working_ext = format!("{}working{}", lft, rgt);
    let mut working_path = target_path.clone();
    if working_path.set_extension(&working_ext) {
        String::from(working_path.to_str().unwrap())
    } else {
        assert!(target_path.file_name().is_none());
        format!("{}.{}", target, working_ext)
    }
}

fn derived(target: &str, process_id: u32, serial: usize) -> String {
    text(&make_working_path(&bytes(target), process_id, serial))
}

#[test]
fn working_path_keeps_the_extension() {
    assert_eq!(derived("test.cfg", 1, 0), "test.cfg.phazer-working-1-0");
    assert_eq!(
        derived("/srv/data/names.zip", 4242, 17),
        "/srv/data/names.zip.phazer-working-4242-17"
    );
    assert_eq!(derived("archive.tar.gz", 7, 3), "archive.tar.gz.phazer-working-7-3");
}

#[test]
fn working_path_without_extension_gets_the_bare_suffix() {
    assert_eq!(derived("config", 12, 34), "config.phazer-working-12-34");
    assert_eq!(derived("/etc/hosts", 1, 2), "/etc/hosts.phazer-working-1-2");
    assert_eq!(derived("dir.d/file", 5, 6), "dir.d/file.phazer-working-5-6");
}

#[test]
fn a_leading_dot_starts_no_extension() {
    assert_eq!(derived(".bashrc", 9, 9), ".bashrc.phazer-working-9-9");
    assert_eq!(extension_of(&bytes(".bashrc")), None);
    assert_eq!(extension_of(&bytes("home/.profile")), None);
    assert_eq!(extension_of(&bytes(".config.toml")), Some(bytes("toml")));
}

#[test]
fn an_empty_extension_is_kept() {
    assert_eq!(extension_of(&bytes("foo.")), Some(bytes("")));
    assert_eq!(derived("foo.", 1, 0), "foo..phazer-working-1-0");
}

#[test]
fn trailing_separators_and_dots_are_dropped() {
    assert_eq!(derived("dir/file.txt/", 1, 0), "dir/file.txt.phazer-working-1-0");
    assert_eq!(derived("dir/file.txt//", 1, 0), "dir/file.txt.phazer-working-1-0");
    assert_eq!(derived("dir/file.txt/.", 1, 0), "dir/file.txt.phazer-working-1-0");
    assert_eq!(derived("dir/file.txt/./", 1, 0), "dir/file.txt.phazer-working-1-0");
    assert_eq!(derived("./a", 1, 0), "./a.phazer-working-1-0");
}

#[test]
fn a_target_without_file_name_gets_the_suffix_appended() {
    for target in ["", "/", "//", ".", "./", "./.", "..", "a/..", "/..", "a/../", "/."] {
        assert_eq!(find_file_name(&bytes(target)), None);
        assert_eq!(derived(target, 10, 20), format!("{}.phazer-working-10-20", target));
    }
    assert_eq!(derived("", 1, 0), ".phazer-working-1-0");
    assert_eq!(derived("/", 1, 0), "/.phazer-working-1-0");
    assert_eq!(derived("a/..", 1, 0), "a/...phazer-working-1-0");
}

#[test]
fn no_target_is_its_own_working_path() {
    let targets = [
        "", "/", "//", ".", "./", "./.", "..", "a/..", "/..", "a/../", "/.", "a", "a.b", ".a",
        "a/", "a/b.c/.", "...", "x/.a.b/",
    ];
    for target in targets {
        let mut seen: Vec<Vec<u8>> = Vec::new();
        for (process_id, serial) in [(1u32, 0usize), (1, 1), (1, 10), (11, 0), (2, 1)] {
            let engine = Phazer::new(bytes(target), process_id, serial);
            assert_ne!(engine.working_path(), engine.target_path());
            assert_eq!(engine.target_path(), &bytes(target));
            assert!(!seen.contains(engine.working_path()));
            seen.push(engine.working_path().clone());
            assert_eq!(engine.abandon(), seen[seen.len() - 1]);
        }
    }
}

#[test]
fn file_name_is_the_last_component() {
    assert_eq!(find_file_name(&bytes("a/b.txt")), Some((2, 7)));
    assert_eq!(find_file_name(&bytes("a/b.txt/")), Some((2, 7)));
    assert_eq!(find_file_name(&bytes("/x")), Some((1, 2)));
    assert_eq!(find_file_name(&bytes("...")), Some((0, 3)));
    assert_eq!(find_file_name(&bytes("a/...")), Some((2, 5)));
    assert_eq!(find_file_name(&bytes(".a")), Some((0, 2)));
    assert_eq!(find_file_name(&bytes("./.a")), Some((2, 4)));
}

#[test]
fn extension_follows_the_last_dot_of_the_file_name() {
    assert_eq!(extension_of(&bytes("a.b/c")), None);
    assert_eq!(extension_of(&bytes("a.b/c.d.e")), Some(bytes("e")));
    assert_eq!(extension_of(&bytes("a.b/")), Some(bytes("b")));
    assert_eq!(extension_of(&bytes("...")), Some(bytes("")));
    assert_eq!(extension_of(&bytes("..")), None);
    assert_eq!(extension_of(&bytes("")), None);
}

#[test]
fn set_extension_replaces_adds_and_removes() {
    let mut path = bytes("dir/file.txt");
    assert!(set_extension(&mut path, &bytes("rs")));
    assert_eq!(text(&path), "dir/file.rs");
    let mut path = bytes("dir/file");
    assert!(set_extension(&mut path, &bytes("rs")));
    assert_eq!(text(&path), "dir/file.rs");
    let mut path = bytes("dir/file.txt");
    assert!(set_extension(&mut path, &bytes("")));
    assert_eq!(text(&path), "dir/file");
    let mut path = bytes("dir/..");
    assert!(!set_extension(&mut path, &bytes("rs")));
    assert_eq!(text(&path), "dir/..");
}

#[test]
fn set_extension_agrees_with_std() {
    let paths = [
        "a", "a.b", "a.b.c", ".a", ".a.b", "a.", "a/b", "a/b.c", "/a/b.c/", "a//b", "a/./b.c",
        "a/b/.", "./a.b", "..", "../a", "a/..", "", "/", ".", "...", "a/...", "/.a", "x/.a.b/",
    ];
    for path in paths {
        for extension in ["", "txt", "tar.gz"] {
            let mut expected = PathBuf::from(path);
            let changed = expected.set_extension(extension);
            let mut ours = bytes(path);
            assert_eq!(set_extension(&mut ours, &bytes(extension)), changed);
            assert_eq!(text(&ours), expected.to_str().unwrap());
        }
    }
}

#[test]
fn extension_agrees_with_std() {
    let paths = [
        "a", "a.b", "a.b.c", ".a", ".a.b", "a.", "a/b", "a/b.c", "/a/b.c/", "a//b", "a/./b.c",
        "a/b/.", "./a.b", "..", "../a", "a/..", "", "/", ".", "...", "a/...", "/.a", "x/.a.b/",
    ];
    for path in paths {
        let expected = Path::new(path).extension().map(|e| bytes(e.to_str().unwrap()));
        assert_eq!(extension_of(&bytes(path)), expected);
    }
}

#[test]
fn working_path_agrees_with_std() {
    let paths = [
        "a", "a.b", "a.b.c", ".a", ".a.b", "a.", "a/b", "a/b.c", "/a/b.c/", "a//b", "a/./b.c",
        "a/b/.", "./a.b", "..", "../a", "a/..", "", "/", ".", "...", "a/...", "/.a", "x/.a.b/",
        "local/no-writer-commit-default.txt", "/tmp/local/write-commit-simple-with-retry.txt",
    ];
    for path in paths {
        for (process_id, serial) in [(0, 0), (1, 9), (10, 10), (4_294_967_295, 123_456_789)] {
            assert_eq!(derived(path, process_id, serial), by_std(path, process_id, serial));
        }
    }
}

#[test]
fn process_and_serial_are_written_in_decimal() {
    assert_eq!(
        derived("t", u32::MAX, usize::MAX),
        format!("t.phazer-working-4294967295-{}", usize::MAX)
    );
    assert_eq!(derived("t", 0, 0), "t.phazer-working-0-0");
    assert_eq!(derived("t", 100, 1000), "t.phazer-working-100-1000");
}

#[test]
fn decimal_has_no_leading_zeros() {
    for (number, expected) in [
        (0u64, "0"),
        (7, "7"),
        (9, "9"),
        (10, "10"),
        (99, "99"),
        (100, "100"),
        (1_024, "1024"),
        (u64::MAX, "18446744073709551615"),
    ] {
        let mut out = bytes("n=");
        push_decimal(&mut out, number);
        assert_eq!(text(&out), format!("n={}", expected));
    }
}

#[test]
fn bytes_that_are_no_text_pass_through() {
    let target = vec![0xff, 0x2f, 0xfe, 0x2e, 0xfd];
    let working = make_working_path(&target, 3, 4);
    let mut expected = target.clone();
    expected.extend_from_slice(b".phazer-working-3-4");
    assert_eq!(working, expected);
}

#[test]
fn engines_of_one_target_have_different_working_paths() {
    let target = bytes("shared/target.bin");
    let mut seen: Vec<Vec<u8>> = Vec::new();
    for process_id in [1u32, 11, 111] {
        for serial in [0usize, 1, 11, 110] {
            let working = make_working_path(&target, process_id, serial);
            assert_ne!(working, target);
            assert!(!seen.contains(&working));
            seen.push(working);
        }
    }
    assert_eq!(seen.len(), 12);
}

#[test]
fn the_engine_has_the_derived_working_path() {
    let engine = Phazer::new(bytes("dir/test.cfg"), 42, 7);
    assert_eq!(text(engine.working_path()), "dir/test.cfg.phazer-working-42-7");
    assert_eq!(text(engine.target_path()), "dir/test.cfg");
    let built = PhazerBuilder::with_target(bytes("ignored"))
        .commit_strategy(RENAME_WITH_RETRY_STRATEGY)
        .target(bytes("dir/test.cfg"))
        .build(42, 8);
    assert_eq!(text(built.working_path()), "dir/test.cfg.phazer-working-42-8");
    assert_eq!(text(built.target_path()), "dir/test.cfg");
}
