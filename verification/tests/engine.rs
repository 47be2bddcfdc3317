// The glob engine end to end: pattern compilation and traversal over
// in-memory filesystem models.

use myglob::pattern::{MyGlobError, MyGlobSearch};
use myglob::traverse::{Action, DirItem, EntryInfo, FsModel, MyGlobMatch};

fn file(name: &str) -> DirItem {
    DirItem::Entry(EntryInfo { name: name.to_string(), is_file: true, is_dir: false })
}

fn dir(name: &str) -> DirItem {
    DirItem::Entry(EntryInfo { name: name.to_string(), is_file: false, is_dir: true })
}

fn run(pattern: &str, fs: &FsModel) -> (Vec<String>, Vec<String>) {
    let gs = MyGlobSearch::build(pattern).unwrap();
    let mut files = Vec::new();
    let mut errors = Vec::new();
    for m in gs.explore(fs, 100000) {
        match m {
            MyGlobMatch::File(p) => files.push(p),
            MyGlobMatch::Error(e) => errors.push(e),
        }
    }
    files.sort();
    (files, errors)
}

#[test]
fn star_extension_selects_exactly_matching_files() {
    let fs = FsModel {
        files: vec![],
        dirs: vec![("dir".to_string(), vec![file("a.txt"), file("b.md")])],
        unreadable: vec![],
    };
    let (files, errors) = run("dir/*.txt", &fs);
    assert_eq!(files, vec!["dir/a.txt".to_string()]);
    assert!(errors.is_empty());
}

#[test]
fn recurse_finds_files_at_all_depths() {
    let fs = FsModel {
        files: vec![],
        dirs: vec![
            ("root".to_string(), vec![file("a.log"), dir("sub"), file("skip.txt")]),
            ("root/sub".to_string(), vec![file("b.log"), dir("deep")]),
            ("root/sub/deep".to_string(), vec![file("c.log")]),
        ],
        unreadable: vec![],
    };
    let (files, errors) = run("root/**/*.log", &fs);
    assert_eq!(
        files,
        vec![
            "root/a.log".to_string(),
            "root/sub/b.log".to_string(),
            "root/sub/deep/c.log".to_string()
        ]
    );
    assert!(errors.is_empty());
}

#[test]
fn brace_alternation_matches_either_choice() {
    let fs = FsModel {
        files: vec![],
        dirs: vec![(
            "pics".to_string(),
            vec![file("photo.png"), file("photo.jpg"), file("photo.gif")],
        )],
        unreadable: vec![],
    };
    let (files, _) = run("pics/*.{png,jpg}", &fs);
    assert_eq!(files, vec!["pics/photo.jpg".to_string(), "pics/photo.png".to_string()]);
}

#[test]
fn negated_class_excludes_leading_digits() {
    let fs = FsModel {
        files: vec![],
        dirs: vec![("d".to_string(), vec![file("1a.txt"), file("a1.txt"), file("9.txt")])],
        unreadable: vec![],
    };
    let (files, _) = run("d/[!0-9]*.txt", &fs);
    assert_eq!(files, vec!["d/a1.txt".to_string()]);
}

#[test]
fn git_directory_is_never_expanded() {
    let fs = FsModel {
        files: vec![],
        dirs: vec![
            ("root".to_string(), vec![file("x.txt"), dir(".git"), dir("ok")]),
            ("root/.git".to_string(), vec![file("inner.txt")]),
            ("root/ok".to_string(), vec![file("y.txt")]),
        ],
        unreadable: vec![],
    };
    let (files, errors) = run("root/**/*.txt", &fs);
    assert_eq!(files, vec!["root/ok/y.txt".to_string(), "root/x.txt".to_string()]);
    assert!(errors.is_empty());
}

#[test]
fn uppercase_ignored_directory_is_never_expanded() {
    let fs = FsModel {
        files: vec![],
        dirs: vec![
            ("root".to_string(), vec![dir(".GIT"), file("x.txt")]),
            ("root/.GIT".to_string(), vec![file("inner.txt")]),
        ],
        unreadable: vec![],
    };
    let (files, _) = run("root/**/*.txt", &fs);
    assert_eq!(files, vec!["root/x.txt".to_string()]);
}

#[test]
fn unreadable_sibling_reports_one_error_and_spares_the_rest() {
    let fs = FsModel {
        files: vec![],
        dirs: vec![
            ("root".to_string(), vec![dir("bad"), dir("good"), file("top.dat")]),
            ("root/good".to_string(), vec![file("g.dat")]),
        ],
        unreadable: vec![("root/bad".to_string(), "permission denied".to_string())],
    };
    let (files, errors) = run("root/**/*.dat", &fs);
    assert_eq!(files, vec!["root/good/g.dat".to_string(), "root/top.dat".to_string()]);
    assert_eq!(errors.len(), 1);
    assert_eq!(errors[0], "Error reading dir root/bad: permission denied");
}

#[test]
fn entry_error_is_reported_and_enumeration_continues() {
    let fs = FsModel {
        files: vec![],
        dirs: vec![(
            "d".to_string(),
            vec![file("a.txt"), DirItem::Error("io trouble".to_string()), file("b.txt")],
        )],
        unreadable: vec![],
    };
    let (files, errors) = run("d/*.txt", &fs);
    assert_eq!(files, vec!["d/a.txt".to_string(), "d/b.txt".to_string()]);
    assert_eq!(errors, vec!["Error enumerating dir d: io trouble".to_string()]);
}

#[test]
fn matching_is_case_insensitive() {
    let fs = FsModel {
        files: vec![],
        dirs: vec![("d".to_string(), vec![file("report.txt"), file("other.md")])],
        unreadable: vec![],
    };
    let (files, _) = run("d/*.TXT", &fs);
    assert_eq!(files, vec!["d/report.txt".to_string()]);
}

#[test]
fn explore_twice_yields_the_same_match_set() {
    let fs = FsModel {
        files: vec![],
        dirs: vec![
            ("root".to_string(), vec![file("a.log"), dir("s")]),
            ("root/s".to_string(), vec![file("b.log"), file("c.md")]),
        ],
        unreadable: vec![],
    };
    let gs = MyGlobSearch::build("root/**/*.log").unwrap();
    let r1: Vec<String> = gs
        .explore(&fs, 100000)
        .into_iter()
        .map(|m| match m {
            MyGlobMatch::File(p) => p,
            MyGlobMatch::Error(e) => e,
        })
        .collect();
    let r2: Vec<String> = gs
        .explore(&fs, 100000)
        .into_iter()
        .map(|m| match m {
            MyGlobMatch::File(p) => p,
            MyGlobMatch::Error(e) => e,
        })
        .collect();
    assert_eq!(r1, r2);
}

#[test]
fn literal_pattern_matches_a_single_file() {
    let fs = FsModel {
        files: vec!["just/a/file.txt".to_string()],
        dirs: vec![],
        unreadable: vec![],
    };
    let (files, errors) = run("just/a/file.txt", &fs);
    assert_eq!(files, vec!["just/a/file.txt".to_string()]);
    assert!(errors.is_empty());
    let (none, _) = run("just/a/missing.txt", &fs);
    assert!(none.is_empty());
}

#[test]
fn constant_segments_descend_without_listing() {
    let fs = FsModel {
        files: vec!["top/mid/leaf.txt".to_string()],
        dirs: vec![
            ("top".to_string(), vec![dir("mid")]),
            ("top/mid".to_string(), vec![file("leaf.txt")]),
        ],
        unreadable: vec![],
    };
    let (files, _) = run("top/mid/*.txt", &fs);
    assert_eq!(files, vec!["top/mid/leaf.txt".to_string()]);
}

#[test]
fn unclosed_brace_fails_compilation() {
    match MyGlobSearch::build("a{b") {
        Err(MyGlobError::GlobError(m)) => {
            assert_eq!(m, "Invalid \\ between { }");
        },
        _ => panic!("expected a glob error"),
    }
}

#[test]
fn extra_closing_brace_fails_compilation() {
    match MyGlobSearch::build("a}*") {
        Err(MyGlobError::GlobError(m)) => {
            assert_eq!(m, "Extra closing }");
        },
        _ => panic!("expected a glob error"),
    }
    // Without a wildcard in the component the brace is literal text and the
    // whole pattern is the root.
    assert!(MyGlobSearch::build("a}").is_ok());
}

#[test]
fn trailing_separator_fails_compilation() {
    match MyGlobSearch::build("dir/") {
        Err(MyGlobError::GlobError(m)) => {
            assert_eq!(m, "Glob pattern can't end with \\ or /");
        },
        _ => panic!("expected a glob error"),
    }
}

#[test]
fn recurse_marker_must_stand_alone() {
    match MyGlobSearch::build("a**b/x") {
        Err(MyGlobError::GlobError(m)) => {
            assert_eq!(m, "Glob pattern ** must be alone between \\");
        },
        _ => panic!("expected a glob error"),
    }
}

#[test]
fn root_defaults_to_current_directory() {
    let gs = MyGlobSearch::build("*.txt").unwrap();
    assert_eq!(gs.root(), ".");
    let gs2 = MyGlobSearch::build("some/dir/*.txt").unwrap();
    assert_eq!(gs2.root(), "some/dir");
}

#[test]
fn traversal_is_lazy_one_listing_before_first_match() {
    // Three directories exist, but the first match arrives after reading the
    // root and one subdirectory: the sibling subdirectory is never read.
    let fs = FsModel {
        files: vec![],
        dirs: vec![
            ("root".to_string(), vec![file("a.txt"), dir("s1"), dir("s2")]),
            ("root/s1".to_string(), vec![file("b.txt")]),
            ("root/s2".to_string(), vec![file("c.txt")]),
        ],
        unreadable: vec![],
    };
    let gs = MyGlobSearch::build("root/**/*.txt").unwrap();
    let mut t = gs.explore_iter();
    let mut listings = 0;
    let first = loop {
        match t.next_action(&gs) {
            Action::Done => panic!("expected a match"),
            Action::Emit(m) => break m,
            Action::NeedChild(p) => {
                let f = fs.is_file(&p);
                let d = fs.is_dir(&p);
                t.provide_child(&gs, f, d);
            },
            Action::NeedDir(p) => {
                listings += 1;
                match fs.listing(&p) {
                    Ok(items) => t.provide_dir(&gs, Ok(items)),
                    Err(e) => t.provide_dir(&gs, Err(e)),
                }
            },
        }
    };
    assert_eq!(listings, 2);
    match first {
        MyGlobMatch::File(p) => assert!(p.ends_with(".txt")),
        MyGlobMatch::Error(e) => panic!("unexpected error {}", e),
    }
}

#[test]
fn custom_ignore_list_suppresses_expansion() {
    let fs = FsModel {
        files: vec![],
        dirs: vec![
            ("root".to_string(), vec![dir("node_modules"), dir(".git"), file("x.txt")]),
            ("root/node_modules".to_string(), vec![file("dep.txt")]),
            ("root/.git".to_string(), vec![file("conf.txt")]),
        ],
        unreadable: vec![],
    };
    let gs = MyGlobSearch::build_with_ignore(
        "root/**/*.txt",
        vec!["node_modules".to_string()],
    )
    .unwrap();
    let mut files: Vec<String> = Vec::new();
    for m in gs.explore(&fs, 100000) {
        if let MyGlobMatch::File(p) = m {
            files.push(p);
        }
    }
    files.sort();
    // Only the custom list applies: the version-control folder is explored.
    assert_eq!(files, vec!["root/.git/conf.txt".to_string(), "root/x.txt".to_string()]);
}
