use atref::index::{build, is_excluded_dir, is_hidden, relative_to, Entry, FileMeta, Walked};

fn entry(abs: &str, root: &str, rel: &str, root_rank: usize) -> Entry {
    Entry {
        abs: abs.to_string(),
        root: root.to_string(),
        rel: rel.to_string(),
        root_rank,
        size: 0,
        mtime: 0,
    }
}

fn file(rank: usize, path: &str) -> Walked {
    Walked {
        root_rank: rank,
        path: path.to_string(),
        is_file: true,
        meta: Some(FileMeta {
            attributes: 0,
            size: 1,
            mtime: 7,
        }),
    }
}

#[test]
fn location_shows_source_folder() {
    let top = entry(
        r"D:\dev\second-brain\note.md",
        r"D:\dev\second-brain",
        "note.md",
        0,
    );
    assert_eq!(top.location(), "second-brain");

    let nested = entry(
        r"D:\dev\atref\specs\001.md",
        r"D:\dev\atref",
        r"specs\001.md",
        1,
    );
    assert_eq!(nested.location(), "atref/specs");
}

#[test]
fn names_parents_and_roots() {
    let e = entry(r"D:\v\a\b\c.md", r"D:\v\", r"a\b\c.md", 0);
    assert_eq!(e.name(), "c.md");
    assert_eq!(e.parent_rel(), r"a\b");
    assert_eq!(e.root_name(), "v");
    assert_eq!(e.location(), "v/a/b");
    let drive = entry(r"C:\x.md", r"C:\", "x.md", 0);
    assert_eq!(drive.root_name(), "");
    assert_eq!(drive.location(), "");
    let odd = entry(r"D:\v\..", r"D:\v", "fallback", 0);
    assert_eq!(odd.name(), "fallback");
}

#[test]
fn hidden_files_are_dot_prefixed_or_attributed() {
    assert!(is_hidden(r"D:\v\.hidden", None));
    assert!(!is_hidden(r"D:\v\keep.md", None));
    let attr = FileMeta {
        attributes: 0x2,
        size: 0,
        mtime: 0,
    };
    assert!(is_hidden(r"D:\v\keep.md", Some(attr)));
}

#[test]
fn excluded_dirs_are_named_dirs_only() {
    let exclude = vec![".git".to_string(), "node_modules".to_string()];
    assert!(is_excluded_dir(true, "node_modules", &exclude));
    assert!(!is_excluded_dir(false, "node_modules", &exclude));
    assert!(!is_excluded_dir(true, "src", &exclude));
}

#[test]
fn relative_paths_strip_the_root_by_component() {
    assert_eq!(relative_to(r"D:\v\sub\b.md", r"D:\v"), r"sub\b.md");
    assert_eq!(relative_to(r"D:\v\sub\b.md", r"D:\v\"), r"sub\b.md");
    assert_eq!(relative_to(r"D:\vault\b.md", r"D:\v"), r"D:\vault\b.md");
    assert_eq!(relative_to("/home/u/x.md", "/home/u"), "x.md");
}

#[test]
fn build_keeps_visible_files_once_under_the_first_root() {
    let folders = vec![r"D:\a".to_string(), r"D:\a".to_string(), r"D:\b".to_string()];
    let mut dir = file(0, r"D:\a\sub");
    dir.is_file = false;
    let walked = vec![
        file(0, r"D:\a\alpha.md"),
        dir,
        file(0, r"D:\a\.hidden"),
        file(1, r"D:\a\alpha.md"),
        file(2, r"D:\b\beta.md"),
        Walked {
            root_rank: 2,
            path: r"D:\b\nometa.md".to_string(),
            is_file: true,
            meta: None,
        },
    ];
    let idx = build(&folders, &walked);
    let names: Vec<&str> = idx.iter().map(|e| e.name()).collect();
    assert_eq!(names, vec!["alpha.md", "beta.md", "nometa.md"]);
    assert_eq!(idx[0].root_rank, 0);
    assert_eq!(idx[1].root_rank, 2);
    assert_eq!(idx[1].rel, "beta.md");
    assert_eq!((idx[0].size, idx[0].mtime), (1, 7));
    assert_eq!((idx[2].size, idx[2].mtime), (0, 0));
}

#[test]
fn excludes_named_dirs_and_hidden_files() {
    let exclude = vec![
        ".git".to_string(),
        "node_modules".to_string(),
        "target".to_string(),
    ];
    // The walk prunes excluded directories before descending into them.
    for d in [".git", "node_modules", "target"] {
        assert!(is_excluded_dir(true, d, &exclude));
    }
    assert!(!is_excluded_dir(true, "sub", &exclude));
    let folders = vec![r"D:\tmp\idx".to_string()];
    let mut sub = file(0, r"D:\tmp\idx\sub");
    sub.is_file = false;
    let walked = vec![
        file(0, r"D:\tmp\idx\keep.md"),
        sub,
        file(0, r"D:\tmp\idx\sub\nested.txt"),
        file(0, r"D:\tmp\idx\.hidden"),
    ];
    let names: Vec<String> = build(&folders, &walked)
        .iter()
        .map(|e| e.name().to_string())
        .collect();
    assert!(names.contains(&"keep.md".to_string()));
    assert!(names.contains(&"nested.txt".to_string()));
    assert!(!names.contains(&".hidden".to_string()));
    assert!(!names.contains(&"sub".to_string()));
}

#[test]
fn indexes_multiple_folders_dedupes_and_ranks() {
    let a = r"D:\tmp\multi\a".to_string();
    let b = r"D:\tmp\multi\b".to_string();
    let idx = build(
        &[a.clone(), b.clone()],
        &[file(0, r"D:\tmp\multi\a\alpha.md"), file(1, r"D:\tmp\multi\b\beta.md")],
    );
    let by_name = |n: &str| idx.iter().find(|e| e.name() == n).unwrap().root_rank;
    assert_eq!(by_name("alpha.md"), 0);
    assert_eq!(by_name("beta.md"), 1);

    // The same root listed twice still yields each file once.
    let twice = build(
        &[a.clone(), a.clone()],
        &[file(0, r"D:\tmp\multi\a\alpha.md"), file(1, r"D:\tmp\multi\a\alpha.md")],
    );
    assert_eq!(twice.iter().filter(|e| e.name() == "alpha.md").count(), 1);
}

#[test]
fn build_lists_a_path_once_whatever_its_separators() {
    let folders = vec![r"D:\a".to_string(), "D:/a".to_string()];
    let idx = build(
        &folders,
        &[file(0, r"D:\a\x.md"), file(1, "D:/a/x.md"), file(1, "D:/a/y.md")],
    );
    let names: Vec<&str> = idx.iter().map(|e| e.name()).collect();
    assert_eq!(names, vec!["x.md", "y.md"]);
    assert_eq!(idx[0].root_rank, 0);
}
