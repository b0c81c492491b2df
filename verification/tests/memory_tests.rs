use cctide::memory::{
    check_memory_delete, drop_index_lines, is_md_file, memory_order, updates_index, DeleteError,
    MemoryFile,
};

#[test]
fn memory_file_basic_structure() {
    let mf = MemoryFile {
        project: "test-project".to_string(),
        name: "notes.md".to_string(),
        path: "/home/user/.agent/projects/test-project/memory/notes.md".to_string(),
        content: "# Notes\nContent here".to_string(),
    };
    assert_eq!(mf.project, "test-project");
    assert_eq!(mf.name, "notes.md");
    assert!(!mf.content.is_empty());
}

fn sorted_names(paths: &[&str]) -> Vec<String> {
    let owned: Vec<String> = paths.iter().map(|p| p.to_string()).collect();
    memory_order(&owned)
        .into_iter()
        .map(|i| {
            std::path::Path::new(&owned[i])
                .file_name()
                .and_then(|n| n.to_str())
                .unwrap_or("")
                .to_string()
        })
        .collect()
}

#[test]
fn memory_sort_puts_memory_md_first() {
    let sorted_names = sorted_names(&["/memory/notes.md", "/memory/MEMORY.md", "/memory/archive.md"]);
    assert_eq!(sorted_names[0], "MEMORY.md");
    assert_eq!(sorted_names[1], "archive.md");
    assert_eq!(sorted_names[2], "notes.md");
}

#[test]
fn memory_sort_alphabetical_when_no_memory_md() {
    let sorted_names = sorted_names(&["/memory/zebra.md", "/memory/apple.md", "/memory/banana.md"]);
    assert_eq!(sorted_names, vec!["apple.md", "banana.md", "zebra.md"]);
}

#[test]
fn memory_sort_is_by_code_point_and_keeps_equal_names_in_order() {
    let paths: Vec<String> =
        ["/a/b.md", "/m/MEMORY.md", "/a/B.md", "/z/b.md"].iter().map(|s| s.to_string()).collect();
    // "B" (0x42) sorts before "b" (0x62); the two "b.md" keep their order.
    assert_eq!(memory_order(&paths), vec![1, 2, 0, 3]);
}

#[test]
fn drop_index_lines_removes_only_the_target_link() {
    let index = "# Memory Index\n\n\
        - [Foo](foo.md) — about foo\n\
        - [Bar](bar.md) — about bar\n";
    let out = drop_index_lines(index, "foo.md");
    assert!(!out.contains("foo.md"));
    assert!(out.contains("(bar.md)"));
    assert!(out.contains("# Memory Index"));
}

#[test]
fn drop_index_lines_does_not_match_suffixed_names() {
    // `(foo.md)` must not match `(bar-foo.md)` — the opening paren anchors
    // the link target's start.
    let index = "- [Bar foo](bar-foo.md) — composite name\n";
    let out = drop_index_lines(index, "foo.md");
    assert!(out.contains("(bar-foo.md)"));
}

#[test]
fn drop_index_lines_no_match_keeps_text_intact() {
    let index = "- [Foo](foo.md) — hook\n";
    assert_eq!(drop_index_lines(index, "missing.md"), index);
}

#[test]
fn drop_index_lines_mention_without_link_is_kept() {
    // A plain-text mention of the name is not a link target → kept.
    let index = "- [Other](other.md) — see also foo.md\n";
    let out = drop_index_lines(index, "foo.md");
    assert!(out.contains("(other.md)"));
}

#[test]
fn drop_index_lines_exact_output() {
    let index = "# Index\r\n- [A](a.md) x\n\n- [B](b.md) y";
    assert_eq!(drop_index_lines(index, "a.md"), "# Index\n\n- [B](b.md) y\n");
    assert_eq!(drop_index_lines("", "a.md"), "\n");
    assert_eq!(drop_index_lines("- [A](a.md)\n", "a.md"), "\n");
}

#[test]
fn md_files_only() {
    assert!(is_md_file("/p/memory/notes.md"));
    assert!(!is_md_file("/p/memory/notes.txt"));
    assert!(!is_md_file("/p/memory/md"));
}

#[test]
fn delete_check_accepts_memory_files_under_the_root() {
    let r = check_memory_delete("/h/.agent/projects/p/memory/notes.md", "/h/.agent/projects");
    assert_eq!(r.ok(), Some("notes.md".to_string()));
}

#[test]
fn delete_check_refuses_paths_outside_memory_folders() {
    let outside = check_memory_delete("/h/.agent/projects/p/notes.md", "/h/.agent/projects");
    assert!(matches!(outside, Err(DeleteError::OutsideMemory)));
    let other_root = check_memory_delete("/etc/memory/x.md", "/h/.agent/projects");
    assert!(matches!(other_root, Err(DeleteError::OutsideMemory)));
    // Component-wise prefix: a sibling folder sharing a name prefix is outside.
    let sibling = check_memory_delete("/h/.agent/projects2/p/memory/x.md", "/h/.agent/projects");
    assert!(matches!(sibling, Err(DeleteError::OutsideMemory)));
}

#[test]
fn delete_check_refuses_a_path_without_parent() {
    assert!(matches!(check_memory_delete("/", "/"), Err(DeleteError::InvalidPath)));
}

#[test]
fn delete_error_messages() {
    assert_eq!(DeleteError::NotFound.message(), "file not found");
    assert_eq!(DeleteError::NotMemoryFile.message(), "not a memory file");
    assert_eq!(DeleteError::NoHome.message(), "no home directory");
    assert_eq!(DeleteError::ProjectsDirNotFound.message(), "projects dir not found");
    assert_eq!(DeleteError::InvalidPath.message(), "invalid path");
    assert_eq!(
        DeleteError::OutsideMemory.message(),
        "path is outside the memory directories"
    );
    assert_eq!(DeleteError::Failed("busy".to_string()).message(), "delete failed: busy");
}

#[test]
fn index_is_rewritten_unless_it_is_the_deleted_file() {
    assert!(updates_index("notes.md"));
    assert!(!updates_index("MEMORY.md"));
}
