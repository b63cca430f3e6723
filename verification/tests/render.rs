use dutree::render::Frame;
use dutree::{run, try_run, ColorDict, Config, Entry, FsNode, Metadata};

fn options() -> Config {
    Config {
        paths: vec![".".to_string()],
        color_dict: ColorDict::new(),
        depth: 1,
        depth_flag: false,
        bytes_flag: false,
        usage_flag: false,
        hiddn_flag: false,
        ascii_flag: false,
        no_dir_flg: false,
        aggr: 0,
        exclude: Vec::new(),
    }
}

fn file_of(name: &str, size: u64) -> FsNode {
    FsNode {
        name: name.to_string(),
        extension: None,
        metadata: Some(Metadata { is_symlink: false, size, blocks: 8, mode: 0o100644 }),
        is_dir: false,
        is_file: true,
        target_exists: false,
        entries: None,
    }
}

fn dir_of(name: &str, size: u64, entries: Vec<FsNode>) -> FsNode {
    FsNode {
        name: name.to_string(),
        extension: None,
        metadata: Some(Metadata { is_symlink: false, size, blocks: 8, mode: 0o40755 }),
        is_dir: true,
        is_file: false,
        target_exists: false,
        entries: Some(entries),
    }
}

/// A line as the columns lay it out: tree and name in `name_width` columns,
/// the bar, and the size in thirteen.
fn columns(tree: &str, name: &str, name_width: usize, bar: &str, size: &str) -> String {
    format!("{}{:<width$} {} {:>13}", tree, name, bar, size, width = name_width)
}

#[test]
fn layout_of_a_default_terminal() {
    let root = Entry::new(&file_of("f", 1), &options(), 1);
    let frame = Frame::new(&root, false, false, None);
    assert_eq!(frame.tree_name_width, 25);
    assert_eq!(frame.bar_width, 40);
    assert_eq!(frame.max_bytes, 1);
    let same = Frame::new(&root, true, true, Some(80));
    assert_eq!((same.tree_name_width, same.bar_width), (25, 40));
    assert!(same.bytes_flag && same.ascii_flag);
}

#[test]
fn layout_of_a_wide_terminal() {
    let root = Entry::new(&file_of("f", 1), &options(), 1);
    let frame = Frame::new(&root, false, false, Some(215));
    // 200 columns are free, a quarter of them for tree and name
    assert_eq!(frame.tree_name_width, 50);
    assert_eq!(frame.bar_width, 150);
    let frame = Frame::new(&root, false, false, Some(u16::MAX));
    assert_eq!(frame.tree_name_width, 16380);
    assert_eq!(frame.bar_width, 49140);
}

#[test]
fn layout_of_a_narrow_terminal() {
    let root = Entry::new(&file_of("f", 1), &options(), 1);
    let frame = Frame::new(&root, false, false, Some(40));
    assert_eq!((frame.tree_name_width, frame.bar_width), (25, 0));
    let frame = Frame::new(&root, false, false, Some(10));
    assert_eq!((frame.tree_name_width, frame.bar_width), (25, 0));
    let frame = Frame::new(&root, false, false, Some(0));
    assert_eq!((frame.tree_name_width, frame.bar_width), (25, 0));
}

#[test]
fn full_bar_stands_for_the_largest_child() {
    let node = dir_of("d", 100, vec![file_of("a", 5), file_of("b", 50), file_of("c", 7)]);
    let cfg = Config { aggr: 10, ..options() };
    let root = Entry::new(&node, &cfg, 1);
    assert_eq!(Frame::new(&root, false, false, None).max_bytes, 50);
    // an aggregate may be the largest
    let cfg = Config { aggr: 60, ..options() };
    let root = Entry::new(&node, &cfg, 1);
    assert_eq!(Frame::new(&root, false, false, None).max_bytes, 62);
    // of an empty directory, the directory itself
    let root = Entry::new(&dir_of("d", 100, vec![]), &options(), 1);
    assert_eq!(Frame::new(&root, false, false, None).max_bytes, 100);
}

#[test]
fn lines_of_a_small_tree() {
    let root = dir_of("proj", 0, vec![file_of("small", 1000), file_of("big", 3000)]);
    let lines = run(&options(), &vec![root], Some(54));
    assert_eq!(
        lines,
        vec![
            "[ proj 3.91 KiB ]".to_string(),
            columns("├─ ", "big", 22, "│ ██████│  75%", "2.93 KiB"),
            columns("└─ ", "small", 22, "│      █│  25%", "1000.00 B"),
        ]
    );
}

#[test]
fn lines_fill_the_terminal() {
    let root = dir_of("proj", 0, vec![file_of("small", 1000), file_of("big", 3000)]);
    for width in [47u16, 54, 80, 100, 133] {
        let lines = run(&options(), &vec![root_copy(&root)], Some(width));
        for line in &lines[1..] {
            assert_eq!(line.chars().count(), width as usize, "{}", line);
        }
    }
}

fn root_copy(node: &FsNode) -> FsNode {
    FsNode {
        name: node.name.clone(),
        extension: node.extension.clone(),
        metadata: node.metadata,
        is_dir: node.is_dir,
        is_file: node.is_file,
        target_exists: node.target_exists,
        entries: node.entries.as_ref().map(|v| v.iter().map(root_copy).collect()),
    }
}

#[test]
fn lines_in_plain_characters_and_bytes() {
    let root = dir_of("proj", 0, vec![file_of("small", 1000), file_of("big", 3000)]);
    let cfg = Config { ascii_flag: true, bytes_flag: true, ..options() };
    let lines = run(&cfg, &vec![root], Some(54));
    assert_eq!(
        lines,
        vec![
            "[ proj 4000.00 B ]".to_string(),
            columns("├─ ", "big", 22, "│ ######│  75%", "3000.00 B"),
            columns("└─ ", "small", 22, "│      #│  25%", "1000.00 B"),
        ]
    );
}

#[test]
fn nested_lines_carry_guides() {
    let root = dir_of(
        "r",
        0,
        vec![
            dir_of("a", 0, vec![file_of("a1", 600), file_of("a2", 200)]),
            dir_of("b", 0, vec![file_of("b1", 200)]),
        ],
    );
    let lines = run(&options(), &vec![root], Some(54));
    assert_eq!(
        lines,
        vec![
            "[ r 1000.00 B ]".to_string(),
            columns("├─ ", "a", 22, "│ ██████│  80%", "800.00 B"),
            // five of seven cells are left to `a1`, one to `a2`
            columns("│  ├─ ", "a1", 19, "│ ░░████│  75%", "600.00 B"),
            columns("│  └─ ", "a2", 19, "│ ░░░░░░│  25%", "200.00 B"),
            // one cell is left to `b`: no cell lies beyond the six it leaves free
            columns("└─ ", "b", 22, "│       │  20%", "200.00 B"),
            columns("   └─ ", "b1", 19, "│       │ 100%", "200.00 B"),
        ]
    );
}

#[test]
fn names_are_painted() {
    let mut dict = ColorDict::new();
    dict.insert("fi".to_string(), "01;32".to_string());
    let root = dir_of("proj", 0, vec![file_of("f", 3000)]);
    let cfg = Config { color_dict: dict, ..options() };
    let lines = run(&cfg, &vec![root], Some(54));
    let name = format!("\u{1b}[01;32m{:<22}\u{1b}[0m", "f");
    assert_eq!(lines[1], columns("└─ ", &name, 22, "│ ██████│ 100%", "2.93 KiB"));
    assert_eq!(lines[0], "[ proj 2.93 KiB ]");
}

#[test]
fn long_and_wide_names_are_cut_to_the_column() {
    let root = dir_of(
        "proj",
        0,
        vec![
            file_of("a-name-that-is-much-too-long-for-its-column", 3000),
            file_of("日本語のファイル名はとても長い", 2000),
            file_of("xe\u{301}日本語のファイル名はとても長", 1000),
        ],
    );
    let lines = run(&options(), &vec![root], Some(54));
    assert!(lines[1].starts_with("├─ a-name-that-is-much-to │"), "{}", lines[1]);
    assert!(lines[2].starts_with("├─ 日本語のファイル名はと │"), "{}", lines[2]);
    assert!(lines[3].starts_with("└─ xe\u{301}日本語のファイル名は │"), "{}", lines[3]);
}

fn chain(levels: usize) -> FsNode {
    let mut node = file_of("leaf", 10);
    for _ in 0..levels {
        node = dir_of("d", 0, vec![node]);
    }
    node
}

#[test]
fn lines_without_room_are_left_out() {
    // twenty-five columns hold the branches of eight levels
    let lines = run(&options(), &vec![chain(12)], Some(80));
    assert_eq!(lines.len(), 1 + 8);
    assert!(lines[8].starts_with("                     └─ d │"), "{}", lines[8]);
    assert_eq!(lines[8].chars().count(), 80);
    let lines = run(&options(), &vec![chain(7)], Some(80));
    assert_eq!(lines.len(), 1 + 7);
    assert!(lines[7].starts_with("                  └─ leaf │"), "{}", lines[7]);
}

#[test]
fn root_alone() {
    let lines = run(&options(), &vec![file_of("file", 2048)], None);
    assert_eq!(lines, vec!["[ file 2.00 KiB ]".to_string()]);
}

#[test]
fn several_roots() {
    let cfg = Config { depth_flag: true, depth: 0, ..options() };
    let lines = run(&cfg, &vec![file_of("a", 100), file_of("b", 300)], Some(54));
    assert_eq!(
        lines,
        vec![
            "[ multi-root-collection-marker 400.00 B ]".to_string(),
            columns("├─ ", "b", 22, "│ ██████│  75%", "300.00 B"),
            columns("└─ ", "a", 22, "│      █│  25%", "100.00 B"),
        ]
    );
}

#[test]
fn aggregate_line() {
    let root = dir_of("root", 0, vec![file_of("a", 2048), file_of("b", 10), file_of("c", 5)]);
    let cfg = Config { aggr: 100, ..options() };
    let lines = run(&cfg, &vec![root], Some(64));
    assert_eq!(lines.len(), 3);
    assert_eq!(lines[0], "[ root 2.01 KiB ]");
    assert!(lines[1].starts_with("├─ a "));
    assert!(lines[2].starts_with("└─ aggregated-entries-mar │"), "{}", lines[2]);
    assert_eq!(lines[2].chars().count(), 64);
    assert!(lines[2].ends_with("   0%       15.00 B"), "{}", lines[2]);
}

#[test]
fn narrow_terminal_has_no_bar() {
    let root = dir_of("proj", 0, vec![file_of("f", 3000)]);
    let lines = run(&options(), &vec![root], Some(20));
    assert_eq!(lines[1], columns("└─ ", "f", 22, "││ 100%", "2.93 KiB"));
}

#[test]
fn sizes_beyond_the_machine_are_refused() {
    let roots = vec![file_of("a", u64::MAX), file_of("b", 1)];
    assert_eq!(try_run(&options(), &roots, None), None);
    let roots = vec![dir_of("d", 1, vec![file_of("a", u64::MAX)])];
    assert_eq!(try_run(&options(), &roots, None), None);
    let roots = vec![file_of("a", u64::MAX)];
    assert_eq!(
        try_run(&options(), &roots, None),
        Some(vec!["[ a 16777216.00 TiB ]".to_string()])
    );
    // what is filtered is not counted, and so cannot be too much
    let roots = vec![dir_of("d", 1, vec![file_of("a", u64::MAX), file_of("b", 5)])];
    let cfg = Config { exclude: vec!["a".to_string()], ..options() };
    let lines = try_run(&cfg, &roots, None).unwrap();
    assert_eq!(lines[0], "[ d 6.00 B ]");
}
