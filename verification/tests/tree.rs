use dutree::{ColorDict, Config, Entry, FsNode, Metadata};

fn settings() -> Config {
    Config {
        paths: vec![".".to_string()],
        color_dict: ColorDict::new(),
        depth: 1,
        depth_flag: false,
        bytes_flag: false,
        usage_flag: false,
        hiddn_flag: false,
        ascii_flag: false,
        no_dir_flg: false,
        aggr: 0,
        exclude: Vec::new(),
    }
}

fn file(name: &str, size: u64) -> FsNode {
    FsNode {
        name: name.to_string(),
        extension: None,
        metadata: Some(Metadata { is_symlink: false, size, blocks: 8, mode: 0o100644 }),
        is_dir: false,
        is_file: true,
        target_exists: false,
        entries: None,
    }
}

fn dir(name: &str, size: u64, entries: Vec<FsNode>) -> FsNode {
    FsNode {
        name: name.to_string(),
        extension: None,
        metadata: Some(Metadata { is_symlink: false, size, blocks: 8, mode: 0o40755 }),
        is_dir: true,
        is_file: false,
        target_exists: false,
        entries: Some(entries),
    }
}

fn names(e: &Entry) -> Vec<&str> {
    e.entries.as_ref().unwrap().iter().map(|c| c.name.as_str()).collect()
}

fn sizes(e: &Entry) -> Vec<u64> {
    e.entries.as_ref().unwrap().iter().map(|c| c.bytes).collect()
}

fn marks(e: &Entry) -> Vec<bool> {
    e.entries.as_ref().unwrap().iter().map(|c| c.last).collect()
}

#[test]
fn small_files_are_aggregated() {
    let root = dir("root", 4096, vec![file("a", 2048), file("b", 10), file("c", 5)]);
    let cfg = Config { aggr: 100, ..settings() };
    let e = Entry::new(&root, &cfg, cfg.depth);
    assert_eq!(e.name, "root");
    assert_eq!(e.bytes, 2063 + 4096);
    assert_eq!(names(&e), vec!["a", "aggregated-entries-marker"]);
    assert_eq!(sizes(&e), vec![2048, 15]);
    assert_eq!(marks(&e), vec![false, true]);
    let aggregate = &e.entries.as_ref().unwrap()[1];
    assert!(aggregate.entries.is_none());
    assert!(aggregate.color.is_none());
    assert!(!e.last);
}

#[test]
fn siblings_by_descending_size() {
    let root = dir(
        "root",
        0,
        vec![file("s", 1), file("l", 300), file("m", 20), file("xl", 4000), file("xs", 0)],
    );
    let e = Entry::new(&root, &settings(), 1);
    assert_eq!(names(&e), vec!["xl", "l", "m", "s", "xs"]);
    assert_eq!(sizes(&e), vec![4000, 300, 20, 1, 0]);
    assert_eq!(marks(&e), vec![false, false, false, false, true]);
    assert_eq!(e.bytes, 4321);
}

#[test]
fn siblings_of_one_size_keep_their_order() {
    let root = dir(
        "root",
        0,
        vec![file("b", 7), file("a", 7), file("z", 9), file("c", 7), file("y", 9)],
    );
    let e = Entry::new(&root, &settings(), 1);
    assert_eq!(names(&e), vec!["z", "y", "b", "a", "c"]);
}

#[test]
fn aggregate_stands_last_whatever_its_size() {
    let root = dir("root", 0, vec![file("a", 99), file("b", 150), file("c", 99)]);
    let cfg = Config { aggr: 100, ..settings() };
    let e = Entry::new(&root, &cfg, 1);
    assert_eq!(names(&e), vec!["b", "aggregated-entries-marker"]);
    assert_eq!(sizes(&e), vec![150, 198]);
    assert_eq!(marks(&e), vec![false, true]);
    assert_eq!(e.bytes, 348);
}

#[test]
fn threshold_itself_is_kept() {
    let root = dir("root", 0, vec![file("at", 100), file("below", 99), file("above", 101)]);
    let cfg = Config { aggr: 100, ..settings() };
    let e = Entry::new(&root, &cfg, 1);
    assert_eq!(names(&e), vec!["above", "at", "aggregated-entries-marker"]);
    assert_eq!(sizes(&e), vec![101, 100, 99]);
}

#[test]
fn no_aggregate_where_nothing_is_smaller() {
    let root = dir("root", 0, vec![file("a", 100), file("b", 500)]);
    let cfg = Config { aggr: 100, ..settings() };
    let e = Entry::new(&root, &cfg, 1);
    assert_eq!(names(&e), vec!["b", "a"]);
    assert_eq!(marks(&e), vec![false, true]);
}

#[test]
fn no_aggregate_of_nothing() {
    let root = dir("root", 0, vec![file("a", 0), file("b", 500), file("c", 0)]);
    let cfg = Config { aggr: 100, ..settings() };
    let e = Entry::new(&root, &cfg, 1);
    assert_eq!(names(&e), vec!["b"]);
    assert_eq!(marks(&e), vec![true]);
    assert_eq!(e.bytes, 500);
}

#[test]
fn everything_aggregated() {
    let root = dir("root", 1, vec![file("a", 3), file("b", 5)]);
    let cfg = Config { aggr: 100, ..settings() };
    let e = Entry::new(&root, &cfg, 1);
    assert_eq!(names(&e), vec!["aggregated-entries-marker"]);
    assert_eq!(sizes(&e), vec![8]);
    assert_eq!(marks(&e), vec![true]);
    assert_eq!(e.bytes, 9);
}

#[test]
fn directories_are_aggregated_by_their_total() {
    let root = dir(
        "root",
        0,
        vec![dir("few", 10, vec![file("x", 20)]), dir("many", 10, vec![file("y", 200)])],
    );
    let cfg = Config { aggr: 100, ..settings() };
    let e = Entry::new(&root, &cfg, 1);
    assert_eq!(names(&e), vec!["many", "aggregated-entries-marker"]);
    assert_eq!(sizes(&e), vec![210, 30]);
}

#[test]
fn empty_directory_has_no_siblings() {
    let e = Entry::new(&dir("empty", 4096, vec![]), &settings(), 1);
    assert_eq!(e.entries.as_ref().unwrap().len(), 0);
    assert_eq!(e.bytes, 4096);
}

#[test]
fn file_has_no_entries() {
    let e = Entry::new(&file("f", 12), &settings(), 1);
    assert!(e.entries.is_none());
    assert_eq!(e.bytes, 12);
}

#[test]
fn unlisted_directory_has_no_entries() {
    let mut locked = dir("locked", 4096, vec![]);
    locked.entries = None;
    let e = Entry::new(&locked, &settings(), 1);
    assert!(e.entries.is_none());
    assert_eq!(e.bytes, 4096);
}

#[test]
fn excluded_names_do_not_count() {
    let root = dir(
        "root",
        1,
        vec![file("keep", 10), file("target", 1000), dir("skip", 5, vec![file("x", 7)])],
    );
    let cfg = Config { exclude: vec!["target".to_string(), "skip".to_string()], ..settings() };
    let e = Entry::new(&root, &cfg, 1);
    assert_eq!(names(&e), vec!["keep"]);
    assert_eq!(e.bytes, 11);
}

#[test]
fn exclusion_is_by_the_whole_name() {
    let root = dir("root", 0, vec![file("target", 1), file("targets", 2), file("my-target", 4)]);
    let cfg = Config { exclude: vec!["target".to_string()], ..settings() };
    let e = Entry::new(&root, &cfg, 1);
    assert_eq!(names(&e), vec!["my-target", "targets"]);
    assert_eq!(e.bytes, 6);
}

#[test]
fn hidden_entries_are_left_out_on_demand() {
    let root = dir("root", 0, vec![file(".git", 100), file("src", 10), file("a.b", 1)]);
    let e = Entry::new(&root, &settings(), 1);
    assert_eq!(names(&e), vec![".git", "src", "a.b"]);
    let cfg = Config { hiddn_flag: true, ..settings() };
    let e = Entry::new(&root, &cfg, 1);
    assert_eq!(names(&e), vec!["src", "a.b"]);
    assert_eq!(e.bytes, 11);
}

#[test]
fn directories_are_skipped_on_demand() {
    let root = dir("root", 1, vec![dir("sub", 4096, vec![file("x", 7)]), file("f", 10)]);
    let cfg = Config { no_dir_flg: true, ..settings() };
    let e = Entry::new(&root, &cfg, 1);
    assert_eq!(names(&e), vec!["f"]);
    assert_eq!(e.bytes, 11);
}

#[test]
fn the_root_is_never_filtered() {
    let root = dir(".hidden", 1, vec![file("f", 10)]);
    let cfg = Config {
        hiddn_flag: true,
        no_dir_flg: true,
        exclude: vec![".hidden".to_string()],
        ..settings()
    };
    let e = Entry::new(&root, &cfg, 1);
    assert_eq!(e.name, ".hidden");
    assert_eq!(names(&e), vec!["f"]);
}

fn nested() -> FsNode {
    dir(
        "root",
        1,
        vec![
            dir("sub", 10, vec![file("x", 100), dir("deep", 1000, vec![file(".y", 10000)])]),
            file("f", 5),
        ],
    )
}

#[test]
fn without_a_depth_limit_everything_is_expanded() {
    let e = Entry::new(&nested(), &settings(), 1);
    assert_eq!(e.bytes, 11116);
    assert_eq!(names(&e), vec!["sub", "f"]);
    let sub = &e.entries.as_ref().unwrap()[0];
    assert_eq!(names(sub), vec!["deep", "x"]);
    assert_eq!(marks(sub), vec![false, true]);
    let deep = &sub.entries.as_ref().unwrap()[0];
    assert_eq!(names(deep), vec![".y"]);
    assert_eq!(deep.bytes, 11000);
}

#[test]
fn depth_limit_bounds_what_is_shown_not_what_is_counted() {
    let cfg = Config { depth_flag: true, depth: 1, ..settings() };
    let e = Entry::new(&nested(), &cfg, cfg.depth);
    assert_eq!(e.bytes, 11116);
    assert_eq!(names(&e), vec!["sub", "f"]);
    assert_eq!(sizes(&e), vec![11110, 5]);
    assert!(e.entries.as_ref().unwrap()[0].entries.is_none());
}

#[test]
fn depth_two_expands_two_levels() {
    let cfg = Config { depth_flag: true, depth: 2, ..settings() };
    let e = Entry::new(&nested(), &cfg, cfg.depth);
    let sub = &e.entries.as_ref().unwrap()[0];
    assert_eq!(names(sub), vec!["deep", "x"]);
    assert!(sub.entries.as_ref().unwrap()[0].entries.is_none());
    assert_eq!(sub.entries.as_ref().unwrap()[0].bytes, 11000);
}

#[test]
fn depth_zero_shows_the_root_alone() {
    let cfg = Config { depth_flag: true, depth: 0, ..settings() };
    let e = Entry::new(&nested(), &cfg, cfg.depth);
    assert!(e.entries.is_none());
    assert_eq!(e.bytes, 11116);
}

#[test]
fn filters_apply_to_what_is_shown_only() {
    // `.y` is hidden, but lies below the depth limit: it is counted
    let cfg = Config { depth_flag: true, depth: 1, hiddn_flag: true, ..settings() };
    let e = Entry::new(&nested(), &cfg, cfg.depth);
    assert_eq!(sizes(&e), vec![11110, 5]);
    // expanded down to it, it is left out
    let cfg = Config { hiddn_flag: true, ..settings() };
    let e = Entry::new(&nested(), &cfg, cfg.depth);
    assert_eq!(sizes(&e), vec![1110, 5]);
    assert_eq!(e.bytes, 1116);
}

#[test]
fn physical_sizes_on_demand() {
    let cfg = Config { usage_flag: true, ..settings() };
    let e = Entry::new(&nested(), &cfg, 1);
    assert_eq!(e.bytes, 6 * 4096);
}

#[test]
fn colors_unless_plain() {
    let mut dict = ColorDict::new();
    dict.insert("di".to_string(), "34".to_string());
    dict.insert("fi".to_string(), "0".to_string());
    let cfg = Config { color_dict: dict, ..settings() };
    let e = Entry::new(&nested(), &cfg, 1);
    assert_eq!(e.color, Some("34".to_string()));
    assert_eq!(e.entries.as_ref().unwrap()[1].color, Some("0".to_string()));
    let cfg = Config { ascii_flag: true, ..cfg };
    let e = Entry::new(&nested(), &cfg, 1);
    assert_eq!(e.color, None);
    assert_eq!(e.entries.as_ref().unwrap()[1].color, None);
}

#[test]
fn one_root_is_its_own_tree() {
    let e = Entry::tree(&vec![nested()], &settings());
    assert_eq!(e.name, "root");
    assert_eq!(e.bytes, 11116);
}

#[test]
fn several_roots_stand_below_a_collection() {
    let roots = vec![file("small", 5), nested(), dir("mid", 50, vec![file("m", 50)])];
    let cfg = Config { depth_flag: true, depth: 0, ..settings() };
    let e = Entry::tree(&roots, &cfg);
    assert_eq!(e.name, "multi-root-collection-marker");
    assert_eq!(e.color, None);
    assert!(!e.last);
    assert_eq!(e.bytes, 5 + 11116 + 100);
    assert_eq!(names(&e), vec!["root", "mid", "small"]);
    assert_eq!(marks(&e), vec![false, false, true]);
    // each root has the whole depth to itself, here none
    assert!(e.entries.as_ref().unwrap()[0].entries.is_none());
}

#[test]
fn roots_are_not_aggregated() {
    let roots = vec![file("a", 5), file("b", 7)];
    let cfg = Config { aggr: 100, ..settings() };
    let e = Entry::tree(&roots, &cfg);
    assert_eq!(names(&e), vec!["b", "a"]);
}

#[test]
fn no_roots_make_an_empty_collection() {
    let e = Entry::tree(&Vec::new(), &settings());
    assert_eq!(e.name, "multi-root-collection-marker");
    assert_eq!(e.bytes, 0);
    assert_eq!(e.entries.as_ref().unwrap().len(), 0);
}

#[test]
fn sizes_that_do_not_fit() {
    let root = dir("root", 1, vec![file("a", u64::MAX - 1), file("b", 1)]);
    assert!(Entry::try_new(&root, &settings(), 1).is_none());
    let cfg = Config { aggr: u64::MAX, ..settings() };
    assert!(Entry::try_new(&root, &cfg, 1).is_none());
    let root = dir("root", 0, vec![file("a", u64::MAX - 1), file("b", 1)]);
    let e = Entry::try_new(&root, &settings(), 1).unwrap();
    assert_eq!(e.bytes, u64::MAX);
    let e = Entry::try_new(&root, &cfg, 1).unwrap();
    assert_eq!(sizes(&e), vec![u64::MAX]);
    assert_eq!(names(&e), vec!["aggregated-entries-marker"]);
    // limited in depth, a directory still counts all below it
    let cfg = Config { depth_flag: true, depth: 0, ..settings() };
    let root = dir("root", 1, vec![file("a", u64::MAX - 1), file("b", 1)]);
    assert!(Entry::try_new(&root, &cfg, cfg.depth).is_none());
    assert!(Entry::try_tree(&vec![file("a", u64::MAX), file("b", 1)], &settings()).is_none());
    let e = Entry::try_tree(&vec![file("a", u64::MAX - 1), file("b", 1)], &settings()).unwrap();
    assert_eq!(e.bytes, u64::MAX);
}

#[test]
fn many_siblings_are_sorted_as_a_stable_sort_would() {
    let mut files = Vec::new();
    let mut expected: Vec<(u64, String)> = Vec::new();
    let mut seed: u64 = 12345;
    for i in 0..20000 {
        seed = seed.wrapping_mul(6364136223846793005).wrapping_add(1442695040888963407);
        let size = (seed >> 33) % 500;
        let name = format!("f{}", i);
        files.push(file(&name, size));
        expected.push((size, name));
    }
    expected.sort_by(|a, b| b.0.cmp(&a.0));
    let e = Entry::new(&dir("root", 0, files), &settings(), 1);
    let shown = e.entries.as_ref().unwrap();
    assert_eq!(shown.len(), expected.len());
    for (entry, (size, name)) in shown.iter().zip(expected.iter()) {
        assert_eq!(entry.bytes, *size);
        assert_eq!(&entry.name, name);
    }
    assert!(shown.last().unwrap().last);
    assert_eq!(shown.iter().filter(|c| c.last).count(), 1);
}
