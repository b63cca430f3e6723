use dutree::{color_from_path, ColorDict, FsNode, Metadata};

fn node(name: &str, extension: Option<&str>) -> FsNode {
    FsNode {
        name: name.to_string(),
        extension: extension.map(|e| e.to_string()),
        metadata: None,
        is_dir: false,
        is_file: false,
        target_exists: false,
        entries: None,
    }
}

fn directory(name: &str) -> FsNode {
    FsNode {
        metadata: Some(Metadata { is_symlink: false, size: 4096, blocks: 8, mode: 0o40755 }),
        is_dir: true,
        entries: Some(Vec::new()),
        ..node(name, None)
    }
}

#[test]
fn parse_ls_colors() {
    let mut dict = ColorDict::new();
    dict.insert("di".to_string(), "dircode".to_string());
    dict.insert("li".to_string(), "linkcod".to_string());
    dict.insert("*.mp3".to_string(), "mp3code".to_string());
    dict.insert("*.tar".to_string(), "tarcode".to_string());
    assert_eq!("dircode", color_from_path(&directory("."), &dict).unwrap());
    assert_eq!("mp3code", color_from_path(&node("test.mp3", Some("mp3")), &dict).unwrap());
    assert_eq!("tarcode", color_from_path(&node("test.tar", Some("tar")), &dict).unwrap());
}

fn regular(name: &str, extension: Option<&str>, mode: u32) -> FsNode {
    FsNode {
        metadata: Some(Metadata { is_symlink: false, size: 10, blocks: 8, mode }),
        is_file: true,
        ..node(name, extension)
    }
}

fn link(name: &str, target_exists: bool) -> FsNode {
    FsNode {
        metadata: Some(Metadata { is_symlink: true, size: 7, blocks: 0, mode: 0o120777 }),
        target_exists,
        ..node(name, None)
    }
}

fn table(pairs: &[(&str, &str)]) -> ColorDict {
    let mut dict = ColorDict::new();
    for (key, code) in pairs {
        dict.insert(key.to_string(), code.to_string());
    }
    dict
}

#[test]
fn directory_and_extension_resolve() {
    let dict = table(&[("di", "34"), ("*.mp3", "35")]);
    assert_eq!(color_from_path(&directory("music"), &dict), Some("34".to_string()));
    assert_eq!(
        color_from_path(&regular("song.mp3", Some("mp3"), 0o100644), &dict),
        Some("35".to_string())
    );
    assert_eq!(color_from_path(&regular("notes", None, 0o100644), &dict), None);
    assert_eq!(color_from_path(&regular("notes.txt", Some("txt"), 0o100644), &dict), None);
}

#[test]
fn directory_writable_by_others() {
    let dict = table(&[("di", "34"), ("ow", "42")]);
    let mut open = directory("tmp");
    open.metadata = Some(Metadata { is_symlink: false, size: 0, blocks: 0, mode: 0o40777 });
    assert_eq!(color_from_path(&open, &dict), Some("42".to_string()));
    assert_eq!(color_from_path(&directory("home"), &dict), Some("34".to_string()));
    // without the class for it, such a directory is a plain directory
    assert_eq!(color_from_path(&open, &table(&[("di", "34")])), Some("34".to_string()));
}

#[test]
fn executable_file() {
    let dict = table(&[("ex", "32"), ("fi", "0"), ("*.sh", "33")]);
    assert_eq!(
        color_from_path(&regular("run.sh", Some("sh"), 0o100755), &dict),
        Some("32".to_string())
    );
    assert_eq!(
        color_from_path(&regular("run.sh", Some("sh"), 0o100644), &dict),
        Some("33".to_string())
    );
    assert_eq!(
        color_from_path(&regular("group", None, 0o100010), &dict),
        Some("32".to_string())
    );
    assert_eq!(color_from_path(&regular("plain", None, 0o100644), &dict), Some("0".to_string()));
}

#[test]
fn execute_bits_count_for_regular_files_only() {
    let dict = table(&[("ex", "32"), ("bd", "44")]);
    assert_eq!(color_from_path(&directory("bin"), &dict), Some("44".to_string()));
}

#[test]
fn links_by_their_target() {
    let dict = table(&[("ln", "36"), ("or", "31"), ("di", "34"), ("fi", "0")]);
    assert_eq!(color_from_path(&link("good", true), &dict), Some("36".to_string()));
    assert_eq!(color_from_path(&link("bad", false), &dict), Some("31".to_string()));
    let mut to_dir = link("dir", true);
    to_dir.is_dir = true;
    assert_eq!(color_from_path(&to_dir, &dict), Some("36".to_string()));
}

#[test]
fn links_without_their_class_have_no_color() {
    let dict = table(&[("or", "31"), ("di", "34"), ("fi", "0"), ("bd", "44")]);
    let mut to_dir = link("dir", true);
    to_dir.is_dir = true;
    assert_eq!(color_from_path(&to_dir, &dict), None);
    assert_eq!(color_from_path(&link("bad", false), &table(&[("ln", "36")])), None);
}

#[test]
fn special_files_and_unreadable_nodes() {
    let dict = table(&[("bd", "44"), ("fi", "0"), ("di", "34")]);
    let mut device = node("sda", None);
    device.metadata = Some(Metadata { is_symlink: false, size: 0, blocks: 0, mode: 0o60660 });
    assert_eq!(color_from_path(&device, &dict), Some("44".to_string()));
    // nothing is known of a node without metadata but its path
    assert_eq!(color_from_path(&node("gone", None), &dict), Some("44".to_string()));
    let mut unreadable = node("dir", None);
    unreadable.is_dir = true;
    assert_eq!(color_from_path(&unreadable, &dict), Some("44".to_string()));
}

#[test]
fn later_assignment_replaces_earlier() {
    let dict = table(&[("di", "34"), ("fi", "0"), ("di", "1;34")]);
    assert_eq!(dict.get("di"), Some("1;34".to_string()));
    assert_eq!(dict.get("fi"), Some("0".to_string()));
    assert_eq!(dict.get("ln"), None);
    assert_eq!(ColorDict::new().get("di"), None);
}
