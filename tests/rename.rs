use import_tools::rename::{detect_batch_move, strip_common_prefix_and_suffix, Key};

#[test]
fn test_strip_common_prefix_and_suffix() {
    let func = strip_common_prefix_and_suffix;

    assert_eq!(func("", ""), ("".to_owned(), "".to_owned()));
    assert_eq!(func("", "a"), ("".to_owned(), "a".to_owned()));
    assert_eq!(func("a", ""), ("a".to_owned(), "".to_owned()));

    assert_eq!(func("1a2", "1b2"), ("a".to_owned(), "b".to_owned()));
    assert_eq!(func("1a22", "1b2"), ("a2".to_owned(), "b".to_owned()));

    assert_eq!(
        func("/a/1.txt", "/a/1.md"),
        ("txt".to_owned(), "md".to_owned())
    );
    assert_eq!(
        func("/a/b/1.txt", "/a/c/1.txt"),
        ("b".to_owned(), "c".to_owned())
    );

    assert_eq!(
        func("/文件/我的/好.txt", "/文件/你的/好.txt"),
        ("我".to_owned(), "你".to_owned()),
    );
}

#[test]
fn strip_identical_strings_leaves_nothing() {
    assert_eq!(
        strip_common_prefix_and_suffix("a/b.txt", "a/b.txt"),
        ("".to_owned(), "".to_owned())
    );
}

#[test]
fn strip_prefix_of_other() {
    assert_eq!(
        strip_common_prefix_and_suffix("abc", "abcabc"),
        ("".to_owned(), "abc".to_owned())
    );
}

fn gen_key(path: &str) -> Key {
    Key {
        path: path.to_owned(),
        hgid: [0; 20],
    }
}

#[test]
fn test_detect_batch_move() {
    let mut added_files: Vec<Key> = vec![
        gen_key("a/b/c.txt"),
        gen_key("a/b/c.md"),
        gen_key("a/d.txt"),
    ];

    let mut deleted_files: Vec<Key> = vec![
        gen_key("b/b/c.txt"),
        gen_key("b/b/c.md"),
        gen_key("b/d.txt"),
    ];

    assert_eq!(
        detect_batch_move(&mut added_files, &mut deleted_files),
        vec![
            (gen_key("a/b/c.md"), gen_key("b/b/c.md")),
            (gen_key("a/b/c.txt"), gen_key("b/b/c.txt")),
            (gen_key("a/d.txt"), gen_key("b/d.txt")),
        ]
    );
}

#[test]
fn test_detect_batch_move_with_unequal_num_of_files() {
    let mut added_files: Vec<Key> = vec![
        gen_key("a/b/c.txt"),
        gen_key("a/b/c.md"),
        gen_key("a/d.txt"),
        gen_key("a/e.txt"),
    ];

    let mut deleted_files: Vec<Key> = vec![
        gen_key("b/b/c.txt"),
        gen_key("b/b/c.md"),
        gen_key("b/d.txt"),
    ];

    assert_eq!(
        detect_batch_move(&mut added_files, &mut deleted_files),
        vec![]
    );
}

#[test]
fn test_detect_batch_move_with_unmatched_basename() {
    let mut added_files: Vec<Key> = vec![
        gen_key("a/b/c.txt"),
        gen_key("a/b/c.md"),
        gen_key("a/d.txt"),
    ];

    let mut deleted_files: Vec<Key> = vec![
        gen_key("b/b/ccc.txt"),
        gen_key("b/b/c.md"),
        gen_key("b/d.txt"),
    ];

    assert_eq!(
        detect_batch_move(&mut added_files, &mut deleted_files),
        vec![]
    );
}

#[test]
fn batch_move_sorts_inputs_by_path() {
    let mut added_files = vec![gen_key("x/2"), gen_key("x/1")];
    let mut deleted_files = vec![gen_key("y/2"), gen_key("y/1")];
    let pairs = detect_batch_move(&mut added_files, &mut deleted_files);
    assert_eq!(added_files, vec![gen_key("x/1"), gen_key("x/2")]);
    assert_eq!(deleted_files, vec![gen_key("y/1"), gen_key("y/2")]);
    assert_eq!(
        pairs,
        vec![
            (gen_key("x/1"), gen_key("y/1")),
            (gen_key("x/2"), gen_key("y/2")),
        ]
    );
}

#[test]
fn batch_move_of_nothing_is_empty() {
    let mut added_files: Vec<Key> = vec![];
    let mut deleted_files: Vec<Key> = vec![];
    assert_eq!(detect_batch_move(&mut added_files, &mut deleted_files), vec![]);
}
