use cortex::paths::{
    expand_home, extension, file_stem, has_allowed_extension, join, path_components, same_components,
    should_ignore,
};
use std::path::Path;

fn strings(v: &[&str]) -> Vec<String> {
    v.iter().map(|s| s.to_string()).collect()
}

#[test]
fn join_puts_one_separator() {
    assert_eq!(join("/a/b", "c"), "/a/b/c");
    assert_eq!(join("/a/b/", "c"), "/a/b/c");
    assert_eq!(join("", "c"), "c");
}

#[test]
fn join_absolute_segment_replaces_base() {
    assert_eq!(join("/a/b", "/etc/x"), "/etc/x");
}

#[test]
fn extension_of_plain_names() {
    assert_eq!(extension("/notes/todo.md"), Some("md".to_string()));
    assert_eq!(extension("archive.tar.gz"), Some("gz".to_string()));
    assert_eq!(extension("/notes/README"), None);
}

#[test]
fn extension_of_hidden_and_odd_names() {
    assert_eq!(extension("/home/u/.bashrc"), None);
    assert_eq!(extension("name."), Some("".to_string()));
    assert_eq!(extension("/a/b.txt/"), Some("txt".to_string()));
    assert_eq!(extension("/a/b.txt/."), Some("txt".to_string()));
    assert_eq!(extension("/a/.."), None);
    assert_eq!(extension("/"), None);
    assert_eq!(extension(""), None);
}

#[test]
fn file_stem_of_names() {
    assert_eq!(file_stem("/notes/todo.md"), Some("todo".to_string()));
    assert_eq!(file_stem("archive.tar.gz"), Some("archive.tar".to_string()));
    assert_eq!(file_stem("/home/u/.bashrc"), Some(".bashrc".to_string()));
    assert_eq!(file_stem("README"), Some("README".to_string()));
    assert_eq!(file_stem("/"), None);
}

#[test]
fn stem_dot_extension_is_the_file_name() {
    let p = "/x/y/report.final.pdf";
    let stem = file_stem(p).unwrap();
    let ext = extension(p).unwrap();
    assert_eq!(format!("{}.{}", stem, ext), "report.final.pdf");
}

#[test]
fn allowed_extension_needs_the_dot() {
    let exts = strings(&[".md", ".txt"]);
    assert!(has_allowed_extension("/n/a.md", &exts));
    assert!(has_allowed_extension("b.txt", &exts));
    assert!(!has_allowed_extension("/n/a.rs", &exts));
    assert!(!has_allowed_extension("/n/md", &exts));
    assert!(!has_allowed_extension("/n/a.md", &strings(&["md"])));
}

#[test]
fn ignore_by_substring() {
    let pats = strings(&["node_modules", ".git"]);
    assert!(should_ignore("/p/node_modules/x.js", &pats));
    assert!(should_ignore("/p/.github/ci.yml", &pats));
    assert!(!should_ignore("/p/src/main.rs", &pats));
    assert!(!should_ignore("/p/src/main.rs", &[]));
}

#[test]
fn expand_home_only_with_tilde_slash() {
    assert_eq!(expand_home("~/notes", Some("/home/u")), "/home/u/notes");
    assert_eq!(expand_home("~/notes", None), "~/notes");
    assert_eq!(expand_home("~notes", Some("/home/u")), "~notes");
    assert_eq!(expand_home("/abs/notes", Some("/home/u")), "/abs/notes");
    assert_eq!(expand_home("~/", Some("/home/u")), "/home/u/");
}

#[test]
fn components_as_path_equality_sees_them() {
    let cases = [
        ("a//b", "a/b"),
        ("a/./b", "a/b"),
        ("a/b/", "a/b"),
        ("./a", "a"),
        ("./a", "./a/"),
        ("/a", "a"),
        ("a/../b", "a/b"),
        ("", "."),
        (".hidden", "./hidden"),
        ("/", "//"),
    ];
    for (x, y) in cases {
        let ours = same_components(&path_components(x), &path_components(y));
        assert_eq!(ours, Path::new(x) == Path::new(y), "{x:?} vs {y:?}");
    }
    let k = path_components("/x/./y//..");
    assert!(k.root && !k.cur_dir);
    assert_eq!(k.parts, vec![vec!['x'], vec!['y'], vec!['.', '.']]);
}
