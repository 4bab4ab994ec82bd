use module_tree::args::Args;
use module_tree::path::{clean, join};
use module_tree::resolve::{resolve, KnownPaths};

#[test]
fn relative_source_is_appended_to_the_parent() {
    assert_eq!(join("/proj", "modules/vpc"), "/proj/modules/vpc");
    assert_eq!(join("/proj", "./modules/vpc"), "/proj/modules/vpc");
    assert_eq!(join("/proj/", "modules/vpc/"), "/proj/modules/vpc");
    assert_eq!(join("/", "vpc"), "/vpc");
    assert_eq!(join("rel", "vpc"), "rel/vpc");
}

#[test]
fn absolute_source_stands_for_itself() {
    assert_eq!(join("/proj", "/opt/modules/vpc"), "/opt/modules/vpc");
    assert_eq!(join("/proj", "//opt/./vpc//"), "/opt/vpc");
    assert_eq!(join("/proj", "/"), "/");
}

#[test]
fn parent_steps_are_kept() {
    assert_eq!(join("/proj/env", "../modules/vpc"), "/proj/env/../modules/vpc");
    assert_eq!(join("/proj", ".."), "/proj/..");
    assert_eq!(join("/proj", "..."), "/proj/...");
    assert_eq!(join("/proj", ".hidden/.x"), "/proj/.hidden/.x");
}

#[test]
fn empty_source_names_the_parent() {
    assert_eq!(join("/proj", ""), "/proj");
    assert_eq!(join("/proj", "."), "/proj");
    assert_eq!(join("", ""), "");
    assert_eq!(join("", "a/./b"), "a/b");
}

#[test]
fn clean_drops_empty_and_dot_pieces() {
    assert_eq!(clean(""), "");
    assert_eq!(clean("."), "");
    assert_eq!(clean("/"), "/");
    assert_eq!(clean("///"), "/");
    assert_eq!(clean("a//b/./c/"), "a/b/c");
    assert_eq!(clean("/./a/././b"), "/a/b");
    assert_eq!(clean("./a"), "a");
    assert_eq!(clean("/été/./ü"), "/été/ü");
}

#[test]
fn resolve_prefers_the_canonical_form() {
    assert_eq!(resolve("/proj/vpc", Some(b"/real/vpc".to_vec())), b"/real/vpc".to_vec());
    assert_eq!(resolve("/proj/vpc", Some(vec![0xff])), vec![0xff]);
    assert_eq!(resolve("/proj/vpc", None), b"/proj/vpc".to_vec());
    assert_eq!(resolve("/é", None), vec![0x2f, 0xc3, 0xa9]);
}

#[test]
fn known_paths_answer_with_the_latest_form() {
    let mut known = KnownPaths::new();
    assert_eq!(known.get("/a"), None);
    known.insert(String::from("/a"), b"/one".to_vec());
    known.insert(String::from("/b"), b"/two".to_vec());
    assert_eq!(known.get("/a"), Some(b"/one".to_vec()));
    assert_eq!(known.get("/b"), Some(b"/two".to_vec()));
    assert_eq!(known.get("/c"), None);
    known.insert(String::from("/a"), b"/three".to_vec());
    assert_eq!(known.get("/a"), Some(b"/three".to_vec()));
    assert_eq!(known.get("/b"), Some(b"/two".to_vec()));
}

#[test]
fn default_args_point_at_the_current_directory() {
    let args = Args::default();
    assert!(args.var_file.is_empty());
    assert!(args.var.is_empty());
    assert_eq!(args.parallelism, Some(10));
    assert_eq!(args.path, ".");
    assert_eq!(args.project_dir("/home/me/infra"), "/home/me/infra");
}

#[test]
fn project_dir_joins_the_path_to_the_current_directory() {
    let mut args = Args::default();
    args.path = String::from("envs/prod");
    assert_eq!(args.project_dir("/home/me"), "/home/me/envs/prod");
    args.path = String::from("/srv/infra/");
    assert_eq!(args.project_dir("/home/me"), "/srv/infra");
}
