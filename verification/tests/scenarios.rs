use module_tree::node::TreeNode;
use module_tree::resolve::KnownPaths;
use module_tree::schema::{Module, ModuleCall, ModuleDocument};
use module_tree::tree::OrderedTree;

fn call(source: &str, module: Module) -> ModuleCall {
    ModuleCall::new(String::from(source), module)
}

fn project_with(name: &str, call: ModuleCall) -> ModuleDocument {
    let mut root = Module::new();
    root.insert(String::from(name), call);
    ModuleDocument::new(root)
}

fn found_on_disk(paths: &[&str]) -> KnownPaths {
    let mut known = KnownPaths::new();
    for path in paths {
        known.insert(String::from(*path), path.as_bytes().to_vec());
    }
    known
}

fn depth(tree: &OrderedTree<TreeNode>) -> usize {
    1 + tree.children.iter().map(depth).max().unwrap_or(0)
}

#[test]
fn single_call_is_one_child_line() {
    let document = project_with("vpc", call("./modules/vpc", Module::new()));
    let known = found_on_disk(&["/proj/modules/vpc"]);
    let tree = document.into_tree("/proj", &known);
    assert_eq!(tree.value.name, "*");
    assert_eq!(tree.children.len(), 1);
    let text = tree.render().unwrap();
    assert_eq!(text, "* (/proj)\n└── vpc (/proj/modules/vpc)\n");
    let lines: Vec<&str> = text.lines().collect();
    assert!(lines[0].starts_with('*'));
    assert!(lines[1].ends_with("vpc (/proj/modules/vpc)"));
}

#[test]
fn counted_call_shows_its_count() {
    let mut vpc = call("./modules/vpc", Module::new());
    vpc.count = Some(2);
    let document = project_with("vpc", vpc);
    let known = found_on_disk(&["/proj/modules/vpc"]);
    let tree = document.into_tree("/proj", &known);
    assert_eq!(tree.children[0].value.render().unwrap(), "vpc[2] (/proj/modules/vpc)");
    assert_eq!(tree.render().unwrap(), "* (/proj)\n└── vpc[2] (/proj/modules/vpc)\n");
}

#[test]
fn keyed_call_shows_its_keys_in_document_order() {
    let mut vpc = call("./modules/vpc", Module::new());
    vpc.insert_key(String::from("east"));
    vpc.insert_key(String::from("west"));
    let document = project_with("vpc", vpc);
    let known = found_on_disk(&["/proj/modules/vpc"]);
    let tree = document.into_tree("/proj", &known);
    assert_eq!(tree.children[0].value.render().unwrap(), "vpc{east west} (/proj/modules/vpc)");
    assert_eq!(tree.render().unwrap(), "* (/proj)\n└── vpc{east west} (/proj/modules/vpc)\n");
}

#[test]
fn two_levels_give_three_lines() {
    let mut net_module = Module::new();
    net_module.insert(String::from("subnet"), call("./subnet", Module::new()));
    let document = project_with("net", call("./net", net_module));
    let known = found_on_disk(&["/proj/net", "/proj/net/subnet"]);
    let tree = document.into_tree("/proj", &known);
    assert_eq!(depth(&tree), 3);
    assert_eq!(tree.children.len(), 1);
    assert_eq!(tree.children[0].value.name, "net");
    assert_eq!(tree.children[0].children.len(), 1);
    assert_eq!(tree.children[0].children[0].value.name, "subnet");
    assert!(tree.children[0].children[0].children.is_empty());
    let text = tree.render().unwrap();
    assert_eq!(text.lines().count(), 3);
    assert_eq!(
        text,
        "* (/proj)\n└── net (/proj/net)\n    └── subnet (/proj/net/subnet)\n"
    );
}

#[test]
fn missing_source_is_shown_as_declared() {
    let document = project_with("gone", call("./missing", Module::new()));
    let known = KnownPaths::new();
    let tree = document.into_tree("/proj", &known);
    assert_eq!(tree.children[0].value.source, b"/proj/missing".to_vec());
    assert_eq!(tree.children[0].value.render().unwrap(), "gone (/proj/missing)");
    assert_eq!(tree.render().unwrap(), "* (/proj)\n└── gone (/proj/missing)\n");
}

#[test]
fn canonical_form_stands_in_place_of_the_declared_path() {
    let mut net_module = Module::new();
    net_module.insert(String::from("subnet"), call("../subnet", Module::new()));
    let document = project_with("net", call("./link", net_module));
    let mut known = KnownPaths::new();
    known.insert(String::from("/proj/link"), b"/srv/modules/net".to_vec());
    let tree = document.into_tree("/proj", &known);
    assert_eq!(tree.children[0].value.source, b"/srv/modules/net".to_vec());
    // The module below is declared from the directory as it was declared.
    assert_eq!(tree.children[0].children[0].value.source, b"/proj/link/../subnet".to_vec());
    assert_eq!(
        tree.render().unwrap(),
        "* (/proj)\n└── net (/srv/modules/net)\n    └── subnet (/proj/link/../subnet)\n"
    );
}

#[test]
fn module_without_calls_is_a_single_line() {
    let tree = ModuleDocument::new(Module::new()).into_tree("/proj", &KnownPaths::new());
    assert!(tree.children.is_empty());
    assert_eq!(tree.render().unwrap(), "* (/proj)\n");
    let empty = ModuleDocument::new(Module { module_calls: Some(Vec::new()) });
    assert_eq!(empty.into_tree("/proj", &KnownPaths::new()).render().unwrap(), "* (/proj)\n");
}

#[test]
fn declared_dirs_are_those_that_the_tree_asks_for() {
    let mut net_module = Module::new();
    net_module.insert(String::from("subnet"), call("./subnet", Module::new()));
    net_module.insert(String::from("shared"), call("/opt/shared", Module::new()));
    let mut root = Module::new();
    root.insert(String::from("net"), call("./net", net_module));
    root.insert(String::from("vpc"), call("modules//vpc/", Module::new()));
    let document = ModuleDocument::new(root);
    assert_eq!(
        document.declared_dirs("/proj"),
        vec!["/proj/net", "/proj/net/subnet", "/opt/shared", "/proj/modules/vpc"]
    );
}
