use module_tree::node::{RenderError, TreeNode};
use module_tree::schema::{Module, ModuleCall, ModuleDocument};
use module_tree::text::{push_decimal, push_spaced};
use module_tree::tree::OrderedTree;

fn names(module: &Module) -> Vec<&str> {
    match &module.module_calls {
        Some(calls) => calls.iter().map(|(name, _)| name.as_str()).collect(),
        None => Vec::new(),
    }
}

#[test]
fn new_module_has_no_mapping() {
    assert_eq!(Module::new().module_calls, None);
    assert_eq!(ModuleDocument::new(Module::new()).root_module, Module::new());
}

#[test]
fn new_call_is_neither_counted_nor_keyed() {
    let call = ModuleCall::new(String::from("./vpc"), Module::new());
    assert_eq!(call.source, "./vpc");
    assert_eq!(call.module, Module::new());
    assert_eq!(call.count, None);
    assert_eq!(call.for_each, None);
}

#[test]
fn insert_keeps_the_order_of_new_names() {
    let mut module = Module::new();
    module.insert(String::from("b"), ModuleCall::new(String::from("./b"), Module::new()));
    module.insert(String::from("a"), ModuleCall::new(String::from("./a"), Module::new()));
    module.insert(String::from("c"), ModuleCall::new(String::from("./c"), Module::new()));
    assert_eq!(names(&module), vec!["b", "a", "c"]);
}

#[test]
fn insert_replaces_the_call_of_a_name_in_its_place() {
    let mut module = Module::new();
    module.insert(String::from("b"), ModuleCall::new(String::from("./b"), Module::new()));
    module.insert(String::from("a"), ModuleCall::new(String::from("./a"), Module::new()));
    module.insert(String::from("b"), ModuleCall::new(String::from("./other"), Module::new()));
    assert_eq!(names(&module), vec!["b", "a"]);
    let calls = module.module_calls.unwrap();
    assert_eq!(calls[0].1.source, "./other");
    assert_eq!(calls[1].1.source, "./a");
}

#[test]
fn insert_key_keeps_each_key_once() {
    let mut call = ModuleCall::new(String::from("./vpc"), Module::new());
    call.insert_key(String::from("east"));
    call.insert_key(String::from("west"));
    call.insert_key(String::from("east"));
    assert_eq!(call.for_each, Some(vec![String::from("east"), String::from("west")]));
    assert_eq!(call.source, "./vpc");
    assert_eq!(call.count, None);
}

#[test]
fn decimal_has_no_leading_zeros() {
    for (n, expected) in [
        (0usize, "0"),
        (7, "7"),
        (9, "9"),
        (10, "10"),
        (12, "12"),
        (105, "105"),
        (1234567890, "1234567890"),
    ] {
        let mut text = String::from("n=");
        push_decimal(&mut text, n);
        assert_eq!(text, format!("n={expected}"));
    }
    let mut text = String::new();
    push_decimal(&mut text, usize::MAX);
    assert_eq!(text, format!("{}", usize::MAX));
}

#[test]
fn spaced_words_have_one_space_between() {
    let mut text = String::from("<");
    push_spaced(&mut text, &vec![]);
    assert_eq!(text, "<");
    push_spaced(&mut text, &vec![String::from("a")]);
    assert_eq!(text, "<a");
    push_spaced(&mut text, &vec![String::from("b"), String::from(""), String::from("c d")]);
    assert_eq!(text, "<ab  c d");
}

#[test]
fn path_that_is_not_text_cannot_be_rendered() {
    let node = TreeNode {
        name: String::from("vpc"),
        count: Some(1),
        for_each: None,
        source: vec![0x2f, 0x66, 0x6f, 0x80],
    };
    assert_eq!(node.render(), Err(RenderError));
    let tree = OrderedTree::new(TreeNode {
        name: String::from("*"),
        count: None,
        for_each: None,
        source: b"/proj".to_vec(),
    })
    .with_leaves(vec![OrderedTree::new(node)]);
    assert_eq!(tree.labels(), Err(RenderError));
    assert_eq!(tree.render(), Err(RenderError));
}

#[test]
fn path_of_several_bytes_a_character_is_text() {
    let node = TreeNode {
        name: String::from("données"),
        count: None,
        for_each: Some(vec![String::from("é"), String::from("ü")]),
        source: "/proj/données".as_bytes().to_vec(),
    };
    assert_eq!(node.render().unwrap(), "données{é ü} (/proj/données)");
}

#[test]
fn drawing_keeps_the_order_of_the_children() {
    let tree = OrderedTree::new(String::from("root")).with_leaves(vec![
        OrderedTree::new(String::from("first")).with_leaves(vec![
            OrderedTree::new(String::from("inner one")),
            OrderedTree::new(String::from("inner two")),
        ]),
        OrderedTree::new(String::from("second")),
        OrderedTree::new(String::from("third"))
            .with_leaves(vec![OrderedTree::new(String::from("last"))]),
    ]);
    assert_eq!(
        tree.draw(),
        [
            "root\n",
            "├── first\n",
            "│   ├── inner one\n",
            "│   └── inner two\n",
            "├── second\n",
            "└── third\n",
            "    └── last\n",
        ]
        .concat()
    );
    assert_eq!(OrderedTree::new(String::from("alone")).draw(), "alone\n");
}

#[test]
fn with_leaves_replaces_the_children() {
    let tree = OrderedTree::new(1u8).with_leaves(vec![OrderedTree::new(2u8)]);
    let tree = tree.with_leaves(vec![OrderedTree::new(3u8), OrderedTree::new(4u8)]);
    assert_eq!(tree.value, 1);
    assert_eq!(tree.children.len(), 2);
    assert_eq!(tree.children[0].value, 3);
    assert_eq!(tree.children[1].value, 4);
}
