use nandu::parse::Id;
use nandu::tree::Node;

fn var(name: &str) -> Node {
    Node::Var { id: name.to_owned() }
}

fn gate(id: Id, a: Node, b: Node) -> Node {
    Node::Func { id, args: vec![a, b] }
}

#[test]
fn and_to_nand_works() {
    let mut and_tree = Node::Func {
        id: Id::And,
        args: vec![Node::Var { id: "a".to_owned() }, Node::Var { id: "b".to_owned() }],
    };
    let expected_nand_tree = Node::Func {
        id: Id::Nand,
        args: vec![
            Node::Func {
                id: Id::Nand,
                args: vec![Node::Var { id: "a".to_owned() }, Node::Var { id: "b".to_owned() }],
            },
            Node::Func {
                id: Id::Nand,
                args: vec![Node::Var { id: "a".to_owned() }, Node::Var { id: "b".to_owned() }],
            },
        ],
    };
    and_tree.to_nand();
    assert_eq!(and_tree, expected_nand_tree);
}

#[test]
fn or_to_nand_works() {
    let mut or_tree = Node::Func {
        id: Id::Or,
        args: vec![Node::Var { id: "a".to_owned() }, Node::Var { id: "b".to_owned() }],
    };
    let expected_nand_tree = Node::Func {
        id: Id::Nand,
        args: vec![
            Node::Func {
                id: Id::Nand,
                args: vec![Node::Var { id: "a".to_owned() }, Node::Var { id: "a".to_owned() }],
            },
            Node::Func {
                id: Id::Nand,
                args: vec![Node::Var { id: "b".to_owned() }, Node::Var { id: "b".to_owned() }],
            },
        ],
    };
    or_tree.to_nand();
    assert_eq!(or_tree, expected_nand_tree);
}

#[test]
fn generic_tree_to_nand_works() {
    let mut tree = gate(Id::And, var("a"), gate(Id::Or, var("b"), var("c")));
    let inner = gate(
        Id::Nand,
        gate(Id::Nand, var("b"), var("b")),
        gate(Id::Nand, var("c"), var("c")),
    );
    let expected_nand_tree = gate(
        Id::Nand,
        gate(Id::Nand, var("a"), inner.clone()),
        gate(Id::Nand, var("a"), inner),
    );
    tree.to_nand();
    assert_eq!(tree, expected_nand_tree);
}

#[test]
fn nand_tree_is_fixed_point() {
    let mut tree = gate(Id::Nand, var("a"), var("b"));
    tree.to_nand();
    assert_eq!(tree, gate(Id::Nand, var("a"), var("b")));
}

#[test]
fn var_is_unchanged_by_to_nand() {
    let mut leaf = var("x_y");
    leaf.to_nand();
    assert_eq!(leaf, var("x_y"));
}

#[test]
fn to_nand_twice_equals_once() {
    let mut once = gate(Id::Or, gate(Id::And, var("a"), var("b")), var("c"));
    once.to_nand();
    let mut twice = once.clone();
    twice.to_nand();
    assert_eq!(twice, once);
}

#[test]
fn render_canonical_text() {
    assert_eq!(var("abc").to_string(), "abc");
    assert_eq!(gate(Id::And, var("a"), var("b")).to_string(), "And(a, b)");
    assert_eq!(
        gate(Id::Or, gate(Id::Nand, var("c"), var("d")), var("b")).to_string(),
        "Or(Nand(c, d), b)"
    );
    let wide = Node::Func {
        id: Id::Nand,
        args: vec![var("a"), var("b"), var("c")],
    };
    assert_eq!(wide.to_string(), "Nand(a, b, c)");
}

#[test]
fn clone_copies_the_whole_tree() {
    let tree = gate(Id::And, var("a"), gate(Id::Or, var("b"), var("c")));
    assert_eq!(tree.clone(), tree);
}
