use dbexport::commands::schema::{DBItem, DBItems, InsertBehavior};
use id_tree::{InsertBehavior as OracleInsert, Node, NodeId, Tree};
use std::collections::HashMap;

/// A tree given twice: in the arena of the library and as a tree of node
/// identifiers. `parents[i]` is the parent of node `i + 1`.
fn both(names: &[&str], parents: &[usize]) -> (DBItems, Tree<String>, Vec<NodeId>) {
    let mut arena = DBItems::new();
    let mut oracle: Tree<String> = Tree::new();
    let mut ids: Vec<NodeId> = vec![];
    arena.insert(DBItem::new(names[0].to_string()), InsertBehavior::AsRoot).unwrap();
    ids.push(oracle.insert(Node::new(names[0].to_string()), OracleInsert::AsRoot).unwrap());
    for (i, parent) in parents.iter().enumerate() {
        let name = names[i + 1].to_string();
        arena.insert(DBItem::new(name.clone()), InsertBehavior::UnderNode(*parent)).unwrap();
        let id = oracle.insert(Node::new(name), OracleInsert::UnderNode(&ids[*parent])).unwrap();
        ids.push(id);
    }
    (arena, oracle, ids)
}

/// The lines of a tree of node identifiers: pre-order, the root left out.
fn oracle_lines(tree: &Tree<String>) -> Vec<String> {
    let mut lines = vec![];
    if let Some(root) = tree.root_node_id() {
        for id in tree.traverse_pre_order_ids(root).unwrap() {
            let node = tree.get(&id).unwrap();
            if node.parent().is_some() {
                let level = tree.ancestors(&id).unwrap().count() - 1;
                lines.push(format!("{}{}", " ".repeat(level * 4), node.data()));
            }
        }
    }
    lines
}

/// The subtree of the flagged nodes and their ancestors, built on the
/// tree of node identifiers: post-order, ancestors first.
fn oracle_subtree(tree: &Tree<String>, ids: &[NodeId], flags: &[bool]) -> Tree<String> {
    let mut found: Tree<String> = Tree::new();
    let Some(root) = tree.root_node_id() else {
        return found;
    };
    let mut copies: HashMap<NodeId, NodeId> = HashMap::new();
    for id in tree.traverse_post_order_ids(root).unwrap() {
        let index = ids.iter().position(|known| *known == id).unwrap();
        if !flags[index] {
            continue;
        }
        let mut path: Vec<NodeId> = tree.ancestor_ids(&id).unwrap().cloned().collect();
        path.reverse();
        path.push(id);
        for step in path {
            if copies.contains_key(&step) {
                continue;
            }
            let node = tree.get(&step).unwrap();
            let copy = match node.parent() {
                None => found.insert(Node::new(node.data().clone()), OracleInsert::AsRoot),
                Some(parent) => found.insert(
                    Node::new(node.data().clone()),
                    OracleInsert::UnderNode(copies.get(parent).unwrap()),
                ),
            }
            .unwrap();
            copies.insert(step, copy);
        }
    }
    found
}

fn shapes() -> Vec<(Vec<&'static str>, Vec<usize>)> {
    vec![
        (vec![""], vec![]),
        (vec!["", "a"], vec![0]),
        (vec!["", "db1", "orders", "id", "amount"], vec![0, 1, 2, 2]),
        (vec!["", "users", "orders", "id", "id", "name", "amount"], vec![0, 0, 1, 2, 1, 2]),
        (vec!["", "a", "b", "c", "d", "e", "f", "g"], vec![0, 0, 0, 3, 1, 5, 1]),
        (vec!["", "a", "b", "c", "d", "e"], vec![0, 1, 2, 3, 4]),
    ]
}

#[test]
fn print_agrees_with_a_tree_of_node_identifiers() {
    for (names, parents) in shapes() {
        let (arena, oracle, _) = both(&names, &parents);
        assert_eq!(arena.print(), oracle_lines(&oracle));
    }
}

#[test]
fn subtree_agrees_with_a_tree_of_node_identifiers() {
    for (names, parents) in shapes() {
        let (arena, oracle, ids) = both(&names, &parents);
        let nodes = names.len();
        for mask in 0u32..(1 << nodes) {
            let flags: Vec<bool> = (0..nodes).map(|i| mask & (1 << i) != 0).collect();
            let found = arena.subtree_of_matches(&flags);
            let expected = oracle_subtree(&oracle, &ids, &flags);
            assert_eq!(found.print(), oracle_lines(&expected));
            let root_name = expected.root_node_id().map(|id| expected.get(id).unwrap().data().clone());
            assert_eq!(found.get(0).map(|item| item.name.clone()), root_name);
            assert_eq!(found.subtree_of_matches(&vec![true; found.len()]), found);
        }
    }
}
