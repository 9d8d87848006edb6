use forest::error::Error;
use forest::flat::{self, RootNode};
use forest::tree::{
    attach_children, nodes_get, nodes_post, parent_ids, trees_get, NodeChild, NodePostQuery, Tree, TreeNode,
    TreeNodeQuery,
};

fn q(id: i32, text: &str) -> TreeNodeQuery {
    TreeNodeQuery { id, text: text.to_string() }
}

fn child(id: i32, text: &str, parent: Option<i32>) -> NodeChild {
    NodeChild { id, text: text.to_string(), parent }
}

fn ids_and_texts(nodes: &[TreeNode]) -> Vec<(i32, String)> {
    nodes.iter().map(|n| (n.id, n.text.clone())).collect()
}

#[test]
fn parent_ids_keeps_order() {
    assert_eq!(parent_ids(&vec![q(4, "a"), q(2, "b"), q(9, "c")]), vec![4, 2, 9]);
    assert_eq!(parent_ids(&vec![]), Vec::<i32>::new());
}

#[test]
fn children_go_below_their_parent_in_order() {
    let roots = attach_children(
        vec![q(1, "one"), q(2, "two")],
        vec![
            child(10, "ten", Some(1)),
            child(11, "eleven", Some(2)),
            child(12, "twelve", Some(1)),
            child(13, "stray", Some(99)),
            child(14, "orphan", None),
        ],
    );
    assert_eq!(roots.len(), 2);
    assert_eq!((roots[0].id, roots[0].text.as_str()), (1, "one"));
    assert_eq!((roots[1].id, roots[1].text.as_str()), (2, "two"));
    let first = roots[0].children.as_ref().unwrap();
    let second = roots[1].children.as_ref().unwrap();
    assert_eq!(ids_and_texts(first), vec![(10, "ten".to_string()), (12, "twelve".to_string())]);
    assert_eq!(ids_and_texts(second), vec![(11, "eleven".to_string())]);
    assert!(first.iter().chain(second.iter()).all(|c| c.children.is_none()));
}

#[test]
fn a_child_goes_only_below_the_first_parent_with_its_id() {
    let roots = attach_children(vec![q(1, "a"), q(1, "b")], vec![child(5, "x", Some(1))]);
    assert_eq!(roots[0].children.as_ref().unwrap().len(), 1);
    assert_eq!(roots[1].children.as_ref().unwrap().len(), 0);
}

#[test]
fn every_claimed_child_is_listed_once() {
    let kids = vec![
        child(10, "a", Some(1)),
        child(11, "b", Some(3)),
        child(12, "c", Some(2)),
        child(13, "d", Some(3)),
        child(14, "e", None),
    ];
    let roots = attach_children(vec![q(1, "x"), q(2, "y"), q(1, "z")], kids);
    let listed: usize = roots.iter().map(|r| r.children.as_ref().unwrap().len()).sum();
    assert_eq!(listed, 2);
}

#[test]
fn no_parents_lists_nothing() {
    assert!(attach_children(vec![], vec![child(1, "a", Some(1))]).is_empty());
}

#[test]
fn trees_get_without_tree_is_not_found() {
    match trees_get(vec![], vec![q(1, "a")], vec![]) {
        Err(Error::NotFound(m)) => assert_eq!(m, "No such tree"),
        other => panic!("unexpected {:?}", other),
    }
}

#[test]
fn trees_get_with_two_trees_is_internal() {
    let trees = vec![Tree { id: 1, name: "a".to_string() }, Tree { id: 1, name: "b".to_string() }];
    match trees_get(trees, vec![], vec![]) {
        Err(Error::Internal(m)) => assert_eq!(m, "More than one tree returned for single ID"),
        other => panic!("unexpected {:?}", other),
    }
}

#[test]
fn trees_get_answers_the_tree_with_roots_and_children() {
    let trees = vec![Tree { id: 7, name: "oak".to_string() }];
    let detail = trees_get(trees, vec![q(1, "root")], vec![child(2, "leaf", Some(1))]).unwrap();
    assert_eq!(detail.id, 7);
    assert_eq!(detail.name, "oak");
    assert_eq!(detail.roots.len(), 1);
    let kids = detail.roots[0].children.as_ref().unwrap();
    assert_eq!(ids_and_texts(kids), vec![(2, "leaf".to_string())]);
}

#[test]
fn nodes_get_with_parent() {
    let node = child(5, "five", Some(3));
    let r = nodes_get(node, vec![q(6, "six")], vec![child(8, "eight", Some(6))], Some("three".to_string()));
    assert_eq!(r.id, 5);
    assert_eq!(r.text, "five");
    let parent = r.parent.unwrap();
    assert_eq!((parent.id, parent.text.as_str()), (3, "three"));
    assert_eq!(r.children.len(), 1);
    assert_eq!(ids_and_texts(r.children[0].children.as_ref().unwrap()), vec![(8, "eight".to_string())]);
}

#[test]
fn nodes_get_of_a_root_has_no_parent() {
    let r = nodes_get(child(1, "root", None), vec![], vec![], None);
    assert!(r.parent.is_none());
    assert!(r.children.is_empty());
}

#[test]
fn nodes_post_builds_the_row() {
    let row = nodes_post(NodePostQuery { parent: 4, text: "hello".to_string() }, 9);
    assert_eq!((row.parent, row.tree, row.text.as_str()), (4, 9, "hello"));
}

#[test]
fn flat_trees_get_cases() {
    match flat::trees_get(vec![], vec![]) {
        Err(Error::NotFound(m)) => assert_eq!(m, "No such tree"),
        other => panic!("unexpected {:?}", other),
    }
    let two = vec![Tree { id: 1, name: "a".to_string() }, Tree { id: 2, name: "b".to_string() }];
    match flat::trees_get(two, vec![]) {
        Err(Error::Internal(m)) => assert_eq!(m, "More than one tree returned for single ID"),
        other => panic!("unexpected {:?}", other),
    }
    let one = vec![Tree { id: 3, name: "elm".to_string() }];
    let d = flat::trees_get(one, vec![RootNode { id: 1, text: "r".to_string() }]).unwrap();
    assert_eq!((d.id, d.name.as_str(), d.roots.len()), (3, "elm", 1));
    assert_eq!((d.roots[0].id, d.roots[0].text.as_str()), (1, "r"));
}

#[test]
fn a_root_lists_every_child_naming_it() {
    let kids = vec![child(3, "c", Some(2)), child(4, "d", Some(1)), child(5, "e", Some(2))];
    let roots = attach_children(vec![q(1, "a"), q(2, "b")], kids);
    let under_two: Vec<i32> = roots[1].children.as_ref().unwrap().iter().map(|c| c.id).collect();
    assert_eq!(under_two, vec![3, 5]);
}
