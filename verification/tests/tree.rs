use meshcore::error::TreeError;
use meshcore::node::Node;
use meshcore::tree::{Tree, MAX_CHILD_LEAFS, MAX_LEAFS};

fn node(k: u8) -> Node {
    Node::new([k, 0, 0, 0, 0, 0])
}

#[test]
fn fresh_tree_has_height_one_and_no_hops() {
    let own = node(1);
    let tree = Tree::new(own).unwrap();
    assert_eq!(tree.height(), 1);
    let err = tree.next_hop(node(2)).unwrap_err();
    assert_eq!(err, TreeError::NodeNotFoundError);
    let err = tree.next_hop(node(3)).unwrap_err();
    assert_eq!(err, TreeError::NodeNotFoundError);
}

#[test]
fn next_hop_to_self_is_root_is_destination() {
    let own = node(1);
    let tree = Tree::new(own).unwrap();
    assert_eq!(tree.next_hop(own).unwrap_err(), TreeError::RootIsDestinationError);
}

#[test]
fn direct_child_is_its_own_next_hop() {
    let own = node(1);
    let x = node(2);
    let mut tree = Tree::new(own).unwrap();
    tree.upsert_edge(None, x).unwrap();
    assert_eq!(tree.next_hop(x).unwrap(), x);
    assert_eq!(tree.height(), 2);
}

#[test]
fn chain_of_three_routes_through_first_hop() {
    let own = node(1);
    let a = node(2);
    let b = node(3);
    let c = node(4);
    let mut tree = Tree::new(own).unwrap();
    tree.upsert_edge(None, a).unwrap();
    tree.upsert_edge(Some(a), b).unwrap();
    tree.upsert_edge(Some(b), c).unwrap();
    assert_eq!(tree.height(), 4);
    assert_eq!(tree.next_hop(c).unwrap(), a);
    assert_eq!(tree.next_hop(b).unwrap(), a);
    assert_eq!(tree.next_hop(a).unwrap(), a);
}

#[test]
fn reparent_moves_node_under_root() {
    let own = node(1);
    let a = node(2);
    let b = node(3);
    let mut tree = Tree::new(own).unwrap();
    tree.upsert_edge(None, a).unwrap();
    tree.upsert_edge(Some(a), b).unwrap();
    assert_eq!(tree.height(), 3);
    tree.upsert_edge(None, b).unwrap();
    assert_eq!(tree.next_hop(b).unwrap(), b);
    assert_eq!(tree.height(), 2);
}

#[test]
fn reparent_keeps_subtree_intact() {
    let own = node(1);
    let a = node(2);
    let b = node(3);
    let c = node(4);
    let mut tree = Tree::new(own).unwrap();
    tree.upsert_edge(None, a).unwrap();
    tree.upsert_edge(Some(a), b).unwrap();
    tree.upsert_edge(Some(b), c).unwrap();
    tree.upsert_edge(None, b).unwrap();
    assert_eq!(tree.height(), 3, "c must still hang under b");
    assert_eq!(tree.next_hop(c).unwrap(), b);
    assert_eq!(tree.next_hop(b).unwrap(), b);
    assert_eq!(tree.next_hop(a).unwrap(), a);
}

#[test]
fn unknown_parent_is_node_not_found() {
    let own = node(1);
    let mut tree = Tree::new(own).unwrap();
    let err = tree.upsert_edge(Some(node(9)), node(2)).unwrap_err();
    assert_eq!(err, TreeError::NodeNotFoundError);
    assert_eq!(tree.next_hop(node(2)).unwrap_err(), TreeError::NodeNotFoundError);
}

#[test]
fn allocating_beyond_capacity_is_leaf_allocation() {
    let own = node(255);
    let mut tree = Tree::new(own).unwrap();
    let mut prev: Option<Node> = None;
    for k in 1..(MAX_LEAFS as u8) {
        let n = node(k);
        tree.upsert_edge(prev, n).unwrap();
        prev = Some(n);
    }
    let err = tree.upsert_edge(prev, node(MAX_LEAFS as u8)).unwrap_err();
    assert_eq!(err, TreeError::LeafAllocationError);
}

#[test]
fn detached_subtree_slots_stay_lost() {
    let own = node(255);
    let mut tree = Tree::new(own).unwrap();
    let a = node(1);
    let b = node(2);
    tree.upsert_edge(None, a).unwrap();
    tree.upsert_edge(Some(a), b).unwrap();
    // Anchoring a under its own descendant fails and detaches both.
    let err = tree.upsert_edge(Some(b), a).unwrap_err();
    assert_eq!(err, TreeError::NodeNotFoundError);
    assert_eq!(tree.next_hop(a).unwrap_err(), TreeError::NodeNotFoundError);
    assert_eq!(tree.next_hop(b).unwrap_err(), TreeError::NodeNotFoundError);
    assert_eq!(tree.height(), 1);
    // The two slots stay lost: only 29 fresh leaves fit besides the root.
    let mut prev: Option<Node> = None;
    for k in 3..(MAX_LEAFS as u8) {
        let n = node(k);
        tree.upsert_edge(prev, n).unwrap();
        prev = Some(n);
    }
    let err = tree.upsert_edge(prev, node(MAX_LEAFS as u8)).unwrap_err();
    assert_eq!(err, TreeError::LeafAllocationError);
}

#[test]
fn full_child_list_is_node_not_found() {
    let own = node(255);
    let mut tree = Tree::new(own).unwrap();
    for k in 1..=(MAX_CHILD_LEAFS as u8) {
        tree.upsert_edge(None, node(k)).unwrap();
    }
    let err = tree.upsert_edge(None, node(100)).unwrap_err();
    assert_eq!(err, TreeError::NodeNotFoundError);
}

#[test]
fn checked_upsert_rejects_root_and_broadcast() {
    let own = node(1);
    let mut tree = Tree::new(own).unwrap();
    assert_eq!(
        tree.upsert_edge_checked(None, own).unwrap_err(),
        TreeError::RootIsDestinationError
    );
    assert_eq!(
        tree.upsert_edge_checked(None, Node::new([0xff; 6])).unwrap_err(),
        TreeError::NodeNotFoundError
    );
    assert_eq!(tree.height(), 1);
}

#[test]
fn edge_list_snapshots_nodes_and_parents() {
    let own = node(1);
    let a = node(2);
    let b = node(3);
    let mut tree = Tree::new(own).unwrap();
    tree.upsert_edge(None, a).unwrap();
    tree.upsert_edge(Some(a), b).unwrap();
    let edges = tree.edge_list();
    assert_eq!(edges.len(), 2);
    assert_eq!(edges[0].node, a);
    assert_eq!(edges[0].parent, None);
    assert_eq!(edges[1].node, b);
    assert_eq!(edges[1].parent, Some(a));
    assert_eq!(tree.own_node(), own);
}

#[test]
fn render_draws_box_prefixes() {
    let own = node(1);
    let a = Node::new([2, 0, 0, 0, 0, 0]);
    let b = Node::new([3, 0, 0, 0, 0, 0]);
    let c = Node::new([4, 0, 0, 0, 0, 0]);
    let mut tree = Tree::new(own).unwrap();
    tree.upsert_edge(None, a).unwrap();
    tree.upsert_edge(Some(a), b).unwrap();
    tree.upsert_edge(None, c).unwrap();
    let expected = "self\n\
                    ├──02:00:00:00:00:00\n\
                    │  └──03:00:00:00:00:00\n\
                    └──04:00:00:00:00:00\n";
    assert_eq!(tree.render(), expected);
}

#[test]
fn render_of_fresh_tree_is_just_the_root() {
    let tree = Tree::new(node(1)).unwrap();
    assert_eq!(tree.render(), "self\n");
}

#[test]
fn node_display_is_colon_separated_hex() {
    let n = Node::new([0x01, 0x02, 0x03, 0x0a, 0xbb, 0xff]);
    assert_eq!(n.display(), "01:02:03:0a:bb:ff");
}
