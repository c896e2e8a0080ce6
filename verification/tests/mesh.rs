use meshcore::error::{MeshError, TreeError};
use meshcore::mesh::{
    collect_local_news, dispatch, handle_follower_message, handle_leader_message,
    handle_news_response, run_search_round, send_content, send_discovery, send_initial_topology,
    topology_update_messages, DispatchDecision, NewsEntry, RoleDecision, SearchEvent, MAX_NEWS,
};
use meshcore::message::{MessageContent, ReceiveMessage, SendMessage};
use meshcore::node::Node;
use meshcore::tree::Tree;

fn node(k: u8) -> Node {
    Node::new([k, 0, 0, 0, 0, 0])
}

fn broadcast() -> Node {
    Node::new([0xff; 6])
}

/// Builds the parsed frame a node would see after `content` was sent to it.
fn frame(
    content: MessageContent,
    final_destination: Node,
    link_destination: Node,
    link_source: Node,
) -> ReceiveMessage {
    let bytes = SendMessage::new(final_destination, content, None)
        .serialize()
        .unwrap();
    ReceiveMessage::new(bytes, link_destination, link_source, 40).unwrap()
}

#[test]
fn send_to_self_returns_root_is_destination() {
    let own = node(1);
    let tree = Tree::new(own).unwrap();
    let err = send_content(&tree, MessageContent::Application(vec![1, 2, 3]), own).unwrap_err();
    assert_eq!(err, MeshError::TreeError(TreeError::RootIsDestinationError));
}

#[test]
fn send_to_unknown_node_fails() {
    let own = node(1);
    let tree = Tree::new(own).unwrap();
    let err = send_content(&tree, MessageContent::Application(vec![1]), node(2)).unwrap_err();
    assert_eq!(err, MeshError::TreeError(TreeError::NodeNotFoundError));
}

#[test]
fn send_routes_through_next_hop() {
    let own = node(1);
    let a = node(2);
    let b = node(3);
    let mut tree = Tree::new(own).unwrap();
    tree.upsert_edge(None, a).unwrap();
    tree.upsert_edge(Some(a), b).unwrap();
    let (bytes, next) = send_content(&tree, MessageContent::Application(vec![7]), b).unwrap();
    assert_eq!(next, a, "a frame for b must leave through a");
    let rm = ReceiveMessage::new(bytes, a, own, 0).unwrap();
    assert_eq!(rm.final_destination, b);
    assert_eq!(rm.data, MessageContent::Application(vec![7]));
}

#[test]
fn discovery_goes_to_broadcast() {
    let (bytes, dst) = send_discovery().unwrap();
    assert_eq!(dst, broadcast());
    assert_eq!(bytes, vec![0x02, 0xff, 0xff, 0xff, 0xff, 0xff, 0xff, 0x00]);
}

#[test]
fn search_timeout_broadcasts_discovery() {
    let own = node(1);
    let mut tree = Tree::new(own).unwrap();
    let (decision, action) = run_search_round(&mut tree, SearchEvent::TimedOut).unwrap();
    assert_eq!(decision, RoleDecision::Timeout);
    let (bytes, dst) = action.expect("a timed-out round must broadcast");
    assert_eq!(dst, broadcast());
    assert_eq!(bytes[0], 0x02);
    assert_eq!(tree.height(), 1);
}

#[test]
fn heard_discovery_elects_leader() {
    let own = node(1);
    let mut tree = Tree::new(own).unwrap();
    let msg = frame(MessageContent::Discovery, broadcast(), own, node(2));
    let (decision, action) = run_search_round(&mut tree, SearchEvent::Control(msg)).unwrap();
    assert_eq!(decision, RoleDecision::Leader);
    assert!(action.is_none());
}

#[test]
fn upsert_edge_frame_makes_follower() {
    let own = node(1);
    let leader = node(2);
    let mut tree = Tree::new(own).unwrap();
    // "You hang under me, the sender."
    let msg = frame(MessageContent::UpsertEdge(None, Some(own)), own, own, leader);
    let (decision, _) = run_search_round(&mut tree, SearchEvent::Control(msg)).unwrap();
    assert_eq!(decision, RoleDecision::Follower);
    assert_eq!(tree.next_hop(leader).unwrap(), leader);
}

#[test]
fn other_frames_keep_searching() {
    let own = node(1);
    let mut tree = Tree::new(own).unwrap();
    let msg = frame(MessageContent::FinSendNew, own, own, node(2));
    let (decision, action) = run_search_round(&mut tree, SearchEvent::Control(msg)).unwrap();
    assert_eq!(decision, RoleDecision::Timeout);
    assert!(action.is_none());
}

#[test]
fn leader_collects_discoveries_bounded() {
    let mut news: Vec<(Node, i32)> = Vec::new();
    for k in 0..(MAX_NEWS as u8 + 4) {
        let msg = frame(MessageContent::Discovery, broadcast(), node(1), node(10 + k));
        handle_leader_message(&mut news, &msg);
    }
    assert_eq!(news.len(), MAX_NEWS, "overflowing reports must be dropped");
    assert_eq!(news[0].0, node(10));
    let non_discovery = frame(MessageContent::FinSendNew, node(1), node(1), node(9));
    let before = news.len();
    handle_leader_message(&mut news, &non_discovery);
    assert_eq!(news.len(), before);
}

#[test]
fn local_news_seed_marks_heard_directly() {
    let mut all_news: Vec<NewsEntry> = Vec::new();
    let news = vec![(node(5), -40), (node(6), -60), (node(5), -90)];
    collect_local_news(&news, &mut all_news);
    assert_eq!(all_news.len(), 2);
    assert_eq!(all_news[0].node, node(5));
    assert_eq!(all_news[0].parent, None);
    assert_eq!(all_news[0].rssi, -90, "a later report replaces the row");
    assert_eq!(all_news[1].node, node(6));
}

#[test]
fn news_response_keeps_highest_rssi() {
    let mut all_news: Vec<NewsEntry> = Vec::new();
    let reporter_a = node(2);
    let reporter_b = node(3);
    let newcomer = node(9);
    let r1 = frame(
        MessageContent::SendNew(newcomer, -80),
        node(1),
        node(1),
        reporter_a,
    );
    assert!(handle_news_response(&mut all_news, reporter_a, &r1));
    let r2 = frame(
        MessageContent::SendNew(newcomer, -40),
        node(1),
        node(1),
        reporter_b,
    );
    assert!(handle_news_response(&mut all_news, reporter_b, &r2));
    let r3 = frame(
        MessageContent::SendNew(newcomer, -70),
        node(1),
        node(1),
        reporter_a,
    );
    assert!(handle_news_response(&mut all_news, reporter_a, &r3));
    assert_eq!(all_news.len(), 1);
    assert_eq!(all_news[0].parent, Some(reporter_b), "-40 beats -70 and -80");
    assert_eq!(all_news[0].rssi, -40);
    let fin = frame(MessageContent::FinSendNew, node(1), node(1), reporter_a);
    assert!(!handle_news_response(&mut all_news, reporter_a, &fin));
}

#[test]
fn topology_updates_name_every_known_node() {
    let own = node(1);
    let a = node(2);
    let b = node(3);
    let mut tree = Tree::new(own).unwrap();
    tree.upsert_edge(None, a).unwrap();
    tree.upsert_edge(Some(a), b).unwrap();
    let edges = tree.edge_list();
    let msgs = topology_update_messages(&edges, node(9), &Some(a));
    assert_eq!(msgs.len(), 2);
    assert_eq!(msgs[0], (MessageContent::UpsertEdge(Some(node(9)), Some(a)), a));
    assert_eq!(msgs[1], (MessageContent::UpsertEdge(Some(node(9)), Some(a)), b));
}

#[test]
fn initial_topology_replays_every_edge() {
    let own = node(1);
    let a = node(2);
    let b = node(3);
    let newcomer = node(9);
    let mut tree = Tree::new(own).unwrap();
    tree.upsert_edge(None, a).unwrap();
    tree.upsert_edge(Some(a), b).unwrap();
    let edges = tree.edge_list();
    let msgs = send_initial_topology(&edges, newcomer);
    assert_eq!(msgs.len(), 3);
    assert_eq!(
        msgs[0],
        (MessageContent::UpsertEdge(None, Some(newcomer)), newcomer)
    );
    assert_eq!(
        msgs[1],
        (MessageContent::UpsertEdge(Some(a), None), newcomer)
    );
    assert_eq!(
        msgs[2],
        (MessageContent::UpsertEdge(Some(b), Some(a)), newcomer)
    );
}

#[test]
fn follower_answers_request_news() {
    let own = node(1);
    let leader = node(2);
    let mut tree = Tree::new(own).unwrap();
    let mut news: Vec<(Node, i32)> = vec![(node(7), -50), (node(8), -60)];
    let req = frame(MessageContent::RequestNews, own, own, leader);
    let out = handle_follower_message(&mut news, &mut tree, &req);
    assert_eq!(out.len(), 3);
    assert_eq!(out[0], (MessageContent::SendNew(node(7), -50), leader));
    assert_eq!(out[1], (MessageContent::SendNew(node(8), -60), leader));
    assert_eq!(out[2], (MessageContent::FinSendNew, leader));
    assert_eq!(news.len(), 2, "answering must not clear the news");
}

#[test]
fn follower_folds_upsert_edge_into_tree() {
    let own = node(1);
    let sender = node(2);
    let mut tree = Tree::new(own).unwrap();
    let mut news: Vec<(Node, i32)> = Vec::new();
    // "Node 9 hangs under node 2": parent named explicitly, child named.
    let msg = frame(
        MessageContent::UpsertEdge(Some(node(9)), Some(sender)),
        own,
        own,
        sender,
    );
    tree.upsert_edge(None, sender).unwrap();
    let out = handle_follower_message(&mut news, &mut tree, &msg);
    assert!(out.is_empty());
    assert_eq!(tree.next_hop(node(9)).unwrap(), sender);
}

#[test]
fn dispatch_forwards_foreign_frames() {
    let own = node(1);
    let a = node(2);
    let b = node(3);
    let origin = node(4);
    let mut tree = Tree::new(own).unwrap();
    tree.upsert_edge(None, a).unwrap();
    tree.upsert_edge(Some(a), b).unwrap();
    let msg = frame(MessageContent::Application(vec![5]), b, own, origin);
    match dispatch(&tree, msg) {
        DispatchDecision::Forward(bytes, next) => {
            assert_eq!(next, a);
            let rm = ReceiveMessage::new(bytes, a, own, 0).unwrap();
            assert_eq!(rm.final_source, origin, "forwarding must carry the origin");
            assert_eq!(rm.final_destination, b);
        }
        other => panic!("expected a forward, got {other:?}"),
    }
}

#[test]
fn dispatch_drops_unroutable_frames() {
    let own = node(1);
    let msg = frame(MessageContent::Application(vec![5]), node(9), own, node(4));
    match dispatch(&Tree::new(own).unwrap(), msg) {
        DispatchDecision::Discard(MeshError::TreeError(TreeError::NodeNotFoundError)) => {}
        other => panic!("expected a discard, got {other:?}"),
    }
}

#[test]
fn dispatch_hands_control_frames_to_organize() {
    let own = node(1);
    let tree = Tree::new(own).unwrap();
    let msg = frame(MessageContent::RequestNews, own, own, node(2));
    match dispatch(&tree, msg) {
        DispatchDecision::Organize(m) => assert_eq!(m.data, MessageContent::RequestNews),
        other => panic!("expected organize, got {other:?}"),
    }
    // A broadcast discovery is never forwarded, even though it is not ours.
    let disc = frame(MessageContent::Discovery, broadcast(), own, node(2));
    match dispatch(&tree, disc) {
        DispatchDecision::Organize(m) => assert_eq!(m.data, MessageContent::Discovery),
        other => panic!("expected organize, got {other:?}"),
    }
}

#[test]
fn dispatch_delivers_application_payloads() {
    let own = node(1);
    let tree = Tree::new(own).unwrap();
    let msg = frame(MessageContent::Application(vec![42]), own, own, node(2));
    match dispatch(&tree, msg) {
        DispatchDecision::Deliver(data, src) => {
            assert_eq!(data, vec![42]);
            assert_eq!(src, node(2));
        }
        other => panic!("expected deliver, got {other:?}"),
    }
}

#[test]
fn error_messages_nest() {
    let e = MeshError::TreeError(TreeError::RootIsDestinationError);
    assert_eq!(
        e.describe(),
        "Failed to get next hop:\nThe root of this tree is the destination"
    );
    let a = meshcore::error::ArenaError::InvalidIndexError(200);
    assert_eq!(a.describe(), "Index is not used: 200");
    let t = meshcore::error::MessageTypeError::InvalidMessageType(66);
    assert_eq!(t.describe(), "Failed to parse message type from: 66");
}
