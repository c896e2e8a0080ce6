//! Deterministic multi-node walkthroughs of the protocol: the timer and
//! link events that the device loops would produce are injected by hand,
//! and every decision runs through the library.

use std::collections::VecDeque;

use meshcore::mesh::{
    collect_local_news, dispatch, handle_follower_message, handle_leader_message,
    handle_news_response, run_search_round, send_content, send_initial_topology,
    topology_update_messages, DispatchDecision, NewsEntry, RoleDecision, SearchEvent,
};
use meshcore::message::{MessageContent, MessageData, ReceiveMessage};
use meshcore::node::Node;
use meshcore::tree::Tree;

struct SimNode {
    id: Node,
    started: bool,
    tree: Tree,
    role: RoleDecision,
    news: Vec<(Node, i32)>,
    organize: VecDeque<ReceiveMessage>,
    recv: Vec<(MessageData, Node)>,
    discoveries_sent: usize,
}

struct Sim {
    nodes: Vec<SimNode>,
    links: Vec<(usize, usize)>,
}

fn sim_node(k: u8) -> Node {
    Node::new([k, 0, 0, 0, 0, 0])
}

fn sim_new(ids: &[Node], links: &[(usize, usize)]) -> Sim {
    Sim {
        nodes: ids
            .iter()
            .map(|id| SimNode {
                id: *id,
                started: true,
                tree: Tree::new(*id).unwrap(),
                role: RoleDecision::Timeout,
                news: Vec::new(),
                organize: VecDeque::new(),
                recv: Vec::new(),
                discoveries_sent: 0,
            })
            .collect(),
        links: links.to_vec(),
    }
}

fn connected(sim: &Sim, a: usize, b: usize) -> bool {
    sim.links.iter().any(|&(x, y)| (x, y) == (a, b) || (x, y) == (b, a))
}

/// One frame arrives at node `idx` over the link.
fn receive_at(sim: &mut Sim, idx: usize, bytes: MessageData, src: Node, dst: Node) {
    if !sim.nodes[idx].started {
        return;
    }
    let rm = match ReceiveMessage::new(bytes, dst, src, 40) {
        Ok(rm) => rm,
        Err(_) => return,
    };
    match dispatch(&sim.nodes[idx].tree, rm) {
        DispatchDecision::Forward(fwd, next) => deliver(sim, idx, fwd, next),
        DispatchDecision::Organize(m) => sim.nodes[idx].organize.push_back(m),
        DispatchDecision::Deliver(d, s) => sim.nodes[idx].recv.push((d, s)),
        DispatchDecision::Discard(_) => {}
    }
}

/// Best-effort link delivery from node `idx` toward `dst`.
fn deliver(sim: &mut Sim, idx: usize, bytes: MessageData, dst: Node) {
    let broadcast = Node::new([0xff; 6]);
    if dst == broadcast {
        for peer in 0..sim.nodes.len() {
            if connected(sim, idx, peer) {
                let src = sim.nodes[idx].id;
                let peer_id = sim.nodes[peer].id;
                receive_at(sim, peer, bytes.clone(), src, peer_id);
            }
        }
        return;
    }
    for peer in 0..sim.nodes.len() {
        if sim.nodes[peer].id == dst && connected(sim, idx, peer) {
            let src = sim.nodes[idx].id;
            receive_at(sim, peer, bytes.clone(), src, dst);
        }
    }
}

/// Serializes `content` at node `idx` and puts it on the link.
fn send_from(sim: &mut Sim, idx: usize, content: MessageContent, dst: Node) {
    if let Ok((bytes, next)) = send_content(&sim.nodes[idx].tree, content, dst) {
        deliver(sim, idx, bytes, next);
    }
}

/// The node's search timer fires: broadcast a discovery if still searching.
fn tick_search(sim: &mut Sim, idx: usize) {
    if sim.nodes[idx].role != RoleDecision::Timeout {
        return;
    }
    let (decision, action) =
        run_search_round(&mut sim.nodes[idx].tree, SearchEvent::TimedOut).unwrap();
    assert_eq!(decision, RoleDecision::Timeout);
    if let Some((bytes, dst)) = action {
        sim.nodes[idx].discoveries_sent += 1;
        deliver(sim, idx, bytes, dst);
    }
}

/// Drains one node's control queue according to its role.
fn pump(sim: &mut Sim, idx: usize) {
    while let Some(msg) = sim.nodes[idx].organize.pop_front() {
        match sim.nodes[idx].role {
            RoleDecision::Timeout => {
                let (decision, _) =
                    run_search_round(&mut sim.nodes[idx].tree, SearchEvent::Control(msg)).unwrap();
                if decision != RoleDecision::Timeout {
                    sim.nodes[idx].role = decision;
                }
            }
            RoleDecision::Leader => {
                let mut news = std::mem::take(&mut sim.nodes[idx].news);
                handle_leader_message(&mut news, &msg);
                sim.nodes[idx].news = news;
            }
            RoleDecision::Follower => {
                let mut news = std::mem::take(&mut sim.nodes[idx].news);
                let placeholder = Tree::new(sim.nodes[idx].id).unwrap();
                let mut tree = std::mem::replace(&mut sim.nodes[idx].tree, placeholder);
                let actions = handle_follower_message(&mut news, &mut tree, &msg);
                sim.nodes[idx].news = news;
                sim.nodes[idx].tree = tree;
                for (content, dst) in actions {
                    send_from(sim, idx, content, dst);
                }
            }
        }
    }
}

/// One 3-second leader tick: collect news, poll every follower, integrate.
fn leader_news_round(sim: &mut Sim, idx: usize) {
    assert_eq!(sim.nodes[idx].role, RoleDecision::Leader);
    let mut all_news: Vec<NewsEntry> = Vec::new();
    let local = std::mem::take(&mut sim.nodes[idx].news);
    collect_local_news(&local, &mut all_news);
    let neighbors = sim.nodes[idx].tree.edge_list();
    for edge in &neighbors {
        send_from(sim, idx, MessageContent::RequestNews, edge.node);
        for peer in 0..sim.nodes.len() {
            if peer != idx {
                pump(sim, peer);
            }
        }
        while let Some(response) = sim.nodes[idx].organize.pop_front() {
            if !handle_news_response(&mut all_news, edge.node, &response) {
                break;
            }
        }
    }
    for entry in all_news {
        let snapshot = sim.nodes[idx].tree.edge_list();
        let updates = topology_update_messages(&snapshot, entry.node, &entry.parent);
        for (content, dst) in updates {
            send_from(sim, idx, content, dst);
        }
        if sim.nodes[idx]
            .tree
            .upsert_edge_checked(None, entry.node)
            .is_err()
        {
            continue;
        }
        match entry.parent {
            None => {
                let edges = sim.nodes[idx].tree.edge_list();
                for (content, dst) in send_initial_topology(&edges, entry.node) {
                    send_from(sim, idx, content, dst);
                }
            }
            Some(p) => {
                send_from(sim, idx, MessageContent::RequestInitTopology(entry.node), p);
            }
        }
        for peer in 0..sim.nodes.len() {
            if peer != idx {
                pump(sim, peer);
            }
        }
    }
}

#[test]
fn single_node_keeps_searching() {
    let a = sim_node(1);
    let mut sim = sim_new(&[a], &[]);
    tick_search(&mut sim, 0);
    tick_search(&mut sim, 0);
    assert!(sim.nodes[0].discoveries_sent >= 1);
    assert_eq!(sim.nodes[0].role, RoleDecision::Timeout, "still unassigned");
    assert_eq!(sim.nodes[0].tree.height(), 1);
}

#[test]
fn two_nodes_elect_leader_and_follower() {
    let a = sim_node(1);
    let b = sim_node(2);
    let mut sim = sim_new(&[a, b], &[(0, 1)]);

    // A's first search round times out and broadcasts; B hears it.
    tick_search(&mut sim, 0);
    pump(&mut sim, 1);
    assert_eq!(sim.nodes[1].role, RoleDecision::Leader);

    // A keeps searching; its next discovery lands in the leader's news.
    tick_search(&mut sim, 0);
    pump(&mut sim, 1);

    // The leader's news round invites A.
    leader_news_round(&mut sim, 1);
    assert_eq!(sim.nodes[0].role, RoleDecision::Follower);

    // The follower's tree has the leader as a child of the root.
    assert_eq!(sim.nodes[0].tree.next_hop(b).unwrap(), b);
    assert_eq!(sim.nodes[0].tree.height(), 2);
    assert_eq!(sim.nodes[1].tree.next_hop(a).unwrap(), a);
}

#[test]
fn two_nodes_exchange_application_payload() {
    let a = sim_node(1);
    let b = sim_node(2);
    let mut sim = sim_new(&[a, b], &[(0, 1)]);
    tick_search(&mut sim, 0);
    pump(&mut sim, 1);
    tick_search(&mut sim, 0);
    pump(&mut sim, 1);
    leader_news_round(&mut sim, 1);

    send_from(&mut sim, 0, MessageContent::Application(vec![42]), b);
    assert_eq!(sim.nodes[1].recv.len(), 1);
    assert_eq!(sim.nodes[1].recv[0].0, vec![42]);
    assert_eq!(sim.nodes[1].recv[0].1, a, "the payload names its origin");
}

#[test]
fn three_nodes_in_a_line_route_end_to_end() {
    let a = sim_node(1);
    let b = sim_node(2);
    let c = sim_node(3);
    let mut sim = sim_new(&[a, b, c], &[(0, 1), (1, 2)]);
    sim.nodes[2].started = false;

    // B broadcasts first; only A is listening yet, and A leads.
    tick_search(&mut sim, 1);
    pump(&mut sim, 0);
    assert_eq!(sim.nodes[0].role, RoleDecision::Leader);

    // B keeps searching and joins through A's news round.
    tick_search(&mut sim, 1);
    pump(&mut sim, 0);
    leader_news_round(&mut sim, 0);
    assert_eq!(sim.nodes[1].role, RoleDecision::Follower);

    // C comes up; only the follower B hears its discovery.
    sim.nodes[2].started = true;
    tick_search(&mut sim, 2);
    pump(&mut sim, 1);
    assert_eq!(sim.nodes[1].news.len(), 1);

    // The next news round polls B and integrates C through it.
    leader_news_round(&mut sim, 0);
    assert_eq!(sim.nodes[2].role, RoleDecision::Follower);

    // The newcomer holds the deepest view: leader under its root, and the
    // leader's side of the tree below.
    assert_eq!(sim.nodes[2].tree.height(), 3);
    assert_eq!(sim.nodes[2].tree.next_hop(a).unwrap(), b);

    // The leader routes to C directly by design: every newcomer is
    // recorded as a child of the root in the leader's own tree.
    assert_eq!(sim.nodes[0].tree.next_hop(c).unwrap(), c);

    // An application payload from C reaches A with C named as source.
    send_from(&mut sim, 2, MessageContent::Application(vec![9, 9]), a);
    assert_eq!(sim.nodes[0].recv.len(), 1);
    assert_eq!(sim.nodes[0].recv[0].0, vec![9, 9]);
    assert_eq!(sim.nodes[0].recv[0].1, c);
}
