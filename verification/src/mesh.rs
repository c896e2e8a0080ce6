//! The mesh protocol engine's decisions: role search, leader news rounds,
//! follower bookkeeping and per-hop dispatch.
//!
//! Each function here maps one event — a parsed frame, a timer expiry —
//! and the current state to the next state and the frames to put on the
//! link. The loops that wait on timers, channels and the radio drive these
//! functions from outside the library.

use vstd::prelude::*;

use crate::error::{MeshError, SendMessageError, TreeError};
use crate::message::{
    message_bytes, message_fits, spec_content_type, MessageContent, MessageData, MessageType,
    ReceiveMessage, SendMessage,
};
use crate::node::{broadcast, broadcast_node, Node};
use crate::tree::{
    next_hop_spec, upsert_edges_spec, upsert_leaked_spec, upsert_result_spec, Edge, Tree,
};

verus! {

/// Capacity of the application receive queue.
pub const RECV_QUEUE_SIZE: usize = 16;

/// Capacity of the control-plane queue.
pub const ORGANIZE_QUEUE_SIZE: usize = 16;

/// Most discovery reports a node keeps per news round.
pub const MAX_NEWS: usize = 16;

/// What a search round decided.
#[derive(Clone, Copy, Debug, PartialEq, Eq, Structural)]
pub enum RoleDecision {
    /// A discovery was heard back: this node leads.
    Leader,
    /// An edge naming this node arrived: it follows.
    Follower,
    /// Nothing decisive this round.
    Timeout,
}

/// One event driving a search round.
#[derive(Debug)]
pub enum SearchEvent {
    /// The round's timer expired with nothing received.
    TimedOut,
    /// A control frame arrived.
    Control(ReceiveMessage),
}

/// What the dispatcher does with one parsed frame.
#[derive(Debug)]
pub enum DispatchDecision {
    /// Put these bytes on the link toward this neighbor.
    Forward(MessageData, Node),
    /// Hand the frame to the control plane.
    Organize(ReceiveMessage),
    /// Hand the payload and its original sender to the application.
    Deliver(MessageData, Node),
    /// Drop the frame for this reason.
    Discard(MeshError),
}

/// Serializes `content` for `destination` and names the next hop; the
/// routing error or `MessageTooLargeError` otherwise. Sending to this
/// node itself fails with the tree's `RootIsDestinationError`.
pub fn send_content(tree: &Tree, content: MessageContent, destination: Node) -> (r: Result<
    (MessageData, Node),
    MeshError,
>)
    requires
        tree.wf(),
    ensures
        ({
            let m = SendMessage {
                data: content,
                final_destination: destination,
                final_source: Option::None,
            };
            match next_hop_spec(tree.spec_edges(), tree.spec_own(), destination) {
                Result::Err(e) => r matches Err(me) && me == MeshError::TreeError(e),
                Result::Ok(next) => {
                    if message_fits(m) {
                        r matches Ok(pair) && pair.0@ == message_bytes(m) && pair.1 == next
                    } else {
                        r matches Err(me) && me == MeshError::SerializationError(
                            SendMessageError::MessageTooLargeError,
                        )
                    }
                },
            }
        }),
{
    let msg = SendMessage::new(destination, content, Option::None);
    let next = match tree.next_hop(destination) {
        Ok(n) => n,
        Err(e) => {
            return Err(MeshError::TreeError(e));
        },
    };
    let data = match msg.serialize() {
        Ok(d) => d,
        Err(e) => {
            return Err(MeshError::SerializationError(e));
        },
    };
    Ok((data, next))
}

/// The discovery frame an unassigned node broadcasts: a `Discovery`
/// addressed to the broadcast node.
pub fn send_discovery() -> (r: Result<(MessageData, Node), MeshError>)
    ensures
        ({
            let m = SendMessage {
                data: MessageContent::Discovery,
                final_destination: broadcast_node(),
                final_source: Option::None,
            };
            r matches Ok(pair) && pair.0@ == message_bytes(m) && pair.1 == broadcast_node()
        }),
{
    let bc = broadcast();
    let msg = SendMessage::new(bc, MessageContent::Discovery, Option::None);
    let data = match msg.serialize() {
        Ok(d) => d,
        Err(e) => {
            return Err(MeshError::SerializationError(e));
        },
    };
    Ok((data, bc))
}

/// How an `UpsertEdge` frame is read at a receiver: an absent parent means
/// the sender, a parent naming the receiver means the root, and an absent
/// child means the sender.
pub open spec fn spec_interpret_upsert_edge(
    n: Option<Node>,
    p: Option<Node>,
    final_source: Node,
    final_destination: Node,
) -> (Option<Node>, Node) {
    (
        match p {
            Option::None => Option::Some(final_source),
            Option::Some(x) => if x == final_destination {
                Option::None
            } else {
                Option::Some(x)
            },
        },
        match n {
            Option::None => final_source,
            Option::Some(y) => y,
        },
    )
}

/// Reads the parent and child named by an `UpsertEdge` frame.
pub fn interpret_upsert_edge(
    n: &Option<Node>,
    p: &Option<Node>,
    final_source: Node,
    final_destination: Node,
) -> (r: (Option<Node>, Node))
    ensures
        r == spec_interpret_upsert_edge(*n, *p, final_source, final_destination),
{
    let parent = match p {
        Option::None => Option::Some(final_source),
        Option::Some(x) => {
            if *x == final_destination {
                Option::None
            } else {
                Option::Some(*x)
            }
        },
    };
    let child = match n {
        Option::None => final_source,
        Option::Some(y) => *y,
    };
    (parent, child)
}

/// Handles one control frame while unassigned: a heard `Discovery` makes
/// this node the leader; an `UpsertEdge` is folded into the tree and makes
/// it a follower; anything else waits on.
pub fn handle_search_message(tree: &mut Tree, msg: &ReceiveMessage) -> (r: Option<RoleDecision>)
    requires
        old(tree).wf(),
    ensures
        final(tree).wf(),
        final(tree).spec_own() == old(tree).spec_own(),
        ({
            let s = old(tree).spec_edges();
            let lk = old(tree).spec_leaked();
            match msg.data {
                MessageContent::Discovery => {
                    &&& r == Option::Some(RoleDecision::Leader)
                    &&& final(tree).spec_edges() == s
                    &&& final(tree).spec_leaked() == lk
                },
                MessageContent::UpsertEdge(n, p) => {
                    let pc = spec_interpret_upsert_edge(
                        n,
                        p,
                        msg.final_source,
                        msg.final_destination,
                    );
                    &&& r == Option::Some(RoleDecision::Follower)
                    &&& if pc.1 == old(tree).spec_own() || pc.1 == broadcast_node() {
                        final(tree).spec_edges() == s && final(tree).spec_leaked() == lk
                    } else {
                        final(tree).spec_edges() == upsert_edges_spec(s, lk, pc.0, pc.1)
                            && final(tree).spec_leaked() == upsert_leaked_spec(s, lk, pc.0, pc.1)
                    }
                },
                _ => {
                    &&& r is None
                    &&& final(tree).spec_edges() == s
                    &&& final(tree).spec_leaked() == lk
                },
            }
        }),
{
    match &msg.data {
        MessageContent::Discovery => Option::Some(RoleDecision::Leader),
        MessageContent::UpsertEdge(n, p) => {
            let pc = interpret_upsert_edge(n, p, msg.final_source, msg.final_destination);
            let _ = tree.upsert_edge_checked(pc.0, pc.1);
            Option::Some(RoleDecision::Follower)
        },
        _ => Option::None,
    }
}

/// One search round, driven by its event: a timeout broadcasts a
/// `Discovery` and stays unassigned; a control frame may decide the role.
pub fn run_search_round(tree: &mut Tree, event: SearchEvent) -> (r: Result<
    (RoleDecision, Option<(MessageData, Node)>),
    MeshError,
>)
    requires
        old(tree).wf(),
    ensures
        final(tree).wf(),
        final(tree).spec_own() == old(tree).spec_own(),
        ({
            match event {
                SearchEvent::TimedOut => {
                    let m = SendMessage {
                        data: MessageContent::Discovery,
                        final_destination: broadcast_node(),
                        final_source: Option::None,
                    };
                    &&& r matches Ok(pair)
                    &&& pair.0 == RoleDecision::Timeout
                    &&& pair.1 matches Some(out) && out.0@ == message_bytes(m) && out.1
                        == broadcast_node()
                    &&& final(tree).spec_edges() == old(tree).spec_edges()
                    &&& final(tree).spec_leaked() == old(tree).spec_leaked()
                },
                SearchEvent::Control(msg) => {
                    &&& r matches Ok(pair)
                    &&& pair.1 is None
                    &&& match msg.data {
                        MessageContent::Discovery => {
                            &&& pair.0 == RoleDecision::Leader
                            &&& final(tree).spec_edges() == old(tree).spec_edges()
                        },
                        MessageContent::UpsertEdge(n, p) => {
                            let pc = spec_interpret_upsert_edge(
                                n,
                                p,
                                msg.final_source,
                                msg.final_destination,
                            );
                            &&& pair.0 == RoleDecision::Follower
                            &&& if pc.1 == old(tree).spec_own() || pc.1 == broadcast_node() {
                                final(tree).spec_edges() == old(tree).spec_edges()
                            } else {
                                final(tree).spec_edges() == upsert_edges_spec(
                                    old(tree).spec_edges(),
                                    old(tree).spec_leaked(),
                                    pc.0,
                                    pc.1,
                                )
                            }
                        },
                        _ => {
                            &&& pair.0 == RoleDecision::Timeout
                            &&& final(tree).spec_edges() == old(tree).spec_edges()
                        },
                    }
                },
            }
        }),
{
    match event {
        SearchEvent::TimedOut => {
            let out = match send_discovery() {
                Ok(o) => o,
                Err(e) => {
                    return Err(e);
                },
            };
            Ok((RoleDecision::Timeout, Option::Some(out)))
        },
        SearchEvent::Control(msg) => {
            match handle_search_message(tree, &msg) {
                Option::Some(role) => Ok((role, Option::None)),
                Option::None => Ok((RoleDecision::Timeout, Option::None)),
            }
        },
    }
}

/// Appends a heard `Discovery` to the leader's news, dropping it when the
/// list is full; any other frame is ignored here.
pub fn handle_leader_message(news: &mut Vec<(Node, i32)>, msg: &ReceiveMessage)
    ensures
        ({
            if msg.data is Discovery && old(news)@.len() < MAX_NEWS {
                final(news)@ == old(news)@.push((msg.final_source, msg.rssi))
            } else {
                final(news)@ == old(news)@
            }
        }),
{
    match &msg.data {
        MessageContent::Discovery => {
            if news.len() < MAX_NEWS {
                news.push((msg.final_source, msg.rssi));
            }
        },
        _ => {},
    }
}

/// Routes one parsed frame: forward it when it is someone else's and no
/// `Discovery`, hand control frames to the organize queue, and application
/// payloads to the receive queue.
pub fn dispatch(tree: &Tree, msg: ReceiveMessage) -> (r: DispatchDecision)
    requires
        tree.wf(),
    ensures
        ({
            let fwd = msg.final_destination != msg.destination && spec_content_type(msg.data)
                != MessageType::Discovery;
            if fwd {
                match next_hop_spec(tree.spec_edges(), tree.spec_own(), msg.final_destination) {
                    Result::Err(e) => r == DispatchDecision::Discard(MeshError::TreeError(e)),
                    Result::Ok(next) => {
                        let m = SendMessage {
                            data: msg.data,
                            final_destination: msg.final_destination,
                            final_source: Option::Some(msg.final_source),
                        };
                        if message_fits(m) {
                            r matches DispatchDecision::Forward(bytes, nx) && bytes@
                                == message_bytes(m) && nx == next
                        } else {
                            r == DispatchDecision::Discard(
                                MeshError::SerializationError(
                                    SendMessageError::MessageTooLargeError,
                                ),
                            )
                        }
                    },
                }
            } else if spec_content_type(msg.data) != MessageType::Application {
                r == DispatchDecision::Organize(msg)
            } else {
                &&& r matches DispatchDecision::Deliver(d, src)
                &&& msg.data matches MessageContent::Application(pd) && d@ == pd@
                &&& src == msg.final_source
            }
        }),
{
    let is_final = msg.is_final_destination();
    let is_discovery = match &msg.data {
        MessageContent::Discovery => true,
        _ => false,
    };
    if !is_final && !is_discovery {
        let final_destination = msg.final_destination;
        let send_msg = SendMessage::from(msg);
        let next = match tree.next_hop(final_destination) {
            Ok(n) => n,
            Err(e) => {
                return DispatchDecision::Discard(MeshError::TreeError(e));
            },
        };
        let bytes = match send_msg.serialize() {
            Ok(b) => b,
            Err(e) => {
                return DispatchDecision::Discard(MeshError::SerializationError(e));
            },
        };
        return DispatchDecision::Forward(bytes, next);
    }
    let is_org = msg.is_organization();
    if is_org {
        return DispatchDecision::Organize(msg);
    }
    match msg.data {
        MessageContent::Application(d) => DispatchDecision::Deliver(d, msg.final_source),
        _ => DispatchDecision::Discard(MeshError::ReceiveQueueSendError),
    }
}

/// One row of the leader's aggregated news: a newly heard node, the best
/// reporter (`None` when the leader heard it directly), and that report's
/// signal strength.
#[derive(Clone, Copy, Debug)]
pub struct NewsEntry {
    pub node: Node,
    pub parent: Option<Node>,
    pub rssi: i32,
}

/// Whether the news hold a row for `n`.
pub open spec fn news_contains(s: Seq<NewsEntry>, n: Node) -> bool {
    exists|i: int| 0 <= i < s.len() && s[i].node == n
}

/// The index of the row for `n`.
pub open spec fn news_idx(s: Seq<NewsEntry>, n: Node) -> int {
    choose|i: int| 0 <= i < s.len() && s[i].node == n
}

/// No node has two rows.
pub open spec fn news_distinct(s: Seq<NewsEntry>) -> bool {
    forall|i: int, j: int| 0 <= i < j < s.len() ==> s[i].node != s[j].node
}

/// One local report seeds the news: it replaces any row for the same node,
/// marked as heard directly; a fresh node needs a free row.
pub open spec fn seed_one(acc: Seq<NewsEntry>, node: Node, rssi: i32) -> Seq<NewsEntry> {
    if news_contains(acc, node) {
        acc.update(news_idx(acc, node), NewsEntry { node, parent: Option::None, rssi })
    } else if acc.len() < MAX_NEWS {
        acc.push(NewsEntry { node, parent: Option::None, rssi })
    } else {
        acc
    }
}

/// The news after seeding with the first `k` local reports in order.
pub open spec fn seed_news_upto(acc: Seq<NewsEntry>, local: Seq<(Node, i32)>, k: int) -> Seq<
    NewsEntry,
>
    decreases k,
{
    if k <= 0 {
        acc
    } else {
        seed_one(seed_news_upto(acc, local, k - 1), local[k - 1].0, local[k - 1].1)
    }
}

/// One remote report merges into the news: the row for the node keeps the
/// report with the highest signal strength; a fresh node needs a free row.
pub open spec fn merge_news(acc: Seq<NewsEntry>, node: Node, from: Node, rssi: i32) -> Seq<
    NewsEntry,
> {
    if news_contains(acc, node) {
        let i = news_idx(acc, node);
        if acc[i].rssi < rssi {
            acc.update(i, NewsEntry { node, parent: Option::Some(from), rssi })
        } else {
            acc
        }
    } else if acc.len() < MAX_NEWS {
        acc.push(NewsEntry { node, parent: Option::Some(from), rssi })
    } else {
        acc
    }
}

/// Finds the row carrying `n`.
fn find_news(news: &Vec<NewsEntry>, n: Node) -> (r: Option<usize>)
    ensures
        match r {
            Some(i) => {
                &&& i < news@.len()
                &&& news@[i as int].node == n
                &&& forall|j: int| 0 <= j < i ==> (#[trigger] news@[j].node) != n
            },
            None => !news_contains(news@, n),
        },
{
    let mut i: usize = 0;
    while i < news.len()
        invariant
            i <= news@.len(),
            forall|j: int| 0 <= j < i ==> (#[trigger] news@[j].node) != n,
        decreases news@.len() - i,
    {
        if news[i].node == n {
            return Option::Some(i);
        }
        i = i + 1;
    }
    Option::None
}

/// Seeds the aggregated news from this round's local discovery reports,
/// each marked as heard directly by the leader.
pub fn collect_local_news(news: &Vec<(Node, i32)>, all_news: &mut Vec<NewsEntry>)
    requires
        news_distinct(old(all_news)@),
        old(all_news)@.len() <= MAX_NEWS,
    ensures
        final(all_news)@ == seed_news_upto(old(all_news)@, news@, news@.len() as int),
        news_distinct(final(all_news)@),
        final(all_news)@.len() <= MAX_NEWS,
{
    let mut i: usize = 0;
    while i < news.len()
        invariant
            i <= news@.len(),
            all_news@ == seed_news_upto(old(all_news)@, news@, i as int),
            news_distinct(all_news@),
            all_news@.len() <= MAX_NEWS,
        decreases news@.len() - i,
    {
        let pair = news[i];
        match find_news(all_news, pair.0) {
            Option::Some(k) => {
                proof {
                    lemma_unique_news_idx(all_news@, k as int, news_idx(all_news@, pair.0));
                }
                vstd::pervasive::VecAdditionalExecFns::set(
                    all_news,
                    k,
                    NewsEntry { node: pair.0, parent: Option::None, rssi: pair.1 },
                );
            },
            Option::None => {
                if all_news.len() < MAX_NEWS {
                    all_news.push(NewsEntry { node: pair.0, parent: Option::None, rssi: pair.1 });
                }
            },
        }
        i = i + 1;
    }
}

/// In distinct news, a node's row has only one index.
proof fn lemma_unique_news_idx(s: Seq<NewsEntry>, i: int, j: int)
    requires
        news_distinct(s),
        0 <= i < s.len(),
        0 <= j < s.len(),
        s[i].node == s[j].node,
    ensures
        i == j,
{
}

/// Merges one polled frame into the aggregated news: a `SendNew` report
/// is kept if it is the strongest for its node; `FinSendNew` ends this
/// neighbor's stream (the result says whether to keep polling).
pub fn handle_news_response(
    all_news: &mut Vec<NewsEntry>,
    parent: Node,
    response: &ReceiveMessage,
) -> (r: bool)
    requires
        news_distinct(old(all_news)@),
        old(all_news)@.len() <= MAX_NEWS,
    ensures
        news_distinct(final(all_news)@),
        final(all_news)@.len() <= MAX_NEWS,
        match response.data {
            MessageContent::SendNew(n, rssi) => {
                &&& final(all_news)@ == merge_news(old(all_news)@, n, parent, rssi)
                &&& r == true
            },
            MessageContent::FinSendNew => final(all_news)@ == old(all_news)@ && r == false,
            _ => final(all_news)@ == old(all_news)@ && r == true,
        },
{
    match &response.data {
        MessageContent::SendNew(n, rssi) => {
            match find_news(all_news, *n) {
                Option::Some(k) => {
                    proof {
                        lemma_unique_news_idx(all_news@, k as int, news_idx(all_news@, *n));
                    }
                    if all_news[k].rssi < *rssi {
                        vstd::pervasive::VecAdditionalExecFns::set(
                            all_news,
                            k,
                            NewsEntry { node: *n, parent: Option::Some(parent), rssi: *rssi },
                        );
                    }
                },
                Option::None => {
                    if all_news.len() < MAX_NEWS {
                        all_news.push(
                            NewsEntry { node: *n, parent: Option::Some(parent), rssi: *rssi },
                        );
                    }
                },
            }
            true
        },
        MessageContent::FinSendNew => false,
        _ => true,
    }
}

/// The frames a news round sends for one newcomer: every known node is
/// told the newcomer hangs under its best reporter.
pub open spec fn topology_update_msgs(s: Seq<Edge>, new: Node, parent: Option<Node>) -> Seq<
    (MessageContent, Node),
> {
    Seq::new(s.len(), |i: int| (MessageContent::UpsertEdge(Option::Some(new), parent), s[i].node))
}

/// Builds the topology-update frames for one newcomer.
pub fn topology_update_messages(edges: &Vec<Edge>, new_node: Node, parent: &Option<Node>) -> (r:
    Vec<(MessageContent, Node)>)
    ensures
        r@ == topology_update_msgs(edges@, new_node, *parent),
{
    let mut out: Vec<(MessageContent, Node)> = Vec::new();
    let mut i: usize = 0;
    while i < edges.len()
        invariant
            i <= edges@.len(),
            out@ == topology_update_msgs(edges@, new_node, *parent).take(i as int),
        decreases edges@.len() - i,
    {
        out.push((MessageContent::UpsertEdge(Option::Some(new_node), *parent), edges[i].node));
        proof {
            assert(out@ =~= topology_update_msgs(edges@, new_node, *parent).take(i as int + 1));
        }
        i = i + 1;
    }
    proof {
        assert(out@ =~= topology_update_msgs(edges@, new_node, *parent));
    }
    out
}

/// The frames that hand a newcomer the whole known topology: first its own
/// edge under the sender, then every known edge.
pub open spec fn initial_topology_msgs(s: Seq<Edge>, new: Node) -> Seq<(MessageContent, Node)> {
    Seq::new(
        s.len() + 1,
        |i: int|
            if i == 0 {
                (MessageContent::UpsertEdge(Option::None, Option::Some(new)), new)
            } else {
                (MessageContent::UpsertEdge(Option::Some(s[i - 1].node), s[i - 1].parent), new)
            },
    )
}

/// Builds the frames that reconstruct the known topology at a newcomer.
pub fn send_initial_topology(edges: &Vec<Edge>, new: Node) -> (r: Vec<(MessageContent, Node)>)
    ensures
        r@ == initial_topology_msgs(edges@, new),
{
    let mut out: Vec<(MessageContent, Node)> = Vec::new();
    out.push((MessageContent::UpsertEdge(Option::None, Option::Some(new)), new));
    let mut i: usize = 0;
    while i < edges.len()
        invariant
            i <= edges@.len(),
            out@ == initial_topology_msgs(edges@, new).take(i as int + 1),
        decreases edges@.len() - i,
    {
        let e = edges[i];
        out.push((MessageContent::UpsertEdge(Option::Some(e.node), e.parent), new));
        proof {
            assert(out@ =~= initial_topology_msgs(edges@, new).take(i as int + 2));
        }
        i = i + 1;
    }
    proof {
        assert(out@ =~= initial_topology_msgs(edges@, new));
    }
    out
}

/// Handles one control frame as a follower: collect discoveries, answer a
/// news request with one report per entry and a closing `FinSendNew`, fold
/// edges into the tree, or replay the topology for a newcomer. The result
/// is the frames to send, paired with their destinations.
pub fn handle_follower_message(
    news: &mut Vec<(Node, i32)>,
    tree: &mut Tree,
    msg: &ReceiveMessage,
) -> (r: Vec<(MessageContent, Node)>)
    requires
        old(tree).wf(),
    ensures
        final(tree).wf(),
        final(tree).spec_own() == old(tree).spec_own(),
        ({
            let s = old(tree).spec_edges();
            let lk = old(tree).spec_leaked();
            match msg.data {
                MessageContent::Discovery => {
                    &&& r@.len() == 0
                    &&& final(tree).spec_edges() == s
                    &&& if old(news)@.len() < MAX_NEWS {
                        final(news)@ == old(news)@.push((msg.final_source, msg.rssi))
                    } else {
                        final(news)@ == old(news)@
                    }
                },
                MessageContent::RequestNews => {
                    &&& final(news)@ == old(news)@
                    &&& final(tree).spec_edges() == s
                    &&& r@.len() == old(news)@.len() + 1
                    &&& forall|i: int|
                        0 <= i < old(news)@.len() ==> #[trigger] r@[i] == (
                            MessageContent::SendNew(old(news)@[i].0, old(news)@[i].1),
                            msg.final_source,
                        )
                    &&& r@[old(news)@.len() as int] == (
                        MessageContent::FinSendNew,
                        msg.final_source,
                    )
                },
                MessageContent::UpsertEdge(n, p) => {
                    let pc = spec_interpret_upsert_edge(
                        n,
                        p,
                        msg.final_source,
                        msg.final_destination,
                    );
                    &&& r@.len() == 0
                    &&& final(news)@ == old(news)@
                    &&& if pc.1 == old(tree).spec_own() || pc.1 == broadcast_node() {
                        final(tree).spec_edges() == s && final(tree).spec_leaked() == lk
                    } else {
                        final(tree).spec_edges() == upsert_edges_spec(s, lk, pc.0, pc.1)
                            && final(tree).spec_leaked() == upsert_leaked_spec(s, lk, pc.0, pc.1)
                    }
                },
                MessageContent::RequestInitTopology(nn) => {
                    &&& final(news)@ == old(news)@
                    &&& final(tree).spec_edges() == s
                    &&& r@ == initial_topology_msgs(s, nn)
                },
                _ => {
                    &&& r@.len() == 0
                    &&& final(news)@ == old(news)@
                    &&& final(tree).spec_edges() == s
                },
            }
        }),
{
    match &msg.data {
        MessageContent::Discovery => {
            if news.len() < MAX_NEWS {
                news.push((msg.final_source, msg.rssi));
            }
            Vec::new()
        },
        MessageContent::RequestNews => {
            let mut out: Vec<(MessageContent, Node)> = Vec::new();
            let mut i: usize = 0;
            while i < news.len()
                invariant
                    i <= news@.len(),
                    out@.len() == i,
                    forall|k: int|
                        0 <= k < i ==> #[trigger] out@[k] == (
                            MessageContent::SendNew(news@[k].0, news@[k].1),
                            msg.final_source,
                        ),
                decreases news@.len() - i,
            {
                let pair = news[i];
                out.push((MessageContent::SendNew(pair.0, pair.1), msg.final_source));
                i = i + 1;
            }
            out.push((MessageContent::FinSendNew, msg.final_source));
            out
        },
        MessageContent::UpsertEdge(n, p) => {
            let pc = interpret_upsert_edge(n, p, msg.final_source, msg.final_destination);
            let _ = tree.upsert_edge_checked(pc.0, pc.1);
            Vec::new()
        },
        MessageContent::RequestInitTopology(nn) => {
            let snapshot = tree.edge_list();
            send_initial_topology(&snapshot, *nn)
        },
        _ => Vec::new(),
    }
}

} // verus!
