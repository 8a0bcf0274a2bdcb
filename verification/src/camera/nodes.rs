//! From how a camera is named to the node that it is captured from.

use crate::camera::devices;
use crate::camera::devices::{
    capture_nodes, number_of, select_usb_node, usb_ids_of, Capture, NodeIds, NodeLink, Scan, Video,
    VideoNodeInfo,
};
use crate::led::IrDevice;
use crate::text;
use vstd::prelude::*;

verus! {

/// The nodes whose USB ids are known.
pub open spec fn with_ids(nodes: Seq<Capture>, ids: Seq<NodeIds>) -> Seq<Video>
    decreases nodes.len(),
{
    if nodes.len() == 0 {
        seq![]
    } else {
        let before = with_ids(nodes.drop_last(), ids);
        match devices::ids_of(ids, nodes.last().node) {
            Some((vid, pid)) => before.push(
                Video { node: nodes.last().node, vid, pid, color: nodes.last().color },
            ),
            None => before,
        }
    }
}

/// The USB video node that a scan gives for a vendor and product.
pub open spec fn usb_video_node(
    scan: Scan,
    vid: u16,
    pid: u16,
    want_color: bool,
    known: Seq<IrDevice>,
) -> Option<Seq<char>> {
    match scan.devices {
        None => None,
        Some(found) => devices::usb_node(
            with_ids(devices::capture_nodes_of(found@), scan.ids@),
            vid,
            pid,
            want_color,
            known,
        ),
    }
}

pub fn resolve_usb_video_node(
    scan: &Scan,
    vid: u16,
    pid: u16,
    want_color: bool,
    known: &Vec<IrDevice>,
) -> (r: Option<String>)
    ensures
        text::optional(r) == usb_video_node(*scan, vid, pid, want_color, known@),
{
    let found = match &scan.devices {
        None => return None,
        Some(found) => found,
    };
    let listed = capture_nodes(found);
    let ghost all = devices::captures(listed@);
    let mut nodes: Vec<VideoNodeInfo> = Vec::new();
    proof {
        assert(devices::videos(nodes@) =~= with_ids(all.take(0), scan.ids@));
    }
    for i in 0..listed.len()
        invariant
            all == devices::captures(listed@),
            devices::videos(nodes@) == with_ids(all.take(i as int), scan.ids@),
    {
        proof {
            text::lemma_take_push(all, i as int);
        }
        if let Some((node_vid, node_pid)) = usb_ids_of(&scan.ids, listed[i].node.as_str()) {
            let ghost before = nodes@;
            let info = VideoNodeInfo {
                node: listed[i].node.clone(),
                vid: node_vid,
                pid: node_pid,
                is_color: listed[i].is_color,
            };
            nodes.push(info);
            proof {
                assert(devices::videos(nodes@) =~= devices::videos(before).push(
                    Video { node: all[i as int].node, vid: node_vid, pid: node_pid, color: all[i as int].color },
                ));
            }
        }
    }
    proof {
        assert(all.take(all.len() as int) =~= all);
    }
    select_usb_node(&nodes, vid, pid, want_color, known)
}

/// The nodes of one spectrum, in the order in which they were found.
pub open spec fn of_color(nodes: Seq<Capture>, color: bool) -> Seq<Seq<char>>
    decreases nodes.len(),
{
    if nodes.len() == 0 {
        seq![]
    } else if nodes.last().color == color {
        of_color(nodes.drop_last(), color).push(nodes.last().node)
    } else {
        of_color(nodes.drop_last(), color)
    }
}

/// A list that is in order by number, with one more node behind those that do not come after it.
pub open spec fn placed(sorted: Seq<Seq<char>>, node: Seq<char>) -> Seq<Seq<char>>
    decreases sorted.len(),
{
    if sorted.len() > 0 && devices::node_number(node) < devices::node_number(sorted.last()) {
        placed(sorted.drop_last(), node).push(sorted.last())
    } else {
        sorted.push(node)
    }
}

/// The nodes in the order of their numbers. Nodes with the same number keep their order.
pub open spec fn by_number(nodes: Seq<Seq<char>>) -> Seq<Seq<char>>
    decreases nodes.len(),
{
    if nodes.len() == 0 {
        nodes
    } else {
        placed(by_number(nodes.drop_last()), nodes.last())
    }
}

pub open spec fn in_order(nodes: Seq<Seq<char>>) -> bool {
    forall|i: int, j: int|
        0 <= i <= j < nodes.len() ==> devices::node_number(#[trigger] nodes[i])
            <= devices::node_number(#[trigger] nodes[j])
}

proof fn lemma_placed(sorted: Seq<Seq<char>>, node: Seq<char>)
    requires
        in_order(sorted),
    ensures
        in_order(placed(sorted, node)),
        placed(sorted, node).to_multiset() == sorted.to_multiset().insert(node),
        forall|i: int|
            0 <= i < placed(sorted, node).len() ==> {
                ||| #[trigger] placed(sorted, node)[i] == node
                ||| exists|j: int| 0 <= j < sorted.len() && sorted[j] == placed(sorted, node)[i]
            },
    decreases sorted.len(),
{
    broadcast use vstd::seq_lib::group_to_multiset_ensures;

    if sorted.len() > 0 && devices::node_number(node) < devices::node_number(sorted.last()) {
        let rest = sorted.drop_last();
        assert(in_order(rest)) by {
            assert forall|i: int, j: int| 0 <= i <= j < rest.len() implies devices::node_number(
                #[trigger] rest[i],
            ) <= devices::node_number(#[trigger] rest[j]) by {
                assert(rest[i] == sorted[i]);
                assert(rest[j] == sorted[j]);
            }
        }
        lemma_placed(rest, node);
        let front = placed(rest, node);
        let all = placed(sorted, node);
        assert(all == front.push(sorted.last()));
        assert(sorted == rest.push(sorted.last()));
        assert forall|i: int| 0 <= i < all.len() implies ({
            ||| #[trigger] all[i] == node
            ||| exists|j: int| 0 <= j < sorted.len() && sorted[j] == all[i]
        }) by {
            if i < front.len() {
                assert(front[i] == all[i]);
                if front[i] != node {
                    let j = choose|j: int| 0 <= j < rest.len() && rest[j] == front[i];
                    assert(sorted[j] == all[i]);
                }
            } else {
                assert(sorted[sorted.len() - 1] == all[i]);
            }
        }
        assert forall|i: int, j: int| 0 <= i <= j < all.len() implies devices::node_number(
            #[trigger] all[i],
        ) <= devices::node_number(#[trigger] all[j]) by {
            if j < front.len() {
                assert(front[i] == all[i]);
                assert(front[j] == all[j]);
            } else if i < front.len() {
                assert(front[i] == all[i]);
            }
        }
        assert(all.to_multiset() =~= sorted.to_multiset().insert(node));
    } else {
        let all = placed(sorted, node);
        assert(all == sorted.push(node));
        assert forall|i: int, j: int| 0 <= i <= j < all.len() implies devices::node_number(
            #[trigger] all[i],
        ) <= devices::node_number(#[trigger] all[j]) by {
            if i < sorted.len() {
                assert(sorted[i] == all[i]);
                assert(sorted.last() == sorted[sorted.len() - 1]);
            }
            if j < sorted.len() {
                assert(sorted[j] == all[j]);
            }
        }
    }
}

/// Sorting puts the nodes in the order of their numbers, and neither drops nor adds one.
pub proof fn sorting_orders_and_keeps(nodes: Seq<Seq<char>>)
    ensures
        in_order(by_number(nodes)),
        by_number(nodes).to_multiset() == nodes.to_multiset(),
    decreases nodes.len(),
{
    broadcast use vstd::seq_lib::group_to_multiset_ensures;

    if nodes.len() > 0 {
        sorting_orders_and_keeps(nodes.drop_last());
        lemma_placed(by_number(nodes.drop_last()), nodes.last());
        assert(nodes == nodes.drop_last().push(nodes.last()));
    }
}

proof fn lemma_placed_at(sorted: Seq<Seq<char>>, node: Seq<char>, at: int)
    requires
        0 <= at <= sorted.len(),
        at == 0 || devices::node_number(sorted[at - 1]) <= devices::node_number(node),
        forall|j: int|
            at <= j < sorted.len() ==> devices::node_number(node) < devices::node_number(
                #[trigger] sorted[j],
            ),
    ensures
        sorted.insert(at, node) == placed(sorted, node),
    decreases sorted.len(),
{
    if at == sorted.len() {
        assert(sorted.insert(at, node) =~= sorted.push(node));
    } else {
        let rest = sorted.drop_last();
        assert forall|j: int| at <= j < rest.len() implies devices::node_number(node)
            < devices::node_number(#[trigger] rest[j]) by {
            assert(rest[j] == sorted[j]);
        }
        lemma_placed_at(rest, node, at);
        assert(devices::node_number(node) < devices::node_number(sorted[sorted.len() - 1]));
        assert(sorted.insert(at, node) =~= rest.insert(at, node).push(sorted.last()));
    }
}

fn place(sorted: &mut Vec<String>, node: String)
    ensures
        text::texts(final(sorted)@) == placed(text::texts(old(sorted)@), node@),
{
    let number: u32 = number_of(node.as_str());
    let mut at: usize = sorted.len();
    let ghost before = text::texts(sorted@);
    while at > 0 && number < number_of(sorted[at - 1].as_str())
        invariant
            number == devices::node_number(node@),
            before == text::texts(sorted@),
            at <= sorted@.len(),
            forall|j: int|
                at <= j < before.len() ==> devices::node_number(node@) < devices::node_number(
                    #[trigger] before[j],
                ),
        decreases at,
    {
        proof {
            assert(before[at - 1] == sorted@[at - 1]@);
        }
        at = at - 1;
    }
    proof {
        if at > 0 {
            assert(before[at - 1] == sorted@[at - 1]@);
        }
        lemma_placed_at(before, node@, at as int);
    }
    sorted.insert(at, node);
    proof {
        assert(text::texts(sorted@) =~= before.insert(at as int, node@));
    }
}

/// Every node of a spectrum, lowest-numbered first.
pub open spec fn sorted_nodes(scan: Scan, want_color: bool) -> Seq<Seq<char>> {
    by_number(of_color(devices::capture_nodes_of(devices::devices_of(scan)), want_color))
}

pub fn v4l2_nodes_with_color(scan: &Scan, want_color: bool) -> (r: Vec<String>)
    ensures
        text::texts(r@) == sorted_nodes(*scan, want_color),
{
    let mut r: Vec<String> = Vec::new();
    let found = match &scan.devices {
        None => {
            proof {
                assert(text::texts(r@) =~= by_number(seq![]));
            }
            return r;
        },
        Some(found) => found,
    };
    let listed = capture_nodes(found);
    let ghost all = devices::captures(listed@);
    proof {
        assert(text::texts(r@) =~= by_number(of_color(all.take(0), want_color)));
    }
    for i in 0..listed.len()
        invariant
            all == devices::captures(listed@),
            text::texts(r@) == by_number(of_color(all.take(i as int), want_color)),
    {
        proof {
            text::lemma_take_push(all, i as int);
        }
        if listed[i].is_color == want_color {
            let node = listed[i].node.clone();
            proof {
                let before = of_color(all.take(i as int), want_color);
                assert(before.push(node@).drop_last() =~= before);
            }
            place(&mut r, node);
        }
    }
    proof {
        assert(all.take(all.len() as int) =~= all);
    }
    r
}

pub open spec fn first_node(scan: Scan, want_color: bool) -> Option<Seq<char>> {
    let nodes = sorted_nodes(scan, want_color);
    if nodes.len() == 0 {
        None
    } else {
        Some(nodes[0])
    }
}

pub fn first_v4l2_node(scan: &Scan, want_color: bool) -> (r: Option<String>)
    ensures
        text::optional(r) == first_node(*scan, want_color),
{
    let nodes = v4l2_nodes_with_color(scan, want_color);
    if nodes.len() == 0 {
        None
    } else {
        proof {
            assert(text::texts(nodes@)[0] == nodes@[0]@);
        }
        Some(nodes[0].clone())
    }
}

/// The udev path of a PipeWire target: PipeWire names a V4L2 camera by it, with every `:` rewritten
/// as `_`.
pub open spec fn by_path_of(target: Seq<char>) -> Option<Seq<char>> {
    match text::without_prefix(target, "v4l2_input."@) {
        None => None,
        Some(path) => if path.len() == 0 {
            None
        } else {
            Some(text::replaced(path, '_', ':'))
        },
    }
}

pub fn v4l2_by_path_for_target(target: &str) -> (r: Option<String>)
    ensures
        text::optional(r) == by_path_of(target@),
{
    let target = text::chars(target);
    match text::strip_prefix(target.as_slice(), "v4l2_input.") {
        None => None,
        Some(path) => {
            if path.len() == 0 {
                None
            } else {
                let path = text::replace(path, '_', ':');
                Some(text::string(path.as_slice()))
            }
        },
    }
}

/// A linked node with the index that its link gives it.
pub struct IndexedNode {
    pub index: int,
    pub node: Seq<char>,
}

pub open spec fn link_index(link: Seq<char>, by_path: Seq<char>) -> Option<int> {
    match text::without_prefix(link, by_path) {
        None => None,
        Some(rest) => match text::without_prefix(rest, "-video-index"@) {
            None => None,
            Some(index) => text::parsed(index, 10, 0xffff_ffff),
        },
    }
}

pub open spec fn comes_before(a: IndexedNode, b: IndexedNode) -> bool {
    a.index < b.index || (a.index == b.index && text::text_less(a.node, b.node))
}

/// A list in order, with one more node behind those that do not come after it.
pub open spec fn ranked(sorted: Seq<IndexedNode>, node: IndexedNode) -> Seq<IndexedNode>
    decreases sorted.len(),
{
    if sorted.len() > 0 && comes_before(node, sorted.last()) {
        ranked(sorted.drop_last(), node).push(sorted.last())
    } else {
        sorted.push(node)
    }
}

/// The nodes that are linked for a path, by the index of the link and then by name.
pub open spec fn linked(links: Seq<NodeLink>, by_path: Seq<char>) -> Seq<IndexedNode>
    decreases links.len(),
{
    if links.len() == 0 {
        seq![]
    } else {
        let before = linked(links.drop_last(), by_path);
        match link_index(links.last().name@, by_path) {
            Some(index) => ranked(before, IndexedNode { index, node: links.last().node@ }),
            None => before,
        }
    }
}

/// The nodes, each at its first place.
pub open spec fn distinct_nodes(nodes: Seq<IndexedNode>) -> Seq<Seq<char>>
    decreases nodes.len(),
{
    if nodes.len() == 0 {
        seq![]
    } else {
        let before = distinct_nodes(nodes.drop_last());
        if before.contains(nodes.last().node) {
            before
        } else {
            before.push(nodes.last().node)
        }
    }
}

struct RankedNode {
    index: u32,
    node: String,
}

spec fn ranks(nodes: Seq<RankedNode>) -> Seq<IndexedNode> {
    Seq::new(
        nodes.len(),
        |i: int| IndexedNode { index: nodes[i].index as int, node: nodes[i].node@ },
    )
}

proof fn lemma_ranked_at(sorted: Seq<IndexedNode>, node: IndexedNode, at: int)
    requires
        0 <= at <= sorted.len(),
        at == 0 || !comes_before(node, sorted[at - 1]),
        forall|j: int| at <= j < sorted.len() ==> comes_before(node, #[trigger] sorted[j]),
    ensures
        sorted.insert(at, node) == ranked(sorted, node),
    decreases sorted.len(),
{
    if at == sorted.len() {
        assert(sorted.insert(at, node) =~= sorted.push(node));
    } else {
        let rest = sorted.drop_last();
        assert forall|j: int| at <= j < rest.len() implies comes_before(
            node,
            #[trigger] rest[j],
        ) by {
            assert(rest[j] == sorted[j]);
        }
        lemma_ranked_at(rest, node, at);
        assert(comes_before(node, sorted[sorted.len() - 1]));
        assert(sorted.insert(at, node) =~= rest.insert(at, node).push(sorted.last()));
    }
}

fn is_before(index: u32, node: &str, other: &RankedNode) -> (r: bool)
    ensures
        r == comes_before(
            IndexedNode { index: index as int, node: node@ },
            IndexedNode { index: other.index as int, node: other.node@ },
        ),
{
    index < other.index || (index == other.index && text::is_less(
        text::chars(node).as_slice(),
        text::chars(other.node.as_str()).as_slice(),
    ))
}

fn rank(sorted: &mut Vec<RankedNode>, index: u32, node: String)
    ensures
        ranks(final(sorted)@) == ranked(
            ranks(old(sorted)@),
            IndexedNode { index: index as int, node: node@ },
        ),
{
    let ghost before = ranks(sorted@);
    let ghost new = IndexedNode { index: index as int, node: node@ };
    let mut at: usize = sorted.len();
    while at > 0 && is_before(index, node.as_str(), &sorted[at - 1])
        invariant
            before == ranks(sorted@),
            new == (IndexedNode { index: index as int, node: node@ }),
            at <= sorted@.len(),
            forall|j: int| at <= j < before.len() ==> comes_before(new, #[trigger] before[j]),
        decreases at,
    {
        at = at - 1;
    }
    proof {
        lemma_ranked_at(before, new, at as int);
    }
    sorted.insert(at, RankedNode { index, node });
    proof {
        assert(ranks(sorted@) =~= before.insert(at as int, new));
    }
}

fn index_of_link(link: &str, by_path: &str) -> (r: Option<u32>)
    ensures
        match r {
            Some(n) => link_index(link@, by_path@) == Some(n as int),
            None => link_index(link@, by_path@) is None,
        },
{
    let link = text::chars(link);
    match text::strip_prefix(link.as_slice(), by_path) {
        None => None,
        Some(rest) => match text::strip_prefix(rest, "-video-index") {
            None => None,
            Some(index) => text::parse_number(index, 10, 0xffff_ffff),
        },
    }
}

fn holds_text(list: &Vec<String>, item: &str) -> (r: bool)
    ensures
        r == text::texts(list@).contains(item@),
{
    for i in 0..list.len()
        invariant
            forall|j: int| 0 <= j < i ==> text::texts(list@)[j] != item@,
    {
        if text::str_eq(list[i].as_str(), item) {
            proof {
                assert(text::texts(list@)[i as int] == item@);
            }
            return true;
        }
    }
    false
}

pub open spec fn linked_nodes(links: Seq<NodeLink>, by_path: Seq<char>) -> Seq<Seq<char>> {
    distinct_nodes(linked(links, by_path))
}

/// The nodes that udev links for one path, lowest index first.
pub fn nodes_for_by_path(links: &Vec<NodeLink>, by_path: &str) -> (r: Vec<String>)
    ensures
        text::texts(r@) == linked_nodes(links@, by_path@),
{
    let mut sorted: Vec<RankedNode> = Vec::new();
    proof {
        assert(ranks(sorted@) =~= linked(links@.take(0), by_path@));
    }
    for i in 0..links.len()
        invariant
            ranks(sorted@) == linked(links@.take(i as int), by_path@),
    {
        proof {
            text::lemma_take_push(links@, i as int);
        }
        if let Some(index) = index_of_link(links[i].name.as_str(), by_path) {
            rank(&mut sorted, index, links[i].node.clone());
        }
    }
    let ghost all = ranks(sorted@);
    let mut r: Vec<String> = Vec::new();
    proof {
        assert(links@.take(links@.len() as int) =~= links@);
        assert(text::texts(r@) =~= distinct_nodes(all.take(0)));
    }
    for i in 0..sorted.len()
        invariant
            all == ranks(sorted@),
            text::texts(r@) == distinct_nodes(all.take(i as int)),
    {
        proof {
            text::lemma_take_push(all, i as int);
        }
        if !holds_text(&r, sorted[i].node.as_str()) {
            let node = sorted[i].node.clone();
            proof {
                text::lemma_texts_push(r@, node);
            }
            r.push(node);
        }
    }
    proof {
        assert(all.take(all.len() as int) =~= all);
    }
    r
}

/// The first of the nodes that can be captured from.
pub open spec fn first_shared(nodes: Seq<Seq<char>>, capturable: Seq<Seq<char>>) -> Option<
    Seq<char>,
>
    decreases nodes.len(),
{
    if nodes.len() == 0 {
        None
    } else if capturable.contains(nodes[0]) {
        Some(nodes[0])
    } else {
        first_shared(nodes.skip(1), capturable)
    }
}

/// The node behind a PipeWire target. A device that links several nodes also links ones that cannot
/// be captured from, so what can be captured from decides between them.
pub open spec fn target_node(scan: Scan, target: Seq<char>, want_color: bool) -> Option<
    Seq<char>,
> {
    match by_path_of(target) {
        None => None,
        Some(path) => {
            let nodes = linked_nodes(scan.links@, path);
            if nodes.len() == 1 {
                Some(nodes[0])
            } else {
                match first_shared(nodes, sorted_nodes(scan, want_color)) {
                    Some(node) => Some(node),
                    None => if nodes.len() == 0 {
                        None
                    } else {
                        Some(nodes[0])
                    },
                }
            }
        },
    }
}

pub fn node_from_pipewire_target(scan: &Scan, target: &str, want_color: bool) -> (r: Option<String>)
    ensures
        text::optional(r) == target_node(*scan, target@, want_color),
{
    let path = match v4l2_by_path_for_target(target) {
        None => return None,
        Some(path) => path,
    };
    let nodes = nodes_for_by_path(&scan.links, path.as_str());
    let ghost all = text::texts(nodes@);
    if nodes.len() == 1 {
        proof {
            assert(all[0] == nodes@[0]@);
        }
        return Some(nodes[0].clone());
    }
    let capturable = v4l2_nodes_with_color(scan, want_color);
    let ghost reachable = text::texts(capturable@);
    proof {
        assert(all.skip(0) =~= all);
    }
    for i in 0..nodes.len()
        invariant
            all == text::texts(nodes@),
            all == linked_nodes(scan.links@, path@),
            by_path_of(target@) == Some(path@),
            nodes@.len() != 1,
            reachable == text::texts(capturable@),
            reachable == sorted_nodes(*scan, want_color),
            first_shared(all, reachable) == first_shared(all.skip(i as int), reachable),
    {
        proof {
            assert(all[i as int] == nodes@[i as int]@);
        }
        if holds_text(&capturable, nodes[i].as_str()) {
            return Some(nodes[i].clone());
        }
        proof {
            assert(all.skip(i as int).skip(1) =~= all.skip(i as int + 1));
        }
    }
    if nodes.len() == 0 {
        None
    } else {
        proof {
            assert(all[0] == nodes@[0]@);
        }
        Some(nodes[0].clone())
    }
}

proof fn lemma_first_shared(nodes: Seq<Seq<char>>, capturable: Seq<Seq<char>>)
    ensures
        first_shared(nodes, capturable) is Some ==> nodes.contains(
            first_shared(nodes, capturable)->0,
        ),
    decreases nodes.len(),
{
    if nodes.len() > 0 {
        if capturable.contains(nodes[0]) {
            assert(nodes.contains(nodes[0]));
        } else {
            lemma_first_shared(nodes.skip(1), capturable);
            if let Some(node) = first_shared(nodes.skip(1), capturable) {
                let i = choose|i: int| 0 <= i < nodes.skip(1).len() && nodes.skip(1)[i] == node;
                assert(nodes[i + 1] == node);
            }
        }
    }
}

/// A pinned target resolves only to a node that is linked for its own path, never to another camera.
pub proof fn a_target_resolves_to_its_own_node(scan: Scan, target: Seq<char>, want_color: bool)
    ensures
        match target_node(scan, target, want_color) {
            Some(node) => by_path_of(target) is Some && linked_nodes(
                scan.links@,
                by_path_of(target)->0,
            ).contains(node),
            None => true,
        },
{
    if let Some(path) = by_path_of(target) {
        let nodes = linked_nodes(scan.links@, path);
        lemma_first_shared(nodes, sorted_nodes(scan, want_color));
        if nodes.len() > 0 {
            assert(nodes.contains(nodes[0]));
        }
    }
}

/// The nodes of a spectrum and the nodes with ids are found in each part of a list alone.
pub proof fn nodes_are_chosen_one_by_one(
    left: Seq<Capture>,
    right: Seq<Capture>,
    node: Capture,
    ids: Seq<NodeIds>,
    color: bool,
)
    ensures
        of_color(left + right, color) == of_color(left, color) + of_color(right, color),
        node.color == color ==> of_color(seq![node], color) == seq![node.node],
        node.color != color ==> of_color(seq![node], color) == Seq::<Seq<char>>::empty(),
        with_ids(left + right, ids) == with_ids(left, ids) + with_ids(right, ids),
        devices::ids_of(ids, node.node) is None ==> with_ids(seq![node], ids) == Seq::<Video>::empty(),
        devices::ids_of(ids, node.node) matches Some((vid, pid)) ==> with_ids(seq![node], ids)
            == seq![Video { node: node.node, vid, pid, color: node.color }],
    decreases right.len(),
{
    let alone = seq![node];
    assert(alone.drop_last() =~= seq![]);
    assert(of_color(alone.drop_last(), color) =~= seq![]);
    assert(with_ids(alone.drop_last(), ids) =~= seq![]);
    assert(of_color(alone, color) =~= (if node.color == color {
        seq![node.node]
    } else {
        seq![]
    }));
    let all = left + right;
    if right.len() == 0 {
        assert(all =~= left);
        assert(of_color(left, color) + of_color(right, color) =~= of_color(left, color));
        assert(with_ids(left, ids) + with_ids(right, ids) =~= with_ids(left, ids));
    } else {
        nodes_are_chosen_one_by_one(left, right.drop_last(), node, ids, color);
        assert(all.drop_last() =~= left + right.drop_last());
        assert(all.last() == right.last());
        assert(of_color(all, color) =~= of_color(left, color) + of_color(right, color));
        assert(with_ids(all, ids) =~= with_ids(left, ids) + with_ids(right, ids));
    }
}

proof fn lemma_has_color(nodes: Seq<Capture>, color: bool, i: int)
    requires
        0 <= i < nodes.len(),
        nodes[i].color == color,
    ensures
        of_color(nodes, color).contains(nodes[i].node),
    decreases nodes.len(),
{
    let before = of_color(nodes.drop_last(), color);
    let now = of_color(nodes, color);
    if i == nodes.len() - 1 {
        assert(now[now.len() - 1] == nodes[i].node);
    } else {
        lemma_has_color(nodes.drop_last(), color, i);
        let k = choose|k: int| 0 <= k < before.len() && before[k] == nodes[i].node;
        assert(now[k] == nodes[i].node);
    }
}

proof fn lemma_color_of(nodes: Seq<Capture>, color: bool, k: int)
    requires
        0 <= k < of_color(nodes, color).len(),
    ensures
        exists|i: int|
            0 <= i < nodes.len() && (#[trigger] nodes[i]).color == color && nodes[i].node
                == of_color(nodes, color)[k],
    decreases nodes.len(),
{
    let rest = nodes.drop_last();
    let before = of_color(rest, color);
    let now = of_color(nodes, color);
    if k < before.len() {
        lemma_color_of(rest, color, k);
        let i = choose|i: int|
            0 <= i < rest.len() && (#[trigger] rest[i]).color == color && rest[i].node == before[k];
        assert(nodes[i] == rest[i]);
        assert(now[k] == before[k]);
    } else {
        let i = nodes.len() - 1;
        assert(nodes[i].node == now[k]);
    }
}

/// The nodes of a spectrum are those of the devices that have it, all of them; what is captured from
/// without a name is the one with the lowest number, and nothing is only where no device has one.
pub proof fn the_first_node_is_the_lowest_of_its_spectrum(scan: Scan, want_color: bool, k: int)
    requires
        0 <= k < devices::capture_nodes_of(devices::devices_of(scan)).len(),
        devices::capture_nodes_of(devices::devices_of(scan))[k].color == want_color,
    ensures
        ({
            let listed = devices::capture_nodes_of(devices::devices_of(scan));
            &&& sorted_nodes(scan, want_color).contains(listed[k].node)
            &&& first_node(scan, want_color) matches Some(first) && devices::node_number(first)
                <= devices::node_number(listed[k].node)
            &&& exists|i: int|
                0 <= i < listed.len() && (#[trigger] listed[i]).node == first_node(
                    scan,
                    want_color,
                )->0 && listed[i].color == want_color
        }),
{
    broadcast use vstd::seq_lib::group_to_multiset_ensures;

    let listed = devices::capture_nodes_of(devices::devices_of(scan));
    let chosen = of_color(listed, want_color);
    let nodes = sorted_nodes(scan, want_color);
    lemma_has_color(listed, want_color, k);
    sorting_orders_and_keeps(chosen);
    assert(chosen.to_multiset().count(listed[k].node) > 0);
    assert(nodes.contains(listed[k].node));
    let at = choose|at: int| 0 <= at < nodes.len() && nodes[at] == listed[k].node;
    assert(devices::node_number(nodes[0]) <= devices::node_number(nodes[at]));
    assert(nodes.contains(nodes[0]));
    assert(nodes.to_multiset().count(nodes[0]) > 0);
    assert(chosen.to_multiset().count(nodes[0]) > 0);
    assert(chosen.contains(nodes[0]));
    let from = choose|from: int| 0 <= from < chosen.len() && chosen[from] == nodes[0];
    lemma_color_of(listed, want_color, from);
}

/// Where no device has the spectrum there is no node of it.
pub proof fn no_node_stands_for_a_missing_spectrum(scan: Scan, want_color: bool)
    requires
        forall|i: int|
            0 <= i < devices::capture_nodes_of(devices::devices_of(scan)).len() ==> (
            #[trigger] devices::capture_nodes_of(devices::devices_of(scan))[i]).color != want_color,
    ensures
        sorted_nodes(scan, want_color).len() == 0,
        first_node(scan, want_color) is None,
{
    let listed = devices::capture_nodes_of(devices::devices_of(scan));
    let chosen = of_color(listed, want_color);
    if chosen.len() > 0 {
        lemma_color_of(listed, want_color, 0);
    }
}

/// A PipeWire target stands for the udev path behind its prefix, with every underscore a colon again.
pub proof fn a_target_names_a_path(path: Seq<char>, other: Seq<char>, i: int)
    requires
        0 <= i < path.len(),
    ensures
        by_path_of("v4l2_input."@ + path) matches Some(found) && found.len() == path.len()
            && found[i] == (if path[i] == '_' {
            ':'
        } else {
            path[i]
        }),
        by_path_of("v4l2_input."@) is None,
        !text::starts(other, "v4l2_input."@) ==> by_path_of(other) is None,
{
    text::prefixes_come_off_again(path, "v4l2_input."@);
    text::prefixes_come_off_again(Seq::empty(), "v4l2_input."@);
    assert("v4l2_input."@ + Seq::<char>::empty() =~= "v4l2_input."@);
}

/// A link belongs to a path exactly when it is the path with an index behind it, and has that index.
pub proof fn a_link_is_its_path_with_an_index(by_path: Seq<char>, n: u32, link: Seq<char>)
    ensures
        link_index(by_path + ("-video-index"@ + text::decimal(n as nat)), by_path) == Some(n as int),
        link_index(link, by_path) is Some ==> text::starts(link, by_path) && text::starts(
            link.skip(by_path.len() as int),
            "-video-index"@,
        ),
{
    text::prefixes_come_off_again("-video-index"@ + text::decimal(n as nat), by_path);
    text::prefixes_come_off_again(text::decimal(n as nat), "-video-index"@);
    text::numbers_read_back(n as nat, 10, 0xffff_ffff, seq![]);
}

pub open spec fn in_rank_order(nodes: Seq<IndexedNode>) -> bool {
    forall|i: int, j: int|
        0 <= i < j < nodes.len() ==> !comes_before(#[trigger] nodes[j], #[trigger] nodes[i])
}

proof fn lemma_rank_transitive(a: IndexedNode, b: IndexedNode, c: IndexedNode)
    requires
        comes_before(a, b),
        !comes_before(c, b),
    ensures
        comes_before(a, c),
{
    if a.index == b.index && b.index == c.index {
        text::text_order_is_total(b.node, c.node);
        if b.node != c.node {
            text::text_order_is_transitive(a.node, b.node, c.node);
        }
    }
}

proof fn lemma_ranked(sorted: Seq<IndexedNode>, node: IndexedNode)
    requires
        in_rank_order(sorted),
    ensures
        in_rank_order(ranked(sorted, node)),
        forall|x: IndexedNode| #[trigger]
            ranked(sorted, node).contains(x) <==> x == node || sorted.contains(x),
    decreases sorted.len(),
{
    let now = ranked(sorted, node);
    if sorted.len() > 0 && comes_before(node, sorted.last()) {
        let rest = sorted.drop_last();
        assert forall|i: int, j: int| 0 <= i < j < rest.len() implies !comes_before(
            #[trigger] rest[j],
            #[trigger] rest[i],
        ) by {
            assert(rest[i] == sorted[i] && rest[j] == sorted[j]);
        }
        lemma_ranked(rest, node);
        let front = ranked(rest, node);
        assert(now == front.push(sorted.last()));
        assert forall|x: IndexedNode| #[trigger] now.contains(x) <==> x == node || sorted.contains(
            x,
        ) by {
            if now.contains(x) {
                let k = choose|k: int| 0 <= k < now.len() && now[k] == x;
                if k < front.len() {
                    assert(front[k] == x);
                    assert(front.contains(x));
                    if x != node {
                        let m = choose|m: int| 0 <= m < rest.len() && rest[m] == x;
                        assert(sorted[m] == x);
                    }
                } else {
                    assert(sorted[sorted.len() - 1] == x);
                }
            }
            if x == node || sorted.contains(x) {
                if x == sorted.last() {
                    assert(now[now.len() - 1] == x);
                } else {
                    if x != node {
                        let m = choose|m: int| 0 <= m < sorted.len() && sorted[m] == x;
                        assert(rest[m] == x);
                    }
                    assert(front.contains(x));
                    let k = choose|k: int| 0 <= k < front.len() && front[k] == x;
                    assert(now[k] == x);
                }
            }
        }
        assert forall|i: int, j: int| 0 <= i < j < now.len() implies !comes_before(
            #[trigger] now[j],
            #[trigger] now[i],
        ) by {
            assert(now[i] == front[i]);
            if j < front.len() {
                assert(now[j] == front[j]);
            } else {
                assert(front.contains(front[i]));
                if front[i] == node {
                    if comes_before(sorted.last(), node) {
                        text::text_order_is_total(sorted.last().node, node.node);
                    }
                } else {
                    let m = choose|m: int| 0 <= m < rest.len() && rest[m] == front[i];
                    assert(sorted[m] == front[i]);
                    assert(sorted[sorted.len() - 1] == now[j]);
                }
            }
        }
    } else {
        assert(now == sorted.push(node));
        assert forall|x: IndexedNode| #[trigger] now.contains(x) <==> x == node || sorted.contains(
            x,
        ) by {
            if now.contains(x) {
                let k = choose|k: int| 0 <= k < now.len() && now[k] == x;
                if k < sorted.len() {
                    assert(sorted[k] == x);
                }
            }
            if x == node {
                assert(now[now.len() - 1] == x);
            } else if sorted.contains(x) {
                let m = choose|m: int| 0 <= m < sorted.len() && sorted[m] == x;
                assert(now[m] == x);
            }
        }
        assert forall|i: int, j: int| 0 <= i < j < now.len() implies !comes_before(
            #[trigger] now[j],
            #[trigger] now[i],
        ) by {
            assert(now[i] == sorted[i]);
            if j < sorted.len() {
                assert(now[j] == sorted[j]);
            } else {
                let last = sorted.last();
                assert(sorted[sorted.len() - 1] == last);
                if comes_before(node, sorted[i]) && i < sorted.len() - 1 {
                    lemma_rank_transitive(node, sorted[i], last);
                }
            }
        }
    }
}

proof fn lemma_linked(links: Seq<NodeLink>, by_path: Seq<char>)
    ensures
        in_rank_order(linked(links, by_path)),
        forall|x: IndexedNode| #[trigger]
            linked(links, by_path).contains(x) <==> exists|k: int|
                0 <= k < links.len() && link_index((#[trigger] links[k]).name@, by_path) == Some(
                    x.index,
                ) && links[k].node@ == x.node,
    decreases links.len(),
{
    if links.len() > 0 {
        let rest = links.drop_last();
        let n = links.len() - 1;
        lemma_linked(rest, by_path);
        let before = linked(rest, by_path);
        let now = linked(links, by_path);
        let index = link_index(links.last().name@, by_path);
        if index is Some {
            lemma_ranked(before, IndexedNode { index: index->0, node: links.last().node@ });
        }
        assert forall|x: IndexedNode| #[trigger] now.contains(x) <==> exists|k: int|
            0 <= k < links.len() && link_index((#[trigger] links[k]).name@, by_path) == Some(x.index)
                && links[k].node@ == x.node by {
            if now.contains(x) {
                if before.contains(x) {
                    let k = choose|k: int|
                        0 <= k < rest.len() && link_index((#[trigger] rest[k]).name@, by_path)
                            == Some(x.index) && rest[k].node@ == x.node;
                    assert(links[k] == rest[k]);
                } else {
                    assert(links[n] == links.last());
                }
            }
            if exists|k: int|
                0 <= k < links.len() && link_index((#[trigger] links[k]).name@, by_path) == Some(
                    x.index,
                ) && links[k].node@ == x.node {
                let k = choose|k: int|
                    0 <= k < links.len() && link_index((#[trigger] links[k]).name@, by_path)
                        == Some(x.index) && links[k].node@ == x.node;
                if k < n {
                    assert(rest[k] == links[k]);
                    assert(before.contains(x));
                }
            }
        }
    }
}

proof fn lemma_distinct(nodes: Seq<IndexedNode>)
    ensures
        forall|i: int, j: int|
            0 <= i < j < distinct_nodes(nodes).len() ==> (#[trigger] distinct_nodes(nodes)[i]) != (
            #[trigger] distinct_nodes(nodes)[j]),
        forall|node: Seq<char>| #[trigger]
            distinct_nodes(nodes).contains(node) <==> exists|k: int|
                0 <= k < nodes.len() && (#[trigger] nodes[k]).node == node,
        nodes.len() > 0 ==> distinct_nodes(nodes).len() > 0 && distinct_nodes(nodes)[0]
            == nodes[0].node,
    decreases nodes.len(),
{
    if nodes.len() > 0 {
        let rest = nodes.drop_last();
        let n = nodes.len() - 1;
        lemma_distinct(rest);
        let before = distinct_nodes(rest);
        let now = distinct_nodes(nodes);
        assert forall|node: Seq<char>| #[trigger] now.contains(node) <==> exists|k: int|
            0 <= k < nodes.len() && (#[trigger] nodes[k]).node == node by {
            if now.contains(node) {
                let i = choose|i: int| 0 <= i < now.len() && now[i] == node;
                if i < before.len() {
                    assert(before[i] == node);
                    assert(before.contains(node));
                    let k = choose|k: int| 0 <= k < rest.len() && (#[trigger] rest[k]).node == node;
                    assert(nodes[k] == rest[k]);
                } else {
                    assert(nodes[n].node == node);
                }
            }
            if exists|k: int| 0 <= k < nodes.len() && (#[trigger] nodes[k]).node == node {
                let k = choose|k: int| 0 <= k < nodes.len() && (#[trigger] nodes[k]).node == node;
                if k < n {
                    assert(rest[k] == nodes[k]);
                    assert(before.contains(node));
                    let i = choose|i: int| 0 <= i < before.len() && before[i] == node;
                    assert(now[i] == node);
                } else if before.contains(node) {
                    assert(now == before);
                } else {
                    assert(now[now.len() - 1] == node);
                }
            }
        }
        if n > 0 {
            assert(rest[0] == nodes[0]);
            assert(now[0] == before[0]);
        } else {
            assert(before =~= seq![]);
            assert(!before.contains(nodes.last().node));
        }
    }
}

/// The nodes of a path are exactly those that its links name, each once, and the first is one whose
/// link has the lowest index.
pub proof fn a_path_has_the_nodes_of_its_links(links: Seq<NodeLink>, by_path: Seq<char>)
    ensures
        forall|node: Seq<char>| #[trigger]
            linked_nodes(links, by_path).contains(node) <==> exists|k: int|
                0 <= k < links.len() && link_index((#[trigger] links[k]).name@, by_path) is Some
                    && links[k].node@ == node,
        forall|i: int, j: int|
            0 <= i < j < linked_nodes(links, by_path).len() ==> (#[trigger] linked_nodes(
                links,
                by_path,
            )[i]) != (#[trigger] linked_nodes(links, by_path)[j]),
        linked_nodes(links, by_path).len() > 0 ==> exists|k: int|
            {
                &&& 0 <= k < links.len()
                &&& (#[trigger] links[k]).node@ == linked_nodes(links, by_path)[0]
                &&& link_index(links[k].name@, by_path) is Some
                &&& forall|j: int|
                    0 <= j < links.len() && link_index((#[trigger] links[j]).name@, by_path) is Some
                        ==> link_index(links[k].name@, by_path)->0 <= link_index(
                        links[j].name@,
                        by_path,
                    )->0
            },
{
    let all = linked(links, by_path);
    let nodes = linked_nodes(links, by_path);
    lemma_linked(links, by_path);
    lemma_distinct(all);
    assert forall|node: Seq<char>| #[trigger] nodes.contains(node) <==> exists|k: int|
        0 <= k < links.len() && link_index((#[trigger] links[k]).name@, by_path) is Some
            && links[k].node@ == node by {
        if nodes.contains(node) {
            let m = choose|m: int| 0 <= m < all.len() && (#[trigger] all[m]).node == node;
            assert(all.contains(all[m]));
        }
        if exists|k: int|
            0 <= k < links.len() && link_index((#[trigger] links[k]).name@, by_path) is Some
                && links[k].node@ == node {
            let k = choose|k: int|
                0 <= k < links.len() && link_index((#[trigger] links[k]).name@, by_path) is Some
                    && links[k].node@ == node;
            let x = IndexedNode { index: link_index(links[k].name@, by_path)->0, node };
            assert(all.contains(x));
            let m = choose|m: int| 0 <= m < all.len() && all[m] == x;
            assert(all[m].node == node);
        }
    }
    if nodes.len() > 0 {
        assert(all.len() > 0) by {
            if all.len() == 0 {
                assert(distinct_nodes(all) =~= seq![]);
            }
        }
        assert(all.contains(all[0]));
        let k = choose|k: int|
            0 <= k < links.len() && link_index((#[trigger] links[k]).name@, by_path) == Some(
                all[0].index,
            ) && links[k].node@ == all[0].node;
        assert forall|j: int|
            0 <= j < links.len() && link_index((#[trigger] links[j]).name@, by_path) is Some
            implies link_index(links[k].name@, by_path)->0 <= link_index(
            links[j].name@,
            by_path,
        )->0 by {
            let x = IndexedNode {
                index: link_index(links[j].name@, by_path)->0,
                node: links[j].node@,
            };
            assert(all.contains(x));
            let m = choose|m: int| 0 <= m < all.len() && all[m] == x;
            if m > 0 {
                assert(!comes_before(all[m], all[0]));
            }
        }
        assert(links[k].node@ == nodes[0]);
    }
}

proof fn lemma_shared(nodes: Seq<Seq<char>>, capturable: Seq<Seq<char>>)
    ensures
        match first_shared(nodes, capturable) {
            Some(node) => exists|i: int|
                {
                    &&& 0 <= i < nodes.len()
                    &&& #[trigger] nodes[i] == node
                    &&& capturable.contains(node)
                    &&& forall|j: int| 0 <= j < i ==> !capturable.contains(#[trigger] nodes[j])
                },
            None => forall|i: int| 0 <= i < nodes.len() ==> !capturable.contains(#[trigger] nodes[i]),
        },
    decreases nodes.len(),
{
    if nodes.len() > 0 && !capturable.contains(nodes[0]) {
        let rest = nodes.skip(1);
        lemma_shared(rest, capturable);
        match first_shared(nodes, capturable) {
            Some(node) => {
                let i = choose|i: int|
                    {
                        &&& 0 <= i < rest.len()
                        &&& #[trigger] rest[i] == node
                        &&& capturable.contains(node)
                        &&& forall|j: int| 0 <= j < i ==> !capturable.contains(#[trigger] rest[j])
                    };
                assert(nodes[i + 1] == rest[i]);
                assert forall|j: int| 0 <= j < i + 1 implies !capturable.contains(
                    #[trigger] nodes[j],
                ) by {
                    if j > 0 {
                        assert(nodes[j] == rest[j - 1]);
                    }
                }
            },
            None => {
                assert forall|i: int| 0 <= i < nodes.len() implies !capturable.contains(
                    #[trigger] nodes[i],
                ) by {
                    if i > 0 {
                        assert(nodes[i] == rest[i - 1]);
                    }
                }
            },
        }
    } else if nodes.len() > 0 {
        assert(nodes[0] == first_shared(nodes, capturable)->0);
    }
}

/// A target that links one node is that node. Of several, the first that can be captured from with the
/// wanted spectrum is taken, and the first of all where none can. Only a target that links nothing has
/// no node.
pub proof fn a_target_takes_the_first_node_that_fits(scan: Scan, target: Seq<char>, want_color: bool)
    ensures
        by_path_of(target) is None ==> target_node(scan, target, want_color) is None,
        by_path_of(target) matches Some(path) ==> {
            let nodes = linked_nodes(scan.links@, path);
            let fitting = sorted_nodes(scan, want_color);
            &&& target_node(scan, target, want_color) is None <==> nodes.len() == 0
            &&& nodes.len() == 1 ==> target_node(scan, target, want_color) == Some(nodes[0])
            &&& forall|i: int|
                1 < nodes.len() && 0 <= i < nodes.len() && fitting.contains(#[trigger] nodes[i]) && (
                forall|j: int| 0 <= j < i ==> !fitting.contains(#[trigger] nodes[j]))
                    ==> target_node(scan, target, want_color) == Some(nodes[i])
            &&& nodes.len() > 0 && (forall|i: int|
                0 <= i < nodes.len() ==> !fitting.contains(#[trigger] nodes[i])) ==> target_node(
                scan,
                target,
                want_color,
            ) == Some(nodes[0])
        },
{
    if let Some(path) = by_path_of(target) {
        let nodes = linked_nodes(scan.links@, path);
        let fitting = sorted_nodes(scan, want_color);
        lemma_shared(nodes, fitting);
        assert forall|i: int|
            1 < nodes.len() && 0 <= i < nodes.len() && fitting.contains(#[trigger] nodes[i]) && (
            forall|j: int| 0 <= j < i ==> !fitting.contains(#[trigger] nodes[j])) implies target_node(
            scan,
            target,
            want_color,
        ) == Some(nodes[i]) by {
            let found = first_shared(nodes, fitting)->0;
            let k = choose|k: int|
                {
                    &&& 0 <= k < nodes.len()
                    &&& #[trigger] nodes[k] == found
                    &&& fitting.contains(found)
                    &&& forall|j: int| 0 <= j < k ==> !fitting.contains(#[trigger] nodes[j])
                };
            if k < i {
                assert(!fitting.contains(nodes[k]));
            } else if i < k {
                assert(!fitting.contains(nodes[i]));
            }
        }
    }
}

/// A camera that a scan reports can be found by its USB ids: where some device's node has the ids and
/// the wanted spectrum, a node of these ids and of this spectrum is found.
pub proof fn a_reported_camera_is_found_by_its_ids(
    scan: Scan,
    vid: u16,
    pid: u16,
    want_color: bool,
    known: Seq<IrDevice>,
    k: int,
)
    requires
        scan.devices is Some,
        0 <= k < devices::devices_of(scan).len(),
        devices::capture_path(devices::devices_of(scan)[k]) is Some,
        devices::color_device(devices::devices_of(scan)[k]) == want_color,
        forall|j: int|
            0 <= j < k ==> devices::capture_path(#[trigger] devices::devices_of(scan)[j])
                != devices::capture_path(devices::devices_of(scan)[k]),
        devices::ids_of(scan.ids@, devices::capture_path(devices::devices_of(scan)[k])->0) == Some(
            (vid, pid),
        ),
    ensures
        usb_video_node(scan, vid, pid, want_color, known) matches Some(node) && devices::ids_of(
            scan.ids@,
            node,
        ) == Some((vid, pid)) && devices::node_number(node) <= devices::node_number(
            devices::capture_path(devices::devices_of(scan)[k])->0,
        ),
{
    let found = devices::devices_of(scan);
    let listed = devices::capture_nodes_of(found);
    let node = devices::capture_path(found[k])->0;
    devices::every_node_is_listed_once(found, k);
    let i = choose|i: int| 0 <= i < listed.len() && (#[trigger] listed[i]).node == node;
    devices::a_listed_node_has_its_first_device_s_spectrum(found, i);
    let first = choose|first: int|
        {
            &&& 0 <= first < found.len()
            &&& devices::capture_path(#[trigger] found[first]) == Some(listed[i].node)
            &&& listed[i].color == devices::color_device(found[first])
            &&& forall|j: int|
                0 <= j < first ==> devices::capture_path(#[trigger] found[j]) != Some(listed[i].node)
        };
    if first < k {
        assert(devices::capture_path(found[first]) != devices::capture_path(found[k]));
    } else if k < first {
        assert(devices::capture_path(found[k]) != Some(listed[i].node));
    }
    let nodes = with_ids(listed, scan.ids@);
    lemma_with_ids(listed, scan.ids@, i);
    let wanted = Video { node, vid, pid, color: want_color };
    let at = choose|at: int| 0 <= at < nodes.len() && nodes[at] == wanted;
    devices::usb_ids_choose_their_lowest_fitting_node(nodes, vid, pid, want_color, known, at);
    let chosen = usb_video_node(scan, vid, pid, want_color, known)->0;
    let c = choose|c: int|
        {
            &&& 0 <= c < nodes.len()
            &&& (#[trigger] nodes[c]).node == chosen
            &&& nodes[c].vid == vid
            &&& nodes[c].pid == pid
            &&& nodes[c].color == want_color || devices::forced_mode(known, vid, pid, want_color)
            &&& nodes[at].color == want_color ==> nodes[c].color == want_color
                && devices::node_number(chosen) <= devices::node_number(nodes[at].node)
        };
    lemma_ids_of_entry(listed, scan.ids@, c);
}

proof fn lemma_with_ids(nodes: Seq<Capture>, ids: Seq<NodeIds>, i: int)
    requires
        0 <= i < nodes.len(),
        devices::ids_of(ids, nodes[i].node) is Some,
    ensures
        with_ids(nodes, ids).contains(
            Video {
                node: nodes[i].node,
                vid: (devices::ids_of(ids, nodes[i].node)->0).0,
                pid: (devices::ids_of(ids, nodes[i].node)->0).1,
                color: nodes[i].color,
            },
        ),
    decreases nodes.len(),
{
    let before = with_ids(nodes.drop_last(), ids);
    let now = with_ids(nodes, ids);
    if i == nodes.len() - 1 {
        assert(now[now.len() - 1].node == nodes[i].node);
    } else {
        lemma_with_ids(nodes.drop_last(), ids, i);
        let wanted = Video {
            node: nodes[i].node,
            vid: (devices::ids_of(ids, nodes[i].node)->0).0,
            pid: (devices::ids_of(ids, nodes[i].node)->0).1,
            color: nodes[i].color,
        };
        let k = choose|k: int| 0 <= k < before.len() && before[k] == wanted;
        assert(now[k] == wanted);
    }
}

proof fn lemma_ids_of_entry(nodes: Seq<Capture>, ids: Seq<NodeIds>, k: int)
    requires
        0 <= k < with_ids(nodes, ids).len(),
    ensures
        devices::ids_of(ids, with_ids(nodes, ids)[k].node) == Some(
            (with_ids(nodes, ids)[k].vid, with_ids(nodes, ids)[k].pid),
        ),
    decreases nodes.len(),
{
    let before = with_ids(nodes.drop_last(), ids);
    if k < before.len() {
        lemma_ids_of_entry(nodes.drop_last(), ids, k);
    }
}

} // verus!
