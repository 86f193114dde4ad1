use vstd::prelude::*;
use std::collections::VecDeque;
use crate::geo::map_generator::{Node, NodeView, WayData, WayView, nodes_view, ways_view};

verus! {

broadcast use vstd::std_specs::vecdeque::group_vec_dequeue_axioms;

/// One entry of a relation's draw order: which outer way to draw next, and
/// whether to walk its nodes backwards.
#[derive(Clone, Copy, PartialEq, Eq, Structural, Debug)]
pub struct RelationDrawOrder {
    pub index: usize,
    pub is_reversed: bool,
}

/// The first node of a way.
pub open spec fn start_of(w: WayView) -> NodeView {
    w.points[0]
}

/// The last node of a way.
pub open spec fn end_of(w: WayView) -> NodeView {
    w.points.last()
}

/// Ways that [`RelationDrawOrder::from_ways`] can order: when the first way
/// has nodes, every other way has nodes too (an empty one has no end to join).
pub open spec fn orderable(ways: Seq<WayView>) -> bool {
    ways.len() > 0 && ways[0].points.len() > 0 ==> forall|i: int|
        1 <= i < ways.len() ==> #[trigger] ways[i].points.len() > 0
}

/// The state of the chaining of outer ways: the two open ends of the chain
/// being built, whether the last reversed way was flipped, the ids already
/// placed, the chain being built and the chains already closed.
pub struct ChainState {
    pub first: NodeView,
    pub last: NodeView,
    pub prev_reversed: bool,
    pub inserted: Seq<i64>,
    pub pending: Seq<RelationDrawOrder>,
    pub done: Seq<RelationDrawOrder>,
}

pub open spec fn entry(i: int, reversed: bool) -> RelationDrawOrder {
    RelationDrawOrder { index: i as usize, is_reversed: reversed }
}

/// One look at way `i`: it is appended behind the chain when it starts (or,
/// flipped, ends) where the chain ends, put in front when it ends (or,
/// flipped, starts) where the chain starts; when it joins neither end and the
/// chain is closed, the chain is finished and way `i` starts a new one.
pub open spec fn chain_step(ways: Seq<WayView>, s: ChainState, i: int) -> ChainState {
    let w = ways[i];
    let cs = start_of(w);
    let ce = end_of(w);
    if s.inserted.contains(w.id) {
        s
    } else if s.last == cs {
        ChainState {
            first: s.first,
            last: ce,
            prev_reversed: s.prev_reversed,
            inserted: s.inserted.push(w.id),
            pending: s.pending.push(entry(i, false)),
            done: s.done,
        }
    } else if s.first == ce {
        ChainState {
            first: cs,
            last: s.last,
            prev_reversed: s.prev_reversed,
            inserted: s.inserted.push(w.id),
            pending: seq![entry(i, false)] + s.pending,
            done: s.done,
        }
    } else if s.last == ce {
        ChainState {
            first: s.first,
            last: cs,
            prev_reversed: !s.prev_reversed,
            inserted: s.inserted.push(w.id),
            pending: s.pending.push(entry(i, !s.prev_reversed)),
            done: s.done,
        }
    } else if s.first == cs {
        ChainState {
            first: ce,
            last: s.last,
            prev_reversed: !s.prev_reversed,
            inserted: s.inserted.push(w.id),
            pending: seq![entry(i, !s.prev_reversed)] + s.pending,
            done: s.done,
        }
    } else if s.first == s.last {
        ChainState {
            first: cs,
            last: ce,
            prev_reversed: s.prev_reversed,
            inserted: s.inserted,
            pending: seq![entry(i, false)],
            done: s.done + s.pending,
        }
    } else {
        s
    }
}

/// Looks at the ways `1 .. j` in turn.
pub open spec fn chain_scan(ways: Seq<WayView>, s: ChainState, j: int) -> ChainState
    decreases j,
{
    if j <= 1 {
        s
    } else {
        chain_step(ways, chain_scan(ways, s, j - 1), j - 1)
    }
}

/// `p` passes over all the ways but the first.
pub open spec fn chain_passes(ways: Seq<WayView>, s: ChainState, p: nat) -> ChainState
    decreases p,
{
    if p == 0 {
        s
    } else {
        chain_scan(ways, chain_passes(ways, s, (p - 1) as nat), ways.len() as int)
    }
}

/// The chain holding only the first way.
pub open spec fn initial_chain(ways: Seq<WayView>) -> ChainState {
    ChainState {
        first: start_of(ways[0]),
        last: end_of(ways[0]),
        prev_reversed: false,
        inserted: seq![],
        pending: seq![entry(0, false)],
        done: seq![],
    }
}

/// The draw order of a relation's outer ways: one pass per way over the
/// ways after the first, then the finished chains followed by the open one.
pub open spec fn draw_order_of(ways: Seq<WayView>) -> Seq<RelationDrawOrder> {
    if ways.len() == 0 || ways[0].points.len() == 0 {
        seq![]
    } else {
        let s = chain_passes(ways, initial_chain(ways), ways.len());
        s.done + s.pending
    }
}

/// Every entry names one of `n` ways.
pub open spec fn orders_in_range(orders: Seq<RelationDrawOrder>, n: int) -> bool {
    forall|k: int| 0 <= k < orders.len() ==> #[trigger] orders[k].index < n
}

/// Some entry names way `i`.
pub open spec fn names_way(orders: Seq<RelationDrawOrder>, i: int) -> bool {
    exists|k: int| 0 <= k < orders.len() && #[trigger] orders[k].index == i
}

pub open spec fn chain_ok(s: ChainState, n: int) -> bool {
    &&& orders_in_range(s.pending, n)
    &&& orders_in_range(s.done, n)
    &&& s.pending.len() > 0
    &&& names_way(s.done + s.pending, 0)
}

proof fn lemma_step_ok(ways: Seq<WayView>, s: ChainState, i: int)
    requires
        chain_ok(s, ways.len() as int),
        1 <= i < ways.len(),
    ensures
        chain_ok(chain_step(ways, s, i), ways.len() as int),
{
    let n = ways.len() as int;
    let t = chain_step(ways, s, i);
    let k = choose|k: int| 0 <= k < (s.done + s.pending).len() && #[trigger] (s.done + s.pending)[k].index == 0;
    let w = ways[i];
    if s.inserted.contains(w.id) {
    } else if s.last == start_of(w) {
        assert(t.pending.subrange(0, s.pending.len() as int) =~= s.pending);
        lemma_push_back_ok(s, t, k, n);
    } else if s.first == end_of(w) {
        lemma_push_front_ok(s, t, k, n);
    } else if s.last == end_of(w) {
        assert(t.pending.subrange(0, s.pending.len() as int) =~= s.pending);
        lemma_push_back_ok(s, t, k, n);
    } else if s.first == start_of(w) {
        lemma_push_front_ok(s, t, k, n);
    } else if s.first == s.last {
        assert((t.done + t.pending)[k] == (s.done + s.pending)[k]);
        assert forall|j: int| 0 <= j < t.done.len() implies #[trigger] t.done[j].index < n by {
            if j >= s.done.len() {
                assert(t.done[j] == s.pending[j - s.done.len()]);
            }
        }
    } else {
    }
}

proof fn lemma_push_back_ok(s: ChainState, t: ChainState, k: int, n: int)
    requires
        chain_ok(s, n),
        0 <= k < (s.done + s.pending).len(),
        (s.done + s.pending)[k].index == 0,
        t.done == s.done,
        t.pending.len() == s.pending.len() + 1,
        t.pending.subrange(0, s.pending.len() as int) == s.pending,
        t.pending.last().index < n,
    ensures
        chain_ok(t, n),
{
    assert((t.done + t.pending)[k] == (s.done + s.pending)[k]);
    assert forall|j: int| 0 <= j < t.pending.len() implies #[trigger] t.pending[j].index < n by {
        if j < s.pending.len() {
            assert(t.pending[j] == t.pending.subrange(0, s.pending.len() as int)[j]);
        }
    }
}

proof fn lemma_push_front_ok(s: ChainState, t: ChainState, k: int, n: int)
    requires
        chain_ok(s, n),
        0 <= k < (s.done + s.pending).len(),
        (s.done + s.pending)[k].index == 0,
        t.done == s.done,
        t.pending == seq![t.pending[0]] + s.pending,
        t.pending[0].index < n,
    ensures
        chain_ok(t, n),
{
    if k < s.done.len() {
        assert((t.done + t.pending)[k] == (s.done + s.pending)[k]);
    } else {
        assert((t.done + t.pending)[k + 1] == (s.done + s.pending)[k]);
    }
    assert forall|j: int| 0 <= j < t.pending.len() implies #[trigger] t.pending[j].index < n by {
        if j > 0 {
            assert(t.pending[j] == s.pending[j - 1]);
        }
    }
}

proof fn lemma_scan_ok(ways: Seq<WayView>, s: ChainState, j: int)
    requires
        chain_ok(s, ways.len() as int),
        j <= ways.len(),
    ensures
        chain_ok(chain_scan(ways, s, j), ways.len() as int),
    decreases j,
{
    if j > 1 {
        lemma_scan_ok(ways, s, j - 1);
        lemma_step_ok(ways, chain_scan(ways, s, j - 1), j - 1);
    }
}

proof fn lemma_passes_ok(ways: Seq<WayView>, s: ChainState, p: nat)
    requires
        chain_ok(s, ways.len() as int),
    ensures
        chain_ok(chain_passes(ways, s, p), ways.len() as int),
    decreases p,
{
    if p > 0 {
        lemma_passes_ok(ways, s, (p - 1) as nat);
        lemma_scan_ok(ways, chain_passes(ways, s, (p - 1) as nat), ways.len() as int);
    }
}

/// Every entry of a draw order names one of the ways; the order is empty
/// exactly when there is no way or the first way has no node, and otherwise
/// names the first way.
pub proof fn lemma_draw_order_shape(ways: Seq<WayView>)
    ensures
        orders_in_range(draw_order_of(ways), ways.len() as int),
        draw_order_of(ways).len() == 0 <==> (ways.len() == 0 || ways[0].points.len() == 0),
        draw_order_of(ways).len() > 0 ==> names_way(draw_order_of(ways), 0),
{
    if ways.len() > 0 && ways[0].points.len() > 0 {
        let s0 = initial_chain(ways);
        assert((s0.done + s0.pending)[0].index == 0);
        lemma_passes_ok(ways, s0, ways.len());
        let s = chain_passes(ways, s0, ways.len());
        assert forall|k: int| 0 <= k < (s.done + s.pending).len() implies #[trigger] (s.done + s.pending)[k].index < ways.len() by {
            if k < s.done.len() {
                assert((s.done + s.pending)[k] == s.done[k]);
            } else {
                assert((s.done + s.pending)[k] == s.pending[k - s.done.len()]);
            }
        }
    }
}

/// Ways already laid end to start, one after the other.
pub open spec fn laid_end_to_start(ways: Seq<WayView>) -> bool {
    &&& ways.len() > 0
    &&& forall|i: int| 0 <= i < ways.len() ==> #[trigger] ways[i].points.len() > 0
    &&& forall|i: int| 1 <= i < ways.len() ==> #[trigger] start_of(ways[i]) == end_of(ways[i - 1])
    &&& forall|i: int, j: int|
        1 <= i < ways.len() && 1 <= j < ways.len() && i != j ==> #[trigger] ways[i].id != #[trigger] ways[j].id
}

/// The draw order that keeps every way where it is and flips none.
pub open spec fn identity_order(n: int) -> Seq<RelationDrawOrder> {
    Seq::new(n as nat, |k: int| entry(k, false))
}

/// The state after the first pass has appended the ways `1 .. j` in order.
pub open spec fn straight_chain(ways: Seq<WayView>, j: int) -> ChainState {
    ChainState {
        first: start_of(ways[0]),
        last: end_of(ways[j - 1]),
        prev_reversed: false,
        inserted: Seq::new((j - 1) as nat, |k: int| ways[k + 1].id),
        pending: identity_order(j),
        done: seq![],
    }
}

proof fn lemma_first_pass_straight(ways: Seq<WayView>, j: int)
    requires
        laid_end_to_start(ways),
        1 <= j <= ways.len(),
    ensures
        chain_scan(ways, initial_chain(ways), j) == straight_chain(ways, j),
    decreases j,
{
    if j == 1 {
        assert(initial_chain(ways).inserted =~= straight_chain(ways, 1).inserted);
        assert(initial_chain(ways).pending =~= straight_chain(ways, 1).pending);
    } else {
        lemma_first_pass_straight(ways, j - 1);
        let s = straight_chain(ways, j - 1);
        let w = ways[j - 1];
        assert(!s.inserted.contains(w.id)) by {
            if s.inserted.contains(w.id) {
                let k = choose|k: int| 0 <= k < s.inserted.len() && s.inserted[k] == w.id;
                assert(ways[k + 1].id == ways[j - 1].id);
            }
        }
        assert(start_of(ways[j - 1]) == end_of(ways[j - 2]));
        let t = chain_step(ways, s, j - 1);
        assert(t.inserted =~= straight_chain(ways, j).inserted);
        assert(t.pending =~= straight_chain(ways, j).pending);
    }
}

proof fn lemma_later_passes_idle(ways: Seq<WayView>, j: int)
    requires
        laid_end_to_start(ways),
        1 <= j <= ways.len(),
    ensures
        chain_scan(ways, straight_chain(ways, ways.len() as int), j) == straight_chain(
            ways,
            ways.len() as int,
        ),
    decreases j,
{
    if j > 1 {
        lemma_later_passes_idle(ways, j - 1);
        let s = straight_chain(ways, ways.len() as int);
        assert(s.inserted[j - 2] == ways[j - 1].id);
        assert(s.inserted.contains(ways[j - 1].id));
    }
}

proof fn lemma_passes_straight(ways: Seq<WayView>, p: nat)
    requires
        laid_end_to_start(ways),
        1 <= p,
    ensures
        chain_passes(ways, initial_chain(ways), p) == straight_chain(ways, ways.len() as int),
    decreases p,
{
    if p == 1 {
        lemma_first_pass_straight(ways, ways.len() as int);
    } else {
        lemma_passes_straight(ways, (p - 1) as nat);
        lemma_later_passes_idle(ways, ways.len() as int);
    }
}

/// Outer ways that already run end to start, with distinct ids, are drawn
/// as given: in their own order, none of them flipped.
pub proof fn lemma_chained_ways_keep_their_order(ways: Seq<WayView>)
    requires
        laid_end_to_start(ways),
    ensures
        draw_order_of(ways) == identity_order(ways.len() as int),
{
    lemma_passes_straight(ways, ways.len());
    assert(draw_order_of(ways) =~= identity_order(ways.len() as int));
}

/// Way `w` runs between nodes `p` and `q`, in one direction or the other.
pub open spec fn joins(w: WayView, p: NodeView, q: NodeView) -> bool {
    &&& w.points.len() > 0
    &&& (start_of(w) == p && end_of(w) == q) || (start_of(w) == q && end_of(w) == p)
}

/// Way `i` lies somewhere along the path.
pub open spec fn lies_on_path(at: Seq<int>, i: int) -> bool {
    exists|k: int| 0 <= k < at.len() && #[trigger] at[k] == i
}

/// The ways lie along one simple path, in some order: `nodes` are the
/// path's nodes, all different, and `at[k]` is the way that runs between
/// `nodes[k]` and `nodes[k + 1]` (either way round). Every way lies on the
/// path exactly once, and no two ways share an id.
pub open spec fn forms_simple_chain(ways: Seq<WayView>, nodes: Seq<NodeView>, at: Seq<int>) -> bool {
    &&& 0 < ways.len() <= usize::MAX
    &&& at.len() == ways.len()
    &&& nodes.len() == ways.len() + 1
    &&& forall|k1: int, k2: int|
        0 <= k1 < nodes.len() && 0 <= k2 < nodes.len() && k1 != k2 ==> #[trigger] nodes[k1]
            != #[trigger] nodes[k2]
    &&& forall|k: int| 0 <= k < at.len() ==> 0 <= #[trigger] at[k] < ways.len()
    &&& forall|k1: int, k2: int|
        0 <= k1 < at.len() && 0 <= k2 < at.len() && k1 != k2 ==> #[trigger] at[k1] != #[trigger] at[k2]
    &&& forall|i: int| 0 <= i < ways.len() ==> #[trigger] lies_on_path(at, i)
    &&& forall|k: int| 0 <= k < at.len() ==> joins(ways[#[trigger] at[k]], nodes[k], nodes[k + 1])
    &&& forall|i: int, j: int|
        0 <= i < ways.len() && 0 <= j < ways.len() && i != j ==> #[trigger] ways[i].id != #[trigger] ways[j].id
}

/// The chain being built covers the stretch `a .. b` of the path (which
/// holds the first way, at `p0`): its open ends are the stretch's end nodes,
/// the ids placed are those of the stretch's ways, and every way of the
/// stretch is named in the chain.
pub open spec fn covers(
    ways: Seq<WayView>,
    nodes: Seq<NodeView>,
    at: Seq<int>,
    p0: int,
    s: ChainState,
    a: int,
    b: int,
) -> bool {
    &&& 0 <= a <= p0 < b <= ways.len()
    &&& (s.first == nodes[a] && s.last == nodes[b]) || (s.first == nodes[b] && s.last == nodes[a])
    &&& forall|k: int| a <= k < b && at[k] != 0 ==> s.inserted.contains(#[trigger] ways[at[k]].id)
    &&& forall|x: i64|
        #[trigger] s.inserted.contains(x) ==> exists|k: int|
            a <= k < b && at[k] != 0 && #[trigger] ways[at[k]].id == x
    &&& forall|k: int| a <= k < b ==> names_way(s.pending, #[trigger] at[k])
    &&& s.done.len() == 0
    &&& s.pending.len() == b - a
    &&& count_against(ways, nodes, at, p0, a, b) + (if s.prev_reversed {
        1int
    } else {
        0int
    }) == 2 * flipped_count(s.pending)
    &&& forall|m: int|
        0 <= m < s.pending.len() ==> #[trigger] s.pending[m].index == if s.first == nodes[a] {
            at[a + m]
        } else {
            at[b - 1 - m]
        }
    &&& (s.first == nodes[a]) == runs_along(ways, nodes, at, p0)
    &&& (forall|k: int| a <= k < b ==> #[trigger] runs_along(ways, nodes, at, k) == runs_along(ways, nodes, at, p0))
        ==> !s.prev_reversed
    &&& (exists|k: int| a <= k < b && #[trigger] runs_along(ways, nodes, at, k) != runs_along(ways, nodes, at, p0))
        ==> exists|m: int| 0 <= m < s.pending.len() && #[trigger] s.pending[m].is_reversed
    &&& forall|m: int, k: int|
        #![trigger s.pending[m], at[k]]
        0 <= m < s.pending.len() && 0 <= k < at.len() && s.pending[m].index == at[k]
            && s.pending[m].is_reversed ==> runs_along(ways, nodes, at, k) != runs_along(
            ways,
            nodes,
            at,
            p0,
        )
}

/// The way at position `k` starts at the path's earlier node.
pub open spec fn runs_along(ways: Seq<WayView>, nodes: Seq<NodeView>, at: Seq<int>, k: int) -> bool {
    start_of(ways[at[k]]) == nodes[k]
}

/// How many entries of a draw order are drawn flipped.
#[verifier::opaque]
pub open spec fn flipped_count(orders: Seq<RelationDrawOrder>) -> nat
    decreases orders.len(),
{
    if orders.len() == 0 {
        0
    } else {
        flipped_count(orders.drop_last()) + if orders.last().is_reversed {
            1nat
        } else {
            0nat
        }
    }
}

/// How many of the ways at positions `lo .. hi` of the path run along it the
/// other way round than the way at position `p0`.
#[verifier::opaque]
pub open spec fn count_against(
    ways: Seq<WayView>,
    nodes: Seq<NodeView>,
    at: Seq<int>,
    p0: int,
    lo: int,
    hi: int,
) -> nat
    decreases hi - lo,
{
    if hi <= lo {
        0
    } else {
        count_against(ways, nodes, at, p0, lo, hi - 1) + if runs_along(ways, nodes, at, hi - 1)
            != runs_along(ways, nodes, at, p0) {
            1nat
        } else {
            0nat
        }
    }
}

proof fn lemma_flipped_count_front(e: RelationDrawOrder, orders: Seq<RelationDrawOrder>)
    ensures
        flipped_count(seq![e] + orders) == flipped_count(orders) + if e.is_reversed {
            1nat
        } else {
            0nat
        },
    decreases orders.len(),
{
    reveal(flipped_count);
    let f = seq![e] + orders;
    if orders.len() == 0 {
        assert(f.drop_last() =~= Seq::<RelationDrawOrder>::empty());
        assert(f.last() == e);
        assert(flipped_count(Seq::<RelationDrawOrder>::empty()) == 0);
        assert(flipped_count(f) == flipped_count(f.drop_last()) + if f.last().is_reversed {
            1nat
        } else {
            0nat
        });
    } else {
        lemma_flipped_count_front(e, orders.drop_last());
        assert(f.drop_last() =~= seq![e] + orders.drop_last());
        assert(f.last() == orders.last());
        assert(flipped_count(f) == flipped_count(f.drop_last()) + if f.last().is_reversed {
            1nat
        } else {
            0nat
        });
        assert(flipped_count(orders) == flipped_count(orders.drop_last()) + if orders.last().is_reversed {
            1nat
        } else {
            0nat
        });
    }
}

proof fn lemma_count_against_front(
    ways: Seq<WayView>,
    nodes: Seq<NodeView>,
    at: Seq<int>,
    p0: int,
    lo: int,
    hi: int,
)
    requires
        lo < hi,
    ensures
        count_against(ways, nodes, at, p0, lo, hi) == count_against(ways, nodes, at, p0, lo + 1, hi)
            + if runs_along(ways, nodes, at, lo) != runs_along(ways, nodes, at, p0) {
            1nat
        } else {
            0nat
        },
    decreases hi - lo,
{
    reveal(count_against);
    if hi - 1 > lo {
        lemma_count_against_front(ways, nodes, at, p0, lo, hi - 1);
    } else {
        assert(count_against(ways, nodes, at, p0, lo, lo) == 0);
        assert(count_against(ways, nodes, at, p0, lo + 1, hi) == 0);
    }
}

/// Placing one more way keeps the flipped entries at half the ways placed
/// against the first way, rounded up: every way placed against it toggles
/// the flag the next such way gets.
proof fn lemma_flip_count_grows(
    ways: Seq<WayView>,
    nodes: Seq<NodeView>,
    at: Seq<int>,
    p0: int,
    s: ChainState,
    t: ChainState,
    a: int,
    b: int,
    a2: int,
    b2: int,
    k: int,
    e: RelationDrawOrder,
    against: bool,
)
    requires
        a < b,
        count_against(ways, nodes, at, p0, a, b) + (if s.prev_reversed {
            1int
        } else {
            0int
        }) == 2 * flipped_count(s.pending),
        (k == b && a2 == a && b2 == b + 1) || (k == a - 1 && a2 == a - 1 && b2 == b),
        against == (runs_along(ways, nodes, at, k) != runs_along(ways, nodes, at, p0)),
        against ==> e.is_reversed == !s.prev_reversed && t.prev_reversed == e.is_reversed,
        !against ==> !e.is_reversed && t.prev_reversed == s.prev_reversed,
        t.pending == s.pending.push(e) || t.pending == seq![e] + s.pending,
    ensures
        count_against(ways, nodes, at, p0, a2, b2) + (if t.prev_reversed {
            1int
        } else {
            0int
        }) == 2 * flipped_count(t.pending),
{
    reveal(count_against);
    reveal(flipped_count);
    let c = count_against(ways, nodes, at, p0, a, b);
    let d: nat = if against {
        1
    } else {
        0
    };
    if k == b {
        assert(count_against(ways, nodes, at, p0, a2, b2) == c + d);
    } else {
        lemma_count_against_front(ways, nodes, at, p0, a - 1, b);
        assert(count_against(ways, nodes, at, p0, a2, b2) == c + d);
    }
    if t.pending == s.pending.push(e) {
        assert(t.pending.drop_last() =~= s.pending);
        assert(flipped_count(t.pending) == flipped_count(s.pending) + if e.is_reversed {
            1nat
        } else {
            0nat
        });
    } else {
        lemma_flipped_count_front(e, s.pending);
    }
}

proof fn lemma_names_push_back(orders: Seq<RelationDrawOrder>, e: RelationDrawOrder, i: int)
    requires
        names_way(orders, i),
    ensures
        names_way(orders.push(e), i),
{
    let k = choose|k: int| 0 <= k < orders.len() && #[trigger] orders[k].index == i;
    assert(orders.push(e)[k] == orders[k]);
}

proof fn lemma_names_push_front(orders: Seq<RelationDrawOrder>, e: RelationDrawOrder, i: int)
    requires
        names_way(orders, i),
    ensures
        names_way(seq![e] + orders, i),
{
    let k = choose|k: int| 0 <= k < orders.len() && #[trigger] orders[k].index == i;
    assert((seq![e] + orders)[k + 1] == orders[k]);
}

/// Placing a way at the end of the chain it joins keeps the chain's entries
/// in path order, read from the chain's first node.
proof fn lemma_path_order_grows(
    nodes: Seq<NodeView>,
    at: Seq<int>,
    s: ChainState,
    t: ChainState,
    a: int,
    b: int,
    a2: int,
    b2: int,
    k: int,
    e: RelationDrawOrder,
)
    requires
        s.pending.len() == b - a,
        forall|m: int|
            0 <= m < s.pending.len() ==> #[trigger] s.pending[m].index == if s.first == nodes[a] {
                at[a + m]
            } else {
                at[b - 1 - m]
            },
        (k == b && a2 == a && b2 == b + 1) || (k == a - 1 && a2 == a - 1 && b2 == b),
        (t.first == nodes[a2]) == (s.first == nodes[a]),
        e.index == at[k],
        ((k == b) == (s.first == nodes[a])) ==> t.pending == s.pending.push(e),
        ((k == b) != (s.first == nodes[a])) ==> t.pending == seq![e] + s.pending,
    ensures
        forall|m: int|
            0 <= m < t.pending.len() ==> #[trigger] t.pending[m].index == if t.first == nodes[a2] {
                at[a2 + m]
            } else {
                at[b2 - 1 - m]
            },
{
    assert forall|m: int| 0 <= m < t.pending.len() implies #[trigger] t.pending[m].index == if t.first
        == nodes[a2] {
        at[a2 + m]
    } else {
        at[b2 - 1 - m]
    } by {
        if t.pending == s.pending.push(e) {
            if m < s.pending.len() {
                assert(t.pending[m] == s.pending[m]);
            } else {
                assert(t.pending[m] == e);
            }
        } else {
            if m == 0 {
                assert(t.pending[m] == e);
            } else {
                assert(t.pending[m] == s.pending[m - 1]);
            }
        }
    }
}

/// Placing the way at position `k`, right next to the stretch, grows the
/// stretch to `a2 .. b2`.
#[verifier::rlimit(40)]
proof fn lemma_cover_grows(
    ways: Seq<WayView>,
    nodes: Seq<NodeView>,
    at: Seq<int>,
    p0: int,
    s: ChainState,
    t: ChainState,
    a: int,
    b: int,
    a2: int,
    b2: int,
    k: int,
    e: RelationDrawOrder,
    against: bool,
)
    requires
        forms_simple_chain(ways, nodes, at),
        at[p0] == 0,
        covers(ways, nodes, at, p0, s, a, b),
        (k == b && b < ways.len() && a2 == a && b2 == b + 1) || (k == a - 1 && a > 0 && a2 == a - 1
            && b2 == b),
        (t.first == nodes[a2] && t.last == nodes[b2]) || (t.first == nodes[b2] && t.last
            == nodes[a2]),
        (t.first == nodes[a2]) == (s.first == nodes[a]),
        t.inserted == s.inserted.push(ways[at[k]].id),
        t.done == s.done,
        e.index == at[k],
        against == (runs_along(ways, nodes, at, k) != runs_along(ways, nodes, at, p0)),
        against ==> e.is_reversed == !s.prev_reversed && t.prev_reversed == e.is_reversed,
        !against ==> !e.is_reversed && t.prev_reversed == s.prev_reversed,
        ((k == b) == (s.first == nodes[a])) ==> t.pending == s.pending.push(e),
        ((k == b) != (s.first == nodes[a])) ==> t.pending == seq![e] + s.pending,
    ensures
        covers(ways, nodes, at, p0, t, a2, b2),
{
    let n = ways.len() as int;
    assert(0 <= at[k] < n);
    assert(at[k] != 0) by {
        assert(k != p0);
    }
    assert(k != p0);
    lemma_path_order_grows(nodes, at, s, t, a, b, a2, b2, k, e);
    lemma_flip_count_grows(ways, nodes, at, p0, s, t, a, b, a2, b2, k, e, against);
    assert forall|m: int| a2 <= m < b2 implies names_way(t.pending, #[trigger] at[m]) by {
        if m == k {
            if t.pending == s.pending.push(e) {
                assert(t.pending[t.pending.len() - 1].index == at[k]);
            } else {
                assert(t.pending[0].index == at[k]);
            }
        } else {
            assert(names_way(s.pending, at[m]));
            if t.pending == s.pending.push(e) {
                lemma_names_push_back(s.pending, e, at[m]);
            } else {
                lemma_names_push_front(s.pending, e, at[m]);
            }
        }
    }
    assert forall|m: int, j: int|
        #![trigger t.pending[m], at[j]]
        0 <= m < t.pending.len() && 0 <= j < at.len() && t.pending[m].index == at[j]
            && t.pending[m].is_reversed implies runs_along(ways, nodes, at, j) != runs_along(
        ways,
        nodes,
        at,
        p0,
    ) by {
        if t.pending == s.pending.push(e) {
            if m == s.pending.len() {
                assert(t.pending[m] == e);
                assert(at[j] == at[k]);
            } else {
                assert(t.pending[m] == s.pending[m]);
            }
        } else {
            if m == 0 {
                assert(t.pending[m] == e);
                assert(at[j] == at[k]);
            } else {
                assert(t.pending[m] == s.pending[m - 1]);
            }
        }
    }
    if exists|j: int| a2 <= j < b2 && #[trigger] runs_along(ways, nodes, at, j) != runs_along(ways, nodes, at, p0) {
        if exists|j: int| a <= j < b && #[trigger] runs_along(ways, nodes, at, j) != runs_along(ways, nodes, at, p0) {
            let m = choose|m: int| 0 <= m < s.pending.len() && #[trigger] s.pending[m].is_reversed;
            if t.pending == s.pending.push(e) {
                assert(t.pending[m] == s.pending[m]);
            } else {
                assert(t.pending[m + 1] == s.pending[m]);
            }
        } else {
            let j = choose|j: int| a2 <= j < b2 && #[trigger] runs_along(ways, nodes, at, j) != runs_along(ways, nodes, at, p0);
            assert(j == k);
            assert(!s.prev_reversed);
            if t.pending == s.pending.push(e) {
                assert(t.pending[t.pending.len() - 1] == e);
            } else {
                assert(t.pending[0] == e);
            }
        }
    }
    assert forall|m: int| a2 <= m < b2 && at[m] != 0 implies t.inserted.contains(#[trigger] ways[at[m]].id) by {
        if m == k {
            assert(t.inserted[t.inserted.len() - 1] == ways[at[k]].id);
        } else {
            assert(s.inserted.contains(ways[at[m]].id));
            let j = choose|j: int| 0 <= j < s.inserted.len() && s.inserted[j] == ways[at[m]].id;
            assert(t.inserted[j] == ways[at[m]].id);
        }
    }
    assert forall|x: i64| #[trigger] t.inserted.contains(x) implies exists|m: int|
        a2 <= m < b2 && at[m] != 0 && #[trigger] ways[at[m]].id == x by {
        let j = choose|j: int| 0 <= j < t.inserted.len() && t.inserted[j] == x;
        if j == t.inserted.len() - 1 {
            assert(a2 <= k < b2 && at[k] != 0 && ways[at[k]].id == x);
        } else {
            assert(s.inserted[j] == x);
            assert(s.inserted.contains(x));
        }
    }
}

/// One look at way `i` keeps the chain covering a stretch, and grows the
/// stretch when way `i` lies right next to it.
proof fn lemma_step_cover(
    ways: Seq<WayView>,
    nodes: Seq<NodeView>,
    at: Seq<int>,
    p0: int,
    s: ChainState,
    a: int,
    b: int,
    i: int,
) -> (r: (int, int))
    requires
        forms_simple_chain(ways, nodes, at),
        0 <= p0 < ways.len(),
        at[p0] == 0,
        covers(ways, nodes, at, p0, s, a, b),
        1 <= i < ways.len(),
    ensures
        covers(ways, nodes, at, p0, chain_step(ways, s, i), r.0, r.1),
        r.0 <= a,
        r.1 >= b,
        b < ways.len() && at[b] == i ==> r.1 == b + 1,
        a > 0 && at[a - 1] == i ==> r.0 == a - 1,
{
    let n = ways.len() as int;
    assert(lies_on_path(at, i));
    let k = choose|k: int| 0 <= k < at.len() && #[trigger] at[k] == i;
    assert(forall|m: int| 0 <= m < n && at[m] == i ==> m == k);
    let w = ways[i];
    assert(joins(ways[at[k]], nodes[k], nodes[k + 1]));
    let t = chain_step(ways, s, i);
    assert(nodes[a] != nodes[b]);
    if a <= k < b {
        assert(s.inserted.contains(ways[at[k]].id));
        assert(t == s);
        (a, b)
    } else {
        assert(!s.inserted.contains(w.id)) by {
            if s.inserted.contains(w.id) {
                let m = choose|m: int| a <= m < b && at[m] != 0 && #[trigger] ways[at[m]].id == w.id;
                assert(at[m] == i);
            }
        }
        let cs = start_of(w);
        let ce = end_of(w);
        assert(i as usize == at[k]);
        let plain = entry(i, false);
        let flipped = entry(i, !s.prev_reversed);
        if k == b {
            assert(nodes[a] != nodes[b + 1]);
            if s.first == nodes[a] {
                if cs == nodes[b] {
                    assert(t.last == nodes[b + 1]);
                    lemma_cover_grows(ways, nodes, at, p0, s, t, a, b, a, b + 1, k, plain, false);
                } else {
                    assert(s.last != cs);
                    assert(s.first != ce);
                    assert(cs == nodes[b + 1]);
                    lemma_cover_grows(ways, nodes, at, p0, s, t, a, b, a, b + 1, k, flipped, true);
                }
            } else {
                if cs == nodes[b] {
                    assert(s.last != cs);
                    assert(s.first != ce);
                    assert(s.last != ce);
                    lemma_cover_grows(ways, nodes, at, p0, s, t, a, b, a, b + 1, k, flipped, true);
                } else {
                    assert(s.last != cs);
                    lemma_cover_grows(ways, nodes, at, p0, s, t, a, b, a, b + 1, k, plain, false);
                }
            }
            (a, b + 1)
        } else if k == a - 1 {
            assert(nodes[a - 1] != nodes[b]);
            if s.first == nodes[a] {
                if cs == nodes[a - 1] {
                    assert(s.last != cs);
                    lemma_cover_grows(ways, nodes, at, p0, s, t, a, b, a - 1, b, k, plain, false);
                } else {
                    assert(s.last != cs);
                    assert(s.first != ce);
                    assert(s.last != ce);
                    assert(cs == nodes[a]);
                    lemma_cover_grows(ways, nodes, at, p0, s, t, a, b, a - 1, b, k, flipped, true);
                }
            } else {
                if cs == nodes[a - 1] {
                    assert(s.last != cs);
                    assert(s.first != ce);
                    lemma_cover_grows(ways, nodes, at, p0, s, t, a, b, a - 1, b, k, flipped, true);
                } else {
                    lemma_cover_grows(ways, nodes, at, p0, s, t, a, b, a - 1, b, k, plain, false);
                }
            }
            (a - 1, b)
        } else {
            assert(cs != nodes[a] && cs != nodes[b] && ce != nodes[a] && ce != nodes[b]) by {
                assert(nodes[k] != nodes[a] && nodes[k] != nodes[b]);
                assert(nodes[k + 1] != nodes[a] && nodes[k + 1] != nodes[b]);
            }
            assert(t == s);
            (a, b)
        }
    }
}

/// Looking at the ways `1 .. j` keeps the chain covering a stretch, and
/// grows it past either end whose next way was looked at.
proof fn lemma_scan_cover(
    ways: Seq<WayView>,
    nodes: Seq<NodeView>,
    at: Seq<int>,
    p0: int,
    s: ChainState,
    a: int,
    b: int,
    j: int,
) -> (r: (int, int))
    requires
        forms_simple_chain(ways, nodes, at),
        0 <= p0 < ways.len(),
        at[p0] == 0,
        covers(ways, nodes, at, p0, s, a, b),
        1 <= j <= ways.len(),
    ensures
        covers(ways, nodes, at, p0, chain_scan(ways, s, j), r.0, r.1),
        r.0 <= a,
        r.1 >= b,
        b < ways.len() && 1 <= at[b] < j ==> r.1 > b,
        a > 0 && 1 <= at[a - 1] < j ==> r.0 < a,
    decreases j,
{
    if j <= 1 {
        (a, b)
    } else {
        let r1 = lemma_scan_cover(ways, nodes, at, p0, s, a, b, j - 1);
        let r2 = lemma_step_cover(ways, nodes, at, p0, chain_scan(ways, s, j - 1), r1.0, r1.1, j - 1);
        r2
    }
}

/// After `p` passes the chain covers a stretch of at least `p + 1` ways
/// (or all of them).
proof fn lemma_passes_cover(
    ways: Seq<WayView>,
    nodes: Seq<NodeView>,
    at: Seq<int>,
    p0: int,
    p: nat,
) -> (r: (int, int))
    requires
        forms_simple_chain(ways, nodes, at),
        0 <= p0 < ways.len(),
        at[p0] == 0,
    ensures
        covers(ways, nodes, at, p0, chain_passes(ways, initial_chain(ways), p), r.0, r.1),
        r.1 - r.0 >= if p + 1 < ways.len() { p + 1 as int } else { ways.len() as int },
    decreases p,
{
    let n = ways.len() as int;
    if p == 0 {
        let s0 = initial_chain(ways);
        assert(joins(ways[at[p0]], nodes[p0], nodes[p0 + 1]));
        reveal(count_against);
        reveal(flipped_count);
        assert(count_against(ways, nodes, at, p0, p0, p0) == 0);
        assert(count_against(ways, nodes, at, p0, p0, p0 + 1) == 0);
        assert(s0.pending.drop_last() =~= Seq::<RelationDrawOrder>::empty());
        assert(flipped_count(Seq::<RelationDrawOrder>::empty()) == 0);
        assert(flipped_count(s0.pending) == 0);
        assert(names_way(s0.pending, 0)) by {
            assert(s0.pending[0].index == 0);
        }
        assert forall|x: i64| #[trigger] s0.inserted.contains(x) implies exists|k: int|
            p0 <= k < p0 + 1 && at[k] != 0 && #[trigger] ways[at[k]].id == x by {
            assert(s0.inserted.len() == 0);
        }
        (p0, p0 + 1)
    } else {
        let r1 = lemma_passes_cover(ways, nodes, at, p0, (p - 1) as nat);
        let prev = chain_passes(ways, initial_chain(ways), (p - 1) as nat);
        let r2 = lemma_scan_cover(ways, nodes, at, p0, prev, r1.0, r1.1, n);
        if r1.1 - r1.0 < n {
            if r1.1 < n {
                assert(at[r1.1] != 0) by {
                    assert(r1.1 != p0);
                }
                assert(0 <= at[r1.1] < n);
            } else {
                assert(r1.0 > 0);
                assert(at[r1.0 - 1] != 0) by {
                    assert(r1.0 - 1 != p0);
                }
                assert(0 <= at[r1.0 - 1] < n);
            }
        }
        r2
    }
}

/// When the outer ways lie along one simple path with distinct ids, the
/// draw order names every one of them: however the ways are listed, each
/// pass joins at least one more way to an open end of the chain, and names
/// each way once, in the order the ways lie along the path, from one of its
/// ends to the other. A way drawn flipped runs along the path the other way
/// round than the first way, and when some way does, some way is drawn flipped:
/// each way placed against the first way toggles the flag, so of the ways
/// running against it, half (rounded up) are drawn flipped.
pub proof fn lemma_connected_chain_names_every_way(
    ways: Seq<WayView>,
    nodes: Seq<NodeView>,
    at: Seq<int>,
)
    requires
        forms_simple_chain(ways, nodes, at),
    ensures
        forall|i: int| 0 <= i < ways.len() ==> names_way(draw_order_of(ways), i),
        forall|m: int, k: int, k0: int|
            #![trigger draw_order_of(ways)[m], at[k], at[k0]]
            0 <= m < draw_order_of(ways).len() && 0 <= k < at.len() && 0 <= k0 < at.len()
                && draw_order_of(ways)[m].index == at[k] && at[k0] == 0
                && draw_order_of(ways)[m].is_reversed ==> (start_of(ways[at[k]]) == nodes[k]) != (
            start_of(ways[0]) == nodes[k0]),
        draw_order_of(ways).len() == ways.len(),
        forall|k0: int|
            0 <= k0 < at.len() && #[trigger] at[k0] == 0 ==> flipped_count(draw_order_of(ways)) == (
            count_against(ways, nodes, at, k0, 0, ways.len() as int) + 1) / 2,
        (forall|m: int| 0 <= m < ways.len() ==> #[trigger] draw_order_of(ways)[m].index == at[m])
            || (forall|m: int|
            0 <= m < ways.len() ==> #[trigger] draw_order_of(ways)[m].index == at[ways.len() - 1 - m]),
        forall|k: int, k0: int|
            #![trigger at[k], at[k0]]
            0 <= k < at.len() && 0 <= k0 < at.len() && at[k0] == 0 && (start_of(ways[at[k]])
                == nodes[k]) != (start_of(ways[0]) == nodes[k0]) ==> exists|m: int|
                0 <= m < draw_order_of(ways).len() && #[trigger] draw_order_of(ways)[m].is_reversed,
{
    let n = ways.len() as int;
    assert(lies_on_path(at, 0));
    let p0 = choose|k: int| 0 <= k < at.len() && #[trigger] at[k] == 0;
    let r = lemma_passes_cover(ways, nodes, at, p0, ways.len());
    let s = chain_passes(ways, initial_chain(ways), ways.len());
    assert(joins(ways[at[p0]], nodes[p0], nodes[p0 + 1]));
    assert(ways[0].points.len() > 0);
    assert forall|i: int| 0 <= i < n implies names_way(draw_order_of(ways), i) by {
        assert(lies_on_path(at, i));
        let k = choose|k: int| 0 <= k < at.len() && #[trigger] at[k] == i;
        assert(names_way(s.pending, at[k]));
        let m = choose|m: int| 0 <= m < s.pending.len() && #[trigger] s.pending[m].index == i;
        assert((s.done + s.pending)[s.done.len() + m] == s.pending[m]);
    }
    assert(draw_order_of(ways) =~= s.pending);
    assert(r.0 == 0 && r.1 == n);
    assert forall|k0: int| 0 <= k0 < at.len() && #[trigger] at[k0] == 0 implies flipped_count(
        draw_order_of(ways),
    ) == (count_against(ways, nodes, at, k0, 0, n) + 1) / 2 by {
        assert(k0 == p0);
        let c = count_against(ways, nodes, at, p0, 0, n);
        let f = flipped_count(s.pending);
        if s.prev_reversed {
            assert(c + 1 == 2 * f);
        } else {
            assert(c == 2 * f);
        }
    }
    if s.first == nodes[0] {
        assert forall|m: int| 0 <= m < n implies #[trigger] draw_order_of(ways)[m].index == at[m] by {
            assert(s.pending[m].index == at[0 + m]);
        }
    } else {
        assert forall|m: int| 0 <= m < n implies #[trigger] draw_order_of(ways)[m].index == at[n - 1 - m] by {
            assert(s.pending[m].index == at[n - 1 - m]);
        }
    }
    assert forall|m: int, k: int, k0: int|
        #![trigger draw_order_of(ways)[m], at[k], at[k0]]
        0 <= m < draw_order_of(ways).len() && 0 <= k < at.len() && 0 <= k0 < at.len()
            && draw_order_of(ways)[m].index == at[k] && at[k0] == 0
            && draw_order_of(ways)[m].is_reversed implies (start_of(ways[at[k]]) == nodes[k]) != (
        start_of(ways[0]) == nodes[k0]) by {
        assert(k0 == p0);
        assert(s.pending[m] == draw_order_of(ways)[m]);
    }
    assert forall|k: int, k0: int|
        #![trigger at[k], at[k0]]
        0 <= k < at.len() && 0 <= k0 < at.len() && at[k0] == 0 && (start_of(ways[at[k]])
            == nodes[k]) != (start_of(ways[0]) == nodes[k0]) implies exists|m: int|
            0 <= m < draw_order_of(ways).len() && #[trigger] draw_order_of(ways)[m].is_reversed by {
        assert(k0 == p0);
        assert(runs_along(ways, nodes, at, k) != runs_along(ways, nodes, at, p0));
    }
}

fn contains_id(ids: &Vec<i64>, id: i64) -> (r: bool)
    ensures
        r == ids@.contains(id),
{
    let n = ids.len();
    for k in 0..n
        invariant
            n == ids@.len(),
            forall|j: int| 0 <= j < k ==> ids@[j] != id,
    {
        if ids[k] == id {
            return true;
        }
    }
    false
}

/// Whether [`RelationDrawOrder::from_ways`] can order these ways: there is
/// no way, or the first way has no node, or every way has a node.
pub fn orderable_ways(ways: &Vec<WayData>) -> (r: bool)
    ensures
        r == orderable(ways_view(ways@)),
{
    let n = ways.len();
    if n == 0 || ways[0].way_points.len() == 0 {
        return true;
    }
    for i in 1..n
        invariant
            n == ways@.len(),
            n > 0,
            ways@[0].way_points@.len() > 0,
            forall|j: int| 1 <= j < i ==> #[trigger] ways@[j].way_points@.len() > 0,
    {
        if ways[i].way_points.len() == 0 {
            assert(ways_view(ways@)[i as int].points.len() == 0);
            assert(ways_view(ways@)[0].points.len() > 0);
            return false;
        }
    }
    assert forall|j: int| 1 <= j < ways_view(ways@).len() implies #[trigger] ways_view(ways@)[j].points.len() > 0 by {
        assert(ways@[j].way_points@.len() > 0);
    }
    true
}

impl RelationDrawOrder {
    /// Orders the outer ways of a relation so that they can be drawn as
    /// outlines: ways that share end nodes are joined into chains, flipping a
    /// way where it runs against the chain. The result is always `Ok`.
    pub fn from_ways(ways: &Vec<WayData>) -> (r: Result<Vec<RelationDrawOrder>, String>)
        requires
            orderable(ways_view(ways@)),
        ensures
            r is Ok,
            r->Ok_0@ == draw_order_of(ways_view(ways@)),
            orders_in_range(r->Ok_0@, ways@.len() as int),
            r->Ok_0@.len() == 0 <==> (ways@.len() == 0 || ways@[0].way_points@.len() == 0),
            r->Ok_0@.len() > 0 ==> names_way(r->Ok_0@, 0),
    {
        proof {
            lemma_draw_order_shape(ways_view(ways@));
        }
        let n = ways.len();
        if n == 0 {
            return Ok(Vec::new());
        }
        let node = &ways[0];
        if node.way_points.len() == 0 {
            return Ok(Vec::new());
        }
        let mut first_node: &Node = &node.way_points[0];
        let mut last_node: &Node = &node.way_points[node.way_points.len() - 1];
        let mut prev_inversed: bool = false;
        let mut already_inserted: Vec<i64> = Vec::new();
        let mut temp_res: VecDeque<RelationDrawOrder> = VecDeque::new();
        temp_res.push_back(RelationDrawOrder { index: 0, is_reversed: false });
        let mut res: Vec<RelationDrawOrder> = Vec::new();
        let ghost wv = ways_view(ways@);
        let ghost init = initial_chain(wv);
        assert(temp_res@ =~= init.pending);
        assert(res@ =~= init.done);
        assert(already_inserted@ =~= init.inserted);

        for pass in 0..n
            invariant
                n == ways@.len(),
                n > 0,
                orderable(wv),
                ways@[0].way_points@.len() > 0,
                wv == ways_view(ways@),
                init == initial_chain(wv),
                first_node@ == chain_passes(wv, init, pass as nat).first,
                last_node@ == chain_passes(wv, init, pass as nat).last,
                prev_inversed == chain_passes(wv, init, pass as nat).prev_reversed,
                already_inserted@ == chain_passes(wv, init, pass as nat).inserted,
                temp_res@ == chain_passes(wv, init, pass as nat).pending,
                res@ == chain_passes(wv, init, pass as nat).done,
        {
            let ghost before = chain_passes(wv, init, pass as nat);
            for i in 1..n
                invariant
                    n == ways@.len(),
                    orderable(wv),
                    ways@[0].way_points@.len() > 0,
                    wv == ways_view(ways@),
                    first_node@ == chain_scan(wv, before, i as int).first,
                    last_node@ == chain_scan(wv, before, i as int).last,
                    prev_inversed == chain_scan(wv, before, i as int).prev_reversed,
                    already_inserted@ == chain_scan(wv, before, i as int).inserted,
                    temp_res@ == chain_scan(wv, before, i as int).pending,
                    res@ == chain_scan(wv, before, i as int).done,
            {
                let ghost s = chain_scan(wv, before, i as int);
                let way = &ways[i];
                assert(wv[i as int].points.len() > 0);
                assert(way.way_points@.len() > 0);
                let current_node_start: &Node = &way.way_points[0];
                let current_node_end: &Node = &way.way_points[way.way_points.len() - 1];
                if contains_id(&already_inserted, way.id) {
                } else if last_node.equals(current_node_start) {
                    // append after
                    temp_res.push_back(RelationDrawOrder { index: i, is_reversed: false });
                    last_node = current_node_end;
                    already_inserted.push(way.id);
                } else if first_node.equals(current_node_end) {
                    // append before
                    temp_res.push_front(RelationDrawOrder { index: i, is_reversed: false });
                    first_node = current_node_start;
                    already_inserted.push(way.id);
                } else if last_node.equals(current_node_end) {
                    // append after, reversed
                    let is_reversed = true ^ prev_inversed;
                    temp_res.push_back(RelationDrawOrder { index: i, is_reversed });
                    prev_inversed = is_reversed;
                    last_node = current_node_start;
                    already_inserted.push(way.id);
                } else if first_node.equals(current_node_start) {
                    // append before, reversed
                    let is_reversed = true ^ prev_inversed;
                    temp_res.push_front(RelationDrawOrder { index: i, is_reversed });
                    prev_inversed = is_reversed;
                    first_node = current_node_end;
                    already_inserted.push(way.id);
                } else {
                    let has_remaining_nodes = i < n;
                    if first_node.equals(last_node) && has_remaining_nodes {
                        let m = temp_res.len();
                        let ghost done0 = res@;
                        for k in 0..m
                            invariant
                                m == temp_res@.len(),
                                res@ == done0 + temp_res@.subrange(0, k as int),
                        {
                            res.push(temp_res[k]);
                            assert(res@ =~= done0 + temp_res@.subrange(0, k + 1));
                        }
                        assert(res@ =~= done0 + temp_res@);
                        temp_res.clear();
                        temp_res.push_back(RelationDrawOrder { index: i, is_reversed: false });
                        first_node = current_node_start;
                        last_node = current_node_end;
                    }
                }
                assert(chain_scan(wv, before, i + 1) == chain_step(wv, s, i as int));
                assert(temp_res@ =~= chain_step(wv, s, i as int).pending);
                assert(res@ =~= chain_step(wv, s, i as int).done);
                assert(already_inserted@ =~= chain_step(wv, s, i as int).inserted);
            }
        }
        let m = temp_res.len();
        let ghost done0 = res@;
        for k in 0..m
            invariant
                m == temp_res@.len(),
                res@ == done0 + temp_res@.subrange(0, k as int),
        {
            res.push(temp_res[k]);
            assert(res@ =~= done0 + temp_res@.subrange(0, k + 1));
        }
        assert(res@ =~= done0 + temp_res@);
        Ok(res)
    }
}

/// A way's nodes in drawing direction: backwards when `reversed`.
pub open spec fn oriented(points: Seq<NodeView>, reversed: bool) -> Seq<NodeView> {
    if reversed {
        points.reverse()
    } else {
        points
    }
}

/// The nodes of the ways named by `order`, one way after the other, each in
/// the direction its entry asks for.
pub open spec fn ordered_outline(area: Seq<WayView>, order: Seq<RelationDrawOrder>) -> Seq<NodeView>
    decreases order.len(),
{
    if order.len() == 0 {
        seq![]
    } else {
        let o = order.last();
        ordered_outline(area, order.drop_last()) + oriented(
            area[o.index as int].points,
            o.is_reversed,
        )
    }
}

/// The nodes of all the ways of an area, way after way.
pub open spec fn area_outline(area: Seq<WayView>) -> Seq<NodeView>
    decreases area.len(),
{
    if area.len() == 0 {
        seq![]
    } else {
        area_outline(area.drop_last()) + area.last().points
    }
}

proof fn lemma_nodes_view_push(s: Seq<Node>, x: Node)
    ensures
        nodes_view(s.push(x)) == nodes_view(s).push(x@),
{
    assert(nodes_view(s.push(x)) =~= nodes_view(s).push(x@));
}

/// Appends the nodes of `points`, forwards or backwards, to `out`.
fn push_oriented(out: &mut Vec<Node>, points: &Vec<Node>, reversed: bool)
    ensures
        nodes_view(final(out)@) == nodes_view(old(out)@) + oriented(nodes_view(points@), reversed),
{
    let ghost start = nodes_view(out@);
    let n = points.len();
    if reversed {
        let ghost rev = nodes_view(points@).reverse();
        for k in 0..n
            invariant
                n == points@.len(),
                rev == nodes_view(points@).reverse(),
                nodes_view(out@) == start + rev.subrange(0, k as int),
        {
            let ghost before = out@;
            let d = points[n - 1 - k].duplicate();
            out.push(d);
            proof {
                lemma_nodes_view_push(before, d);
                assert(rev[k as int] == d@);
                assert(start + rev.subrange(0, k + 1) =~= (start + rev.subrange(0, k as int)).push(d@));
            }
        }
        assert(rev.subrange(0, n as int) =~= rev);
    } else {
        for k in 0..n
            invariant
                n == points@.len(),
                nodes_view(out@) == start + nodes_view(points@).subrange(0, k as int),
        {
            let ghost before = out@;
            let d = points[k].duplicate();
            out.push(d);
            proof {
                lemma_nodes_view_push(before, d);
                assert(nodes_view(points@)[k as int] == d@);
                assert(start + nodes_view(points@).subrange(0, k + 1) =~= (start + nodes_view(
                    points@,
                ).subrange(0, k as int)).push(d@));
            }
        }
        assert(nodes_view(points@).subrange(0, n as int) =~= nodes_view(points@));
    }
}

/// The nodes an ordered area builder walks, before they are projected: the
/// outer ways in draw order, each flipped where its entry says so.
pub fn ordered_area_points(area: &Vec<WayData>, order: &Vec<RelationDrawOrder>) -> (r: Vec<Node>)
    requires
        orders_in_range(order@, area@.len() as int),
    ensures
        nodes_view(r@) == ordered_outline(ways_view(area@), order@),
{
    let mut r: Vec<Node> = Vec::new();
    let m = order.len();
    for k in 0..m
        invariant
            m == order@.len(),
            orders_in_range(order@, area@.len() as int),
            nodes_view(r@) == ordered_outline(ways_view(area@), order@.subrange(0, k as int)),
    {
        let draw_order = order[k];
        assert(draw_order.index < area@.len());
        let way_data = &area[draw_order.index];
        push_oriented(&mut r, &way_data.way_points, draw_order.is_reversed);
        assert(order@.subrange(0, k + 1).drop_last() =~= order@.subrange(0, k as int));
    }
    assert(order@.subrange(0, m as int) =~= order@);
    r
}

/// The nodes an area builder walks, before they are projected: every way of
/// the area in turn, each in its own direction.
pub fn area_points(area: &Vec<WayData>) -> (r: Vec<Node>)
    ensures
        nodes_view(r@) == area_outline(ways_view(area@)),
{
    let mut r: Vec<Node> = Vec::new();
    let m = area.len();
    for k in 0..m
        invariant
            m == area@.len(),
            nodes_view(r@) == area_outline(ways_view(area@.subrange(0, k as int))),
    {
        push_oriented(&mut r, &area[k].way_points, false);
        assert(ways_view(area@.subrange(0, k + 1)).drop_last() =~= ways_view(area@.subrange(0, k as int)));
    }
    assert(area@.subrange(0, m as int) =~= area@);
    r
}

/// A relation's draw order can always be walked: every entry it holds names
/// one of the outer ways it was computed from.
pub proof fn lemma_draw_order_walkable(ways: Seq<WayView>)
    ensures
        orders_in_range(draw_order_of(ways), ways.len() as int),
{
    lemma_draw_order_shape(ways);
}

/// Walking a draw order entry by entry: the outline of two orders one after
/// the other is the outline of the first followed by that of the second.
pub proof fn lemma_ordered_outline_concat(area: Seq<WayView>, o1: Seq<RelationDrawOrder>, o2: Seq<RelationDrawOrder>)
    ensures
        ordered_outline(area, o1 + o2) == ordered_outline(area, o1) + ordered_outline(area, o2),
    decreases o2.len(),
{
    if o2.len() == 0 {
        assert(o1 + o2 =~= o1);
    } else {
        lemma_ordered_outline_concat(area, o1, o2.drop_last());
        assert((o1 + o2).drop_last() =~= o1 + o2.drop_last());
        assert((o1 + o2).last() == o2.last());
    }
}

/// One entry draws its way's nodes, in their own order or, when flipped,
/// from the last node to the first.
pub proof fn lemma_ordered_outline_single(area: Seq<WayView>, o: RelationDrawOrder)
    ensures
        ordered_outline(area, seq![o]).len() == area[o.index as int].points.len(),
        forall|j: int|
            0 <= j < area[o.index as int].points.len() ==> #[trigger] ordered_outline(area, seq![o])[j]
                == if o.is_reversed {
                area[o.index as int].points[area[o.index as int].points.len() - 1 - j]
            } else {
                area[o.index as int].points[j]
            },
{
    let pts = area[o.index as int].points;
    assert(seq![o].drop_last() =~= Seq::<RelationDrawOrder>::empty());
    assert(seq![o].last() == o);
    assert(ordered_outline(area, Seq::<RelationDrawOrder>::empty()) == Seq::<NodeView>::empty());
    assert(Seq::<NodeView>::empty() + oriented(pts, o.is_reversed) =~= oriented(pts, o.is_reversed));
    assert(ordered_outline(area, seq![o]) == oriented(pts, o.is_reversed));
}

/// An area's outline is its ways' nodes, way after way.
pub proof fn lemma_area_outline_concat(a1: Seq<WayView>, a2: Seq<WayView>)
    ensures
        area_outline(a1 + a2) == area_outline(a1) + area_outline(a2),
        area_outline(seq![]) == Seq::<NodeView>::empty(),
    decreases a2.len(),
{
    if a2.len() == 0 {
        assert(a1 + a2 =~= a1);
    } else {
        lemma_area_outline_concat(a1, a2.drop_last());
        assert((a1 + a2).drop_last() =~= a1 + a2.drop_last());
        assert((a1 + a2).last() == a2.last());
    }
}

/// A single way's outline is its nodes.
pub proof fn lemma_area_outline_single(w: WayView)
    ensures
        area_outline(seq![w]) == w.points,
{
    assert(seq![w].drop_last() =~= Seq::<WayView>::empty());
    assert(seq![w].last() == w);
    assert(area_outline(Seq::<WayView>::empty()) == Seq::<NodeView>::empty());
    assert(Seq::<NodeView>::empty() + w.points =~= w.points);
    assert(area_outline(seq![w]) == w.points);
}

} // verus!
