use vstd::prelude::*;
use vstd::seq_lib::*;
use rand::seq::SliceRandom;

verus! {

/// The node identifiers `0..n` in increasing order.
pub open spec fn all_ids(n: nat) -> Seq<usize> {
    Seq::new(n, |i: int| i as usize)
}

/// `groups` splits the nodes `0..n` into groups: every identifier in a group
/// is a node, no identifier occurs twice (in one group or across groups),
/// and every node occurs in some group.
pub open spec fn is_partition_of(groups: Seq<Seq<usize>>, n: nat) -> bool {
    &&& forall|g: int, i: int|
        0 <= g < groups.len() && 0 <= i < groups[g].len() ==> #[trigger] groups[g][i] < n
    &&& forall|g1: int, i1: int, g2: int, i2: int|
        0 <= g1 < groups.len() && 0 <= i1 < groups[g1].len() && 0 <= g2 < groups.len() && 0
            <= i2 < groups[g2].len() && #[trigger] groups[g1][i1] == #[trigger] groups[g2][i2]
            ==> g1 == g2 && i1 == i2
    &&& forall|id: usize| id < n ==> #[trigger] in_some_group(groups, id)
}

/// Some group holds node `id`.
pub open spec fn in_some_group(groups: Seq<Seq<usize>>, id: usize) -> bool {
    exists|g: int| 0 <= g < groups.len() && #[trigger] groups[g].contains(id)
}

/// The index of the group that holds node `id`.
pub open spec fn group_of(groups: Seq<Seq<usize>>, id: usize) -> int {
    choose|g: int| 0 <= g < groups.len() && groups[g].contains(id)
}

/// The members of node `id`'s group other than `id`, in the group's order.
pub open spec fn peers_of(groups: Seq<Seq<usize>>, id: usize) -> Seq<usize> {
    groups[group_of(groups, id)].filter(other_than(id))
}

/// The test that keeps every identifier but `id`.
pub open spec fn other_than(id: usize) -> spec_fn(usize) -> bool {
    |x: usize| x != id
}

/// Node `id` is partitioned when its group does not hold all `n` nodes.
pub open spec fn partitioned(groups: Seq<Seq<usize>>, n: nat, id: usize) -> bool {
    groups[group_of(groups, id)].len() < n
}

/// The two groups cut from `order`: its first `n / 2` entries, then the rest.
pub open spec fn halves(order: Seq<usize>, n: nat) -> Seq<Seq<usize>> {
    seq![order.take((n / 2) as int), order.skip((n / 2) as int)]
}

/// A sequence that holds each of the nodes `0..n` exactly once.
pub open spec fn is_permutation_of_ids(order: Seq<usize>, n: nat) -> bool {
    order.to_multiset() == all_ids(n).to_multiset()
}

/// In a partition, the group that holds a node is the one `group_of` names.
pub proof fn lemma_group_unique(groups: Seq<Seq<usize>>, n: nat, id: usize, g: int)
    requires
        is_partition_of(groups, n),
        0 <= g < groups.len(),
        groups[g].contains(id),
    ensures
        group_of(groups, id) == g,
{
    let h = group_of(groups, id);
    assert(0 <= h < groups.len() && groups[h].contains(id));
    let i = choose|i: int| 0 <= i < groups[g].len() && groups[g][i] == id;
    let j = choose|j: int| 0 <= j < groups[h].len() && groups[h][j] == id;
    assert(groups[g][i] == groups[h][j]);
}

/// The nodes `0..n` occur once each in `all_ids(n)`.
pub proof fn lemma_all_ids_distinct(n: nat)
    requires
        n <= usize::MAX,
    ensures
        all_ids(n).no_duplicates(),
        all_ids(n).len() == n,
        forall|x: usize| #[trigger] all_ids(n).contains(x) <==> x < n,
{
    assert forall|x: usize| x < n implies #[trigger] all_ids(n).contains(x) by {
        assert(all_ids(n)[x as int] == x);
    }
}

/// A permutation of the nodes `0..n` holds each node once and nothing else.
pub proof fn lemma_permutation_facts(order: Seq<usize>, n: nat)
    requires
        is_permutation_of_ids(order, n),
        n <= usize::MAX,
    ensures
        order.no_duplicates(),
        order.len() == n,
        forall|x: usize| #[trigger] order.contains(x) <==> x < n,
{
    broadcast use group_to_multiset_ensures;

    lemma_all_ids_distinct(n);
    to_multiset_len(order);
    to_multiset_len(all_ids(n));
    all_ids(n).lemma_multiset_has_no_duplicates();
    assert forall|x: usize| order.to_multiset().contains(x) implies order.to_multiset().count(x)
        == 1 by {
        assert(all_ids(n).to_multiset().contains(x));
    }
    order.lemma_multiset_has_no_duplicates_conv();
    assert forall|x: usize| #[trigger] order.contains(x) <==> x < n by {
        assert(order.contains(x) <==> order.to_multiset().count(x) > 0);
        assert(all_ids(n).contains(x) <==> all_ids(n).to_multiset().count(x) > 0);
    }
}

/// Filtering out an identifier that occurs once removes exactly one entry,
/// and what is left holds every other entry of the sequence.
pub proof fn lemma_filter_out_one(s: Seq<usize>, x: usize)
    requires
        s.no_duplicates(),
        s.contains(x),
    ensures
        s.filter(other_than(x)).len() == s.len() - 1,
    decreases s.len(),
{
    reveal(Seq::filter);
    let rest = s.drop_last();
    if s.last() == x {
        assert forall|i: int| 0 <= i < rest.len() implies rest[i] != x by {
            assert(s[i] == rest[i]);
        }
        lemma_filter_keeps_all(rest, x);
    } else {
        let k = choose|k: int| 0 <= k < s.len() && s[k] == x;
        assert(rest[k] == x);
        assert(rest.contains(x));
        lemma_filter_out_one(rest, x);
    }
}

/// Filtering out an identifier that does not occur changes nothing.
pub proof fn lemma_filter_keeps_all(s: Seq<usize>, x: usize)
    requires
        forall|i: int| 0 <= i < s.len() ==> s[i] != x,
    ensures
        s.filter(other_than(x)) == s,
    decreases s.len(),
{
    reveal(Seq::filter);
    if s.len() > 0 {
        let rest = s.drop_last();
        assert forall|i: int| 0 <= i < rest.len() implies rest[i] != x by {
            assert(s[i] == rest[i]);
        }
        lemma_filter_keeps_all(rest, x);
        assert(rest.push(s.last()) =~= s);
    }
}

/// A node's peers are exactly the other members of its group: `y` is a peer
/// of `id` when `y` shares `id`'s group and is not `id`. A node is never its
/// own peer.
pub proof fn lemma_peers_are_group_mates(groups: Seq<Seq<usize>>, n: nat, id: usize, y: usize)
    requires
        is_partition_of(groups, n),
        id < n,
    ensures
        peers_of(groups, id).contains(y) <==> (groups[group_of(groups, id)].contains(y) && y
            != id),
        !peers_of(groups, id).contains(id),
{
    broadcast use group_filter_ensures;

    assert(in_some_group(groups, id));
    let g = group_of(groups, id);
    let group = groups[g];
    if group.contains(y) && y != id {
        let i = choose|i: int| 0 <= i < group.len() && group[i] == y;
        assert(other_than(id)(group[i]));
    }
    if peers_of(groups, id).contains(y) {
        group.lemma_filter_contains_rev(other_than(id), y);
        let j = choose|j: int|
            0 <= j < peers_of(groups, id).len() && peers_of(groups, id)[j] == y;
        assert(other_than(id)(peers_of(groups, id)[j]));
    }
    if peers_of(groups, id).contains(id) {
        let j = choose|j: int|
            0 <= j < peers_of(groups, id).len() && peers_of(groups, id)[j] == id;
        assert(other_than(id)(peers_of(groups, id)[j]));
    }
}

/// Peers hear each other: `b` is a peer of `a` exactly when `a` is a peer of `b`.
pub proof fn lemma_peers_symmetric(groups: Seq<Seq<usize>>, n: nat, a: usize, b: usize)
    requires
        is_partition_of(groups, n),
        a < n,
        b < n,
    ensures
        peers_of(groups, a).contains(b) <==> peers_of(groups, b).contains(a),
{
    lemma_peers_are_group_mates(groups, n, a, b);
    lemma_peers_are_group_mates(groups, n, b, a);
    assert(in_some_group(groups, a));
    assert(in_some_group(groups, b));
    let ga = group_of(groups, a);
    let gb = group_of(groups, b);
    if groups[ga].contains(b) {
        lemma_group_unique(groups, n, b, ga);
    }
    if groups[gb].contains(a) {
        lemma_group_unique(groups, n, a, gb);
    }
}

/// A node has one peer fewer than its group has members; so it is
/// partitioned exactly when it has fewer than `n - 1` peers.
pub proof fn lemma_peer_count(groups: Seq<Seq<usize>>, n: nat, id: usize)
    requires
        is_partition_of(groups, n),
        id < n,
    ensures
        peers_of(groups, id).len() == groups[group_of(groups, id)].len() - 1,
        partitioned(groups, n, id) <==> peers_of(groups, id).len() + 1 < n,
{
    assert(in_some_group(groups, id));
    let g = group_of(groups, id);
    let group = groups[g];
    assert forall|i: int, j: int|
        0 <= i < group.len() && 0 <= j < group.len() && i != j implies group[i] != group[j] by {
        if group[i] == group[j] {
            assert(groups[g][i] == groups[g][j]);
        }
    }
    lemma_filter_out_one(group, id);
}

/// In a fully connected network no node is partitioned, and every other
/// node is a peer of each node.
pub proof fn lemma_fully_connected_peers(n: nat, id: usize, y: usize)
    requires
        n <= usize::MAX,
        id < n,
    ensures
        is_partition_of(seq![all_ids(n)], n),
        group_of(seq![all_ids(n)], id) == 0,
        !partitioned(seq![all_ids(n)], n, id),
        peers_of(seq![all_ids(n)], id).contains(y) <==> (y < n && y != id),
{
    let groups = seq![all_ids(n)];
    lemma_all_ids_distinct(n);
    assert forall|g1: int, i1: int, g2: int, i2: int|
        0 <= g1 < groups.len() && 0 <= i1 < groups[g1].len() && 0 <= g2 < groups.len() && 0
            <= i2 < groups[g2].len() && #[trigger] groups[g1][i1] == #[trigger] groups[g2][i2]
            implies g1 == g2 && i1 == i2 by {}
    assert forall|x: usize| x < n implies #[trigger] in_some_group(groups, x) by {
        assert(groups[0].contains(x));
    }
    assert(groups[0].contains(id));
    lemma_group_unique(groups, n, id, 0);
    lemma_peers_are_group_mates(groups, n, id, y);
}

/// After a split into two halves of a network of at least two nodes, every
/// node is partitioned; with a single node the split leaves it connected.
pub proof fn lemma_split_partitions_every_node(groups: Seq<Seq<usize>>, n: nat, id: usize)
    requires
        is_partition_of(groups, n),
        groups.len() == 2,
        groups[0].len() == n / 2,
        groups[1].len() == n - n / 2,
        id < n,
    ensures
        n >= 2 ==> partitioned(groups, n, id),
        n == 1 ==> !partitioned(groups, n, id),
{
    assert(in_some_group(groups, id));
}

/// A split follows the order it is cut from: the node at position `i` of a
/// permutation of the nodes lands in the first group exactly when `i` is
/// before the middle, and in the second otherwise. So which nodes share a
/// group is decided by the order, not by the node identifiers.
pub proof fn lemma_split_follows_order(order: Seq<usize>, n: nat, i: int)
    requires
        is_permutation_of_ids(order, n),
        n <= usize::MAX,
        0 <= i < n,
    ensures
        is_partition_of(halves(order, n), n),
        group_of(halves(order, n), order[i]) == if i < n / 2 { 0int } else { 1int },
{
    lemma_permutation_facts(order, n);
    let gs = halves(order, n);
    let h = (n / 2) as int;
    assert forall|g: int, j: int| 0 <= g < gs.len() && 0 <= j < gs[g].len() implies #[trigger] gs[g][j]
        < n by {
        let k = if g == 0 { j } else { h + j };
        assert(gs[g][j] == order[k]);
        assert(order.contains(order[k]));
    }
    assert forall|g1: int, i1: int, g2: int, i2: int|
        0 <= g1 < gs.len() && 0 <= i1 < gs[g1].len() && 0 <= g2 < gs.len() && 0 <= i2
            < gs[g2].len() && #[trigger] gs[g1][i1] == #[trigger] gs[g2][i2] implies g1 == g2
        && i1 == i2 by {
        let k1 = if g1 == 0 { i1 } else { h + i1 };
        let k2 = if g2 == 0 { i2 } else { h + i2 };
        assert(gs[g1][i1] == order[k1]);
        assert(gs[g2][i2] == order[k2]);
    }
    assert forall|id: usize| id < n implies #[trigger] in_some_group(gs, id) by {
        assert(order.contains(id));
        let k = choose|k: int| 0 <= k < order.len() && order[k] == id;
        if k < h {
            assert(gs[0][k] == id);
            assert(gs[0].contains(id));
        } else {
            assert(gs[1][k - h] == id);
            assert(gs[1].contains(id));
        }
    }
    if i < h {
        assert(gs[0][i] == order[i]);
        assert(gs[0].contains(order[i]));
        lemma_group_unique(gs, n, order[i], 0);
    } else {
        assert(gs[1][i - h] == order[i]);
        assert(gs[1].contains(order[i]));
        lemma_group_unique(gs, n, order[i], 1);
    }
}

/// Taking the first `k` entries of a permutation of the nodes selects the
/// node at position `i` exactly when `i < k`: which nodes are selected is
/// decided by the order.
pub proof fn lemma_prefix_selects_by_position(order: Seq<usize>, n: nat, k: int, i: int)
    requires
        is_permutation_of_ids(order, n),
        n <= usize::MAX,
        0 <= k <= n,
        0 <= i < n,
    ensures
        order.take(k).contains(order[i]) <==> i < k,
{
    lemma_permutation_facts(order, n);
    if i < k {
        assert(order.take(k)[i] == order[i]);
    }
    if order.take(k).contains(order[i]) {
        let j = choose|j: int| 0 <= j < k && order.take(k)[j] == order[i];
        assert(order[j] == order[i]);
    }
}

/// Builds the sequence `0..n` of node identifiers.
pub fn node_ids(n: usize) -> (ids: Vec<usize>)
    ensures
        ids@ == all_ids(n as nat),
{
    let mut ids: Vec<usize> = Vec::new();
    let mut i: usize = 0;
    while i < n
        invariant
            i <= n,
            ids@ == all_ids(i as nat),
        decreases n - i,
    {
        ids.push(i);
        i = i + 1;
        proof {
            assert(ids@ =~= all_ids(i as nat));
        }
    }
    ids
}

/// The groups of a table, each taken by its view.
pub open spec fn groups_view(groups: Seq<Vec<usize>>) -> Seq<Seq<usize>> {
    Seq::new(groups.len(), |i: int| groups[i]@)
}

/// Shuffles `ids` in place with `rand::seq::SliceRandom::shuffle`, drawing
/// from the thread-local generator `rand::thread_rng()`, and returns it.
/// The shuffle only swaps entries, so the result holds the same entries, each
/// as often as before; the order that comes out is random and left unsaid.
#[verifier::external_body]
fn shuffled(ids: Vec<usize>) -> (r: Vec<usize>)
    ensures
        r@.to_multiset() == ids@.to_multiset(),
{
    let mut ids = ids;
    ids.shuffle(&mut rand::thread_rng());
    ids
}

/// `order` is what the shuffle gave back when it was handed the nodes `0..n`
/// in increasing order.
pub closed spec fn shuffle_of_ids(n: nat, order: Seq<usize>) -> bool {
    exists|ids: Vec<usize>, out: Vec<usize>|
        #![trigger call_ensures(shuffled, (ids,), out)]
        ids@ == all_ids(n) && call_ensures(shuffled, (ids,), out) && out@ == order
}

/// What the shuffle gives back from the nodes `0..n` is a permutation of them.
pub proof fn lemma_shuffle_of_ids_is_permutation(n: nat, order: Seq<usize>)
    requires
        shuffle_of_ids(n, order),
    ensures
        is_permutation_of_ids(order, n),
{
    let (ids, out) = choose|ids: Vec<usize>, out: Vec<usize>|
        #![trigger call_ensures(shuffled, (ids,), out)]
        ids@ == all_ids(n) && call_ensures(shuffled, (ids,), out) && out@ == order;
}

/// Whatever the shuffle gives back when handed the nodes `0..n` in
/// increasing order counts as a shuffle of them.
proof fn lemma_shuffle_output_counts(n: nat, ids: Vec<usize>, out: Vec<usize>)
    requires
        ids@ == all_ids(n),
        call_ensures(shuffled, (ids,), out),
    ensures
        shuffle_of_ids(n, out@),
{
}

/// The nodes `0..n` in a random order: what the shuffle gives back for them.
pub fn shuffled_node_ids(n: usize) -> (order: Vec<usize>)
    ensures
        is_permutation_of_ids(order@, n as nat),
        shuffle_of_ids(n as nat, order@),
{
    let ids = node_ids(n);
    let order = shuffled(ids);
    proof {
        lemma_shuffle_output_counts(n as nat, ids, order);
    }
    order
}

/// A copy of `v`.
fn copy_ids(v: &Vec<usize>) -> (r: Vec<usize>)
    ensures
        r@ == v@,
{
    let mut r: Vec<usize> = Vec::new();
    let mut i: usize = 0;
    while i < v.len()
        invariant
            i <= v.len(),
            r@ == v@.take(i as int),
        decreases v.len() - i,
    {
        r.push(v[i]);
        i = i + 1;
        proof {
            assert(r@ =~= v@.take(i as int));
        }
    }
    proof {
        assert(v@.take(v.len() as int) =~= v@);
    }
    r
}

/// Whether `v` holds `x`.
fn holds(v: &Vec<usize>, x: usize) -> (r: bool)
    ensures
        r == v@.contains(x),
{
    let mut i: usize = 0;
    while i < v.len()
        invariant
            i <= v.len(),
            forall|k: int| 0 <= k < i ==> v@[k] != x,
        decreases v.len() - i,
    {
        if v[i] == x {
            proof {
                assert(v@[i as int] == x);
            }
            return true;
        }
        i = i + 1;
    }
    false
}

/// The abstract value of a partition table: its groups and the number of nodes.
pub ghost struct PartitionView {
    pub groups: Seq<Seq<usize>>,
    pub num_nodes: nat,
}

/// The partition configuration of a network of `num_nodes` nodes: node
/// identifiers split into groups that can talk to each other.
pub struct PartitionTable {
    groups: Vec<Vec<usize>>,
    num_nodes: usize,
}

impl View for PartitionTable {
    type V = PartitionView;

    closed spec fn view(&self) -> PartitionView {
        PartitionView { groups: groups_view(self.groups@), num_nodes: self.num_nodes as nat }
    }
}

impl PartitionTable {
    #[verifier::type_invariant]
    spec fn well_formed(self) -> bool {
        is_partition_of(groups_view(self.groups@), self.num_nodes as nat)
    }

    /// A single group holding every node: the network is fully connected.
    pub fn fully_connected(num_nodes: usize) -> (t: Self)
        ensures
            t@.num_nodes == num_nodes,
            t@.groups == seq![all_ids(num_nodes as nat)],
            is_partition_of(t@.groups, t@.num_nodes),
    {
        let ids = node_ids(num_nodes);
        let mut groups: Vec<Vec<usize>> = Vec::new();
        groups.push(ids);
        let ghost gs = groups_view(groups@);
        proof {
            assert(gs =~= seq![all_ids(num_nodes as nat)]);
            assert forall|id: usize| id < num_nodes implies #[trigger] in_some_group(gs, id) by {
                assert(gs[0][id as int] == id);
                assert(gs[0].contains(id));
            }
        }
        PartitionTable { groups, num_nodes }
    }

    /// Two groups cut from `order`, a permutation of the nodes: its first
    /// `num_nodes / 2` entries, then the rest.
    pub fn split_halves(order: Vec<usize>, num_nodes: usize) -> (t: Self)
        requires
            is_permutation_of_ids(order@, num_nodes as nat),
        ensures
            t@.num_nodes == num_nodes,
            t@.groups == seq![order@.take((num_nodes / 2) as int), order@.skip((num_nodes / 2) as int)],
            is_partition_of(t@.groups, t@.num_nodes),
    {
        proof {
            lemma_permutation_facts(order@, num_nodes as nat);
        }
        let ghost whole = order@;
        let half = num_nodes / 2;
        let mut first = order;
        let second = first.split_off(half);
        let mut groups: Vec<Vec<usize>> = Vec::new();
        groups.push(first);
        groups.push(second);
        let ghost gs = groups_view(groups@);
        proof {
            let h = half as int;
            assert(gs =~= seq![whole.take(h), whole.skip(h)]);
            assert forall|g: int, i: int|
                0 <= g < gs.len() && 0 <= i < gs[g].len() implies #[trigger] gs[g][i]
                < num_nodes by {
                let k = if g == 0 { i } else { h + i };
                assert(gs[g][i] == whole[k]);
                assert(whole.contains(whole[k]));
            }
            assert forall|g1: int, i1: int, g2: int, i2: int|
                0 <= g1 < gs.len() && 0 <= i1 < gs[g1].len() && 0 <= g2 < gs.len() && 0 <= i2
                    < gs[g2].len() && #[trigger] gs[g1][i1] == #[trigger] gs[g2][i2] implies g1
                == g2 && i1 == i2 by {
                let k1 = if g1 == 0 { i1 } else { h + i1 };
                let k2 = if g2 == 0 { i2 } else { h + i2 };
                assert(gs[g1][i1] == whole[k1]);
                assert(gs[g2][i2] == whole[k2]);
            }
            assert forall|id: usize| id < num_nodes implies #[trigger] in_some_group(gs, id) by {
                assert(whole.contains(id));
                let k = choose|k: int| 0 <= k < whole.len() && whole[k] == id;
                if k < h {
                    assert(gs[0][k] == id);
                    assert(gs[0].contains(id));
                } else {
                    assert(gs[1][k - h] == id);
                    assert(gs[1].contains(id));
                }
            }
        }
        PartitionTable { groups, num_nodes }
    }

    /// Two groups of random halves: the nodes are shuffled, then the first
    /// `num_nodes / 2` of them form one group and the rest the other.
    pub fn random_split(num_nodes: usize) -> (t: Self)
        ensures
            t@.num_nodes == num_nodes,
            t@.groups.len() == 2,
            t@.groups[0].len() == num_nodes / 2,
            t@.groups[1].len() == num_nodes - num_nodes / 2,
            is_partition_of(t@.groups, t@.num_nodes),
            exists|order: Seq<usize>|
                #[trigger] shuffle_of_ids(num_nodes as nat, order) && t@.groups == halves(
                    order,
                    num_nodes as nat,
                ),
    {
        let order = shuffled_node_ids(num_nodes);
        proof {
            lemma_permutation_facts(order@, num_nodes as nat);
        }
        Self::split_halves(order, num_nodes)
    }

    /// The configuration that the simulation uses at `step`: random halves on
    /// every tenth step (`step % 10 == 0`), else a fully connected network.
    pub fn for_step(step: usize, num_nodes: usize) -> (t: Self)
        ensures
            t@.num_nodes == num_nodes,
            is_partition_of(t@.groups, t@.num_nodes),
            step % 10 == 0 ==> t@.groups.len() == 2 && t@.groups[0].len() == num_nodes / 2
                && t@.groups[1].len() == num_nodes - num_nodes / 2,
            step % 10 != 0 ==> t@.groups == seq![all_ids(num_nodes as nat)],
            step % 10 == 0 ==> exists|order: Seq<usize>|
                #[trigger] shuffle_of_ids(num_nodes as nat, order) && t@.groups == halves(
                    order,
                    num_nodes as nat,
                ),
    {
        if step % 10 == 0 {
            Self::random_split(num_nodes)
        } else {
            Self::fully_connected(num_nodes)
        }
    }

    /// The index of the group that holds `node_id`.
    fn find_group(&self, node_id: usize) -> (g: usize)
        requires
            node_id < self@.num_nodes,
        ensures
            g < self@.groups.len(),
            g == group_of(self@.groups, node_id),
            self@.groups[g as int].contains(node_id),
    {
        proof {
            use_type_invariant(self);
            assert(in_some_group(self@.groups, node_id));
        }
        let ghost gs = self@.groups;
        let mut g: usize = 0;
        while g < self.groups.len()
            invariant
                gs == self@.groups,
                gs.len() == self.groups@.len(),
                g <= self.groups@.len(),
                is_partition_of(gs, self@.num_nodes),
                in_some_group(gs, node_id),
                forall|k: int| 0 <= k < g ==> !gs[k].contains(node_id),
            decreases self.groups@.len() - g,
        {
            if holds(&self.groups[g], node_id) {
                proof {
                    assert(gs[g as int] == self.groups@[g as int]@);
                    lemma_group_unique(gs, self@.num_nodes, node_id, g as int);
                }
                return g;
            }
            proof {
                assert(gs[g as int] == self.groups@[g as int]@);
            }
            g = g + 1;
        }
        proof {
            let k = choose|k: int| 0 <= k < gs.len() && gs[k].contains(node_id);
            assert(!gs[k].contains(node_id));
        }
        0
    }

    /// Whether `node_id` is partitioned: its group holds fewer than all nodes.
    pub fn is_partitioned(&self, node_id: usize) -> (r: bool)
        requires
            node_id < self@.num_nodes,
        ensures
            r == partitioned(self@.groups, self@.num_nodes, node_id),
    {
        let g = self.find_group(node_id);
        proof {
            assert(self@.groups[g as int] == self.groups@[g as int]@);
        }
        self.groups[g].len() < self.num_nodes
    }

    /// The other members of `node_id`'s group, in the group's order: the
    /// nodes whose states `node_id` hears.
    pub fn peer_ids(&self, node_id: usize) -> (peers: Vec<usize>)
        requires
            node_id < self@.num_nodes,
        ensures
            peers@ == peers_of(self@.groups, node_id),
    {
        let g = self.find_group(node_id);
        let group = &self.groups[g];
        proof {
            assert(self@.groups[g as int] == group@);
        }
        let ghost keep = other_than(node_id);
        let mut peers: Vec<usize> = Vec::new();
        let mut i: usize = 0;
        while i < group.len()
            invariant
                i <= group@.len(),
                peers@ == group@.take(i as int).filter(keep),
                keep == other_than(node_id),
            decreases group@.len() - i,
        {
            let id = group[i];
            proof {
                group@.take(i as int).lemma_filter_push(id, keep);
                assert(group@.take(i as int).push(id) =~= group@.take(i + 1));
            }
            if id != node_id {
                peers.push(id);
            }
            i = i + 1;
        }
        proof {
            assert(group@.take(group@.len() as int) =~= group@);
            let gs = self@.groups;
            assert(gs[group_of(gs, node_id)] == group@);

        }
        peers
    }

    /// The number of groups; they partition the nodes.
    pub fn num_groups(&self) -> (n: usize)
        ensures
            n == self@.groups.len(),
            is_partition_of(self@.groups, self@.num_nodes),
    {
        proof {
            use_type_invariant(self);
        }
        self.groups.len()
    }

    /// A copy of group `g`.
    pub fn group(&self, g: usize) -> (members: Vec<usize>)
        requires
            g < self@.groups.len(),
        ensures
            members@ == self@.groups[g as int],
    {
        copy_ids(&self.groups[g])
    }

    /// The number of nodes the table partitions; the groups partition them.
    pub fn num_nodes(&self) -> (n: usize)
        ensures
            n == self@.num_nodes,
            is_partition_of(self@.groups, self@.num_nodes),
    {
        proof {
            use_type_invariant(self);
        }
        self.num_nodes
    }
}

} // verus!
