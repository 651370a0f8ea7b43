//! Pairwise constraints between particles.
//!
//! Links name particles by index. Shrinking the particle buffer leaves links behind
//! that point past its end; those are dropped, never reported.

use crate::particle::Scalar;
use vstd::prelude::*;

verus! {

/// What a link does to its two particles.
#[derive(Clone, Copy, Debug, PartialEq, Eq, Structural)]
pub enum Link {
    /// A spring: accelerates both along their axis with this magnitude.
    Force(Scalar),
    /// A rod: moves both towards this distance from each other.
    Rigid(Scalar),
}

/// A link between the particles with the two indices.
pub type Connection = (usize, usize, Link);

/// Whether both ends of `c` are among the first `count` particles.
pub open spec fn is_live(c: Connection, count: int) -> bool {
    c.0 < count && c.1 < count
}

/// The test "is live among `count` particles".
pub open spec fn live_among(count: int) -> spec_fn(Connection) -> bool {
    |c: Connection| is_live(c, count)
}

/// The links of `connections` that are live among `count` particles, in their order.
pub open spec fn live_links(connections: Seq<Connection>, count: int) -> Seq<Connection> {
    connections.filter(live_among(count))
}

/// Whether all of `connections` are live among `count` particles.
pub open spec fn all_live(connections: Seq<Connection>, count: int) -> bool {
    forall|k: int| 0 <= k < connections.len() ==> is_live(#[trigger] connections[k], count)
}

/// `c` with its lower end first.
pub open spec fn spec_ordered(c: Connection) -> Connection {
    if c.0 <= c.1 {
        c
    } else {
        (c.1, c.0, c.2)
    }
}

/// `c` with its lower end first. A link acts the same on both ends, so nothing is
/// lost; the order lets a caller split the buffer between the two.
#[verifier::when_used_as_spec(spec_ordered)]
pub fn ordered(c: Connection) -> (o: Connection)
    ensures
        o == ordered(c),
{
    if c.0 <= c.1 {
        c
    } else {
        (c.1, c.0, c.2)
    }
}

/// Drops from `connections` every link that is not live among `count` particles. The
/// others keep their order.
pub fn prune(connections: &mut Vec<Connection>, count: usize)
    ensures
        final(connections)@ == live_links(old(connections)@, count as int),
        all_live(final(connections)@, count as int),
{
    let n = connections.len();
    let mut kept: Vec<Connection> = Vec::new();
    let mut k: usize = 0;
    while k < n
        invariant
            k <= n,
            n == connections@.len(),
            connections@ == old(connections)@,
            kept@ == live_links(connections@.take(k as int), count as int),
        decreases n - k,
    {
        let c = connections[k];
        proof {
            assert(connections@.take(k + 1) == connections@.take(k as int).push(c));
            connections@.take(k as int).lemma_filter_push(c, live_among(count as int));
        }
        if c.0 < count && c.1 < count {
            kept.push(c);
        }
        k += 1;
    }
    proof {
        assert(connections@.take(n as int) == connections@);
        lemma_live_links(connections@, count as int);
    }
    *connections = kept;
}

/// After pruning, every link is live, and every live link is still there.
pub proof fn lemma_live_links(connections: Seq<Connection>, count: int)
    ensures
        all_live(live_links(connections, count), count),
        forall|k: int|
            0 <= k < connections.len() && is_live(connections[k], count) ==> live_links(
                connections,
                count,
            ).contains(#[trigger] connections[k]),
        forall|c: Connection|
            live_links(connections, count).contains(c) ==> connections.contains(c),
        live_links(connections, count).len() <= connections.len(),
{
    broadcast use vstd::seq_lib::group_filter_ensures;

    let pred = live_among(count);
    connections.lemma_filter_len(pred);
    assert forall|k: int| 0 <= k < connections.filter(pred).len() implies is_live(
        #[trigger] connections.filter(pred)[k],
        count,
    ) by {
        connections.lemma_filter_pred(pred, k);
    }
    assert forall|k: int| 0 <= k < connections.len() && is_live(connections[k], count) implies connections.filter(
        pred,
    ).contains(#[trigger] connections[k]) by {
        connections.lemma_filter_contains(pred, k);
    }
    assert forall|c: Connection| connections.filter(pred).contains(c) implies connections.contains(
        c,
    ) by {
        connections.lemma_filter_contains_rev(pred, c);
    }
}

} // verus!
