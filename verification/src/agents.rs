//! The table of agent labels: one label for each connection that has
//! created or joined a room, in the order in which the connections first got
//! one.

use vstd::prelude::*;
use crate::model::ConnId;
use crate::seqs::{lemma_index_of, lemma_index_unique, with_item, without_item};

verus! {

/// The connections of a table of agents, in its order.
pub open spec fn conns_of(agents: Seq<(ConnId, Seq<char>)>) -> Seq<ConnId> {
    Seq::new(agents.len(), |i: int| agents[i].0)
}

/// The labels of a table of agents, in its order.
pub open spec fn labels_of(agents: Seq<(ConnId, Seq<char>)>) -> Seq<Seq<char>> {
    Seq::new(agents.len(), |i: int| agents[i].1)
}

/// The table once `conn` has the label `label`: in place if `conn` had one,
/// else at the end.
pub open spec fn agents_with(agents: Seq<(ConnId, Seq<char>)>, conn: ConnId, label: Seq<char>) -> Seq<
    (ConnId, Seq<char>),
> {
    if conns_of(agents).contains(conn) {
        agents.update(conns_of(agents).index_of(conn), (conn, label))
    } else {
        agents.push((conn, label))
    }
}

/// The table without the entry of `conn`.
pub open spec fn agents_without(agents: Seq<(ConnId, Seq<char>)>, conn: ConnId) -> Seq<
    (ConnId, Seq<char>),
> {
    if conns_of(agents).contains(conn) {
        agents.remove(conns_of(agents).index_of(conn))
    } else {
        agents
    }
}

/// A table of agents as a plain value.
pub open spec fn agent_views(s: Seq<(ConnId, String)>) -> Seq<(ConnId, Seq<char>)> {
    Seq::new(s.len(), |i: int| (s[i].0, s[i].1@))
}

/// Giving a connection a label adds that connection to the labelled ones,
/// and no other.
pub proof fn lemma_agents_with(agents: Seq<(ConnId, Seq<char>)>, conn: ConnId, label: Seq<char>)
    ensures
        conns_of(agents_with(agents, conn, label)) == with_item(conns_of(agents), conn),
{
    let conns = conns_of(agents);
    if conns.contains(conn) {
        let k = conns.index_of(conn);
        assert(0 <= k < conns.len() && conns[k] == conn);
    }
    assert(conns_of(agents_with(agents, conn, label)) =~= with_item(conns, conn));
}

/// Taking a connection's label away takes that connection from the labelled
/// ones, and no other.
pub proof fn lemma_agents_without(agents: Seq<(ConnId, Seq<char>)>, conn: ConnId)
    ensures
        conns_of(agents_without(agents, conn)) == without_item(conns_of(agents), conn),
{
    let conns = conns_of(agents);
    if conns.contains(conn) {
        lemma_index_of(conns, conn);
    }
    assert(conns_of(agents_without(agents, conn)) =~= without_item(conns, conn));
}

/// Takes the entry of `conn` out of the table, if it has one.
pub(crate) fn drop_agent(agents: &mut Vec<(ConnId, String)>, conn: ConnId)
    requires
        conns_of(agent_views(old(agents)@)).no_duplicates(),
    ensures
        agent_views(final(agents)@) == agents_without(agent_views(old(agents)@), conn),
{
    let ghost before = agent_views(agents@);
    let mut i: usize = 0;
    while i < agents.len()
        invariant
            agents@ == old(agents)@,
            before == agent_views(agents@),
            conns_of(before).no_duplicates(),
            i <= agents@.len(),
            forall|j: int| 0 <= j < i ==> agents@[j].0 != conn,
        decreases agents@.len() - i,
    {
        if agents[i].0 == conn {
            proof {
                assert(conns_of(before)[i as int] == conn);
                lemma_index_unique(conns_of(before), i as int, conn);
            }
            agents.remove(i);
            assert(agent_views(agents@) =~= before.remove(i as int));
            return ;
        }
        i += 1;
    }
    proof {
        if conns_of(before).contains(conn) {
            let j = choose|j: int| 0 <= j < conns_of(before).len() && conns_of(before)[j] == conn;
            assert(agents@[j].0 == conn);
        }
    }
}

/// Gives `conn` the label `label`.
pub(crate) fn put_agent(agents: &mut Vec<(ConnId, String)>, conn: ConnId, label: String)
    requires
        conns_of(agent_views(old(agents)@)).no_duplicates(),
    ensures
        agent_views(final(agents)@) == agents_with(agent_views(old(agents)@), conn, label@),
{
    let ghost before = agent_views(agents@);
    let mut i: usize = 0;
    while i < agents.len()
        invariant
            agents@ == old(agents)@,
            before == agent_views(agents@),
            conns_of(before).no_duplicates(),
            i <= agents@.len(),
            forall|j: int| 0 <= j < i ==> agents@[j].0 != conn,
        decreases agents@.len() - i,
    {
        if agents[i].0 == conn {
            proof {
                assert(conns_of(before)[i as int] == conn);
                lemma_index_unique(conns_of(before), i as int, conn);
            }
            agents.set(i, (conn, label));
            assert(agent_views(agents@) =~= before.update(i as int, (conn, label@)));
            return ;
        }
        i += 1;
    }
    proof {
        if conns_of(before).contains(conn) {
            let j = choose|j: int| 0 <= j < conns_of(before).len() && conns_of(before)[j] == conn;
            assert(agents@[j].0 == conn);
        }
    }
    agents.push((conn, label));
    assert(agent_views(agents@) =~= before.push((conn, label@)));
}

} // verus!
