//! A cluster of a graph in DOT: nodes, edges and clusters inside it.

use vstd::prelude::*;
use vstd::string::{StrSliceExecFns, StringExecFns};
use crate::edge::Edge;
use crate::node::Node;

verus! {

/// A cluster: its name and label, and the nodes, edges and clusters inside
/// it, each kind in the order in which it was added.
pub struct Subgraph {
    name: String,
    label: String,
    depth: usize,
    nodes: Vec<Node>,
    edges: Vec<Edge>,
    subgraph: Vec<Subgraph>,
}

/// The prefix by which DOT knows a subgraph as a cluster.
pub open spec fn cluster_prefix() -> Seq<char> {
    "cluster_"@
}

/// The name a cluster goes by: `name` itself if it has the prefix, else the
/// prefix and `name`.
pub open spec fn cluster_name(name: Seq<char>) -> Seq<char> {
    if cluster_prefix().is_prefix_of(name) {
        name
    } else {
        cluster_prefix() + name
    }
}

/// The statements of the first `n` nodes, one after the other.
pub open spec fn nodes_rendered(nodes: Seq<Node>, n: nat) -> Seq<char>
    decreases n,
{
    if n == 0 {
        Seq::empty()
    } else {
        nodes_rendered(nodes, (n - 1) as nat) + nodes[n - 1].rendered()
    }
}

/// The statements of the first `n` edges, one after the other.
pub open spec fn edges_rendered(edges: Seq<Edge>, n: nat) -> Seq<char>
    decreases n,
{
    if n == 0 {
        Seq::empty()
    } else {
        edges_rendered(edges, (n - 1) as nat) + edges[n - 1].rendered()
    }
}

/// Whether `s` starts with `prefix`.
pub fn starts_with(s: &str, prefix: &str) -> (b: bool)
    ensures
        b == prefix@.is_prefix_of(s@),
{
    let n = prefix.unicode_len();
    if s.unicode_len() < n {
        return false;
    }
    let mut i: usize = 0;
    while i < n
        invariant
            i <= n,
            n == prefix@.len(),
            n <= s@.len(),
            forall|j: int| 0 <= j < i ==> s@[j] == prefix@[j],
        decreases n - i,
    {
        if s.get_char(i) != prefix.get_char(i) {
            assert(s@.subrange(0, n as int)[i as int] != prefix@[i as int]);
            return false;
        }
        i += 1;
    }
    assert(prefix@ =~= s@.subrange(0, n as int));
    true
}

impl Subgraph {
    /// The name, with the cluster prefix.
    pub closed spec fn name(&self) -> Seq<char> {
        self.name@
    }

    /// The label that is shown.
    pub closed spec fn label(&self) -> Seq<char> {
        self.label@
    }

    /// How deep the cluster lies inside others, as its maker set it.
    pub closed spec fn depth(&self) -> usize {
        self.depth
    }

    /// The nodes directly inside this cluster.
    pub closed spec fn nodes(&self) -> Seq<Node> {
        self.nodes@
    }

    /// The edges directly inside this cluster.
    pub closed spec fn edges(&self) -> Seq<Edge> {
        self.edges@
    }

    /// The clusters directly inside this one.
    pub closed spec fn children(&self) -> Seq<Subgraph> {
        self.subgraph@
    }

    /// The statements of the first `n` clusters inside this one.
    pub closed spec fn children_rendered(&self, n: nat) -> Seq<char>
        decreases self, n,
    {
        if n == 0 || n > self.subgraph@.len() {
            Seq::empty()
        } else {
            self.children_rendered((n - 1) as nat) + self.subgraph@[n - 1].rendered()
        }
    }

    /// The cluster as a DOT statement: the header with the name, the label,
    /// then nodes, edges and inner clusters in the order in which they were
    /// added, and the closing brace.
    pub closed spec fn rendered(&self) -> Seq<char>
        decreases self, self.children().len() + 1,
    {
        "subgraph "@ + self.name@ + " {"@ + "label=\""@ + self.label@ + "\";"@ + nodes_rendered(
            self.nodes@,
            self.nodes@.len(),
        ) + edges_rendered(self.edges@, self.edges@.len()) + self.children_rendered(
            self.subgraph@.len(),
        ) + "}"@
    }

    /// What `rendered` is, part by part: the header with the name, the label,
    /// the nodes, the edges, the inner clusters, and the closing brace.
    pub proof fn lemma_rendered(&self)
        ensures
            self.rendered() == "subgraph "@ + self.name() + " {"@ + "label=\""@ + self.label()
                + "\";"@ + nodes_rendered(self.nodes(), self.nodes().len()) + edges_rendered(
                self.edges(),
                self.edges().len(),
            ) + self.children_rendered(self.children().len()) + "}"@,
    {
    }

    /// What `children_rendered` is: nothing for no cluster and for more
    /// clusters than there are, else the statements of the clusters before the
    /// last of the `n`, and then that one's.
    pub proof fn lemma_children_rendered(&self, n: nat)
        ensures
            n == 0 || n > self.children().len() ==> self.children_rendered(n) == Seq::<
                char,
            >::empty(),
            0 < n <= self.children().len() ==> self.children_rendered(n) == self.children_rendered(
                (n - 1) as nat,
            ) + self.children()[n - 1].rendered(),
    {
    }

    /// An empty cluster. Its name gets the cluster prefix unless it has it.
    pub fn new(name: &str, label: &str) -> (graph: Subgraph)
        ensures
            graph.name() == cluster_name(name@),
            graph.label() == label@,
            graph.depth() == 0,
            graph.nodes() == Seq::<Node>::empty(),
            graph.edges() == Seq::<Edge>::empty(),
            graph.children() == Seq::<Subgraph>::empty(),
    {
        let mut new_name = String::from_str(name);
        if !starts_with(name, "cluster_") {
            new_name = String::from_str("cluster_");
            new_name.append(name);
        }
        Subgraph {
            name: new_name,
            label: String::from_str(label),
            depth: 0,
            nodes: Vec::new(),
            edges: Vec::new(),
            subgraph: Vec::new(),
        }
    }

    /// Puts `subgraph` inside this cluster, behind the clusters it holds.
    pub fn add_subgraph(&mut self, subgraph: Subgraph)
        ensures
            final(self).children() == old(self).children().push(subgraph),
            final(self).name() == old(self).name(),
            final(self).label() == old(self).label(),
            final(self).depth() == old(self).depth(),
            final(self).nodes() == old(self).nodes(),
            final(self).edges() == old(self).edges(),
    {
        self.subgraph.push(subgraph);
    }

    /// Puts `node` inside this cluster, behind the nodes it holds.
    pub fn add_node(&mut self, node: Node)
        ensures
            final(self).nodes() == old(self).nodes().push(node),
            final(self).name() == old(self).name(),
            final(self).label() == old(self).label(),
            final(self).depth() == old(self).depth(),
            final(self).edges() == old(self).edges(),
            final(self).children() == old(self).children(),
    {
        self.nodes.push(node);
    }

    /// Puts `edge` inside this cluster, behind the edges it holds.
    pub fn add_edge(&mut self, edge: Edge)
        ensures
            final(self).edges() == old(self).edges().push(edge),
            final(self).name() == old(self).name(),
            final(self).label() == old(self).label(),
            final(self).depth() == old(self).depth(),
            final(self).nodes() == old(self).nodes(),
            final(self).children() == old(self).children(),
    {
        self.edges.push(edge);
    }

    /// Writes the cluster as a DOT statement.
    pub fn render(&self) -> (s: String)
        ensures
            s@ == self.rendered(),
        decreases self,
    {
        let mut s = String::from_str("subgraph ");
        s.append(self.name.as_str());
        s.append(" {");
        s.append("label=\"");
        s.append(self.label.as_str());
        s.append("\";");
        let ghost head = s@;
        let mut i: usize = 0;
        while i < self.nodes.len()
            invariant
                i <= self.nodes@.len(),
                s@ == head + nodes_rendered(self.nodes@, i as nat),
            decreases self.nodes@.len() - i,
        {
            let part = self.nodes[i].render();
            s.append(part.as_str());
            i += 1;
            assert(s@ =~= head + nodes_rendered(self.nodes@, i as nat));
        }
        let ghost with_nodes = s@;
        let mut i: usize = 0;
        while i < self.edges.len()
            invariant
                i <= self.edges@.len(),
                s@ == with_nodes + edges_rendered(self.edges@, i as nat),
            decreases self.edges@.len() - i,
        {
            let part = self.edges[i].render();
            s.append(part.as_str());
            i += 1;
            assert(s@ =~= with_nodes + edges_rendered(self.edges@, i as nat));
        }
        let ghost with_edges = s@;
        let mut i: usize = 0;
        while i < self.subgraph.len()
            invariant
                i <= self.subgraph@.len(),
                s@ == with_edges + self.children_rendered(i as nat),
            decreases self.subgraph@.len() - i,
        {
            let part = self.subgraph[i].render();
            s.append(part.as_str());
            i += 1;
            assert(s@ =~= with_edges + self.children_rendered(i as nat));
        }
        s.append("}");
        assert(s@ =~= self.rendered());
        s
    }
}

} // verus!
