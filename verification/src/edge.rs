//! A directed edge of a graph in DOT.

use vstd::prelude::*;
use vstd::string::StringExecFns;

verus! {

/// An edge: the names of the node it leaves and of the node it reaches.
pub struct Edge {
    from: String,
    to: String,
}

impl Edge {
    /// The name of the node the edge leaves.
    pub closed spec fn from(&self) -> Seq<char> {
        self.from@
    }

    /// The name of the node the edge reaches.
    pub closed spec fn to(&self) -> Seq<char> {
        self.to@
    }

    /// The edge as a DOT statement.
    pub open spec fn rendered(&self) -> Seq<char> {
        self.from() + " -> "@ + self.to() + ";"@
    }

    /// The edge from the node named `from` to the node named `to`.
    pub fn new(from: &str, to: &str) -> (edge: Edge)
        ensures
            edge.from() == from@,
            edge.to() == to@,
    {
        Edge { from: String::from_str(from), to: String::from_str(to) }
    }

    /// Writes the edge as a DOT statement.
    pub fn render(&self) -> (s: String)
        ensures
            s@ == self.rendered(),
    {
        let mut s = self.from.clone();
        s.append(" -> ");
        s.append(self.to.as_str());
        s.append(";");
        s
    }
}

} // verus!
