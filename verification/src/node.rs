//! A node of a graph in DOT.

use vstd::prelude::*;
use vstd::string::StringExecFns;

verus! {

/// A node: the name by which edges refer to it, and the label that is shown.
pub struct Node {
    name: String,
    label: String,
}

impl Node {
    /// The name by which edges refer to the node.
    pub closed spec fn name(&self) -> Seq<char> {
        self.name@
    }

    /// The label that is shown.
    pub closed spec fn label(&self) -> Seq<char> {
        self.label@
    }

    /// The node as a DOT statement: its name, and its label as an attribute.
    pub open spec fn rendered(&self) -> Seq<char> {
        self.name() + " [label=\""@ + self.label() + "\"];"@
    }

    /// A node that is labelled with its name.
    pub fn new(name: &str) -> (node: Node)
        ensures
            node.name() == name@,
            node.label() == name@,
    {
        Node { name: String::from_str(name), label: String::from_str(name) }
    }

    /// A node with a label of its own.
    pub fn with_label(name: &str, label: &str) -> (node: Node)
        ensures
            node.name() == name@,
            node.label() == label@,
    {
        Node { name: String::from_str(name), label: String::from_str(label) }
    }

    /// Writes the node as a DOT statement.
    pub fn render(&self) -> (s: String)
        ensures
            s@ == self.rendered(),
    {
        let mut s = self.name.clone();
        s.append(" [label=\"");
        s.append(self.label.as_str());
        s.append("\"];");
        s
    }
}

} // verus!
