//! A coordinator for rooms in which several clients edit one text together,
//! with the pieces it stands on and two smaller models beside it.
//!
//! - `living_edit_server`: the coordinator. It owns every room and answers
//!   commands; `handle` takes one command and returns the reply and the
//!   messages for other sessions.
//! - `live_coding`: a room's replica, a text CRDT with its authors and the
//!   version up to which patches have been handed out.
//! - `crdt`: the contracts under which the CRDT itself is called.
//! - `model`: responses, commands and replies, and who a message goes to.
//! - `agents`, `seqs`, `ident`: the table of agent labels, sequences without
//!   repetition, and the generators of ids and names.
//! - `subgraph`, `node`, `edge`: clusters of a graph, written as DOT.
//! - `ast`: the domain model that the graphs are drawn from.

pub mod agents;
pub mod ast;
pub mod crdt;
pub mod edge;
pub mod ident;
pub mod live_coding;
pub mod living_edit_server;
pub mod model;
pub mod node;
pub mod seqs;
pub mod subgraph;
