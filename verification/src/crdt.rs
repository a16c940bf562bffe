//! The text CRDT that backs every room, seen through a small set of contracts.
//!
//! A `ListCRDT` is opaque to the verifier. What the rest of the library needs to
//! know about one is given by four spec functions (its text, the size of its
//! operation log, its table of authors, and its two encodings); the functions
//! below are the only places where the CRDT itself is called, and their
//! contracts are taken on trust from its source.

use vstd::prelude::*;
use diamond_types::list::ListCRDT;
use diamond_types::list::encoding::{ENCODE_FULL, ENCODE_PATCH};

verus! {

/// `diamond_types::list::ListCRDT`, carried through verified code as an opaque value.
#[verifier::external_type_specification]
#[verifier::external_body]
pub struct ExListCRDT(ListCRDT);

/// The document's current text, one entry per Unicode scalar value.
pub uninterp spec fn doc_text(doc: ListCRDT) -> Seq<char>;

/// The number of operations in the document's log. Every inserted or deleted
/// character is one operation, and local times count them from zero.
pub uninterp spec fn doc_ops(doc: ListCRDT) -> usize;

/// The names of the document's authors, in the order of their agent ids.
pub uninterp spec fn doc_authors(doc: ListCRDT) -> Seq<Seq<char>>;

/// The bytes `OpLog::encode` gives for the whole log, start content included.
pub uninterp spec fn doc_snapshot(doc: ListCRDT) -> Seq<u8>;

/// The bytes `OpLog::encode_from` gives for the operations that follow `from`.
pub uninterp spec fn doc_patch(doc: ListCRDT, from: Seq<usize>) -> Seq<u8>;

/// The log's tip as `OpLog::remote_version` reports it: pairs of author name
/// and sequence number.
pub uninterp spec fn doc_remote_version(doc: ListCRDT) -> Seq<(Seq<char>, usize)>;

/// The name of the root of history, which the CRDT never enters in its table.
pub open spec fn root_name() -> Seq<char> {
    "ROOT"@
}

/// The version that names the first `ops` operations of a log written by local
/// edits alone: empty before the first operation, else the last local time.
pub open spec fn tip_after(ops: nat) -> Seq<usize> {
    if ops == 0 {
        Seq::empty()
    } else {
        seq![(ops - 1) as usize]
    }
}

/// Calls `ListCRDT::new`: a document with no text, no operations and no authors.
#[verifier::external_body]
pub(crate) fn crdt_new() -> (doc: ListCRDT)
    ensures
        doc_text(doc) == Seq::<char>::empty(),
        doc_ops(doc) == 0,
        doc_authors(doc) == Seq::<Seq<char>>::empty(),
{
    ListCRDT::new()
}

/// Calls `ListCRDT::get_or_create_agent_id` on a table that is not full: ids
/// are 32 bits, and the largest is the root's. The reserved name gets the
/// root's id and a name in the table gets the index of a place where it
/// stands; neither changes the document. Any other name is appended and gets
/// the index of its new place, and text and log stay as they are.
#[verifier::external_body]
pub(crate) fn crdt_agent_id(doc: &mut ListCRDT, name: &str) -> (id: u32)
    requires
        doc_authors(*old(doc)).len() < 0xFFFF_FFFF,
    ensures
        name@ == root_name() ==> id == 0xFFFF_FFFF && *final(doc) == *old(doc),
        name@ != root_name() && doc_authors(*old(doc)).contains(name@) ==> {
            &&& *final(doc) == *old(doc)
            &&& id < doc_authors(*old(doc)).len()
            &&& doc_authors(*old(doc))[id as int] == name@
        },
        name@ != root_name() && !doc_authors(*old(doc)).contains(name@) ==> {
            &&& id == doc_authors(*old(doc)).len()
            &&& doc_authors(*final(doc)) == doc_authors(*old(doc)).push(name@)
            &&& doc_text(*final(doc)) == doc_text(*old(doc))
            &&& doc_ops(*final(doc)) == doc_ops(*old(doc))
        },
{
    doc.get_or_create_agent_id(name)
}

/// Calls `ListCRDT::len`: the number of characters in the text.
#[verifier::external_body]
pub(crate) fn crdt_len(doc: &ListCRDT) -> (n: usize)
    ensures
        n == doc_text(*doc).len(),
{
    doc.len()
}

/// Calls `ListCRDT::insert` for a registered author, a position inside the
/// text and a non-empty content. The content enters the text at `pos`, each of
/// its characters is one new operation, and the result is the local time of
/// the last one. The author table is untouched.
#[verifier::external_body]
pub(crate) fn crdt_insert(doc: &mut ListCRDT, agent: u32, pos: usize, content: &str) -> (time: usize)
    requires
        agent < doc_authors(*old(doc)).len(),
        pos <= doc_text(*old(doc)).len(),
        content@.len() > 0,
    ensures
        doc_text(*final(doc)) == doc_text(*old(doc)).subrange(0, pos as int) + content@
            + doc_text(*old(doc)).subrange(pos as int, doc_text(*old(doc)).len() as int),
        doc_ops(*final(doc)) == doc_ops(*old(doc)) + content@.len(),
        time + 1 == doc_ops(*final(doc)),
        doc_authors(*final(doc)) == doc_authors(*old(doc)),
{
    doc.insert(agent, pos, content)
}

/// Calls `ListCRDT::delete` for a registered author and a non-empty range
/// inside the text. The range leaves the text, each removed character is one
/// new operation, and the result is the local time of the last one. The author
/// table is untouched.
#[verifier::external_body]
pub(crate) fn crdt_delete(doc: &mut ListCRDT, agent: u32, lo: usize, hi: usize) -> (time: usize)
    requires
        agent < doc_authors(*old(doc)).len(),
        lo < hi <= doc_text(*old(doc)).len(),
    ensures
        doc_text(*final(doc)) == doc_text(*old(doc)).subrange(0, lo as int)
            + doc_text(*old(doc)).subrange(hi as int, doc_text(*old(doc)).len() as int),
        doc_ops(*final(doc)) == doc_ops(*old(doc)) + (hi - lo),
        time + 1 == doc_ops(*final(doc)),
        doc_authors(*final(doc)) == doc_authors(*old(doc)),
{
    doc.delete(agent, lo..hi)
}

/// Reads the text through `Branch::content` and the rope's `to_string`.
#[verifier::external_body]
pub(crate) fn crdt_content(doc: &ListCRDT) -> (text: String)
    ensures
        text@ == doc_text(*doc),
{
    doc.branch.content().to_string()
}

/// Calls `OpLog::encode` with `ENCODE_FULL`.
#[verifier::external_body]
pub(crate) fn crdt_snapshot(doc: &ListCRDT) -> (bytes: Vec<u8>)
    ensures
        bytes@ == doc_snapshot(*doc),
{
    doc.oplog.encode(ENCODE_FULL)
}

/// Calls `OpLog::encode_from` with `ENCODE_PATCH`, from a version that is the
/// tip of a prefix of the log.
#[verifier::external_body]
pub(crate) fn crdt_patch_since(doc: &ListCRDT, from: &Vec<usize>) -> (bytes: Vec<u8>)
    requires
        exists|ops: nat| ops <= doc_ops(*doc) && from@ == #[trigger] tip_after(ops),
    ensures
        bytes@ == doc_patch(*doc, from@),
{
    doc.oplog.encode_from(ENCODE_PATCH, from.as_slice())
}

/// Calls `OpLog::remote_version` and hands each id out as a pair of plain values.
#[verifier::external_body]
pub(crate) fn crdt_remote_version(doc: &ListCRDT) -> (ids: Vec<(String, usize)>)
    ensures
        ids@.len() == doc_remote_version(*doc).len(),
        forall|i: int| 0 <= i < ids@.len() ==> (#[trigger] ids@[i]).0@ == doc_remote_version(*doc)[i].0
            && ids@[i].1 == doc_remote_version(*doc)[i].1,
{
    doc.oplog.remote_version().iter().map(|id| (id.agent.to_string(), id.seq)).collect()
}

} // verus!
