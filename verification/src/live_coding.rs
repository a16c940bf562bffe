//! One room's document replica: a text CRDT, the table of its authors, and the
//! version up to which its operations have already been handed out as patches.

use vstd::prelude::*;
use vstd::string::StringExecFns;
use diamond_types::list::ListCRDT;
use std::ops::Range;
use crate::seqs::{lemma_index_of, lemma_index_unique, lemma_with_item, with_item};
use crate::crdt::{
    crdt_agent_id, crdt_content, crdt_delete, crdt_insert, crdt_len, crdt_new,
    crdt_patch_since, crdt_remote_version, crdt_snapshot, doc_authors, doc_ops, doc_patch,
    doc_remote_version, doc_snapshot, doc_text, root_name, tip_after,
};

verus! {

/// A point in a replica's history, given by the number of operations that lie
/// before it. Every inserted or deleted character is one operation.
#[derive(Clone, Copy, Debug, PartialEq, Eq, Structural)]
pub struct Version {
    pub ops: usize,
}

/// Why a replica turned an edit or a join down.
#[derive(Clone, Copy, Debug, PartialEq, Eq, Structural)]
pub enum EditError {
    /// The insert position lies behind the end of the text.
    BadPosition,
    /// The range to delete is reversed or reaches behind the end of the text.
    BadRange,
    /// The edit is made under the name of the root of history, which writes
    /// nothing.
    ReservedAgent,
    /// The table of authors is full, so that the CRDT cannot be asked for an
    /// author's id.
    TooManyAgents,
}

/// The version of a replica in the form its collaborators know: for each tip
/// of the history, the author's name and that author's sequence number.
pub type RemoteVersion = Vec<(String, usize)>;

/// The number of authors a replica can hold.
pub const AUTHOR_LIMIT: usize = 0xFFFF_FFFF;

/// `text` with `content` entered at `pos`.
pub open spec fn text_after_insert(text: Seq<char>, pos: int, content: Seq<char>) -> Seq<char> {
    text.subrange(0, pos) + content + text.subrange(pos, text.len() as int)
}

/// `text` without the characters at `lo..hi`.
pub open spec fn text_after_delete(text: Seq<char>, lo: int, hi: int) -> Seq<char> {
    text.subrange(0, lo) + text.subrange(hi, text.len() as int)
}

/// The id that the CRDT keeps for the root of history.
pub const ROOT_AGENT: u32 = 0xFFFF_FFFF;

/// The table of authors once the CRDT was asked for the id of `name`: the
/// root's name is never entered, any other name is there afterwards.
pub open spec fn authors_with(authors: Seq<Seq<char>>, name: Seq<char>) -> Seq<Seq<char>> {
    if name == root_name() {
        authors
    } else {
        with_item(authors, name)
    }
}

/// The id under which `name` is known: the root's id for the root's name,
/// else the name's place in the table.
pub open spec fn agent_id(authors: Seq<Seq<char>>, name: Seq<char>) -> u32 {
    if name == root_name() {
        ROOT_AGENT
    } else {
        authors.index_of(name) as u32
    }
}

/// Whether an edit can be made under `name` beside `authors`: the table is
/// not full, and the name is not the root's.
pub open spec fn admits(authors: Seq<Seq<char>>, name: Seq<char>) -> bool {
    authors.len() < AUTHOR_LIMIT && name != root_name()
}

/// The error that answers an edit under a name which `admits` turns down.
pub open spec fn refusal(authors: Seq<Seq<char>>, name: Seq<char>) -> EditError {
    if authors.len() < AUTHOR_LIMIT {
        EditError::ReservedAgent
    } else {
        EditError::TooManyAgents
    }
}

/// What an error says in an acknowledgement.
pub open spec fn error_text(e: EditError) -> Seq<char> {
    match e {
        EditError::BadPosition => "position is behind the end of the text"@,
        EditError::BadRange => "range is reversed or reaches behind the end of the text"@,
        EditError::ReservedAgent => "agent name is reserved"@,
        EditError::TooManyAgents => "too many agents"@,
    }
}

impl EditError {
    /// The error in words.
    pub fn message(&self) -> (s: String)
        ensures
            s@ == error_text(*self),
    {
        match self {
            EditError::BadPosition => String::from_str("position is behind the end of the text"),
            EditError::BadRange => String::from_str(
                "range is reversed or reaches behind the end of the text",
            ),
            EditError::ReservedAgent => String::from_str("agent name is reserved"),
            EditError::TooManyAgents => String::from_str("too many agents"),
        }
    }
}

/// The views of the names in `names`, in order.
pub open spec fn name_views(names: Seq<String>) -> Seq<Seq<char>> {
    Seq::new(names.len(), |i: int| names[i]@)
}

/// What a join leaves behind and answers. Unless the table of authors is
/// full, every name gets the id under which the CRDT knows it; a name that is
/// new becomes an author, and the root's name and a name that is an author
/// change nothing. A full table answers `TooManyAgents` and changes nothing.
pub open spec fn joined(
    pre: LiveCoding,
    post: LiveCoding,
    agent: Seq<char>,
    r: Result<u32, EditError>,
) -> bool {
    &&& post.wf()
    &&& post.text() == pre.text()
    &&& post.frontier() == pre.frontier()
    &&& post.baseline() == pre.baseline()
    &&& if pre.authors().len() < AUTHOR_LIMIT {
        &&& post.authors() == authors_with(pre.authors(), agent)
        &&& r == Ok::<u32, EditError>(agent_id(post.authors(), agent))
        &&& agent == root_name() || pre.authors().contains(agent) ==> post == pre
    } else {
        post == pre && r == Err::<u32, EditError>(EditError::TooManyAgents)
    }
}

/// What an insert leaves behind and answers.
pub open spec fn inserted(
    pre: LiveCoding,
    post: LiveCoding,
    agent: Seq<char>,
    pos: usize,
    content: Seq<char>,
    r: Result<Version, EditError>,
) -> bool {
    &&& post.wf()
    &&& post.baseline() == pre.baseline()
    &&& if pos > pre.text().len() {
        post == pre && r == Err::<Version, EditError>(EditError::BadPosition)
    } else if !admits(pre.authors(), agent) {
        post == pre && r == Err::<Version, EditError>(refusal(pre.authors(), agent))
    } else {
        &&& r == Ok::<Version, EditError>(post.frontier())
        &&& post.text() == text_after_insert(pre.text(), pos as int, content)
        &&& post.frontier().ops == pre.frontier().ops + content.len()
        &&& post.authors() == authors_with(pre.authors(), agent)
    }
}

/// What a delete leaves behind and answers.
pub open spec fn deleted(
    pre: LiveCoding,
    post: LiveCoding,
    agent: Seq<char>,
    lo: usize,
    hi: usize,
    r: Result<Version, EditError>,
) -> bool {
    &&& post.wf()
    &&& post.baseline() == pre.baseline()
    &&& if !(lo <= hi <= pre.text().len()) {
        post == pre && r == Err::<Version, EditError>(EditError::BadRange)
    } else if !admits(pre.authors(), agent) {
        post == pre && r == Err::<Version, EditError>(refusal(pre.authors(), agent))
    } else {
        &&& r == Ok::<Version, EditError>(post.frontier())
        &&& post.text() == text_after_delete(pre.text(), lo as int, hi as int)
        &&& post.frontier().ops == pre.frontier().ops + (hi - lo)
        &&& post.authors() == authors_with(pre.authors(), agent)
    }
}

/// Deleting what was just inserted gives the text back.
pub proof fn lemma_insert_then_delete(text: Seq<char>, pos: int, content: Seq<char>)
    requires
        0 <= pos <= text.len(),
    ensures
        text_after_delete(text_after_insert(text, pos, content), pos, pos + content.len()) == text,
{
    assert(text_after_delete(text_after_insert(text, pos, content), pos, pos + content.len())
        =~= text);
}

/// An insert that succeeded, followed by a delete of the inserted range that
/// succeeded, leaves the text that was there before the insert.
pub proof fn lemma_insert_delete_round_trip(
    a: LiveCoding,
    b: LiveCoding,
    c: LiveCoding,
    agent: Seq<char>,
    eraser: Seq<char>,
    pos: usize,
    content: Seq<char>,
    r1: Result<Version, EditError>,
    r2: Result<Version, EditError>,
)
    requires
        pos + content.len() <= usize::MAX,
        inserted(a, b, agent, pos, content, r1),
        deleted(b, c, eraser, pos, (pos + content.len()) as usize, r2),
        r1 is Ok,
        r2 is Ok,
    ensures
        c.text() == a.text(),
        c.frontier().ops == a.frontier().ops + 2 * content.len(),
{
    lemma_insert_then_delete(a.text(), pos as int, content);
}

/// A replica: the CRDT, the number of its authors, the number of operations
/// in its history, and the number of those that have been handed out as
/// patches.
pub struct LiveCoding {
    doc: ListCRDT,
    authors: usize,
    ops: usize,
    sent: usize,
}

impl LiveCoding {
    /// The replica's bookkeeping agrees with its CRDT, and nothing has been
    /// handed out that is not in the history.
    pub closed spec fn wf(&self) -> bool {
        &&& self.authors == doc_authors(self.doc).len()
        &&& self.authors <= AUTHOR_LIMIT
        &&& !doc_authors(self.doc).contains(root_name())
        &&& doc_authors(self.doc).no_duplicates()
        &&& self.ops == doc_ops(self.doc)
        &&& self.sent <= self.ops
    }

    /// The current text.
    pub closed spec fn text(&self) -> Seq<char> {
        doc_text(self.doc)
    }

    /// The version that holds every operation applied so far.
    pub closed spec fn frontier(&self) -> Version {
        Version { ops: self.ops }
    }

    /// The version up to which operations have been handed out as patches.
    pub closed spec fn baseline(&self) -> Version {
        Version { ops: self.sent }
    }

    /// The names of the authors, in the order of their ids.
    pub closed spec fn authors(&self) -> Seq<Seq<char>> {
        doc_authors(self.doc)
    }

    /// The encoding of the whole history.
    pub closed spec fn snapshot(&self) -> Seq<u8> {
        doc_snapshot(self.doc)
    }

    /// The encoding of the operations that follow `from`.
    pub closed spec fn patch_since(&self, from: Version) -> Seq<u8> {
        doc_patch(self.doc, tip_after(from.ops as nat))
    }

    /// The frontier in the form collaborators know.
    pub closed spec fn remote(&self) -> Seq<(Seq<char>, usize)> {
        doc_remote_version(self.doc)
    }

    /// The replica once everything up to its frontier has been handed out.
    pub closed spec fn caught_up(self) -> LiveCoding {
        LiveCoding { sent: self.ops, ..self }
    }

    /// The baseline never lies ahead of the frontier.
    pub proof fn lemma_baseline_behind(&self)
        requires
            self.wf(),
        ensures
            self.baseline().ops <= self.frontier().ops,
    {
    }

    /// Handing everything out moves the baseline to the frontier and leaves
    /// text, history and authors alone.
    pub proof fn lemma_caught_up(self)
        requires
            self.wf(),
        ensures
            self.caught_up().wf(),
            self.caught_up().baseline() == self.frontier(),
            self.caught_up().frontier() == self.frontier(),
            self.caught_up().text() == self.text(),
            self.caught_up().authors() == self.authors(),
            self.caught_up().snapshot() == self.snapshot(),
            self.caught_up().remote() == self.remote(),
            forall|v: Version| self.caught_up().patch_since(v) == self.patch_since(v),
            self.caught_up().caught_up() == self.caught_up(),
    {
    }

    /// Right after a patch was taken, the next patch holds no operation: it
    /// is the encoding of what follows the frontier, and taking it changes
    /// nothing.
    pub proof fn lemma_second_patch_is_empty(self)
        requires
            self.wf(),
        ensures
            self.caught_up().baseline() == self.caught_up().frontier(),
            self.caught_up().patch_since(self.caught_up().baseline()) == self.patch_since(
                self.frontier(),
            ),
            self.caught_up().caught_up() == self.caught_up(),
    {
    }

    /// A replica with no text and no history. `agent_name` becomes its first
    /// author, unless it is the reserved name.
    pub fn new(agent_name: &str) -> (replica: LiveCoding)
        ensures
            replica.wf(),
            replica.text() == Seq::<char>::empty(),
            replica.frontier() == (Version { ops: 0 }),
            replica.baseline() == (Version { ops: 0 }),
            replica.authors() == if agent_name@ == root_name() {
                Seq::<Seq<char>>::empty()
            } else {
                seq![agent_name@]
            },
    {
        let mut replica = LiveCoding { doc: crdt_new(), authors: 0, ops: 0, sent: 0 };
        let _ = replica.author_id(agent_name);
        assert(replica.authors() =~= if agent_name@ == root_name() {
            Seq::<Seq<char>>::empty()
        } else {
            seq![agent_name@]
        });
        replica
    }

    /// Asks the CRDT for the id of `name`, unless its table is full, and
    /// counts the name if it was new.
    fn author_id(&mut self, name: &str) -> (r: Result<u32, EditError>)
        requires
            old(self).wf(),
        ensures
            joined(*old(self), *final(self), name@, r),
    {
        if self.authors >= AUTHOR_LIMIT {
            return Err(EditError::TooManyAgents);
        }
        let ghost before = doc_authors(self.doc);
        let id = crdt_agent_id(&mut self.doc, name);
        if id as usize == self.authors {
            self.authors = self.authors + 1;
        }
        proof {
            if name@ != root_name() {
                lemma_with_item(before, name@);
                lemma_index_unique(doc_authors(self.doc), id as int, name@);
                if !before.contains(name@) {
                    assert(!before.push(name@).contains(root_name())) by {
                        let names = before.push(name@);
                        if names.contains(root_name()) {
                            let j = choose|j: int| 0 <= j < names.len() && names[j] == root_name();
                            assert(before[j] == root_name());
                        }
                    }
                }
            }
        }
        Ok(id)
    }

    /// Returns the id under which the CRDT knows `agent`, making it an author
    /// if it is new. A name that is an author keeps its id; the root's name
    /// has the root's id and is never an author.
    pub fn join(&mut self, agent: &str) -> (r: Result<u32, EditError>)
        requires
            old(self).wf(),
        ensures
            joined(*old(self), *final(self), agent@, r),
    {
        self.author_id(agent)
    }

    /// Enters `content` at character position `pos` on behalf of `agent` and
    /// returns the new frontier. A position behind the end of the text is
    /// answered with `BadPosition`, a full table of authors with
    /// `TooManyAgents`, the root's name with `ReservedAgent`; in each case
    /// nothing changes.
    pub fn insert(&mut self, agent: &str, pos: usize, content: &str) -> (r: Result<Version, EditError>)
        requires
            old(self).wf(),
        ensures
            inserted(*old(self), *final(self), agent@, pos, content@, r),
    {
        let len = crdt_len(&self.doc);
        if pos > len {
            return Err(EditError::BadPosition);
        }
        match self.author_id(agent) {
            Err(e) => Err(e),
            Ok(id) => {
                proof {
                    if agent@ != root_name() {
                        lemma_with_item(old(self).authors(), agent@);
                        lemma_index_of(self.authors(), agent@);
                    }
                }
                if id == ROOT_AGENT {
                    return Err(EditError::ReservedAgent);
                }
                if content.is_empty() {
                    assert(text_after_insert(self.text(), pos as int, content@) =~= self.text());
                } else {
                    let time = crdt_insert(&mut self.doc, id, pos, content);
                    self.ops = time + 1;
                }
                Ok(Version { ops: self.ops })
            },
        }
    }

    /// Removes the characters at `range` on behalf of `agent` and returns the
    /// new frontier. A range that is reversed or reaches behind the end of the
    /// text is answered with `BadRange`, a full table of authors with
    /// `TooManyAgents`, the root's name with `ReservedAgent`; in each case
    /// nothing changes.
    pub fn delete(&mut self, agent: &str, range: Range<usize>) -> (r: Result<Version, EditError>)
        requires
            old(self).wf(),
        ensures
            deleted(*old(self), *final(self), agent@, range.start, range.end, r),
    {
        let lo = range.start;
        let hi = range.end;
        let len = crdt_len(&self.doc);
        if lo > hi || hi > len {
            return Err(EditError::BadRange);
        }
        match self.author_id(agent) {
            Err(e) => Err(e),
            Ok(id) => {
                proof {
                    if agent@ != root_name() {
                        lemma_with_item(old(self).authors(), agent@);
                        lemma_index_of(self.authors(), agent@);
                    }
                }
                if id == ROOT_AGENT {
                    return Err(EditError::ReservedAgent);
                }
                if lo == hi {
                    assert(text_after_delete(self.text(), lo as int, hi as int) =~= self.text());
                } else {
                    let time = crdt_delete(&mut self.doc, id, lo, hi);
                    self.ops = time + 1;
                }
                Ok(Version { ops: self.ops })
            },
        }
    }

    /// Makes `agent` an author and enters `content` at the start of the text
    /// on its behalf. What holds of an insert at position 0 holds of it.
    pub fn create(&mut self, agent: &str, content: &str) -> (r: Result<Version, EditError>)
        requires
            old(self).wf(),
        ensures
            inserted(*old(self), *final(self), agent@, 0, content@, r),
    {
        self.insert(agent, 0, content)
    }

    /// The current text.
    pub fn content(&self) -> (text: String)
        ensures
            text@ == self.text(),
    {
        crdt_content(&self.doc)
    }

    /// The version that holds every operation applied so far.
    pub fn version(&self) -> (v: Version)
        ensures
            v == self.frontier(),
    {
        Version { ops: self.ops }
    }

    /// The encoded history from which a replica that joins now starts.
    pub fn base_version(&self) -> (bytes: Vec<u8>)
        ensures
            bytes@ == self.snapshot(),
    {
        crdt_snapshot(&self.doc)
    }

    /// The frontier in the form collaborators know.
    pub fn remote_version(&self) -> (ids: RemoteVersion)
        ensures
            ids@.len() == self.remote().len(),
            forall|i: int| 0 <= i < ids@.len() ==> (#[trigger] ids@[i]).0@ == self.remote()[i].0
                && ids@[i].1 == self.remote()[i].1,
    {
        crdt_remote_version(&self.doc)
    }

    /// How many operations the next patch will carry.
    pub fn pending(&self) -> (n: usize)
        requires
            self.wf(),
        ensures
            n == self.frontier().ops - self.baseline().ops,
    {
        self.ops - self.sent
    }

    /// Encodes every operation since the baseline and moves the baseline to
    /// the frontier, so that the next patch starts where this one ends.
    pub fn patch_from_version(&mut self) -> (bytes: Vec<u8>)
        requires
            old(self).wf(),
        ensures
            bytes@ == old(self).patch_since(old(self).baseline()),
            *final(self) == old(self).caught_up(),
            final(self).wf(),
    {
        let mut from: Vec<usize> = Vec::new();
        if self.sent > 0 {
            from.push(self.sent - 1);
        }
        assert(from@ =~= tip_after(self.sent as nat));
        let bytes = crdt_patch_since(&self.doc, &from);
        self.sent = self.ops;
        bytes
    }
}

} // verus!
