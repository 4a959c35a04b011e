//! In-memory views of the correspondence tables the reconstructor
//! consults: the metadata notes keyed by Git changeset id, the commits by
//! id, and the Mercurial-to-Git id table. Collaborators fill them; the
//! lookups and the read paths over them are verified.

use vstd::prelude::*;
use crate::bytes::push_slice;
use crate::changeset::RawHgChangeset;
use crate::extra::extra_buf_wf;
use crate::metadata::{parse_metadata_spec, RawGitChangesetMetadata};
use crate::oid::{GitChangesetId, GitObjectId, HgChangesetId};
use crate::reconstruct::{from_metadata_spec, oids_view, Commit, CommitFields};

verus! {

/// First binding of an id in an association list.
pub open spec fn assoc_get<V>(es: Seq<(Seq<u8>, V)>, key: Seq<u8>) -> Option<V>
    decreases es.len(),
{
    if es.len() == 0 {
        None
    } else if es[0].0 == key {
        Some(es[0].1)
    } else {
        assoc_get(es.skip(1), key)
    }
}

/// The metadata notes: Git changeset id to metadata blob bytes.
pub struct Git2HgMap {
    entries: Vec<(GitChangesetId, Vec<u8>)>,
}

impl View for Git2HgMap {
    type V = Seq<(Seq<u8>, Seq<u8>)>;

    closed spec fn view(&self) -> Seq<(Seq<u8>, Seq<u8>)> {
        self.entries@.map_values(|e: (GitChangesetId, Vec<u8>)| (e.0@, e.1@))
    }
}

impl Git2HgMap {
    /// An empty notes table.
    pub fn new() -> (r: Self)
        ensures
            r@ == Seq::<(Seq<u8>, Seq<u8>)>::empty(),
    {
        let r = Git2HgMap { entries: Vec::new() };
        proof {
            assert(r@ =~= Seq::<(Seq<u8>, Seq<u8>)>::empty());
        }
        r
    }

    /// Record a note.
    pub fn insert(&mut self, id: GitChangesetId, blob: Vec<u8>)
        ensures
            final(self)@ == old(self)@.push((id@, blob@)),
    {
        let ghost before = self@;
        self.entries.push((id, blob));
        proof {
            assert(self@ =~= before.push((id@, blob@)));
        }
    }

    /// The blob bound to an id, if any.
    pub fn get(&self, id: &GitChangesetId) -> (r: Option<&Vec<u8>>)
        ensures
            match r {
                Some(v) => assoc_get(self@, id@) == Some(v@),
                None => assoc_get(self@, id@) == None::<Seq<u8>>,
            },
    {
        let n = self.entries.len();
        let mut i: usize = 0;
        proof {
            assert(self@.skip(0) =~= self@);
        }
        while i < n
            invariant
                i <= n,
                n == self.entries@.len(),
                assoc_get(self@, id@) == assoc_get(self@.skip(i as int), id@),
            decreases n - i,
        {
            proof {
                assert(self@.skip(i as int)[0] == self@[i as int]);
                assert(self@[i as int] == (self.entries@[i as int].0@, self.entries@[i as int].1@));
                assert(self@.skip(i as int).skip(1) =~= self@.skip(i + 1));
            }
            if self.entries[i].0 == *id {
                return Some(&self.entries[i].1);
            }
            i += 1;
        }
        proof {
            assert(self@.skip(n as int) =~= Seq::<(Seq<u8>, Seq<u8>)>::empty());
        }
        None
    }
}

/// The commits the reconstructor may read, by commit id.
pub struct CommitStore {
    entries: Vec<(GitObjectId, Commit)>,
}

impl View for CommitStore {
    type V = Seq<(Seq<u8>, CommitFields)>;

    closed spec fn view(&self) -> Seq<(Seq<u8>, CommitFields)> {
        self.entries@.map_values(|e: (GitObjectId, Commit)| (e.0@, e.1@))
    }
}

impl CommitStore {
    /// An empty commit store.
    pub fn new() -> (r: Self)
        ensures
            r@ == Seq::<(Seq<u8>, CommitFields)>::empty(),
    {
        let r = CommitStore { entries: Vec::new() };
        proof {
            assert(r@ =~= Seq::<(Seq<u8>, CommitFields)>::empty());
        }
        r
    }

    /// Record a commit.
    pub fn insert(&mut self, id: GitObjectId, commit: Commit)
        ensures
            final(self)@ == old(self)@.push((id@, commit@)),
    {
        let ghost before = self@;
        self.entries.push((id, commit));
        proof {
            assert(self@ =~= before.push((id@, commit@)));
        }
    }

    /// The commit bound to an id, if any.
    pub fn get(&self, id: &GitObjectId) -> (r: Option<&Commit>)
        ensures
            match r {
                Some(c) => assoc_get(self@, id@) == Some(c@),
                None => assoc_get(self@, id@) == None::<CommitFields>,
            },
    {
        let n = self.entries.len();
        let mut i: usize = 0;
        proof {
            assert(self@.skip(0) =~= self@);
        }
        while i < n
            invariant
                i <= n,
                n == self.entries@.len(),
                assoc_get(self@, id@) == assoc_get(self@.skip(i as int), id@),
            decreases n - i,
        {
            proof {
                assert(self@.skip(i as int)[0] == self@[i as int]);
                assert(self@[i as int] == (self.entries@[i as int].0@, self.entries@[i as int].1@));
                assert(self@.skip(i as int).skip(1) =~= self@.skip(i + 1));
            }
            if self.entries[i].0 == *id {
                return Some(&self.entries[i].1);
            }
            i += 1;
        }
        proof {
            assert(self@.skip(n as int) =~= Seq::<(Seq<u8>, CommitFields)>::empty());
        }
        None
    }
}

/// The changeset id a metadata note binds to a Git changeset id.
pub open spec fn to_hg_spec(notes: Seq<(Seq<u8>, Seq<u8>)>, id: Seq<u8>) -> Option<Seq<u8>> {
    match assoc_get(notes, id) {
        None => None,
        Some(blob) => match parse_metadata_spec(blob) {
            None => None,
            Some(m) => Some(m.changeset),
        },
    }
}

impl RawGitChangesetMetadata {
    /// Read the metadata blob recorded for a changeset.
    pub fn read(changeset_id: &GitChangesetId, notes: &Git2HgMap) -> (r: Option<
        RawGitChangesetMetadata,
    >)
        ensures
            match r {
                Some(v) => assoc_get(notes@, changeset_id@) == Some(v.0@),
                None => assoc_get(notes@, changeset_id@) == None::<Seq<u8>>,
            },
    {
        match notes.get(changeset_id) {
            Some(blob) => Some(RawGitChangesetMetadata(vstd::slice::slice_to_vec(blob.as_slice()))),
            None => None,
        }
    }
}

impl GitObjectId {
    /// The Mercurial changeset id recorded for a Git changeset id, read
    /// from its metadata note.
    pub fn to_hg(&self, notes: &Git2HgMap) -> (r: Option<HgChangesetId>)
        ensures
            match r {
                Some(id) => to_hg_spec(notes@, self@) == Some(id@),
                None => to_hg_spec(notes@, self@) == None::<Seq<u8>>,
            },
    {
        let raw = match RawGitChangesetMetadata::read(self, notes) {
            Some(v) => v,
            None => {
                return None;
            },
        };
        let meta = match raw.parse() {
            Some(m) => m,
            None => {
                return None;
            },
        };
        Some(meta.changeset_id)
    }
}

/// The metadata note of `id` parses and its extras are well formed, as the
/// read path requires.
pub open spec fn note_ok(notes: Seq<(Seq<u8>, Seq<u8>)>, id: Seq<u8>) -> bool {
    match assoc_get(notes, id) {
        None => true,
        Some(blob) => match parse_metadata_spec(blob) {
            None => true,
            Some(m) => m.extra is Some ==> extra_buf_wf(m.extra.unwrap()),
        },
    }
}

/// The hg changeset ids of a commit's parents, all or nothing.
pub open spec fn resolve_parents(notes: Seq<(Seq<u8>, Seq<u8>)>, ps: Seq<Seq<u8>>) -> Option<
    Seq<Seq<u8>>,
>
    decreases ps.len(),
{
    if ps.len() == 0 {
        Some(Seq::empty())
    } else {
        match to_hg_spec(notes, ps[0]) {
            None => None,
            Some(h) => match resolve_parents(notes, ps.skip(1)) {
                None => None,
                Some(rest) => Some(seq![h] + rest),
            },
        }
    }
}

/// What reading a changeset returns: its commit, metadata and resolved
/// parents, passed to the reconstructor.
pub open spec fn read_changeset_spec(
    commits: Seq<(Seq<u8>, CommitFields)>,
    notes: Seq<(Seq<u8>, Seq<u8>)>,
    oid: Seq<u8>,
) -> Option<Seq<u8>> {
    match assoc_get(commits, oid) {
        None => None,
        Some(c) => match assoc_get(notes, oid) {
            None => None,
            Some(blob) => match parse_metadata_spec(blob) {
                None => None,
                Some(m) => match resolve_parents(notes, c.parents) {
                    None => None,
                    Some(parents) => from_metadata_spec(c, m, parents),
                },
            },
        },
    }
}

impl RawHgChangeset {
    /// Read and reconstruct the raw changeset recorded for a Git changeset
    /// id: its commit, its metadata note, and its parents' changeset ids
    /// resolved through the notes.
    pub fn read(oid: &GitChangesetId, commits: &CommitStore, notes: &Git2HgMap) -> (r: Option<
        RawHgChangeset,
    >)
        requires
            note_ok(notes@, oid@),
        ensures
            match r {
                Some(v) => read_changeset_spec(commits@, notes@, oid@) == Some(v.0@),
                None => read_changeset_spec(commits@, notes@, oid@) == None::<Seq<u8>>,
            },
    {
        let commit = match commits.get(oid) {
            Some(c) => c,
            None => {
                return None;
            },
        };
        let raw = match RawGitChangesetMetadata::read(oid, notes) {
            Some(v) => v,
            None => {
                return None;
            },
        };
        let meta = match raw.parse() {
            Some(m) => m,
            None => {
                return None;
            },
        };
        let ghost pv = commit@.parents;
        let n = commit.parents.len();
        let mut parents: Vec<HgChangesetId> = Vec::new();
        let mut i: usize = 0;
        proof {
            assert(pv.skip(0) =~= pv);
        }
        while i < n
            invariant
                i <= n,
                n == commit.parents@.len(),
                pv == commit@.parents,
                assoc_get(commits@, oid@) == Some(commit@),
                assoc_get(notes@, oid@) == Some(raw.0@),
                parse_metadata_spec(raw.0@) == Some(meta@),
                resolve_parents(notes@, pv) == (match resolve_parents(notes@, pv.skip(i as int)) {
                    None => None,
                    Some(rest) => Some(oids_view(parents@) + rest),
                }),
            decreases n - i,
        {
            proof {
                assert(pv.skip(i as int)[0] == pv[i as int]);
                assert(pv[i as int] == commit.parents@[i as int]@);
                assert(pv.skip(i as int).skip(1) =~= pv.skip(i + 1));
            }
            match commit.parents[i].to_hg(notes) {
                Some(h) => {
                    let ghost before = parents@;
                    parents.push(h);
                    proof {
                        assert(oids_view(parents@) =~= oids_view(before).push(h@));
                        if resolve_parents(notes@, pv.skip(i + 1)) is Some {
                            let rest = resolve_parents(notes@, pv.skip(i + 1)).unwrap();
                            assert((oids_view(before) + seq![h@]) + rest =~= oids_view(before) + (
                            seq![h@] + rest));
                        }
                    }
                    i += 1;
                },
                None => {
                    return None;
                },
            }
        }
        proof {
            assert(pv.skip(n as int) =~= Seq::<Seq<u8>>::empty());
            assert(oids_view(parents@) + Seq::<Seq<u8>>::empty() =~= oids_view(parents@));
        }
        RawHgChangeset::from_metadata(commit, &meta, &parents)
    }
}

/// The raw bytes of a Mercurial manifest.
pub struct RawHgManifest(pub Vec<u8>);

/// The raw bytes of a Mercurial file: the file contents, preceded by a
/// metadata block framed by `\x01\n` lines when the file carries one.
pub struct RawHgFile(pub Vec<u8>);

impl RawHgFile {
    /// Assemble the raw file from the content blob and the optional
    /// metadata blob.
    pub fn read(contents: &[u8], metadata: Option<&Vec<u8>>) -> (r: RawHgFile)
        ensures
            match metadata {
                None => r.0@ == contents@,
                Some(m) => r.0@ == seq![1u8, 10u8] + m@ + seq![1u8, 10u8] + contents@,
            },
    {
        let mut out: Vec<u8> = Vec::new();
        match metadata {
            Some(m) => {
                out.push(1);
                out.push(10);
                push_slice(&mut out, m.as_slice());
                out.push(1);
                out.push(10);
            },
            None => {},
        }
        push_slice(&mut out, contents);
        proof {
            match metadata {
                None => {
                    assert(out@ =~= contents@);
                },
                Some(m) => {
                    assert(out@ =~= seq![1u8, 10u8] + m@ + seq![1u8, 10u8] + contents@);
                },
            }
        }
        RawHgFile(out)
    }
}

} // verus!
