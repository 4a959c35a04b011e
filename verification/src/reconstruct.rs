//! Reconstruction of the exact raw changeset bytes from a Git commit and
//! its metadata record, and the inverse synthesis of a record from an
//! original changeset. The reconstructed bytes must hash back to the known
//! changeset id; Mercurial's historical conflict resolution appends null
//! bytes, so trailing nulls are popped until the hash matches.

use sha1::Digest;
use vstd::prelude::*;
use crate::authorship::{authorship_to_hg, committer_to_hg, hg_author_of, hg_committer_of};
use crate::bytes::{bytes_eq, has_byte, join_with, lemma_join_with_snoc, push_slice, split_on,
    vecs_view};
use crate::changeset::{
    parse_changeset_spec, serialize_changeset_spec, ChangesetFields, HgChangeset, RawHgChangeset,
};
use crate::extra::{extra_buf_wf, extra_dump, extra_from_spec, extra_insert, ChangesetExtra};
use crate::metadata::{opt_view, GitChangesetMetadata, MetadataFields};
use crate::oid::{lex_le, null_oid, GitObjectId, HgChangesetId, HgObjectId};
use crate::patch::{
    apply_patch, apply_patch_spec, parse_patch_parts, patch_infos_view, patch_wf, textdiff,
    GitChangesetPatch,
};

verus! {

/// The SHA-1 digest of a byte string, named: the bytes depend on the input
/// alone.
pub uninterp spec fn sha1_of(data: Seq<u8>) -> Seq<u8>;

/// Relies on `sha1::Sha1` of the sha1 crate: the SHA-1 digest, twenty bytes
/// that depend on the input bytes alone.
#[verifier::external_body]
fn sha1_digest(data: &[u8]) -> (r: HgObjectId)
    ensures
        r@ == sha1_of(data@),
{
    let mut h = sha1::Sha1::new();
    h.update(data);
    HgObjectId { bytes: h.finalize().into() }
}

/// A Git commit as the reconstructor reads it: the two authorship lines and
/// the message body.
pub struct Commit {
    pub author: Vec<u8>,
    pub committer: Vec<u8>,
    pub body: Vec<u8>,
    pub parents: Vec<GitObjectId>,
}

/// The abstract content of a commit.
pub struct CommitFields {
    pub author: Seq<u8>,
    pub committer: Seq<u8>,
    pub body: Seq<u8>,
    pub parents: Seq<Seq<u8>>,
}

impl View for Commit {
    type V = CommitFields;

    open spec fn view(&self) -> CommitFields {
        CommitFields {
            author: self.author@,
            committer: self.committer@,
            body: self.body@,
            parents: self.parents@.map_values(|p: GitObjectId| p@),
        }
    }
}

impl Commit {
    /// The authorship line.
    pub fn author(&self) -> (r: &Vec<u8>)
        ensures
            r@ == self@.author,
    {
        &self.author
    }

    /// The committer line.
    pub fn committer(&self) -> (r: &Vec<u8>)
        ensures
            r@ == self@.committer,
    {
        &self.committer
    }

    /// The message body.
    pub fn body(&self) -> (r: &Vec<u8>)
        ensures
            r@ == self@.body,
    {
        &self.body
    }

    /// The parent commit ids.
    pub fn parents(&self) -> (r: &Vec<GitObjectId>)
        ensures
            r@.map_values(|p: GitObjectId| p@) == self@.parents,
    {
        &self.parents
    }
}

/// Sorted insertion in ascending byte-wise order.
pub open spec fn insert_sorted(ss: Seq<Seq<u8>>, x: Seq<u8>) -> Seq<Seq<u8>>
    decreases ss.len(),
{
    if ss.len() == 0 {
        seq![x]
    } else if lex_le(x, ss[0]) {
        seq![x] + ss
    } else {
        seq![ss[0]] + insert_sorted(ss.skip(1), x)
    }
}

/// Insertion sort in ascending byte-wise order.
pub open spec fn sort_bytes_spec(ss: Seq<Seq<u8>>) -> Seq<Seq<u8>>
    decreases ss.len(),
{
    if ss.len() == 0 {
        Seq::empty()
    } else {
        insert_sorted(sort_bytes_spec(ss.drop_last()), ss.last())
    }
}

proof fn lemma_insert_sorted_split(ss: Seq<Seq<u8>>, x: Seq<u8>, i: int)
    requires
        0 <= i <= ss.len(),
        forall|j: int| 0 <= j < i ==> !lex_le(x, #[trigger] ss[j]),
    ensures
        insert_sorted(ss, x) == ss.take(i) + insert_sorted(ss.skip(i), x),
    decreases i,
{
    if i == 0 {
        assert(ss.take(0) =~= Seq::<Seq<u8>>::empty());
        assert(ss.skip(0) =~= ss);
        assert(ss.take(0) + insert_sorted(ss, x) =~= insert_sorted(ss, x));
    } else {
        assert(!lex_le(x, ss[0]));
        assert forall|j: int| 0 <= j < i - 1 implies !lex_le(x, #[trigger] ss.skip(1)[j]) by {
            assert(ss.skip(1)[j] == ss[j + 1]);
        }
        lemma_insert_sorted_split(ss.skip(1), x, i - 1);
        assert(ss.skip(1).take(i - 1) =~= ss.take(i).skip(1));
        assert(ss.skip(1).skip(i - 1) =~= ss.skip(i));
        assert(seq![ss[0]] + (ss.take(i).skip(1) + insert_sorted(ss.skip(i), x)) =~= ss.take(i)
            + insert_sorted(ss.skip(i), x));
    }
}

fn insert_sorted_exec(r: &mut Vec<Vec<u8>>, x: Vec<u8>)
    ensures
        vecs_view(final(r)@) == insert_sorted(vecs_view(old(r)@), x@),
{
    let n = r.len();
    let mut i: usize = 0;
    while i < n
        invariant
            i <= n,
            n == r@.len(),
            *r == *old(r),
            forall|j: int| 0 <= j < i ==> !lex_le(x@, #[trigger] vecs_view(old(r)@)[j]),
        decreases n - i,
    {
        proof {
            assert(vecs_view(r@)[i as int] == r@[i as int]@);
        }
        if crate::oid::bytes_le(x.as_slice(), r[i].as_slice()) {
            proof {
                lemma_insert_sorted_split(vecs_view(old(r)@), x@, i as int);
                assert(vecs_view(old(r)@).skip(i as int)[0] == vecs_view(old(r)@)[i as int]);
                assert(insert_sorted(vecs_view(old(r)@).skip(i as int), x@) == seq![x@]
                    + vecs_view(old(r)@).skip(i as int));
            }
            r.insert(i, x);
            proof {
                assert(vecs_view(r@) =~= insert_sorted(vecs_view(old(r)@), x@));
            }
            return ;
        }
        i += 1;
    }
    proof {
        lemma_insert_sorted_split(vecs_view(old(r)@), x@, n as int);
        assert(vecs_view(old(r)@).skip(n as int) =~= Seq::<Seq<u8>>::empty());
    }
    r.push(x);
    proof {
        assert(vecs_view(r@) =~= insert_sorted(vecs_view(old(r)@), x@));
    }
}

/// Sort byte strings ascending byte-wise.
pub fn sort_byte_vecs(v: Vec<Vec<u8>>) -> (r: Vec<Vec<u8>>)
    ensures
        vecs_view(r@) == sort_bytes_spec(vecs_view(v@)),
{
    let n = v.len();
    let mut r: Vec<Vec<u8>> = Vec::new();
    let mut v = v;
    let mut i: usize = 0;
    proof {
        assert(vecs_view(v@).take(0) =~= Seq::<Seq<u8>>::empty());
        assert(vecs_view(r@) =~= sort_bytes_spec(vecs_view(v@).take(0)));
    }
    while i < n
        invariant
            i <= n,
            n == v@.len(),
            vecs_view(r@) == sort_bytes_spec(vecs_view(v@).take(i as int)),
        decreases n - i,
    {
        let x = vstd::slice::slice_to_vec(v[i].as_slice());
        proof {
            assert(x@ == vecs_view(v@)[i as int]);
            assert(vecs_view(v@).take(i + 1).drop_last() =~= vecs_view(v@).take(i as int));
            assert(vecs_view(v@).take(i + 1).last() == vecs_view(v@)[i as int]);
        }
        insert_sorted_exec(&mut r, x);
        i += 1;
    }
    proof {
        assert(vecs_view(v@).take(n as int) =~= vecs_view(v@));
    }
    r
}

/// Join fields with a separator.
pub fn join_bytes(parts: &Vec<Vec<u8>>, sep: u8) -> (r: Vec<u8>)
    ensures
        r@ == join_with(vecs_view(parts@), sep),
{
    let n = parts.len();
    let mut r: Vec<u8> = Vec::new();
    let mut i: usize = 0;
    proof {
        assert(vecs_view(parts@).take(0) =~= Seq::<Seq<u8>>::empty());
        assert(r@ =~= join_with(vecs_view(parts@).take(0), sep));
    }
    while i < n
        invariant
            i <= n,
            n == parts@.len(),
            r@ == join_with(vecs_view(parts@).take(i as int), sep),
        decreases n - i,
    {
        if i > 0 {
            r.push(sep);
        }
        push_slice(&mut r, parts[i].as_slice());
        proof {
            let pv = vecs_view(parts@);
            assert(pv[i as int] == parts@[i as int]@);
            lemma_join_with_snoc(pv.take(i as int), pv[i as int], sep);
            assert(pv.take(i + 1) =~= pv.take(i as int).push(pv[i as int]));
            if i == 0 {
                assert(r@ =~= join_with(pv.take(1), sep));
            } else {
                assert(r@ =~= join_with(pv.take(i + 1), sep));
            }
        }
        i += 1;
    }
    proof {
        assert(vecs_view(parts@).take(n as int) =~= vecs_view(parts@));
    }
    r
}

/// The extras key naming a committer.
pub open spec fn committer_key() -> Seq<u8> {
    seq![99u8, 111u8, 109u8, 109u8, 105u8, 116u8, 116u8, 101u8, 114u8]
}

/// The candidate raw bytes synthesized from a commit and a record, before
/// any correction patch: canonical serialization of the derived fields,
/// with a committer extra added when the commit's committer differs from
/// its author, and the file names sorted.
pub open spec fn build_changeset_spec(c: CommitFields, m: MetadataFields) -> Option<Seq<u8>> {
    match hg_author_of(c.author) {
        None => None,
        Some(ha) => {
            if c.author != c.committer && hg_committer_of(c.committer) is None {
                None
            } else {
                let committer = if c.author == c.committer {
                    None::<Seq<u8>>
                } else {
                    Some(hg_committer_of(c.committer).unwrap())
                };
                let author = if m.author is Some {
                    m.author.unwrap()
                } else {
                    ha.0
                };
                let base_entries = match m.extra {
                    None => Seq::<(Seq<u8>, Seq<u8>)>::empty(),
                    Some(e) => extra_from_spec(e),
                };
                let entries = match committer {
                    None => base_entries,
                    Some(cl) => extra_insert(base_entries, committer_key(), cl),
                };
                let extra_part = if m.extra is None && committer is None {
                    None::<Seq<u8>>
                } else {
                    Some(extra_dump(entries))
                };
                let file_items = match m.files {
                    None => Seq::<Seq<u8>>::empty(),
                    Some(f) => split_on(f, 0),
                };
                let sorted = sort_bytes_spec(file_items);
                let files_part = if sorted.len() == 0 {
                    None::<Seq<u8>>
                } else {
                    Some(join_with(sorted, 10))
                };
                Some(
                    serialize_changeset_spec(
                        ChangesetFields {
                            manifest: m.manifest,
                            author,
                            timestamp: ha.1,
                            utcoffset: ha.2,
                            extra: extra_part,
                            files: files_part,
                            body: c.body,
                        },
                    ),
                )
            }
        },
    }
}

/// Candidate bytes, as executable code.
#[verifier::rlimit(100)]
pub fn build_changeset(commit: &Commit, metadata: &GitChangesetMetadata) -> (r: Option<
    RawHgChangeset,
>)
    requires
        metadata@.extra is Some ==> extra_buf_wf(metadata@.extra.unwrap()),
    ensures
        match r {
            Some(v) => build_changeset_spec(commit@, metadata@) == Some(v.0@),
            None => build_changeset_spec(commit@, metadata@) == None::<Seq<u8>>,
        },
{
    let ha = match authorship_to_hg(commit.author.as_slice()) {
        Some(p) => p,
        None => {
            return None;
        },
    };
    let same = bytes_eq(commit.author.as_slice(), commit.committer.as_slice());
    let committer_line: Option<Vec<u8>> = if same {
        None
    } else {
        match committer_to_hg(commit.committer.as_slice()) {
            Some(cl) => Some(cl),
            None => {
                return None;
            },
        }
    };
    let author: Vec<u8> = match &metadata.author {
        Some(a) => vstd::slice::slice_to_vec(a.as_slice()),
        None => ha.0,
    };
    let mut extra: Option<ChangesetExtra> = metadata.extra();
    let extra_part: Option<Vec<u8>> = match committer_line {
        Some(cl) => {
            let mut map = match extra {
                Some(m) => m,
                None => ChangesetExtra::new(),
            };
            let ck = [99u8, 111u8, 109u8, 109u8, 105u8, 116u8, 116u8, 101u8, 114u8];
            proof {
                assert(ck@ =~= committer_key());
            }
            map.set(ck.as_slice(), cl.as_slice());
            let mut out: Vec<u8> = Vec::new();
            map.dump_into(&mut out);
            Some(out)
        },
        None => match extra {
            Some(m) => {
                let mut out: Vec<u8> = Vec::new();
                m.dump_into(&mut out);
                Some(out)
            },
            None => None,
        },
    };
    let file_items = metadata.files();
    let sorted = sort_byte_vecs(file_items);
    let files_part: Option<Vec<u8>> = if sorted.len() == 0 {
        proof {
            assert(vecs_view(sorted@).len() == 0);
        }
        None
    } else {
        Some(join_bytes(&sorted, 10))
    };
    let h = HgChangeset {
        manifest: metadata.manifest_id,
        author,
        timestamp: ha.1,
        utcoffset: ha.2,
        extra: extra_part,
        files: files_part,
        body: vstd::slice::slice_to_vec(commit.body.as_slice()),
    };
    proof {
        if metadata@.files is None {
            assert(vecs_view(file_items@) =~= Seq::<Seq<u8>>::empty());
        }
    }
    Some(h.serialize())
}

/// Reconstruction result before truncation: the candidate bytes, patched
/// when the record carries a correction patch.
pub open spec fn patched_changeset_spec(c: CommitFields, m: MetadataFields) -> Option<Seq<u8>> {
    match build_changeset_spec(c, m) {
        None => None,
        Some(built) => match m.patch {
            None => Some(built),
            Some(pt) => match parse_patch_parts(split_on(pt, 0)) {
                None => None,
                Some(es) => if patch_wf(es, 0, built.len() as int) {
                    Some(apply_patch_spec(es, built, 0))
                } else {
                    None
                },
            },
        },
    }
}

/// Null-byte truncation: while the text ends in a null byte and does not
/// hash to the changeset id, pop the null; fail when the text runs out.
pub open spec fn truncate_spec(node: Seq<u8>, prefix: Seq<u8>, s: Seq<u8>) -> Option<Seq<u8>>
    decreases s.len(),
{
    if s.len() == 0 {
        None
    } else if s[s.len() - 1] == 0 {
        if sha1_of(prefix + s) == node {
            Some(s)
        } else {
            truncate_spec(node, prefix, s.drop_last())
        }
    } else {
        Some(s)
    }
}

/// The views of a list of ids.
pub open spec fn oids_view(ps: Seq<HgObjectId>) -> Seq<Seq<u8>> {
    ps.map_values(|p: HgObjectId| p@)
}

/// The hashing prefix for a changeset: its parent ids sorted ascending,
/// padded with the null id to two entries, first two concatenated.
pub open spec fn parents_prefix(parents: Seq<Seq<u8>>) -> Seq<u8> {
    let padded = sort_bytes_spec(parents) + seq![null_oid(), null_oid()];
    padded[0] + padded[1]
}

/// The hashing prefix, as executable code.
pub fn parents_prefix_exec(parents: &Vec<HgChangesetId>) -> (r: Vec<u8>)
    ensures
        r@ == parents_prefix(oids_view(parents@)),
{
    let mut raw: Vec<Vec<u8>> = Vec::new();
    let n = parents.len();
    let mut i: usize = 0;
    while i < n
        invariant
            i <= n,
            n == parents@.len(),
            vecs_view(raw@) =~= oids_view(parents@).take(i as int),
        decreases n - i,
    {
        let b = vstd::slice::slice_to_vec(parents[i].bytes.as_slice());
        proof {
            assert(b@ == oids_view(parents@)[i as int]);
            assert(vecs_view(raw@.push(b)) =~= vecs_view(raw@).push(b@));
            assert(oids_view(parents@).take(i + 1) =~= oids_view(parents@).take(i as int).push(
                b@,
            ));
        }
        raw.push(b);
        i += 1;
    }
    proof {
        assert(oids_view(parents@).take(n as int) =~= oids_view(parents@));
    }
    let sorted = sort_byte_vecs(raw);
    let null = HgObjectId::null();
    let mut r: Vec<u8> = Vec::new();
    let ghost padded = sort_bytes_spec(oids_view(parents@)) + seq![null_oid(), null_oid()];
    if sorted.len() >= 1 {
        push_slice(&mut r, sorted[0].as_slice());
        proof {
            assert(vecs_view(sorted@)[0] == sorted@[0]@);
            assert(padded[0] == vecs_view(sorted@)[0]);
        }
    } else {
        push_slice(&mut r, null.bytes.as_slice());
        proof {
            assert(padded[0] == null_oid());
        }
    }
    if sorted.len() >= 2 {
        push_slice(&mut r, sorted[1].as_slice());
        proof {
            assert(vecs_view(sorted@)[1] == sorted@[1]@);
            assert(padded[1] == vecs_view(sorted@)[1]);
        }
    } else {
        push_slice(&mut r, null.bytes.as_slice());
        proof {
            assert(padded[1] == null_oid());
        }
    }
    r
}

/// The changeset hash of `data` under the given parents: SHA-1 over the
/// sorted, null-padded parent ids followed by the bytes.
pub fn hash_with_parents(parents: &Vec<HgChangesetId>, data: &[u8]) -> (r: HgChangesetId)
    ensures
        r@ == sha1_of(parents_prefix(oids_view(parents@)) + data@),
{
    let prefix = parents_prefix_exec(parents);
    let mut buf = prefix;
    push_slice(&mut buf, data);
    sha1_digest(buf.as_slice())
}

/// What reconstruction returns: the patched candidate, truncated.
pub open spec fn from_metadata_spec(
    c: CommitFields,
    m: MetadataFields,
    parents: Seq<Seq<u8>>,
) -> Option<Seq<u8>> {
    match patched_changeset_spec(c, m) {
        None => None,
        Some(p) => truncate_spec(m.changeset, parents_prefix(parents), p),
    }
}

impl RawHgChangeset {
    /// Reconstruct the exact raw changeset bytes from a commit, its
    /// metadata record and its parents' changeset ids.
    pub fn from_metadata(
        commit: &Commit,
        metadata: &GitChangesetMetadata,
        parents: &Vec<HgChangesetId>,
    ) -> (r: Option<RawHgChangeset>)
        requires
            metadata@.extra is Some ==> extra_buf_wf(metadata@.extra.unwrap()),
        ensures
            match r {
                Some(v) => from_metadata_spec(commit@, metadata@, oids_view(parents@)) == Some(
                    v.0@,
                ),
                None => from_metadata_spec(commit@, metadata@, oids_view(parents@)) == None::<
                    Seq<u8>,
                >,
            },
    {
        let built = match build_changeset(commit, metadata) {
            Some(b) => b,
            None => {
                return None;
            },
        };
        let patched: Vec<u8> = match metadata.patch() {
            Some(p) => match p.apply(built.0.as_slice()) {
                Some(v) => v,
                None => {
                    return None;
                },
            },
            None => built.0,
        };
        let prefix = parents_prefix_exec(parents);
        let ghost node = metadata@.changeset;
        let ghost patched0 = patched@;
        proof {
            assert(patched_changeset_spec(commit@, metadata@) == Some(patched0));
        }
        let mut cur = patched;
        loop
            invariant
                prefix@ == parents_prefix(oids_view(parents@)),
                node == metadata@.changeset,
                patched_changeset_spec(commit@, metadata@) == Some(patched0),
                truncate_spec(node, prefix@, patched0) == truncate_spec(node, prefix@, cur@),
            decreases cur@.len(),
        {
            let n = cur.len();
            if n == 0 {
                return None;
            }
            if cur[n - 1] != 0 {
                return Some(RawHgChangeset(cur));
            }
            let mut buf: Vec<u8> = Vec::new();
            push_slice(&mut buf, prefix.as_slice());
            push_slice(&mut buf, cur.as_slice());
            proof {
                assert(buf@ =~= prefix@ + cur@);
            }
            let h = sha1_digest(buf.as_slice());
            let matches_node = h == metadata.changeset_id;
            if matches_node {
                proof {
                    assert(sha1_of(prefix@ + cur@) == node);
                }
                return Some(RawHgChangeset(cur));
            }
            proof {
                assert(sha1_of(prefix@ + cur@) != node);
            }
            cur.pop();
        }
    }
}

/// A record was synthesized from original bytes: the candidate either
/// equals them, or the recorded patch corrects it to them.
pub open spec fn generated_from(c: CommitFields, m: MetadataFields, raw: Seq<u8>) -> bool {
    match build_changeset_spec(c, m) {
        None => false,
        Some(built) => match m.patch {
            None => built == raw,
            Some(pt) => built != raw && (match parse_patch_parts(split_on(pt, 0)) {
                None => false,
                Some(es) => patch_wf(es, 0, built.len() as int) && apply_patch_spec(es, built, 0)
                    == raw,
            }),
        },
    }
}

/// The metadata record synthesized for an original changeset.
pub type GeneratedGitChangesetMetadata = GitChangesetMetadata;

impl GitChangesetMetadata {
    /// Synthesize the record for `raw` under `changeset_id`: fields from the
    /// parsed changeset, an author override when the commit's authorship
    /// differs, and a correction patch when the candidate bytes differ from
    /// the original.
    pub fn generate(
        commit: &Commit,
        changeset_id: &HgChangesetId,
        raw_changeset: &RawHgChangeset,
    ) -> (r: Option<GitChangesetMetadata>)
        requires
            (match parse_changeset_spec(raw_changeset.0@) {
                Some(h) => h.extra is Some ==> extra_buf_wf(h.extra.unwrap()),
                None => true,
            }),
        ensures
            match r {
                Some(m) => {
                    let h = parse_changeset_spec(raw_changeset.0@).unwrap();
                    &&& parse_changeset_spec(raw_changeset.0@) is Some
                    &&& m@.changeset == changeset_id@
                    &&& m@.manifest == h.manifest
                    &&& m@.author == (if commit@.author != h.author {
                        Some(h.author)
                    } else {
                        None
                    })
                    &&& m@.extra == h.extra
                    &&& m@.files == h.files
                    &&& generated_from(commit@, m@, raw_changeset.0@)
                },
                None => parse_changeset_spec(raw_changeset.0@) is None || (
                build_changeset_spec_of_generate(commit@, changeset_id@, raw_changeset.0@)
                    is None),
            },
    {
        let changeset = match raw_changeset.parse() {
            Some(h) => h,
            None => {
                return None;
            },
        };
        let author: Option<Vec<u8>> = if !bytes_eq(
            commit.author.as_slice(),
            changeset.author.as_slice(),
        ) {
            Some(vstd::slice::slice_to_vec(changeset.author.as_slice()))
        } else {
            None
        };
        let mut temp = GitChangesetMetadata {
            changeset_id: *changeset_id,
            manifest_id: changeset.manifest,
            author,
            extra: changeset.extra,
            files: changeset.files,
            patch: None,
        };
        let new = match build_changeset(commit, &temp) {
            Some(b) => b,
            None => {
                return None;
            },
        };
        if !bytes_eq(raw_changeset.0.as_slice(), new.0.as_slice()) {
            let diff = textdiff(raw_changeset.0.as_slice(), new.0.as_slice());
            let text = GitChangesetPatch::from_patch_info(&diff);
            proof {
                assert(diff@.len() == 1);
                crate::patch::lemma_patch_text_round_trip(patch_infos_view(diff@));
            }
            temp.patch = Some(text);
        }
        Some(temp)
    }
}

/// The candidate bytes that `generate` compares against, for its failure
/// clause: the record fields are drawn from the parsed changeset.
pub open spec fn build_changeset_spec_of_generate(
    c: CommitFields,
    id: Seq<u8>,
    raw: Seq<u8>,
) -> Option<Seq<u8>> {
    match parse_changeset_spec(raw) {
        None => None,
        Some(h) => build_changeset_spec(
            c,
            MetadataFields {
                changeset: id,
                manifest: h.manifest,
                author: if c.author != h.author {
                    Some(h.author)
                } else {
                    None
                },
                extra: h.extra,
                files: h.files,
                patch: None,
            },
        ),
    }
}

/// A synthesized record reconstructs the original bytes exactly: the round
/// trip of synthesis and reconstruction. When the original ends in a null
/// byte, its hash under the given parents must be the recorded changeset
/// id, which is the changeset id invariant itself.
pub proof fn lemma_reconstruct_round_trip(
    c: CommitFields,
    m: MetadataFields,
    raw: Seq<u8>,
    parents: Seq<Seq<u8>>,
)
    requires
        generated_from(c, m, raw),
        raw.len() > 0,
        raw[raw.len() - 1] == 0 ==> sha1_of(parents_prefix(parents) + raw) == m.changeset,
    ensures
        from_metadata_spec(c, m, parents) == Some(raw),
{
    let built = build_changeset_spec(c, m).unwrap();
    match m.patch {
        None => {
            assert(patched_changeset_spec(c, m) == Some(raw));
        },
        Some(pt) => {
            let es = parse_patch_parts(split_on(pt, 0)).unwrap();
            assert(patched_changeset_spec(c, m) == Some(apply_patch_spec(es, built, 0)));
        },
    }
    lemma_truncate_exact(m.changeset, parents_prefix(parents), raw);
}

/// A text that hashes to the id survives truncation unchanged; one that
/// does not end in a null byte is never truncated.
pub proof fn lemma_truncate_exact(node: Seq<u8>, prefix: Seq<u8>, t: Seq<u8>)
    requires
        t.len() > 0,
        t[t.len() - 1] == 0 ==> sha1_of(prefix + t) == node,
    ensures
        truncate_spec(node, prefix, t) == Some(t),
{
}

} // verus!
