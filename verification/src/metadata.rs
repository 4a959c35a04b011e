//! The sidecar metadata record of a changeset: a blob of `key SP value`
//! lines with keys among changeset, manifest, author, extra, files and
//! patch, parsed and serialized with a proved round trip.

use vstd::prelude::*;
use crate::bytes::{
    bytes_eq, has_byte, join_with, lemma_join_with_snoc, lemma_split2_concat, lemma_split_join,
    push_slice, split2, split_bytes, split_first_byte, split_on, vecs_view,
};
use crate::extra::{extra_buf_wf, extra_from_spec, ChangesetExtra};
use crate::oid::{
    hex_of, is_hex_lower, lemma_hex_of_is_lower, lemma_hex_of_len, lemma_unhex_hex, null_oid,
    unhex, HgChangesetId, HgManifestId, HgObjectId,
};
use crate::patch::GitChangesetPatch;

verus! {

pub open spec fn key_changeset() -> Seq<u8> {
    seq![99u8, 104u8, 97u8, 110u8, 103u8, 101u8, 115u8, 101u8, 116u8]
}

pub open spec fn key_manifest() -> Seq<u8> {
    seq![109u8, 97u8, 110u8, 105u8, 102u8, 101u8, 115u8, 116u8]
}

pub open spec fn key_author() -> Seq<u8> {
    seq![97u8, 117u8, 116u8, 104u8, 111u8, 114u8]
}

pub open spec fn key_extra() -> Seq<u8> {
    seq![101u8, 120u8, 116u8, 114u8, 97u8]
}

pub open spec fn key_files() -> Seq<u8> {
    seq![102u8, 105u8, 108u8, 101u8, 115u8]
}

pub open spec fn key_patch() -> Seq<u8> {
    seq![112u8, 97u8, 116u8, 99u8, 104u8]
}

/// The abstract content of a metadata record.
pub struct MetadataFields {
    pub changeset: Seq<u8>,
    pub manifest: Seq<u8>,
    pub author: Option<Seq<u8>>,
    pub extra: Option<Seq<u8>>,
    pub files: Option<Seq<u8>>,
    pub patch: Option<Seq<u8>>,
}

/// Partial record while lines are read.
pub struct MetaAcc {
    pub changeset: Option<Seq<u8>>,
    pub manifest: Option<Seq<u8>>,
    pub author: Option<Seq<u8>>,
    pub extra: Option<Seq<u8>>,
    pub files: Option<Seq<u8>>,
    pub patch: Option<Seq<u8>>,
}

pub open spec fn meta_empty_acc() -> MetaAcc {
    MetaAcc {
        changeset: None,
        manifest: None,
        author: None,
        extra: None,
        files: None,
        patch: None,
    }
}

/// One `key SP value` line read into the record; unknown keys reject.
pub open spec fn meta_step(acc: MetaAcc, line: Seq<u8>) -> Option<MetaAcc> {
    match split2(line, 32) {
        None => None,
        Some(kv) => if kv.0 == key_changeset() {
            Some(MetaAcc { changeset: Some(kv.1), ..acc })
        } else if kv.0 == key_manifest() {
            Some(MetaAcc { manifest: Some(kv.1), ..acc })
        } else if kv.0 == key_author() {
            Some(MetaAcc { author: Some(kv.1), ..acc })
        } else if kv.0 == key_extra() {
            Some(MetaAcc { extra: Some(kv.1), ..acc })
        } else if kv.0 == key_files() {
            Some(MetaAcc { files: Some(kv.1), ..acc })
        } else if kv.0 == key_patch() {
            Some(MetaAcc { patch: Some(kv.1), ..acc })
        } else {
            None
        },
    }
}

pub open spec fn meta_fold(lines: Seq<Seq<u8>>, acc: MetaAcc) -> Option<MetaAcc>
    decreases lines.len(),
{
    if lines.len() == 0 {
        Some(acc)
    } else {
        match meta_step(acc, lines[0]) {
            None => None,
            Some(a2) => meta_fold(lines.skip(1), a2),
        }
    }
}

/// The lines of a blob: newline-separated, one trailing newline tolerated.
pub open spec fn meta_lines_of(s: Seq<u8>) -> Seq<Seq<u8>> {
    if s.len() == 0 {
        Seq::empty()
    } else {
        let parts = split_on(s, 10);
        if parts[parts.len() - 1] == Seq::<u8>::empty() {
            parts.take(parts.len() - 1)
        } else {
            parts
        }
    }
}

/// What a metadata blob denotes: the changeset id is required and hex, the
/// manifest id defaults to null, the remaining fields stay raw.
pub open spec fn parse_metadata_spec(s: Seq<u8>) -> Option<MetadataFields> {
    match meta_fold(meta_lines_of(s), meta_empty_acc()) {
        None => None,
        Some(acc) => match acc.changeset {
            None => None,
            Some(c) => if !(c.len() == 40 && is_hex_lower(c)) {
                None
            } else {
                match acc.manifest {
                    None => Some(
                        MetadataFields {
                            changeset: unhex(c),
                            manifest: null_oid(),
                            author: acc.author,
                            extra: acc.extra,
                            files: acc.files,
                            patch: acc.patch,
                        },
                    ),
                    Some(m) => if !(m.len() == 40 && is_hex_lower(m)) {
                        None
                    } else {
                        Some(
                            MetadataFields {
                                changeset: unhex(c),
                                manifest: unhex(m),
                                author: acc.author,
                                extra: acc.extra,
                                files: acc.files,
                                patch: acc.patch,
                            },
                        )
                    },
                }
            },
        },
    }
}

pub open spec fn opt_line(k: Seq<u8>, v: Option<Seq<u8>>) -> Seq<Seq<u8>> {
    match v {
        None => Seq::empty(),
        Some(x) => seq![k + seq![32u8] + x],
    }
}

/// The lines a record serializes to, in canonical order; the manifest line
/// is omitted when the manifest id is null.
pub open spec fn meta_lines(m: MetadataFields) -> Seq<Seq<u8>> {
    seq![key_changeset() + seq![32u8] + hex_of(m.changeset)] + (if m.manifest == null_oid() {
        Seq::<Seq<u8>>::empty()
    } else {
        seq![key_manifest() + seq![32u8] + hex_of(m.manifest)]
    }) + opt_line(key_author(), m.author) + opt_line(key_extra(), m.extra) + opt_line(
        key_files(),
        m.files,
    ) + opt_line(key_patch(), m.patch)
}

pub open spec fn serialize_metadata_spec(m: MetadataFields) -> Seq<u8> {
    join_with(meta_lines(m), 10)
}

/// A record that serialization and parsing round-trip: ids are 20 bytes and
/// no field value holds a newline.
pub open spec fn metadata_wf(m: MetadataFields) -> bool {
    &&& m.changeset.len() == 20
    &&& m.manifest.len() == 20
    &&& (m.author is Some ==> !has_byte(m.author.unwrap(), 10))
    &&& (m.extra is Some ==> !has_byte(m.extra.unwrap(), 10))
    &&& (m.files is Some ==> !has_byte(m.files.unwrap(), 10))
    &&& (m.patch is Some ==> !has_byte(m.patch.unwrap(), 10))
}

/// The owned metadata record.
pub struct GitChangesetMetadata {
    pub changeset_id: HgChangesetId,
    pub manifest_id: HgManifestId,
    pub author: Option<Vec<u8>>,
    pub extra: Option<Vec<u8>>,
    pub files: Option<Vec<u8>>,
    pub patch: Option<Vec<u8>>,
}

pub open spec fn opt_view(o: Option<Vec<u8>>) -> Option<Seq<u8>> {
    match o {
        None => None,
        Some(v) => Some(v@),
    }
}

impl View for GitChangesetMetadata {
    type V = MetadataFields;

    open spec fn view(&self) -> MetadataFields {
        MetadataFields {
            changeset: self.changeset_id@,
            manifest: self.manifest_id@,
            author: opt_view(self.author),
            extra: opt_view(self.extra),
            files: opt_view(self.files),
            patch: opt_view(self.patch),
        }
    }
}

impl GitChangesetMetadata {
    /// The changeset id the record belongs to.
    pub fn changeset_id(&self) -> (r: &HgChangesetId)
        ensures
            r@ == self@.changeset,
    {
        &self.changeset_id
    }

    /// The manifest id, null when none was recorded.
    pub fn manifest_id(&self) -> (r: &HgManifestId)
        ensures
            r@ == self@.manifest,
    {
        &self.manifest_id
    }

    /// The recorded author override, if any.
    pub fn author(&self) -> (r: Option<&Vec<u8>>)
        ensures
            match r {
                Some(v) => self@.author == Some(v@),
                None => self@.author is None,
            },
    {
        match &self.author {
            Some(v) => Some(v),
            None => None,
        }
    }

    /// The extras map recorded for the changeset, if any.
    pub fn extra(&self) -> (r: Option<ChangesetExtra>)
        requires
            self@.extra is Some ==> extra_buf_wf(self@.extra.unwrap()),
        ensures
            r is Some <==> self@.extra is Some,
            r is Some ==> r.unwrap()@ == extra_from_spec(self@.extra.unwrap()),
    {
        match &self.extra {
            Some(v) => Some(ChangesetExtra::from(v.as_slice())),
            None => None,
        }
    }

    /// The recorded file names: NUL-separated in the record, none when the
    /// field is absent.
    pub fn files(&self) -> (r: Vec<Vec<u8>>)
        ensures
            match self@.files {
                None => r@.len() == 0,
                Some(f) => vecs_view(r@) == split_on(f, 0),
            },
    {
        match &self.files {
            Some(v) => split_bytes(v.as_slice(), 0),
            None => Vec::new(),
        }
    }

    /// The correction patch, if any.
    pub fn patch(&self) -> (r: Option<GitChangesetPatch>)
        ensures
            r is Some <==> self@.patch is Some,
            r is Some ==> r.unwrap().0@ == self@.patch.unwrap(),
    {
        match &self.patch {
            Some(v) => Some(GitChangesetPatch(vstd::slice::slice_to_vec(v.as_slice()))),
            None => None,
        }
    }

    /// Serialize to the blob form: present fields only, canonical order.
    #[verifier::rlimit(100)]
    pub fn serialize(&self) -> (r: Vec<u8>)
        ensures
            r@ == serialize_metadata_spec(self@),
    {
        let ghost m = self@;
        let mut r: Vec<u8> = Vec::new();
        let ghost mut ls: Seq<Seq<u8>> = Seq::empty();
        push_key_changeset(&mut r);
        r.push(32);
        let cs_hex = self.changeset_id.to_hex();
        push_slice(&mut r, cs_hex.as_slice());
        proof {
            ls = ls.push(key_changeset() + seq![32u8] + hex_of(m.changeset));
            assert(r@ =~= join_with(ls, 10));
        }
        let null = HgObjectId::null();
        if !(self.manifest_id == null) {
            r.push(10);
            push_key_manifest(&mut r);
            r.push(32);
            let man_hex = self.manifest_id.to_hex();
            push_slice(&mut r, man_hex.as_slice());
            proof {
                let line = key_manifest() + seq![32u8] + hex_of(m.manifest);
                lemma_join_with_snoc(ls, line, 10);
                ls = ls.push(line);
                assert(r@ =~= join_with(ls, 10));
            }
        }
        proof {
            assert(m.manifest == null_oid() <==> self.manifest_id@ == null@);
            assert(ls =~= seq![key_changeset() + seq![32u8] + hex_of(m.changeset)] + (
            if m.manifest == null_oid() {
                Seq::<Seq<u8>>::empty()
            } else {
                seq![key_manifest() + seq![32u8] + hex_of(m.manifest)]
            }));
        }
        let ghost pre_author = ls;
        match &self.author {
            Some(v) => {
                r.push(10);
                push_key_author(&mut r);
                r.push(32);
                push_slice(&mut r, v.as_slice());
                proof {
                    let line = key_author() + seq![32u8] + m.author.unwrap();
                    lemma_join_with_snoc(ls, line, 10);
                    ls = ls.push(line);
                    assert(r@ =~= join_with(ls, 10));
                }
            },
            None => {},
        }
        proof {
            assert(ls =~= pre_author + opt_line(key_author(), m.author));
        }
        let ghost pre_extra = ls;
        match &self.extra {
            Some(v) => {
                r.push(10);
                push_key_extra(&mut r);
                r.push(32);
                push_slice(&mut r, v.as_slice());
                proof {
                    let line = key_extra() + seq![32u8] + m.extra.unwrap();
                    lemma_join_with_snoc(ls, line, 10);
                    ls = ls.push(line);
                    assert(r@ =~= join_with(ls, 10));
                }
            },
            None => {},
        }
        proof {
            assert(ls =~= pre_extra + opt_line(key_extra(), m.extra));
        }
        let ghost pre_files = ls;
        match &self.files {
            Some(v) => {
                r.push(10);
                push_key_files(&mut r);
                r.push(32);
                push_slice(&mut r, v.as_slice());
                proof {
                    let line = key_files() + seq![32u8] + m.files.unwrap();
                    lemma_join_with_snoc(ls, line, 10);
                    ls = ls.push(line);
                    assert(r@ =~= join_with(ls, 10));
                }
            },
            None => {},
        }
        proof {
            assert(ls =~= pre_files + opt_line(key_files(), m.files));
        }
        let ghost pre_patch = ls;
        match &self.patch {
            Some(v) => {
                r.push(10);
                push_key_patch(&mut r);
                r.push(32);
                push_slice(&mut r, v.as_slice());
                proof {
                    let line = key_patch() + seq![32u8] + m.patch.unwrap();
                    lemma_join_with_snoc(ls, line, 10);
                    ls = ls.push(line);
                    assert(r@ =~= join_with(ls, 10));
                }
            },
            None => {},
        }
        proof {
            assert(ls =~= pre_patch + opt_line(key_patch(), m.patch));
            assert(ls =~= meta_lines(m));
        }
        r
    }
}

/// The raw bytes of a metadata blob.
pub struct RawGitChangesetMetadata(pub Vec<u8>);

impl RawGitChangesetMetadata {
    /// Parse the blob; `None` on an unknown key, a malformed line, a missing
    /// changeset line or a malformed id.
    pub fn parse(&self) -> (r: Option<GitChangesetMetadata>)
        ensures
            match r {
                Some(m) => parse_metadata_spec(self.0@) == Some(m@),
                None => parse_metadata_spec(self.0@) == None::<MetadataFields>,
            },
    {
        let mut changeset: Option<Vec<u8>> = None;
        let mut manifest: Option<Vec<u8>> = None;
        let mut author: Option<Vec<u8>> = None;
        let mut extra: Option<Vec<u8>> = None;
        let mut files: Option<Vec<u8>> = None;
        let mut patch: Option<Vec<u8>> = None;
        let mut lines: Vec<Vec<u8>>;
        if self.0.len() == 0 {
            lines = Vec::new();
            proof {
                assert(vecs_view(lines@) =~= meta_lines_of(self.0@));
            }
        } else {
            lines = split_bytes(self.0.as_slice(), 10);
            let last = lines.len() - 1;
            if lines[last].len() == 0 {
                proof {
                    let pv = vecs_view(lines@);
                    assert(pv[pv.len() - 1] == lines@[lines@.len() - 1]@);
                    assert(pv[pv.len() - 1] == Seq::<u8>::empty());
                    assert(vecs_view(lines@.drop_last()) =~= pv.take(pv.len() - 1));
                }
                lines.pop();
                proof {
                    assert(vecs_view(lines@) =~= meta_lines_of(self.0@));
                }
            } else {
                proof {
                    let pv = vecs_view(lines@);
                    assert(pv[pv.len() - 1] == lines@[lines@.len() - 1]@);
                    assert(pv[pv.len() - 1] != Seq::<u8>::empty());
                    assert(vecs_view(lines@) =~= meta_lines_of(self.0@));
                }
            }
        }
        let ghost all = meta_lines_of(self.0@);
        let n = lines.len();
        let mut i: usize = 0;
        proof {
            assert(all.skip(0) =~= all);
        }
        while i < n
            invariant
                i <= n,
                n == lines@.len(),
                all == meta_lines_of(self.0@),
                vecs_view(lines@) == all,
                meta_fold(all, meta_empty_acc()) == meta_fold(
                    all.skip(i as int),
                    MetaAcc {
                        changeset: opt_view(changeset),
                        manifest: opt_view(manifest),
                        author: opt_view(author),
                        extra: opt_view(extra),
                        files: opt_view(files),
                        patch: opt_view(patch),
                    },
                ),
            decreases n - i,
        {
            proof {
                assert(all.skip(i as int)[0] == all[i as int]);
                assert(all[i as int] == lines@[i as int]@);
                assert(all.skip(i as int).skip(1) =~= all.skip(i + 1));
            }
            let (k, v) = match split_first_byte(lines[i].as_slice(), 32) {
                Some(p) => p,
                None => {
                    return None;
                },
            };
            let kc = [99u8, 104u8, 97u8, 110u8, 103u8, 101u8, 115u8, 101u8, 116u8];
            let km = [109u8, 97u8, 110u8, 105u8, 102u8, 101u8, 115u8, 116u8];
            let ka = [97u8, 117u8, 116u8, 104u8, 111u8, 114u8];
            let ke = [101u8, 120u8, 116u8, 114u8, 97u8];
            let kf = [102u8, 105u8, 108u8, 101u8, 115u8];
            let kp = [112u8, 97u8, 116u8, 99u8, 104u8];
            proof {
                assert(kc@ =~= key_changeset());
                assert(km@ =~= key_manifest());
                assert(ka@ =~= key_author());
                assert(ke@ =~= key_extra());
                assert(kf@ =~= key_files());
                assert(kp@ =~= key_patch());
            }
            if bytes_eq(k.as_slice(), kc.as_slice()) {
                changeset = Some(v);
            } else if bytes_eq(k.as_slice(), km.as_slice()) {
                manifest = Some(v);
            } else if bytes_eq(k.as_slice(), ka.as_slice()) {
                author = Some(v);
            } else if bytes_eq(k.as_slice(), ke.as_slice()) {
                extra = Some(v);
            } else if bytes_eq(k.as_slice(), kf.as_slice()) {
                files = Some(v);
            } else if bytes_eq(k.as_slice(), kp.as_slice()) {
                patch = Some(v);
            } else {
                return None;
            }
            i += 1;
        }
        proof {
            assert(all.skip(n as int) =~= Seq::<Seq<u8>>::empty());
        }
        let changeset = match changeset {
            Some(c) => c,
            None => {
                return None;
            },
        };
        let changeset_id = match HgChangesetId::from_bytes(changeset.as_slice()) {
            Some(id) => id,
            None => {
                return None;
            },
        };
        let manifest_id = match manifest {
            Some(m) => match HgManifestId::from_bytes(m.as_slice()) {
                Some(id) => id,
                None => {
                    return None;
                },
            },
            None => HgManifestId::null(),
        };
        Some(
            GitChangesetMetadata {
                changeset_id,
                manifest_id,
                author,
                extra,
                files,
                patch,
            },
        )
    }
}

fn push_key_changeset(out: &mut Vec<u8>)
    ensures
        final(out)@ == old(out)@ + key_changeset(),
{
    let k = [99u8, 104u8, 97u8, 110u8, 103u8, 101u8, 115u8, 101u8, 116u8];
    push_slice(out, k.as_slice());
    proof {
        assert(old(out)@ + k@ =~= old(out)@ + key_changeset());
    }
}

fn push_key_manifest(out: &mut Vec<u8>)
    ensures
        final(out)@ == old(out)@ + key_manifest(),
{
    let k = [109u8, 97u8, 110u8, 105u8, 102u8, 101u8, 115u8, 116u8];
    push_slice(out, k.as_slice());
    proof {
        assert(old(out)@ + k@ =~= old(out)@ + key_manifest());
    }
}

fn push_key_author(out: &mut Vec<u8>)
    ensures
        final(out)@ == old(out)@ + key_author(),
{
    let k = [97u8, 117u8, 116u8, 104u8, 111u8, 114u8];
    push_slice(out, k.as_slice());
    proof {
        assert(old(out)@ + k@ =~= old(out)@ + key_author());
    }
}

fn push_key_extra(out: &mut Vec<u8>)
    ensures
        final(out)@ == old(out)@ + key_extra(),
{
    let k = [101u8, 120u8, 116u8, 114u8, 97u8];
    push_slice(out, k.as_slice());
    proof {
        assert(old(out)@ + k@ =~= old(out)@ + key_extra());
    }
}

fn push_key_files(out: &mut Vec<u8>)
    ensures
        final(out)@ == old(out)@ + key_files(),
{
    let k = [102u8, 105u8, 108u8, 101u8, 115u8];
    push_slice(out, k.as_slice());
    proof {
        assert(old(out)@ + k@ =~= old(out)@ + key_files());
    }
}

fn push_key_patch(out: &mut Vec<u8>)
    ensures
        final(out)@ == old(out)@ + key_patch(),
{
    let k = [112u8, 97u8, 116u8, 99u8, 104u8];
    push_slice(out, k.as_slice());
    proof {
        assert(old(out)@ + k@ =~= old(out)@ + key_patch());
    }
}


proof fn lemma_meta_fold_append(a: Seq<Seq<u8>>, b: Seq<Seq<u8>>, acc: MetaAcc)
    ensures
        meta_fold(a + b, acc) == (match meta_fold(a, acc) {
            None => None,
            Some(x) => meta_fold(b, x),
        }),
    decreases a.len(),
{
    if a.len() == 0 {
        assert(a + b =~= b);
    } else {
        assert((a + b)[0] == a[0]);
        assert((a + b).skip(1) =~= a.skip(1) + b);
        match meta_step(acc, a[0]) {
            None => {},
            Some(a2) => {
                lemma_meta_fold_append(a.skip(1), b, a2);
            },
        }
    }
}

proof fn lemma_meta_keys()
    ensures
        !has_byte(key_changeset(), 32),
        !has_byte(key_manifest(), 32),
        !has_byte(key_author(), 32),
        !has_byte(key_extra(), 32),
        !has_byte(key_files(), 32),
        !has_byte(key_patch(), 32),
        !has_byte(key_changeset(), 10),
        !has_byte(key_manifest(), 10),
        !has_byte(key_author(), 10),
        !has_byte(key_extra(), 10),
        !has_byte(key_files(), 10),
        !has_byte(key_patch(), 10),
        key_files() != key_extra(),
        key_patch() != key_extra(),
        key_patch() != key_files(),
{
    assert(key_files()[0] == 102 && key_extra()[0] == 101 && key_patch()[0] == 112);
    assert forall|i: int| 0 <= i < 9 implies #[trigger] key_changeset()[i] != 32
        && key_changeset()[i] != 10 by {}
    assert forall|i: int| 0 <= i < 8 implies #[trigger] key_manifest()[i] != 32
        && key_manifest()[i] != 10 by {}
    assert forall|i: int| 0 <= i < 6 implies #[trigger] key_author()[i] != 32 && key_author()[i]
        != 10 by {}
    assert forall|i: int| 0 <= i < 5 implies #[trigger] key_extra()[i] != 32 && key_extra()[i]
        != 10 by {}
    assert forall|i: int| 0 <= i < 5 implies #[trigger] key_files()[i] != 32 && key_files()[i]
        != 10 by {}
    assert forall|i: int| 0 <= i < 5 implies #[trigger] key_patch()[i] != 32 && key_patch()[i]
        != 10 by {}
}

proof fn lemma_line_ok(k: Seq<u8>, v: Seq<u8>)
    requires
        !has_byte(k, 10),
        k.len() > 0,
        !has_byte(v, 10),
    ensures
        !has_byte(k + seq![32u8] + v, 10),
        (k + seq![32u8] + v).len() > 0,
{
    let l = k + seq![32u8] + v;
    assert forall|i: int| 0 <= i < l.len() implies l[i] != 10 by {
        if i < k.len() {
            assert(l[i] == k[i]);
        } else if i == k.len() {
        } else {
            assert(l[i] == v[i - k.len() - 1]);
        }
    }
}

proof fn lemma_hex_no_newline(x: Seq<u8>)
    ensures
        !has_byte(hex_of(x), 10),
{
    lemma_hex_of_is_lower(x);
    assert forall|i: int| 0 <= i < hex_of(x).len() implies hex_of(x)[i] != 10 by {
        assert(crate::oid::is_lower_hex_digit(hex_of(x)[i]));
    }
}

/// Parsing a serialized record returns the record: the round trip of the
/// metadata codec.
#[verifier::rlimit(100)]
pub proof fn lemma_metadata_round_trip(m: MetadataFields)
    requires
        metadata_wf(m),
    ensures
        parse_metadata_spec(serialize_metadata_spec(m)) == Some(m),
{
    lemma_meta_keys();
    let hex_c = hex_of(m.changeset);
    let hex_m = hex_of(m.manifest);
    lemma_hex_of_is_lower(m.changeset);
    lemma_hex_of_len(m.changeset);
    lemma_unhex_hex(m.changeset);
    lemma_hex_of_is_lower(m.manifest);
    lemma_hex_of_len(m.manifest);
    lemma_unhex_hex(m.manifest);
    lemma_hex_no_newline(m.changeset);
    lemma_hex_no_newline(m.manifest);
    let line1 = key_changeset() + seq![32u8] + hex_c;
    let seg2: Seq<Seq<u8>> = if m.manifest == null_oid() {
        Seq::empty()
    } else {
        seq![key_manifest() + seq![32u8] + hex_m]
    };
    let seg3 = opt_line(key_author(), m.author);
    let seg4 = opt_line(key_extra(), m.extra);
    let seg5 = opt_line(key_files(), m.files);
    let seg6 = opt_line(key_patch(), m.patch);
    let ls = meta_lines(m);
    lemma_line_ok(key_changeset(), hex_c);
    lemma_line_ok(key_manifest(), hex_m);
    if m.author is Some {
        lemma_line_ok(key_author(), m.author.unwrap());
    }
    if m.extra is Some {
        lemma_line_ok(key_extra(), m.extra.unwrap());
    }
    if m.files is Some {
        lemma_line_ok(key_files(), m.files.unwrap());
    }
    if m.patch is Some {
        lemma_line_ok(key_patch(), m.patch.unwrap());
    }
    assert forall|i: int| 0 <= i < ls.len() implies !has_byte(#[trigger] ls[i], 10) && ls[i].len()
        > 0 by {
        assert(ls[i] == (seq![line1] + seg2 + seg3 + seg4 + seg5 + seg6)[i]);
    }
    lemma_split_join(ls, 10);
    let text = serialize_metadata_spec(m);
    assert(split_on(text, 10) == ls);
    assert(text.len() > 0) by {
        if text.len() == 0 {
            assert(split_on(text, 10) =~= seq![Seq::<u8>::empty()]);
            assert(ls[0] == line1);
        }
    }
    assert(meta_lines_of(text) == ls) by {
        assert(ls[ls.len() - 1].len() > 0);
    }
    let acc0 = meta_empty_acc();
    let r1 = seg2 + (seg3 + (seg4 + (seg5 + seg6)));
    let r2 = seg3 + (seg4 + (seg5 + seg6));
    let r3 = seg4 + (seg5 + seg6);
    let r4 = seg5 + seg6;
    assert(ls =~= seq![line1] + r1);
    let acc1 = MetaAcc {
        changeset: Some(hex_c),
        manifest: None,
        author: None,
        extra: None,
        files: None,
        patch: None,
    };
    lemma_meta_fold_append(seq![line1], r1, acc0);
    assert(meta_fold(seq![line1], acc0) == Some(acc1)) by {
        lemma_split2_concat(key_changeset(), hex_c, 32);
        assert(seq![line1][0] == line1);
        assert(meta_step(acc0, line1) == Some(acc1));
        assert(seq![line1].skip(1) =~= Seq::<Seq<u8>>::empty());
        assert(meta_fold(Seq::<Seq<u8>>::empty(), acc1) == Some(acc1));
    }
    let acc2 = MetaAcc { manifest: if m.manifest == null_oid() {
        None
    } else {
        Some(hex_m)
    }, ..acc1 };
    lemma_meta_fold_append(seg2, r2, acc1);
    assert(meta_fold(seg2, acc1) == Some(acc2)) by {
        if m.manifest == null_oid() {
            assert(seg2 =~= Seq::<Seq<u8>>::empty());
            assert(acc2 == acc1);
        } else {
            lemma_split2_concat(key_manifest(), hex_m, 32);
            assert(seg2[0] == key_manifest() + seq![32u8] + hex_m);
            assert(meta_step(acc1, seg2[0]) == Some(acc2));
            assert(seg2.skip(1) =~= Seq::<Seq<u8>>::empty());
            assert(meta_fold(Seq::<Seq<u8>>::empty(), acc2) == Some(acc2));
        }
    }
    let acc3 = MetaAcc { author: m.author, ..acc2 };
    lemma_meta_fold_append(seg3, r3, acc2);
    assert(meta_fold(seg3, acc2) == Some(acc3)) by {
        match m.author {
            None => {
                assert(seg3 =~= Seq::<Seq<u8>>::empty());
                assert(acc3 == acc2);
            },
            Some(v) => {
                lemma_split2_concat(key_author(), v, 32);
                assert(seg3[0] == key_author() + seq![32u8] + v);
                assert(meta_step(acc2, seg3[0]) == Some(acc3));
                assert(seg3.skip(1) =~= Seq::<Seq<u8>>::empty());
                assert(meta_fold(Seq::<Seq<u8>>::empty(), acc3) == Some(acc3));
            },
        }
    }
    let acc4 = MetaAcc { extra: m.extra, ..acc3 };
    lemma_meta_fold_append(seg4, r4, acc3);
    assert(meta_fold(seg4, acc3) == Some(acc4)) by {
        match m.extra {
            None => {
                assert(seg4 =~= Seq::<Seq<u8>>::empty());
                assert(acc4 == acc3);
            },
            Some(v) => {
                lemma_split2_concat(key_extra(), v, 32);
                assert(seg4[0] == key_extra() + seq![32u8] + v);
                assert(meta_step(acc3, seg4[0]) == Some(acc4));
                assert(seg4.skip(1) =~= Seq::<Seq<u8>>::empty());
                assert(meta_fold(Seq::<Seq<u8>>::empty(), acc4) == Some(acc4));
            },
        }
    }
    let acc5 = MetaAcc { files: m.files, ..acc4 };
    lemma_meta_fold_append(seg5, seg6, acc4);
    assert(meta_fold(seg5, acc4) == Some(acc5)) by {
        match m.files {
            None => {
                assert(seg5 =~= Seq::<Seq<u8>>::empty());
                assert(acc5 == acc4);
            },
            Some(v) => {
                lemma_split2_concat(key_files(), v, 32);
                assert(seg5[0] == key_files() + seq![32u8] + v);
                assert(meta_step(acc4, seg5[0]) == Some(acc5));
                assert(seg5.skip(1) =~= Seq::<Seq<u8>>::empty());
                assert(meta_fold(Seq::<Seq<u8>>::empty(), acc5) == Some(acc5));
            },
        }
    }
    let acc6 = MetaAcc { patch: m.patch, ..acc5 };
    assert(meta_fold(seg6, acc5) == Some(acc6)) by {
        match m.patch {
            None => {
                assert(seg6 =~= Seq::<Seq<u8>>::empty());
                assert(acc6 == acc5);
            },
            Some(v) => {
                lemma_split2_concat(key_patch(), v, 32);
                assert(seg6[0] == key_patch() + seq![32u8] + v);
                assert(meta_step(acc5, seg6[0]) == Some(acc6));
                assert(seg6.skip(1) =~= Seq::<Seq<u8>>::empty());
                assert(meta_fold(Seq::<Seq<u8>>::empty(), acc6) == Some(acc6));
            },
        }
    }
    assert(meta_fold(ls, acc0) == Some(acc6));
    assert(parse_metadata_spec(text) == Some(m));
}

} // verus!
