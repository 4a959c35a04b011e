//! The raw Mercurial changeset codec. The canonical layout is
//! `manifest_hex LF author LF timestamp SP utcoffset [SP extra] (LF file)* LF LF body`,
//! with both directions of the round trip proved.

use vstd::prelude::*;
use crate::bytes::{has_byte, lemma_split2_inverse, push_slice, split2, split_bytes,
    split_first_byte, split_on, vecs_view};
use crate::extra::{extra_buf_wf, extra_from_spec, ChangesetExtra};
use crate::metadata::opt_view;
use crate::oid::{
    hex_of, is_hex_lower, lemma_hex_of_is_lower, lemma_hex_of_len, lemma_hex_unhex,
    lemma_unhex_hex, unhex, HgManifestId,
};

verus! {

/// The abstract content of a changeset.
pub struct ChangesetFields {
    pub manifest: Seq<u8>,
    pub author: Seq<u8>,
    pub timestamp: Seq<u8>,
    pub utcoffset: Seq<u8>,
    pub extra: Option<Seq<u8>>,
    pub files: Option<Seq<u8>>,
    pub body: Seq<u8>,
}

/// Canonical serialized form.
pub open spec fn serialize_changeset_spec(h: ChangesetFields) -> Seq<u8> {
    hex_of(h.manifest) + seq![10u8] + h.author + seq![10u8] + h.timestamp + seq![32u8]
        + h.utcoffset + (match h.extra {
        None => Seq::<u8>::empty(),
        Some(e) => seq![32u8] + e,
    }) + (match h.files {
        None => Seq::<u8>::empty(),
        Some(f) => seq![10u8] + f,
    }) + seq![10u8, 10u8] + h.body
}

/// Index of the first blank line (two adjacent LF bytes).
pub open spec fn find_nl2(s: Seq<u8>) -> Option<int>
    decreases s.len(),
{
    if s.len() < 2 {
        None
    } else if s[0] == 10 && s[1] == 10 {
        Some(0)
    } else {
        match find_nl2(s.skip(1)) {
            None => None,
            Some(i) => Some(i + 1),
        }
    }
}

/// What a raw changeset denotes: header and body split at the first blank
/// line; the header splits into manifest hex, author, date line and an
/// optional files block; the date line into timestamp, utcoffset and an
/// optional extras string.
pub open spec fn parse_changeset_spec(s: Seq<u8>) -> Option<ChangesetFields> {
    match find_nl2(s) {
        None => None,
        Some(i) => {
            let header = s.take(i);
            let body = s.skip(i + 2);
            match split2(header, 10) {
                None => None,
                Some(p1) => match split2(p1.1, 10) {
                    None => None,
                    Some(p2) => {
                        let author = p2.0;
                        let dtf = match split2(p2.1, 10) {
                            None => (p2.1, None::<Seq<u8>>),
                            Some(p3) => (p3.0, Some(p3.1)),
                        };
                        match split2(dtf.0, 32) {
                            None => None,
                            Some(d1) => {
                                let ue = match split2(d1.1, 32) {
                                    None => (d1.1, None::<Seq<u8>>),
                                    Some(d2) => (d2.0, Some(d2.1)),
                                };
                                if p1.0.len() == 40 && is_hex_lower(p1.0) {
                                    Some(
                                        ChangesetFields {
                                            manifest: unhex(p1.0),
                                            author,
                                            timestamp: d1.0,
                                            utcoffset: ue.0,
                                            extra: ue.1,
                                            files: dtf.1,
                                            body,
                                        },
                                    )
                                } else {
                                    None
                                }
                            },
                        }
                    },
                },
            }
        },
    }
}

/// The parsed changeset, owned.
pub struct HgChangeset {
    pub manifest: HgManifestId,
    pub author: Vec<u8>,
    pub timestamp: Vec<u8>,
    pub utcoffset: Vec<u8>,
    pub extra: Option<Vec<u8>>,
    pub files: Option<Vec<u8>>,
    pub body: Vec<u8>,
}

impl View for HgChangeset {
    type V = ChangesetFields;

    open spec fn view(&self) -> ChangesetFields {
        ChangesetFields {
            manifest: self.manifest@,
            author: self.author@,
            timestamp: self.timestamp@,
            utcoffset: self.utcoffset@,
            extra: opt_view(self.extra),
            files: opt_view(self.files),
            body: self.body@,
        }
    }
}

/// A raw changeset: the exact bytes that hash to the changeset id.
pub struct RawHgChangeset(pub Vec<u8>);

/// First blank line of a byte slice.
pub fn find_double_newline(s: &[u8]) -> (r: Option<usize>)
    ensures
        match r {
            Some(i) => find_nl2(s@) == Some(i as int),
            None => find_nl2(s@) == None::<int>,
        },
{
    let n = s.len();
    if n < 1 {
        proof {
            lemma_find_nl2_none(s@);
        }
        return None;
    }
    let mut i: usize = 0;
    while i < n - 1
        invariant
            i <= n,
            n == s@.len(),
            n >= 1,
            forall|j: int| 0 <= j < i ==> !(#[trigger] s@[j] == 10 && s@[j + 1] == 10),
        decreases n - i,
    {
        if s[i] == 10 && s[i + 1] == 10 {
            proof {
                lemma_find_nl2_at(s@, i as int);
            }
            return Some(i);
        }
        i += 1;
    }
    proof {
        lemma_find_nl2_none(s@);
    }
    None
}

proof fn lemma_find_nl2_at(s: Seq<u8>, i: int)
    requires
        0 <= i,
        i + 1 < s.len(),
        s[i] == 10,
        s[i + 1] == 10,
        forall|j: int| 0 <= j < i ==> !(#[trigger] s[j] == 10 && s[j + 1] == 10),
    ensures
        find_nl2(s) == Some(i),
    decreases i,
{
    if i > 0 {
        assert(!(s[0] == 10 && s[1] == 10));
        assert forall|j: int| 0 <= j < i - 1 implies !(#[trigger] s.skip(1)[j] == 10 && s.skip(1)[j
            + 1] == 10) by {
            assert(s.skip(1)[j] == s[j + 1]);
            assert(s.skip(1)[j + 1] == s[j + 2]);
        }
        assert(s.skip(1)[i - 1] == s[i]);
        assert(s.skip(1)[i] == s[i + 1]);
        lemma_find_nl2_at(s.skip(1), i - 1);
    }
}

proof fn lemma_find_nl2_none(s: Seq<u8>)
    requires
        forall|j: int| 0 <= j < s.len() - 1 ==> !(#[trigger] s[j] == 10 && s[j + 1] == 10),
    ensures
        find_nl2(s) == None::<int>,
    decreases s.len(),
{
    if s.len() >= 2 {
        assert(!(s[0] == 10 && s[1] == 10));
        assert forall|j: int| 0 <= j < s.skip(1).len() - 1 implies !(#[trigger] s.skip(1)[j] == 10
            && s.skip(1)[j + 1] == 10) by {
            assert(s.skip(1)[j] == s[j + 1]);
            assert(s.skip(1)[j + 1] == s[j + 2]);
        }
        lemma_find_nl2_none(s.skip(1));
    }
}

impl RawHgChangeset {
    /// Parse the raw bytes; `None` when a header field is missing or the
    /// manifest hex is malformed.
    pub fn parse(&self) -> (r: Option<HgChangeset>)
        ensures
            match r {
                Some(h) => parse_changeset_spec(self.0@) == Some(h@),
                None => parse_changeset_spec(self.0@) == None::<ChangesetFields>,
            },
    {
        let s = self.0.as_slice();
        let i = match find_double_newline(s) {
            Some(i) => i,
            None => {
                return None;
            },
        };
        proof {
            lemma_find_nl2_bounds(self.0@);
        }
        let n = s.len();
        let header = vstd::slice::slice_subrange(s, 0, i);
        let body = vstd::slice::slice_to_vec(vstd::slice::slice_subrange(s, i + 2, n));
        proof {
            assert(header@ =~= self.0@.take(i as int));
            assert(body@ =~= self.0@.skip(i + 2));
        }
        let (mani, rest1) = match split_first_byte(header, 10) {
            Some(p) => p,
            None => {
                return None;
            },
        };
        let (author, rest2) = match split_first_byte(rest1.as_slice(), 10) {
            Some(p) => p,
            None => {
                return None;
            },
        };
        let (dateline, files) = match split_first_byte(rest2.as_slice(), 10) {
            Some(p) => (p.0, Some(p.1)),
            None => (rest2, None),
        };
        let (timestamp, rest_d) = match split_first_byte(dateline.as_slice(), 32) {
            Some(p) => p,
            None => {
                return None;
            },
        };
        let (utcoffset, extra) = match split_first_byte(rest_d.as_slice(), 32) {
            Some(p) => (p.0, Some(p.1)),
            None => (rest_d, None),
        };
        let manifest = match HgManifestId::from_bytes(mani.as_slice()) {
            Some(id) => id,
            None => {
                return None;
            },
        };
        Some(HgChangeset { manifest, author, timestamp, utcoffset, extra, files, body })
    }
}

proof fn lemma_find_nl2_bounds(s: Seq<u8>)
    ensures
        find_nl2(s) is Some ==> 0 <= find_nl2(s).unwrap() && find_nl2(s).unwrap() + 1 < s.len()
            && s[find_nl2(s).unwrap()] == 10 && s[find_nl2(s).unwrap() + 1] == 10,
    decreases s.len(),
{
    if s.len() >= 2 && !(s[0] == 10 && s[1] == 10) {
        lemma_find_nl2_bounds(s.skip(1));
        if find_nl2(s.skip(1)) is Some {
            let i = find_nl2(s.skip(1)).unwrap();
            assert(s.skip(1)[i] == s[i + 1]);
            assert(s.skip(1)[i + 1] == s[i + 2]);
        }
    }
}

impl HgChangeset {
    /// The manifest id.
    pub fn manifest(&self) -> (r: &HgManifestId)
        ensures
            r@ == self@.manifest,
    {
        &self.manifest
    }

    /// The author field.
    pub fn author(&self) -> (r: &Vec<u8>)
        ensures
            r@ == self@.author,
    {
        &self.author
    }

    /// The timestamp field (Unix seconds, decimal text).
    pub fn timestamp(&self) -> (r: &Vec<u8>)
        ensures
            r@ == self@.timestamp,
    {
        &self.timestamp
    }

    /// The UTC offset field (signed seconds, decimal text).
    pub fn utcoffset(&self) -> (r: &Vec<u8>)
        ensures
            r@ == self@.utcoffset,
    {
        &self.utcoffset
    }

    /// The message body.
    pub fn body(&self) -> (r: &Vec<u8>)
        ensures
            r@ == self@.body,
    {
        &self.body
    }

    /// The extras map, if the changeset has one.
    pub fn extra(&self) -> (r: Option<ChangesetExtra>)
        requires
            self@.extra is Some ==> extra_buf_wf(self@.extra.unwrap()),
        ensures
            r is Some <==> self@.extra is Some,
            r is Some ==> r.unwrap()@ == extra_from_spec(self@.extra.unwrap()),
    {
        match &self.extra {
            Some(v) => Some(ChangesetExtra::from(v.as_slice())),
            None => None,
        }
    }

    /// The files list: newline-separated in the raw form, none when the
    /// block is absent.
    pub fn files(&self) -> (r: Vec<Vec<u8>>)
        ensures
            match self@.files {
                None => r@.len() == 0,
                Some(f) => vecs_view(r@) == split_on(f, 10),
            },
    {
        match &self.files {
            Some(v) => split_bytes(v.as_slice(), 10),
            None => Vec::new(),
        }
    }

    /// Serialize back to the canonical raw form.
    pub fn serialize(&self) -> (r: RawHgChangeset)
        ensures
            r.0@ == serialize_changeset_spec(self@),
    {
        let mut out: Vec<u8> = Vec::new();
        let mani_hex = self.manifest.to_hex();
        push_slice(&mut out, mani_hex.as_slice());
        out.push(10);
        push_slice(&mut out, self.author.as_slice());
        out.push(10);
        push_slice(&mut out, self.timestamp.as_slice());
        out.push(32);
        push_slice(&mut out, self.utcoffset.as_slice());
        match &self.extra {
            Some(e) => {
                out.push(32);
                push_slice(&mut out, e.as_slice());
            },
            None => {},
        }
        match &self.files {
            Some(f) => {
                out.push(10);
                push_slice(&mut out, f.as_slice());
            },
            None => {},
        }
        out.push(10);
        out.push(10);
        push_slice(&mut out, self.body.as_slice());
        proof {
            assert(out@ =~= serialize_changeset_spec(self@));
        }
        RawHgChangeset(out)
    }
}

/// A changeset whose serialization parses back to it: the manifest id is 20
/// bytes, the author is nonempty, no header field holds a newline, the
/// timestamp and offset hold no space, and the files block is a nonempty
/// newline-separated list of nonempty names.
pub open spec fn changeset_wf(h: ChangesetFields) -> bool {
    &&& h.manifest.len() == 20
    &&& h.author.len() > 0
    &&& !has_byte(h.author, 10)
    &&& !has_byte(h.timestamp, 10)
    &&& !has_byte(h.timestamp, 32)
    &&& !has_byte(h.utcoffset, 10)
    &&& !has_byte(h.utcoffset, 32)
    &&& (h.extra is Some ==> !has_byte(h.extra.unwrap(), 10))
    &&& (h.files is Some ==> files_block_wf(h.files.unwrap()))
}

/// A files block: nonempty, no leading, trailing or doubled newline.
pub open spec fn files_block_wf(f: Seq<u8>) -> bool {
    &&& f.len() > 0
    &&& f[0] != 10
    &&& f[f.len() - 1] != 10
    &&& forall|j: int| 0 <= j < f.len() - 1 ==> !(#[trigger] f[j] == 10 && f[j + 1] == 10)
}

/// Parsing undoes serialization: the first half of the changeset codec's
/// round trip.
#[verifier::rlimit(100)]
pub proof fn lemma_changeset_parse_serialize(h: ChangesetFields)
    requires
        changeset_wf(h),
    ensures
        parse_changeset_spec(serialize_changeset_spec(h)) == Some(h),
{
    let hexm = hex_of(h.manifest);
    lemma_hex_of_is_lower(h.manifest);
    lemma_hex_of_len(h.manifest);
    lemma_unhex_hex(h.manifest);
    let dateline = h.timestamp + seq![32u8] + h.utcoffset + (match h.extra {
        None => Seq::<u8>::empty(),
        Some(e) => seq![32u8] + e,
    });
    let header = hexm + seq![10u8] + h.author + seq![10u8] + dateline + (match h.files {
        None => Seq::<u8>::empty(),
        Some(f) => seq![10u8] + f,
    });
    let s = serialize_changeset_spec(h);
    assert(s =~= header + seq![10u8, 10u8] + h.body);
    assert forall|j: int| 0 <= j < hexm.len() implies hexm[j] != 10 && hexm[j] != 32 by {
        assert(crate::oid::is_lower_hex_digit(hexm[j]));
    }
    let a0 = hexm.len() as int;
    let a1 = a0 + 1 + h.author.len() as int;
    let a2 = a1 + 1 + dateline.len() as int;
    assert(header.len() == if h.files is Some {
        a2 + 1 + h.files.unwrap().len()
    } else {
        a2
    });
    assert forall|j: int| 0 <= j < header.len() - 1 implies !(#[trigger] header[j] == 10 && header[j
        + 1] == 10) by {
        lemma_changeset_header_shape(h, j);
    }
    assert(header.len() > 0 && header[header.len() - 1] != 10) by {
        lemma_changeset_header_last(h);
    }
    assert(s[header.len() as int] == 10 && s[header.len() as int + 1] == 10);
    assert forall|j: int| 0 <= j < header.len() implies !(#[trigger] s[j] == 10 && s[j + 1] == 10) by {
        if j < header.len() - 1 {
            assert(s[j] == header[j] && s[j + 1] == header[j + 1]);
        } else {
            assert(s[j] == header[j]);
        }
    }
    lemma_find_nl2_at(s, header.len() as int);
    assert(s.take(header.len() as int) =~= header);
    assert(s.skip(header.len() as int + 2) =~= h.body);
    crate::bytes::lemma_split2_concat(
        hexm,
        h.author + seq![10u8] + dateline + (match h.files {
            None => Seq::<u8>::empty(),
            Some(f) => seq![10u8] + f,
        }),
        10,
    );
    assert(header =~= hexm + seq![10u8] + (h.author + seq![10u8] + dateline + (match h.files {
        None => Seq::<u8>::empty(),
        Some(f) => seq![10u8] + f,
    })));
    crate::bytes::lemma_split2_concat(
        h.author,
        dateline + (match h.files {
            None => Seq::<u8>::empty(),
            Some(f) => seq![10u8] + f,
        }),
        10,
    );
    assert(h.author + seq![10u8] + dateline + (match h.files {
        None => Seq::<u8>::empty(),
        Some(f) => seq![10u8] + f,
    }) =~= h.author + seq![10u8] + (dateline + (match h.files {
        None => Seq::<u8>::empty(),
        Some(f) => seq![10u8] + f,
    })));
    let after_author = dateline + (match h.files {
        None => Seq::<u8>::empty(),
        Some(f) => seq![10u8] + f,
    });
    assert forall|j: int| 0 <= j < dateline.len() implies dateline[j] != 10 by {
        lemma_dateline_no_newline(h, j);
    }
    match h.files {
        None => {
            assert(after_author =~= dateline);
            crate::bytes::lemma_split2_none(dateline, 10);
        },
        Some(f) => {
            crate::bytes::lemma_split2_concat(dateline, f, 10);
            assert(after_author =~= dateline + seq![10u8] + f);
        },
    }
    match h.extra {
        None => {
            assert(dateline =~= h.timestamp + seq![32u8] + h.utcoffset);
            crate::bytes::lemma_split2_concat(h.timestamp, h.utcoffset, 32);
            crate::bytes::lemma_split2_none(h.utcoffset, 32);
        },
        Some(e) => {
            assert(dateline =~= h.timestamp + seq![32u8] + (h.utcoffset + seq![32u8] + e));
            crate::bytes::lemma_split2_concat(h.timestamp, h.utcoffset + seq![32u8] + e, 32);
            crate::bytes::lemma_split2_concat(h.utcoffset, e, 32);
        },
    }
}

proof fn lemma_dateline_no_newline(h: ChangesetFields, j: int)
    requires
        changeset_wf(h),
    ensures
        0 <= j < (h.timestamp + seq![32u8] + h.utcoffset + (match h.extra {
            None => Seq::<u8>::empty(),
            Some(e) => seq![32u8] + e,
        })).len() ==> (h.timestamp + seq![32u8] + h.utcoffset + (match h.extra {
            None => Seq::<u8>::empty(),
            Some(e) => seq![32u8] + e,
        }))[j] != 10,
{
    let dateline = h.timestamp + seq![32u8] + h.utcoffset + (match h.extra {
        None => Seq::<u8>::empty(),
        Some(e) => seq![32u8] + e,
    });
    let t0 = h.timestamp.len() as int;
    let t1 = t0 + 1 + h.utcoffset.len() as int;
    if 0 <= j < dateline.len() {
        if j < t0 {
            assert(dateline[j] == h.timestamp[j]);
        } else if j == t0 {
            assert(dateline[j] == 32);
        } else if j < t1 {
            assert(dateline[j] == h.utcoffset[j - t0 - 1]);
        } else if j == t1 {
            assert(dateline[j] == 32);
        } else {
            assert(dateline[j] == h.extra.unwrap()[j - t1 - 1]);
        }
    }
}

proof fn lemma_changeset_header_shape(h: ChangesetFields, j: int)
    requires
        changeset_wf(h),
    ensures
        ({
            let dateline = h.timestamp + seq![32u8] + h.utcoffset + (match h.extra {
                None => Seq::<u8>::empty(),
                Some(e) => seq![32u8] + e,
            });
            let header = hex_of(h.manifest) + seq![10u8] + h.author + seq![10u8] + dateline + (
            match h.files {
                None => Seq::<u8>::empty(),
                Some(f) => seq![10u8] + f,
            });
            0 <= j < header.len() - 1 ==> !(header[j] == 10 && header[j + 1] == 10)
        }),
{
    let hexm = hex_of(h.manifest);
    lemma_hex_of_is_lower(h.manifest);
    lemma_hex_of_len(h.manifest);
    let dateline = h.timestamp + seq![32u8] + h.utcoffset + (match h.extra {
        None => Seq::<u8>::empty(),
        Some(e) => seq![32u8] + e,
    });
    let header = hexm + seq![10u8] + h.author + seq![10u8] + dateline + (match h.files {
        None => Seq::<u8>::empty(),
        Some(f) => seq![10u8] + f,
    });
    let a0 = hexm.len() as int;
    let a1 = a0 + 1 + h.author.len() as int;
    let a2 = a1 + 1 + dateline.len() as int;
    assert forall|k: int| 0 <= k < hexm.len() implies hexm[k] != 10 by {
        assert(crate::oid::is_lower_hex_digit(hexm[k]));
    }
    assert(dateline.len() > 0);
    assert(dateline[0] != 10) by {
        lemma_dateline_no_newline(h, 0);
    }
    if 0 <= j < header.len() - 1 {
        if j < a0 {
            assert(header[j] == hexm[j]);
        } else if j == a0 {
            assert(header[j] == 10);
            assert(header[j + 1] == h.author[0]);
        } else if j < a1 {
            assert(header[j] == h.author[j - a0 - 1]);
        } else if j == a1 {
            assert(header[j] == 10);
            assert(header[j + 1] == dateline[0]);
        } else if j < a2 {
            assert(header[j] == dateline[j - a1 - 1]);
            lemma_dateline_no_newline(h, j - a1 - 1);
        } else if j == a2 {
            assert(h.files is Some);
            let f = h.files.unwrap();
            assert(header[j] == 10);
            assert(header[j + 1] == f[0]);
        } else {
            let f = h.files.unwrap();
            assert(header[j] == f[j - a2 - 1]);
            assert(header[j + 1] == f[j - a2]);
        }
    }
}

proof fn lemma_changeset_header_last(h: ChangesetFields)
    requires
        changeset_wf(h),
    ensures
        ({
            let dateline = h.timestamp + seq![32u8] + h.utcoffset + (match h.extra {
                None => Seq::<u8>::empty(),
                Some(e) => seq![32u8] + e,
            });
            let header = hex_of(h.manifest) + seq![10u8] + h.author + seq![10u8] + dateline + (
            match h.files {
                None => Seq::<u8>::empty(),
                Some(f) => seq![10u8] + f,
            });
            header.len() > 0 && header[header.len() - 1] != 10
        }),
{
    let dateline = h.timestamp + seq![32u8] + h.utcoffset + (match h.extra {
        None => Seq::<u8>::empty(),
        Some(e) => seq![32u8] + e,
    });
    let header = hex_of(h.manifest) + seq![10u8] + h.author + seq![10u8] + dateline + (
    match h.files {
        None => Seq::<u8>::empty(),
        Some(f) => seq![10u8] + f,
    });
    match h.files {
        None => {
            assert(header[header.len() - 1] == dateline[dateline.len() - 1]);
            lemma_dateline_no_newline(h, dateline.len() - 1);
        },
        Some(f) => {
            assert(header[header.len() - 1] == f[f.len() - 1]);
        },
    }
}

/// Serializing a parsed changeset returns the raw bytes: the second half of
/// the changeset codec's round trip.
pub proof fn lemma_changeset_serialize_parse(b: Seq<u8>)
    requires
        parse_changeset_spec(b) is Some,
    ensures
        serialize_changeset_spec(parse_changeset_spec(b).unwrap()) == b,
{
    let i = find_nl2(b).unwrap();
    lemma_find_nl2_bounds(b);
    let header = b.take(i);
    let body = b.skip(i + 2);
    let p1 = split2(header, 10).unwrap();
    let p2 = split2(p1.1, 10).unwrap();
    lemma_split2_inverse(header, 10);
    lemma_split2_inverse(p1.1, 10);
    lemma_hex_unhex(p1.0);
    let h = parse_changeset_spec(b).unwrap();
    match split2(p2.1, 10) {
        None => {},
        Some(p3) => {
            lemma_split2_inverse(p2.1, 10);
        },
    }
    let dateline = match split2(p2.1, 10) {
        None => p2.1,
        Some(p3) => p3.0,
    };
    let d1 = split2(dateline, 32).unwrap();
    lemma_split2_inverse(dateline, 32);
    match split2(d1.1, 32) {
        None => {},
        Some(d2) => {
            lemma_split2_inverse(d1.1, 32);
        },
    }
    assert(b =~= header + seq![10u8, 10u8] + body);
    assert(serialize_changeset_spec(h) =~= b);
}

} // verus!
