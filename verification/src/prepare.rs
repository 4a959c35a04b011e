//! Preparation of the Git commit text for a changeset being ingested:
//! tree and parent lines, the authorship lines converted back from the
//! Mercurial convention, and the changeset body as the message.

use vstd::prelude::*;
use crate::bytes::push_slice;
use crate::changeset::{ChangesetFields, HgChangeset};
use crate::extra::{extra_buf_wf, extra_from_spec, extra_get};
use crate::numbers::{dec_val, is_dec};
use crate::oid::{hex_of, GitObjectId};
use crate::reconstruct::committer_key;

verus! {

/// Value of signed decimal text.
pub open spec fn parse_sdec(s: Seq<u8>) -> Option<int> {
    if s.len() > 0 && s[0] == 45 {
        if is_dec(s.skip(1)) {
            Some(-dec_val(s.skip(1)))
        } else {
            None
        }
    } else if is_dec(s) {
        Some(dec_val(s))
    } else {
        None
    }
}

/// Two decimal digits, for zone hours and minutes under one hundred.
pub open spec fn dec2(n: int) -> Seq<u8> {
    seq![(48 + n / 10) as u8, (48 + n % 10) as u8]
}

/// The Git zone field for a UTC offset in seconds west: sign, then hours
/// and minutes, two digits each.
pub open spec fn tz_text_of(off: int) -> Seq<u8> {
    let a = if off > 0 {
        off
    } else {
        -off
    };
    let sign: u8 = if off > 0 {
        45u8
    } else {
        43u8
    };
    seq![sign] + dec2(a / 3600) + dec2((a % 3600) / 60)
}

/// A Git authorship line from the Mercurial parts.
pub open spec fn git_line_of(author: Seq<u8>, ts: Seq<u8>, off: int) -> Seq<u8> {
    author + seq![32u8] + ts + seq![32u8] + tz_text_of(off)
}

/// The Mercurial parts of a full committer value: author, timestamp, and
/// UTC offset in signed decimal seconds, split at the last two spaces.
pub open spec fn committer_parts(cv: Seq<u8>) -> Option<(Seq<u8>, Seq<u8>, int)> {
    match crate::authorship::rfind(cv, 32) {
        None => None,
        Some(i2) => match crate::authorship::rfind(cv.take(i2), 32) {
            None => None,
            Some(i1) => match parse_sdec(cv.skip(i2 + 1)) {
                None => None,
                Some(off) => Some((cv.take(i1), cv.subrange(i1 + 1, i2), off)),
            },
        },
    }
}

pub open spec fn tree_keyword() -> Seq<u8> {
    seq![116u8, 114u8, 101u8, 101u8, 32u8]
}

pub open spec fn parent_keyword() -> Seq<u8> {
    seq![112u8, 97u8, 114u8, 101u8, 110u8, 116u8, 32u8]
}

pub open spec fn author_keyword() -> Seq<u8> {
    seq![97u8, 117u8, 116u8, 104u8, 111u8, 114u8, 32u8]
}

pub open spec fn committer_keyword() -> Seq<u8> {
    seq![99u8, 111u8, 109u8, 109u8, 105u8, 116u8, 116u8, 101u8, 114u8, 32u8]
}

/// The parent lines of the commit text.
pub open spec fn parent_lines(ps: Seq<Seq<u8>>) -> Seq<u8>
    decreases ps.len(),
{
    if ps.len() == 0 {
        Seq::empty()
    } else {
        parent_keyword() + hex_of(ps[0]) + seq![10u8] + parent_lines(ps.skip(1))
    }
}

/// The committer authorship line the changeset calls for: from the
/// `committer` extra when present (either an author-style value ending in
/// `>`, or a full value carrying its own timestamp and offset), else the
/// author line.
pub open spec fn committer_line_of(h: ChangesetFields, off: int) -> Option<Seq<u8>> {
    let author_line = git_line_of(h.author, h.timestamp, off);
    match h.extra {
        None => Some(author_line),
        Some(e) => match extra_get(extra_from_spec(e), committer_key()) {
            None => Some(author_line),
            Some(cv) => if cv.len() > 0 && cv[cv.len() - 1] == 62 {
                Some(git_line_of(cv, h.timestamp, off))
            } else {
                match committer_parts(cv) {
                    None => None,
                    Some(p) => if -360000 < p.2 < 360000 {
                        Some(git_line_of(p.0, p.1, p.2))
                    } else {
                        None
                    },
                }
            },
        },
    }
}

/// The Git commit text prepared for a changeset: tree line, parent lines,
/// authorship lines converted from the Mercurial convention, and the
/// changeset body. `None` when the offset text is malformed or out of
/// range.
pub open spec fn prepare_commit_spec(
    h: ChangesetFields,
    tree: Seq<u8>,
    parents: Seq<Seq<u8>>,
) -> Option<Seq<u8>> {
    match parse_sdec(h.utcoffset) {
        None => None,
        Some(off) => if !(-360000 < off < 360000) {
            None
        } else {
            match committer_line_of(h, off) {
                None => None,
                Some(committer) => Some(
                    tree_keyword() + hex_of(tree) + seq![10u8] + parent_lines(parents)
                        + author_keyword() + git_line_of(h.author, h.timestamp, off) + seq![10u8]
                        + committer_keyword() + committer + seq![10u8, 10u8] + h.body,
                ),
            }
        },
    }
}

fn parse_sdec_exec(s: &[u8]) -> (r: Option<i64>)
    ensures
        match r {
            Some(o) => parse_sdec(s@) == Some(o as int) && -360000 < o < 360000,
            None => parse_sdec(s@) is None || !(match parse_sdec(s@) {
                Some(v) => -360000 < v < 360000,
                None => false,
            }),
        },
{
    if s.len() > 0 && s[0] == 45 {
        let rest = vstd::slice::slice_subrange(s, 1, s.len());
        proof {
            assert(rest@ =~= s@.skip(1));
        }
        match crate::numbers::parse_dec(rest) {
            Some(v) => if v < 360000 {
                Some(-(v as i64))
            } else {
                None
            },
            None => {
                proof {
                    if is_dec(s@.skip(1)) {
                        crate::numbers::lemma_dec_val_nonneg(s@.skip(1));
                    }
                }
                None
            },
        }
    } else {
        match crate::numbers::parse_dec(s) {
            Some(v) => if v < 360000 {
                Some(v as i64)
            } else {
                None
            },
            None => {
                proof {
                    if is_dec(s@) {
                        crate::numbers::lemma_dec_val_nonneg(s@);
                    }
                }
                None
            },
        }
    }
}

fn push_dec2(out: &mut Vec<u8>, n: i64)
    requires
        0 <= n < 100,
    ensures
        final(out)@ == old(out)@ + dec2(n as int),
{
    out.push(48 + (n / 10) as u8);
    out.push(48 + (n % 10) as u8);
    proof {
        assert(out@ =~= old(out)@ + dec2(n as int));
    }
}

fn push_tz_text(out: &mut Vec<u8>, off: i64)
    requires
        -360000 < off < 360000,
    ensures
        final(out)@ == old(out)@ + tz_text_of(off as int),
{
    let a: i64 = if off > 0 {
        off
    } else {
        -off
    };
    if off > 0 {
        out.push(45);
    } else {
        out.push(43);
    }
    push_dec2(out, a / 3600);
    push_dec2(out, (a % 3600) / 60);
    proof {
        assert(out@ =~= old(out)@ + tz_text_of(off as int));
    }
}

fn push_git_line(out: &mut Vec<u8>, author: &[u8], ts: &[u8], off: i64)
    requires
        -360000 < off < 360000,
    ensures
        final(out)@ == old(out)@ + git_line_of(author@, ts@, off as int),
{
    push_slice(out, author);
    out.push(32);
    push_slice(out, ts);
    out.push(32);
    push_tz_text(out, off);
    proof {
        assert(out@ =~= old(out)@ + git_line_of(author@, ts@, off as int));
    }
}

/// Prepare the Git commit text for a parsed changeset, its tree id, and
/// its parents' commit ids.
#[verifier::rlimit(100)]
pub fn prepare_changeset_commit(
    changeset: &HgChangeset,
    tree_id: &GitObjectId,
    parents: &Vec<GitObjectId>,
) -> (r: Option<Vec<u8>>)
    requires
        changeset@.extra is Some ==> extra_buf_wf(changeset@.extra.unwrap()),
    ensures
        match r {
            Some(v) => prepare_commit_spec(
                changeset@,
                tree_id@,
                parents@.map_values(|p: GitObjectId| p@),
            ) == Some(v@),
            None => prepare_commit_spec(
                changeset@,
                tree_id@,
                parents@.map_values(|p: GitObjectId| p@),
            ) is None,
        },
{
    let ghost pv = parents@.map_values(|p: GitObjectId| p@);
    let off = match parse_sdec_exec(changeset.utcoffset.as_slice()) {
        Some(o) => o,
        None => {
            return None;
        },
    };
    let mut committer: Vec<u8> = Vec::new();
    let extra = changeset.extra();
    let mut have_committer = false;
    match &extra {
        Some(map) => {
            let ck = [99u8, 111u8, 109u8, 109u8, 105u8, 116u8, 116u8, 101u8, 114u8];
            proof {
                assert(ck@ =~= committer_key());
            }
            match map.get(ck.as_slice()) {
                Some(cv) => {
                    let cn = cv.len();
                    if cn > 0 && cv[cn - 1] == 62 {
                        push_git_line(
                            &mut committer,
                            cv.as_slice(),
                            changeset.timestamp.as_slice(),
                            off,
                        );
                        have_committer = true;
                    } else {
                        match committer_parts_exec(cv.as_slice()) {
                            Some((ca, cts, coff)) => {
                                push_git_line(&mut committer, ca.as_slice(), cts.as_slice(), coff);
                                have_committer = true;
                            },
                            None => {
                                return None;
                            },
                        }
                    }
                },
                None => {},
            }
        },
        None => {},
    }
    if !have_committer {
        push_git_line(
            &mut committer,
            changeset.author.as_slice(),
            changeset.timestamp.as_slice(),
            off,
        );
    }
    proof {
        assert(committer@ == committer_line_of(changeset@, off as int).unwrap());
    }
    let mut out: Vec<u8> = Vec::new();
    let tk = [116u8, 114u8, 101u8, 101u8, 32u8];
    proof {
        assert(tk@ =~= tree_keyword());
    }
    push_slice(&mut out, tk.as_slice());
    let th = tree_id.to_hex();
    push_slice(&mut out, th.as_slice());
    out.push(10);
    let n = parents.len();
    let mut i: usize = 0;
    proof {
        assert(pv.skip(0) =~= pv);
        assert(out@ + parent_lines(pv) =~= tree_keyword() + hex_of(tree_id@) + seq![10u8]
            + parent_lines(pv));
    }
    while i < n
        invariant
            i <= n,
            n == parents@.len(),
            pv == parents@.map_values(|p: GitObjectId| p@),
            out@ + parent_lines(pv.skip(i as int)) == tree_keyword() + hex_of(tree_id@) + seq![
                10u8,
            ] + parent_lines(pv),
        decreases n - i,
    {
        let pk = [112u8, 97u8, 114u8, 101u8, 110u8, 116u8, 32u8];
        proof {
            assert(pk@ =~= parent_keyword());
            assert(pv.skip(i as int)[0] == pv[i as int]);
            assert(pv[i as int] == parents@[i as int]@);
            assert(pv.skip(i as int).skip(1) =~= pv.skip(i + 1));
        }
        let ghost out0 = out@;
        push_slice(&mut out, pk.as_slice());
        let ph = parents[i].to_hex();
        push_slice(&mut out, ph.as_slice());
        out.push(10);
        proof {
            assert(out0 + parent_lines(pv.skip(i as int)) =~= out@ + parent_lines(
                pv.skip(i + 1),
            ));
        }
        i += 1;
    }
    proof {
        assert(pv.skip(n as int) =~= Seq::<Seq<u8>>::empty());
    }
    let ak = [97u8, 117u8, 116u8, 104u8, 111u8, 114u8, 32u8];
    proof {
        assert(ak@ =~= author_keyword());
    }
    push_slice(&mut out, ak.as_slice());
    push_git_line(&mut out, changeset.author.as_slice(), changeset.timestamp.as_slice(), off);
    out.push(10);
    let cmk = [99u8, 111u8, 109u8, 109u8, 105u8, 116u8, 116u8, 101u8, 114u8, 32u8];
    proof {
        assert(cmk@ =~= committer_keyword());
    }
    push_slice(&mut out, cmk.as_slice());
    push_slice(&mut out, committer.as_slice());
    out.push(10);
    out.push(10);
    push_slice(&mut out, changeset.body.as_slice());
    proof {
        assert(out@ =~= prepare_commit_spec(changeset@, tree_id@, pv).unwrap());
    }
    Some(out)
}

fn committer_parts_exec(cv: &[u8]) -> (r: Option<(Vec<u8>, Vec<u8>, i64)>)
    ensures
        match r {
            Some(p) => committer_parts(cv@) == Some((p.0@, p.1@, p.2 as int)) && -360000 < p.2
                < 360000,
            None => committer_parts(cv@) is None || !(match committer_parts(cv@) {
                Some(q) => -360000 < q.2 < 360000,
                None => false,
            }),
        },
{
    let n = cv.len();
    proof {
        assert(cv@.take(n as int) =~= cv@);
    }
    let i2 = match crate::authorship::rfind_before(cv, n, 32) {
        Some(i) => i,
        None => {
            return None;
        },
    };
    let i1 = match crate::authorship::rfind_before(cv, i2, 32) {
        Some(i) => i,
        None => {
            return None;
        },
    };
    let offtext = vstd::slice::slice_subrange(cv, i2 + 1, n);
    proof {
        assert(offtext@ =~= cv@.skip(i2 as int + 1));
    }
    let off = match parse_sdec_exec(offtext) {
        Some(o) => o,
        None => {
            return None;
        },
    };
    let a = vstd::slice::slice_to_vec(vstd::slice::slice_subrange(cv, 0, i1));
    let ts = vstd::slice::slice_to_vec(vstd::slice::slice_subrange(cv, i1 + 1, i2));
    proof {
        assert(a@ =~= cv@.take(i1 as int));
        assert(ts@ =~= cv@.subrange(i1 as int + 1, i2 as int));
    }
    Some((a, ts, off))
}

/// The tree content of the checkpoint commit: at most one `bundle` entry.
pub open spec fn bundle_tree_spec(blob: Option<Seq<u8>>) -> Seq<u8> {
    match blob {
        None => Seq::empty(),
        Some(b) => seq![
            49u8, 48u8, 48u8, 54u8, 52u8, 52u8, 32u8, 98u8, 117u8, 110u8, 100u8, 108u8, 101u8,
            0u8,
        ] + b,
    }
}

/// Build the checkpoint tree bytes: empty, or one blob entry named
/// `bundle` in Git tree-entry form.
pub fn bundle_tree_bytes(blob: Option<&GitObjectId>) -> (r: Vec<u8>)
    ensures
        match blob {
            None => r@ == bundle_tree_spec(None),
            Some(b) => r@ == bundle_tree_spec(Some(b@)),
        },
{
    match blob {
        None => {
            let r: Vec<u8> = Vec::new();
            proof {
                assert(r@ =~= bundle_tree_spec(None));
            }
            r
        },
        Some(b) => {
            let mode = [
                49u8, 48u8, 48u8, 54u8, 52u8, 52u8, 32u8, 98u8, 117u8, 110u8, 100u8, 108u8, 101u8,
                0u8,
            ];
            let mut r = vstd::slice::slice_to_vec(mode.as_slice());
            push_slice(&mut r, b.bytes.as_slice());
            proof {
                assert(r@ =~= bundle_tree_spec(Some(b@)));
            }
            r
        },
    }
}


/// The fixed authorship line of the checkpoint commit.
pub open spec fn checkpoint_author_line() -> Seq<u8> {
    seq![97u8, 117u8, 116u8, 104u8, 111u8, 114u8, 32u8, 32u8, 60u8, 99u8, 105u8, 110u8, 110u8, 97u8, 98u8, 97u8, 114u8, 64u8, 103u8, 105u8, 116u8, 62u8, 32u8, 48u8, 32u8, 43u8, 48u8, 48u8, 48u8, 48u8, 10u8]
}

/// The fixed committer line of the checkpoint commit.
pub open spec fn checkpoint_committer_line() -> Seq<u8> {
    seq![99u8, 111u8, 109u8, 109u8, 105u8, 116u8, 116u8, 101u8, 114u8, 32u8, 32u8, 60u8, 99u8, 105u8, 110u8, 110u8, 97u8, 98u8, 97u8, 114u8, 64u8, 103u8, 105u8, 116u8, 62u8, 32u8, 48u8, 32u8, 43u8, 48u8, 48u8, 48u8, 48u8, 10u8]
}

/// The synthetic checkpoint commit: tree line, one parent line per head in
/// ordinal order, fixed authorship lines, and the head list as the body.
pub open spec fn checkpoint_commit_spec(tree: Seq<u8>, heads: Seq<Seq<u8>>, body: Seq<u8>) -> Seq<
    u8,
> {
    tree_keyword() + hex_of(tree) + seq![10u8] + parent_lines(heads) + checkpoint_author_line()
        + checkpoint_committer_line() + (if body.len() == 0 {
        Seq::<u8>::empty()
    } else {
        seq![10u8] + body
    })
}

/// Build the checkpoint commit text from the tree id, the heads' commit
/// ids in ordinal order, and the checkpoint body.
pub fn checkpoint_commit_bytes(tree_id: &GitObjectId, heads: &Vec<GitObjectId>, body: &[u8]) -> (r:
    Vec<u8>)
    ensures
        r@ == checkpoint_commit_spec(
            tree_id@,
            heads@.map_values(|p: GitObjectId| p@),
            body@,
        ),
{
    let ghost pv = heads@.map_values(|p: GitObjectId| p@);
    let mut out: Vec<u8> = Vec::new();
    let tk = [116u8, 114u8, 101u8, 101u8, 32u8];
    proof {
        assert(tk@ =~= tree_keyword());
    }
    push_slice(&mut out, tk.as_slice());
    let th = tree_id.to_hex();
    push_slice(&mut out, th.as_slice());
    out.push(10);
    let n = heads.len();
    let mut i: usize = 0;
    proof {
        assert(pv.skip(0) =~= pv);
        assert(out@ + parent_lines(pv) =~= tree_keyword() + hex_of(tree_id@) + seq![10u8]
            + parent_lines(pv));
    }
    while i < n
        invariant
            i <= n,
            n == heads@.len(),
            pv == heads@.map_values(|p: GitObjectId| p@),
            out@ + parent_lines(pv.skip(i as int)) == tree_keyword() + hex_of(tree_id@) + seq![
                10u8,
            ] + parent_lines(pv),
        decreases n - i,
    {
        let pk = [112u8, 97u8, 114u8, 101u8, 110u8, 116u8, 32u8];
        proof {
            assert(pk@ =~= parent_keyword());
            assert(pv.skip(i as int)[0] == pv[i as int]);
            assert(pv[i as int] == heads@[i as int]@);
            assert(pv.skip(i as int).skip(1) =~= pv.skip(i + 1));
        }
        let ghost out0 = out@;
        push_slice(&mut out, pk.as_slice());
        let ph = heads[i].to_hex();
        push_slice(&mut out, ph.as_slice());
        out.push(10);
        proof {
            assert(out0 + parent_lines(pv.skip(i as int)) =~= out@ + parent_lines(
                pv.skip(i + 1),
            ));
        }
        i += 1;
    }
    proof {
        assert(pv.skip(n as int) =~= Seq::<Seq<u8>>::empty());
    }
    let al = [97u8, 117u8, 116u8, 104u8, 111u8, 114u8, 32u8, 32u8, 60u8, 99u8, 105u8, 110u8, 110u8, 97u8, 98u8, 97u8, 114u8, 64u8, 103u8, 105u8, 116u8, 62u8, 32u8, 48u8, 32u8, 43u8, 48u8, 48u8, 48u8, 48u8, 10u8];
    let cl = [99u8, 111u8, 109u8, 109u8, 105u8, 116u8, 116u8, 101u8, 114u8, 32u8, 32u8, 60u8, 99u8, 105u8, 110u8, 110u8, 97u8, 98u8, 97u8, 114u8, 64u8, 103u8, 105u8, 116u8, 62u8, 32u8, 48u8, 32u8, 43u8, 48u8, 48u8, 48u8, 48u8, 10u8];
    proof {
        assert(al@ =~= checkpoint_author_line());
        assert(cl@ =~= checkpoint_committer_line());
    }
    push_slice(&mut out, al.as_slice());
    push_slice(&mut out, cl.as_slice());
    if body.len() > 0 {
        out.push(10);
        push_slice(&mut out, body);
    }
    proof {
        assert(out@ =~= checkpoint_commit_spec(tree_id@, pv, body@));
    }
    out
}

} // verus!
