//! The in-memory set of current Mercurial heads per branch. Entries keep
//! insertion order, which drives emission; the set is persisted as the body
//! of a synthetic commit and reloaded from it.

use vstd::prelude::*;
use crate::bytes::{has_byte, join_with, lemma_split2_concat, lemma_split_join, push_slice, split2,
    split_bytes, split_first_byte, split_on, vecs_view};
use crate::extra::{extra_get, ChangesetExtra};
use crate::oid::{
    hex_of, is_hex_lower, lemma_hex_of_is_lower, lemma_hex_of_len, lemma_unhex_hex, unhex,
    HgChangesetId,
};

verus! {

/// Entries with a given changeset id removed, order kept.
pub open spec fn heads_remove(es: Seq<(Seq<u8>, Seq<u8>)>, cs: Seq<u8>) -> Seq<(Seq<u8>, Seq<u8>)>
    decreases es.len(),
{
    if es.len() == 0 {
        Seq::empty()
    } else if es[0].0 == cs {
        heads_remove(es.skip(1), cs)
    } else {
        seq![es[0]] + heads_remove(es.skip(1), cs)
    }
}

/// Parents on the same branch leave the head set.
pub open spec fn remove_parents(
    es: Seq<(Seq<u8>, Seq<u8>)>,
    parents: Seq<(Seq<u8>, Seq<u8>)>,
    branch: Seq<u8>,
) -> Seq<(Seq<u8>, Seq<u8>)>
    decreases parents.len(),
{
    if parents.len() == 0 {
        es
    } else {
        let es2 = if parents[0].1 == branch {
            heads_remove(es, parents[0].0)
        } else {
            es
        };
        remove_parents(es2, parents.skip(1), branch)
    }
}

/// Adding a head: same-branch parents leave, an existing entry for the id
/// leaves, and the new entry lands at the end.
pub open spec fn heads_add(
    es: Seq<(Seq<u8>, Seq<u8>)>,
    cs: Seq<u8>,
    branch: Seq<u8>,
    parents: Seq<(Seq<u8>, Seq<u8>)>,
) -> Seq<(Seq<u8>, Seq<u8>)> {
    heads_remove(remove_parents(es, parents, branch), cs).push((cs, branch))
}

/// Emission: `hex(cs) SP branch LF` per entry, in order.
pub open spec fn dump_heads(es: Seq<(Seq<u8>, Seq<u8>)>) -> Seq<u8>
    decreases es.len(),
{
    if es.len() == 0 {
        Seq::empty()
    } else {
        hex_of(es[0].0) + seq![32u8] + es[0].1 + seq![10u8] + dump_heads(es.skip(1))
    }
}

/// The body of the synthetic checkpoint commit: `hex(cs) SP branch` lines
/// joined by LF, no trailing newline.
pub open spec fn heads_body(es: Seq<(Seq<u8>, Seq<u8>)>) -> Seq<u8> {
    if es.len() == 0 {
        Seq::empty()
    } else {
        join_with(es.map_values(|e: (Seq<u8>, Seq<u8>)| hex_of(e.0) + seq![32u8] + e.1), 10)
    }
}

/// Parse one `hex SP branch` line.
pub open spec fn parse_head_line(l: Seq<u8>) -> Option<(Seq<u8>, Seq<u8>)> {
    match split2(l, 32) {
        None => None,
        Some(p) => if p.0.len() == 40 && is_hex_lower(p.0) {
            Some((unhex(p.0), p.1))
        } else {
            None
        },
    }
}

/// Parse checkpoint lines onto ordered entries: a repeated changeset id
/// drops its earlier entry, so the later line wins with its later position.
pub open spec fn parse_heads_lines(
    lines: Seq<Seq<u8>>,
    acc: Seq<(Seq<u8>, Seq<u8>)>,
) -> Option<Seq<(Seq<u8>, Seq<u8>)>>
    decreases lines.len(),
{
    if lines.len() == 0 {
        Some(acc)
    } else {
        match parse_head_line(lines[0]) {
            None => None,
            Some(e) => parse_heads_lines(lines.skip(1), heads_remove(acc, e.0).push(e)),
        }
    }
}

pub open spec fn parse_heads_body(body: Seq<u8>) -> Option<Seq<(Seq<u8>, Seq<u8>)>> {
    if body.len() == 0 {
        Some(Seq::empty())
    } else {
        parse_heads_lines(split_on(body, 10), Seq::empty())
    }
}

/// The head set. Its view is the ordered entry list (changeset id bytes,
/// branch name).
pub struct ChangesetHeads {
    entries: Vec<(HgChangesetId, Vec<u8>)>,
}

impl View for ChangesetHeads {
    type V = Seq<(Seq<u8>, Seq<u8>)>;

    closed spec fn view(&self) -> Seq<(Seq<u8>, Seq<u8>)> {
        self.entries@.map_values(|e: (HgChangesetId, Vec<u8>)| (e.0@, e.1@))
    }
}

proof fn lemma_heads_remove_snoc(es: Seq<(Seq<u8>, Seq<u8>)>, e: (Seq<u8>, Seq<u8>), cs: Seq<u8>)
    ensures
        heads_remove(es.push(e), cs) == if e.0 == cs {
            heads_remove(es, cs)
        } else {
            heads_remove(es, cs).push(e)
        },
    decreases es.len(),
{
    assert(heads_remove(Seq::<(Seq<u8>, Seq<u8>)>::empty(), cs) == Seq::<(Seq<u8>, Seq<u8>)>::empty());
    if es.len() == 0 {
        assert(es.push(e)[0] == e);
        assert(es.push(e).skip(1) =~= Seq::<(Seq<u8>, Seq<u8>)>::empty());
        assert(heads_remove(es, cs) == Seq::<(Seq<u8>, Seq<u8>)>::empty());
        if e.0 == cs {
            assert(heads_remove(es.push(e), cs) =~= heads_remove(es, cs));
        } else {
            assert(heads_remove(es.push(e), cs) =~= heads_remove(es, cs).push(e));
        }
    } else {
        assert(es.push(e)[0] == es[0]);
        assert(es.push(e).skip(1) =~= es.skip(1).push(e));
        lemma_heads_remove_snoc(es.skip(1), e, cs);
        if e.0 == cs {
        } else {
            assert(heads_remove(es.push(e), cs) =~= heads_remove(es, cs).push(e));
        }
    }
}

impl ChangesetHeads {
    /// An empty head set.
    pub fn new() -> (r: Self)
        ensures
            r@ == Seq::<(Seq<u8>, Seq<u8>)>::empty(),
    {
        let r = ChangesetHeads { entries: Vec::new() };
        proof {
            assert(r@ =~= Seq::<(Seq<u8>, Seq<u8>)>::empty());
        }
        r
    }

    /// Remove the entry for a changeset id, if present.
    pub fn remove(&mut self, cs: &HgChangesetId)
        ensures
            final(self)@ == heads_remove(old(self)@, cs@),
    {
        let n = self.entries.len();
        let mut out: Vec<(HgChangesetId, Vec<u8>)> = Vec::new();
        let mut i: usize = 0;
        proof {
            assert(old(self)@.take(0) =~= Seq::<(Seq<u8>, Seq<u8>)>::empty());
            assert(out@.map_values(|e: (HgChangesetId, Vec<u8>)| (e.0@, e.1@)) =~= heads_remove(
                old(self)@.take(0),
                cs@,
            ));
        }
        while i < n
            invariant
                i <= n,
                n == self.entries@.len(),
                *self == *old(self),
                out@.map_values(|e: (HgChangesetId, Vec<u8>)| (e.0@, e.1@)) == heads_remove(
                    old(self)@.take(i as int),
                    cs@,
                ),
            decreases n - i,
        {
            proof {
                assert(old(self)@[i as int] == (self.entries@[i as int].0@, self.entries@[
                    i as int].1@));
                lemma_heads_remove_snoc(old(self)@.take(i as int), old(self)@[i as int], cs@);
                assert(old(self)@.take(i + 1) =~= old(self)@.take(i as int).push(old(self)@[
                    i as int]));
            }
            let keep = !(self.entries[i].0 == *cs);
            if keep {
                let e = (self.entries[i].0, vstd::slice::slice_to_vec(self.entries[i].1.as_slice()));
                proof {
                    assert((e.0@, e.1@) == old(self)@[i as int]);
                }
                let ghost before = out@;
                out.push(e);
                proof {
                    assert(out@.map_values(|x: (HgChangesetId, Vec<u8>)| (x.0@, x.1@)) =~= before
                        .map_values(|x: (HgChangesetId, Vec<u8>)| (x.0@, x.1@)).push(
                        (e.0@, e.1@),
                    ));
                }
            }
            i += 1;
        }
        proof {
            assert(old(self)@.take(n as int) =~= old(self)@);
        }
        self.entries = out;
    }

    /// Add a head: parents on the same branch leave the set, the entry
    /// lands at the end.
    pub fn add(
        &mut self,
        cs: &HgChangesetId,
        branch: &[u8],
        parents: &Vec<(HgChangesetId, Vec<u8>)>,
    )
        ensures
            final(self)@ == heads_add(
                old(self)@,
                cs@,
                branch@,
                parents@.map_values(|p: (HgChangesetId, Vec<u8>)| (p.0@, p.1@)),
            ),
    {
        let ghost pv = parents@.map_values(|p: (HgChangesetId, Vec<u8>)| (p.0@, p.1@));
        let n = parents.len();
        let mut i: usize = 0;
        proof {
            assert(pv.skip(0) =~= pv);
        }
        while i < n
            invariant
                i <= n,
                n == parents@.len(),
                pv == parents@.map_values(|p: (HgChangesetId, Vec<u8>)| (p.0@, p.1@)),
                remove_parents(old(self)@, pv, branch@) == remove_parents(
                    self@,
                    pv.skip(i as int),
                    branch@,
                ),
            decreases n - i,
        {
            proof {
                assert(pv.skip(i as int)[0] == pv[i as int]);
                assert(pv[i as int] == (parents@[i as int].0@, parents@[i as int].1@));
                assert(pv.skip(i as int).skip(1) =~= pv.skip(i + 1));
            }
            if crate::bytes::bytes_eq(parents[i].1.as_slice(), branch) {
                self.remove(&parents[i].0);
            }
            i += 1;
        }
        proof {
            assert(pv.skip(n as int) =~= Seq::<(Seq<u8>, Seq<u8>)>::empty());
        }
        self.remove(cs);
        let e = (*cs, vstd::slice::slice_to_vec(branch));
        let ghost before = self@;
        self.entries.push(e);
        proof {
            assert(self@ =~= before.push((cs@, branch@)));
        }
    }

    /// Emit `hex(cs) SP branch LF` per entry, in order.
    pub fn dump(&self) -> (r: Vec<u8>)
        ensures
            r@ == dump_heads(self@),
    {
        let n = self.entries.len();
        let mut r: Vec<u8> = Vec::new();
        let mut i: usize = 0;
        proof {
            assert(self@.skip(0) =~= self@);
            assert(r@ + dump_heads(self@) =~= dump_heads(self@));
        }
        while i < n
            invariant
                i <= n,
                n == self.entries@.len(),
                dump_heads(self@) == r@ + dump_heads(self@.skip(i as int)),
            decreases n - i,
        {
            proof {
                assert(self@.skip(i as int)[0] == self@[i as int]);
                assert(self@[i as int] == (self.entries@[i as int].0@, self.entries@[i as int].1@));
                assert(self@.skip(i as int).skip(1) =~= self@.skip(i + 1));
            }
            let ghost r0 = r@;
            let hexcs = self.entries[i].0.to_hex();
            push_slice(&mut r, hexcs.as_slice());
            r.push(32);
            push_slice(&mut r, self.entries[i].1.as_slice());
            r.push(10);
            proof {
                assert(r0 + dump_heads(self@.skip(i as int)) =~= r@ + dump_heads(
                    self@.skip(i + 1),
                ));
            }
            i += 1;
        }
        proof {
            assert(self@.skip(n as int) =~= Seq::<(Seq<u8>, Seq<u8>)>::empty());
        }
        r
    }

    /// The body of the synthetic checkpoint commit.
    pub fn checkpoint_body(&self) -> (r: Vec<u8>)
        ensures
            r@ == heads_body(self@),
    {
        let n = self.entries.len();
        let mut lines: Vec<Vec<u8>> = Vec::new();
        let mut i: usize = 0;
        let ghost lv = self@.map_values(|e: (Seq<u8>, Seq<u8>)| hex_of(e.0) + seq![32u8] + e.1);
        while i < n
            invariant
                i <= n,
                n == self.entries@.len(),
                lv == self@.map_values(|e: (Seq<u8>, Seq<u8>)| hex_of(e.0) + seq![32u8] + e.1),
                vecs_view(lines@) =~= lv.take(i as int),
            decreases n - i,
        {
            let mut line = self.entries[i].0.to_hex();
            line.push(32);
            push_slice(&mut line, self.entries[i].1.as_slice());
            proof {
                assert(self@[i as int] == (self.entries@[i as int].0@, self.entries@[i as int].1@));
                assert(line@ == lv[i as int]);
                assert(vecs_view(lines@.push(line)) =~= vecs_view(lines@).push(line@));
                assert(lv.take(i + 1) =~= lv.take(i as int).push(lv[i as int]));
            }
            lines.push(line);
            i += 1;
        }
        proof {
            assert(lv.take(n as int) =~= lv);
        }
        if lines.len() == 0 {
            let r: Vec<u8> = Vec::new();
            proof {
                assert(self@.len() == 0);
            }
            return r;
        }
        let r = crate::reconstruct::join_bytes(&lines, 10);
        r
    }

    /// Reload a head set from a checkpoint body; entries keep their order,
    /// so a later `dump` emits the same sequence.
    pub fn reset_from_body(body: &[u8]) -> (r: Option<ChangesetHeads>)
        ensures
            match r {
                Some(h) => parse_heads_body(body@) == Some(h@),
                None => parse_heads_body(body@) == None::<Seq<(Seq<u8>, Seq<u8>)>>,
            },
    {
        if body.len() == 0 {
            let r = ChangesetHeads::new();
            return Some(r);
        }
        let lines = split_bytes(body, 10);
        let ghost all = split_on(body@, 10);
        let n = lines.len();
        let mut heads = ChangesetHeads::new();
        let mut i: usize = 0;
        proof {
            assert(all.skip(0) =~= all);
        }
        while i < n
            invariant
                i <= n,
                n == lines@.len(),
                body@.len() > 0,
                all == split_on(body@, 10),
                vecs_view(lines@) == all,
                parse_heads_lines(all, Seq::empty()) == parse_heads_lines(
                    all.skip(i as int),
                    heads@,
                ),
            decreases n - i,
        {
            proof {
                assert(all.skip(i as int)[0] == all[i as int]);
                assert(all[i as int] == lines@[i as int]@);
                assert(all.skip(i as int).skip(1) =~= all.skip(i + 1));
            }
            let (hexcs, branch) = match split_first_byte(lines[i].as_slice(), 32) {
                Some(p) => p,
                None => {
                    return None;
                },
            };
            let cs = match HgChangesetId::from_bytes(hexcs.as_slice()) {
                Some(id) => id,
                None => {
                    return None;
                },
            };
            heads.remove(&cs);
            let ghost before = heads@;
            heads.entries.push((cs, branch));
            proof {
                assert(heads@ =~= before.push((cs@, branch@)));
            }
            i += 1;
        }
        proof {
            assert(all.skip(n as int) =~= Seq::<Seq<u8>>::empty());
        }
        Some(heads)
    }
}

/// The extras key naming a branch.
pub open spec fn branch_key() -> Seq<u8> {
    seq![98u8, 114u8, 97u8, 110u8, 99u8, 104u8]
}

/// The default branch name.
pub open spec fn default_branch() -> Seq<u8> {
    seq![100u8, 101u8, 102u8, 97u8, 117u8, 108u8, 116u8]
}

/// The branch a changeset belongs to: its `branch` extra, else `default`.
pub open spec fn branch_of(extra: Option<Seq<(Seq<u8>, Seq<u8>)>>) -> Seq<u8> {
    match extra {
        None => default_branch(),
        Some(es) => match extra_get(es, branch_key()) {
            None => default_branch(),
            Some(b) => b,
        },
    }
}

/// The branch recorded in a changeset's extras, defaulting to `default`.
pub fn branch_or_default(extra: Option<&ChangesetExtra>) -> (r: Vec<u8>)
    ensures
        r@ == branch_of(
            match extra {
                Some(e) => Some(e@),
                None => None,
            },
        ),
{
    let bk = [98u8, 114u8, 97u8, 110u8, 99u8, 104u8];
    let dflt = [100u8, 101u8, 102u8, 97u8, 117u8, 108u8, 116u8];
    proof {
        assert(bk@ =~= branch_key());
        assert(dflt@ =~= default_branch());
    }
    match extra {
        Some(e) => match e.get(bk.as_slice()) {
            Some(b) => vstd::slice::slice_to_vec(b.as_slice()),
            None => vstd::slice::slice_to_vec(dflt.as_slice()),
        },
        None => vstd::slice::slice_to_vec(dflt.as_slice()),
    }
}

/// A head set whose entries round-trip through the checkpoint body: ids
/// are twenty bytes and distinct (the set never binds an id twice), and
/// branch names hold no newline.
pub open spec fn heads_wf(es: Seq<(Seq<u8>, Seq<u8>)>) -> bool {
    &&& forall|i: int|
        0 <= i < es.len() ==> (#[trigger] es[i]).0.len() == 20 && !has_byte(es[i].1, 10)
    &&& forall|i: int, j: int|
        #![trigger es[i], es[j]]
        0 <= i < j < es.len() ==> es[i].0 != es[j].0
}

/// A checkpoint followed by a reload yields the same ordered entries: the
/// head set round trip.
pub proof fn lemma_heads_round_trip(es: Seq<(Seq<u8>, Seq<u8>)>)
    requires
        heads_wf(es),
    ensures
        parse_heads_body(heads_body(es)) == Some(es),
    decreases es.len(),
{
    if es.len() == 0 {
    } else {
        let lv = es.map_values(|e: (Seq<u8>, Seq<u8>)| hex_of(e.0) + seq![32u8] + e.1);
        assert forall|i: int| 0 <= i < lv.len() implies !has_byte(#[trigger] lv[i], 10) && lv[i].len()
            > 0 by {
            lemma_head_line_ok(es[i].0, es[i].1);
            assert(lv[i] == hex_of(es[i].0) + seq![32u8] + es[i].1);
        }
        lemma_split_join(lv, 10);
        let body = heads_body(es);
        assert(body.len() > 0) by {
            if body.len() == 0 {
                assert(split_on(body, 10) =~= seq![Seq::<u8>::empty()]);
                assert(lv[0].len() > 0);
            }
        }
        assert(parse_heads_body(body) == parse_heads_lines(lv, Seq::empty()));
        lemma_parse_heads_of_lines(es, Seq::empty());
        assert(Seq::<(Seq<u8>, Seq<u8>)>::empty() + es =~= es);
    }
}

/// Removal of an id that is not bound leaves the entries unchanged.
proof fn lemma_heads_remove_absent(es: Seq<(Seq<u8>, Seq<u8>)>, cs: Seq<u8>)
    requires
        forall|i: int| 0 <= i < es.len() ==> (#[trigger] es[i]).0 != cs,
    ensures
        heads_remove(es, cs) == es,
    decreases es.len(),
{
    if es.len() > 0 {
        assert forall|i: int| 0 <= i < es.skip(1).len() implies (#[trigger] es.skip(1)[i]).0
            != cs by {
            assert(es.skip(1)[i] == es[i + 1]);
        }
        lemma_heads_remove_absent(es.skip(1), cs);
        assert(seq![es[0]] + es.skip(1) =~= es);
    }
}

proof fn lemma_head_line_ok(cs: Seq<u8>, branch: Seq<u8>)
    requires
        !has_byte(branch, 10),
    ensures
        !has_byte(hex_of(cs) + seq![32u8] + branch, 10),
        (hex_of(cs) + seq![32u8] + branch).len() > 0,
{
    let l = hex_of(cs) + seq![32u8] + branch;
    lemma_hex_of_is_lower(cs);
    assert forall|i: int| 0 <= i < l.len() implies l[i] != 10 by {
        if i < hex_of(cs).len() {
            assert(l[i] == hex_of(cs)[i]);
            assert(crate::oid::is_lower_hex_digit(l[i]));
        } else if i == hex_of(cs).len() {
        } else {
            assert(l[i] == branch[i - hex_of(cs).len() - 1]);
        }
    }
}

proof fn lemma_parse_heads_of_lines(es: Seq<(Seq<u8>, Seq<u8>)>, acc: Seq<(Seq<u8>, Seq<u8>)>)
    requires
        heads_wf(es),
        forall|i: int, j: int|
            #![trigger acc[i], es[j]]
            0 <= i < acc.len() && 0 <= j < es.len() ==> acc[i].0 != es[j].0,
    ensures
        parse_heads_lines(
            es.map_values(|e: (Seq<u8>, Seq<u8>)| hex_of(e.0) + seq![32u8] + e.1),
            acc,
        ) == Some(acc + es),
    decreases es.len(),
{
    let lv = es.map_values(|e: (Seq<u8>, Seq<u8>)| hex_of(e.0) + seq![32u8] + e.1);
    if es.len() == 0 {
        assert(lv.len() == 0);
        assert(acc + es =~= acc);
    } else {
        lemma_hex_of_is_lower(es[0].0);
        lemma_hex_of_len(es[0].0);
        lemma_unhex_hex(es[0].0);
        assert forall|j: int| 0 <= j < hex_of(es[0].0).len() implies hex_of(es[0].0)[j] != 32 by {
            assert(crate::oid::is_lower_hex_digit(hex_of(es[0].0)[j]));
        }
        lemma_split2_concat(hex_of(es[0].0), es[0].1, 32);
        assert(lv[0] == hex_of(es[0].0) + seq![32u8] + es[0].1);
        assert(parse_head_line(lv[0]) == Some((es[0].0, es[0].1)));
        assert forall|i: int| 0 <= i < es.skip(1).len() implies (#[trigger] es.skip(1)[i]).0.len()
            == 20 && !has_byte(es.skip(1)[i].1, 10) by {
            assert(es.skip(1)[i] == es[i + 1]);
        }
        assert forall|i: int, j: int|
            #![trigger es.skip(1)[i], es.skip(1)[j]]
            0 <= i < j < es.skip(1).len() implies es.skip(1)[i].0 != es.skip(1)[j].0 by {
            assert(es.skip(1)[i] == es[i + 1]);
            assert(es.skip(1)[j] == es[j + 1]);
        }
        assert forall|i: int| 0 <= i < acc.len() implies (#[trigger] acc[i]).0 != es[0].0 by {
            assert(acc[i].0 != es[0].0);
        }
        lemma_heads_remove_absent(acc, es[0].0);
        assert((es[0].0, es[0].1) == es[0]);
        let acc2 = acc.push(es[0]);
        assert forall|i: int, j: int|
            #![trigger acc2[i], es.skip(1)[j]]
            0 <= i < acc2.len() && 0 <= j < es.skip(1).len() implies acc2[i].0 != es.skip(1)[
            j].0 by {
            assert(es.skip(1)[j] == es[j + 1]);
            if i < acc.len() {
                assert(acc2[i] == acc[i]);
            } else {
                assert(acc2[i] == es[0]);
            }
        }
        lemma_parse_heads_of_lines(es.skip(1), acc2);
        assert(lv.skip(1) =~= es.skip(1).map_values(
            |e: (Seq<u8>, Seq<u8>)| hex_of(e.0) + seq![32u8] + e.1,
        ));
        assert(acc2 + es.skip(1) =~= acc + es);
    }
}

} // verus!
