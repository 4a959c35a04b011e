//! The correction patch: an ordered list of replacements at offsets of the
//! original text, its application, a minimal diff, and its textual form
//! (`start,end,percent-escaped-data` triples joined by NUL).

use vstd::prelude::*;
use crate::bytes::{
    has_byte, lemma_split_on_concat, lemma_split_on_no_sep, lemma_split2_concat, split2, split_on,
    split_bytes, split_first_byte, push_slice, vecs_view,
};
use crate::numbers::{
    dec_of, dec_val, format_dec, is_dec, is_dec_digit, lemma_dec_round_trip, parse_dec,
};
use crate::percent::{
    lemma_percent_encode_chars, lemma_percent_round_trip, percent_decode_bytes,
    percent_decode_spec, percent_encode_bytes, percent_encode_spec, is_alnum,
};

verus! {

/// One replacement: bytes `start..end` of the original text are replaced by
/// `data`. Offsets always refer to the original text, not the patched one.
#[derive(Clone, Debug)]
pub struct PatchInfo {
    pub start: usize,
    pub end: usize,
    pub data: Vec<u8>,
}

impl View for PatchInfo {
    type V = (int, int, Seq<u8>);

    open spec fn view(&self) -> (int, int, Seq<u8>) {
        (self.start as int, self.end as int, self.data@)
    }
}

pub open spec fn patch_infos_view(ps: Seq<PatchInfo>) -> Seq<(int, int, Seq<u8>)> {
    ps.map_values(|p: PatchInfo| p@)
}

/// Entries are ordered, within bounds, and never overlap.
pub open spec fn patch_wf(es: Seq<(int, int, Seq<u8>)>, cursor: int, len: int) -> bool
    decreases es.len(),
{
    if es.len() == 0 {
        true
    } else {
        cursor <= es[0].0 <= es[0].1 <= len && patch_wf(es.skip(1), es[0].1, len)
    }
}

/// Left-to-right application with a cursor in the original text: emit
/// `input[cursor..start]`, then the replacement, then continue at `end`.
pub open spec fn apply_patch_spec(es: Seq<(int, int, Seq<u8>)>, input: Seq<u8>, cursor: int) -> Seq<
    u8,
>
    decreases es.len(),
{
    if es.len() == 0 {
        input.subrange(cursor, input.len() as int)
    } else {
        input.subrange(cursor, es[0].0) + es[0].2 + apply_patch_spec(es.skip(1), input, es[0].1)
    }
}

/// Apply a patch to `input`; `None` when the entries are out of order or out
/// of bounds.
pub fn apply_patch(ps: &Vec<PatchInfo>, input: &[u8]) -> (r: Option<Vec<u8>>)
    ensures
        r is Some <==> patch_wf(patch_infos_view(ps@), 0, input@.len() as int),
        r is Some ==> r.unwrap()@ == apply_patch_spec(patch_infos_view(ps@), input@, 0),
{
    let ghost pv = patch_infos_view(ps@);
    let len = input.len();
    let mut out: Vec<u8> = Vec::new();
    let mut cursor: usize = 0;
    let mut i: usize = 0;
    proof {
        assert(pv.skip(0) =~= pv);
        assert(out@ + apply_patch_spec(pv, input@, 0) =~= apply_patch_spec(pv, input@, 0));
    }
    while i < ps.len()
        invariant
            i <= ps@.len(),
            cursor <= input@.len(),
            len == input@.len(),
            pv == patch_infos_view(ps@),
            patch_wf(pv, 0, len as int) == patch_wf(pv.skip(i as int), cursor as int, len as int),
            apply_patch_spec(pv, input@, 0) == out@ + apply_patch_spec(
                pv.skip(i as int),
                input@,
                cursor as int,
            ),
        decreases ps@.len() - i,
    {
        let start = ps[i].start;
        let end = ps[i].end;
        proof {
            assert(pv[i as int] == ps@[i as int]@);
            assert(pv.skip(i as int)[0] == pv[i as int]);
        }
        if start < cursor || end < start || end > len {
            assert(!patch_wf(pv.skip(i as int), cursor as int, len as int));
            return None;
        }
        let ghost out0 = out@;
        push_slice(&mut out, vstd::slice::slice_subrange(input, cursor, start));
        push_slice(&mut out, ps[i].data.as_slice());
        proof {
            assert(pv.skip(i as int).skip(1) =~= pv.skip(i + 1));
            assert(apply_patch_spec(pv.skip(i as int), input@, cursor as int) == input@.subrange(
                cursor as int,
                start as int,
            ) + ps@[i as int].data@ + apply_patch_spec(pv.skip(i + 1), input@, end as int));
            assert(out0 + apply_patch_spec(pv.skip(i as int), input@, cursor as int) =~= out@
                + apply_patch_spec(pv.skip(i + 1), input@, end as int));
        }
        cursor = end;
        i += 1;
    }
    proof {
        assert(pv.skip(ps@.len() as int) =~= Seq::<(int, int, Seq<u8>)>::empty());
    }
    push_slice(&mut out, vstd::slice::slice_subrange(input, cursor, len));
    Some(out)
}

/// A deterministic diff: the common prefix and suffix are trimmed and the
/// middle of `truth` replaces the middle of `synthesized`, so that applying
/// the result to `synthesized` yields `truth` exactly.
pub fn textdiff(truth: &[u8], synthesized: &[u8]) -> (r: Vec<PatchInfo>)
    ensures
        patch_wf(patch_infos_view(r@), 0, synthesized@.len() as int),
        apply_patch_spec(patch_infos_view(r@), synthesized@, 0) == truth@,
        truth@ == synthesized@ ==> r@.len() == 0,
        truth@ != synthesized@ ==> r@.len() == 1,
{
    let tn = truth.len();
    let sn = synthesized.len();
    let mut p: usize = 0;
    while p < tn && p < sn && truth[p] == synthesized[p]
        invariant
            p <= tn,
            p <= sn,
            tn == truth@.len(),
            sn == synthesized@.len(),
            forall|j: int| 0 <= j < p ==> truth@[j] == synthesized@[j],
        decreases tn - p,
    {
        p += 1;
    }
    if p == tn && p == sn {
        proof {
            assert(truth@ =~= synthesized@);
            let pv = patch_infos_view(Seq::<PatchInfo>::empty());
            assert(pv =~= Seq::<(int, int, Seq<u8>)>::empty());
            assert(apply_patch_spec(pv, synthesized@, 0) =~= truth@);
        }
        let r: Vec<PatchInfo> = Vec::new();
        proof {
            assert(patch_infos_view(r@) =~= Seq::<(int, int, Seq<u8>)>::empty());
        }
        return r;
    }
    let mut q: usize = 0;
    while q < tn - p && q < sn - p && truth[tn - 1 - q] == synthesized[sn - 1 - q]
        invariant
            p <= tn,
            p <= sn,
            q <= tn - p,
            q <= sn - p,
            tn == truth@.len(),
            sn == synthesized@.len(),
            forall|j: int| 0 <= j < q ==> #[trigger] truth@[tn - 1 - j] == synthesized@[sn - 1 - j],
        decreases tn - p - q,
    {
        q += 1;
    }
    let data = vstd::slice::slice_to_vec(vstd::slice::slice_subrange(truth, p, tn - q));
    let info = PatchInfo { start: p, end: sn - q, data };
    let mut r: Vec<PatchInfo> = Vec::new();
    r.push(info);
    proof {
        let pv = patch_infos_view(r@);
        assert(pv.len() == 1);
        assert(pv[0] == (p as int, (sn - q) as int, truth@.subrange(p as int, (tn - q) as int)));
        assert(pv.skip(1) =~= Seq::<(int, int, Seq<u8>)>::empty());
        assert(pv.skip(1).len() == 0);
        assert(patch_wf(pv.skip(1), (sn - q) as int, sn as int));
        assert(p + q <= sn);
        assert(0 <= pv[0].0 <= pv[0].1 <= sn as int);
        assert(patch_wf(pv, 0, sn as int));
        let applied = apply_patch_spec(pv, synthesized@, 0);
        assert(apply_patch_spec(pv.skip(1), synthesized@, (sn - q) as int) == synthesized@.subrange(
            (sn - q) as int,
            sn as int,
        ));
        assert(applied == synthesized@.subrange(0, p as int) + truth@.subrange(
            p as int,
            (tn - q) as int,
        ) + synthesized@.subrange((sn - q) as int, sn as int));
        assert(applied =~= truth@) by {
            assert(applied.len() == tn);
            assert forall|k: int| 0 <= k < tn implies applied[k] == truth@[k] by {
                if k < p {
                } else if k < tn - q {
                } else {
                    assert(applied[k] == synthesized@[sn - q + (k - (tn - q))]);
                    assert(truth@[tn - 1 - (tn - 1 - k)] == synthesized@[sn - 1 - (tn - 1 - k)]);
                }
            }
        }
        if truth@ == synthesized@ {
            assert(tn == sn);
            assert(p < tn || p < sn);
            assert(truth@[p as int] == synthesized@[p as int]);
            assert(false);
        }
    }
    r
}

/// Textual form of one entry: `start,end,escaped-data`.
pub open spec fn patch_entry_text(e: (int, int, Seq<u8>)) -> Seq<u8> {
    dec_of(e.0 as nat) + seq![44u8] + dec_of(e.1 as nat) + seq![44u8] + percent_encode_spec(e.2)
}

/// Textual form of a patch: entries joined by NUL.
pub open spec fn patch_text(es: Seq<(int, int, Seq<u8>)>) -> Seq<u8>
    decreases es.len(),
{
    if es.len() == 0 {
        Seq::empty()
    } else if es.len() == 1 {
        patch_entry_text(es[0])
    } else {
        patch_entry_text(es[0]) + seq![0u8] + patch_text(es.skip(1))
    }
}

/// Parse of one textual entry.
pub open spec fn parse_patch_entry(part: Seq<u8>) -> Option<(int, int, Seq<u8>)> {
    match split2(part, 44) {
        None => None,
        Some(p1) => match split2(p1.1, 44) {
            None => None,
            Some(p2) => if is_dec(p1.0) && dec_val(p1.0) <= usize::MAX && is_dec(p2.0) && dec_val(
                p2.0,
            ) <= usize::MAX {
                Some((dec_val(p1.0), dec_val(p2.0), percent_decode_spec(p2.1)))
            } else {
                None
            },
        },
    }
}

/// Parse of a NUL-separated list of entries; all or nothing.
pub open spec fn parse_patch_parts(parts: Seq<Seq<u8>>) -> Option<Seq<(int, int, Seq<u8>)>>
    decreases parts.len(),
{
    if parts.len() == 0 {
        Some(Seq::empty())
    } else {
        match parse_patch_entry(parts[0]) {
            None => None,
            Some(e) => match parse_patch_parts(parts.skip(1)) {
                None => None,
                Some(rest) => Some(seq![e] + rest),
            },
        }
    }
}

/// Parse a decimal offset that must fit in `usize`.
pub fn parse_dec_usize(s: &[u8]) -> (r: Option<usize>)
    ensures
        r is Some <==> (is_dec(s@) && dec_val(s@) <= usize::MAX),
        r is Some ==> r.unwrap() as int == dec_val(s@),
{
    match parse_dec(s) {
        Some(x) => if x <= usize::MAX as u64 {
            Some(x as usize)
        } else {
            None
        },
        None => None,
    }
}

fn parse_entry_exec(part: &[u8]) -> (r: Option<PatchInfo>)
    ensures
        match r {
            Some(p) => parse_patch_entry(part@) == Some(p@),
            None => parse_patch_entry(part@) == None::<(int, int, Seq<u8>)>,
        },
{
    let (start_s, rest) = match split_first_byte(part, 44) {
        Some(p) => p,
        None => {
            return None;
        },
    };
    let (end_s, data_s) = match split_first_byte(rest.as_slice(), 44) {
        Some(p) => p,
        None => {
            return None;
        },
    };
    let start = match parse_dec_usize(start_s.as_slice()) {
        Some(x) => x,
        None => {
            return None;
        },
    };
    let end = match parse_dec_usize(end_s.as_slice()) {
        Some(x) => x,
        None => {
            return None;
        },
    };
    let data = percent_decode_bytes(data_s.as_slice());
    Some(PatchInfo { start, end, data })
}

/// The textual form of a correction patch.
pub struct GitChangesetPatch(pub Vec<u8>);

impl GitChangesetPatch {
    /// Parse the entry list; `None` on any malformed entry.
    pub fn iter(&self) -> (r: Option<Vec<PatchInfo>>)
        ensures
            match r {
                Some(v) => parse_patch_parts(split_on(self.0@, 0)) == Some(patch_infos_view(v@)),
                None => parse_patch_parts(split_on(self.0@, 0)) == None::<Seq<(int, int, Seq<u8>)>>,
            },
    {
        let parts = split_bytes(self.0.as_slice(), 0);
        let ghost all = split_on(self.0@, 0);
        let mut out: Vec<PatchInfo> = Vec::new();
        let mut i: usize = 0;
        proof {
            assert(all.skip(0) =~= all);
        }
        while i < parts.len()
            invariant
                i <= parts@.len(),
                all == split_on(self.0@, 0),
                vecs_view(parts@) == all,
                parse_patch_parts(all) == (match parse_patch_parts(all.skip(i as int)) {
                    None => None,
                    Some(rest) => Some(patch_infos_view(out@) + rest),
                }),
            decreases parts@.len() - i,
        {
            proof {
                assert(all.skip(i as int)[0] == all[i as int]);
                assert(all[i as int] == parts@[i as int]@);
            }
            match parse_entry_exec(parts[i].as_slice()) {
                Some(p) => {
                    proof {
                        assert(all.skip(i as int).skip(1) =~= all.skip(i + 1));
                        assert(patch_infos_view(out@.push(p)) =~= patch_infos_view(out@) + seq![
                            p@,
                        ]);
                        if parse_patch_parts(all.skip(i + 1)) is Some {
                            let rest = parse_patch_parts(all.skip(i + 1)).unwrap();
                            assert((patch_infos_view(out@) + seq![p@]) + rest =~= patch_infos_view(
                                out@,
                            ) + (seq![p@] + rest));
                        }
                    }
                    out.push(p);
                    i += 1;
                },
                None => {
                    proof {
                        assert(all.skip(i as int).len() > 0);
                        assert(parse_patch_parts(all.skip(i as int)) is None);
                        assert(parse_patch_parts(split_on(self.0@, 0)) == None::<
                            Seq<(int, int, Seq<u8>)>,
                        >);
                    }
                    return None;
                },
            }
        }
        proof {
            assert(all.skip(parts@.len() as int) =~= Seq::<Seq<u8>>::empty());
            assert(patch_infos_view(out@) + Seq::<(int, int, Seq<u8>)>::empty() =~= patch_infos_view(
                out@,
            ));
        }
        Some(out)
    }

    /// Parse and apply to `input`.
    pub fn apply(&self, input: &[u8]) -> (r: Option<Vec<u8>>)
        ensures
            r is Some <==> (parse_patch_parts(split_on(self.0@, 0)) is Some && patch_wf(
                parse_patch_parts(split_on(self.0@, 0)).unwrap(),
                0,
                input@.len() as int,
            )),
            r is Some ==> r.unwrap()@ == apply_patch_spec(
                parse_patch_parts(split_on(self.0@, 0)).unwrap(),
                input@,
                0,
            ),
    {
        match self.iter() {
            Some(ps) => apply_patch(&ps, input),
            None => None,
        }
    }

    /// Serialize a list of entries to the textual form.
    pub fn from_patch_info(ps: &Vec<PatchInfo>) -> (r: Vec<u8>)
        ensures
            r@ == patch_text(patch_infos_view(ps@)),
    {
        let ghost pv = patch_infos_view(ps@);
        let mut r: Vec<u8> = Vec::new();
        let mut n: usize = 0;
        proof {
            assert(pv.take(0) =~= Seq::<(int, int, Seq<u8>)>::empty());
            assert(r@ =~= patch_text(pv.take(0)));
        }
        while n < ps.len()
            invariant
                n <= ps@.len(),
                pv == patch_infos_view(ps@),
                r@ == patch_text(pv.take(n as int)),
            decreases ps@.len() - n,
        {
            if n > 0 {
                r.push(0);
            }
            let start_d = format_dec(ps[n].start as u64);
            push_slice(&mut r, start_d.as_slice());
            r.push(44);
            let end_d = format_dec(ps[n].end as u64);
            push_slice(&mut r, end_d.as_slice());
            r.push(44);
            let enc = percent_encode_bytes(ps[n].data.as_slice());
            push_slice(&mut r, enc.as_slice());
            proof {
                assert(pv[n as int] == ps@[n as int]@);
                lemma_patch_text_snoc(pv.take(n as int), pv[n as int]);
                assert(pv.take(n + 1) =~= pv.take(n as int).push(pv[n as int]));
                if n == 0 {
                    assert(r@ =~= patch_entry_text(pv[0]));
                } else {
                    assert(r@ =~= patch_text(pv.take(n as int)) + seq![0u8] + patch_entry_text(
                        pv[n as int],
                    ));
                }
            }
            n += 1;
        }
        proof {
            assert(pv.take(ps@.len() as int) =~= pv);
        }
        r
    }
}

proof fn lemma_patch_text_snoc(es: Seq<(int, int, Seq<u8>)>, e: (int, int, Seq<u8>))
    ensures
        patch_text(es.push(e)) == if es.len() == 0 {
            patch_entry_text(e)
        } else {
            patch_text(es) + seq![0u8] + patch_entry_text(e)
        },
    decreases es.len(),
{
    if es.len() == 0 {
        assert(es.push(e)[0] == e);
        assert(patch_text(es.push(e)) == patch_entry_text(e));
    } else {
        assert(es.push(e).skip(1) =~= es.skip(1).push(e));
        lemma_patch_text_snoc(es.skip(1), e);
        if es.len() == 1 {
            assert(patch_text(es) == patch_entry_text(es[0]));
            assert(patch_text(es.push(e)) =~= patch_text(es) + seq![0u8] + patch_entry_text(e));
        } else {
            assert(patch_text(es.push(e)) =~= patch_text(es) + seq![0u8] + patch_entry_text(e));
        }
    }
}

proof fn lemma_entry_text_bytes(e: (int, int, Seq<u8>))
    requires
        0 <= e.0 <= usize::MAX,
        0 <= e.1 <= usize::MAX,
    ensures
        !has_byte(patch_entry_text(e), 0),
    decreases 0int,
{
    let t = patch_entry_text(e);
    let d0 = dec_of(e.0 as nat);
    let d1 = dec_of(e.1 as nat);
    let pe = percent_encode_spec(e.2);
    lemma_dec_round_trip(e.0 as nat);
    lemma_dec_round_trip(e.1 as nat);
    lemma_percent_encode_chars(e.2);
    assert forall|i: int| 0 <= i < t.len() implies t[i] != 0 by {
        if i < d0.len() {
            assert(t[i] == d0[i]);
            assert(is_dec_digit(d0[i]));
        } else if i == d0.len() {
            assert(t[i] == 44);
        } else if i < d0.len() + 1 + d1.len() {
            assert(t[i] == d1[i - d0.len() - 1]);
            assert(is_dec_digit(d1[i - d0.len() - 1]));
        } else if i == d0.len() + 1 + d1.len() {
            assert(t[i] == 44);
        } else {
            assert(t[i] == pe[i - d0.len() - d1.len() - 2]);
            assert(is_alnum(t[i]) || t[i] == 37);
        }
    }
}

proof fn lemma_parse_entry_of_text(e: (int, int, Seq<u8>))
    requires
        0 <= e.0 <= usize::MAX,
        0 <= e.1 <= usize::MAX,
    ensures
        parse_patch_entry(patch_entry_text(e)) == Some(e),
{
    let d0 = dec_of(e.0 as nat);
    let d1 = dec_of(e.1 as nat);
    let pe = percent_encode_spec(e.2);
    lemma_dec_round_trip(e.0 as nat);
    lemma_dec_round_trip(e.1 as nat);
    lemma_percent_round_trip(e.2);
    lemma_percent_encode_chars(e.2);
    assert(!has_byte(d0, 44)) by {
        assert forall|i: int| 0 <= i < d0.len() implies d0[i] != 44 by {
            assert(is_dec_digit(d0[i]));
        }
    }
    assert(!has_byte(d1, 44)) by {
        assert forall|i: int| 0 <= i < d1.len() implies d1[i] != 44 by {
            assert(is_dec_digit(d1[i]));
        }
    }
    let t = patch_entry_text(e);
    assert(t =~= d0 + seq![44u8] + (d1 + seq![44u8] + pe));
    lemma_split2_concat(d0, d1 + seq![44u8] + pe, 44);
    lemma_split2_concat(d1, pe, 44);
    assert(split2(t, 44) == Some((d0, d1 + seq![44u8] + pe)));
    assert(parse_patch_entry(t) == Some((dec_val(d0), dec_val(d1), percent_decode_spec(pe))));
}

/// Parsing the textual form of a nonempty patch returns its entries.
pub proof fn lemma_patch_text_round_trip(es: Seq<(int, int, Seq<u8>)>)
    requires
        es.len() >= 1,
        forall|i: int| 0 <= i < es.len() ==> 0 <= #[trigger] es[i].0 <= usize::MAX,
        forall|i: int| 0 <= i < es.len() ==> 0 <= #[trigger] es[i].1 <= usize::MAX,
    ensures
        parse_patch_parts(split_on(patch_text(es), 0)) == Some(es),
    decreases es.len(),
{
    let t = patch_text(es);
    lemma_entry_text_bytes(es[0]);
    lemma_parse_entry_of_text(es[0]);
    if es.len() == 1 {
        lemma_split_on_no_sep(t, 0);
        assert(split_on(t, 0) == seq![t]);
        assert(split_on(t, 0).skip(1) =~= Seq::<Seq<u8>>::empty());
        assert(seq![es[0]] + Seq::<(int, int, Seq<u8>)>::empty() =~= es);
        assert(parse_patch_parts(Seq::<Seq<u8>>::empty()) == Some(
            Seq::<(int, int, Seq<u8>)>::empty(),
        ));
        assert(seq![t][0] == t);
        assert(parse_patch_parts(seq![t]) == Some(es));
    } else {
        assert forall|i: int| 0 <= i < es.skip(1).len() implies 0 <= #[trigger] es.skip(1)[i].0
            <= usize::MAX && 0 <= es.skip(1)[i].1 <= usize::MAX by {
            assert(es.skip(1)[i] == es[i + 1]);
        }
        lemma_patch_text_round_trip(es.skip(1));
        lemma_split_on_concat(patch_entry_text(es[0]), patch_text(es.skip(1)), 0);
        let parts = split_on(t, 0);
        assert(parts == seq![patch_entry_text(es[0])] + split_on(patch_text(es.skip(1)), 0));
        assert(parts[0] == patch_entry_text(es[0]));
        assert(parts.skip(1) =~= split_on(patch_text(es.skip(1)), 0));
        assert(seq![es[0]] + es.skip(1) =~= es);
        assert(parts.len() > 0);
        assert(parse_patch_parts(parts.skip(1)) == Some(es.skip(1)));
        assert(parse_patch_parts(parts) == Some(es));
    }
}

} // verus!
