//! Byte-string helpers shared by the codecs: searching, splitting on a
//! separator, prefix tests, and the lemmas that relate splitting to
//! concatenation (the backbone of the round-trip proofs).

use vstd::prelude::*;

verus! {

/// Whether `b` occurs in `s`.
pub open spec fn has_byte(s: Seq<u8>, b: u8) -> bool {
    exists|i: int| 0 <= i < s.len() && s[i] == b
}

/// Split at the first occurrence of `sep`; `None` when `sep` does not occur.
pub open spec fn split2(s: Seq<u8>, sep: u8) -> Option<(Seq<u8>, Seq<u8>)>
    decreases s.len(),
{
    if s.len() == 0 {
        None
    } else if s[0] == sep {
        Some((Seq::empty(), s.skip(1)))
    } else {
        match split2(s.skip(1), sep) {
            None => None,
            Some(p) => Some((seq![s[0]] + p.0, p.1)),
        }
    }
}

/// Split on every occurrence of `sep`; always at least one field.
pub open spec fn split_on(s: Seq<u8>, sep: u8) -> Seq<Seq<u8>>
    decreases s.len(),
{
    if s.len() == 0 {
        seq![Seq::empty()]
    } else if s[0] == sep {
        seq![Seq::empty()] + split_on(s.skip(1), sep)
    } else {
        let rest = split_on(s.skip(1), sep);
        seq![seq![s[0]] + rest[0]] + rest.skip(1)
    }
}

pub proof fn lemma_split_on_len(s: Seq<u8>, sep: u8)
    ensures
        split_on(s, sep).len() >= 1,
    decreases s.len(),
{
    if s.len() != 0 {
        lemma_split_on_len(s.skip(1), sep);
    }
}

/// `split2` located at an explicit first occurrence.
pub proof fn lemma_split2_at(s: Seq<u8>, sep: u8, i: int)
    requires
        0 <= i < s.len(),
        s[i] == sep,
        forall|j: int| 0 <= j < i ==> s[j] != sep,
    ensures
        split2(s, sep) == Some((s.take(i), s.skip(i + 1))),
    decreases i,
{
    if i == 0 {
        assert(s.take(0) =~= Seq::<u8>::empty());
    } else {
        assert forall|j: int| 0 <= j < i - 1 implies s.skip(1)[j] != sep by {
            assert(s.skip(1)[j] == s[j + 1]);
        }
        assert(s.skip(1)[i - 1] == s[i]);
        lemma_split2_at(s.skip(1), sep, i - 1);
        assert(s.skip(1).take(i - 1) =~= s.take(i).skip(1));
        assert(seq![s[0]] + s.take(i).skip(1) =~= s.take(i));
        assert(s.skip(1).skip(i - 1 + 1) =~= s.skip(i + 1));
    }
}

pub proof fn lemma_split2_none(s: Seq<u8>, sep: u8)
    requires
        !has_byte(s, sep),
    ensures
        split2(s, sep) == None::<(Seq<u8>, Seq<u8>)>,
    decreases s.len(),
{
    if s.len() > 0 {
        assert(s[0] != sep);
        assert forall|j: int| 0 <= j < s.skip(1).len() implies s.skip(1)[j] != sep by {
            assert(s.skip(1)[j] == s[j + 1]);
        }
        lemma_split2_none(s.skip(1), sep);
    }
}

/// The first half of a split holds no separator.
pub proof fn lemma_split2_head_clean(s: Seq<u8>, sep: u8)
    requires
        split2(s, sep) is Some,
    ensures
        !has_byte(split2(s, sep).unwrap().0, sep),
    decreases s.len(),
{
    if s.len() > 0 && s[0] != sep {
        lemma_split2_head_clean(s.skip(1), sep);
        let p = split2(s.skip(1), sep).unwrap();
        let h = seq![s[0]] + p.0;
        assert forall|i: int| 0 <= i < h.len() implies h[i] != sep by {
            if i > 0 {
                assert(h[i] == p.0[i - 1]);
            }
        }
    }
}

/// A successful split reassembles to the input.
pub proof fn lemma_split2_inverse(s: Seq<u8>, sep: u8)
    requires
        split2(s, sep) is Some,
    ensures
        s == split2(s, sep).unwrap().0 + seq![sep] + split2(s, sep).unwrap().1,
    decreases s.len(),
{
    if s.len() > 0 {
        if s[0] == sep {
            assert(s =~= Seq::<u8>::empty() + seq![sep] + s.skip(1));
        } else {
            lemma_split2_inverse(s.skip(1), sep);
            let p = split2(s.skip(1), sep).unwrap();
            assert(s =~= seq![s[0]] + (p.0 + seq![sep] + p.1));
            assert((seq![s[0]] + p.0) + seq![sep] + p.1 =~= seq![s[0]] + (p.0 + seq![sep] + p.1));
        }
    }
}

/// The second half of a split is shorter than the input.
pub proof fn lemma_split2_len(s: Seq<u8>, sep: u8)
    requires
        split2(s, sep) is Some,
    ensures
        split2(s, sep).unwrap().1.len() < s.len(),
    decreases s.len(),
{
    if s.len() > 0 && s[0] != sep {
        lemma_split2_len(s.skip(1), sep);
    }
}

/// A string holding `sep` splits into two halves.
pub proof fn lemma_split2_some(s: Seq<u8>, sep: u8)
    requires
        has_byte(s, sep),
    ensures
        split2(s, sep) is Some,
    decreases s.len(),
{
    if s.len() > 0 && s[0] != sep {
        let i = choose|i: int| 0 <= i < s.len() && s[i] == sep;
        assert(s.skip(1)[i - 1] == s[i]);
        assert(has_byte(s.skip(1), sep));
        lemma_split2_some(s.skip(1), sep);
    }
}

/// Splitting a concatenation `a ++ sep ++ rest` whose head holds no `sep`.
pub proof fn lemma_split2_concat(a: Seq<u8>, rest: Seq<u8>, sep: u8)
    requires
        !has_byte(a, sep),
    ensures
        split2(a + seq![sep] + rest, sep) == Some((a, rest)),
{
    let s = a + seq![sep] + rest;
    assert(s[a.len() as int] == sep);
    assert forall|j: int| 0 <= j < a.len() implies s[j] != sep by {
        assert(s[j] == a[j]);
    }
    lemma_split2_at(s, sep, a.len() as int);
    assert(s.take(a.len() as int) =~= a);
    assert(s.skip(a.len() as int + 1) =~= rest);
}

pub proof fn lemma_split_on_no_sep(s: Seq<u8>, sep: u8)
    requires
        !has_byte(s, sep),
    ensures
        split_on(s, sep) == seq![s],
    decreases s.len(),
{
    if s.len() == 0 {
        assert(s =~= Seq::<u8>::empty());
        assert(split_on(s, sep) =~= seq![s]);
    } else {
        assert(s[0] != sep);
        assert forall|j: int| 0 <= j < s.skip(1).len() implies s.skip(1)[j] != sep by {
            assert(s.skip(1)[j] == s[j + 1]);
        }
        lemma_split_on_no_sep(s.skip(1), sep);
        assert(seq![s[0]] + s.skip(1) =~= s);
        assert(split_on(s, sep) =~= seq![s]);
    }
}

/// Splitting a concatenation `a ++ sep ++ rest` whose head holds no `sep`.
pub proof fn lemma_split_on_concat(a: Seq<u8>, rest: Seq<u8>, sep: u8)
    requires
        !has_byte(a, sep),
    ensures
        split_on(a + seq![sep] + rest, sep) == seq![a] + split_on(rest, sep),
    decreases a.len(),
{
    let s = a + seq![sep] + rest;
    if a.len() == 0 {
        assert(s[0] == sep);
        assert(s.skip(1) =~= rest);
        assert(a =~= Seq::<u8>::empty());
        assert(split_on(s, sep) =~= seq![a] + split_on(rest, sep));
    } else {
        assert(s[0] == a[0]);
        assert(s[0] != sep);
        assert forall|j: int| 0 <= j < a.skip(1).len() implies a.skip(1)[j] != sep by {
            assert(a.skip(1)[j] == a[j + 1]);
        }
        assert(s.skip(1) =~= a.skip(1) + seq![sep] + rest);
        lemma_split_on_concat(a.skip(1), rest, sep);
        lemma_split_on_len(rest, sep);
        let inner = split_on(s.skip(1), sep);
        assert(inner == seq![a.skip(1)] + split_on(rest, sep));
        assert(inner[0] == a.skip(1));
        assert(seq![a[0]] + inner[0] =~= a);
        assert(inner.skip(1) =~= split_on(rest, sep));
        assert(split_on(s, sep) =~= seq![a] + split_on(rest, sep));
    }
}

/// First occurrence of `b` in `s` at index `from` or later.
pub fn find_from(s: &[u8], from: usize, b: u8) -> (r: Option<usize>)
    requires
        from <= s@.len(),
    ensures
        match r {
            Some(i) => from <= i < s@.len() && s@[i as int] == b && forall|j: int|
                from <= j < i ==> s@[j] != b,
            None => forall|j: int| from <= j < s@.len() ==> s@[j] != b,
        },
{
    let mut i = from;
    while i < s.len()
        invariant
            from <= i <= s@.len(),
            forall|j: int| from <= j < i ==> s@[j] != b,
        decreases s@.len() - i,
    {
        if s[i] == b {
            return Some(i);
        }
        i += 1;
    }
    None
}

/// The views of a sequence of byte vectors.
pub open spec fn vecs_view(vs: Seq<Vec<u8>>) -> Seq<Seq<u8>> {
    vs.map_values(|v: Vec<u8>| v@)
}

/// Split a byte slice on every occurrence of `sep`.
pub fn split_bytes(s: &[u8], sep: u8) -> (r: Vec<Vec<u8>>)
    ensures
        vecs_view(r@) == split_on(s@, sep),
        r@.len() >= 1,
{
    let n = s.len();
    let mut r: Vec<Vec<u8>> = Vec::new();
    let mut pos: usize = 0;
    proof {
        assert(s@.skip(0) =~= s@);
        assert(vecs_view(Seq::<Vec<u8>>::empty()) + split_on(s@, sep) =~= split_on(s@, sep));
    }
    loop
        invariant
            pos <= s@.len(),
            n == s@.len(),
            split_on(s@, sep) == vecs_view(r@) + split_on(s@.skip(pos as int), sep),
        decreases s@.len() - pos + 1,
    {
        match find_from(s, pos, sep) {
            Some(i) => {
                let chunk = vstd::slice::slice_to_vec(vstd::slice::slice_subrange(s, pos, i));
                proof {
                    let rem = s@.skip(pos as int);
                    assert(rem[i - pos] == s@[i as int]);
                    assert forall|j: int| 0 <= j < i - pos implies rem[j] != sep by {
                        assert(rem[j] == s@[j + pos]);
                    }
                    lemma_split_on_first(rem, sep, i - pos);
                    assert(rem.take(i - pos) =~= s@.subrange(pos as int, i as int));
                    assert(rem.skip(i - pos + 1) =~= s@.skip(i + 1));
                    assert(vecs_view(r@.push(chunk)) =~= vecs_view(r@) + seq![chunk@]);
                    assert((vecs_view(r@) + seq![chunk@]) + split_on(s@.skip(i + 1), sep)
                        =~= vecs_view(r@) + (seq![chunk@] + split_on(s@.skip(i + 1), sep)));
                }
                r.push(chunk);
                pos = i + 1;
            },
            None => {
                let chunk = vstd::slice::slice_to_vec(
                    vstd::slice::slice_subrange(s, pos, s.len()),
                );
                proof {
                    let rem = s@.skip(pos as int);
                    assert forall|j: int| 0 <= j < rem.len() implies rem[j] != sep by {
                        assert(rem[j] == s@[j + pos]);
                    }
                    lemma_split_on_no_sep(rem, sep);
                    assert(rem =~= s@.subrange(pos as int, s@.len() as int));
                    assert(vecs_view(r@.push(chunk)) =~= vecs_view(r@) + seq![chunk@]);
                    assert(vecs_view(r@) + seq![chunk@] =~= vecs_view(r@.push(chunk)));
                }
                r.push(chunk);
                proof {
                    lemma_split_on_len(s@, sep);
                }
                return r;
            },
        }
    }
}

/// `split_on` located at an explicit first occurrence.
pub proof fn lemma_split_on_first(s: Seq<u8>, sep: u8, i: int)
    requires
        0 <= i < s.len(),
        s[i] == sep,
        forall|j: int| 0 <= j < i ==> s[j] != sep,
    ensures
        split_on(s, sep) == seq![s.take(i)] + split_on(s.skip(i + 1), sep),
{
    assert(s.take(i) =~= s.subrange(0, i));
    lemma_split_on_concat(s.take(i), s.skip(i + 1), sep);
    assert(s.take(i) + seq![sep] + s.skip(i + 1) =~= s);
}

/// Split at the first occurrence of `sep`, as owned halves.
pub fn split_first_byte(s: &[u8], sep: u8) -> (r: Option<(Vec<u8>, Vec<u8>)>)
    ensures
        match r {
            Some(p) => split2(s@, sep) == Some((p.0@, p.1@)),
            None => split2(s@, sep) == None::<(Seq<u8>, Seq<u8>)>,
        },
{
    let n = s.len();
    match find_from(s, 0, sep) {
        Some(i) => {
            let left = vstd::slice::slice_to_vec(vstd::slice::slice_subrange(s, 0, i));
            let right = vstd::slice::slice_to_vec(vstd::slice::slice_subrange(s, i + 1, s.len()));
            proof {
                lemma_split2_at(s@, sep, i as int);
                assert(s@.take(i as int) =~= s@.subrange(0, i as int));
                assert(s@.skip(i + 1) =~= s@.subrange(i + 1, s@.len() as int));
            }
            Some((left, right))
        },
        None => {
            proof {
                lemma_split2_none(s@, sep);
            }
            None
        },
    }
}

/// Append a whole slice to a byte vector.
pub fn push_slice(out: &mut Vec<u8>, s: &[u8])
    ensures
        final(out)@ == old(out)@ + s@,
{
    let mut i: usize = 0;
    while i < s.len()
        invariant
            i <= s@.len(),
            out@ == old(out)@ + s@.take(i as int),
        decreases s@.len() - i,
    {
        out.push(s[i]);
        proof {
            assert(old(out)@ + s@.take(i + 1) =~= (old(out)@ + s@.take(i as int)).push(
                s@[i as int],
            ));
        }
        i += 1;
    }
    proof {
        assert(s@.take(s@.len() as int) =~= s@);
    }
}

/// Byte-wise equality of two slices.
pub fn bytes_eq(a: &[u8], b: &[u8]) -> (r: bool)
    ensures
        r == (a@ == b@),
{
    if a.len() != b.len() {
        assert(a@ != b@);
        return false;
    }
    let mut i: usize = 0;
    while i < a.len()
        invariant
            i <= a@.len(),
            a@.len() == b@.len(),
            forall|j: int| 0 <= j < i ==> a@[j] == b@[j],
        decreases a@.len() - i,
    {
        if a[i] != b[i] {
            assert(a@[i as int] != b@[i as int]);
            return false;
        }
        i += 1;
    }
    proof {
        assert(a@ =~= b@);
    }
    true
}

/// Whether `s` begins with `prefix`.
pub fn starts_with(s: &[u8], prefix: &[u8]) -> (r: bool)
    ensures
        r == (s@.len() >= prefix@.len() && s@.take(prefix@.len() as int) == prefix@),
{
    if s.len() < prefix.len() {
        return false;
    }
    let r = bytes_eq(vstd::slice::slice_subrange(s, 0, prefix.len()), prefix);
    proof {
        assert(s@.subrange(0, prefix@.len() as int) =~= s@.take(prefix@.len() as int));
    }
    r
}

} // verus!

verus! {

/// Fields joined by `sep`, with no trailing separator.
pub open spec fn join_with(lines: Seq<Seq<u8>>, sep: u8) -> Seq<u8>
    decreases lines.len(),
{
    if lines.len() == 0 {
        Seq::empty()
    } else if lines.len() == 1 {
        lines[0]
    } else {
        lines[0] + seq![sep] + join_with(lines.skip(1), sep)
    }
}

/// Splitting undoes joining when no field holds the separator.
pub proof fn lemma_split_join(lines: Seq<Seq<u8>>, sep: u8)
    requires
        lines.len() >= 1,
        forall|i: int| 0 <= i < lines.len() ==> !has_byte(#[trigger] lines[i], sep),
    ensures
        split_on(join_with(lines, sep), sep) == lines,
    decreases lines.len(),
{
    if lines.len() == 1 {
        lemma_split_on_no_sep(lines[0], sep);
        assert(seq![lines[0]] =~= lines);
    } else {
        assert forall|i: int| 0 <= i < lines.skip(1).len() implies !has_byte(
            #[trigger] lines.skip(1)[i],
            sep,
        ) by {
            assert(lines.skip(1)[i] == lines[i + 1]);
        }
        lemma_split_join(lines.skip(1), sep);
        lemma_split_on_concat(lines[0], join_with(lines.skip(1), sep), sep);
        assert(seq![lines[0]] + lines.skip(1) =~= lines);
    }
}

/// Joining one more field appends a separator and the field.
pub proof fn lemma_join_with_snoc(lines: Seq<Seq<u8>>, l: Seq<u8>, sep: u8)
    ensures
        join_with(lines.push(l), sep) == if lines.len() == 0 {
            l
        } else {
            join_with(lines, sep) + seq![sep] + l
        },
    decreases lines.len(),
{
    if lines.len() == 0 {
        assert(lines.push(l)[0] == l);
        assert(join_with(lines.push(l), sep) =~= l);
    } else {
        assert(lines.push(l).skip(1) =~= lines.skip(1).push(l));
        lemma_join_with_snoc(lines.skip(1), l, sep);
        if lines.len() == 1 {
            assert(join_with(lines.push(l), sep) =~= join_with(lines, sep) + seq![sep] + l);
        } else {
            assert(join_with(lines.push(l), sep) =~= join_with(lines, sep) + seq![sep] + l);
        }
    }
}

} // verus!
