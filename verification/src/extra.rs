//! The extras container of a changeset: an ordered key/value map over byte
//! strings. Insertion keeps keys unique and sorted ascending byte-wise, so
//! serialization iterates keys in ascending order.

use vstd::prelude::*;
use crate::bytes::{bytes_eq, has_byte, push_slice, split_bytes, split_first_byte, split2, split_on,
    vecs_view};
use crate::oid::{bytes_le, lex_le};

verus! {

/// Strict lexicographic order.
pub open spec fn lex_lt(a: Seq<u8>, b: Seq<u8>) -> bool {
    lex_le(a, b) && a != b
}

/// Insert `(k, v)` into an entry list sorted by key: replaces an equal key,
/// otherwise lands before the first larger key.
pub open spec fn extra_insert(
    es: Seq<(Seq<u8>, Seq<u8>)>,
    k: Seq<u8>,
    v: Seq<u8>,
) -> Seq<(Seq<u8>, Seq<u8>)>
    decreases es.len(),
{
    if es.len() == 0 {
        seq![(k, v)]
    } else if k == es[0].0 {
        seq![(k, v)] + es.skip(1)
    } else if lex_lt(k, es[0].0) {
        seq![(k, v)] + es
    } else {
        seq![es[0]] + extra_insert(es.skip(1), k, v)
    }
}

/// First value bound to `k`, if any.
pub open spec fn extra_get(es: Seq<(Seq<u8>, Seq<u8>)>, k: Seq<u8>) -> Option<Seq<u8>>
    decreases es.len(),
{
    if es.len() == 0 {
        None
    } else if es[0].0 == k {
        Some(es[0].1)
    } else {
        extra_get(es.skip(1), k)
    }
}

/// Serialized form: `key:value` pairs joined by NUL, in list order.
pub open spec fn extra_dump(es: Seq<(Seq<u8>, Seq<u8>)>) -> Seq<u8>
    decreases es.len(),
{
    if es.len() == 0 {
        Seq::empty()
    } else if es.len() == 1 {
        es[0].0 + seq![58u8] + es[0].1
    } else {
        es[0].0 + seq![58u8] + es[0].1 + seq![0u8] + extra_dump(es.skip(1))
    }
}

/// A serialized extras string is parseable: empty, or NUL-separated parts
/// that each hold a colon.
pub open spec fn extra_buf_wf(buf: Seq<u8>) -> bool {
    buf.len() == 0 || forall|i: int|
        0 <= i < split_on(buf, 0).len() ==> has_byte(#[trigger] split_on(buf, 0)[i], 58)
}

/// Entries denoted by a serialized extras string: each NUL-separated part is
/// split at its first colon and inserted in order.
pub open spec fn extra_from_parts(
    parts: Seq<Seq<u8>>,
    acc: Seq<(Seq<u8>, Seq<u8>)>,
) -> Seq<(Seq<u8>, Seq<u8>)>
    decreases parts.len(),
{
    if parts.len() == 0 {
        acc
    } else {
        let kv = split2(parts[0], 58).unwrap();
        extra_from_parts(parts.skip(1), extra_insert(acc, kv.0, kv.1))
    }
}

pub open spec fn extra_from_spec(buf: Seq<u8>) -> Seq<(Seq<u8>, Seq<u8>)> {
    if buf.len() == 0 {
        Seq::empty()
    } else {
        extra_from_parts(split_on(buf, 0), Seq::empty())
    }
}

/// The extras map. The entry list is its view.
pub struct ChangesetExtra {
    entries: Vec<(Vec<u8>, Vec<u8>)>,
}

impl View for ChangesetExtra {
    type V = Seq<(Seq<u8>, Seq<u8>)>;

    closed spec fn view(&self) -> Seq<(Seq<u8>, Seq<u8>)> {
        self.entries@.map_values(|e: (Vec<u8>, Vec<u8>)| (e.0@, e.1@))
    }
}

impl ChangesetExtra {
    /// An empty extras map.
    pub fn new() -> (r: Self)
        ensures
            r@ == Seq::<(Seq<u8>, Seq<u8>)>::empty(),
    {
        let r = ChangesetExtra { entries: Vec::new() };
        proof {
            assert(r@ =~= Seq::<(Seq<u8>, Seq<u8>)>::empty());
        }
        r
    }

    /// Parse a serialized extras string. The producer guarantees every part
    /// holds a colon; later bindings of a key replace earlier ones.
    pub fn from(buf: &[u8]) -> (r: Self)
        requires
            extra_buf_wf(buf@),
        ensures
            r@ == extra_from_spec(buf@),
    {
        if buf.len() == 0 {
            let r = ChangesetExtra { entries: Vec::new() };
            proof {
                assert(r@ =~= extra_from_spec(buf@));
            }
            return r;
        }
        let parts = split_bytes(buf, 0);
        let ghost all = split_on(buf@, 0);
        let mut r = ChangesetExtra { entries: Vec::new() };
        let mut i: usize = 0;
        proof {
            assert(all.skip(0) =~= all);
            assert(r@ =~= Seq::<(Seq<u8>, Seq<u8>)>::empty());
        }
        while i < parts.len()
            invariant
                i <= parts@.len(),
                all == split_on(buf@, 0),
                extra_buf_wf(buf@),
                buf@.len() > 0,
                vecs_view(parts@) == all,
                extra_from_spec(buf@) == extra_from_parts(all.skip(i as int), r@),
            decreases parts@.len() - i,
        {
            proof {
                assert(all.skip(i as int)[0] == all[i as int]);
                assert(all[i as int] == parts@[i as int]@);
                assert(has_byte(all[i as int], 58));
            }
            match split_first_byte(parts[i].as_slice(), 58) {
                Some((k, v)) => {
                    proof {
                        assert(all.skip(i as int).skip(1) =~= all.skip(i + 1));
                    }
                    r.set_owned(k, v);
                    i += 1;
                },
                None => {
                    proof {
                        crate::bytes::lemma_split2_some(all[i as int], 58);
                        assert(false);
                    }
                },
            }
        }
        proof {
            assert(all.skip(parts@.len() as int) =~= Seq::<Seq<u8>>::empty());
        }
        r
    }

    /// The value bound to `name`, if any.
    pub fn get(&self, name: &[u8]) -> (r: Option<&Vec<u8>>)
        ensures
            match r {
                Some(v) => extra_get(self@, name@) == Some(v@),
                None => extra_get(self@, name@) == None::<Seq<u8>>,
            },
    {
        let n = self.entries.len();
        let mut i: usize = 0;
        proof {
            assert(self@.skip(0) =~= self@);
        }
        while i < n
            invariant
                i <= n,
                n == self.entries@.len(),
                extra_get(self@, name@) == extra_get(self@.skip(i as int), name@),
            decreases n - i,
        {
            proof {
                assert(self@.skip(i as int)[0] == self@[i as int]);
                assert(self@.skip(i as int).skip(1) =~= self@.skip(i + 1));
            }
            if bytes_eq(self.entries[i].0.as_slice(), name) {
                return Some(&self.entries[i].1);
            }
            i += 1;
        }
        proof {
            assert(self@.skip(n as int) =~= Seq::<(Seq<u8>, Seq<u8>)>::empty());
        }
        None
    }

    /// Bind `name` to `value`, replacing any earlier binding.
    pub fn set(&mut self, name: &[u8], value: &[u8])
        ensures
            final(self)@ == extra_insert(old(self)@, name@, value@),
    {
        let k = vstd::slice::slice_to_vec(name);
        let v = vstd::slice::slice_to_vec(value);
        self.set_owned(k, v);
    }

    /// Bind `name` to `value`, taking ownership.
    pub fn set_owned(&mut self, name: Vec<u8>, value: Vec<u8>)
        ensures
            final(self)@ == extra_insert(old(self)@, name@, value@),
    {
        let n = self.entries.len();
        let mut i: usize = 0;
        proof {
            lemma_extra_insert_split(old(self)@, name@, value@, 0);
        }
        while i < n
            invariant
                i <= n,
                n == self.entries@.len(),
                *self == *old(self),
                forall|j: int| 0 <= j < i ==> lex_lt(#[trigger] old(self)@[j].0, name@),
            decreases n - i,
        {
            let cur_le = bytes_le(self.entries[i].0.as_slice(), name.as_slice());
            let cur_eq = bytes_eq(self.entries[i].0.as_slice(), name.as_slice());
            if cur_eq {
                proof {
                    lemma_extra_insert_split(old(self)@, name@, value@, i as int);
                    assert(old(self)@.skip(i as int)[0] == old(self)@[i as int]);
                }
                self.entries.remove(i);
                self.entries.insert(i, (name, value));
                proof {
                    assert(old(self)@.skip(i as int).skip(1) =~= old(self)@.skip(i + 1));
                    assert(extra_insert(old(self)@.skip(i as int), name@, value@) == seq![
                        (name@, value@),
                    ] + old(self)@.skip(i + 1));
                    assert(self@ =~= extra_insert(old(self)@, name@, value@));
                }
                return ;
            }
            if !cur_le {
                proof {
                    lemma_extra_insert_split(old(self)@, name@, value@, i as int);
                    assert(old(self)@.skip(i as int)[0] == old(self)@[i as int]);
                    assert(lex_lt(name@, old(self)@[i as int].0)) by {
                        lemma_lex_le_total(name@, old(self)@[i as int].0);
                    }
                }
                self.entries.insert(i, (name, value));
                proof {
                    assert(extra_insert(old(self)@.skip(i as int), name@, value@) == seq![
                        (name@, value@),
                    ] + old(self)@.skip(i as int));
                    assert(self@ =~= extra_insert(old(self)@, name@, value@));
                }
                return ;
            }
            proof {
                assert(old(self)@[i as int].0 != name@);
                assert(lex_lt(old(self)@[i as int].0, name@));
            }
            i += 1;
        }
        proof {
            lemma_extra_insert_split(old(self)@, name@, value@, n as int);
            assert(old(self)@.skip(n as int) =~= Seq::<(Seq<u8>, Seq<u8>)>::empty());
        }
        self.entries.push((name, value));
        proof {
            assert(extra_insert(Seq::<(Seq<u8>, Seq<u8>)>::empty(), name@, value@) == seq![
                (name@, value@),
            ]);
            assert(self@ =~= extra_insert(old(self)@, name@, value@));
        }
    }

    /// Append the serialized form to `buf`.
    pub fn dump_into(&self, buf: &mut Vec<u8>)
        ensures
            final(buf)@ == old(buf)@ + extra_dump(self@),
    {
        let n = self.entries.len();
        let mut i: usize = 0;
        proof {
            assert(self@.take(0) =~= Seq::<(Seq<u8>, Seq<u8>)>::empty());
            assert(old(buf)@ + extra_dump(self@.take(0)) =~= old(buf)@);
        }
        while i < n
            invariant
                i <= n,
                n == self.entries@.len(),
                buf@ == old(buf)@ + extra_dump(self@.take(i as int)),
            decreases n - i,
        {
            if i > 0 {
                buf.push(0);
            }
            push_slice(buf, self.entries[i].0.as_slice());
            buf.push(58);
            push_slice(buf, self.entries[i].1.as_slice());
            proof {
                assert(self@[i as int] == (self.entries@[i as int].0@, self.entries@[i as int].1@));
                lemma_extra_dump_snoc(self@.take(i as int), self@[i as int]);
                assert(self@.take(i + 1) =~= self@.take(i as int).push(self@[i as int]));
                if i == 0 {
                    assert(buf@ =~= old(buf)@ + extra_dump(self@.take(1)));
                } else {
                    assert(buf@ =~= old(buf)@ + extra_dump(self@.take(i + 1)));
                }
            }
            i += 1;
        }
        proof {
            assert(self@.take(n as int) =~= self@);
        }
    }
}

proof fn lemma_extra_dump_snoc(es: Seq<(Seq<u8>, Seq<u8>)>, e: (Seq<u8>, Seq<u8>))
    ensures
        extra_dump(es.push(e)) == if es.len() == 0 {
            e.0 + seq![58u8] + e.1
        } else {
            extra_dump(es) + seq![0u8] + (e.0 + seq![58u8] + e.1)
        },
    decreases es.len(),
{
    if es.len() == 0 {
        assert(es.push(e)[0] == e);
    } else {
        assert(es.push(e).skip(1) =~= es.skip(1).push(e));
        lemma_extra_dump_snoc(es.skip(1), e);
        if es.len() == 1 {
            assert(extra_dump(es.push(e)) =~= extra_dump(es) + seq![0u8] + (e.0 + seq![58u8]
                + e.1));
        } else {
            assert(extra_dump(es.push(e)) =~= extra_dump(es) + seq![0u8] + (e.0 + seq![58u8]
                + e.1));
        }
    }
}

/// `lex_le` is total.
proof fn lemma_lex_le_total(a: Seq<u8>, b: Seq<u8>)
    ensures
        lex_le(a, b) || lex_le(b, a),
    decreases a.len(),
{
    if a.len() > 0 && b.len() > 0 && a[0] == b[0] {
        lemma_lex_le_total(a.skip(1), b.skip(1));
    }
}

/// Inserting past a prefix of strictly smaller keys leaves the prefix.
proof fn lemma_extra_insert_split(es: Seq<(Seq<u8>, Seq<u8>)>, k: Seq<u8>, v: Seq<u8>, i: int)
    requires
        0 <= i <= es.len(),
        forall|j: int| 0 <= j < i ==> lex_lt(#[trigger] es[j].0, k),
    ensures
        extra_insert(es, k, v) == es.take(i) + extra_insert(es.skip(i), k, v),
    decreases i,
{
    if i == 0 {
        assert(es.take(0) =~= Seq::<(Seq<u8>, Seq<u8>)>::empty());
        assert(es.skip(0) =~= es);
        assert(es.take(0) + extra_insert(es, k, v) =~= extra_insert(es, k, v));
    } else {
        assert(lex_lt(es[0].0, k));
        assert(k != es[0].0);
        assert(!lex_lt(k, es[0].0)) by {
            if lex_lt(k, es[0].0) {
                lemma_lex_le_antisym(k, es[0].0);
            }
        }
        assert forall|j: int| 0 <= j < i - 1 implies lex_lt(#[trigger] es.skip(1)[j].0, k) by {
            assert(es.skip(1)[j] == es[j + 1]);
        }
        lemma_extra_insert_split(es.skip(1), k, v, i - 1);
        assert(es.skip(1).take(i - 1) =~= es.take(i).skip(1));
        assert(es.skip(1).skip(i - 1) =~= es.skip(i));
        assert(seq![es[0]] + (es.take(i).skip(1) + extra_insert(es.skip(i), k, v)) =~= es.take(i)
            + extra_insert(es.skip(i), k, v));
    }
}

/// `lex_le` both ways means equality.
proof fn lemma_lex_le_antisym(a: Seq<u8>, b: Seq<u8>)
    requires
        lex_le(a, b),
        lex_le(b, a),
    ensures
        a == b,
    decreases a.len(),
{
    if a.len() == 0 {
        assert(b.len() == 0);
        assert(a =~= b);
    } else {
        assert(b.len() > 0);
        assert(a[0] == b[0]);
        lemma_lex_le_antisym(a.skip(1), b.skip(1));
        assert(a =~= b) by {
            assert(a.skip(1) == b.skip(1));
            assert forall|j: int| 0 <= j < a.len() implies a[j] == b[j] by {
                if j > 0 {
                    assert(a.skip(1)[j - 1] == b.skip(1)[j - 1]);
                }
            }
        }
    }
}

} // verus!
