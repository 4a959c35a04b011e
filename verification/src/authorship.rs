//! Authorship conversion between the Git and Mercurial conventions. A Git
//! authorship line is `author SP timestamp SP zone` with `zone` a sign and
//! four digits; Mercurial keeps the author and timestamp and a UTC offset
//! in signed seconds west of UTC.

use vstd::prelude::*;
use crate::bytes::push_slice;
use crate::numbers::{dec_of, format_dec, is_dec_digit};

verus! {

/// Last occurrence of `b` in `s`.
pub open spec fn rfind(s: Seq<u8>, b: u8) -> Option<int>
    decreases s.len(),
{
    if s.len() == 0 {
        None
    } else if s[s.len() - 1] == b {
        Some(s.len() - 1)
    } else {
        rfind(s.drop_last(), b)
    }
}

/// Signed decimal form of an integer.
pub open spec fn sdec_of(n: int) -> Seq<u8> {
    if n < 0 {
        seq![45u8] + dec_of((-n) as nat)
    } else {
        dec_of(n as nat)
    }
}

/// Seconds west of UTC denoted by a `+HHMM`/`-HHMM` zone field.
pub open spec fn tz_offset(tz: Seq<u8>) -> Option<int> {
    if tz.len() == 5 && (tz[0] == 43 || tz[0] == 45) && is_dec_digit(tz[1]) && is_dec_digit(tz[2])
        && is_dec_digit(tz[3]) && is_dec_digit(tz[4]) {
        let total = ((tz[1] - 48) * 10 + (tz[2] - 48)) * 3600 + ((tz[3] - 48) * 10 + (tz[4] - 48))
            * 60;
        if tz[0] == 43 {
            Some(-total)
        } else {
            Some(total)
        }
    } else {
        None
    }
}

/// The Mercurial authorship parts of a Git authorship line: author,
/// timestamp text, and UTC offset in signed decimal seconds.
pub open spec fn hg_author_of(l: Seq<u8>) -> Option<(Seq<u8>, Seq<u8>, Seq<u8>)> {
    match rfind(l, 32) {
        None => None,
        Some(i2) => match rfind(l.take(i2), 32) {
            None => None,
            Some(i1) => match tz_offset(l.skip(i2 + 1)) {
                None => None,
                Some(off) => Some((l.take(i1), l.subrange(i1 + 1, i2), sdec_of(off))),
            },
        },
    }
}

/// The extras value naming a committer: author, timestamp and offset joined
/// by spaces, in the Mercurial convention.
pub open spec fn hg_committer_of(l: Seq<u8>) -> Option<Seq<u8>> {
    match hg_author_of(l) {
        None => None,
        Some(p) => Some(p.0 + seq![32u8] + p.1 + seq![32u8] + p.2),
    }
}

/// Last occurrence of `b` before index `end` of `s`.
pub fn rfind_before(s: &[u8], end: usize, b: u8) -> (r: Option<usize>)
    requires
        end <= s@.len(),
    ensures
        match r {
            Some(i) => rfind(s@.take(end as int), b) == Some(i as int) && i < end,
            None => rfind(s@.take(end as int), b) == None::<int>,
        },
{
    let mut i = end;
    while i > 0
        invariant
            i <= end <= s@.len(),
            rfind(s@.take(end as int), b) == rfind(s@.take(i as int), b),
        decreases i,
    {
        proof {
            assert(s@.take(i as int).drop_last() =~= s@.take(i - 1));
            assert(s@.take(i as int)[i - 1] == s@[i - 1]);
        }
        if s[i - 1] == b {
            return Some(i - 1);
        }
        i -= 1;
    }
    proof {
        assert(s@.take(0) =~= Seq::<u8>::empty());
    }
    None
}

fn format_sdec(n: i64) -> (r: Vec<u8>)
    requires
        n != i64::MIN,
    ensures
        r@ == sdec_of(n as int),
{
    let mut r: Vec<u8> = Vec::new();
    if n < 0 {
        r.push(45);
        let d = format_dec((-n) as u64);
        push_slice(&mut r, d.as_slice());
        proof {
            assert(r@ =~= seq![45u8] + dec_of((-n) as nat));
        }
    } else {
        let d = format_dec(n as u64);
        push_slice(&mut r, d.as_slice());
        proof {
            assert(r@ =~= dec_of(n as nat));
        }
    }
    r
}

/// Convert a Git authorship line to the Mercurial parts; `None` when the
/// line does not end in a timestamp and a four-digit zone.
pub fn authorship_to_hg(l: &[u8]) -> (r: Option<(Vec<u8>, Vec<u8>, Vec<u8>)>)
    ensures
        match r {
            Some(p) => hg_author_of(l@) == Some((p.0@, p.1@, p.2@)),
            None => hg_author_of(l@) == None::<(Seq<u8>, Seq<u8>, Seq<u8>)>,
        },
{
    let n = l.len();
    proof {
        assert(l@.take(n as int) =~= l@);
    }
    let i2 = match rfind_before(l, n, 32) {
        Some(i) => i,
        None => {
            return None;
        },
    };
    let i1 = match rfind_before(l, i2, 32) {
        Some(i) => i,
        None => {
            return None;
        },
    };
    let tz = vstd::slice::slice_subrange(l, i2 + 1, n);
    proof {
        assert(tz@ =~= l@.skip(i2 as int + 1));
    }
    let off = match tz_offset_exec(tz) {
        Some(o) => o,
        None => {
            return None;
        },
    };
    let author = vstd::slice::slice_to_vec(vstd::slice::slice_subrange(l, 0, i1));
    let ts = vstd::slice::slice_to_vec(vstd::slice::slice_subrange(l, i1 + 1, i2));
    let utc = format_sdec(off);
    proof {
        assert(author@ =~= l@.take(i1 as int));
        assert(ts@ =~= l@.subrange(i1 as int + 1, i2 as int));
    }
    Some((author, ts, utc))
}

fn tz_offset_exec(tz: &[u8]) -> (r: Option<i64>)
    ensures
        match r {
            Some(o) => tz_offset(tz@) == Some(o as int) && -362340 <= o <= 362340,
            None => tz_offset(tz@) == None::<int>,
        },
{
    if tz.len() != 5 {
        return None;
    }
    let sign = tz[0];
    if sign != 43 && sign != 45 {
        return None;
    }
    let d1 = tz[1];
    let d2 = tz[2];
    let d3 = tz[3];
    let d4 = tz[4];
    if d1 < 48 || d1 > 57 || d2 < 48 || d2 > 57 || d3 < 48 || d3 > 57 || d4 < 48 || d4 > 57 {
        return None;
    }
    let hours = (d1 - 48) as i64 * 10 + (d2 - 48) as i64;
    let minutes = (d3 - 48) as i64 * 10 + (d4 - 48) as i64;
    let total = hours * 3600 + minutes * 60;
    if sign == 43 {
        Some(-total)
    } else {
        Some(total)
    }
}

/// The committer extras value for a Git authorship line.
pub fn committer_to_hg(l: &[u8]) -> (r: Option<Vec<u8>>)
    ensures
        match r {
            Some(v) => hg_committer_of(l@) == Some(v@),
            None => hg_committer_of(l@) == None::<Seq<u8>>,
        },
{
    match authorship_to_hg(l) {
        Some((a, t, u)) => {
            let mut r = a;
            r.push(32);
            push_slice(&mut r, t.as_slice());
            r.push(32);
            push_slice(&mut r, u.as_slice());
            Some(r)
        },
        None => None,
    }
}

} // verus!
