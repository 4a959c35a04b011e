//! Object identifiers: 20-byte hashes in the Mercurial and Git namespaces,
//! with lowercase-hex printing and parsing and lexicographic comparison.

use vstd::prelude::*;

verus! {

/// A 20-byte Mercurial object id.
#[derive(Clone, Copy, Eq, Debug)]
pub struct HgObjectId {
    pub bytes: [u8; 20],
}

/// A 20-byte Git object id.
#[derive(Clone, Copy, Eq, Debug)]
pub struct GitObjectId {
    pub bytes: [u8; 20],
}

/// Mercurial changeset id.
pub type HgChangesetId = HgObjectId;

/// Mercurial manifest id.
pub type HgManifestId = HgObjectId;

/// Mercurial file id.
pub type HgFileId = HgObjectId;

/// Git commit id.
pub type CommitId = GitObjectId;

/// Git blob id.
pub type BlobId = GitObjectId;

/// Git commit id corresponding to a Mercurial changeset.
pub type GitChangesetId = GitObjectId;

/// Git tree-side id corresponding to a Mercurial manifest.
pub type GitManifestId = GitObjectId;

/// Git blob id corresponding to a Mercurial file.
pub type GitFileId = GitObjectId;

/// Git blob id of a changeset metadata record.
pub type GitChangesetMetadataId = GitObjectId;

/// Git blob id of a file metadata record.
pub type GitFileMetadataId = GitObjectId;

impl View for HgObjectId {
    type V = Seq<u8>;

    open spec fn view(&self) -> Seq<u8> {
        self.bytes@
    }
}

impl View for GitObjectId {
    type V = Seq<u8>;

    open spec fn view(&self) -> Seq<u8> {
        self.bytes@
    }
}

impl PartialEq for HgObjectId {
    fn eq(&self, other: &Self) -> (r: bool) {
        oid_bytes_eq(&self.bytes, &other.bytes)
    }
}

impl vstd::std_specs::cmp::PartialEqSpecImpl for HgObjectId {
    open spec fn obeys_eq_spec() -> bool {
        true
    }

    open spec fn eq_spec(&self, other: &Self) -> bool {
        self@ == other@
    }
}

impl PartialEq for GitObjectId {
    fn eq(&self, other: &Self) -> (r: bool) {
        oid_bytes_eq(&self.bytes, &other.bytes)
    }
}

impl vstd::std_specs::cmp::PartialEqSpecImpl for GitObjectId {
    open spec fn obeys_eq_spec() -> bool {
        true
    }

    open spec fn eq_spec(&self, other: &Self) -> bool {
        self@ == other@
    }
}

fn oid_bytes_eq(a: &[u8; 20], b: &[u8; 20]) -> (r: bool)
    ensures
        r == (a@ == b@),
{
    let mut i: usize = 0;
    while i < 20
        invariant
            i <= 20,
            forall|j: int| 0 <= j < i ==> a@[j] == b@[j],
        decreases 20 - i,
    {
        if a[i] != b[i] {
            assert(a@[i as int] != b@[i as int]);
            return false;
        }
        i += 1;
    }
    proof {
        assert(a@ =~= b@);
    }
    true
}

/// The all-zero id value.
pub open spec fn null_oid() -> Seq<u8> {
    Seq::new(20, |i: int| 0u8)
}

impl HgObjectId {
    /// The distinguished null id (all zero).
    pub fn null() -> (r: Self)
        ensures
            r@ == null_oid(),
    {
        let r = HgObjectId { bytes: [0u8; 20] };
        proof {
            assert(r@ =~= null_oid());
        }
        r
    }

    /// Parse an id from 40 lowercase hex digits.
    pub fn from_bytes(v: &[u8]) -> (r: Option<Self>)
        ensures
            r is Some <==> (v@.len() == 40 && is_hex_lower(v@)),
            r is Some ==> r.unwrap()@ == unhex(v@),
    {
        match parse_oid_bytes(v) {
            Some(bytes) => Some(HgObjectId { bytes }),
            None => None,
        }
    }

    /// The 40 lowercase hex digits of the id.
    pub fn to_hex(&self) -> (r: Vec<u8>)
        ensures
            r@ == hex_of(self@),
    {
        bytes_to_hex(self.bytes.as_slice())
    }
}

impl GitObjectId {
    /// The distinguished null id (all zero).
    pub fn null() -> (r: Self)
        ensures
            r@ == null_oid(),
    {
        let r = GitObjectId { bytes: [0u8; 20] };
        proof {
            assert(r@ =~= null_oid());
        }
        r
    }

    /// Parse an id from 40 lowercase hex digits.
    pub fn from_bytes(v: &[u8]) -> (r: Option<Self>)
        ensures
            r is Some <==> (v@.len() == 40 && is_hex_lower(v@)),
            r is Some ==> r.unwrap()@ == unhex(v@),
    {
        match parse_oid_bytes(v) {
            Some(bytes) => Some(GitObjectId { bytes }),
            None => None,
        }
    }

    /// The 40 lowercase hex digits of the id.
    pub fn to_hex(&self) -> (r: Vec<u8>)
        ensures
            r@ == hex_of(self@),
    {
        bytes_to_hex(self.bytes.as_slice())
    }
}

/// Lowercase hex digit for a nibble.
pub open spec fn hex_digit(n: u8) -> u8 {
    if n < 10 {
        (48 + n) as u8
    } else {
        (87 + n) as u8
    }
}

/// Lowercase hex expansion of a byte string, two digits per byte.
pub open spec fn hex_of(s: Seq<u8>) -> Seq<u8>
    decreases s.len(),
{
    if s.len() == 0 {
        Seq::empty()
    } else {
        seq![hex_digit((s[0] / 16) as u8), hex_digit((s[0] % 16) as u8)] + hex_of(s.skip(1))
    }
}

pub open spec fn is_lower_hex_digit(c: u8) -> bool {
    (48 <= c <= 57) || (97 <= c <= 102)
}

pub open spec fn is_hex_lower(s: Seq<u8>) -> bool {
    forall|i: int| 0 <= i < s.len() ==> is_lower_hex_digit(#[trigger] s[i])
}

/// Value of one lowercase hex digit.
pub open spec fn unhex_digit(c: u8) -> u8 {
    if 48 <= c <= 57 {
        (c - 48) as u8
    } else {
        (c - 87) as u8
    }
}

/// Bytes denoted by a string of hex digit pairs.
pub open spec fn unhex(s: Seq<u8>) -> Seq<u8>
    decreases s.len(),
{
    if s.len() < 2 {
        Seq::empty()
    } else {
        seq![(unhex_digit(s[0]) * 16 + unhex_digit(s[1])) as u8] + unhex(s.skip(2))
    }
}

pub proof fn lemma_hex_of_len(s: Seq<u8>)
    ensures
        hex_of(s).len() == 2 * s.len(),
    decreases s.len(),
{
    if s.len() > 0 {
        lemma_hex_of_len(s.skip(1));
    }
}

pub proof fn lemma_hex_of_is_lower(s: Seq<u8>)
    ensures
        is_hex_lower(hex_of(s)),
    decreases s.len(),
{
    if s.len() > 0 {
        lemma_hex_of_is_lower(s.skip(1));
    }
}

/// Parsing undoes printing: `unhex(hex_of(s)) == s`.
pub proof fn lemma_unhex_hex(s: Seq<u8>)
    ensures
        unhex(hex_of(s)) == s,
    decreases s.len(),
{
    if s.len() == 0 {
        assert(unhex(hex_of(s)) =~= s);
    } else {
        lemma_unhex_hex(s.skip(1));
        lemma_hex_of_len(s.skip(1));
        assert(hex_of(s).skip(2) =~= hex_of(s.skip(1)));
        assert(unhex(hex_of(s)) =~= s);
    }
}

/// Printing undoes parsing on lowercase hex text of even length.
pub proof fn lemma_hex_unhex(s: Seq<u8>)
    requires
        is_hex_lower(s),
        s.len() % 2 == 0,
    ensures
        hex_of(unhex(s)) == s,
    decreases s.len(),
{
    if s.len() == 0 {
        assert(hex_of(unhex(s)) =~= s);
    } else {
        assert(s.len() >= 2);
        assert forall|j: int| 0 <= j < s.skip(2).len() implies is_lower_hex_digit(
            #[trigger] s.skip(2)[j],
        ) by {
            assert(s.skip(2)[j] == s[j + 2]);
        }
        lemma_hex_unhex(s.skip(2));
        let d0 = unhex_digit(s[0]);
        let d1 = unhex_digit(s[1]);
        let b = (d0 * 16 + d1) as u8;
        assert(d0 < 16 && d1 < 16);
        assert(b / 16 == d0 && b % 16 == d1);
        assert(hex_digit(d0) == s[0] && hex_digit(d1) == s[1]);
        assert(unhex(s)[0] == b);
        assert(unhex(s).skip(1) =~= unhex(s.skip(2)));
        assert(hex_of(unhex(s)) =~= s);
    }
}

fn hex_digit_exec(n: u8) -> (r: u8)
    requires
        n < 16,
    ensures
        r == hex_digit(n),
{
    if n < 10 {
        48 + n
    } else {
        87 + n
    }
}

proof fn lemma_hex_of_snoc(s: Seq<u8>, x: u8)
    ensures
        hex_of(s.push(x)) == hex_of(s) + seq![
            hex_digit((x / 16) as u8),
            hex_digit((x % 16) as u8),
        ],
    decreases s.len(),
{
    if s.len() == 0 {
        assert(s.push(x).skip(1) =~= s);
        assert(hex_of(s.push(x)) =~= hex_of(s) + seq![
            hex_digit((x / 16) as u8),
            hex_digit((x % 16) as u8),
        ]);
    } else {
        assert(s.push(x).skip(1) =~= s.skip(1).push(x));
        lemma_hex_of_snoc(s.skip(1), x);
        assert(hex_of(s.push(x)) =~= hex_of(s) + seq![
            hex_digit((x / 16) as u8),
            hex_digit((x % 16) as u8),
        ]);
    }
}

/// Lowercase hex expansion of a byte slice.
pub fn bytes_to_hex(v: &[u8]) -> (r: Vec<u8>)
    ensures
        r@ == hex_of(v@),
{
    let mut r: Vec<u8> = Vec::new();
    let mut i: usize = 0;
    while i < v.len()
        invariant
            i <= v.len(),
            r@ == hex_of(v@.take(i as int)),
        decreases v.len() - i,
    {
        let b = v[i];
        r.push(hex_digit_exec(b / 16));
        r.push(hex_digit_exec(b % 16));
        proof {
            assert(v@.take(i + 1) =~= v@.take(i as int).push(v@[i as int]));
            lemma_hex_of_snoc(v@.take(i as int), v@[i as int]);
        }
        i += 1;
    }
    proof {
        assert(v@.take(v@.len() as int) =~= v@);
    }
    r
}

proof fn lemma_unhex_index(s: Seq<u8>, j: int)
    requires
        0 <= j,
        2 * j + 1 < s.len(),
    ensures
        unhex(s).len() == s.len() / 2,
        unhex(s)[j] == (unhex_digit(s[2 * j]) * 16 + unhex_digit(s[2 * j + 1])) as u8,
    decreases j,
{
    lemma_unhex_len(s);
    if j > 0 {
        lemma_unhex_index(s.skip(2), j - 1);
    }
}

proof fn lemma_unhex_len(s: Seq<u8>)
    ensures
        unhex(s).len() == s.len() / 2,
    decreases s.len(),
{
    if s.len() >= 2 {
        lemma_unhex_len(s.skip(2));
    }
}

fn parse_oid_bytes(v: &[u8]) -> (r: Option<[u8; 20]>)
    ensures
        r is Some <==> (v@.len() == 40 && is_hex_lower(v@)),
        r is Some ==> r.unwrap()@ == unhex(v@),
{
    if v.len() != 40 {
        return None;
    }
    let mut bytes = [0u8; 20];
    let mut i: usize = 0;
    while i < 20
        invariant
            i <= 20,
            v@.len() == 40,
            forall|j: int| 0 <= j < 2 * i ==> is_lower_hex_digit(#[trigger] v@[j]),
            forall|j: int|
                0 <= j < i ==> bytes@[j] == (unhex_digit(v@[2 * j]) * 16 + unhex_digit(
                    v@[2 * j + 1],
                )) as u8,
        decreases 20 - i,
    {
        let c1 = v[2 * i];
        let c2 = v[2 * i + 1];
        let d1 = match unhex_digit_exec(c1) {
            Some(d) => d,
            None => {
                return None;
            },
        };
        let d2 = match unhex_digit_exec(c2) {
            Some(d) => d,
            None => {
                return None;
            },
        };
        bytes[i] = d1 * 16 + d2;
        i += 1;
    }
    proof {
        assert(is_hex_lower(v@));
        assert forall|j: int| 0 <= j < 20 implies bytes@[j] == unhex(v@)[j] by {
            lemma_unhex_index(v@, j);
        }
        lemma_unhex_len(v@);
        assert(bytes@ =~= unhex(v@));
    }
    Some(bytes)
}

fn unhex_digit_exec(c: u8) -> (r: Option<u8>)
    ensures
        r is Some <==> is_lower_hex_digit(c),
        r is Some ==> r.unwrap() == unhex_digit(c) && r.unwrap() < 16,
{
    if 48 <= c && c <= 57 {
        Some(c - 48)
    } else if 97 <= c && c <= 102 {
        Some(c - 87)
    } else {
        None
    }
}

/// Lexicographic (ascending byte-wise) order on byte strings.
pub open spec fn lex_le(a: Seq<u8>, b: Seq<u8>) -> bool
    decreases a.len(),
{
    if a.len() == 0 {
        true
    } else if b.len() == 0 {
        false
    } else if a[0] < b[0] {
        true
    } else if a[0] > b[0] {
        false
    } else {
        lex_le(a.skip(1), b.skip(1))
    }
}

proof fn lemma_lex_le_common_prefix(a: Seq<u8>, b: Seq<u8>, i: int)
    requires
        0 <= i <= a.len(),
        i <= b.len(),
        forall|j: int| 0 <= j < i ==> a[j] == b[j],
    ensures
        lex_le(a, b) == lex_le(a.skip(i), b.skip(i)),
    decreases i,
{
    if i == 0 {
        assert(a.skip(0) =~= a);
        assert(b.skip(0) =~= b);
    } else {
        assert(a[0] == b[0]);
        assert forall|j: int| 0 <= j < i - 1 implies a.skip(1)[j] == b.skip(1)[j] by {
            assert(a.skip(1)[j] == a[j + 1]);
            assert(b.skip(1)[j] == b[j + 1]);
        }
        lemma_lex_le_common_prefix(a.skip(1), b.skip(1), i - 1);
        assert(a.skip(1).skip(i - 1) =~= a.skip(i));
        assert(b.skip(1).skip(i - 1) =~= b.skip(i));
    }
}

/// Compare two byte slices in lexicographic order.
pub fn bytes_le(a: &[u8], b: &[u8]) -> (r: bool)
    ensures
        r == lex_le(a@, b@),
{
    let mut i: usize = 0;
    loop
        invariant
            i <= a@.len(),
            i <= b@.len(),
            forall|j: int| 0 <= j < i ==> a@[j] == b@[j],
        decreases a@.len() - i,
    {
        proof {
            lemma_lex_le_common_prefix(a@, b@, i as int);
        }
        if i >= a.len() {
            assert(a@.skip(i as int).len() == 0);
            return true;
        }
        if i >= b.len() {
            assert(b@.skip(i as int).len() == 0);
            return false;
        }
        let x = a[i];
        let y = b[i];
        assert(a@.skip(i as int)[0] == a@[i as int]);
        assert(b@.skip(i as int)[0] == b@[i as int]);
        if x < y {
            return true;
        }
        if x > y {
            return false;
        }
        i += 1;
    }
}


} // verus!
