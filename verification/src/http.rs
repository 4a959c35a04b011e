//! Decision logic of the Mercurial HTTP wire client: redirect policy,
//! command URL assembly, argument chunking into `X-HgArg-N` headers,
//! capability negotiation, response classification and the multi-codec
//! `application/mercurial-0.2` framing. The HTTP exchange itself is not
//! here: requests are plain values handed to a transport, and responses
//! come back as plain values.

use vstd::prelude::*;
use crate::bytes::{bytes_eq, push_slice, split2, split_on, split_bytes, split_first_byte,
    starts_with, vecs_view};
use crate::numbers::{dec_of, dec_val, format_dec, is_dec};

use crate::patch::parse_dec_usize;

verus! {

pub open spec fn accept_name() -> Seq<u8> {
    seq![65u8, 99u8, 99u8, 101u8, 112u8, 116u8]
}

pub open spec fn mercurial_01() -> Seq<u8> {
    seq![
        97u8, 112u8, 112u8, 108u8, 105u8, 99u8, 97u8, 116u8, 105u8, 111u8, 110u8, 47u8, 109u8,
        101u8, 114u8, 99u8, 117u8, 114u8, 105u8, 97u8, 108u8, 45u8, 48u8, 46u8, 49u8,
    ]
}

pub open spec fn mercurial_02() -> Seq<u8> {
    seq![
        97u8, 112u8, 112u8, 108u8, 105u8, 99u8, 97u8, 116u8, 105u8, 111u8, 110u8, 47u8, 109u8,
        101u8, 114u8, 99u8, 117u8, 114u8, 105u8, 97u8, 108u8, 45u8, 48u8, 46u8, 50u8,
    ]
}

pub open spec fn hg_error_type() -> Seq<u8> {
    seq![
        97u8, 112u8, 112u8, 108u8, 105u8, 99u8, 97u8, 116u8, 105u8, 111u8, 110u8, 47u8, 104u8,
        103u8, 45u8, 101u8, 114u8, 114u8, 111u8, 114u8,
    ]
}

pub open spec fn cmd_key() -> Seq<u8> {
    seq![99u8, 109u8, 100u8]
}

pub open spec fn pushkey_cmd() -> Seq<u8> {
    seq![112u8, 117u8, 115u8, 104u8, 107u8, 101u8, 121u8]
}

pub open spec fn content_type_name() -> Seq<u8> {
    seq![67u8, 111u8, 110u8, 116u8, 101u8, 110u8, 116u8, 45u8, 84u8, 121u8, 112u8, 101u8]
}

pub open spec fn httpheader_cap() -> Seq<u8> {
    seq![104u8, 116u8, 116u8, 112u8, 104u8, 101u8, 97u8, 100u8, 101u8, 114u8]
}

pub open spec fn httpmediatype_cap() -> Seq<u8> {
    seq![104u8, 116u8, 116u8, 112u8, 109u8, 101u8, 100u8, 105u8, 97u8, 116u8, 121u8, 112u8, 101u8]
}

pub open spec fn token_02tx() -> Seq<u8> {
    seq![48u8, 46u8, 50u8, 116u8, 120u8]
}

pub open spec fn proto_header_name() -> Seq<u8> {
    seq![88u8, 45u8, 72u8, 103u8, 80u8, 114u8, 111u8, 116u8, 111u8, 45u8, 49u8]
}

pub open spec fn proto_header_value() -> Seq<u8> {
    seq![
        48u8, 46u8, 49u8, 32u8, 48u8, 46u8, 50u8, 32u8, 99u8, 111u8, 109u8, 112u8, 61u8, 122u8,
        115u8, 116u8, 100u8, 44u8, 122u8, 108u8, 105u8, 98u8, 44u8, 110u8, 111u8, 110u8, 101u8,
        44u8, 98u8, 122u8, 105u8, 112u8, 50u8,
    ]
}

pub open spec fn hgarg_prefix() -> Seq<u8> {
    seq![88u8, 45u8, 72u8, 103u8, 65u8, 114u8, 103u8, 45u8]
}

pub open spec fn hg10_magic() -> Seq<u8> {
    seq![72u8, 71u8, 49u8, 48u8]
}

pub open spec fn hg20_magic() -> Seq<u8> {
    seq![72u8, 71u8, 50u8, 48u8]
}

pub open spec fn codec_zstd() -> Seq<u8> {
    seq![122u8, 115u8, 116u8, 100u8]
}

pub open spec fn codec_zlib() -> Seq<u8> {
    seq![122u8, 108u8, 105u8, 98u8]
}

pub open spec fn codec_none() -> Seq<u8> {
    seq![110u8, 111u8, 110u8, 101u8]
}

pub open spec fn codec_bzip2() -> Seq<u8> {
    seq![98u8, 122u8, 105u8, 112u8, 50u8]
}

/// Error kinds of the wire client.
#[derive(Debug)]
pub enum WireError {
    /// Malformed bytes where a frame or field was expected.
    ParseError,
    /// The server answered with a content type the client does not know.
    UnknownContentType,
    /// The `0.2` frame named a codec the client does not know.
    UnknownCompression(Vec<u8>),
    /// A compressed payload did not decode.
    CorruptPayload,
    /// The response body did not have the `stdout LF stderr` shape.
    BadOutput,
}

/// What a zlib stream inflates to: the bytes depend on the input alone.
pub uninterp spec fn zlib_inflate_of(data: Seq<u8>) -> Seq<u8>;

/// Whether the bytes are a whole well-formed zlib stream: decompression
/// succeeds or fails as a function of the input alone.
pub uninterp spec fn zlib_ok_of(data: Seq<u8>) -> bool;

/// What a zstd stream decompresses to: the bytes depend on the input alone.
pub uninterp spec fn zstd_decode_of(data: Seq<u8>) -> Seq<u8>;

/// Whether the bytes are a whole well-formed zstd frame.
pub uninterp spec fn zstd_ok_of(data: Seq<u8>) -> bool;

/// What a bzip2 stream decompresses to: the bytes depend on the input alone.
pub uninterp spec fn bzip2_decode_of(data: Seq<u8>) -> Seq<u8>;

/// Whether the bytes are a whole well-formed bzip2 stream.
pub uninterp spec fn bzip2_ok_of(data: Seq<u8>) -> bool;

/// Relies on `flate2::read::ZlibDecoder`: inflate a whole zlib stream;
/// `None` when the stream is malformed.
#[verifier::external_body]
fn zlib_decompress(data: &[u8]) -> (r: Option<Vec<u8>>)
    ensures
        (r is Some) == zlib_ok_of(data@),
        r is Some ==> r.unwrap()@ == zlib_inflate_of(data@),
{
    let mut out = Vec::new();
    let mut d = flate2::read::ZlibDecoder::new(data);
    match std::io::Read::read_to_end(&mut d, &mut out) {
        Ok(_) => Some(out),
        Err(_) => None,
    }
}

/// Relies on `zstd::stream::decode_all`: decompress a whole zstd frame;
/// `None` when the frame is malformed.
#[verifier::external_body]
fn zstd_decompress(data: &[u8]) -> (r: Option<Vec<u8>>)
    ensures
        (r is Some) == zstd_ok_of(data@),
        r is Some ==> r.unwrap()@ == zstd_decode_of(data@),
{
    match zstd::stream::decode_all(data) {
        Ok(out) => Some(out),
        Err(_) => None,
    }
}

/// Relies on `bzip2::read::BzDecoder`: decompress a whole bzip2 stream;
/// `None` when the stream is malformed.
#[verifier::external_body]
fn bzip2_decompress(data: &[u8]) -> (r: Option<Vec<u8>>)
    ensures
        (r is Some) == bzip2_ok_of(data@),
        r is Some ==> r.unwrap()@ == bzip2_decode_of(data@),
{
    let mut out = Vec::new();
    let mut d = bzip2::read::BzDecoder::new(data);
    match std::io::Read::read_to_end(&mut d, &mut out) {
        Ok(_) => Some(out),
        Err(_) => None,
    }
}

pub open spec fn pairs_view(args: Seq<(Vec<u8>, Vec<u8>)>) -> Seq<(Seq<u8>, Seq<u8>)> {
    args.map_values(|p: (Vec<u8>, Vec<u8>)| (p.0@, p.1@))
}

/// The form-urlencoded serialization of the pairs: the bytes depend on the
/// pairs alone.
pub uninterp spec fn form_urlencoded_of(args: Seq<(Seq<u8>, Seq<u8>)>) -> Seq<u8>;

/// Relies on `url::form_urlencoded::Serializer`: the
/// application/x-www-form-urlencoded serialization of the pairs.
#[verifier::external_body]
fn urlencode_pairs(args: &Vec<(Vec<u8>, Vec<u8>)>) -> (r: Vec<u8>)
    ensures
        r@ == form_urlencoded_of(pairs_view(args@)),
{
    let mut ser = url::form_urlencoded::Serializer::new(String::new());
    for (k, v) in args.iter() {
        ser.append_pair(&String::from_utf8_lossy(k), &String::from_utf8_lossy(v));
    }
    ser.finish().into_bytes()
}

/// The redirect-following configuration.
#[derive(Clone, Copy, PartialEq, Eq, Structural, Debug)]
pub enum FollowRedirects {
    Never,
    InitialOnly,
    Always,
}

/// Whether an exchange follows redirects: on the initial request when the
/// mode allows initial following, and always in the always mode.
pub open spec fn follows_redirects(mode: FollowRedirects, initial: bool) -> bool {
    (mode == FollowRedirects::InitialOnly && initial) || mode == FollowRedirects::Always
}

/// A request, as plain values for a transport to carry out.
pub struct HttpRequest {
    pub url: Vec<u8>,
    pub headers: Vec<(Vec<u8>, Vec<u8>)>,
    pub follow_redirects: bool,
    pub has_body: bool,
}

impl HttpRequest {
    /// A fresh GET request with no headers.
    pub fn new(url: Vec<u8>) -> (r: Self)
        ensures
            r.url@ == url@,
            r.headers@.len() == 0,
            !r.follow_redirects,
            !r.has_body,
    {
        HttpRequest { url, headers: Vec::new(), follow_redirects: false, has_body: false }
    }

    /// Enable or disable redirect following.
    pub fn follow_redirects(&mut self, enable: bool)
        ensures
            *final(self) == (HttpRequest { follow_redirects: enable, ..*old(self) }),
    {
        self.follow_redirects = enable;
    }

    /// Append one header.
    pub fn header(&mut self, name: &[u8], value: &[u8])
        ensures
            pairs_view(final(self).headers@) == pairs_view(old(self).headers@).push(
                (name@, value@),
            ),
            final(self).url == old(self).url,
            final(self).follow_redirects == old(self).follow_redirects,
            final(self).has_body == old(self).has_body,
    {
        let n = vstd::slice::slice_to_vec(name);
        let v = vstd::slice::slice_to_vec(value);
        let ghost before = self.headers@;
        self.headers.push((n, v));
        proof {
            assert(pairs_view(self.headers@) =~= pairs_view(before).push((name@, value@)));
        }
    }

    /// Mark the request as carrying a POST body. A body is not safely
    /// replayable across redirects, so redirect following is disabled.
    pub fn post_data(&mut self)
        ensures
            *final(self) == (HttpRequest {
                has_body: true,
                follow_redirects: false,
                ..*old(self)
            }),
    {
        self.has_body = true;
        self.follow_redirects = false;
    }
}

/// The client-side state that decides redirect following.
pub struct HttpClient {
    pub initial_request: bool,
}

impl HttpClient {
    /// A fresh client: the next request is the initial one.
    pub fn new() -> (r: Self)
        ensures
            r.initial_request,
    {
        HttpClient { initial_request: true }
    }

    /// Open a request: redirects are followed exactly when the mode and the
    /// initial-request state say so, and the initial state is spent.
    pub fn request(&mut self, url: Vec<u8>, mode: FollowRedirects) -> (r: HttpRequest)
        ensures
            r.url@ == url@,
            r.headers@.len() == 0,
            !r.has_body,
            r.follow_redirects == follows_redirects(mode, old(self).initial_request),
            !final(self).initial_request,
    {
        let mut req = HttpRequest::new(url);
        if (mode == FollowRedirects::InitialOnly && self.initial_request) || mode
            == FollowRedirects::Always {
            req.follow_redirects(true);
        }
        if self.initial_request {
            self.initial_request = false;
        }
        req
    }
}

/// First value bound to a key in a capability list.
pub open spec fn caps_get(es: Seq<(Seq<u8>, Seq<u8>)>, name: Seq<u8>) -> Option<Seq<u8>>
    decreases es.len(),
{
    if es.len() == 0 {
        None
    } else if es[0].0 == name {
        Some(es[0].1)
    } else {
        caps_get(es.skip(1), name)
    }
}

/// One space-separated capability token: name, and value after the first
/// `=` (empty when there is none).
pub open spec fn caps_token(t: Seq<u8>) -> (Seq<u8>, Seq<u8>) {
    match split2(t, 61) {
        None => (t, Seq::empty()),
        Some(p) => p,
    }
}

/// The entries of a capability list.
pub open spec fn caps_of(s: Seq<u8>) -> Seq<(Seq<u8>, Seq<u8>)> {
    split_on(s, 32).map_values(|t: Seq<u8>| caps_token(t))
}

/// The negotiated capabilities of a connection.
#[derive(Debug)]
pub struct HgCapabilities {
    entries: Vec<(Vec<u8>, Vec<u8>)>,
}

impl View for HgCapabilities {
    type V = Seq<(Seq<u8>, Seq<u8>)>;

    closed spec fn view(&self) -> Seq<(Seq<u8>, Seq<u8>)> {
        pairs_view(self.entries@)
    }
}

impl HgCapabilities {
    /// An empty capability set.
    pub fn new() -> (r: Self)
        ensures
            r@ == Seq::<(Seq<u8>, Seq<u8>)>::empty(),
    {
        let r = HgCapabilities { entries: Vec::new() };
        proof {
            assert(r@ =~= Seq::<(Seq<u8>, Seq<u8>)>::empty());
        }
        r
    }

    /// Parse a space-separated capability list.
    pub fn new_from(buf: &[u8]) -> (r: Self)
        ensures
            r@ == caps_of(buf@),
    {
        let tokens = split_bytes(buf, 32);
        let n = tokens.len();
        let mut entries: Vec<(Vec<u8>, Vec<u8>)> = Vec::new();
        let mut i: usize = 0;
        let ghost all = split_on(buf@, 32);
        while i < n
            invariant
                i <= n,
                n == tokens@.len(),
                all == split_on(buf@, 32),
                vecs_view(tokens@) == all,
                pairs_view(entries@) =~= all.take(i as int).map_values(|t: Seq<u8>| caps_token(t)),
            decreases n - i,
        {
            proof {
                assert(all[i as int] == tokens@[i as int]@);
            }
            let e: (Vec<u8>, Vec<u8>) = match split_first_byte(tokens[i].as_slice(), 61) {
                Some(p) => p,
                None => (vstd::slice::slice_to_vec(tokens[i].as_slice()), Vec::new()),
            };
            proof {
                assert((e.0@, e.1@) == caps_token(all[i as int]));
            }
            let ghost before = entries@;
            entries.push(e);
            proof {
                assert(pairs_view(entries@) =~= pairs_view(before).push((e.0@, e.1@)));
                assert(all.take(i + 1) =~= all.take(i as int).push(all[i as int]));
                assert(all.take(i + 1).map_values(|t: Seq<u8>| caps_token(t)) =~= all.take(
                    i as int,
                ).map_values(|t: Seq<u8>| caps_token(t)).push(caps_token(all[i as int])));
            }
            i += 1;
        }
        proof {
            assert(all.take(n as int) =~= all);
        }
        let r = HgCapabilities { entries };
        r
    }

    /// The value of a capability, if advertised.
    pub fn get_capability(&self, name: &[u8]) -> (r: Option<&Vec<u8>>)
        ensures
            match r {
                Some(v) => caps_get(self@, name@) == Some(v@),
                None => caps_get(self@, name@) == None::<Seq<u8>>,
            },
    {
        let n = self.entries.len();
        let mut i: usize = 0;
        proof {
            assert(self@.skip(0) =~= self@);
        }
        while i < n
            invariant
                i <= n,
                n == self.entries@.len(),
                caps_get(self@, name@) == caps_get(self@.skip(i as int), name@),
            decreases n - i,
        {
            proof {
                assert(self@.skip(i as int)[0] == self@[i as int]);
                assert(self@[i as int] == (self.entries@[i as int].0@, self.entries@[i as int].1@));
                assert(self@.skip(i as int).skip(1) =~= self@.skip(i + 1));
            }
            if bytes_eq(self.entries[i].0.as_slice(), name) {
                return Some(&self.entries[i].1);
            }
            i += 1;
        }
        proof {
            assert(self@.skip(n as int) =~= Seq::<(Seq<u8>, Seq<u8>)>::empty());
        }
        None
    }
}

/// The `httpheader` byte budget a capability list advertises; zero when
/// absent or malformed.
pub open spec fn httpheader_budget(caps: Seq<(Seq<u8>, Seq<u8>)>) -> int {
    match caps_get(caps, httpheader_cap()) {
        None => 0,
        Some(v) => if is_dec(v) && dec_val(v) <= usize::MAX {
            dec_val(v)
        } else {
            0
        },
    }
}

/// The concatenation of header chunk values.
pub open spec fn chunks_concat(hs: Seq<(Seq<u8>, Seq<u8>)>) -> Seq<u8>
    decreases hs.len(),
{
    if hs.len() == 0 {
        Seq::empty()
    } else {
        hs[0].1 + chunks_concat(hs.skip(1))
    }
}

/// The name of the n-th argument header.
pub open spec fn hgarg_name(n: int) -> Seq<u8> {
    hgarg_prefix() + dec_of(n as nat)
}

fn make_hgarg_name(num: usize) -> (r: Vec<u8>)
    ensures
        r@ == hgarg_name(num as int),
        r@.len() <= 28,
{
    let p = [88u8, 45u8, 72u8, 103u8, 65u8, 114u8, 103u8, 45u8];
    let mut r = vstd::slice::slice_to_vec(p.as_slice());
    let d = format_dec(num as u64);
    push_slice(&mut r, d.as_slice());
    proof {
        assert(r@ =~= hgarg_name(num as int));
        crate::numbers::lemma_dec_len_le(num as u64);
    }
    r
}

/// Split an encoded argument string across `X-HgArg-N` headers: chunks
/// joined in order equal the input, and no header line `name: value`
/// exceeds the byte budget. `None` when the budget cannot even hold a
/// header name.
pub fn chunk_args(encoded: &[u8], budget: usize) -> (r: Option<Vec<(Vec<u8>, Vec<u8>)>>)
    ensures
        budget >= 31 && encoded@.len() < usize::MAX ==> r is Some,
        r is Some ==> chunks_concat(pairs_view(r.unwrap()@)) == encoded@,
        r is Some ==> forall|i: int|
            0 <= i < r.unwrap()@.len() ==> (#[trigger] pairs_view(r.unwrap()@)[i]).0.len() + 2
                + pairs_view(r.unwrap()@)[i].1.len() <= budget,
        r is Some ==> forall|i: int|
            0 <= i < r.unwrap()@.len() ==> (#[trigger] pairs_view(r.unwrap()@)[i]).0 == hgarg_name(
                i + 1,
            ),
        r is Some ==> forall|i: int|
            0 <= i < r.unwrap()@.len() ==> (#[trigger] pairs_view(r.unwrap()@)[i]).1.len() > 0,
        r is Some ==> forall|i: int|
            0 <= i < r.unwrap()@.len() - 1 ==> (#[trigger] pairs_view(r.unwrap()@)[i]).0.len() + 2
                + pairs_view(r.unwrap()@)[i].1.len() == budget,
{
    let n = encoded.len();
    let mut r: Vec<(Vec<u8>, Vec<u8>)> = Vec::new();
    let mut pos: usize = 0;
    let mut num: usize = 1;
    while pos < n
        invariant
            pos <= n,
            n == encoded@.len(),
            num >= 1,
            num <= pos + 1,
            chunks_concat(pairs_view(r@)) == encoded@.take(pos as int),
            r@.len() == num - 1,
            forall|i: int|
                0 <= i < r@.len() ==> (#[trigger] pairs_view(r@)[i]).0.len() + 2 + pairs_view(
                    r@,
                )[i].1.len() <= budget,
            forall|i: int|
                0 <= i < r@.len() ==> (#[trigger] pairs_view(r@)[i]).0 == hgarg_name(i + 1),
            forall|i: int|
                0 <= i < r@.len() ==> (#[trigger] pairs_view(r@)[i]).1.len() > 0,
            forall|i: int|
                0 <= i < r@.len() - 1 ==> (#[trigger] pairs_view(r@)[i]).0.len() + 2 + pairs_view(
                    r@,
                )[i].1.len() == budget,
            r@.len() > 0 && pos < n ==> pairs_view(r@).last().0.len() + 2 + pairs_view(
                r@,
            ).last().1.len() == budget,
        decreases n - pos,
    {
        if num == usize::MAX {
            return None;
        }
        let name = make_hgarg_name(num);
        if budget <= name.len() + 2 {
            return None;
        }
        let avail = budget - name.len() - 2;
        let take = if avail < n - pos {
            avail
        } else {
            n - pos
        };
        let chunk = vstd::slice::slice_to_vec(
            vstd::slice::slice_subrange(encoded, pos, pos + take),
        );
        let ghost before = r@;
        proof {
            lemma_chunks_concat_snoc(pairs_view(before), (name@, chunk@));
            assert(pairs_view(before.push((name, chunk))) =~= pairs_view(before).push(
                (name@, chunk@),
            ));
            assert(encoded@.take(pos as int) + encoded@.subrange(pos as int, pos + take as int)
                =~= encoded@.take(pos + take as int));
        }
        r.push((name, chunk));
        pos = pos + take;
        num = num + 1;
    }
    proof {
        assert(encoded@.take(n as int) =~= encoded@);
    }
    Some(r)
}

proof fn lemma_chunks_concat_snoc(hs: Seq<(Seq<u8>, Seq<u8>)>, e: (Seq<u8>, Seq<u8>))
    ensures
        chunks_concat(hs.push(e)) == chunks_concat(hs) + e.1,
    decreases hs.len(),
{
    if hs.len() == 0 {
        assert(hs.push(e)[0] == e);
        assert(hs.push(e).skip(1) =~= Seq::<(Seq<u8>, Seq<u8>)>::empty());
        assert(chunks_concat(hs) == Seq::<u8>::empty());
        assert(chunks_concat(hs.push(e).skip(1)) == Seq::<u8>::empty());
        assert(chunks_concat(hs.push(e)) =~= chunks_concat(hs) + e.1);
    } else {
        assert(hs.push(e)[0] == hs[0]);
        assert(hs.push(e).skip(1) =~= hs.skip(1).push(e));
        lemma_chunks_concat_snoc(hs.skip(1), e);
        assert(chunks_concat(hs.push(e)) =~= chunks_concat(hs) + e.1);
    }
}

/// Whether a comma-separated media-type list holds the exact token `0.2tx`.
pub open spec fn has_02tx(v: Seq<u8>) -> bool {
    exists|i: int| 0 <= i < split_on(v, 44).len() && #[trigger] split_on(v, 44)[i] == token_02tx()
}

fn media_types_have_02tx(v: &[u8]) -> (r: bool)
    ensures
        r == has_02tx(v@),
{
    let parts = split_bytes(v, 44);
    let n = parts.len();
    let mut i: usize = 0;
    let tok = [48u8, 46u8, 50u8, 116u8, 120u8];
    proof {
        assert(tok@ =~= token_02tx());
    }
    while i < n
        invariant
            i <= n,
            n == parts@.len(),
            tok@ == token_02tx(),
            vecs_view(parts@) == split_on(v@, 44),
            forall|j: int| 0 <= j < i ==> #[trigger] split_on(v@, 44)[j] != token_02tx(),
        decreases n - i,
    {
        proof {
            assert(split_on(v@, 44)[i as int] == parts@[i as int]@);
        }
        if bytes_eq(parts[i].as_slice(), tok.as_slice()) {
            return true;
        }
        i += 1;
    }
    false
}

/// The wire connection: base URL, negotiated capabilities, and the
/// initial-request state.
pub struct HgHttpConnection {
    pub capabilities: HgCapabilities,
    pub url: Vec<u8>,
    pub client: HttpClient,
}

impl HgHttpConnection {
    /// The value of a capability, if the server advertised it.
    pub fn get_capability(&self, name: &[u8]) -> (r: Option<&Vec<u8>>)
        ensures
            match r {
                Some(v) => caps_get(self.capabilities@, name@) == Some(v@),
                None => caps_get(self.capabilities@, name@) == None::<Seq<u8>>,
            },
    {
        self.capabilities.get_capability(name)
    }

    /// Assemble a command request: `base?cmd=...`, the `Accept` header, and
    /// the arguments either in the query string or chunked across
    /// `X-HgArg-N` headers when the server advertises a positive
    /// `httpheader` budget. `None` only when that budget is too small to
    /// hold a header name.
    pub fn start_command_request(
        &mut self,
        mode: FollowRedirects,
        command: &[u8],
        args: &Vec<(Vec<u8>, Vec<u8>)>,
    ) -> (r: Option<HttpRequest>)
        ensures
            final(self).url == old(self).url,
            httpheader_budget(old(self).capabilities@) == 0 || args@.len() == 0 || (
            httpheader_budget(old(self).capabilities@) >= 31 && form_urlencoded_of(
                pairs_view(args@),
            ).len() < usize::MAX) ==> r is Some,
            r is Some ==> ({
                let req = r.unwrap();
                let budget = httpheader_budget(old(self).capabilities@);
                let header_mode = budget > 0 && args@.len() > 0;
                &&& req.url@ == old(self).url@ + seq![63u8] + form_urlencoded_of(
                    if header_mode {
                        seq![(cmd_key(), command@)]
                    } else {
                        seq![(cmd_key(), command@)] + pairs_view(args@)
                    },
                )
                &&& req.headers@.len() >= 1
                &&& pairs_view(req.headers@)[0] == (accept_name(), mercurial_01())
                &&& chunks_concat(pairs_view(req.headers@).skip(1)) == (if header_mode {
                    form_urlencoded_of(pairs_view(args@))
                } else {
                    Seq::<u8>::empty()
                })
                &&& (!header_mode ==> req.headers@.len() == 1)
                &&& forall|i: int|
                    1 <= i < req.headers@.len() ==> (#[trigger] pairs_view(req.headers@)[
                        i]).0.len() + 2 + pairs_view(req.headers@)[i].1.len() <= budget
                &&& forall|i: int|
                    1 <= i < req.headers@.len() ==> (#[trigger] pairs_view(req.headers@)[i]).0
                        == hgarg_name(i)
                &&& forall|i: int|
                    1 <= i < req.headers@.len() ==> (#[trigger] pairs_view(req.headers@)[
                        i]).1.len() > 0
                &&& forall|i: int|
                    1 <= i < req.headers@.len() - 1 ==> (#[trigger] pairs_view(req.headers@)[
                        i]).0.len() + 2 + pairs_view(req.headers@)[i].1.len() == budget
                &&& req.follow_redirects == follows_redirects(mode, old(self).initial())
                &&& !req.has_body
            }),
            !final(self).client.initial_request,
            final(self).capabilities@ == old(self).capabilities@,
    {
        let budget: usize = {
            let hh = [104u8, 116u8, 116u8, 112u8, 104u8, 101u8, 97u8, 100u8, 101u8, 114u8];
            proof {
                assert(hh@ =~= httpheader_cap());
            }
            match self.capabilities.get_capability(hh.as_slice()) {
                Some(v) => match parse_dec_usize(v.as_slice()) {
                    Some(x) => x,
                    None => 0,
                },
                None => 0,
            }
        };
        proof {
            assert(budget as int == httpheader_budget(old(self).capabilities@));
        }
        let ck = [99u8, 109u8, 100u8];
        proof {
            assert(ck@ =~= cmd_key());
        }
        let header_mode = budget > 0 && args.len() > 0;
        let mut query_pairs: Vec<(Vec<u8>, Vec<u8>)> = Vec::new();
        query_pairs.push(
            (vstd::slice::slice_to_vec(ck.as_slice()), vstd::slice::slice_to_vec(command)),
        );
        if !header_mode {
            let m = args.len();
            let mut j: usize = 0;
            while j < m
                invariant
                    j <= m,
                    m == args@.len(),
                    pairs_view(query_pairs@) =~= seq![(cmd_key(), command@)] + pairs_view(
                        args@,
                    ).take(j as int),
                decreases m - j,
            {
                let k = vstd::slice::slice_to_vec(args[j].0.as_slice());
                let v = vstd::slice::slice_to_vec(args[j].1.as_slice());
                let ghost before = query_pairs@;
                query_pairs.push((k, v));
                proof {
                    assert(pairs_view(args@)[j as int] == (args@[j as int].0@, args@[j as int].1@));
                    assert(pairs_view(query_pairs@) =~= pairs_view(before).push(
                        (args@[j as int].0@, args@[j as int].1@),
                    ));
                    assert(pairs_view(args@).take(j + 1) =~= pairs_view(args@).take(
                        j as int,
                    ).push(pairs_view(args@)[j as int]));
                }
                j += 1;
            }
            proof {
                assert(pairs_view(args@).take(m as int) =~= pairs_view(args@));
            }
        } else {
            proof {
                assert(pairs_view(query_pairs@) =~= seq![(cmd_key(), command@)]);
            }
        }
        let encoded_query = urlencode_pairs(&query_pairs);
        let mut url: Vec<u8> = vstd::slice::slice_to_vec(self.url.as_slice());
        url.push(63);
        push_slice(&mut url, encoded_query.as_slice());
        proof {
            assert(url@ =~= old(self).url@ + seq![63u8] + encoded_query@);
        }
        let mut req = self.client.request(url, mode);
        let an = [65u8, 99u8, 99u8, 101u8, 112u8, 116u8];
        let av = [
            97u8, 112u8, 112u8, 108u8, 105u8, 99u8, 97u8, 116u8, 105u8, 111u8, 110u8, 47u8, 109u8,
            101u8, 114u8, 99u8, 117u8, 114u8, 105u8, 97u8, 108u8, 45u8, 48u8, 46u8, 49u8,
        ];
        proof {
            assert(an@ =~= accept_name());
            assert(av@ =~= mercurial_01());
        }
        req.header(an.as_slice(), av.as_slice());
        if header_mode {
            let encoded_args = urlencode_pairs(args);
            let chunks = match chunk_args(encoded_args.as_slice(), budget) {
                Some(c) => c,
                None => {
                    return None;
                },
            };
            let cn = chunks.len();
            let mut i: usize = 0;
            while i < cn
                invariant
                    i <= cn,
                    cn == chunks@.len(),
                    pairs_view(req.headers@).len() == 1 + i,
                    pairs_view(req.headers@)[0] == (accept_name(), mercurial_01()),
                    pairs_view(req.headers@).skip(1) =~= pairs_view(chunks@).take(i as int),
                    req.url == req.url,
                    req.follow_redirects == follows_redirects(mode, old(self).initial()),
                    !req.has_body,
                    req.url@ == old(self).url@ + seq![63u8] + form_urlencoded_of(
                        seq![(cmd_key(), command@)],
                    ),
                    forall|k: int|
                        0 <= k < chunks@.len() ==> (#[trigger] pairs_view(chunks@)[k]).0.len() + 2
                            + pairs_view(chunks@)[k].1.len() <= budget,
                    chunks_concat(pairs_view(chunks@)) == form_urlencoded_of(pairs_view(args@)),
                decreases cn - i,
            {
                req.header(chunks[i].0.as_slice(), chunks[i].1.as_slice());
                proof {
                    assert(pairs_view(chunks@)[i as int] == (chunks@[i as int].0@, chunks@[
                        i as int].1@));
                    assert(pairs_view(chunks@).take(i + 1) =~= pairs_view(chunks@).take(
                        i as int,
                    ).push(pairs_view(chunks@)[i as int]));
                }
                i += 1;
            }
            proof {
                assert(pairs_view(chunks@).take(cn as int) =~= pairs_view(chunks@));
                let hv = pairs_view(req.headers@);
                let cv = pairs_view(chunks@);
                assert(hv.skip(1) == cv);
                lemma_chunks_of_take(hv, cv);
                assert forall|k: int| 1 <= k < hv.len() implies (#[trigger] hv[k]).0.len() + 2
                    + hv[k].1.len() <= budget by {
                    assert(hv[k] == hv.skip(1)[k - 1]);
                    assert(cv[k - 1].0.len() + 2 + cv[k - 1].1.len() <= budget);
                }
                assert forall|k: int| 1 <= k < hv.len() implies (#[trigger] hv[k]).0 == hgarg_name(
                    k,
                ) by {
                    assert(hv[k] == hv.skip(1)[k - 1]);
                    assert(cv[k - 1].0 == hgarg_name(k));
                }
                assert forall|k: int| 1 <= k < hv.len() implies (#[trigger] hv[k]).1.len() > 0 by {
                    assert(hv[k] == hv.skip(1)[k - 1]);
                    assert(cv[k - 1].1.len() > 0);
                }
                assert forall|k: int| 1 <= k < hv.len() - 1 implies (#[trigger] hv[k]).0.len() + 2
                    + hv[k].1.len() == budget by {
                    assert(hv[k] == hv.skip(1)[k - 1]);
                    assert(cv[k - 1].0.len() + 2 + cv[k - 1].1.len() == budget);
                }
            }
            Some(req)
        } else {
            proof {
                assert(pairs_view(req.headers@).skip(1) =~= Seq::<(Seq<u8>, Seq<u8>)>::empty());
                assert(chunks_concat(Seq::<(Seq<u8>, Seq<u8>)>::empty()) == Seq::<u8>::empty());
                assert(pairs_view(req.headers@)[0] == (accept_name(), mercurial_01()));
            }
            Some(req)
        }
    }

    /// Assemble a simple-command request: as `start_command_request`, and
    /// for the mutating `pushkey` command force POST semantics with an
    /// explicit `Content-Type` and an empty body.
    pub fn simple_command_request(
        &mut self,
        mode: FollowRedirects,
        command: &[u8],
        args: &Vec<(Vec<u8>, Vec<u8>)>,
    ) -> (r: Option<HttpRequest>)
        ensures
            final(self).url == old(self).url,
            final(self).capabilities@ == old(self).capabilities@,
            httpheader_budget(old(self).capabilities@) == 0 || args@.len() == 0 || (
            httpheader_budget(old(self).capabilities@) >= 31 && form_urlencoded_of(
                pairs_view(args@),
            ).len() < usize::MAX) ==> r is Some,
            r is Some ==> ({
                let req = r.unwrap();
                let budget = httpheader_budget(old(self).capabilities@);
                let header_mode = budget > 0 && args@.len() > 0;
                &&& req.url@ == old(self).url@ + seq![63u8] + form_urlencoded_of(
                    if header_mode {
                        seq![(cmd_key(), command@)]
                    } else {
                        seq![(cmd_key(), command@)] + pairs_view(args@)
                    },
                )
                &&& req.headers@.len() >= 1
                &&& pairs_view(req.headers@)[0] == (accept_name(), mercurial_01())
                &&& (req.has_body <==> command@ == pushkey_cmd())
                &&& (command@ == pushkey_cmd() ==> pairs_view(req.headers@).last() == (
                content_type_name(),
                mercurial_01(),
                ))
                &&& (command@ == pushkey_cmd() ==> !req.follow_redirects)
                &&& (command@ != pushkey_cmd() ==> req.follow_redirects == follows_redirects(
                    mode,
                    old(self).initial(),
                ))
            }),
    {
        let mut req = match self.start_command_request(mode, command, args) {
            Some(r) => r,
            None => {
                return None;
            },
        };
        let pk = [112u8, 117u8, 115u8, 104u8, 107u8, 101u8, 121u8];
        proof {
            assert(pk@ =~= pushkey_cmd());
        }
        if bytes_eq(command, pk.as_slice()) {
            let ctn = [67u8, 111u8, 110u8, 116u8, 101u8, 110u8, 116u8, 45u8, 84u8, 121u8, 112u8,
                101u8];
            let ctv = [
                97u8, 112u8, 112u8, 108u8, 105u8, 99u8, 97u8, 116u8, 105u8, 111u8, 110u8, 47u8,
                109u8, 101u8, 114u8, 99u8, 117u8, 114u8, 105u8, 97u8, 108u8, 45u8, 48u8, 46u8,
                49u8,
            ];
            proof {
                assert(ctn@ =~= content_type_name());
                assert(ctv@ =~= mercurial_01());
            }
            let ghost pv0 = pairs_view(req.headers@);
            req.header(ctn.as_slice(), ctv.as_slice());
            req.post_data();
            proof {
                assert(pairs_view(req.headers@) == pv0.push((content_type_name(), mercurial_01())));
                assert(pairs_view(req.headers@)[0] == pv0[0]);
                assert(pairs_view(req.headers@).last() == (content_type_name(), mercurial_01()));
                assert(req.has_body);
            }
        }
        Some(req)
    }

    /// Update the base URL after a redirect, stripping the query.
    pub fn handle_redirect(&mut self, redirected_to: &[u8])
        ensures
            final(self).url@ == strip_query(redirected_to@),
            final(self).capabilities@ == old(self).capabilities@,
            final(self).client == old(self).client,
    {
        let stripped = match split_first_byte(redirected_to, 63) {
            Some(p) => p.0,
            None => vstd::slice::slice_to_vec(redirected_to),
        };
        self.url = stripped;
    }

    /// Whether the initial request is still pending.
    pub open spec fn initial(&self) -> bool {
        self.client.initial_request
    }
}

proof fn lemma_chunks_of_take(hs: Seq<(Seq<u8>, Seq<u8>)>, cs: Seq<(Seq<u8>, Seq<u8>)>)
    requires
        hs.skip(1) == cs,
    ensures
        chunks_concat(hs.skip(1)) == chunks_concat(cs),
{
}

/// A URL with its query stripped.
pub open spec fn strip_query(s: Seq<u8>) -> Seq<u8> {
    match split2(s, 63) {
        None => s,
        Some(p) => p.0,
    }
}

/// The extra headers of a changegroup-family command: the `X-HgProto-1`
/// compression offer, sent exactly when the server's `httpmediatype`
/// capability holds the token `0.2tx`.
pub fn changegroup_extra_headers(caps: &HgCapabilities) -> (r: Option<(Vec<u8>, Vec<u8>)>)
    ensures
        r is Some <==> (match caps_get(caps@, httpmediatype_cap()) {
            None => false,
            Some(v) => has_02tx(v),
        }),
        r is Some ==> r.unwrap().0@ == proto_header_name() && r.unwrap().1@
            == proto_header_value(),
{
    let hm = [
        104u8, 116u8, 116u8, 112u8, 109u8, 101u8, 100u8, 105u8, 97u8, 116u8, 121u8, 112u8, 101u8,
    ];
    proof {
        assert(hm@ =~= httpmediatype_cap());
    }
    match caps.get_capability(hm.as_slice()) {
        Some(v) => {
            if media_types_have_02tx(v.as_slice()) {
                let pn = [88u8, 45u8, 72u8, 103u8, 80u8, 114u8, 111u8, 116u8, 111u8, 45u8, 49u8];
                let pv = [
                    48u8, 46u8, 49u8, 32u8, 48u8, 46u8, 50u8, 32u8, 99u8, 111u8, 109u8, 112u8,
                    61u8, 122u8, 115u8, 116u8, 100u8, 44u8, 122u8, 108u8, 105u8, 98u8, 44u8,
                    110u8, 111u8, 110u8, 101u8, 44u8, 98u8, 122u8, 105u8, 112u8, 50u8,
                ];
                proof {
                    assert(pn@ =~= proto_header_name());
                    assert(pv@ =~= proto_header_value());
                }
                Some(
                    (
                        vstd::slice::slice_to_vec(pn.as_slice()),
                        vstd::slice::slice_to_vec(pv.as_slice()),
                    ),
                )
            } else {
                None
            }
        },
        None => None,
    }
}

/// The `0.2` frame: a one-byte codec-name length, the codec name, and the
/// codec-framed payload.
pub open spec fn parse_cg_frame(body: Seq<u8>) -> Option<(Seq<u8>, Seq<u8>)> {
    if body.len() >= 1 && 1 + body[0] <= body.len() {
        Some((body.subrange(1, 1 + body[0]), body.skip(1 + body[0])))
    } else {
        None
    }
}

/// A decoded changegroup response: the decompressed payload, or the body of
/// an `application/hg-error` answer, to be relayed on the diagnostic
/// stream.
#[derive(Debug)]
pub enum CgResponse {
    Data(Vec<u8>),
    RemoteError(Vec<u8>),
}

/// Decode a changegroup-family response body according to its content
/// type: `application/mercurial-0.1` is a raw zlib stream,
/// `application/mercurial-0.2` is a codec frame, `application/hg-error`
/// relays the body, and anything else is unknown.
pub fn decode_changegroup_response(content_type: Option<&Vec<u8>>, body: &[u8]) -> (r: Result<
    CgResponse,
    WireError,
>)
    ensures
        ({
            let ct = match content_type {
                Some(v) => Some(v@),
                None => None::<Seq<u8>>,
            };
            &&& (ct == Some(mercurial_01()) ==> (match r {
                Ok(CgResponse::Data(d)) => zlib_ok_of(body@) && d@ == zlib_inflate_of(body@),
                Ok(CgResponse::RemoteError(_)) => false,
                Err(e) => !zlib_ok_of(body@) && e is CorruptPayload,
            }))
            &&& (ct == Some(mercurial_02()) ==> (match parse_cg_frame(body@) {
                None => r is Err && r.unwrap_err() is ParseError,
                Some(frame) => {
                    let codec = frame.0;
                    let payload = frame.1;
                    if codec == codec_zstd() {
                        match r {
                            Ok(CgResponse::Data(d)) => zstd_ok_of(payload) && d@ == zstd_decode_of(
                                payload,
                            ),
                            Ok(CgResponse::RemoteError(_)) => false,
                            Err(e) => !zstd_ok_of(payload) && e is CorruptPayload,
                        }
                    } else if codec == codec_zlib() {
                        match r {
                            Ok(CgResponse::Data(d)) => zlib_ok_of(payload) && d@ == zlib_inflate_of(
                                payload,
                            ),
                            Ok(CgResponse::RemoteError(_)) => false,
                            Err(e) => !zlib_ok_of(payload) && e is CorruptPayload,
                        }
                    } else if codec == codec_none() {
                        match r {
                            Ok(CgResponse::Data(d)) => d@ == payload,
                            _ => false,
                        }
                    } else if codec == codec_bzip2() {
                        match r {
                            Ok(CgResponse::Data(d)) => bzip2_ok_of(payload) && d@
                                == bzip2_decode_of(payload),
                            Ok(CgResponse::RemoteError(_)) => false,
                            Err(e) => !bzip2_ok_of(payload) && e is CorruptPayload,
                        }
                    } else {
                        match r {
                            Err(WireError::UnknownCompression(name)) => name@ == codec,
                            _ => false,
                        }
                    }
                },
            }))
            &&& (ct == Some(hg_error_type()) ==> (match r {
                Ok(CgResponse::RemoteError(e)) => e@ == body@,
                _ => false,
            }))
            &&& ((ct != Some(mercurial_01()) && ct != Some(mercurial_02()) && ct != Some(
                hg_error_type(),
            )) ==> r is Err && r.unwrap_err() is UnknownContentType)
        }),
{
    let ct01 = [
        97u8, 112u8, 112u8, 108u8, 105u8, 99u8, 97u8, 116u8, 105u8, 111u8, 110u8, 47u8, 109u8,
        101u8, 114u8, 99u8, 117u8, 114u8, 105u8, 97u8, 108u8, 45u8, 48u8, 46u8, 49u8,
    ];
    let ct02 = [
        97u8, 112u8, 112u8, 108u8, 105u8, 99u8, 97u8, 116u8, 105u8, 111u8, 110u8, 47u8, 109u8,
        101u8, 114u8, 99u8, 117u8, 114u8, 105u8, 97u8, 108u8, 45u8, 48u8, 46u8, 50u8,
    ];
    let cterr = [
        97u8, 112u8, 112u8, 108u8, 105u8, 99u8, 97u8, 116u8, 105u8, 111u8, 110u8, 47u8, 104u8,
        103u8, 45u8, 101u8, 114u8, 114u8, 111u8, 114u8,
    ];
    proof {
        assert(ct01@ =~= mercurial_01());
        assert(ct02@ =~= mercurial_02());
        assert(cterr@ =~= hg_error_type());
    }
    let ctv = match content_type {
        Some(v) => v.as_slice(),
        None => {
            return Err(WireError::UnknownContentType);
        },
    };
    if bytes_eq(ctv, ct01.as_slice()) {
        match zlib_decompress(body) {
            Some(d) => Ok(CgResponse::Data(d)),
            None => Err(WireError::CorruptPayload),
        }
    } else if bytes_eq(ctv, ct02.as_slice()) {
        if body.len() < 1 {
            return Err(WireError::ParseError);
        }
        let clen = body[0] as usize;
        if 1 + clen > body.len() {
            return Err(WireError::ParseError);
        }
        let codec = vstd::slice::slice_subrange(body, 1, 1 + clen);
        let payload = vstd::slice::slice_subrange(body, 1 + clen, body.len());
        proof {
            assert(codec@ =~= parse_cg_frame(body@).unwrap().0);
            assert(payload@ =~= parse_cg_frame(body@).unwrap().1);
        }
        let z1 = [122u8, 115u8, 116u8, 100u8];
        let z2 = [122u8, 108u8, 105u8, 98u8];
        let z3 = [110u8, 111u8, 110u8, 101u8];
        let z4 = [98u8, 122u8, 105u8, 112u8, 50u8];
        proof {
            assert(z1@ =~= codec_zstd());
            assert(z2@ =~= codec_zlib());
            assert(z3@ =~= codec_none());
            assert(z4@ =~= codec_bzip2());
        }
        if bytes_eq(codec, z1.as_slice()) {
            match zstd_decompress(payload) {
                Some(d) => Ok(CgResponse::Data(d)),
                None => Err(WireError::CorruptPayload),
            }
        } else if bytes_eq(codec, z2.as_slice()) {
            match zlib_decompress(payload) {
                Some(d) => Ok(CgResponse::Data(d)),
                None => Err(WireError::CorruptPayload),
            }
        } else if bytes_eq(codec, z3.as_slice()) {
            Ok(CgResponse::Data(vstd::slice::slice_to_vec(payload)))
        } else if bytes_eq(codec, z4.as_slice()) {
            match bzip2_decompress(payload) {
                Some(d) => Ok(CgResponse::Data(d)),
                None => Err(WireError::CorruptPayload),
            }
        } else {
            Err(WireError::UnknownCompression(vstd::slice::slice_to_vec(codec)))
        }
    } else if bytes_eq(ctv, cterr.as_slice()) {
        Ok(CgResponse::RemoteError(vstd::slice::slice_to_vec(body)))
    } else {
        Err(WireError::UnknownContentType)
    }
}

/// A decoded push response: a bundle v2 payload passed through verbatim, or
/// the `stdout LF stderr` split.
#[derive(Debug)]
pub enum PushResponse {
    Bundle(Vec<u8>),
    Output { out: Vec<u8>, err: Vec<u8> },
}

/// Decode a push response body: a body opening with `HG20` is a bundle v2
/// payload; otherwise the body splits at its first newline into stdout for
/// the caller and stderr for the diagnostic stream.
pub fn decode_push_response(body: &[u8]) -> (r: Result<PushResponse, WireError>)
    ensures
        starts_with_hg20(body@) ==> (match r {
            Ok(PushResponse::Bundle(b)) => b@ == body@,
            _ => false,
        }),
        !starts_with_hg20(body@) ==> (match split2(body@, 10) {
            Some(p) => (match r {
                Ok(PushResponse::Output { out, err }) => out@ == p.0 && err@ == p.1,
                _ => false,
            }),
            None => r is Err && r.unwrap_err() is BadOutput,
        }),
{
    let magic = [72u8, 71u8, 50u8, 48u8];
    proof {
        assert(magic@ =~= hg20_magic());
    }
    if starts_with(body, magic.as_slice()) {
        proof {
            assert(starts_with_hg20(body@));
        }
        return Ok(PushResponse::Bundle(vstd::slice::slice_to_vec(body)));
    }
    match split_first_byte(body, 10) {
        Some((out, err)) => Ok(PushResponse::Output { out, err }),
        None => Err(WireError::BadOutput),
    }
}

pub open spec fn starts_with_hg20(s: Seq<u8>) -> bool {
    s.len() >= 4 && s.take(4) == hg20_magic()
}

pub open spec fn starts_with_bundle_magic(s: Seq<u8>) -> bool {
    s.len() >= 4 && (s.take(4) == hg10_magic() || s.take(4) == hg20_magic())
}

/// What a capabilities probe found: a repository answering with its
/// capability list, or a naked bundle served at the URL, whose full body
/// (magic included) is handed to a bundle decompressor.
#[derive(Debug)]
pub enum ConnectKind {
    Repo(HgCapabilities),
    Bundle(Vec<u8>),
}

/// Classify the body of the capabilities probe: a body opening with `HG10`
/// or `HG20` is a naked bundle; anything else is a capability list.
pub fn classify_capabilities_response(body: &[u8]) -> (r: ConnectKind)
    ensures
        starts_with_bundle_magic(body@) ==> (match r {
            ConnectKind::Bundle(b) => b@ == body@,
            _ => false,
        }),
        !starts_with_bundle_magic(body@) ==> (match r {
            ConnectKind::Repo(caps) => caps@ == caps_of(body@),
            _ => false,
        }),
{
    let m10 = [72u8, 71u8, 49u8, 48u8];
    let m20 = [72u8, 71u8, 50u8, 48u8];
    proof {
        assert(m10@ =~= hg10_magic());
        assert(m20@ =~= hg20_magic());
    }
    if starts_with(body, m10.as_slice()) || starts_with(body, m20.as_slice()) {
        ConnectKind::Bundle(vstd::slice::slice_to_vec(body))
    } else {
        ConnectKind::Repo(HgCapabilities::new_from(body))
    }
}

/// Newline-separated parts, each with `p` prepended and its terminator
/// kept; an empty final part (after a trailing newline) adds nothing.
pub open spec fn prefix_parts(p: Seq<u8>, parts: Seq<Seq<u8>>) -> Seq<u8>
    decreases parts.len(),
{
    if parts.len() == 0 {
        Seq::empty()
    } else if parts.len() == 1 {
        if parts[0].len() == 0 {
            Seq::empty()
        } else {
            p + parts[0]
        }
    } else {
        p + parts[0] + seq![10u8] + prefix_parts(p, parts.skip(1))
    }
}

/// Each line of `s` with `p` prepended; line terminators are kept, and a
/// final unterminated line is prefixed too.
pub open spec fn prefix_lines(p: Seq<u8>, s: Seq<u8>) -> Seq<u8> {
    prefix_parts(p, split_on(s, 10))
}

/// Prefix each line of the remote diagnostic text with `remote: `.
pub fn prefix_remote(data: &[u8]) -> (r: Vec<u8>)
    ensures
        r@ == prefix_lines(remote_prefix(), data@),
    decreases data@.len(),
{
    let p = [114u8, 101u8, 109u8, 111u8, 116u8, 101u8, 58u8, 32u8];
    proof {
        assert(p@ =~= remote_prefix());
    }
    if data.len() == 0 {
        let r: Vec<u8> = Vec::new();
        proof {
            assert(r@ =~= prefix_lines(remote_prefix(), data@));
        }
        return r;
    }
    match split_first_byte(data, 10) {
        Some((line, rest)) => {
            proof {
                crate::bytes::lemma_split2_len(data@, 10);
                crate::bytes::lemma_split2_head_clean(data@, 10);
                crate::bytes::lemma_split2_inverse(data@, 10);
                crate::bytes::lemma_split_on_concat(line@, rest@, 10);
                crate::bytes::lemma_split_on_len(rest@, 10);
                assert(split_on(data@, 10) == seq![line@] + split_on(rest@, 10));
                assert(split_on(data@, 10).skip(1) =~= split_on(rest@, 10));
            }
            let mut r = vstd::slice::slice_to_vec(p.as_slice());
            push_slice(&mut r, line.as_slice());
            r.push(10);
            let tail = prefix_remote(rest.as_slice());
            push_slice(&mut r, tail.as_slice());
            proof {
                assert(split_on(data@, 10)[0] == line@);
                assert(r@ =~= prefix_lines(remote_prefix(), data@));
            }
            r
        },
        None => {
            proof {
                if crate::bytes::has_byte(data@, 10) {
                    crate::bytes::lemma_split2_some(data@, 10);
                }
                crate::bytes::lemma_split_on_no_sep(data@, 10);
            }
            let mut r = vstd::slice::slice_to_vec(p.as_slice());
            push_slice(&mut r, data);
            proof {
                assert(split_on(data@, 10) == seq![data@]);
                assert(r@ =~= prefix_lines(remote_prefix(), data@));
            }
            r
        },
    }
}

pub open spec fn remote_prefix() -> Seq<u8> {
    seq![114u8, 101u8, 109u8, 111u8, 116u8, 101u8, 58u8, 32u8]
}

/// The outcome a transport reports for one attempt.
#[derive(Clone, Copy, PartialEq, Eq, Structural, Debug)]
pub enum AttemptOutcome {
    Success,
    AuthenticationRequired,
    TransportFailure,
}

/// What the client does next.
#[derive(Clone, Copy, PartialEq, Eq, Structural, Debug)]
pub enum RetryAction {
    Done,
    RefillAndRetry,
    Abort,
}

/// The exactly-once reauthentication policy: a first authentication
/// failure refills credentials and retries once; any further failure, or a
/// transport failure, aborts.
pub fn reauth_decision(outcome: AttemptOutcome, already_retried: bool) -> (r: RetryAction)
    ensures
        outcome == AttemptOutcome::Success ==> r == RetryAction::Done,
        outcome == AttemptOutcome::AuthenticationRequired && !already_retried ==> r
            == RetryAction::RefillAndRetry,
        outcome == AttemptOutcome::AuthenticationRequired && already_retried ==> r
            == RetryAction::Abort,
        outcome == AttemptOutcome::TransportFailure ==> r == RetryAction::Abort,
{
    match outcome {
        AttemptOutcome::Success => RetryAction::Done,
        AttemptOutcome::AuthenticationRequired => if already_retried {
            RetryAction::Abort
        } else {
            RetryAction::RefillAndRetry
        },
        AttemptOutcome::TransportFailure => RetryAction::Abort,
    }
}

} // verus!
