//! Tests of the wire-client logic: redirect policy, argument chunking,
//! capabilities, response classification and the 0.2 framing.

use cinnabar::http::{
    chunk_args, classify_capabilities_response, decode_changegroup_response, decode_push_response,
    prefix_remote, reauth_decision, AttemptOutcome, CgResponse, ConnectKind, FollowRedirects,
    HgCapabilities, HgHttpConnection, HttpClient, PushResponse, RetryAction, WireError,
};
use std::io::Read;

#[test]
fn follow_redirects_policy() {
    let mut client = HttpClient::new();
    let req = client.request(b"http://example/repo".to_vec(), FollowRedirects::InitialOnly);
    assert!(req.follow_redirects);
    let req = client.request(b"http://example/repo".to_vec(), FollowRedirects::InitialOnly);
    assert!(!req.follow_redirects);
    let mut client = HttpClient::new();
    let req = client.request(b"u".to_vec(), FollowRedirects::Never);
    assert!(!req.follow_redirects);
    let req = client.request(b"u".to_vec(), FollowRedirects::Always);
    assert!(req.follow_redirects);
}

#[test]
fn chunking_joins_back_and_fits_budget() {
    let encoded = b"heads=ffff&common=0000";
    let chunks = chunk_args(encoded, 32).unwrap();
    assert_eq!(chunks.len(), 2);
    assert_eq!(chunks[0].0, b"X-HgArg-1".to_vec());
    assert_eq!(chunks[0].1, b"heads=ffff&common=000".to_vec());
    assert_eq!(chunks[1].0, b"X-HgArg-2".to_vec());
    assert_eq!(chunks[1].1, b"0".to_vec());
    for (name, value) in &chunks {
        assert!(name.len() + 2 + value.len() <= 32);
    }
    let joined: Vec<u8> = chunks.iter().flat_map(|c| c.1.clone()).collect();
    assert_eq!(joined, encoded.to_vec());
    assert!(chunk_args(encoded, 5).is_none());
}

#[test]
fn command_request_header_mode() {
    let caps = HgCapabilities::new_from(b"lookup httpheader=32 branchmap");
    let mut conn = HgHttpConnection {
        capabilities: caps,
        url: b"http://example/repo".to_vec(),
        client: HttpClient::new(),
    };
    let args = vec![
        (b"heads".to_vec(), b"ffff".to_vec()),
        (b"common".to_vec(), b"0000".to_vec()),
    ];
    let req = conn
        .start_command_request(FollowRedirects::InitialOnly, b"heads", &args)
        .unwrap();
    assert_eq!(req.url, b"http://example/repo?cmd=heads".to_vec());
    assert_eq!(req.headers[0].0, b"Accept".to_vec());
    assert_eq!(req.headers[0].1, b"application/mercurial-0.1".to_vec());
    let joined: Vec<u8> = req.headers[1..].iter().flat_map(|c| c.1.clone()).collect();
    assert_eq!(joined, b"heads=ffff&common=0000".to_vec());
    for (name, value) in &req.headers[1..] {
        assert!(name.len() + 2 + value.len() <= 32);
    }
    assert!(req.follow_redirects);
    assert!(!req.has_body);
}

#[test]
fn command_request_query_mode() {
    let caps = HgCapabilities::new_from(b"lookup branchmap");
    let mut conn = HgHttpConnection {
        capabilities: caps,
        url: b"http://example/repo".to_vec(),
        client: HttpClient::new(),
    };
    let args = vec![(b"key".to_vec(), b"a value".to_vec())];
    let req = conn
        .start_command_request(FollowRedirects::Never, b"listkeys", &args)
        .unwrap();
    assert_eq!(req.url, b"http://example/repo?cmd=listkeys&key=a+value".to_vec());
    assert_eq!(req.headers.len(), 1);
}

#[test]
fn pushkey_forces_post() {
    let caps = HgCapabilities::new_from(b"lookup");
    let mut conn = HgHttpConnection {
        capabilities: caps,
        url: b"http://example/repo".to_vec(),
        client: HttpClient::new(),
    };
    let req = conn
        .simple_command_request(FollowRedirects::Never, b"pushkey", &Vec::new())
        .unwrap();
    assert!(req.has_body);
    assert_eq!(
        req.headers.last().unwrap(),
        &(b"Content-Type".to_vec(), b"application/mercurial-0.1".to_vec())
    );
    let req = conn
        .simple_command_request(FollowRedirects::Never, b"lookup", &Vec::new())
        .unwrap();
    assert!(!req.has_body);
}

#[test]
fn capability_lookup() {
    let caps = HgCapabilities::new_from(b"lookup httpheader=1024 httpmediatype=0.1rx,0.1tx,0.2tx");
    assert_eq!(caps.get_capability(b"httpheader").map(|v| v.clone()), Some(b"1024".to_vec()));
    assert_eq!(caps.get_capability(b"lookup").map(|v| v.clone()), Some(b"".to_vec()));
    assert!(caps.get_capability(b"unbundle").is_none());
    let hdr = cinnabar::http::changegroup_extra_headers(&caps).unwrap();
    assert_eq!(hdr.0, b"X-HgProto-1".to_vec());
    assert_eq!(hdr.1, b"0.1 0.2 comp=zstd,zlib,none,bzip2".to_vec());
    let caps2 = HgCapabilities::new_from(b"httpmediatype=0.1rx,0.1tx");
    assert!(cinnabar::http::changegroup_extra_headers(&caps2).is_none());
}

#[test]
fn redirect_strips_query() {
    let caps = HgCapabilities::new_from(b"");
    let mut conn = HgHttpConnection {
        capabilities: caps,
        url: b"http://old/repo".to_vec(),
        client: HttpClient::new(),
    };
    conn.handle_redirect(b"http://new/repo?cmd=capabilities");
    assert_eq!(conn.url, b"http://new/repo".to_vec());
    conn.handle_redirect(b"http://other/repo");
    assert_eq!(conn.url, b"http://other/repo".to_vec());
}

fn zlib_compress(data: &[u8]) -> Vec<u8> {
    let mut out = Vec::new();
    let mut enc = flate2::read::ZlibEncoder::new(data, flate2::Compression::default());
    enc.read_to_end(&mut out).unwrap();
    out
}

#[test]
fn changegroup_01_is_zlib() {
    let body = zlib_compress(b"payload");
    let ct = b"application/mercurial-0.1".to_vec();
    match decode_changegroup_response(Some(&ct), &body) {
        Ok(CgResponse::Data(d)) => assert_eq!(d, b"payload".to_vec()),
        other => panic!("unexpected: {:?}", other),
    }
}

#[test]
fn changegroup_02_zstd_frame() {
    let stream = zstd::stream::encode_all(&b"hello"[..], 0).unwrap();
    let mut body = vec![4u8];
    body.extend_from_slice(b"zstd");
    body.extend_from_slice(&stream);
    let ct = b"application/mercurial-0.2".to_vec();
    match decode_changegroup_response(Some(&ct), &body) {
        Ok(CgResponse::Data(d)) => assert_eq!(d, b"hello".to_vec()),
        other => panic!("unexpected: {:?}", other),
    }
}

#[test]
fn changegroup_02_none_codec_and_errors() {
    let ct = b"application/mercurial-0.2".to_vec();
    let mut body = vec![4u8];
    body.extend_from_slice(b"none");
    match decode_changegroup_response(Some(&ct), &body) {
        Ok(CgResponse::Data(d)) => assert!(d.is_empty()),
        other => panic!("unexpected: {:?}", other),
    }
    // A zero-length codec name is not a known codec.
    let body = vec![0u8, b'x'];
    assert!(matches!(
        decode_changegroup_response(Some(&ct), &body),
        Err(WireError::UnknownCompression(name)) if name.is_empty()
    ));
    let body = vec![9u8, b'x'];
    assert!(matches!(
        decode_changegroup_response(Some(&ct), &body),
        Err(WireError::ParseError)
    ));
    let mut body = vec![2u8];
    body.extend_from_slice(b"xzfoo");
    assert!(matches!(
        decode_changegroup_response(Some(&ct), &body),
        Err(WireError::UnknownCompression(name)) if name == b"xz".to_vec()
    ));
    assert!(matches!(
        decode_changegroup_response(Some(&ct), b""),
        Err(WireError::ParseError)
    ));
    assert!(matches!(
        decode_changegroup_response(Some(&b"text/html".to_vec()), b"x"),
        Err(WireError::UnknownContentType)
    ));
    assert!(matches!(
        decode_changegroup_response(None, b"x"),
        Err(WireError::UnknownContentType)
    ));
}

#[test]
fn corrupt_zlib_stream_is_rejected() {
    let ct = b"application/mercurial-0.1".to_vec();
    assert!(matches!(
        decode_changegroup_response(Some(&ct), b"this is not zlib"),
        Err(WireError::CorruptPayload)
    ));
    let ct2 = b"application/mercurial-0.2".to_vec();
    let mut body = vec![4u8];
    body.extend_from_slice(b"zstdgarbage");
    assert!(matches!(
        decode_changegroup_response(Some(&ct2), &body),
        Err(WireError::CorruptPayload)
    ));
}

#[test]
fn changegroup_hg_error_relays_body() {
    let ct = b"application/hg-error".to_vec();
    match decode_changegroup_response(Some(&ct), b"you broke it\n") {
        Ok(CgResponse::RemoteError(e)) => {
            assert_eq!(e, b"you broke it\n".to_vec());
            assert_eq!(prefix_remote(&e), b"remote: you broke it\n".to_vec());
        },
        other => panic!("unexpected: {:?}", other),
    }
}

#[test]
fn push_response_split_and_bundle() {
    match decode_push_response(b"abc\ndef\n") {
        Ok(PushResponse::Output { out, err }) => {
            assert_eq!(out, b"abc".to_vec());
            assert_eq!(err, b"def\n".to_vec());
            assert_eq!(prefix_remote(&err), b"remote: def\n".to_vec());
        },
        other => panic!("unexpected: {:?}", other),
    }
    match decode_push_response(b"HG20rest-of-bundle") {
        Ok(PushResponse::Bundle(b)) => assert_eq!(b, b"HG20rest-of-bundle".to_vec()),
        other => panic!("unexpected: {:?}", other),
    }
    assert!(matches!(decode_push_response(b"no newline"), Err(WireError::BadOutput)));
}

#[test]
fn capabilities_probe_detects_bundle() {
    match classify_capabilities_response(b"HG20\0\0bundle-data") {
        ConnectKind::Bundle(b) => assert_eq!(b, b"HG20\0\0bundle-data".to_vec()),
        other => panic!("unexpected: {:?}", other),
    }
    match classify_capabilities_response(b"HG10gzbundle") {
        ConnectKind::Bundle(b) => assert_eq!(b, b"HG10gzbundle".to_vec()),
        other => panic!("unexpected: {:?}", other),
    }
    match classify_capabilities_response(b"lookup unbundle=HG10GZ,HG10BZ") {
        ConnectKind::Repo(caps) => {
            assert_eq!(
                caps.get_capability(b"unbundle").map(|v| v.clone()),
                Some(b"HG10GZ,HG10BZ".to_vec())
            );
        },
        other => panic!("unexpected: {:?}", other),
    }
}

#[test]
fn zero_byte_bodies() {
    // An empty probe body is not a bundle: it parses as an empty capability list.
    match classify_capabilities_response(b"") {
        ConnectKind::Repo(caps) => assert!(caps.get_capability(b"anything").is_none()),
        other => panic!("unexpected: {:?}", other),
    }
    // An empty push body has no stdout/stderr split.
    assert!(matches!(decode_push_response(b""), Err(WireError::BadOutput)));
    assert_eq!(prefix_remote(b""), b"".to_vec());
}

#[test]
fn reauth_exactly_once() {
    assert_eq!(reauth_decision(AttemptOutcome::Success, false), RetryAction::Done);
    assert_eq!(
        reauth_decision(AttemptOutcome::AuthenticationRequired, false),
        RetryAction::RefillAndRetry
    );
    assert_eq!(reauth_decision(AttemptOutcome::AuthenticationRequired, true), RetryAction::Abort);
    assert_eq!(reauth_decision(AttemptOutcome::TransportFailure, false), RetryAction::Abort);
}

#[test]
fn authorship_conversion() {
    let p = cinnabar::authorship::authorship_to_hg(b"Alice <a@x> 1234567890 +0130").unwrap();
    assert_eq!(p.0, b"Alice <a@x>".to_vec());
    assert_eq!(p.1, b"1234567890".to_vec());
    assert_eq!(p.2, b"-5400".to_vec());
    let p = cinnabar::authorship::authorship_to_hg(b"Bob <b@y> 99 -0700").unwrap();
    assert_eq!(p.2, b"25200".to_vec());
    assert!(cinnabar::authorship::authorship_to_hg(b"nosep").is_none());
}

#[test]
fn decimal_codec() {
    assert_eq!(cinnabar::numbers::format_dec(0), b"0".to_vec());
    assert_eq!(cinnabar::numbers::format_dec(1234), b"1234".to_vec());
    assert_eq!(cinnabar::numbers::parse_dec(b"1234"), Some(1234));
    assert_eq!(cinnabar::numbers::parse_dec(b"007"), Some(7));
    assert!(cinnabar::numbers::parse_dec(b"").is_none());
    assert!(cinnabar::numbers::parse_dec(b"12a").is_none());
    assert!(cinnabar::numbers::parse_dec(b"99999999999999999999999").is_none());
}
