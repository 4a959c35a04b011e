//! Tests of the codecs: extras, metadata, changesets, patches, the
//! reconstructor and the head set.

use cinnabar::changeset::RawHgChangeset;
use cinnabar::extra::ChangesetExtra;
use cinnabar::heads::{branch_or_default, ChangesetHeads};
use cinnabar::metadata::{GitChangesetMetadata, RawGitChangesetMetadata};
use cinnabar::oid::{GitObjectId, HgObjectId};
use cinnabar::patch::{apply_patch, textdiff, GitChangesetPatch, PatchInfo};
use cinnabar::prepare::{checkpoint_commit_bytes, prepare_changeset_commit};
use cinnabar::reconstruct::{hash_with_parents, Commit, GeneratedGitChangesetMetadata};
use cinnabar::store::{CommitStore, Git2HgMap, RawHgFile};

fn oid(hex: &str) -> HgObjectId {
    HgObjectId::from_bytes(hex.as_bytes()).unwrap()
}

#[test]
fn test_changeset_extra() {
    let mut extra = ChangesetExtra::new();
    extra.set(b"foo", b"bar");
    extra.set(b"bar", b"qux");
    let mut result = Vec::new();
    extra.dump_into(&mut result);
    assert_eq!(result, b"bar:qux\0foo:bar".to_vec());

    let mut extra = ChangesetExtra::from(&result);
    let mut result2 = Vec::new();
    extra.dump_into(&mut result2);
    assert_eq!(result, result2);

    extra.set(b"aaaa", b"bbbb");
    result2.truncate(0);
    extra.dump_into(&mut result2);
    assert_eq!(result2, b"aaaa:bbbb\0bar:qux\0foo:bar".to_vec());
}

#[test]
fn extra_get_returns_bound_value() {
    let mut extra = ChangesetExtra::new();
    extra.set(b"branch", b"stable");
    assert_eq!(extra.get(b"branch").map(|v| v.clone()), Some(b"stable".to_vec()));
    assert!(extra.get(b"missing").is_none());
    extra.set(b"branch", b"default");
    assert_eq!(extra.get(b"branch").map(|v| v.clone()), Some(b"default".to_vec()));
}

#[test]
fn oid_hex_round_trip() {
    let h = "0123456789abcdef0123456789abcdef01234567";
    let id = oid(h);
    assert_eq!(id.to_hex(), h.as_bytes().to_vec());
    assert!(HgObjectId::from_bytes(b"xyz").is_none());
    assert!(HgObjectId::from_bytes(b"0123456789ABCDEF0123456789ABCDEF01234567").is_none());
    assert_eq!(HgObjectId::null().to_hex(), vec![b'0'; 40]);
}

#[test]
fn metadata_round_trip() {
    let m = GitChangesetMetadata {
        changeset_id: oid("aaaaaaaaaaaaaaaaaaaaaaaaaaaaaaaaaaaaaaaa"),
        manifest_id: oid("bbbbbbbbbbbbbbbbbbbbbbbbbbbbbbbbbbbbbbbb"),
        author: Some(b"Alice <a@x>".to_vec()),
        extra: Some(b"branch:stable".to_vec()),
        files: Some(b"a\0b".to_vec()),
        patch: Some(b"0,2,xy".to_vec()),
    };
    let blob = m.serialize();
    let parsed = RawGitChangesetMetadata(blob).parse().unwrap();
    assert_eq!(parsed.changeset_id(), &m.changeset_id);
    assert_eq!(parsed.manifest_id(), &m.manifest_id);
    assert_eq!(parsed.author, m.author);
    assert_eq!(parsed.extra, m.extra);
    assert_eq!(parsed.files, m.files);
    assert_eq!(parsed.patch, m.patch);
}

#[test]
fn metadata_minimal_and_null_manifest() {
    let m = GitChangesetMetadata {
        changeset_id: oid("aaaaaaaaaaaaaaaaaaaaaaaaaaaaaaaaaaaaaaaa"),
        manifest_id: HgObjectId::null(),
        author: None,
        extra: None,
        files: None,
        patch: None,
    };
    let blob = m.serialize();
    assert_eq!(blob, b"changeset aaaaaaaaaaaaaaaaaaaaaaaaaaaaaaaaaaaaaaaa".to_vec());
    let parsed = RawGitChangesetMetadata(blob).parse().unwrap();
    assert_eq!(parsed.manifest_id(), &HgObjectId::null());
    assert!(parsed.author.is_none());
}

#[test]
fn metadata_rejects_unknown_key() {
    let blob = b"changeset aaaaaaaaaaaaaaaaaaaaaaaaaaaaaaaaaaaaaaaa\nbogus v".to_vec();
    assert!(RawGitChangesetMetadata(blob).parse().is_none());
    let blob = b"nochangesetline v".to_vec();
    assert!(RawGitChangesetMetadata(blob).parse().is_none());
}

#[test]
fn metadata_files_accessor() {
    let m = GitChangesetMetadata {
        changeset_id: oid("aaaaaaaaaaaaaaaaaaaaaaaaaaaaaaaaaaaaaaaa"),
        manifest_id: HgObjectId::null(),
        author: None,
        extra: None,
        files: Some(b"x\0y\0z".to_vec()),
        patch: None,
    };
    let files = m.files();
    assert_eq!(files, vec![b"x".to_vec(), b"y".to_vec(), b"z".to_vec()]);
    let m2 = GitChangesetMetadata { files: None, ..m };
    assert!(m2.files().is_empty());
}

#[test]
fn changeset_round_trip() {
    let raw = RawHgChangeset(
        b"cccccccccccccccccccccccccccccccccccccccc\nAlice <a@x>\n1234 0 branch:stable\nf1\nf2\n\nhello\nworld"
            .to_vec(),
    );
    let h = raw.parse().unwrap();
    assert_eq!(h.manifest(), &oid("cccccccccccccccccccccccccccccccccccccccc"));
    assert_eq!(h.author(), &b"Alice <a@x>".to_vec());
    assert_eq!(h.timestamp(), &b"1234".to_vec());
    assert_eq!(h.utcoffset(), &b"0".to_vec());
    assert_eq!(h.extra, Some(b"branch:stable".to_vec()));
    assert_eq!(h.files(), vec![b"f1".to_vec(), b"f2".to_vec()]);
    assert_eq!(h.body(), &b"hello\nworld".to_vec());
    let back = h.serialize();
    assert_eq!(back.0, raw.0);
}

#[test]
fn changeset_without_extra_or_files() {
    let raw = RawHgChangeset(
        b"cccccccccccccccccccccccccccccccccccccccc\nAlice <a@x>\n1234 0\n\nbody".to_vec(),
    );
    let h = raw.parse().unwrap();
    assert!(h.extra.is_none());
    assert!(h.files.is_none());
    assert_eq!(h.serialize().0, raw.0);
    assert!(RawHgChangeset(b"no blank line".to_vec()).parse().is_none());
}

#[test]
fn patch_apply_tracks_original_offsets() {
    // Replacements refer to the original text, not the patched one.
    let ps = vec![
        PatchInfo { start: 0, end: 1, data: b"XX".to_vec() },
        PatchInfo { start: 3, end: 5, data: b"Y".to_vec() },
    ];
    let out = apply_patch(&ps, b"abcdef").unwrap();
    assert_eq!(out, b"XXbcYf".to_vec());
    // Out-of-order entries are rejected.
    let bad = vec![
        PatchInfo { start: 3, end: 5, data: b"Y".to_vec() },
        PatchInfo { start: 0, end: 1, data: b"X".to_vec() },
    ];
    assert!(apply_patch(&bad, b"abcdef").is_none());
}

#[test]
fn textdiff_applies_back() {
    let t = b"the quick brown fox".to_vec();
    let s = b"the slow brown fox".to_vec();
    let p = textdiff(&t, &s);
    assert_eq!(p.len(), 1);
    assert_eq!(apply_patch(&p, &s).unwrap(), t);
    assert!(textdiff(&t, &t).is_empty());
    let p2 = textdiff(b"", b"xyz");
    assert_eq!(apply_patch(&p2, b"xyz").unwrap(), b"".to_vec());
}

#[test]
fn patch_text_round_trip() {
    let ps = vec![
        PatchInfo { start: 2, end: 4, data: b"a b\0c".to_vec() },
        PatchInfo { start: 7, end: 7, data: b"".to_vec() },
    ];
    let text = GitChangesetPatch::from_patch_info(&ps);
    assert_eq!(text, b"2,4,a%20b%00c\x007,7,".to_vec());
    let back = GitChangesetPatch(text).iter().unwrap();
    assert_eq!(back.len(), 2);
    assert_eq!(back[0].start, 2);
    assert_eq!(back[0].end, 4);
    assert_eq!(back[0].data, b"a b\0c".to_vec());
    assert_eq!(back[1].start, 7);
    assert_eq!(back[1].data, b"".to_vec());
    assert!(GitChangesetPatch(b"nocommas".to_vec()).iter().is_none());
}

#[test]
fn percent_escaping_through_patch_text() {
    let ps = vec![PatchInfo { start: 0, end: 0, data: b"a b/c\x00d".to_vec() }];
    let text = GitChangesetPatch::from_patch_info(&ps);
    assert_eq!(text, b"0,0,a%20b%2Fc%00d".to_vec());
    let back = GitChangesetPatch(text).iter().unwrap();
    assert_eq!(back[0].data, b"a b/c\x00d".to_vec());
    // A stray escape passes through decoding unchanged.
    let odd = GitChangesetPatch(b"0,0,100%".to_vec()).iter().unwrap();
    assert_eq!(odd[0].data, b"100%".to_vec());
}

fn trivial_commit() -> Commit {
    Commit {
        author: b"Alice <a@x> 1234 +0000".to_vec(),
        committer: b"Alice <a@x> 1234 +0000".to_vec(),
        body: b"message".to_vec(),
        parents: Vec::new(),
    }
}

fn trivial_raw() -> RawHgChangeset {
    RawHgChangeset(
        b"cccccccccccccccccccccccccccccccccccccccc\nAlice <a@x>\n1234 0\nfile.txt\n\nmessage"
            .to_vec(),
    )
}

#[test]
fn generate_then_reconstruct() {
    let commit = trivial_commit();
    let raw = trivial_raw();
    let id = hash_with_parents(&Vec::new(), &raw.0);
    let meta = GeneratedGitChangesetMetadata::generate(&commit, &id, &raw).unwrap();
    assert!(meta.patch.is_none());
    assert_eq!(meta.manifest_id(), &oid("cccccccccccccccccccccccccccccccccccccccc"));
    let back = RawHgChangeset::from_metadata(&commit, &meta, &Vec::new()).unwrap();
    assert_eq!(back.0, raw.0);
}

#[test]
fn generate_with_patch_reconstructs() {
    // A changeset whose extras are not in ascending key order: the
    // candidate re-emits them sorted, so it differs from the original and a
    // correction patch is recorded and reapplied.
    let commit = trivial_commit();
    let raw = RawHgChangeset(
        b"cccccccccccccccccccccccccccccccccccccccc\nAlice <a@x>\n1234 0 foo:bar\x00bar:qux\n\nmessage"
            .to_vec(),
    );
    let id = hash_with_parents(&Vec::new(), &raw.0);
    let meta = GeneratedGitChangesetMetadata::generate(&commit, &id, &raw).unwrap();
    assert!(meta.patch.is_some());
    let back = RawHgChangeset::from_metadata(&commit, &meta, &Vec::new()).unwrap();
    assert_eq!(back.0, raw.0);
}

#[test]
fn null_truncation_stops_at_matching_hash() {
    let commit = trivial_commit();
    let raw = trivial_raw();
    let id = hash_with_parents(&Vec::new(), &raw.0);
    let base = GeneratedGitChangesetMetadata::generate(&commit, &id, &raw).unwrap();
    // Target the true text with two trailing null bytes appended.
    let mut target = raw.0.clone();
    target.push(0);
    target.push(0);
    let diff = textdiff(&target, &raw.0);
    let meta = GitChangesetMetadata {
        changeset_id: hash_with_parents(&Vec::new(), &target),
        patch: Some(GitChangesetPatch::from_patch_info(&diff)),
        author: base.author,
        extra: base.extra,
        files: base.files,
        manifest_id: base.manifest_id,
    };
    let back = RawHgChangeset::from_metadata(&commit, &meta, &Vec::new()).unwrap();
    assert_eq!(back.0, target);
}

#[test]
fn null_truncation_pops_unmatched_nulls() {
    let commit = trivial_commit();
    let raw = trivial_raw();
    let id = hash_with_parents(&Vec::new(), &raw.0);
    let base = GeneratedGitChangesetMetadata::generate(&commit, &id, &raw).unwrap();
    let mut target = raw.0.clone();
    target.push(0);
    target.push(0);
    let diff = textdiff(&target, &raw.0);
    // The recorded id is the hash of the text without the nulls: both
    // trailing nulls are popped.
    let meta = GitChangesetMetadata {
        changeset_id: id,
        patch: Some(GitChangesetPatch::from_patch_info(&diff)),
        author: base.author,
        extra: base.extra,
        files: base.files,
        manifest_id: base.manifest_id,
    };
    let back = RawHgChangeset::from_metadata(&commit, &meta, &Vec::new()).unwrap();
    assert_eq!(back.0, raw.0);
}

#[test]
fn committer_difference_adds_extra() {
    let commit = Commit {
        author: b"Alice <a@x> 1234 +0000".to_vec(),
        committer: b"Bob <b@y> 1300 +0100".to_vec(),
        body: b"msg".to_vec(),
        parents: Vec::new(),
    };
    let raw = RawHgChangeset(
        b"cccccccccccccccccccccccccccccccccccccccc\nAlice <a@x>\n1234 0 committer:Bob <b@y> 1300 -3600\n\nmsg"
            .to_vec(),
    );
    let id = hash_with_parents(&Vec::new(), &raw.0);
    let meta = GeneratedGitChangesetMetadata::generate(&commit, &id, &raw).unwrap();
    assert!(meta.patch.is_none());
    let back = RawHgChangeset::from_metadata(&commit, &meta, &Vec::new()).unwrap();
    assert_eq!(back.0, raw.0);
}

#[test]
fn heads_checkpoint_reset_round_trip() {
    let mut heads = ChangesetHeads::new();
    heads.add(&oid("1111111111111111111111111111111111111111"), b"default", &Vec::new());
    heads.add(&oid("2222222222222222222222222222222222222222"), b"stable", &Vec::new());
    let body = heads.checkpoint_body();
    assert_eq!(
        body,
        b"1111111111111111111111111111111111111111 default\n2222222222222222222222222222222222222222 stable"
            .to_vec()
    );
    let reloaded = ChangesetHeads::reset_from_body(&body).unwrap();
    assert_eq!(reloaded.dump(), heads.dump());
    assert_eq!(
        heads.dump(),
        b"1111111111111111111111111111111111111111 default\n2222222222222222222222222222222222222222 stable\n"
            .to_vec()
    );
}

#[test]
fn heads_same_branch_parent_leaves() {
    let p = oid("1111111111111111111111111111111111111111");
    let c = oid("3333333333333333333333333333333333333333");
    let mut heads = ChangesetHeads::new();
    heads.add(&p, b"default", &Vec::new());
    heads.add(&c, b"default", &vec![(p, b"default".to_vec())]);
    assert_eq!(heads.dump(), b"3333333333333333333333333333333333333333 default\n".to_vec());
    let mut heads2 = ChangesetHeads::new();
    heads2.add(&p, b"stable", &Vec::new());
    heads2.add(&c, b"default", &vec![(p, b"stable".to_vec())]);
    assert_eq!(
        heads2.dump(),
        b"1111111111111111111111111111111111111111 stable\n3333333333333333333333333333333333333333 default\n"
            .to_vec()
    );
    heads2.remove(&p);
    assert_eq!(heads2.dump(), b"3333333333333333333333333333333333333333 default\n".to_vec());
}

#[test]
fn reload_deduplicates_repeated_ids() {
    // A body binding the same changeset id twice keeps the later line, at
    // its later position.
    let body = b"1111111111111111111111111111111111111111 default
2222222222222222222222222222222222222222 stable
1111111111111111111111111111111111111111 other"
        .to_vec();
    let heads = ChangesetHeads::reset_from_body(&body).unwrap();
    assert_eq!(
        heads.dump(),
        b"2222222222222222222222222222222222222222 stable
1111111111111111111111111111111111111111 other
"
            .to_vec()
    );
    assert!(ChangesetHeads::reset_from_body(b"not a head line").is_none());
}

#[test]
fn checkpoint_commit_text() {
    let mut heads = ChangesetHeads::new();
    heads.add(&oid("1111111111111111111111111111111111111111"), b"default", &Vec::new());
    let body = heads.checkpoint_body();
    let tree = GitObjectId::from_bytes(b"dddddddddddddddddddddddddddddddddddddddd").unwrap();
    let head_commit = GitObjectId::from_bytes(b"eeeeeeeeeeeeeeeeeeeeeeeeeeeeeeeeeeeeeeee").unwrap();
    let text = checkpoint_commit_bytes(&tree, &vec![head_commit], &body);
    let expected = b"tree dddddddddddddddddddddddddddddddddddddddd
parent eeeeeeeeeeeeeeeeeeeeeeeeeeeeeeeeeeeeeeee
author  <cinnabar@git> 0 +0000
committer  <cinnabar@git> 0 +0000

1111111111111111111111111111111111111111 default"
        .to_vec();
    assert_eq!(text, expected);
    // No heads: no parent lines and no body.
    let empty = checkpoint_commit_bytes(&tree, &Vec::new(), b"");
    assert_eq!(
        empty,
        b"tree dddddddddddddddddddddddddddddddddddddddd
author  <cinnabar@git> 0 +0000
committer  <cinnabar@git> 0 +0000
"
            .to_vec()
    );
}

#[test]
fn branch_defaults_when_absent() {
    let mut extra = ChangesetExtra::new();
    assert_eq!(branch_or_default(None), b"default".to_vec());
    assert_eq!(branch_or_default(Some(&extra)), b"default".to_vec());
    extra.set(b"branch", b"stable");
    assert_eq!(branch_or_default(Some(&extra)), b"stable".to_vec());
}

#[test]
fn insertion_order_drives_dump() {
    let a = oid("1111111111111111111111111111111111111111");
    let b = oid("2222222222222222222222222222222222222222");
    let mut h1 = ChangesetHeads::new();
    h1.add(&a, b"default", &Vec::new());
    h1.add(&b, b"default", &Vec::new());
    let mut h2 = ChangesetHeads::new();
    h2.add(&b, b"default", &Vec::new());
    h2.add(&a, b"default", &Vec::new());
    assert_ne!(h1.dump(), h2.dump());
}

#[test]
fn store_read_paths() {
    let commit = trivial_commit();
    let raw = trivial_raw();
    let id = hash_with_parents(&Vec::new(), &raw.0);
    let meta = GeneratedGitChangesetMetadata::generate(&commit, &id, &raw).unwrap();
    let blob = meta.serialize();
    let gid = GitObjectId { bytes: [7u8; 20] };
    let mut notes = Git2HgMap::new();
    notes.insert(gid, blob);
    let mut commits = CommitStore::new();
    commits.insert(gid, commit);
    assert_eq!(gid.to_hg(&notes), Some(id));
    let back = RawHgChangeset::read(&gid, &commits, &notes).unwrap();
    assert_eq!(back.0, raw.0);
    let other = GitObjectId { bytes: [9u8; 20] };
    assert!(other.to_hg(&notes).is_none());
}

#[test]
fn raw_file_framing() {
    let plain = RawHgFile::read(b"contents", None);
    assert_eq!(plain.0, b"contents".to_vec());
    let framed = RawHgFile::read(b"contents", Some(&b"copy: foo".to_vec()));
    assert_eq!(framed.0, b"\x01\ncopy: foo\x01\ncontents".to_vec());
}

#[test]
fn prepare_commit_text() {
    let raw = RawHgChangeset(
        b"cccccccccccccccccccccccccccccccccccccccc\nAlice <a@x>\n1234 -3600\n\nmsg".to_vec(),
    );
    let h = raw.parse().unwrap();
    let tree = GitObjectId::from_bytes(b"dddddddddddddddddddddddddddddddddddddddd").unwrap();
    let parent = GitObjectId::from_bytes(b"eeeeeeeeeeeeeeeeeeeeeeeeeeeeeeeeeeeeeeee").unwrap();
    let text = prepare_changeset_commit(&h, &tree, &vec![parent]).unwrap();
    let expected = b"tree dddddddddddddddddddddddddddddddddddddddd\n\
parent eeeeeeeeeeeeeeeeeeeeeeeeeeeeeeeeeeeeeeee\n\
author Alice <a@x> 1234 +0100\n\
committer Alice <a@x> 1234 +0100\n\n\
msg"
        .to_vec();
    assert_eq!(text, expected);
}
