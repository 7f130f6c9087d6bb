use s3_migrate::bucket::{after_create, CreateBucketError, CreationFailure, CreationStep};
use s3_migrate::config::{parse_region, ConfigError, Region};
use s3_migrate::diff::{contains_key, pending, ObjectDescriptor};
use s3_migrate::manifest::{build_manifest, CompletedPart, ManifestError};
use s3_migrate::parts::{Part, PartCutter, CHUNK_SIZE};
use s3_migrate::strategy::{select, Strategy, CHUNK_THRESHOLD};

const MIB: u64 = 1024 * 1024;

fn obj(key: &str, size: u64) -> ObjectDescriptor {
    ObjectDescriptor { key: key.to_string(), size }
}

fn keys(v: &[&str]) -> Vec<String> {
    v.iter().map(|k| k.to_string()).collect()
}

fn pending_keys(r: &[ObjectDescriptor]) -> Vec<String> {
    r.iter().map(|o| o.key.clone()).collect()
}

fn done(n: u64, tag: &str) -> CompletedPart {
    CompletedPart { number: n, tag: tag.to_string() }
}

fn cut_all(cutter: &mut PartCutter, data: &[u8], piece: usize) -> Vec<Part> {
    let mut parts = Vec::new();
    for chunk in data.chunks(piece) {
        parts.extend(cutter.push(chunk));
    }
    if let Some(last) = cutter.flush() {
        parts.push(last);
    }
    parts
}

#[test]
fn pending_is_source_minus_destination() {
    let src = vec![obj("a", 1), obj("b", 2), obj("c", 3), obj("d", 4)];
    let dst = keys(&["b", "d", "z"]);
    let r = pending(&src, &dst);
    assert_eq!(pending_keys(&r), keys(&["a", "c"]));
    assert_eq!(r[0].size, 1);
    assert_eq!(r[1].size, 3);
}

#[test]
fn pending_of_empty_source_is_empty() {
    let r = pending(&vec![], &keys(&["a", "b"]));
    assert!(r.is_empty());
}

#[test]
fn pending_against_empty_destination_is_whole_source() {
    let src = vec![obj("a", 1), obj("b", 2)];
    let r = pending(&src, &vec![]);
    assert_eq!(pending_keys(&r), keys(&["a", "b"]));
}

#[test]
fn pending_compares_keys_exactly() {
    let src = vec![obj("dir/a", 1), obj("dir/ab", 2), obj("Dir/a", 3)];
    let dst = keys(&["dir/a", "dir"]);
    let r = pending(&src, &dst);
    assert_eq!(pending_keys(&r), keys(&["dir/ab", "Dir/a"]));
    assert!(contains_key(&dst, &"dir".to_string()));
    assert!(!contains_key(&dst, &"di".to_string()));
}

#[test]
fn select_boundary() {
    assert_eq!(CHUNK_THRESHOLD, 5 * MIB);
    assert_eq!(select(CHUNK_THRESHOLD - 1), Strategy::Single);
    assert_eq!(select(CHUNK_THRESHOLD), Strategy::Chunked);
    assert_eq!(select(CHUNK_THRESHOLD + 1), Strategy::Chunked);
    assert_eq!(select(0), Strategy::Single);
    assert_eq!(select(u64::MAX), Strategy::Chunked);
}

#[test]
fn cutter_parts_reconstruct_stream() {
    let data: Vec<u8> = (0..23u32).map(|i| i as u8).collect();
    let mut cutter = PartCutter::new(5);
    let parts = cut_all(&mut cutter, &data, 3);
    assert_eq!(parts.len(), 5);
    let numbers: Vec<u64> = parts.iter().map(|p| p.number).collect();
    assert_eq!(numbers, vec![1, 2, 3, 4, 5]);
    let lens: Vec<usize> = parts.iter().map(|p| p.body.len()).collect();
    assert_eq!(lens, vec![5, 5, 5, 5, 3]);
    let joined: Vec<u8> = parts.iter().flat_map(|p| p.body.clone()).collect();
    assert_eq!(joined, data);
    assert_eq!(cutter.consumed_len(), 23);
    assert_eq!(cutter.parts_cut(), 5);
    assert!(cutter.is_finished());
}

#[test]
fn cutter_exact_multiple_gives_full_parts() {
    let data: Vec<u8> = (0..20u32).map(|i| (i * 7) as u8).collect();
    let mut cutter = PartCutter::new(5);
    let parts = cut_all(&mut cutter, &data, 7);
    let lens: Vec<usize> = parts.iter().map(|p| p.body.len()).collect();
    assert_eq!(lens, vec![5, 5, 5, 5]);
    let joined: Vec<u8> = parts.iter().flat_map(|p| p.body.clone()).collect();
    assert_eq!(joined, data);
}

#[test]
fn cutter_large_piece_gives_several_parts() {
    let data = vec![9u8; 12];
    let mut cutter = PartCutter::new(4);
    let parts = cutter.push(&data);
    assert_eq!(parts.len(), 3);
    assert_eq!(parts[2].number, 3);
    assert!(cutter.flush().is_none());
}

#[test]
fn cutter_empty_stream_gives_no_part() {
    let mut cutter = PartCutter::new(CHUNK_SIZE);
    assert!(cutter.push(&[]).is_empty());
    assert!(cutter.flush().is_none());
    assert_eq!(cutter.parts_cut(), 0);
}

#[test]
fn manifest_ignores_completion_order() {
    let a = vec![done(3, "t3"), done(1, "t1"), done(2, "t2")];
    let b = vec![done(2, "t2"), done(3, "t3"), done(1, "t1")];
    let ma = build_manifest(&a).unwrap();
    let mb = build_manifest(&b).unwrap();
    let va: Vec<(u64, String)> = ma.iter().map(|p| (p.number, p.tag.clone())).collect();
    let vb: Vec<(u64, String)> = mb.iter().map(|p| (p.number, p.tag.clone())).collect();
    assert_eq!(va, vec![(1, "t1".to_string()), (2, "t2".to_string()), (3, "t3".to_string())]);
    assert_eq!(va, vb);
}

#[test]
fn manifest_of_no_parts_is_empty() {
    assert!(build_manifest(&vec![]).unwrap().is_empty());
}

#[test]
fn manifest_rejects_number_out_of_range() {
    assert_eq!(build_manifest(&vec![done(1, "a"), done(3, "c")]).err(), Some(ManifestError::OutOfRange(3)));
    assert_eq!(build_manifest(&vec![done(0, "z")]).err(), Some(ManifestError::OutOfRange(0)));
}

#[test]
fn manifest_rejects_duplicate_number() {
    assert_eq!(build_manifest(&vec![done(2, "a"), done(2, "b")]).err(), Some(ManifestError::Duplicate(2)));
}

#[test]
fn scenario_migrate_bucket_a() {
    let src = vec![obj("x", 3 * MIB), obj("y", 7 * MIB)];
    let dst = keys(&["x"]);
    let todo = pending(&src, &dst);
    assert_eq!(pending_keys(&todo), keys(&["y"]));
    assert_eq!(select(todo[0].size), Strategy::Chunked);

    let body: Vec<u8> = (0..7 * MIB).map(|i| (i % 251) as u8).collect();
    let mut cutter = PartCutter::new(CHUNK_SIZE);
    let parts = cut_all(&mut cutter, &body, 64 * 1024);
    assert_eq!(parts.len(), 2);
    assert_eq!(parts[0].number, 1);
    assert_eq!(parts[0].body.len() as u64, 5 * MIB);
    assert_eq!(parts[1].number, 2);
    assert_eq!(parts[1].body.len() as u64, 2 * MIB);

    let finished = vec![done(2, "tag2"), done(1, "tag1")];
    let m = build_manifest(&finished).unwrap();
    let v: Vec<(u64, String)> = m.iter().map(|p| (p.number, p.tag.clone())).collect();
    assert_eq!(v, vec![(1, "tag1".to_string()), (2, "tag2".to_string())]);
}

#[test]
fn creation_success_and_owned_are_ready() {
    let name = "photos".to_string();
    let suffix = Some("-new".to_string());
    match after_create(&name, &suffix, Ok(())) {
        CreationStep::Ready(n) => assert_eq!(n, "photos"),
        _ => panic!("expected ready"),
    }
    match after_create(&name, &suffix, Err(CreateBucketError::AlreadyOwnedByCaller)) {
        CreationStep::Ready(n) => assert_eq!(n, "photos"),
        _ => panic!("expected ready"),
    }
}

#[test]
fn creation_twice_for_owned_name_is_not_an_error() {
    let name = "logs".to_string();
    // the first request creates the bucket, the second finds it owned
    let first = after_create(&name, &None, Ok(()));
    let second = after_create(&name, &None, Err(CreateBucketError::AlreadyOwnedByCaller));
    assert!(matches!(first, CreationStep::Ready(ref n) if n == "logs"));
    assert!(matches!(second, CreationStep::Ready(ref n) if n == "logs"));
}

#[test]
fn creation_taken_name_gets_suffix() {
    let name = "data".to_string();
    match after_create(&name, &Some("-2".to_string()), Err(CreateBucketError::AlreadyExists)) {
        CreationStep::CreateRenamed(n) => assert_eq!(n, "data-2"),
        _ => panic!("expected rename"),
    }
    assert!(matches!(
        after_create(&name, &None, Err(CreateBucketError::AlreadyExists)),
        CreationStep::Failed(CreationFailure::MissingSuffix)
    ));
}

#[test]
fn creation_other_failure_is_fatal() {
    let name = "data".to_string();
    assert!(matches!(
        after_create(&name, &Some("-2".to_string()), Err(CreateBucketError::Other)),
        CreationStep::Failed(CreationFailure::Unexpected)
    ));
}

#[test]
fn region_names_round_trip() {
    for r in [Region::UsEast1, Region::ApNortheast1, Region::ApNortheast3] {
        assert_eq!(parse_region(r.name()), Ok(r));
    }
    assert_eq!(parse_region("ap-northeast-1"), Ok(Region::ApNortheast1));
    assert_eq!(Region::ApNortheast3.name(), "ap-northeast-3");
}

#[test]
fn region_unknown_is_config_error() {
    assert_eq!(parse_region("eu-west-1"), Err(ConfigError::UnknownRegion));
    assert_eq!(parse_region(""), Err(ConfigError::UnknownRegion));
    assert_eq!(parse_region("us-east-1 "), Err(ConfigError::UnknownRegion));
}
