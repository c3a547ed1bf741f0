use bxr::snapshot::{content_hash_hex, ChunkKind, ChunkRef, SnapshotManifest, SNAPSHOT_FORMAT_VERSION};

#[test]
fn manifest_defaults_to_current_version() {
    let manifest = SnapshotManifest::new("bxr-minimal-x64-v1", "test");
    assert_eq!(manifest.format_version, SNAPSHOT_FORMAT_VERSION);
    assert_eq!(manifest.machine_profile, "bxr-minimal-x64-v1");
}

#[test]
fn chunk_hashes_are_content_addressed() {
    let first = ChunkRef::from_bytes(ChunkKind::Cpu, b"cpu-state");
    let second = ChunkRef::from_bytes(ChunkKind::Cpu, b"cpu-state");
    let changed = ChunkRef::from_bytes(ChunkKind::Cpu, b"cpu-state!");

    assert_eq!(first.hash, second.hash);
    assert_ne!(first.hash, changed.hash);
    assert_eq!(first.size_bytes, 9);
    assert!(first.hash.starts_with("fnv1a64:"));
}

#[test]
fn content_hash_matches_fnv1a64_reference_values() {
    assert_eq!(content_hash_hex(b""), "fnv1a64:cbf29ce484222325");
    assert_eq!(content_hash_hex(b"a"), "fnv1a64:af63dc4c8601ec8c");
    assert_eq!(content_hash_hex(b"foobar"), "fnv1a64:85944171f73967e8");
}

#[test]
fn manifest_keeps_parent_and_chunks_in_order() {
    let mut manifest = SnapshotManifest::new("p", "me").with_parent("snap-1");
    manifest.add_chunk(ChunkRef::from_bytes(ChunkKind::Device, b"d"));
    manifest.add_chunk(ChunkRef::from_bytes(ChunkKind::StorageOverlay, b""));
    assert_eq!(manifest.parent.as_deref(), Some("snap-1"));
    assert_eq!(manifest.created_by, "me");
    assert_eq!(manifest.chunks.len(), 2);
    assert_eq!(manifest.chunks[0].kind, ChunkKind::Device);
    assert_eq!(manifest.chunks[1].size_bytes, 0);
}
