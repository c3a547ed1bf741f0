use vstd::prelude::*;
use vstd::string::StringExecFns;

verus! {

/// The snapshot manifest format this runtime writes.
pub const SNAPSHOT_FORMAT_VERSION: u32 = 1;

/// FNV-1a 64-bit offset basis.
pub const FNV_OFFSET_BASIS: u64 = 0xcbf2_9ce4_8422_2325;

/// FNV-1a 64-bit prime.
pub const FNV_PRIME: u64 = 0x0000_0100_0000_01b3;

/// A snapshot manifest: format version, machine profile, optional parent snapshot,
/// creator, and the content chunks.
#[derive(Clone, Debug, PartialEq, Eq)]
pub struct SnapshotManifest {
    pub format_version: u32,
    pub machine_profile: String,
    pub parent: Option<String>,
    pub created_by: String,
    pub chunks: Vec<ChunkRef>,
}

/// A content-addressed chunk: its kind, content hash and size.
#[derive(Clone, Debug, PartialEq, Eq)]
pub struct ChunkRef {
    pub kind: ChunkKind,
    pub hash: String,
    pub size_bytes: u64,
}

#[derive(Clone, Copy, Debug, PartialEq, Eq, Structural)]
pub enum ChunkKind {
    Cpu,
    MemoryPage,
    Device,
    StorageOverlay,
    Scheduler,
}

/// FNV-1a over `bytes`: from the offset basis, each byte is xored in and the hash
/// multiplied by the FNV prime modulo `2^64`.
pub open spec fn fnv1a64(bytes: Seq<u8>) -> u64
    decreases bytes.len(),
{
    if bytes.len() == 0 {
        FNV_OFFSET_BASIS
    } else {
        (((fnv1a64(bytes.drop_last()) ^ (bytes.last() as u64)) as nat * FNV_PRIME as nat)
            % 0x1_0000_0000_0000_0000) as u64
    }
}

/// The lower-case hexadecimal digit of `n` (`0 <= n < 16`).
pub open spec fn hex_char(n: u64) -> char {
    if n < 10 {
        (48 + n) as char
    } else {
        (87 + n) as char
    }
}

/// Hex digit `i` of `h`, counted from the most significant.
pub open spec fn nibble(h: u64, i: int) -> u64 {
    (h >> (4 * (15 - i)) as u64) & 0xf
}

/// The sixteen lower-case hexadecimal digits of `h`, most significant first.
pub open spec fn hex16(h: u64) -> Seq<char> {
    Seq::new(16, |i: int| hex_char(nibble(h, i)))
}

/// The text of a content hash: `fnv1a64:` and the sixteen hex digits of the FNV-1a hash.
pub open spec fn content_hash_text(bytes: Seq<u8>) -> Seq<char> {
    "fnv1a64:"@ + hex16(fnv1a64(bytes))
}

/// The FNV-1a 64-bit hash of `bytes`.
pub fn fnv1a64_hash(bytes: &[u8]) -> (r: u64)
    ensures
        r == fnv1a64(bytes@),
{
    let mut hash: u64 = FNV_OFFSET_BASIS;
    let mut i: usize = 0;
    while i < bytes.len()
        invariant
            i <= bytes@.len(),
            hash == fnv1a64(bytes@.take(i as int)),
        decreases bytes@.len() - i,
    {
        assert(bytes@.take(i as int + 1).drop_last() =~= bytes@.take(i as int));
        hash = hash ^ (bytes[i] as u64);
        hash = hash.wrapping_mul(FNV_PRIME);
        i += 1;
    }
    assert(bytes@.take(bytes@.len() as int) =~= bytes@);
    hash
}

fn hex_digit(n: u64) -> (r: &'static str)
    requires
        n < 16,
    ensures
        r@ == seq![hex_char(n)],
{
    proof {
        reveal_strlit("0");
        reveal_strlit("1");
        reveal_strlit("2");
        reveal_strlit("3");
        reveal_strlit("4");
        reveal_strlit("5");
        reveal_strlit("6");
        reveal_strlit("7");
        reveal_strlit("8");
        reveal_strlit("9");
        reveal_strlit("a");
        reveal_strlit("b");
        reveal_strlit("c");
        reveal_strlit("d");
        reveal_strlit("e");
        reveal_strlit("f");
    }
    let r = match n {
        0 => "0",
        1 => "1",
        2 => "2",
        3 => "3",
        4 => "4",
        5 => "5",
        6 => "6",
        7 => "7",
        8 => "8",
        9 => "9",
        10 => "a",
        11 => "b",
        12 => "c",
        13 => "d",
        14 => "e",
        _ => "f",
    };
    assert(r@ =~= seq![hex_char(n)]);
    r
}

/// The content hash of `bytes` as text: `fnv1a64:` and sixteen lower-case hex digits.
pub fn content_hash_hex(bytes: &[u8]) -> (r: String)
    ensures
        r@ == content_hash_text(bytes@),
        r@.len() == 24,
{
    let hash = fnv1a64_hash(bytes);
    let mut text = "fnv1a64:".to_owned();
    proof {
        reveal_strlit("fnv1a64:");
    }
    let ghost prefix = text@;
    let mut i: u64 = 0;
    while i < 16
        invariant
            i <= 16,
            prefix == "fnv1a64:"@,
            text@ == prefix + hex16(hash).take(i as int),
        decreases 16 - i,
    {
        let shift: u64 = 4 * (15 - i);
        proof {
            assert((hash >> shift) & 0xfu64 < 16) by (bit_vector);
        }
        let digit = hex_digit((hash >> shift) & 0xf);
        text.append(digit);
        i += 1;
        assert(text@ =~= prefix + hex16(hash).take(i as int));
    }
    assert(hex16(hash).take(16) =~= hex16(hash));
    text
}

proof fn lemma_hex_char_injective(n1: u64, n2: u64)
    requires
        n1 < 16,
        n2 < 16,
        hex_char(n1) == hex_char(n2),
    ensures
        n1 == n2,
{
    assert(hex_char(n1) as int == hex_char(n2) as int);
}

/// A content hash text names one hash: two contents have the same text exactly when
/// their FNV-1a hashes are equal, and equal contents always do.
pub proof fn lemma_content_hash_text_names_hash(a: Seq<u8>, b: Seq<u8>)
    ensures
        content_hash_text(a) == content_hash_text(b) <==> fnv1a64(a) == fnv1a64(b),
        a == b ==> content_hash_text(a) == content_hash_text(b),
{
    let h1 = fnv1a64(a);
    let h2 = fnv1a64(b);
    if content_hash_text(a) == content_hash_text(b) {
        let p = "fnv1a64:"@;
        assert(hex16(h1) =~= content_hash_text(a).subrange(p.len() as int, p.len() as int + 16));
        assert(hex16(h2) =~= content_hash_text(b).subrange(p.len() as int, p.len() as int + 16));
        assert forall|i: int| 0 <= i < 16 implies #[trigger] nibble(h1, i) == nibble(h2, i) by {
            let s = (4 * (15 - i)) as u64;
            assert((h1 >> s) & 0xfu64 < 16 && (h2 >> s) & 0xfu64 < 16) by (bit_vector);
            assert(hex16(h1)[i] == hex16(h2)[i]);
            lemma_hex_char_injective((h1 >> s) & 0xf, (h2 >> s) & 0xf);
        }
        lemma_nibbles_determine(h1, h2);
    }
}

proof fn lemma_nibbles_determine(h1: u64, h2: u64)
    requires
        forall|i: int| 0 <= i < 16 ==> #[trigger] nibble(h1, i) == nibble(h2, i),
    ensures
        h1 == h2,
{
    let e = |k: u64| (h1 >> k) & 0xf == (h2 >> k) & 0xf;
    assert(e(60) && e(56) && e(52) && e(48) && e(44) && e(40) && e(36) && e(32)) by {
        assert(nibble(h1, 0) == nibble(h2, 0));
        assert(nibble(h1, 1) == nibble(h2, 1));
        assert(nibble(h1, 2) == nibble(h2, 2));
        assert(nibble(h1, 3) == nibble(h2, 3));
        assert(nibble(h1, 4) == nibble(h2, 4));
        assert(nibble(h1, 5) == nibble(h2, 5));
        assert(nibble(h1, 6) == nibble(h2, 6));
        assert(nibble(h1, 7) == nibble(h2, 7));
    }
    assert(e(28) && e(24) && e(20) && e(16) && e(12) && e(8) && e(4) && e(0)) by {
        assert(nibble(h1, 8) == nibble(h2, 8));
        assert(nibble(h1, 9) == nibble(h2, 9));
        assert(nibble(h1, 10) == nibble(h2, 10));
        assert(nibble(h1, 11) == nibble(h2, 11));
        assert(nibble(h1, 12) == nibble(h2, 12));
        assert(nibble(h1, 13) == nibble(h2, 13));
        assert(nibble(h1, 14) == nibble(h2, 14));
        assert(nibble(h1, 15) == nibble(h2, 15));
    }
    assert(h1 == h2) by (bit_vector)
        requires
            (h1 >> 60u64) & 0xf == (h2 >> 60u64) & 0xf,
            (h1 >> 56u64) & 0xf == (h2 >> 56u64) & 0xf,
            (h1 >> 52u64) & 0xf == (h2 >> 52u64) & 0xf,
            (h1 >> 48u64) & 0xf == (h2 >> 48u64) & 0xf,
            (h1 >> 44u64) & 0xf == (h2 >> 44u64) & 0xf,
            (h1 >> 40u64) & 0xf == (h2 >> 40u64) & 0xf,
            (h1 >> 36u64) & 0xf == (h2 >> 36u64) & 0xf,
            (h1 >> 32u64) & 0xf == (h2 >> 32u64) & 0xf,
            (h1 >> 28u64) & 0xf == (h2 >> 28u64) & 0xf,
            (h1 >> 24u64) & 0xf == (h2 >> 24u64) & 0xf,
            (h1 >> 20u64) & 0xf == (h2 >> 20u64) & 0xf,
            (h1 >> 16u64) & 0xf == (h2 >> 16u64) & 0xf,
            (h1 >> 12u64) & 0xf == (h2 >> 12u64) & 0xf,
            (h1 >> 8u64) & 0xf == (h2 >> 8u64) & 0xf,
            (h1 >> 4u64) & 0xf == (h2 >> 4u64) & 0xf,
            (h1 >> 0u64) & 0xf == (h2 >> 0u64) & 0xf,
    ;
}

impl SnapshotManifest {
    pub fn new(machine_profile: &str, created_by: &str) -> (r: SnapshotManifest)
        ensures
            r.format_version == SNAPSHOT_FORMAT_VERSION,
            r.machine_profile@ == machine_profile@,
            r.parent is None,
            r.created_by@ == created_by@,
            r.chunks@.len() == 0,
    {
        SnapshotManifest {
            format_version: SNAPSHOT_FORMAT_VERSION,
            machine_profile: machine_profile.to_owned(),
            parent: None,
            created_by: created_by.to_owned(),
            chunks: Vec::new(),
        }
    }

    pub fn with_parent(self, parent: &str) -> (r: SnapshotManifest)
        ensures
            r.format_version == self.format_version,
            r.machine_profile == self.machine_profile,
            r.parent matches Some(p) && p@ == parent@,
            r.created_by == self.created_by,
            r.chunks == self.chunks,
    {
        let mut manifest = self;
        manifest.parent = Some(parent.to_owned());
        manifest
    }

    pub fn add_chunk(&mut self, chunk: ChunkRef)
        ensures
            final(self).chunks@ == old(self).chunks@.push(chunk),
            final(self).format_version == old(self).format_version,
            final(self).machine_profile == old(self).machine_profile,
            final(self).parent == old(self).parent,
            final(self).created_by == old(self).created_by,
    {
        self.chunks.push(chunk);
    }
}

impl ChunkRef {
    pub fn from_bytes(kind: ChunkKind, bytes: &[u8]) -> (r: ChunkRef)
        ensures
            r.kind == kind,
            r.hash@ == content_hash_text(bytes@),
            r.size_bytes == bytes@.len(),
    {
        ChunkRef { kind, hash: content_hash_hex(bytes), size_bytes: bytes.len() as u64 }
    }
}

} // verus!
