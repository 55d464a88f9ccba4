//! A cheap content fingerprint of a card's manifest directory, used to skip
//! reconciliation when nothing changed.
use vstd::prelude::*;
use std::collections::hash_map::DefaultHasher;
use std::hash::Hasher;
use vstd::std_specs::hash::DefaultHasherAdditionalSpecFns;
use vstd::utf8::encode_utf8;

verus! {

/// What the fingerprint reads of one manifest file: its size and last
/// modification time (seconds and nanoseconds since the Unix epoch).
#[derive(Clone, Copy, Debug, PartialEq, Eq, Structural)]
pub struct FileStamp {
    pub len: u64,
    pub modified_secs: u64,
    pub modified_nanos: u32,
}

/// The eight bytes of `x`, least significant first.
pub open spec fn le_bytes64(x: u64) -> Seq<u8> {
    seq![x as u8, (x >> 8) as u8, (x >> 16) as u8, (x >> 24) as u8,
        (x >> 32) as u8, (x >> 40) as u8, (x >> 48) as u8, (x >> 56) as u8]
}

/// The four bytes of `x`, least significant first.
pub open spec fn le_bytes32(x: u32) -> Seq<u8> {
    seq![x as u8, (x >> 8) as u8, (x >> 16) as u8, (x >> 24) as u8]
}

/// The chunks written to the hasher for the mount name.
pub open spec fn mount_chunks(mount: Option<String>) -> Seq<Seq<u8>> {
    match mount {
        None => seq![seq![0u8]],
        Some(s) => seq![seq![1u8], encode_utf8(s@), seq![0xffu8]],
    }
}

/// The chunks written to the hasher for the files.
pub open spec fn file_chunks(files: Seq<FileStamp>) -> Seq<Seq<u8>>
    decreases files.len(),
{
    if files.len() == 0 {
        Seq::empty()
    } else {
        let f = files.last();
        file_chunks(files.drop_last()).push(le_bytes64(f.len)).push(le_bytes64(f.modified_secs)).push(
            le_bytes32(f.modified_nanos),
        )
    }
}

/// Everything the fingerprint hashes, chunk by chunk.
pub open spec fn fingerprint_input(mount: Option<String>, files: Seq<FileStamp>) -> Seq<Seq<u8>> {
    mount_chunks(mount) + file_chunks(files)
}

/// The fingerprint of a mount and the stamps of its manifest files.
pub open spec fn fingerprint_of(mount: Option<String>, files: Seq<FileStamp>) -> u64 {
    DefaultHasher::spec_finish(fingerprint_input(mount, files))
}

fn bytes64(x: u64) -> (r: Vec<u8>)
    ensures
        r@ == le_bytes64(x),
{
    let r = vec![x as u8, (x >> 8) as u8, (x >> 16) as u8, (x >> 24) as u8,
        (x >> 32) as u8, (x >> 40) as u8, (x >> 48) as u8, (x >> 56) as u8];
    assert(r@ == le_bytes64(x));
    r
}

fn bytes32(x: u32) -> (r: Vec<u8>)
    ensures
        r@ == le_bytes32(x),
{
    let r = vec![x as u8, (x >> 8) as u8, (x >> 16) as u8, (x >> 24) as u8];
    assert(r@ == le_bytes32(x));
    r
}

/// Hashes the mount name and, in order, the size and modification time of every
/// manifest file.
pub fn fingerprint(mount: &Option<String>, files: &Vec<FileStamp>) -> (r: u64)
    ensures
        r == fingerprint_of(*mount, files@),
{
    let mut hasher = DefaultHasher::new();
    match mount {
        None => {
            let tag = vec![0u8];
            assert(tag@ =~= seq![0u8]);
            hasher.write(tag.as_slice());
            assert(hasher@ =~= mount_chunks(*mount));
        },
        Some(s) => {
            let tag = vec![1u8];
            assert(tag@ =~= seq![1u8]);
            hasher.write(tag.as_slice());
            let text = s.as_str();
            hasher.write(text.as_bytes());
            let end = vec![0xffu8];
            assert(end@ =~= seq![0xffu8]);
            hasher.write(end.as_slice());
            assert(hasher@ =~= mount_chunks(*mount));
        },
    }
    assert(hasher@ == mount_chunks(*mount));
    let mut i: usize = 0;
    while i < files.len()
        invariant
            i <= files.len(),
            hasher@ == mount_chunks(*mount) + file_chunks(files@.subrange(0, i as int)),
        decreases files.len() - i,
    {
        let f = files[i];
        let a = bytes64(f.len);
        hasher.write(a.as_slice());
        let b = bytes64(f.modified_secs);
        hasher.write(b.as_slice());
        let c = bytes32(f.modified_nanos);
        hasher.write(c.as_slice());
        proof {
            let p = files@.subrange(0, i as int + 1);
            assert(p.drop_last() == files@.subrange(0, i as int));
            assert(p.last() == f);
        }
        i = i + 1;
    }
    assert(files@.subrange(0, files@.len() as int) == files@);
    hasher.finish()
}

proof fn lemma_file_chunks_len(files: Seq<FileStamp>)
    ensures
        file_chunks(files).len() == 3 * files.len(),
    decreases files.len(),
{
    if files.len() > 0 {
        lemma_file_chunks_len(files.drop_last());
    }
}

proof fn lemma_file_chunk_at(files: Seq<FileStamp>, i: int)
    requires
        0 <= i < files.len(),
    ensures
        file_chunks(files)[3 * i + 1] == le_bytes64(files[i].modified_secs),
        file_chunks(files)[3 * i + 2] == le_bytes32(files[i].modified_nanos),
    decreases files.len(),
{
    let p = files.drop_last();
    lemma_file_chunks_len(p);
    if i < p.len() {
        lemma_file_chunk_at(p, i);
        assert(files[i] == p[i]);
    }
}

proof fn lemma_le64_injective(x: u64, y: u64)
    requires
        le_bytes64(x) == le_bytes64(y),
    ensures
        x == y,
{
    assert(le_bytes64(x)[0] == le_bytes64(y)[0]);
    assert(le_bytes64(x)[1] == le_bytes64(y)[1]);
    assert(le_bytes64(x)[2] == le_bytes64(y)[2]);
    assert(le_bytes64(x)[3] == le_bytes64(y)[3]);
    assert(le_bytes64(x)[4] == le_bytes64(y)[4]);
    assert(le_bytes64(x)[5] == le_bytes64(y)[5]);
    assert(le_bytes64(x)[6] == le_bytes64(y)[6]);
    assert(le_bytes64(x)[7] == le_bytes64(y)[7]);
    assert(x == y) by (bit_vector)
        requires
            x as u8 == y as u8,
            (x >> 8) as u8 == (y >> 8) as u8,
            (x >> 16) as u8 == (y >> 16) as u8,
            (x >> 24) as u8 == (y >> 24) as u8,
            (x >> 32) as u8 == (y >> 32) as u8,
            (x >> 40) as u8 == (y >> 40) as u8,
            (x >> 48) as u8 == (y >> 48) as u8,
            (x >> 56) as u8 == (y >> 56) as u8,
    ;
}

proof fn lemma_le32_injective(x: u32, y: u32)
    requires
        le_bytes32(x) == le_bytes32(y),
    ensures
        x == y,
{
    assert(le_bytes32(x)[0] == le_bytes32(y)[0]);
    assert(le_bytes32(x)[1] == le_bytes32(y)[1]);
    assert(le_bytes32(x)[2] == le_bytes32(y)[2]);
    assert(le_bytes32(x)[3] == le_bytes32(y)[3]);
    assert(x == y) by (bit_vector)
        requires
            x as u8 == y as u8,
            (x >> 8) as u8 == (y >> 8) as u8,
            (x >> 16) as u8 == (y >> 16) as u8,
            (x >> 24) as u8 == (y >> 24) as u8,
    ;
}

/// The fingerprint depends on nothing but the mount and the file stamps: computed
/// twice over the same directory state it gives the same value.
pub proof fn law_fingerprint_stable(mount: Option<String>, first: Seq<FileStamp>, second: Seq<FileStamp>)
    requires
        first == second,
    ensures
        fingerprint_of(mount, first) == fingerprint_of(mount, second),
{
}

/// Touching one manifest file (giving it another modification time) changes what
/// the fingerprint hashes.
pub proof fn law_touch_changes_input(
    mount: Option<String>,
    files: Seq<FileStamp>,
    i: int,
    secs: u64,
    nanos: u32,
)
    requires
        0 <= i < files.len(),
        secs != files[i].modified_secs || nanos != files[i].modified_nanos,
    ensures
        fingerprint_input(mount, files.update(i, FileStamp { modified_secs: secs, modified_nanos: nanos, ..files[i] }))
            != fingerprint_input(mount, files),
{
    let touched = files.update(i, FileStamp { modified_secs: secs, modified_nanos: nanos, ..files[i] });
    lemma_file_chunk_at(files, i);
    lemma_file_chunk_at(touched, i);
    lemma_file_chunks_len(files);
    lemma_file_chunks_len(touched);
    let m = mount_chunks(mount);
    let a = fingerprint_input(mount, touched);
    let b = fingerprint_input(mount, files);
    if a == b {
        assert(a[m.len() + 3 * i + 1] == file_chunks(touched)[3 * i + 1]);
        assert(b[m.len() + 3 * i + 1] == file_chunks(files)[3 * i + 1]);
        assert(a[m.len() + 3 * i + 2] == file_chunks(touched)[3 * i + 2]);
        assert(b[m.len() + 3 * i + 2] == file_chunks(files)[3 * i + 2]);
        assert(touched.len() == files.len());
        assert(touched[i] == FileStamp { modified_secs: secs, modified_nanos: nanos, ..files[i] });
        assert(touched[i].len == touched[i].len);
        assert(files[i].len == files[i].len);
        assert(file_chunks(touched)[3 * i + 1] == le_bytes64(secs));
        assert(file_chunks(files)[3 * i + 1] == le_bytes64(files[i].modified_secs));
        assert(file_chunks(touched)[3 * i + 2] == le_bytes32(nanos));
        assert(file_chunks(files)[3 * i + 2] == le_bytes32(files[i].modified_nanos));
        assert(le_bytes64(secs) == le_bytes64(files[i].modified_secs));
        assert(le_bytes32(nanos) == le_bytes32(files[i].modified_nanos));
        lemma_le64_injective(secs, files[i].modified_secs);
        lemma_le32_injective(nanos, files[i].modified_nanos);
    }
}

} // verus!
