//! Content digests, compression and binary deltas.
//!
//! The packer compresses the fallback executable, stores every other variant
//! as a bsdiff-style delta against the fallback, and keys deduplication on
//! SHA-256 content digests. Those three computations come from outside
//! crates; each is wrapped once here, and everything downstream is verified
//! against the wrappers' contracts.

use vstd::prelude::*;

use sha2::{Digest, Sha256};

verus! {

/// A failure while packing variants into a fat-binary image.
#[derive(Clone, Copy, Debug, PartialEq, Eq, Structural)]
pub enum PackError {
    /// Computing a binary delta failed.
    Diff,
    /// Compressing the fallback failed.
    Compress,
}

/// A failure while rebuilding a variant out of a fat-binary image.
#[derive(Clone, Copy, Debug, PartialEq, Eq, Structural)]
pub enum UnpackError {
    /// Decompressing the fallback failed.
    Decompress,
    /// Applying a binary delta failed.
    Patch,
}

/// What `sha2::Sha256::digest` returns for the given bytes.
pub uninterp spec fn sha256_of(data: Seq<u8>) -> Seq<u8>;

/// Relies on `sha2::Sha256::digest`: the digest is a function of the input
/// bytes alone and is 32 bytes long.
#[verifier::external_body]
pub(crate) fn sha256(data: &[u8]) -> (r: Vec<u8>)
    ensures
        r@ == sha256_of(data@),
        r@.len() == 32,
{
    Sha256::digest(data).to_vec()
}

/// What `zstd::stream::encode_all` returns at the fixed compression level
/// the packer uses.
pub uninterp spec fn zstd_of(data: Seq<u8>) -> Seq<u8>;

/// Relies on `zstd::stream::encode_all`: at a fixed, valid level,
/// single-threaded, the frame is a function of the input bytes alone.
/// Encoding into memory does not fail, and the frame it writes is never
/// empty: every frame opens with the format's magic number.
#[verifier::external_body]
pub(crate) fn zstd_compress(data: &[u8]) -> (r: Result<Vec<u8>, PackError>)
    ensures
        r is Ok,
        r matches Ok(v) ==> v@ == zstd_of(data@) && v@.len() > 0,
{
    match zstd::stream::encode_all(data, 3) {
        Ok(v) => Ok(v),
        Err(_) => Err(PackError::Compress),
    }
}

/// Relies on `zstd::decode_all`: decoding a frame that `encode_all` produced
/// yields exactly the bytes that were encoded.
#[verifier::external_body]
pub(crate) fn zstd_decompress(data: &[u8]) -> (r: Result<Vec<u8>, UnpackError>)
    ensures
        r is Ok <== exists|orig: Seq<u8>| data@ == zstd_of(orig),
        r matches Ok(v) ==> forall|orig: Seq<u8>| data@ == zstd_of(orig) ==> v@ == orig,
{
    match zstd::decode_all(data) {
        Ok(v) => Ok(v),
        Err(_) => Err(UnpackError::Decompress),
    }
}

/// What `qbsdiff::Bsdiff::compare` writes for the given source and target.
pub uninterp spec fn bsdiff_of(source: Seq<u8>, target: Seq<u8>) -> Seq<u8>;

/// The unsigned 64-bit value laid out little-endian at `off`.
pub open spec fn le64_at(p: Seq<u8>, off: int) -> int {
    p[off] + p[off + 1] * 0x100 + p[off + 2] * 0x1_0000 + p[off + 3] * 0x100_0000 + p[off
        + 4] * 0x1_0000_0000 + p[off + 5] * 0x100_0000_0000 + p[off + 6]
        * 0x1_0000_0000_0000 + p[off + 7] * 0x100_0000_0000_0000
}

/// A size field of a bsdiff patch header, decoded as the patcher decodes
/// it: sign-magnitude, then cast back to unsigned — so a negative field
/// comes out as a huge value that no length bound admits.
pub open spec fn bspatch_size_at(p: Seq<u8>, off: int) -> int {
    let x = le64_at(p, off);
    if x <= 0x8000_0000_0000_0000 {
        x
    } else {
        0x1_0000_0000_0000_0000 - (x - 0x8000_0000_0000_0000)
    }
}

/// The patch opens with a well-formed bsdiff 4.x header: the `BSDIFF40`
/// magic, and two block-size fields that decode non-negative and fit
/// inside the patch. The patcher rejects anything shorter or without the
/// magic cleanly; sizes outside these bounds are what make it panic.
pub open spec fn patch_header_valid(p: Seq<u8>) -> bool {
    &&& p.len() >= 32
    &&& p[0] == 66 && p[1] == 83 && p[2] == 68 && p[3] == 73 && p[4] == 70 && p[5] == 70
        && p[6] == 52 && p[7] == 48
    &&& 32 + bspatch_size_at(p, 8) + bspatch_size_at(p, 16) <= p.len()
}

/// Reads one header size field as the patcher does.
fn read_patch_size(patch: &[u8], off: usize) -> (r: u64)
    requires
        off + 8 <= patch@.len(),
    ensures
        r == bspatch_size_at(patch@, off as int),
{
    let x: u64 = patch[off] as u64 + patch[off + 1] as u64 * 0x100 + patch[off + 2] as u64
        * 0x1_0000 + patch[off + 3] as u64 * 0x100_0000 + patch[off + 4] as u64
        * 0x1_0000_0000 + patch[off + 5] as u64 * 0x100_0000_0000 + patch[off + 6] as u64
        * 0x1_0000_0000_0000 + patch[off + 7] as u64 * 0x100_0000_0000_0000;
    proof {
        assert(x == le64_at(patch@, off as int));
    }
    if x <= 0x8000_0000_0000_0000 {
        x
    } else {
        0xffff_ffff_ffff_ffff - (x - 0x8000_0000_0000_0000) + 1
    }
}

/// Decides `patch_header_valid` on the bytes.
pub fn patch_header_check(patch: &[u8]) -> (r: bool)
    ensures
        r == patch_header_valid(patch@),
{
    if patch.len() < 32 {
        return false;
    }
    if !(patch[0] == 66 && patch[1] == 83 && patch[2] == 68 && patch[3] == 73 && patch[4]
        == 70 && patch[5] == 70 && patch[6] == 52 && patch[7] == 48) {
        return false;
    }
    let csize = read_patch_size(patch, 8);
    let dsize = read_patch_size(patch, 16);
    32u128 + csize as u128 + dsize as u128 <= patch.len() as u128
}

/// Relies on `qbsdiff::Bsdiff::compare` with parallel search off: the patch
/// is then a function of source and target alone, written into memory, so
/// the call does not fail. `Bsdiff::new` panics on sources longer than its
/// indexing limit, so such sources are excluded. Every patch it writes
/// opens with a well-formed header: the magic, then the two actual block
/// sizes, non-negative and in bounds.
#[verifier::external_body]
pub(crate) fn bsdiff_diff(source: &[u8], target: &[u8]) -> (r: Result<Vec<u8>, PackError>)
    requires
        source@.len() <= 0x7fff_ffff,
    ensures
        r is Ok,
        r matches Ok(p) ==> p@ == bsdiff_of(source@, target@) && patch_header_valid(p@),
{
    let mut patch = Vec::new();
    let outcome = qbsdiff::Bsdiff::new(source, target)
        .parallel_scheme(qbsdiff::ParallelScheme::Never)
        .compare(std::io::Cursor::new(&mut patch));
    match outcome {
        Ok(_) => Ok(patch),
        Err(_) => Err(PackError::Diff),
    }
}

/// Relies on `qbsdiff::Bspatch`: applying a patch that `Bsdiff::compare`
/// produced, against the same source, reproduces the target it was computed
/// from. `Bspatch`'s header check misreads a size field that decodes
/// negative and panics on the resulting bounds, so only patches with a
/// well-formed header are admitted; on those, a corrupt body is an error,
/// never a panic.
#[verifier::external_body]
pub(crate) fn bsdiff_apply(source: &[u8], patch: &[u8]) -> (r: Result<Vec<u8>, UnpackError>)
    requires
        patch_header_valid(patch@),
    ensures
        r is Ok <== exists|t: Seq<u8>| patch@ == bsdiff_of(source@, t),
        r matches Ok(v) ==> forall|t: Seq<u8>| patch@ == bsdiff_of(source@, t) ==> v@ == t,
{
    let patcher = match qbsdiff::Bspatch::new(patch) {
        Ok(p) => p,
        Err(_) => {
            return Err(UnpackError::Patch);
        },
    };
    let mut target = Vec::new();
    match patcher.apply(source, std::io::Cursor::new(&mut target)) {
        Ok(_) => Ok(target),
        Err(_) => Err(UnpackError::Patch),
    }
}

/// Rebuilds one variant from the compressed fallback and its delta: the
/// round trip `apply(diff(A, B), decompress(compress(A)))` gives back `B`.
/// A patch without a well-formed header is refused up front.
pub fn reconstruct_variant(compressed: &[u8], patch: &[u8]) -> (r: Result<
    Vec<u8>,
    UnpackError,
>)
    ensures
        r is Ok <== patch_header_valid(patch@) && (exists|a: Seq<u8>, b: Seq<u8>|
            compressed@ == zstd_of(a) && patch@ == bsdiff_of(a, b)),
        r matches Ok(v) ==> forall|a: Seq<u8>, b: Seq<u8>|
            compressed@ == zstd_of(a) && patch@ == bsdiff_of(a, b) ==> v@ == b,
{
    let base = zstd_decompress(compressed)?;
    if !patch_header_check(patch) {
        return Err(UnpackError::Patch);
    }
    let out = bsdiff_apply(base.as_slice(), patch)?;
    Ok(out)
}

} // verus!
