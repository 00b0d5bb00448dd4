//! Digests and keys.
use vstd::prelude::*;
use crate::address::VirtAddr;
use crate::memory::machine::{Machine, MachineState};
use crate::process_manager::process_paging::walk;
use crate::process_manager::process_paging::walk::{read_mounted, read_mounted_pages};

verus! {

/// The keys of the monitor.
#[derive(Clone, Copy, Debug)]
pub struct KeyPair {
    pub public_key: [u8; 32],
    pub private_key: [u8; 32],
}

impl Default for KeyPair {
    fn default() -> (r: Self)
        ensures
            r.public_key@ == Seq::new(32, |i: int| 0u8),
            r.private_key@ == Seq::new(32, |i: int| 0u8),
    {
        KeyPair { public_key: [0u8; 32], private_key: [0u8; 32] }
    }
}

/// The SHA-512 digest of some bytes.
pub uninterp spec fn sha512(bytes: Seq<u8>) -> Seq<u8>;

/// Computes a SHA-512 digest: `sha2::Sha512::digest`. The digest has 64 bytes
/// and depends on the bytes alone; no more is claimed of it.
#[verifier::external_body]
pub(crate) fn digest_of(buf: &Vec<u8>) -> (r: [u8; 64])
    ensures
        r@ == sha512(buf@),
{
    <sha2::Sha512 as sha2::Digest>::digest(buf.as_slice()).into()
}

/// A SHA-512 hash that gathers its bytes piece by piece: `sha2::Sha512`.
#[verifier::external_body]
#[derive(Debug)]
pub struct Hasher {
    inner: sha2::Sha512,
}

/// The bytes that a hash has gathered.
pub uninterp spec fn absorbed(h: Hasher) -> Seq<u8>;

/// Starts a hash: `sha2::Sha512::new`. It has gathered nothing.
#[verifier::external_body]
pub(crate) fn sha512_create() -> (r: Hasher)
    ensures
        absorbed(r) == Seq::<u8>::empty(),
{
    Hasher { inner: <sha2::Sha512 as sha2::Digest>::new() }
}

/// Adds bytes to a hash: `sha2::Sha512::update`. They follow those that it has
/// gathered before. It counts its blocks, so there is an end to what it can
/// gather.
#[verifier::external_body]
pub(crate) fn sha512_update(h: &mut Hasher, bytes: &Vec<u8>)
    requires
        absorbed(*old(h)).len() + bytes@.len() <= u64::MAX,
    ensures
        absorbed(*final(h)) == absorbed(*old(h)) + bytes@,
{
    sha2::Digest::update(&mut h.inner, bytes.as_slice());
}

/// Ends a copy of a hash: `sha2::Sha512::finalize`. The digest is that of the
/// bytes that it has gathered, as if they had come in one piece.
#[verifier::external_body]
pub(crate) fn sha512_digest(h: &Hasher) -> (r: [u8; 64])
    requires
        absorbed(*h).len() <= u64::MAX,
    ensures
        r@ == sha512(absorbed(*h)),
{
    sha2::Digest::finalize(h.inner.clone()).into()
}

impl Hasher {
    /// A hash that has gathered nothing.
    pub fn new() -> (r: Hasher)
        ensures
            absorbed(r) == Seq::<u8>::empty(),
    {
        sha512_create()
    }
}

/// Puts the SHA-512 digest of `buf` into `h`, which has room for exactly that.
pub fn sha512_single(buf: &Vec<u8>, h: &mut Vec<u8>)
    requires
        old(h)@.len() == 64,
    ensures
        final(h)@ == sha512(buf@),
        final(h)@.len() == 64,
{
    let digest = digest_of(buf);
    let mut i: usize = 0;
    while i < 64
        invariant
            i <= 64,
            h@.len() == 64,
            digest@.len() == 64,
            forall|k: int| 0 <= k < i ==> h@[k] == digest@[k],
        decreases 64 - i,
    {
        h[i] = digest[i];
        i = i + 1;
    }
    assert(h@ =~= digest@);
}

/// The digest of `size` bytes that the monitor has from `addr` on.
pub open spec fn measured(s: MachineState, addr: u64, size: nat) -> Seq<u8> {
    sha512(walk::mounted_bytes(s, addr, size))
}

/// Measures memory of the monitor's own address space.
pub fn measure(m: &Machine, addr: VirtAddr, size: u64) -> (r: [u8; 64])
    ensures
        r@ == measured(m@, addr, size as nat),
{
    let bytes = read_mounted(m, addr, size);
    digest_of(&bytes)
}

/// Measures whole pages of the monitor's own address space.
pub fn measure_pages(m: &Machine, addr: VirtAddr, pages: u64) -> (r: [u8; 64])
    ensures
        r@ == measured(m@, addr, (pages * 4096) as nat),
{
    let bytes = read_mounted_pages(m, addr, pages);
    digest_of(&bytes)
}

} // verus!
