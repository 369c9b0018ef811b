//! Perceptual hash values and the distance between them.
use vstd::prelude::*;
use crate::types::RgbaImage;
use img_hash::image::{DynamicImage, ImageBuffer};
use img_hash::{HashAlg, HasherConfig};

verus! {

/// The hash algorithms of the perceptual hashing backend that the built-in hashers use.
#[derive(Debug, Clone, Copy, PartialEq, Eq, Structural)]
pub enum HashKind {
    /// Row gradients of a downscaled grayscale image (dHash).
    Gradient,
    /// Row and column gradients (used for pHash).
    DoubleGradient,
    /// Block averages compared to their medians (blockhash.io).
    Blockhash,
}

impl HashKind {
    /// A number standing for the algorithm.
    pub open spec fn code(self) -> u8 {
        match self {
            HashKind::Gradient => 0,
            HashKind::DoubleGradient => 1,
            HashKind::Blockhash => 2,
        }
    }
}

/// The bytes of the perceptual hash that algorithm `alg` (see [`HashKind::code`]) computes,
/// with a hash of `hash_width x hash_height` bits, for the RGBA image of the given size and
/// pixel bytes.
pub uninterp spec fn image_hash_bytes(
    alg: u8,
    hash_width: u32,
    hash_height: u32,
    width: u32,
    height: u32,
    pixels: Seq<u8>,
) -> Seq<u8>;

/// A perceptual hash: its bits, packed in bytes.
#[derive(Debug)]
pub struct FrameHash {
    bytes: Vec<u8>,
}

impl View for FrameHash {
    type V = Seq<u8>;

    closed spec fn view(&self) -> Seq<u8> {
        self.bytes@
    }
}

impl Clone for FrameHash {
    fn clone(&self) -> (r: Self)
        ensures
            r@ == self@,
    {
        FrameHash { bytes: self.bytes.clone() }
    }
}

/// Number of one bits of `x`.
pub open spec fn popcount(x: nat) -> nat
    decreases x,
{
    if x == 0 {
        0
    } else {
        x % 2 + popcount(x / 2)
    }
}

/// Sum of the differing bits of the first `k` byte pairs.
pub open spec fn hamming_upto(a: Seq<u8>, b: Seq<u8>, k: int) -> nat
    decreases k,
{
    if k <= 0 {
        0
    } else {
        hamming_upto(a, b, k - 1) + popcount((a[k - 1] ^ b[k - 1]) as nat)
    }
}

/// Hamming distance of two hashes, over the bytes they have in common.
pub open spec fn hamming(a: Seq<u8>, b: Seq<u8>) -> nat {
    hamming_upto(a, b, if a.len() <= b.len() { a.len() as int } else { b.len() as int })
}

/// The distance the hash type reports: the Hamming distance, summed in a `u32` that
/// wraps around.
pub open spec fn hash_distance(a: Seq<u8>, b: Seq<u8>) -> u32 {
    (hamming(a, b) % 0x1_0000_0000) as u32
}

proof fn lemma_popcount_le(x: nat)
    ensures
        popcount(x) <= x,
    decreases x,
{
    if x > 0 {
        lemma_popcount_le(x / 2);
    }
}

fn popcount_u8(x: u8) -> (r: u32)
    ensures
        r == popcount(x as nat),
{
    let mut v: u8 = x;
    let mut c: u32 = 0;
    proof {
        lemma_popcount_le(x as nat);
    }
    while v > 0
        invariant
            c + popcount(v as nat) == popcount(x as nat),
            popcount(x as nat) <= 255,
        decreases v,
    {
        proof {
            lemma_popcount_le(v as nat);
        }
        c = c + (v % 2) as u32;
        v = v / 2;
    }
    c
}

impl FrameHash {
    /// A hash holding the given bytes.
    pub fn from_bytes(bytes: Vec<u8>) -> (r: FrameHash)
        ensures
            r@ == bytes@,
    {
        FrameHash { bytes }
    }

    /// The bytes of this hash.
    pub fn as_bytes(&self) -> (r: &[u8])
        ensures
            r@ == self@,
    {
        self.bytes.as_slice()
    }

    /// Whether two hashes hold the same bytes.
    pub fn same_bytes(&self, other: &FrameHash) -> (r: bool)
        ensures
            r == (self@ == other@),
    {
        if self.bytes.len() != other.bytes.len() {
            return false;
        }
        let mut i: usize = 0;
        while i < self.bytes.len()
            invariant
                i <= self@.len(),
                self@.len() == other@.len(),
                forall|k: int| 0 <= k < i ==> self@[k] == other@[k],
            decreases self@.len() - i,
        {
            if self.bytes[i] != other.bytes[i] {
                return false;
            }
            i = i + 1;
        }
        assert(self@ =~= other@);
        true
    }

    /// Hamming distance to another hash: the number of differing bits over the bytes
    /// both hashes have.
    pub fn dist(&self, other: &FrameHash) -> (r: u32)
        ensures
            r == hash_distance(self@, other@),
    {
        let n: usize = if self.bytes.len() <= other.bytes.len() {
            self.bytes.len()
        } else {
            other.bytes.len()
        };
        let mut total: u32 = 0;
        let mut k: usize = 0;
        while k < n
            invariant
                k <= n,
                n <= self@.len(),
                n <= other@.len(),
                n == (if self@.len() <= other@.len() { self@.len() } else { other@.len() }),
                total == hamming_upto(self@, other@, k as int) % 0x1_0000_0000,
            decreases n - k,
        {
            let c = popcount_u8(self.bytes[k] ^ other.bytes[k]);
            total = ((total as u64 + c as u64) % 0x1_0000_0000) as u32;
            k = k + 1;
        }
        total
    }
}

/// Hash an RGBA image with the perceptual hashing backend.
///
/// Calls `img_hash::HasherConfig::new().hash_alg(..).hash_size(..).to_hasher().hash_image(..)`
/// on the image and returns the hash's bytes (`ImageHash::as_bytes`). The contract claims
/// that the result is [`image_hash_bytes`] of the arguments: a function of the algorithm,
/// the hash size and the image alone. The gradient hashes panic on an empty image (their
/// resize subtracts one from the width), blockhash divides by the hash size, and the
/// backend's size arithmetic overflows for a hash size whose bit count overflows a `u32`;
/// `requires` rules these out. Blockhash on an empty image only sums no pixels.
#[verifier::external_body]
pub(crate) fn compute_image_hash(
    alg: HashKind,
    hash_width: u32,
    hash_height: u32,
    image: &RgbaImage,
) -> (r: FrameHash)
    requires
        image.wf(),
        alg is Blockhash || image.width > 0 && image.height > 0,
        hash_width > 0,
        hash_height > 0,
        hash_width * hash_height * 8 <= u32::MAX,
    ensures
        r@ == image_hash_bytes(
            alg.code(),
            hash_width,
            hash_height,
            image.width,
            image.height,
            image.data@,
        ),
{
    let hash_alg = match alg {
        HashKind::Gradient => HashAlg::Gradient,
        HashKind::DoubleGradient => HashAlg::DoubleGradient,
        HashKind::Blockhash => HashAlg::Blockhash,
    };
    let hasher = HasherConfig::new().hash_alg(hash_alg).hash_size(hash_width, hash_height).to_hasher();
    let buffer = ImageBuffer::from_raw(image.width, image.height, image.data.clone()).unwrap();
    let hash = hasher.hash_image(&DynamicImage::ImageRgba8(buffer));
    FrameHash { bytes: hash.as_bytes().to_vec() }
}

proof fn lemma_hamming_upto_symmetric(a: Seq<u8>, b: Seq<u8>, k: int)
    ensures
        hamming_upto(a, b, k) == hamming_upto(b, a, k),
        hamming_upto(a, a, k) == 0,
    decreases k,
{
    if k > 0 {
        lemma_hamming_upto_symmetric(a, b, k - 1);
        let x = a[k - 1];
        let y = b[k - 1];
        assert(x ^ y == y ^ x) by (bit_vector);
        assert(x ^ x == 0) by (bit_vector);
    }
}

/// A hash is at distance 0 from itself, and the distance between two hashes does not
/// depend on their order.
pub proof fn law_distance_symmetric(a: Seq<u8>, b: Seq<u8>)
    ensures
        hash_distance(a, a) == 0,
        hash_distance(a, b) == hash_distance(b, a),
{
    lemma_hamming_upto_symmetric(a, b, if a.len() <= b.len() { a.len() as int } else { b.len() as int });
    lemma_hamming_upto_symmetric(a, a, a.len() as int);
}

} // verus!
