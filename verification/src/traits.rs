//! The frame hashing abstraction and a similarity metric built on it.
use vstd::prelude::*;
use crate::error::FigifError;
use crate::types::{EncodableFrame, EncodeConfig, LoopCount, RgbaImage};

verus! {

/// Trait for computing perceptual hashes of frames.
///
/// Implementations provide different algorithms for computing perceptual hashes that can
/// be compared to detect similar or duplicate frames.
pub trait FrameHasher {
    /// The hash type produced by this hasher.
    type Hash: View;

    /// The hasher's settings are usable.
    spec fn ready(&self) -> bool;

    /// The hasher can hash this image.
    spec fn accepts(&self, image: RgbaImage) -> bool;

    /// The hash of an image, as a value of the hash's view.
    spec fn hash_of(&self, image: RgbaImage) -> <Self::Hash as View>::V;

    /// The distance between two hashes.
    spec fn distance_of(&self, a: <Self::Hash as View>::V, b: <Self::Hash as View>::V) -> u32;

    /// Whether the hasher can hash this image.
    fn can_hash(&self, image: &RgbaImage) -> (r: bool)
        ensures
            r == self.accepts(*image),
    ;

    /// Compute the perceptual hash for a single frame.
    fn hash_frame(&self, image: &RgbaImage) -> (r: Self::Hash)
        requires
            self.ready(),
            image.wf(),
            self.accepts(*image),
        ensures
            r@ == self.hash_of(*image),
    ;

    /// Compute the distance between two hashes; lower values mean more similar images.
    fn distance(&self, a: &Self::Hash, b: &Self::Hash) -> (r: u32)
        ensures
            r == self.distance_of(a@, b@),
    ;

    /// The name of this hasher.
    fn name(&self) -> &'static str;

    /// The suggested duplicate threshold.
    spec fn threshold_of(&self) -> u32;

    /// Suggested maximum distance for two frames to be considered duplicates.
    fn suggested_threshold(&self) -> (r: u32)
        requires
            self.ready(),
        ensures
            r == self.threshold_of(),
    ;
}

/// A similarity metric based on a hash distance threshold.
pub struct HashBasedSimilarity<H> {
    hasher: H,
    max_distance: u32,
}

impl<H> HashBasedSimilarity<H> {
    /// Create a new hash-based similarity metric; `max_distance` is the hash distance at
    /// which similarity reaches zero.
    pub fn new(hasher: H, max_distance: u32) -> (r: Self)
        ensures
            r.hasher() == hasher,
            r.max_distance() == max_distance,
    {
        HashBasedSimilarity { hasher, max_distance }
    }

    /// The hasher used.
    pub closed spec fn hasher(&self) -> H {
        self.hasher
    }

    /// The distance that maps to similarity zero.
    pub closed spec fn max_distance(&self) -> u32 {
        self.max_distance
    }
}

/// Similarity `1 - distance / max_distance` as the fraction `(numerator, denominator)`;
/// `(0, 1)` from `max_distance` on.
pub open spec fn similarity_fraction(distance: u32, max_distance: u32) -> (u32, u32) {
    if distance >= max_distance {
        (0, 1)
    } else {
        ((max_distance - distance) as u32, max_distance)
    }
}

/// Whether a pair at `distance` counts as a duplicate: its similarity reaches the
/// similarity of the hasher's suggested threshold, `1 - threshold / max_distance`.
pub open spec fn duplicate_at(distance: u32, threshold: u32, max_distance: u32) -> bool {
    if distance >= max_distance {
        threshold >= max_distance && threshold > 0
    } else {
        distance <= threshold
    }
}

impl<H: FrameHasher> HashBasedSimilarity<H> {
    /// Similarity of two frames, as an exact fraction in `0..=1` (1 = identical).
    pub fn similarity(&self, a: &RgbaImage, b: &RgbaImage) -> (r: (u32, u32))
        requires
            self.hasher().ready(),
            a.wf(),
            b.wf(),
            self.hasher().accepts(*a),
            self.hasher().accepts(*b),
        ensures
            r == similarity_fraction(
                self.hasher().distance_of(self.hasher().hash_of(*a), self.hasher().hash_of(*b)),
                self.max_distance(),
            ),
    {
        let hash_a = self.hasher.hash_frame(a);
        let hash_b = self.hasher.hash_frame(b);
        let distance = self.hasher.distance(&hash_a, &hash_b);
        if distance >= self.max_distance {
            (0, 1)
        } else {
            (self.max_distance - distance, self.max_distance)
        }
    }

    /// Check whether two frames are duplicates: their similarity is at least that of the
    /// hasher's suggested threshold.
    pub fn are_duplicates(&self, a: &RgbaImage, b: &RgbaImage) -> (r: bool)
        requires
            self.hasher().ready(),
            a.wf(),
            b.wf(),
            self.hasher().accepts(*a),
            self.hasher().accepts(*b),
        ensures
            r == duplicate_at(
                self.hasher().distance_of(self.hasher().hash_of(*a), self.hasher().hash_of(*b)),
                self.hasher().threshold_of(),
                self.max_distance(),
            ),
    {
        let hash_a = self.hasher.hash_frame(a);
        let hash_b = self.hasher.hash_frame(b);
        let distance = self.hasher.distance(&hash_a, &hash_b);
        let threshold = self.hasher.suggested_threshold();
        if distance >= self.max_distance {
            threshold >= self.max_distance && threshold > 0
        } else {
            distance <= threshold
        }
    }

    /// The name of this metric.
    pub fn name(&self) -> (r: &'static str)
        ensures
            r@ == "hash-based"@,
    {
        "hash-based"
    }
}

/// Trait for encoders that turn frames into the bytes of a GIF.
pub trait GifEncoder {
    /// What the encoder promises of the result of encoding `frames` with `config`.
    spec fn encoded(&self, frames: Seq<EncodableFrame>, config: EncodeConfig, r: Result<Vec<u8>, FigifError>) -> bool;

    /// Encode frames to GIF bytes.
    fn encode(&self, frames: &[EncodableFrame], config: &EncodeConfig) -> (r: Result<Vec<u8>, FigifError>)
        ensures
            self.encoded(frames@, *config, r),
    ;

    /// Whether the encoder compresses lossily.
    spec fn lossy(&self) -> bool;

    /// Whether this encoder supports lossy compression.
    fn supports_lossy(&self) -> (r: bool)
        ensures
            r == self.lossy(),
    ;

    /// The name of this encoder.
    fn name(&self) -> &'static str;
}

/// Conveniences on every encoder.
pub trait GifEncoderExt: GifEncoder {
    /// Encode with the default configuration: no resizing, looping forever, lossless.
    fn encode_default(&self, frames: &[EncodableFrame]) -> (r: Result<Vec<u8>, FigifError>)
        ensures
            self.encoded(
                frames@,
                EncodeConfig { width: None, height: None, loop_count: LoopCount::Infinite, lossy_quality: None },
                r,
            ),
    {
        let config = EncodeConfig::default();
        assert(config == EncodeConfig { width: None, height: None, loop_count: LoopCount::Infinite, lossy_quality: None });
        self.encode(frames, &config)
    }

    /// Whether this encoder can handle the configuration: a lossy quality needs an
    /// encoder that supports lossy compression.
    fn can_encode(&self, config: &EncodeConfig) -> (r: bool)
        ensures
            r == !(config.lossy_quality.is_some() && !self.lossy()),
    {
        if config.lossy_quality.is_some() && !self.supports_lossy() {
            return false;
        }
        true
    }
}

impl<T: GifEncoder> GifEncoderExt for T {}

/// Conveniences on every frame hasher.
pub trait FrameHasherExt: FrameHasher {
    /// Hash several images, in order.
    fn hash_frames(&self, images: &[RgbaImage]) -> (r: Vec<Self::Hash>)
        requires
            self.ready(),
            forall|k: int| 0 <= k < images@.len() ==> (#[trigger] images@[k]).wf() && self.accepts(images@[k]),
        ensures
            r@.len() == images@.len(),
            forall|k: int| 0 <= k < images@.len() ==> (#[trigger] r@[k])@ == self.hash_of(images@[k]),
    {
        let mut out: Vec<Self::Hash> = Vec::new();
        let mut i: usize = 0;
        while i < images.len()
            invariant
                i <= images@.len(),
                self.ready(),
                forall|k: int| 0 <= k < images@.len() ==> (#[trigger] images@[k]).wf() && self.accepts(images@[k]),
                out@.len() == i,
                forall|k: int| 0 <= k < i ==> (#[trigger] out@[k])@ == self.hash_of(images@[k]),
            decreases images@.len() - i,
        {
            out.push(self.hash_frame(&images[i]));
            i = i + 1;
        }
        out
    }

    /// Whether two images are duplicates: their hashes lie within the suggested threshold.
    fn are_duplicates(&self, a: &RgbaImage, b: &RgbaImage) -> (r: bool)
        requires
            self.ready(),
            a.wf(),
            b.wf(),
            self.accepts(*a),
            self.accepts(*b),
        ensures
            r == (self.distance_of(self.hash_of(*a), self.hash_of(*b)) <= self.threshold_of()),
    {
        let ha = self.hash_frame(a);
        let hb = self.hash_frame(b);
        self.distance(&ha, &hb) <= self.suggested_threshold()
    }
}

impl<T: FrameHasher> FrameHasherExt for T {}

} // verus!
