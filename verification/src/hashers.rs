//! Built-in perceptual hashers: difference hash, perceptual (double gradient) hash and
//! block hash.
//!
//! | Algorithm | Speed | Robustness | Best For |
//! |-----------|-------|------------|----------|
//! | dHash | Fast | Moderate | Frame-to-frame comparison |
//! | pHash | Slow | High | Content matching across transforms |
//! | BlockHash | Medium | Medium | General purpose |
use vstd::prelude::*;
use crate::hashing::{compute_image_hash, hash_distance, image_hash_bytes, FrameHash, HashKind};
use crate::traits::FrameHasher;
use crate::types::RgbaImage;

verus! {

/// A hash size whose bit count, times 8, fits in a `u32`, and that is not empty.
pub open spec fn hash_size_usable(width: u32, height: u32) -> bool {
    width > 0 && height > 0 && width * height * 8 <= u32::MAX
}

/// The duplicate threshold for a hash of `bits` bits: `factor` per 64 bits, truncated,
/// and at least `floor`.
pub open spec fn scaled_threshold(bits: int, factor: int, floor: u32) -> u32 {
    let scaled = factor * bits / 64;
    if scaled >= floor {
        scaled as u32
    } else {
        floor
    }
}

/// Difference hash (dHash) for fast duplicate detection: compares adjacent pixels of
/// a downscaled grayscale image.
#[derive(Debug, Clone, Copy)]
pub struct DHasher {
    hash_width: u32,
    hash_height: u32,
}

impl Default for DHasher {
    fn default() -> (r: Self)
        ensures
            r.spec_hash_width() == 8,
            r.spec_hash_height() == 8,
    {
        DHasher::new()
    }
}

impl DHasher {
    /// The hash width in bits.
    pub closed spec fn spec_hash_width(&self) -> u32 {
        self.hash_width
    }

    /// The hash height in bits.
    pub closed spec fn spec_hash_height(&self) -> u32 {
        self.hash_height
    }

    /// Create a new hasher with the default 8x8 hash size.
    pub fn new() -> (r: Self)
        ensures
            r.spec_hash_width() == 8,
            r.spec_hash_height() == 8,
    {
        DHasher::with_size(8, 8)
    }

    /// Create a hasher with custom hash dimensions.
    pub fn with_size(width: u32, height: u32) -> (r: Self)
        ensures
            r.spec_hash_width() == width,
            r.spec_hash_height() == height,
    {
        DHasher { hash_width: width, hash_height: height }
    }

    /// Get the hash width.
    pub fn hash_width(&self) -> (r: u32)
        ensures
            r == self.spec_hash_width(),
    {
        self.hash_width
    }

    /// Get the hash height.
    pub fn hash_height(&self) -> (r: u32)
        ensures
            r == self.spec_hash_height(),
    {
        self.hash_height
    }

    /// Get the total hash bits.
    pub fn hash_bits(&self) -> (r: u32)
        requires
            self.spec_hash_width() * self.spec_hash_height() <= u32::MAX,
        ensures
            r == self.spec_hash_width() * self.spec_hash_height(),
    {
        self.hash_width * self.hash_height
    }
}

impl FrameHasher for DHasher {
    type Hash = FrameHash;

    open spec fn ready(&self) -> bool {
        hash_size_usable(self.spec_hash_width(), self.spec_hash_height())
    }

    open spec fn accepts(&self, image: RgbaImage) -> bool {
        image.width > 0 && image.height > 0
    }

    open spec fn hash_of(&self, image: RgbaImage) -> Seq<u8> {
        image_hash_bytes(
            HashKind::Gradient.code(),
            self.spec_hash_width(),
            self.spec_hash_height(),
            image.width,
            image.height,
            image.data@,
        )
    }

    open spec fn distance_of(&self, a: Seq<u8>, b: Seq<u8>) -> u32 {
        hash_distance(a, b)
    }

    open spec fn threshold_of(&self) -> u32 {
        scaled_threshold(self.spec_hash_width() * self.spec_hash_height(), 5, 3)
    }

    fn can_hash(&self, image: &RgbaImage) -> (r: bool) {
        image.width > 0 && image.height > 0
    }

    fn hash_frame(&self, image: &RgbaImage) -> (r: FrameHash) {
        compute_image_hash(HashKind::Gradient, self.hash_width, self.hash_height, image)
    }

    fn distance(&self, a: &FrameHash, b: &FrameHash) -> (r: u32) {
        a.dist(b)
    }

    fn name(&self) -> (r: &'static str)
        ensures
            r@ == "dhash"@,
    {
        "dhash"
    }

    fn suggested_threshold(&self) -> (r: u32) {
        let bits = self.hash_width * self.hash_height;
        let scaled = 5u32 * bits / 64;
        if scaled >= 3 {
            scaled
        } else {
            3
        }
    }
}

/// Perceptual hash (pHash), robust to small transformations: row and column gradients
/// of a downscaled grayscale image.
#[derive(Debug, Clone, Copy)]
pub struct PHasher {
    hash_width: u32,
    hash_height: u32,
}

impl Default for PHasher {
    fn default() -> (r: Self)
        ensures
            r.spec_hash_width() == 8,
            r.spec_hash_height() == 8,
    {
        PHasher::new()
    }
}

impl PHasher {
    /// The hash width in bits.
    pub closed spec fn spec_hash_width(&self) -> u32 {
        self.hash_width
    }

    /// The hash height in bits.
    pub closed spec fn spec_hash_height(&self) -> u32 {
        self.hash_height
    }

    /// Create a new hasher with the default 8x8 hash size.
    pub fn new() -> (r: Self)
        ensures
            r.spec_hash_width() == 8,
            r.spec_hash_height() == 8,
    {
        PHasher::with_size(8, 8)
    }

    /// Create a hasher with custom hash dimensions.
    pub fn with_size(width: u32, height: u32) -> (r: Self)
        ensures
            r.spec_hash_width() == width,
            r.spec_hash_height() == height,
    {
        PHasher { hash_width: width, hash_height: height }
    }

    /// Get the hash width.
    pub fn hash_width(&self) -> (r: u32)
        ensures
            r == self.spec_hash_width(),
    {
        self.hash_width
    }

    /// Get the hash height.
    pub fn hash_height(&self) -> (r: u32)
        ensures
            r == self.spec_hash_height(),
    {
        self.hash_height
    }

    /// Get the total hash bits.
    pub fn hash_bits(&self) -> (r: u32)
        requires
            self.spec_hash_width() * self.spec_hash_height() <= u32::MAX,
        ensures
            r == self.spec_hash_width() * self.spec_hash_height(),
    {
        self.hash_width * self.hash_height
    }
}

impl FrameHasher for PHasher {
    type Hash = FrameHash;

    open spec fn ready(&self) -> bool {
        hash_size_usable(self.spec_hash_width(), self.spec_hash_height())
    }

    open spec fn accepts(&self, image: RgbaImage) -> bool {
        image.width > 0 && image.height > 0
    }

    open spec fn hash_of(&self, image: RgbaImage) -> Seq<u8> {
        image_hash_bytes(
            HashKind::DoubleGradient.code(),
            self.spec_hash_width(),
            self.spec_hash_height(),
            image.width,
            image.height,
            image.data@,
        )
    }

    open spec fn distance_of(&self, a: Seq<u8>, b: Seq<u8>) -> u32 {
        hash_distance(a, b)
    }

    open spec fn threshold_of(&self) -> u32 {
        scaled_threshold(self.spec_hash_width() * self.spec_hash_height(), 8, 5)
    }

    fn can_hash(&self, image: &RgbaImage) -> (r: bool) {
        image.width > 0 && image.height > 0
    }

    fn hash_frame(&self, image: &RgbaImage) -> (r: FrameHash) {
        compute_image_hash(HashKind::DoubleGradient, self.hash_width, self.hash_height, image)
    }

    fn distance(&self, a: &FrameHash, b: &FrameHash) -> (r: u32) {
        a.dist(b)
    }

    fn name(&self) -> (r: &'static str)
        ensures
            r@ == "phash"@,
    {
        "phash"
    }

    fn suggested_threshold(&self) -> (r: u32) {
        let bits = self.hash_width * self.hash_height;
        let scaled = 8u32 * bits / 64;
        if scaled >= 5 {
            scaled
        } else {
            5
        }
    }
}

/// Block hash (blockhash.io): compares block averages to their medians.
#[derive(Debug, Clone, Copy)]
pub struct BlockHasher {
    hash_width: u32,
    hash_height: u32,
}

impl Default for BlockHasher {
    fn default() -> (r: Self)
        ensures
            r.spec_hash_width() == 8,
            r.spec_hash_height() == 8,
    {
        BlockHasher::new()
    }
}

impl BlockHasher {
    /// The hash width in bits.
    pub closed spec fn spec_hash_width(&self) -> u32 {
        self.hash_width
    }

    /// The hash height in bits.
    pub closed spec fn spec_hash_height(&self) -> u32 {
        self.hash_height
    }

    /// Create a new hasher with the default 8x8 hash size.
    pub fn new() -> (r: Self)
        ensures
            r.spec_hash_width() == 8,
            r.spec_hash_height() == 8,
    {
        BlockHasher::with_size(8, 8)
    }

    /// Create a hasher with custom hash dimensions.
    pub fn with_size(width: u32, height: u32) -> (r: Self)
        ensures
            r.spec_hash_width() == width,
            r.spec_hash_height() == height,
    {
        BlockHasher { hash_width: width, hash_height: height }
    }

    /// Get the hash width.
    pub fn hash_width(&self) -> (r: u32)
        ensures
            r == self.spec_hash_width(),
    {
        self.hash_width
    }

    /// Get the hash height.
    pub fn hash_height(&self) -> (r: u32)
        ensures
            r == self.spec_hash_height(),
    {
        self.hash_height
    }

    /// Get the total hash bits.
    pub fn hash_bits(&self) -> (r: u32)
        requires
            self.spec_hash_width() * self.spec_hash_height() <= u32::MAX,
        ensures
            r == self.spec_hash_width() * self.spec_hash_height(),
    {
        self.hash_width * self.hash_height
    }
}

impl FrameHasher for BlockHasher {
    type Hash = FrameHash;

    open spec fn ready(&self) -> bool {
        hash_size_usable(self.spec_hash_width(), self.spec_hash_height())
    }

    open spec fn accepts(&self, image: RgbaImage) -> bool {
        true
    }

    open spec fn hash_of(&self, image: RgbaImage) -> Seq<u8> {
        image_hash_bytes(
            HashKind::Blockhash.code(),
            self.spec_hash_width(),
            self.spec_hash_height(),
            image.width,
            image.height,
            image.data@,
        )
    }

    open spec fn distance_of(&self, a: Seq<u8>, b: Seq<u8>) -> u32 {
        hash_distance(a, b)
    }

    open spec fn threshold_of(&self) -> u32 {
        scaled_threshold(self.spec_hash_width() * self.spec_hash_height(), 6, 4)
    }

    fn can_hash(&self, image: &RgbaImage) -> (r: bool) {
        true
    }

    fn hash_frame(&self, image: &RgbaImage) -> (r: FrameHash) {
        compute_image_hash(HashKind::Blockhash, self.hash_width, self.hash_height, image)
    }

    fn distance(&self, a: &FrameHash, b: &FrameHash) -> (r: u32) {
        a.dist(b)
    }

    fn name(&self) -> (r: &'static str)
        ensures
            r@ == "blockhash"@,
    {
        "blockhash"
    }

    fn suggested_threshold(&self) -> (r: u32) {
        let bits = self.hash_width * self.hash_height;
        let scaled = 6u32 * bits / 64;
        if scaled >= 4 {
            scaled
        } else {
            4
        }
    }
}

} // verus!
