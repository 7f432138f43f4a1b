//! The per-pack texture registry: deduplicated by asset path, decoded
//! lazily, and evicted by a mark-and-sweep pass across map transitions.

use vstd::prelude::*;
use crate::text;

verus! {

/// An opaque reference into a pack's texture registry.
#[derive(Clone, Copy, PartialEq, Eq, Structural, Debug)]
pub struct PackTextureHandle(pub usize);

/// A decoded RGBA image.
pub struct DecodedImage {
    pub width: u32,
    pub height: u32,
    pub rgba: Vec<u8>,
}

/// What decoding an image byte stream yields: dimensions and RGBA
/// samples when the bytes are a readable image, nothing otherwise.
/// Named rather than written out: the codecs live in the image crate.
pub uninterp spec fn decoded_rgba(bytes: Seq<u8>) -> Option<(u32, u32, Seq<u8>)>;

/// Relies on image's ImageReader (format guess, decode, RGBA8
/// conversion): the result is a function of the bytes alone.
#[verifier::external_body]
pub fn decode_rgba(bytes: &Vec<u8>) -> (r: Option<DecodedImage>)
    ensures
        match r {
            Some(img) => decoded_rgba(bytes@) == Some((img.width, img.height, img.rgba@)),
            None => decoded_rgba(bytes@) is None,
        },
{
    let cursor = std::io::Cursor::new(bytes.as_slice());
    let reader = image::ImageReader::new(cursor).with_guessed_format().ok()?;
    let img = reader.decode().ok()?.into_rgba8();
    let (width, height) = (img.width(), img.height());
    Some(DecodedImage { width, height, rgba: img.into_raw() })
}

/// One registry slot: the asset path, and the decoded resource while it
/// is resident.
pub struct PackTexture {
    pub asset: String,
    pub texture: Option<DecodedImage>,
}

/// The registry: slots plus the decoded and mark-phase bit-vectors.
pub struct TextureRegistry {
    pub textures: Vec<PackTexture>,
    /// Slot currently holds a decoded resource.
    pub loaded: Vec<bool>,
    /// Mark phase: not referenced since the last activation began.
    pub unused: Vec<bool>,
}

/// Some slot carries this asset path.
pub open spec fn has_asset(ts: Seq<PackTexture>, asset: Seq<char>) -> bool {
    exists|i: int| 0 <= i < ts.len() && ts[i].asset@ == asset
}

/// The slot carrying this asset path.
pub open spec fn asset_idx(ts: Seq<PackTexture>, asset: Seq<char>) -> int {
    choose|i: int| 0 <= i < ts.len() && ts[i].asset@ == asset
}

impl TextureRegistry {
    /// Bit-vectors in step with the slots, asset paths unique, and the
    /// loaded bit mirroring residence.
    pub open spec fn wf(self) -> bool {
        &&& self.loaded@.len() == self.textures@.len()
        &&& self.unused@.len() == self.textures@.len()
        &&& forall|i: int, j: int|
            0 <= i < j < self.textures@.len() ==> self.textures@[i].asset@
                != self.textures@[j].asset@
        &&& forall|i: int|
            0 <= i < self.textures@.len() ==> (self.loaded@[i] == (#[trigger] self.textures@[i]).texture
                is Some)
    }

    /// An empty registry.
    pub fn new() -> (r: TextureRegistry)
        ensures
            r.wf(),
            r.textures@.len() == 0,
    {
        TextureRegistry { textures: Vec::new(), loaded: Vec::new(), unused: Vec::new() }
    }

    /// Register an asset path, idempotently: the same path always
    /// yields the same handle, and no decode happens yet.
    pub fn register(&mut self, asset: &str) -> (h: PackTextureHandle)
        requires
            old(self).wf(),
        ensures
            final(self).wf(),
            h.0 < final(self).textures@.len(),
            final(self).textures@[h.0 as int].asset@ == asset@,
            has_asset(old(self).textures@, asset@) ==> *final(self) == *old(self) && h.0
                == asset_idx(old(self).textures@, asset@),
            !has_asset(old(self).textures@, asset@) ==> {
                &&& h.0 == old(self).textures@.len()
                &&& final(self).textures@.len() == old(self).textures@.len() + 1
                &&& forall|i: int|
                    0 <= i < old(self).textures@.len() ==> final(self).textures@[i]
                        == old(self).textures@[i]
                &&& final(self).textures@[h.0 as int].texture is None
                &&& final(self).loaded@ == old(self).loaded@.push(false)
                &&& final(self).unused@ == old(self).unused@.push(false)
            },
    {
        let n = self.textures.len();
        for i in 0..n
            invariant
                *self == *old(self),
                old(self).wf(),
                n == self.textures@.len(),
                forall|j: int| 0 <= j < i ==> self.textures@[j].asset@ != asset@,
        {
            if text::str_is(self.textures[i].asset.as_str(), asset) {
                proof {
                    assert(has_asset(self.textures@, asset@));
                    let k = asset_idx(self.textures@, asset@);
                    assert(self.textures@[k].asset@ == asset@);
                    assert(k == i as int);
                }
                return PackTextureHandle(i);
            }
        }
        assert(!has_asset(self.textures@, asset@));
        self.textures.push(PackTexture { asset: asset.to_owned(), texture: None });
        self.loaded.push(false);
        self.unused.push(false);
        PackTextureHandle(n)
    }

    /// The mark phase: every currently-decoded texture is provisionally
    /// unused until something resolves it again.
    pub fn mark_all_unused(&mut self)
        requires
            old(self).wf(),
        ensures
            final(self).wf(),
            final(self).textures@ == old(self).textures@,
            final(self).loaded@ == old(self).loaded@,
            final(self).unused@ == old(self).loaded@,
    {
        let n = self.loaded.len();
        let mut unused: Vec<bool> = Vec::new();
        for i in 0..n
            invariant
                n == self.loaded@.len(),
                unused@ == self.loaded@.take(i as int),
        {
            unused.push(self.loaded[i]);
            assert(unused@ =~= self.loaded@.take(i + 1));
        }
        assert(self.loaded@.take(n as int) =~= self.loaded@);
        self.unused = unused;
    }

    /// The sweep phase: every slot still marked unused releases its
    /// resource; everything that was resolved since the mark survives.
    pub fn sweep(&mut self)
        requires
            old(self).wf(),
        ensures
            final(self).wf(),
            final(self).textures@.len() == old(self).textures@.len(),
            final(self).unused@ == old(self).unused@,
            forall|i: int|
                0 <= i < old(self).textures@.len() ==> final(self).textures@[i].asset@
                    == old(self).textures@[i].asset@,
            forall|i: int|
                0 <= i < old(self).textures@.len() ==> final(self).loaded@[i] == (
                old(self).loaded@[i] && !old(self).unused@[i]),
            forall|i: int|
                0 <= i < old(self).textures@.len() ==> final(self).textures@[i].texture == (
                if old(self).unused@[i] {
                    Option::<DecodedImage>::None
                } else {
                    old(self).textures@[i].texture
                }),
    {
        let n = self.textures.len();
        let mut k: usize = 0;
        while k < n
            invariant
                n == self.textures@.len(),
                self.loaded@.len() == n,
                self.unused@.len() == n,
                self.unused@ == old(self).unused@,
                k <= n,
                forall|i: int, j: int|
                    0 <= i < j < n ==> self.textures@[i].asset@ != self.textures@[j].asset@,
                forall|i: int|
                    0 <= i < n ==> self.textures@[i].asset@ == old(self).textures@[i].asset@,
                forall|i: int|
                    k <= i < n ==> self.textures@[i] == old(self).textures@[i] && self.loaded@[i]
                        == old(self).loaded@[i],
                forall|i: int|
                    0 <= i < k ==> self.loaded@[i] == (old(self).loaded@[i] && !old(
                        self,
                    ).unused@[i]),
                forall|i: int|
                    0 <= i < k ==> self.textures@[i].texture == (if old(self).unused@[i] {
                        Option::<DecodedImage>::None
                    } else {
                        old(self).textures@[i].texture
                    }),
                forall|i: int|
                    0 <= i < n ==> (self.loaded@[i] == (#[trigger] self.textures@[i]).texture
                        is Some),
            decreases n - k,
        {
            if self.unused[k] {
                self.textures[k].texture = None;
                self.loaded[k] = false;
            }
            k = k + 1;
        }
    }
}

} // verus!
