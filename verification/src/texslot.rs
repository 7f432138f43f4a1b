//! Shared-texture bookkeeping of the overlay runtime: the state of one
//! slot, and the requests a loader queue carries.

use vstd::prelude::*;

verus! {

/// The state of one shared texture slot.
pub enum TextureSlot {
    /// Requested, not yet decoded.
    Loading,
    /// Failed or missing: nothing will arrive.
    Unavailable,
    /// Decoded and resident, with its dimensions.
    Loaded { width: u32, height: u32 },
}

impl TextureSlot {
    /// Whether a new load may be scheduled into this slot: never while
    /// it is tracked at all (a slot leaves the registry instead).
    pub fn can_load(&self) -> (r: bool)
        ensures
            !r,
    {
        match self {
            _ => false,
        }
    }
}

/// One request to the texture loader.
pub enum TextureRequest {
    /// Load from a file path.
    LoadFile { key: String, path: String },
    /// Load from bytes already in memory.
    LoadBytes { key: String, bytes: Vec<u8> },
    /// Stop the loader.
    Shutdown,
}

impl TextureRequest {
    /// The key a load request files under, if it is a load.
    pub fn key(&self) -> (r: Option<&String>)
        ensures
            match r {
                Some(k) => match self {
                    TextureRequest::LoadFile { key, .. } => k@ == key@,
                    TextureRequest::LoadBytes { key, .. } => k@ == key@,
                    TextureRequest::Shutdown => false,
                },
                None => self is Shutdown,
            },
    {
        match self {
            TextureRequest::LoadFile { key, .. } => Some(key),
            TextureRequest::LoadBytes { key, .. } => Some(key),
            TextureRequest::Shutdown => None,
        }
    }
}

/// Which shader stage a description configures.
#[derive(Clone, Copy, PartialEq, Eq, Structural, Debug)]
pub enum ShaderKind {
    Vertex,
    Pixel,
}

/// The vertex layout a shader expects.
#[derive(Clone, Copy, PartialEq, Eq, Structural, Debug)]
pub enum ShaderLayout {
    JustVertex,
    VertexInstance,
}

/// One shader as the description file lists it.
pub struct ShaderDescription {
    pub identifier: String,
    pub kind: ShaderKind,
    pub path: String,
    pub entrypoint: String,
    pub layout_type: Option<ShaderLayout>,
}

/// The embedded localisation bundle marker: the texts themselves ship
/// with the host shell.
pub struct LocalizationsEmbed {}

} // verus!
