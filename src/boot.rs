//! What the firmware reports of the framebuffer.
use vstd::prelude::*;

verus! {

/// The base address of the framebuffer, its pixel model and its mode.
#[derive(Clone, Debug)]
pub struct FrameBuf {
    pub fb: u64,
    pub model: FBModel,
    pub mode: FBMode,
}

/// The order of the colour channels in a pixel.
#[derive(Clone, Copy, Debug, PartialEq, Eq, Structural)]
pub enum FBModel {
    RGB,
    BGR,
}

/// Bits per pixel, width and height.
#[derive(Clone, Debug)]
pub struct FBMode {
    pub bitsperpixel: u16,
    pub width: u64,
    pub height: u64,
}

} // verus!
