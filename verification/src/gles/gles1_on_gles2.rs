//! The OpenGL ES 1.1 matrix stack as the GLES 2 translator names it.
use vstd::prelude::*;

verus! {

/// `GL_MODELVIEW`.
pub const MODELVIEW: u32 = 0x1700;

/// `GL_PROJECTION`.
pub const PROJECTION: u32 = 0x1701;

/// `GL_TEXTURE`.
pub const TEXTURE: u32 = 0x1702;

/// `GL_MATRIX_PALETTE_OES`.
pub const MATRIX_PALETTE_OES: u32 = 0x8840;

/// The name of a matrix mode, as the translator's trace prints it.
pub fn matrix_mode_name(mode: u32) -> (r: &'static str)
    ensures
        r == (if mode == MODELVIEW {
            "GL_MODELVIEW"
        } else if mode == PROJECTION {
            "GL_PROJECTION"
        } else if mode == TEXTURE {
            "GL_TEXTURE"
        } else if mode == MATRIX_PALETTE_OES {
            "GL_MATRIX_PALETTE_OES"
        } else {
            "UNKNOWN"
        }),
{
    if mode == MODELVIEW {
        "GL_MODELVIEW"
    } else if mode == PROJECTION {
        "GL_PROJECTION"
    } else if mode == TEXTURE {
        "GL_TEXTURE"
    } else if mode == MATRIX_PALETTE_OES {
        "GL_MATRIX_PALETTE_OES"
    } else {
        "UNKNOWN"
    }
}

} // verus!
