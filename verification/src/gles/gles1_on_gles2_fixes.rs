//! The screen-rotation fix of the OpenGL ES 1.1 to 2.0 translator: which
//! fix is chosen.
use crate::text::eq_ignore_ascii_case;
use vstd::prelude::*;
use vstd::string::StringSliceAdditionalSpecFns;

verus! {

/// Which rotation the translator applies to the guest's projection.
#[derive(Clone, Copy, Debug, Eq, PartialEq)]
pub enum RotationFixMode {
    /// No rotation.
    Off,
    Clockwise,
    CounterClockwise,
}

/// The name of a mode.
pub open spec fn rotation_fix_name(m: RotationFixMode) -> Seq<char> {
    match m {
        RotationFixMode::Off => "none"@,
        RotationFixMode::Clockwise => "clockwise"@,
        RotationFixMode::CounterClockwise => "counter-clockwise"@,
    }
}

impl RotationFixMode {
    /// The name of the mode, for logs.
    pub fn as_str(self) -> (r: &'static str)
        ensures
            r@ == rotation_fix_name(self),
    {
        match self {
            Self::Off => "none",
            Self::Clockwise => "clockwise",
            Self::CounterClockwise => "counter-clockwise",
        }
    }
}

/// Whether `value` spells one of the given bytes, ignoring ASCII case.
pub open spec fn spells(value: Seq<u8>, word: Seq<u8>) -> bool {
    crate::text::eq_ignore_ascii_case_spec(value, word)
}

/// The mode that the value of `TOUCHHLE_GLES1_ROTATION_FIX` selects
/// (given as its bytes, `None` where it is unset or not Unicode).
pub open spec fn rotation_fix_mode_of(value: Option<Seq<u8>>) -> RotationFixMode {
    match value {
        Some(v) => if spells(v, "cw".spec_bytes()) || spells(
            v,
            "clockwise".spec_bytes(),
        ) {
            RotationFixMode::Clockwise
        } else if spells(v, "ccw".spec_bytes()) || spells(
            v,
            "counter-clockwise".spec_bytes(),
        ) || spells(v, "counterclockwise".spec_bytes()) {
            RotationFixMode::CounterClockwise
        } else {
            RotationFixMode::Off
        },
        None => RotationFixMode::Off,
    }
}

/// Chooses the rotation fix from the value of `TOUCHHLE_GLES1_ROTATION_FIX`
/// (`None` where it is unset): `cw`/`clockwise` or `ccw`/
/// `counter-clockwise`/`counterclockwise`, in any ASCII case.
pub fn rotation_fix_mode_from(value: Option<&str>) -> (r: RotationFixMode)
    ensures
        r == rotation_fix_mode_of(
            match value {
                Some(v) => Some(v.spec_bytes()),
                None => None,
            },
        ),
{
    match value {
        None => RotationFixMode::Off,
        Some(v) => {
            let b = v.as_bytes();
            if eq_ignore_ascii_case(b, "cw".as_bytes()) || eq_ignore_ascii_case(
                b,
                "clockwise".as_bytes(),
            ) {
                RotationFixMode::Clockwise
            } else if eq_ignore_ascii_case(b, "ccw".as_bytes()) || eq_ignore_ascii_case(
                b,
                "counter-clockwise".as_bytes(),
            ) || eq_ignore_ascii_case(b, "counterclockwise".as_bytes()) {
                RotationFixMode::CounterClockwise
            } else {
                RotationFixMode::Off
            }
        },
    }
}

} // verus!
