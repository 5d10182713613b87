//! OpenGL ES: the choice of implementation, and the parts of frame
//! presentation that decide rather than draw.
use crate::text::str_eq;
use vstd::prelude::*;

pub mod drivers;
pub mod gles1_on_gles2;
pub mod gles1_on_gles2_fixes;
pub mod gles1_state;
pub mod present;
pub mod wgpu;

verus! {

/// Labels for the OpenGL ES 1.1 implementations.
#[derive(Copy, Clone, PartialEq, Eq, Debug)]
pub enum GLESImplementation {
    /// OpenGL ES 1.1 provided by the host driver.
    GLES1Native,
    /// OpenGL ES 1.1 emulated on desktop OpenGL 2.1.
    GLES1OnGL2,
    /// OpenGL ES 1.1 translated to OpenGL ES 2.0 shaders.
    GLES1OnGLES2,
    /// OpenGL ES 1.1 translated to OpenGL ES 3.0 shaders.
    GLES1OnGLES3,
    /// The CPU rasterizer.
    Software,
}

/// The implementation a short name selects.
pub open spec fn gles_implementation_named(s: Seq<char>) -> Option<GLESImplementation> {
    if s == "gles1_on_gl2"@ {
        Some(GLESImplementation::GLES1OnGL2)
    } else if s == "gles1_on_gles2"@ {
        Some(GLESImplementation::GLES1OnGLES2)
    } else if s == "gles1_on_gles3"@ {
        Some(GLESImplementation::GLES1OnGLES3)
    } else if s == "gles1_native"@ {
        Some(GLESImplementation::GLES1Native)
    } else if s == "software"@ || s == "software-rendering"@ || s == "cpu"@ {
        Some(GLESImplementation::Software)
    } else {
        None
    }
}

impl GLESImplementation {
    /// The OpenGL ES 1.1 implementations in order of preference.
    pub fn gles1_implementations() -> (r: Vec<Self>)
        ensures
            r@ == seq![GLESImplementation::GLES1Native, GLESImplementation::GLES1OnGL2],
    {
        let r = vec![Self::GLES1Native, Self::GLES1OnGL2];
        assert(r@ =~= seq![GLESImplementation::GLES1Native, GLESImplementation::GLES1OnGL2]);
        r
    }

    /// Converts from the short name used for command-line arguments.
    /// Returns [Err] if the name is not recognized.
    pub fn from_short_name(name: &str) -> (r: Result<Self, ()>)
        ensures
            match r {
                Ok(i) => gles_implementation_named(name@) == Some(i),
                Err(()) => gles_implementation_named(name@) is None,
            },
    {
        if str_eq(name, "gles1_on_gl2") {
            Ok(Self::GLES1OnGL2)
        } else if str_eq(name, "gles1_on_gles2") {
            Ok(Self::GLES1OnGLES2)
        } else if str_eq(name, "gles1_on_gles3") {
            Ok(Self::GLES1OnGLES3)
        } else if str_eq(name, "gles1_native") {
            Ok(Self::GLES1Native)
        } else if str_eq(name, "software") || str_eq(name, "software-rendering") || str_eq(
            name,
            "cpu",
        ) {
            Ok(Self::Software)
        } else {
            Err(())
        }
    }
}

/// How an OpenGL ES 1.1 context is to be made.
#[derive(Clone, PartialEq, Eq, Debug)]
pub enum Gles1Plan {
    /// Use the built-in CPU rasterizer directly.
    BuiltInSoftware,
    /// Try these implementations in turn until one can be constructed.
    TryInOrder(Vec<GLESImplementation>),
}

/// The implementations to try for an OpenGL ES 1.1 context: the built-in
/// rasterizer where software rendering is asked for and no native LLVMPipe
/// driver is there; otherwise the preferred implementation alone where one
/// is configured, and else the default list.
pub fn gles1_plan(
    software_rendering: bool,
    llvmpipe_available: bool,
    preference: Option<GLESImplementation>,
) -> (r: Gles1Plan)
    ensures
        software_rendering && !llvmpipe_available ==> r == Gles1Plan::BuiltInSoftware,
        !(software_rendering && !llvmpipe_available) ==> (r matches Gles1Plan::TryInOrder(list)
            && list@ == match preference {
            Some(p) => seq![p],
            None => seq![GLESImplementation::GLES1Native, GLESImplementation::GLES1OnGL2],
        }),
{
    if software_rendering && !llvmpipe_available {
        return Gles1Plan::BuiltInSoftware;
    }
    match preference {
        Some(p) => {
            let list = vec![p];
            assert(list@ =~= seq![p]);
            Gles1Plan::TryInOrder(list)
        },
        None => Gles1Plan::TryInOrder(GLESImplementation::gles1_implementations()),
    }
}

/// The OpenGL ES 2.0 and 3.0 backends.
#[derive(Copy, Clone, PartialEq, Eq, Debug)]
pub enum ContextBackend {
    /// A native OpenGL ES 2.0 driver.
    GLES2Native,
    /// OpenGL ES 2.0 on desktop OpenGL 3.3 Core.
    GLES2OnGL3,
    /// The legacy route through desktop OpenGL 2.1 compatibility profile.
    GLES1OnGL2,
    /// A native OpenGL ES 3.0 driver.
    GLES3Native,
    /// OpenGL ES 3.0 on desktop OpenGL 3.3 Core.
    GLES3OnGL3,
}

/// The backends tried for an OpenGL ES 2.0 context, from the most correct
/// to the last resort.
pub fn gles2_backends() -> (r: Vec<ContextBackend>)
    ensures
        r@ == seq![ContextBackend::GLES2Native, ContextBackend::GLES2OnGL3, ContextBackend::GLES1OnGL2],
{
    let r = vec![ContextBackend::GLES2Native, ContextBackend::GLES2OnGL3, ContextBackend::GLES1OnGL2];
    assert(r@ =~= seq![
        ContextBackend::GLES2Native,
        ContextBackend::GLES2OnGL3,
        ContextBackend::GLES1OnGL2,
    ]);
    r
}

/// The backends tried for an OpenGL ES 3.0 context: native first, then the
/// desktop translation.
pub fn gles3_backends() -> (r: Vec<ContextBackend>)
    ensures
        r@ == seq![ContextBackend::GLES3Native, ContextBackend::GLES3OnGL3],
{
    let r = vec![ContextBackend::GLES3Native, ContextBackend::GLES3OnGL3];
    assert(r@ =~= seq![ContextBackend::GLES3Native, ContextBackend::GLES3OnGL3]);
    r
}

} // verus!
