//! Command-line arguments: the options that a user sets by name, on the
//! command line or in the per-app options file. [parse_argument] says
//! which option an argument names and with what value, or why its value is
//! refused; the options whose values are floating-point numbers, network
//! addresses or paths come with their text, which is read where the
//! program starts.
use crate::gles::{gles_implementation_named, GLESImplementation};
use crate::options::text_fields::{
    after, char_from, find_char, find_size_separator, has_prefix, parse_integer, parse_integer_str,
    size_separator_from, split_commas, strip_prefix, trim, trimmed,
};
use crate::options::{
    backend_named, comma_fields, debug_str, dump_fields_parse, fallback_named, graphics_api_named,
    parse_dump_options, Arm64Backend, Arm64Fallback, Button, DumpingOptions, GraphicsApi,
};
use crate::text::str_eq;
use vstd::prelude::*;
use vstd::string::{StrSliceExecFns, StringExecFns};

verus! {

/// The kind of device the guest is shown.
#[allow(non_camel_case_types)]
#[derive(Copy, Clone, PartialEq, Eq, Debug)]
pub enum DeviceFamily {
    iPhone,
    iPad,
}

/// The family a name selects.
pub open spec fn device_family_named(s: Seq<char>) -> Option<DeviceFamily> {
    if s == "iphone"@ {
        Some(DeviceFamily::iPhone)
    } else if s == "ipad"@ {
        Some(DeviceFamily::iPad)
    } else {
        None
    }
}

impl DeviceFamily {
    /// Converts from the name used on the command line.
    pub fn from_name(name: &str) -> (r: Result<Self, ()>)
        ensures
            match r {
                Ok(f) => device_family_named(name@) == Some(f),
                Err(()) => device_family_named(name@) is None,
            },
    {
        if str_eq(name, "iphone") {
            Ok(Self::iPhone)
        } else if str_eq(name, "ipad") {
            Ok(Self::iPad)
        } else {
            Err(())
        }
    }
}

/// The orientation the device starts in.
#[derive(Copy, Clone, PartialEq, Eq, Debug)]
pub enum DeviceOrientation {
    Portrait,
    LandscapeLeft,
    LandscapeRight,
    PortraitUpsideDown,
}

/// The options given in degrees.
#[derive(Copy, Clone, PartialEq, Eq, Debug)]
pub enum DegreeOption {
    Deadzone,
    XTiltRange,
    YTiltRange,
    XTiltOffset,
    YTiltOffset,
}

/// An option named by an argument, with its value.
#[derive(Debug)]
pub enum OptionArg {
    Fullscreen,
    Orientation(DeviceOrientation),
    NoAnalogStickTilt,
    Gles2Compat,
    SoftwareRendering(bool),
    AngleDriver(bool),
    LogFile(bool),
    DirectMemoryAccess(bool),
    Headless,
    PrintFps,
    FramePacing(bool),
    FrameGeneration(bool),
    ForceComposition,
    Force32Bit,
    NoForce32Bit,
    Force64Bit,
    NoForce64Bit,
    LlvmpipeFallback(bool),
    MetalTranslator(bool),
    PreferGles2Context,
    NetworkAccess,
    NoErrorPopup,
    IgnoreGlErrors,
    TraceGlErrors(bool),
    FixTextureMinFilter(bool),
    DeviceFamily(Option<DeviceFamily>),
    IosVersion((i32, i32, i32)),
    ScreenSize((u32, u32)),
    Gles1(GLESImplementation),
    AnisotropicFiltering(u8),
    TextureUpscaler(u8),
    AntiAliasing(u8),
    Graphics(GraphicsApi),
    Backend(Arm64Backend),
    Fallback(Arm64Fallback),
    Dump(DumpingOptions),
    ZeroStack(u32),
    ScaleHack(String),
    Degrees(DegreeOption, String),
    ButtonToTouch(Button, String, String),
    StickToTouch(String),
    DpadToTouch(String),
    StabilizeVirtualCursor(String, String),
    Gdb(String),
    FpsLimit(Option<String>),
    DumpFile(String),
    PreferredLanguages(Vec<String>),
}

/// An option named by an argument, as the contracts see it.
pub enum OptionArgView {
    Fullscreen,
    Orientation(DeviceOrientation),
    NoAnalogStickTilt,
    Gles2Compat,
    SoftwareRendering(bool),
    AngleDriver(bool),
    LogFile(bool),
    DirectMemoryAccess(bool),
    Headless,
    PrintFps,
    FramePacing(bool),
    FrameGeneration(bool),
    ForceComposition,
    Force32Bit,
    NoForce32Bit,
    Force64Bit,
    NoForce64Bit,
    LlvmpipeFallback(bool),
    MetalTranslator(bool),
    PreferGles2Context,
    NetworkAccess,
    NoErrorPopup,
    IgnoreGlErrors,
    TraceGlErrors(bool),
    FixTextureMinFilter(bool),
    DeviceFamily(Option<DeviceFamily>),
    IosVersion((i32, i32, i32)),
    ScreenSize((u32, u32)),
    Gles1(GLESImplementation),
    AnisotropicFiltering(u8),
    TextureUpscaler(u8),
    AntiAliasing(u8),
    Graphics(GraphicsApi),
    Backend(Arm64Backend),
    Fallback(Arm64Fallback),
    Dump(DumpingOptions),
    ZeroStack(u32),
    ScaleHack(Seq<char>),
    Degrees(DegreeOption, Seq<char>),
    ButtonToTouch(Button, Seq<char>, Seq<char>),
    StickToTouch(Seq<char>),
    DpadToTouch(Seq<char>),
    StabilizeVirtualCursor(Seq<char>, Seq<char>),
    Gdb(Seq<char>),
    FpsLimit(Option<Seq<char>>),
    DumpFile(Seq<char>),
    PreferredLanguages(Seq<Seq<char>>),
}

impl View for OptionArg {
    type V = OptionArgView;

    open spec fn view(&self) -> OptionArgView {
        match self {
            OptionArg::Fullscreen => OptionArgView::Fullscreen,
            OptionArg::Orientation(x) => OptionArgView::Orientation(*x),
            OptionArg::NoAnalogStickTilt => OptionArgView::NoAnalogStickTilt,
            OptionArg::Gles2Compat => OptionArgView::Gles2Compat,
            OptionArg::SoftwareRendering(x) => OptionArgView::SoftwareRendering(*x),
            OptionArg::AngleDriver(x) => OptionArgView::AngleDriver(*x),
            OptionArg::LogFile(x) => OptionArgView::LogFile(*x),
            OptionArg::DirectMemoryAccess(x) => OptionArgView::DirectMemoryAccess(*x),
            OptionArg::Headless => OptionArgView::Headless,
            OptionArg::PrintFps => OptionArgView::PrintFps,
            OptionArg::FramePacing(x) => OptionArgView::FramePacing(*x),
            OptionArg::FrameGeneration(x) => OptionArgView::FrameGeneration(*x),
            OptionArg::ForceComposition => OptionArgView::ForceComposition,
            OptionArg::Force32Bit => OptionArgView::Force32Bit,
            OptionArg::NoForce32Bit => OptionArgView::NoForce32Bit,
            OptionArg::Force64Bit => OptionArgView::Force64Bit,
            OptionArg::NoForce64Bit => OptionArgView::NoForce64Bit,
            OptionArg::LlvmpipeFallback(x) => OptionArgView::LlvmpipeFallback(*x),
            OptionArg::MetalTranslator(x) => OptionArgView::MetalTranslator(*x),
            OptionArg::PreferGles2Context => OptionArgView::PreferGles2Context,
            OptionArg::NetworkAccess => OptionArgView::NetworkAccess,
            OptionArg::NoErrorPopup => OptionArgView::NoErrorPopup,
            OptionArg::IgnoreGlErrors => OptionArgView::IgnoreGlErrors,
            OptionArg::TraceGlErrors(x) => OptionArgView::TraceGlErrors(*x),
            OptionArg::FixTextureMinFilter(x) => OptionArgView::FixTextureMinFilter(*x),
            OptionArg::DeviceFamily(x) => OptionArgView::DeviceFamily(*x),
            OptionArg::IosVersion(x) => OptionArgView::IosVersion(*x),
            OptionArg::ScreenSize(x) => OptionArgView::ScreenSize(*x),
            OptionArg::Gles1(x) => OptionArgView::Gles1(*x),
            OptionArg::AnisotropicFiltering(x) => OptionArgView::AnisotropicFiltering(*x),
            OptionArg::TextureUpscaler(x) => OptionArgView::TextureUpscaler(*x),
            OptionArg::AntiAliasing(x) => OptionArgView::AntiAliasing(*x),
            OptionArg::Graphics(x) => OptionArgView::Graphics(*x),
            OptionArg::Backend(x) => OptionArgView::Backend(*x),
            OptionArg::Fallback(x) => OptionArgView::Fallback(*x),
            OptionArg::Dump(x) => OptionArgView::Dump(*x),
            OptionArg::ZeroStack(x) => OptionArgView::ZeroStack(*x),
            OptionArg::ScaleHack(s) => OptionArgView::ScaleHack(s@),
            OptionArg::Degrees(d, s) => OptionArgView::Degrees(*d, s@),
            OptionArg::ButtonToTouch(b, x, y) => OptionArgView::ButtonToTouch(*b, x@, y@),
            OptionArg::StickToTouch(s) => OptionArgView::StickToTouch(s@),
            OptionArg::DpadToTouch(s) => OptionArgView::DpadToTouch(s@),
            OptionArg::StabilizeVirtualCursor(a, b) => OptionArgView::StabilizeVirtualCursor(a@, b@),
            OptionArg::Gdb(s) => OptionArgView::Gdb(s@),
            OptionArg::FpsLimit(l) => OptionArgView::FpsLimit(match l {
                Some(s) => Some(s@),
                None => None,
            }),
            OptionArg::DumpFile(s) => OptionArgView::DumpFile(s@),
            OptionArg::PreferredLanguages(v) => OptionArgView::PreferredLanguages(v@.map_values(|x: String| x@)),
        }
    }
}

/// The option that a switch (an argument with no value) names, if `arg`
/// is one.
pub open spec fn switch_arg(arg: Seq<char>) -> Option<OptionArgView> {
    if arg == "--fullscreen"@ {
        Some(OptionArgView::Fullscreen)
    } else if arg == "--landscape-left"@ {
        Some(OptionArgView::Orientation(DeviceOrientation::LandscapeLeft))
    } else if arg == "--landscape-right"@ {
        Some(OptionArgView::Orientation(DeviceOrientation::LandscapeRight))
    } else if arg == "--upside-down"@ {
        Some(OptionArgView::Orientation(DeviceOrientation::PortraitUpsideDown))
    } else if arg == "--disable-analog-stick-tilt-controls"@ {
        Some(OptionArgView::NoAnalogStickTilt)
    } else if arg == "--gles2-compat"@ {
        Some(OptionArgView::Gles2Compat)
    } else if arg == "--software-rendering"@ {
        Some(OptionArgView::SoftwareRendering(true))
    } else if arg == "--disable-software-rendering"@ {
        Some(OptionArgView::SoftwareRendering(false))
    } else if arg == "--angle-driver"@ {
        Some(OptionArgView::AngleDriver(true))
    } else if arg == "--disable-angle-driver"@ {
        Some(OptionArgView::AngleDriver(false))
    } else if arg == "--disable-log-file"@ {
        Some(OptionArgView::LogFile(false))
    } else if arg == "--enable-log-file"@ {
        Some(OptionArgView::LogFile(true))
    } else if arg == "--disable-direct-memory-access"@ {
        Some(OptionArgView::DirectMemoryAccess(false))
    } else if arg == "--enable-direct-memory-access"@ {
        Some(OptionArgView::DirectMemoryAccess(true))
    } else if arg == "--headless"@ {
        Some(OptionArgView::Headless)
    } else if arg == "--print-fps"@ {
        Some(OptionArgView::PrintFps)
    } else if arg == "--enable-frame-pacing"@ {
        Some(OptionArgView::FramePacing(true))
    } else if arg == "--disable-frame-pacing"@ {
        Some(OptionArgView::FramePacing(false))
    } else if arg == "--frame-generation"@ {
        Some(OptionArgView::FrameGeneration(true))
    } else if arg == "--frame-generation=on"@ {
        Some(OptionArgView::FrameGeneration(true))
    } else if arg == "--disable-frame-generation"@ {
        Some(OptionArgView::FrameGeneration(false))
    } else if arg == "--frame-generation=off"@ {
        Some(OptionArgView::FrameGeneration(false))
    } else if arg == "--force-composition"@ {
        Some(OptionArgView::ForceComposition)
    } else if arg == "--force-32-bit"@ {
        Some(OptionArgView::Force32Bit)
    } else if arg == "--disable-force-32-bit"@ {
        Some(OptionArgView::NoForce32Bit)
    } else if arg == "--force-64-bit"@ {
        Some(OptionArgView::Force64Bit)
    } else if arg == "--disable-force-64-bit"@ {
        Some(OptionArgView::NoForce64Bit)
    } else if arg == "--llvmpipe-fallback"@ {
        Some(OptionArgView::LlvmpipeFallback(true))
    } else if arg == "--disable-llvmpipe-fallback"@ {
        Some(OptionArgView::LlvmpipeFallback(false))
    } else if arg == "--metal-translator"@ {
        Some(OptionArgView::MetalTranslator(true))
    } else if arg == "--disable-metal-translator"@ {
        Some(OptionArgView::MetalTranslator(false))
    } else if arg == "--prefer-gles2-context"@ {
        Some(OptionArgView::PreferGles2Context)
    } else if arg == "--allow-network-access"@ {
        Some(OptionArgView::NetworkAccess)
    } else if arg == "--no-error-popup"@ {
        Some(OptionArgView::NoErrorPopup)
    } else if arg == "--ignore-gl-errors"@ {
        Some(OptionArgView::IgnoreGlErrors)
    } else if arg == "--trace-gl-errors"@ {
        Some(OptionArgView::TraceGlErrors(true))
    } else if arg == "--disable-trace-gl-errors"@ {
        Some(OptionArgView::TraceGlErrors(false))
    } else if arg == "--fix-texture-min-filter"@ {
        Some(OptionArgView::FixTextureMinFilter(true))
    } else if arg == "--no-fix-texture-min-filter"@ {
        Some(OptionArgView::FixTextureMinFilter(false))
    } else {
        None
    }
}

/// The option that `arg` names if it is a switch.
fn switch_arg_of(arg: &str) -> (r: Option<OptionArg>)
    ensures
        match switch_arg(arg@) {
            Some(v) => r matches Some(a) && a@ == v,
            None => r is None,
        },
{
    if str_eq(arg, "--fullscreen") {
        Some(OptionArg::Fullscreen)
    } else if str_eq(arg, "--landscape-left") {
        Some(OptionArg::Orientation(DeviceOrientation::LandscapeLeft))
    } else if str_eq(arg, "--landscape-right") {
        Some(OptionArg::Orientation(DeviceOrientation::LandscapeRight))
    } else if str_eq(arg, "--upside-down") {
        Some(OptionArg::Orientation(DeviceOrientation::PortraitUpsideDown))
    } else if str_eq(arg, "--disable-analog-stick-tilt-controls") {
        Some(OptionArg::NoAnalogStickTilt)
    } else if str_eq(arg, "--gles2-compat") {
        Some(OptionArg::Gles2Compat)
    } else if str_eq(arg, "--software-rendering") {
        Some(OptionArg::SoftwareRendering(true))
    } else if str_eq(arg, "--disable-software-rendering") {
        Some(OptionArg::SoftwareRendering(false))
    } else if str_eq(arg, "--angle-driver") {
        Some(OptionArg::AngleDriver(true))
    } else if str_eq(arg, "--disable-angle-driver") {
        Some(OptionArg::AngleDriver(false))
    } else if str_eq(arg, "--disable-log-file") {
        Some(OptionArg::LogFile(false))
    } else if str_eq(arg, "--enable-log-file") {
        Some(OptionArg::LogFile(true))
    } else if str_eq(arg, "--disable-direct-memory-access") {
        Some(OptionArg::DirectMemoryAccess(false))
    } else if str_eq(arg, "--enable-direct-memory-access") {
        Some(OptionArg::DirectMemoryAccess(true))
    } else if str_eq(arg, "--headless") {
        Some(OptionArg::Headless)
    } else if str_eq(arg, "--print-fps") {
        Some(OptionArg::PrintFps)
    } else if str_eq(arg, "--enable-frame-pacing") {
        Some(OptionArg::FramePacing(true))
    } else if str_eq(arg, "--disable-frame-pacing") {
        Some(OptionArg::FramePacing(false))
    } else if str_eq(arg, "--frame-generation") {
        Some(OptionArg::FrameGeneration(true))
    } else if str_eq(arg, "--frame-generation=on") {
        Some(OptionArg::FrameGeneration(true))
    } else if str_eq(arg, "--disable-frame-generation") {
        Some(OptionArg::FrameGeneration(false))
    } else if str_eq(arg, "--frame-generation=off") {
        Some(OptionArg::FrameGeneration(false))
    } else if str_eq(arg, "--force-composition") {
        Some(OptionArg::ForceComposition)
    } else if str_eq(arg, "--force-32-bit") {
        Some(OptionArg::Force32Bit)
    } else if str_eq(arg, "--disable-force-32-bit") {
        Some(OptionArg::NoForce32Bit)
    } else if str_eq(arg, "--force-64-bit") {
        Some(OptionArg::Force64Bit)
    } else if str_eq(arg, "--disable-force-64-bit") {
        Some(OptionArg::NoForce64Bit)
    } else if str_eq(arg, "--llvmpipe-fallback") {
        Some(OptionArg::LlvmpipeFallback(true))
    } else if str_eq(arg, "--disable-llvmpipe-fallback") {
        Some(OptionArg::LlvmpipeFallback(false))
    } else if str_eq(arg, "--metal-translator") {
        Some(OptionArg::MetalTranslator(true))
    } else if str_eq(arg, "--disable-metal-translator") {
        Some(OptionArg::MetalTranslator(false))
    } else if str_eq(arg, "--prefer-gles2-context") {
        Some(OptionArg::PreferGles2Context)
    } else if str_eq(arg, "--allow-network-access") {
        Some(OptionArg::NetworkAccess)
    } else if str_eq(arg, "--no-error-popup") {
        Some(OptionArg::NoErrorPopup)
    } else if str_eq(arg, "--ignore-gl-errors") {
        Some(OptionArg::IgnoreGlErrors)
    } else if str_eq(arg, "--trace-gl-errors") {
        Some(OptionArg::TraceGlErrors(true))
    } else if str_eq(arg, "--disable-trace-gl-errors") {
        Some(OptionArg::TraceGlErrors(false))
    } else if str_eq(arg, "--fix-texture-min-filter") {
        Some(OptionArg::FixTextureMinFilter(true))
    } else if str_eq(arg, "--no-fix-texture-min-filter") {
        Some(OptionArg::FixTextureMinFilter(false))
    } else {
        None
    }
}

/// What `str::parse::<i32>` reads from `s`.
pub open spec fn parse_i32(s: Seq<char>) -> Option<int> {
    parse_integer(s, true, -0x8000_0000, 0x7fff_ffff)
}

/// What `str::parse::<u32>` reads from `s`.
pub open spec fn parse_u32(s: Seq<char>) -> Option<int> {
    parse_integer(s, false, 0, 0xffff_ffff)
}

/// The value of `--ios-version=`: `MAJOR.MINOR[.PATCH]`, each an `i32`,
/// the major version at least 1 and the others not negative; each error
/// as the fields are read in turn.
pub open spec fn ios_version_value(v: Seq<char>) -> Result<(i32, i32, i32), Seq<char>> {
    let i1 = char_from(v, '.', 0);
    match parse_i32(v.subrange(0, i1)) {
        None => Err("Invalid major version for --ios-version="@),
        Some(major) => if i1 >= v.len() {
            Err("--ios-version= requires MAJOR.MINOR[.PATCH]"@)
        } else {
            let i2 = char_from(v, '.', i1 + 1);
            match parse_i32(v.subrange(i1 + 1, i2)) {
                None => Err("Invalid minor version for --ios-version="@),
                Some(minor) => {
                    let i3 = char_from(v, '.', i2 + 1);
                    let patch = if i2 >= v.len() {
                        Some(0int)
                    } else {
                        parse_i32(v.subrange(i2 + 1, i3))
                    };
                    let more = i2 < v.len() && i3 < v.len();
                    match patch {
                        None => Err("Invalid patch version for --ios-version="@),
                        Some(patch) => if more || major < 1 || minor < 0 || patch < 0 {
                            Err("Invalid value for --ios-version="@)
                        } else {
                            Ok((major as i32, minor as i32, patch as i32))
                        },
                    }
                },
            }
        },
    }
}

/// The value of `--screen-size=`: a width and a height, each a `u32`
/// (white space around it allowed), split by `x`, `X` or `,`, neither 0.
pub open spec fn screen_size_value(v: Seq<char>) -> Result<(u32, u32), Seq<char>> {
    let i = size_separator_from(v, 0);
    if i >= v.len() {
        Err("--screen-size= requires WIDTHxHEIGHT"@)
    } else {
        match parse_u32(trimmed(v.subrange(0, i))) {
            None => Err("Invalid width for --screen-size="@),
            Some(w) => match parse_u32(trimmed(v.subrange(i + 1, v.len() as int))) {
                None => Err("Invalid height for --screen-size="@),
                Some(h) => if w == 0 || h == 0 {
                    Err("--screen-size= dimensions must be non-zero"@)
                } else {
                    Ok((w as u32, h as u32))
                },
            },
        }
    }
}

/// A quality setting: the `u8` that `v` holds (0 where it holds none),
/// if it is one of `allowed`; else the error `message`.
pub open spec fn quality_value(v: Seq<char>, message: Seq<char>, allowed: Seq<u8>) -> Result<u8, Seq<char>> {
    let x = match parse_integer(v, false, 0, 255) {
        Some(x) => x,
        None => 0,
    };
    if allowed.contains(x as u8) {
        Ok(x as u8)
    } else {
        Err(message)
    }
}

/// Reads the value of `--ios-version=`.
fn ios_version_of(v: &str) -> (r: Result<(i32, i32, i32), String>)
    ensures
        match ios_version_value(v@) {
            Ok(t) => r matches Ok(u) && u == t,
            Err(e) => r matches Err(m) && m@ == e,
        },
{
    let n = v.unicode_len();
    let i1 = find_char(v, '.', 0);
    let major = match parse_integer_str(v.substring_char(0, i1), true, -0x8000_0000, 0x7fff_ffff) {
        None => {
            return Err("Invalid major version for --ios-version=".to_owned());
        },
        Some(x) => x,
    };
    if i1 >= n {
        return Err("--ios-version= requires MAJOR.MINOR[.PATCH]".to_owned());
    }
    let i2 = find_char(v, '.', i1 + 1);
    let minor = match parse_integer_str(v.substring_char(i1 + 1, i2), true, -0x8000_0000, 0x7fff_ffff) {
        None => {
            return Err("Invalid minor version for --ios-version=".to_owned());
        },
        Some(x) => x,
    };
    let (patch, more) = if i2 >= n {
        (0i64, false)
    } else {
        let i3 = find_char(v, '.', i2 + 1);
        match parse_integer_str(v.substring_char(i2 + 1, i3), true, -0x8000_0000, 0x7fff_ffff) {
            None => {
                return Err("Invalid patch version for --ios-version=".to_owned());
            },
            Some(x) => (x, i3 < n),
        }
    };
    if more || major < 1 || minor < 0 || patch < 0 {
        return Err("Invalid value for --ios-version=".to_owned());
    }
    Ok((major as i32, minor as i32, patch as i32))
}

/// Reads the value of `--screen-size=`.
fn screen_size_of(v: &str) -> (r: Result<(u32, u32), String>)
    ensures
        match screen_size_value(v@) {
            Ok(t) => r matches Ok(u) && u == t,
            Err(e) => r matches Err(m) && m@ == e,
        },
{
    let n = v.unicode_len();
    let i = find_size_separator(v);
    if i >= n {
        return Err("--screen-size= requires WIDTHxHEIGHT".to_owned());
    }
    let w = match parse_integer_str(trim(v.substring_char(0, i)), false, 0, 0xffff_ffff) {
        None => {
            return Err("Invalid width for --screen-size=".to_owned());
        },
        Some(x) => x,
    };
    let h = match parse_integer_str(trim(v.substring_char(i + 1, n)), false, 0, 0xffff_ffff) {
        None => {
            return Err("Invalid height for --screen-size=".to_owned());
        },
        Some(x) => x,
    };
    if w == 0 || h == 0 {
        return Err("--screen-size= dimensions must be non-zero".to_owned());
    }
    Ok((w as u32, h as u32))
}

/// Reads a quality setting.
fn quality_of(v: &str, message: &str, allowed: &[u8]) -> (r: Result<u8, String>)
    ensures
        match quality_value(v@, message@, allowed@) {
            Ok(q) => r matches Ok(u) && u == q,
            Err(e) => r matches Err(m) && m@ == e,
        },
{
    let parsed = parse_integer_str(v, false, 0, 255);
    let ghost xs: int = match parse_integer(v@, false, 0, 255) {
        Some(y) => y,
        None => 0,
    };
    let x: u8 = match parsed {
        Some(y) => y as u8,
        None => 0,
    };
    assert(0 <= xs <= 255);
    assert(x as int == xs);
    assert(xs as u8 == x);
    let mut k: usize = 0;
    while k < allowed.len()
        invariant
            k <= allowed@.len(),
            x as int == xs,
            xs == (match parse_integer(v@, false, 0, 255) {
                Some(y) => y,
                None => 0,
            }),
            forall|j: int| 0 <= j < k ==> allowed@[j] != x,
        decreases allowed@.len() - k,
    {
        if allowed[k] == x {
            assert(allowed@[k as int] == x);
            assert(allowed@.contains(x));
            return Ok(x);
        }
        k = k + 1;
    }
    assert(!allowed@.contains(x));
    Err(message.to_owned())
}

/// The button a name selects.
pub open spec fn button_named(s: Seq<char>) -> Option<Button> {
    if s == "DPadLeft"@ {
        Some(Button::DPadLeft)
    } else if s == "DPadUp"@ {
        Some(Button::DPadUp)
    } else if s == "DPadRight"@ {
        Some(Button::DPadRight)
    } else if s == "DPadDown"@ {
        Some(Button::DPadDown)
    } else if s == "Start"@ {
        Some(Button::Start)
    } else if s == "A"@ {
        Some(Button::A)
    } else if s == "B"@ {
        Some(Button::B)
    } else if s == "X"@ {
        Some(Button::X)
    } else if s == "Y"@ {
        Some(Button::Y)
    } else if s == "LeftShoulder"@ {
        Some(Button::LeftShoulder)
    } else {
        None
    }
}

/// The button a name selects.
fn button_of(s: &str) -> (r: Option<Button>)
    ensures
        r == button_named(s@),
{
    if str_eq(s, "DPadLeft") {
        Some(Button::DPadLeft)
    } else if str_eq(s, "DPadUp") {
        Some(Button::DPadUp)
    } else if str_eq(s, "DPadRight") {
        Some(Button::DPadRight)
    } else if str_eq(s, "DPadDown") {
        Some(Button::DPadDown)
    } else if str_eq(s, "Start") {
        Some(Button::Start)
    } else if str_eq(s, "A") {
        Some(Button::A)
    } else if str_eq(s, "B") {
        Some(Button::B)
    } else if str_eq(s, "X") {
        Some(Button::X)
    } else if str_eq(s, "Y") {
        Some(Button::Y)
    } else if str_eq(s, "LeftShoulder") {
        Some(Button::LeftShoulder)
    } else {
        None
    }
}

/// The value of `--button-to-touch=`: a button name, then the two
/// co-ordinates (their text), split by commas.
pub open spec fn button_to_touch_value(v: Seq<char>) -> Result<OptionArgView, Seq<char>> {
    let i1 = char_from(v, ',', 0);
    let rest = v.subrange(i1 + 1, v.len() as int);
    let i2 = char_from(rest, ',', 0);
    if i1 >= v.len() || i2 >= rest.len() {
        Err("--button-to-touch= requires three values"@)
    } else {
        match button_named(v.subrange(0, i1)) {
            None => Err("Invalid button for --button-to-touch="@),
            Some(b) => Ok(
                OptionArgView::ButtonToTouch(
                    b,
                    rest.subrange(0, i2),
                    rest.subrange(i2 + 1, rest.len() as int),
                ),
            ),
        }
    }
}

/// The value of `--stabilize-virtual-cursor=`: two values (their text)
/// split by a comma.
pub open spec fn stabilize_value(v: Seq<char>) -> Result<OptionArgView, Seq<char>> {
    let i = char_from(v, ',', 0);
    if i >= v.len() {
        Err("--stabilize-virtual-cursor= requires two values"@)
    } else {
        Ok(OptionArgView::StabilizeVirtualCursor(v.subrange(0, i), v.subrange(i + 1, v.len() as int)))
    }
}

/// The option that an argument of the first group of those with a value
/// names (device, screen and input options), if it is one, or the error
/// in its value.
pub open spec fn input_arg(arg: Seq<char>) -> Option<Result<OptionArgView, Seq<char>>> {
    if has_prefix(arg, "--device-family="@) {
        let v = after(arg, "--device-family="@);
        Some(
            if v == "auto"@ {
                Ok(OptionArgView::DeviceFamily(None))
            } else {
                match device_family_named(v) {
                    None => Err("Invalid device family"@),
                    Some(f) => Ok(OptionArgView::DeviceFamily(Some(f))),
                }
            },
        )
    } else if has_prefix(arg, "--ios-version="@) {
        Some(
            match ios_version_value(after(arg, "--ios-version="@)) {
                Ok(t) => Ok(OptionArgView::IosVersion(t)),
                Err(e) => Err(e),
            },
        )
    } else if has_prefix(arg, "--screen-size="@) {
        Some(
            match screen_size_value(after(arg, "--screen-size="@)) {
                Ok(s) => Ok(OptionArgView::ScreenSize(s)),
                Err(e) => Err(e),
            },
        )
    } else if has_prefix(arg, "--scale-hack="@) {
        Some(Ok(OptionArgView::ScaleHack(after(arg, "--scale-hack="@))))
    } else if has_prefix(arg, "--deadzone="@) {
        Some(Ok(OptionArgView::Degrees(DegreeOption::Deadzone, after(arg, "--deadzone="@))))
    } else if has_prefix(arg, "--x-tilt-range="@) {
        Some(Ok(OptionArgView::Degrees(DegreeOption::XTiltRange, after(arg, "--x-tilt-range="@))))
    } else if has_prefix(arg, "--y-tilt-range="@) {
        Some(Ok(OptionArgView::Degrees(DegreeOption::YTiltRange, after(arg, "--y-tilt-range="@))))
    } else if has_prefix(arg, "--x-tilt-offset="@) {
        Some(Ok(OptionArgView::Degrees(DegreeOption::XTiltOffset, after(arg, "--x-tilt-offset="@))))
    } else if has_prefix(arg, "--y-tilt-offset="@) {
        Some(Ok(OptionArgView::Degrees(DegreeOption::YTiltOffset, after(arg, "--y-tilt-offset="@))))
    } else if has_prefix(arg, "--button-to-touch="@) {
        Some(button_to_touch_value(after(arg, "--button-to-touch="@)))
    } else if has_prefix(arg, "--stick-to-touch="@) {
        Some(Ok(OptionArgView::StickToTouch(after(arg, "--stick-to-touch="@))))
    } else if has_prefix(arg, "--dpad-to-touch="@) {
        Some(Ok(OptionArgView::DpadToTouch(after(arg, "--dpad-to-touch="@))))
    } else if has_prefix(arg, "--stabilize-virtual-cursor="@) {
        Some(stabilize_value(after(arg, "--stabilize-virtual-cursor="@)))
    } else {
        None
    }
}

/// The option that an argument of the second group of those with a value
/// names (graphics, runtime and diagnostics options), if it is one, or the
/// error in its value.
pub open spec fn engine_arg(arg: Seq<char>) -> Option<Result<OptionArgView, Seq<char>>> {
    if has_prefix(arg, "--gles1="@) {
        Some(
            match gles_implementation_named(after(arg, "--gles1="@)) {
                None => Err("Unrecognized --gles1= value"@),
                Some(i) => Ok(OptionArgView::Gles1(i)),
            },
        )
    } else if has_prefix(arg, "--anisotropic-filtering="@) {
        Some(
            match quality_value(
                after(arg, "--anisotropic-filtering="@),
                "Invalid value for --anisotropic-filtering="@,
                seq![1u8, 2u8, 4u8, 8u8, 16u8],
            ) {
                Ok(q) => Ok(OptionArgView::AnisotropicFiltering(q)),
                Err(e) => Err(e),
            },
        )
    } else if has_prefix(arg, "--texture-upscaler="@) {
        Some(
            match quality_value(
                after(arg, "--texture-upscaler="@),
                "Invalid value for --texture-upscaler="@,
                seq![1u8, 2u8, 3u8, 4u8],
            ) {
                Ok(q) => Ok(OptionArgView::TextureUpscaler(q)),
                Err(e) => Err(e),
            },
        )
    } else if has_prefix(arg, "--anti-aliasing="@) {
        Some(
            match quality_value(
                after(arg, "--anti-aliasing="@),
                "Invalid value for --anti-aliasing="@,
                seq![1u8, 2u8, 4u8, 8u8],
            ) {
                Ok(q) => Ok(OptionArgView::AntiAliasing(q)),
                Err(e) => Err(e),
            },
        )
    } else if has_prefix(arg, "--graphics-api="@) {
        Some(
            match graphics_api_named(after(arg, "--graphics-api="@)) {
                None => Err("Unrecognized --graphics-api= value"@),
                Some(a) => if a == GraphicsApi::Software {
                    Err("Software rendering is controlled by --software-rendering"@)
                } else {
                    Ok(OptionArgView::Graphics(a))
                },
            },
        )
    } else if has_prefix(arg, "--gdb="@) {
        Some(Ok(OptionArgView::Gdb(after(arg, "--gdb="@))))
    } else if has_prefix(arg, "--preferred-languages="@) {
        Some(Ok(OptionArgView::PreferredLanguages(comma_fields(after(arg, "--preferred-languages="@), 0))))
    } else if has_prefix(arg, "--fps-limit="@) {
        let v = after(arg, "--fps-limit="@);
        Some(Ok(OptionArgView::FpsLimit(if v == "off"@ { None } else { Some(v) })))
    } else if has_prefix(arg, "--arm64-backend="@) {
        let v = after(arg, "--arm64-backend="@);
        Some(
            match backend_named(v) {
                Some(b) => Ok(OptionArgView::Backend(b)),
                None => Err(
                    "Unknown ARM64 backend "@ + debug_str(v) + "; expected auto, jit, or interpreter"@,
                ),
            },
        )
    } else if has_prefix(arg, "--arm64-fallback="@) {
        let v = after(arg, "--arm64-fallback="@);
        Some(
            match fallback_named(v) {
                Some(f) => Ok(OptionArgView::Fallback(f)),
                None => Err("Unknown ARM64 fallback "@ + debug_str(v) + "; expected jit or interpreter"@),
            },
        )
    } else if has_prefix(arg, "--dump="@) {
        Some(
            match dump_fields_parse(
                comma_fields(after(arg, "--dump="@), 0),
                0,
                DumpingOptions { linking_info: false, symbols: false },
            ) {
                Ok(d) => Ok(OptionArgView::Dump(d)),
                Err(e) => Err(e),
            },
        )
    } else if has_prefix(arg, "--dump-file="@) {
        Some(Ok(OptionArgView::DumpFile(after(arg, "--dump-file="@))))
    } else if has_prefix(arg, "--zero-stack-after-guest-to-host-call="@) {
        Some(
            match parse_u32(after(arg, "--zero-stack-after-guest-to-host-call="@)) {
                None => Err("Invalid value for --zero-stack-after-guest-to-host-call="@),
                Some(x) => Ok(OptionArgView::ZeroStack(x as u32)),
            },
        )
    } else {
        None
    }
}

/// The option that `arg` names and its value: `Ok(None)` where it names
/// none, the error where its value is refused.
pub open spec fn option_arg_spec(arg: Seq<char>) -> Result<Option<OptionArgView>, Seq<char>> {
    match switch_arg(arg) {
        Some(v) => Ok(Some(v)),
        None => match input_arg(arg) {
            Some(Ok(v)) => Ok(Some(v)),
            Some(Err(e)) => Err(e),
            None => match engine_arg(arg) {
                Some(Ok(v)) => Ok(Some(v)),
                Some(Err(e)) => Err(e),
                None => Ok(None),
            },
        },
    }
}


/// The switch that selects the starting orientation `o`; portrait, the
/// default, has none.
pub open spec fn orientation_switch(o: DeviceOrientation) -> Option<Seq<char>> {
    match o {
        DeviceOrientation::Portrait => None,
        DeviceOrientation::LandscapeLeft => Some("--landscape-left"@),
        DeviceOrientation::LandscapeRight => Some("--landscape-right"@),
        DeviceOrientation::PortraitUpsideDown => Some("--upside-down"@),
    }
}

/// Each orientation switch selects the orientation it names, and an
/// argument that selects an orientation is the switch naming it: so
/// distinct orientation switches select distinct orientations.
pub proof fn law_orientation_switches(o: DeviceOrientation, arg: Seq<char>)
    ensures
        orientation_switch(o) matches Some(name) ==> option_arg_spec(name) == Ok::<
            Option<OptionArgView>,
            Seq<char>,
        >(Some(OptionArgView::Orientation(o))),
        option_arg_spec(arg) == Ok::<Option<OptionArgView>, Seq<char>>(Some(OptionArgView::Orientation(o)))
            ==> orientation_switch(o) == Some(arg),
{
    reveal_strlit("--fullscreen");
    reveal_strlit("--landscape-left");
    reveal_strlit("--landscape-right");
    reveal_strlit("--upside-down");
}

/// Whether `v` is an option that an argument without a value names.
pub open spec fn switch_option(v: OptionArgView) -> bool {
    match v {
        OptionArgView::Fullscreen | OptionArgView::Orientation(_) | OptionArgView::NoAnalogStickTilt
        | OptionArgView::Gles2Compat | OptionArgView::SoftwareRendering(_) | OptionArgView::AngleDriver(_)
        | OptionArgView::LogFile(_) | OptionArgView::DirectMemoryAccess(_) | OptionArgView::Headless
        | OptionArgView::PrintFps | OptionArgView::FramePacing(_) | OptionArgView::FrameGeneration(_)
        | OptionArgView::ForceComposition | OptionArgView::Force32Bit | OptionArgView::NoForce32Bit
        | OptionArgView::Force64Bit | OptionArgView::NoForce64Bit | OptionArgView::LlvmpipeFallback(_)
        | OptionArgView::MetalTranslator(_) | OptionArgView::PreferGles2Context
        | OptionArgView::NetworkAccess | OptionArgView::NoErrorPopup | OptionArgView::IgnoreGlErrors
        | OptionArgView::TraceGlErrors(_) | OptionArgView::FixTextureMinFilter(_) => true,
        _ => false,
    }
}

/// Distinct switches name distinct settings: two arguments that name the
/// same switch option are the same argument, but for the two spellings of
/// turning frame generation on (`--frame-generation`, `--frame-generation=on`)
/// and off (`--disable-frame-generation`, `--frame-generation=off`).
pub proof fn law_switches_are_distinct(a: Seq<char>, b: Seq<char>, v: OptionArgView)
    requires
        switch_option(v),
        option_arg_spec(a) == Ok::<Option<OptionArgView>, Seq<char>>(Some(v)),
        option_arg_spec(b) == Ok::<Option<OptionArgView>, Seq<char>>(Some(v)),
    ensures
        a == b || v is FrameGeneration,
{
}

/// Reads the value of `--button-to-touch=`.
fn button_to_touch_of(v: &str) -> (r: Result<OptionArg, String>)
    ensures
        match button_to_touch_value(v@) {
            Ok(x) => r matches Ok(a) && a@ == x,
            Err(e) => r matches Err(m) && m@ == e,
        },
{
    let n = v.unicode_len();
    let i1 = find_char(v, ',', 0);
    if i1 >= n {
        return Err("--button-to-touch= requires three values".to_owned());
    }
    let rest = v.substring_char(i1 + 1, n);
    let m = rest.unicode_len();
    let i2 = find_char(rest, ',', 0);
    if i2 >= m {
        return Err("--button-to-touch= requires three values".to_owned());
    }
    match button_of(v.substring_char(0, i1)) {
        None => Err("Invalid button for --button-to-touch=".to_owned()),
        Some(b) => Ok(
            OptionArg::ButtonToTouch(
                b,
                String::from_str(rest.substring_char(0, i2)),
                String::from_str(rest.substring_char(i2 + 1, m)),
            ),
        ),
    }
}

/// Reads the value of `--stabilize-virtual-cursor=`.
fn stabilize_of(v: &str) -> (r: Result<OptionArg, String>)
    ensures
        match stabilize_value(v@) {
            Ok(x) => r matches Ok(a) && a@ == x,
            Err(e) => r matches Err(m) && m@ == e,
        },
{
    let n = v.unicode_len();
    let i = find_char(v, ',', 0);
    if i >= n {
        return Err("--stabilize-virtual-cursor= requires two values".to_owned());
    }
    Ok(
        OptionArg::StabilizeVirtualCursor(
            String::from_str(v.substring_char(0, i)),
            String::from_str(v.substring_char(i + 1, n)),
        ),
    )
}

/// The option of the first group with a value that `arg` names.
fn input_arg_of(arg: &str) -> (r: Option<Result<OptionArg, String>>)
    ensures
        match input_arg(arg@) {
            None => r is None,
            Some(Ok(x)) => r matches Some(Ok(a)) && a@ == x,
            Some(Err(e)) => r matches Some(Err(m)) && m@ == e,
        },
{
    if let Some(v) = strip_prefix(arg, "--device-family=") {
        if str_eq(v, "auto") {
            Some(Ok(OptionArg::DeviceFamily(None)))
        } else {
            match DeviceFamily::from_name(v) {
                Ok(f) => Some(Ok(OptionArg::DeviceFamily(Some(f)))),
                Err(()) => Some(Err("Invalid device family".to_owned())),
            }
        }
    } else if let Some(v) = strip_prefix(arg, "--ios-version=") {
        match ios_version_of(v) {
            Ok(t) => Some(Ok(OptionArg::IosVersion(t))),
            Err(e) => Some(Err(e)),
        }
    } else if let Some(v) = strip_prefix(arg, "--screen-size=") {
        match screen_size_of(v) {
            Ok(s) => Some(Ok(OptionArg::ScreenSize(s))),
            Err(e) => Some(Err(e)),
        }
    } else if let Some(v) = strip_prefix(arg, "--scale-hack=") {
        Some(Ok(OptionArg::ScaleHack(String::from_str(v))))
    } else if let Some(v) = strip_prefix(arg, "--deadzone=") {
        Some(Ok(OptionArg::Degrees(DegreeOption::Deadzone, String::from_str(v))))
    } else if let Some(v) = strip_prefix(arg, "--x-tilt-range=") {
        Some(Ok(OptionArg::Degrees(DegreeOption::XTiltRange, String::from_str(v))))
    } else if let Some(v) = strip_prefix(arg, "--y-tilt-range=") {
        Some(Ok(OptionArg::Degrees(DegreeOption::YTiltRange, String::from_str(v))))
    } else if let Some(v) = strip_prefix(arg, "--x-tilt-offset=") {
        Some(Ok(OptionArg::Degrees(DegreeOption::XTiltOffset, String::from_str(v))))
    } else if let Some(v) = strip_prefix(arg, "--y-tilt-offset=") {
        Some(Ok(OptionArg::Degrees(DegreeOption::YTiltOffset, String::from_str(v))))
    } else if let Some(v) = strip_prefix(arg, "--button-to-touch=") {
        Some(button_to_touch_of(v))
    } else if let Some(v) = strip_prefix(arg, "--stick-to-touch=") {
        Some(Ok(OptionArg::StickToTouch(String::from_str(v))))
    } else if let Some(v) = strip_prefix(arg, "--dpad-to-touch=") {
        Some(Ok(OptionArg::DpadToTouch(String::from_str(v))))
    } else if let Some(v) = strip_prefix(arg, "--stabilize-virtual-cursor=") {
        Some(stabilize_of(v))
    } else {
        None
    }
}

/// The option of the second group with a value that `arg` names.
fn engine_arg_of(arg: &str) -> (r: Option<Result<OptionArg, String>>)
    ensures
        match engine_arg(arg@) {
            None => r is None,
            Some(Ok(x)) => r matches Some(Ok(a)) && a@ == x,
            Some(Err(e)) => r matches Some(Err(m)) && m@ == e,
        },
{
    if let Some(v) = strip_prefix(arg, "--gles1=") {
        match GLESImplementation::from_short_name(v) {
            Ok(i) => Some(Ok(OptionArg::Gles1(i))),
            Err(()) => Some(Err("Unrecognized --gles1= value".to_owned())),
        }
    } else if let Some(v) = strip_prefix(arg, "--anisotropic-filtering=") {
        let allowed: [u8; 5] = [1, 2, 4, 8, 16];
        assert(allowed@ =~= seq![1u8, 2u8, 4u8, 8u8, 16u8]);
        match quality_of(v, "Invalid value for --anisotropic-filtering=", &allowed) {
            Ok(q) => Some(Ok(OptionArg::AnisotropicFiltering(q))),
            Err(e) => Some(Err(e)),
        }
    } else if let Some(v) = strip_prefix(arg, "--texture-upscaler=") {
        let allowed: [u8; 4] = [1, 2, 3, 4];
        assert(allowed@ =~= seq![1u8, 2u8, 3u8, 4u8]);
        match quality_of(v, "Invalid value for --texture-upscaler=", &allowed) {
            Ok(q) => Some(Ok(OptionArg::TextureUpscaler(q))),
            Err(e) => Some(Err(e)),
        }
    } else if let Some(v) = strip_prefix(arg, "--anti-aliasing=") {
        let allowed: [u8; 4] = [1, 2, 4, 8];
        assert(allowed@ =~= seq![1u8, 2u8, 4u8, 8u8]);
        match quality_of(v, "Invalid value for --anti-aliasing=", &allowed) {
            Ok(q) => Some(Ok(OptionArg::AntiAliasing(q))),
            Err(e) => Some(Err(e)),
        }
    } else if let Some(v) = strip_prefix(arg, "--graphics-api=") {
        match GraphicsApi::from_short_name(v) {
            Ok(a) => {
                if let GraphicsApi::Software = a {
                    Some(Err("Software rendering is controlled by --software-rendering".to_owned()))
                } else {
                    Some(Ok(OptionArg::Graphics(a)))
                }
            },
            Err(()) => Some(Err("Unrecognized --graphics-api= value".to_owned())),
        }
    } else if let Some(v) = strip_prefix(arg, "--gdb=") {
        Some(Ok(OptionArg::Gdb(String::from_str(v))))
    } else if let Some(v) = strip_prefix(arg, "--preferred-languages=") {
        Some(Ok(OptionArg::PreferredLanguages(split_commas(v))))
    } else if let Some(v) = strip_prefix(arg, "--fps-limit=") {
        if str_eq(v, "off") {
            Some(Ok(OptionArg::FpsLimit(None)))
        } else {
            Some(Ok(OptionArg::FpsLimit(Some(String::from_str(v)))))
        }
    } else if let Some(v) = strip_prefix(arg, "--arm64-backend=") {
        match Arm64Backend::parse(v) {
            Ok(b) => Some(Ok(OptionArg::Backend(b))),
            Err(e) => Some(Err(e)),
        }
    } else if let Some(v) = strip_prefix(arg, "--arm64-fallback=") {
        match Arm64Fallback::parse(v) {
            Ok(f) => Some(Ok(OptionArg::Fallback(f))),
            Err(e) => Some(Err(e)),
        }
    } else if let Some(v) = strip_prefix(arg, "--dump=") {
        match parse_dump_options(v) {
            Ok(d) => Some(Ok(OptionArg::Dump(d))),
            Err(e) => Some(Err(e)),
        }
    } else if let Some(v) = strip_prefix(arg, "--dump-file=") {
        Some(Ok(OptionArg::DumpFile(String::from_str(v))))
    } else if let Some(v) = strip_prefix(arg, "--zero-stack-after-guest-to-host-call=") {
        match parse_integer_str(v, false, 0, 0xffff_ffff) {
            Some(x) => Some(Ok(OptionArg::ZeroStack(x as u32))),
            None => Some(Err("Invalid value for --zero-stack-after-guest-to-host-call=".to_owned())),
        }
    } else {
        None
    }
}

/// Parses the command-line syntax of an option: the option `arg` names,
/// with its value, `Ok(None)` where it names none, or the error where its
/// value is refused (as [option_arg_spec] says).
pub fn parse_argument(arg: &str) -> (r: Result<Option<OptionArg>, String>)
    ensures
        match option_arg_spec(arg@) {
            Ok(None) => r matches Ok(None),
            Ok(Some(v)) => r matches Ok(Some(a)) && a@ == v,
            Err(e) => r matches Err(m) && m@ == e,
        },
{
    if let Some(a) = switch_arg_of(arg) {
        return Ok(Some(a));
    }
    match input_arg_of(arg) {
        Some(Ok(a)) => {
            return Ok(Some(a));
        },
        Some(Err(e)) => {
            return Err(e);
        },
        None => {},
    }
    match engine_arg_of(arg) {
        Some(Ok(a)) => Ok(Some(a)),
        Some(Err(e)) => Err(e),
        None => Ok(None),
    }
}

} // verus!
