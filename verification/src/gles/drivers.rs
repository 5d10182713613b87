//! Choosing a user-supplied EGL/GLES driver or ANGLE before the window is
//! made, and the quality and tracing settings of the GLES layers. Looking
//! at the file system, unpacking archives and setting the environment for
//! SDL is the caller's; these functions make the choices.
use crate::text::{eq_ignore_ascii_case, eq_ignore_ascii_case_spec};
use vstd::prelude::*;
use vstd::string::StringSliceAdditionalSpecFns;

verus! {

/// The quality settings as they are kept: the texture upscaler from 1 to
/// 4, anti-aliasing from 1 to 8 samples, memory management at most 2.
pub fn quality_options(texture_upscaler: u8, anti_aliasing: u8, memory_management: u8) -> (r: (
    u8,
    u8,
    u8,
))
    ensures
        r.0 == if texture_upscaler < 1 {
            1
        } else if texture_upscaler > 4 {
            4
        } else {
            texture_upscaler
        },
        r.1 == if anti_aliasing < 1 {
            1
        } else if anti_aliasing > 8 {
            8
        } else {
            anti_aliasing
        },
        r.2 == if memory_management > 2 {
            2
        } else {
            memory_management
        },
{
    let t = if texture_upscaler < 1 {
        1
    } else if texture_upscaler > 4 {
        4
    } else {
        texture_upscaler
    };
    let a = if anti_aliasing < 1 {
        1
    } else if anti_aliasing > 8 {
        8
    } else {
        anti_aliasing
    };
    let m = if memory_management > 2 {
        2
    } else {
        memory_management
    };
    (t, a, m)
}

/// What the translator trace does with its `number`th event (from 0).
#[derive(Clone, Copy, Debug, PartialEq, Eq)]
pub enum TraceLine {
    /// Log the event under this number (from 1).
    Event(u32),
    /// Say that further events are suppressed.
    Suppressed,
    /// Stay quiet.
    Silent,
}

/// The first 512 events are logged, then one line says the rest are
/// suppressed.
pub fn trace_line(number: u32) -> (r: TraceLine)
    ensures
        r == if number < 512 {
            TraceLine::Event((number + 1) as u32)
        } else if number == 512 {
            TraceLine::Suppressed
        } else {
            TraceLine::Silent
        },
{
    if number < 512 {
        TraceLine::Event(number + 1)
    } else if number == 512 {
        TraceLine::Suppressed
    } else {
        TraceLine::Silent
    }
}

/// The EGL library names looked for, in order of preference.
pub fn egl_library_names() -> (r: Vec<&'static str>)
    ensures
        r@ == seq![
            "libEGL.so",
            "libEGL.so.1",
            "libEGL_adreno.so",
            "libEGL_angle.so",
            "libEGL_mesa.so",
            "libEGL.dylib",
            "libEGL.dll",
        ],
{
    vec![
        "libEGL.so",
        "libEGL.so.1",
        "libEGL_adreno.so",
        "libEGL_angle.so",
        "libEGL_mesa.so",
        "libEGL.dylib",
        "libEGL.dll",
    ]
}

/// The GLES library names looked for, in order of preference.
pub fn gles_library_names() -> (r: Vec<&'static str>)
    ensures
        r@ == seq![
            "libGLESv2.so",
            "libGLESv2.so.2",
            "libGLESv2_adreno.so",
            "libGLESv2_angle.so",
            "libGLESv2_mesa.so",
            "libGLESv3.so",
            "libGLESv2.dylib",
            "libGLESv2.dll",
        ],
{
    vec![
        "libGLESv2.so",
        "libGLESv2.so.2",
        "libGLESv2_adreno.so",
        "libGLESv2_angle.so",
        "libGLESv2_mesa.so",
        "libGLESv3.so",
        "libGLESv2.dylib",
        "libGLESv2.dll",
    ]
}

/// The preference of a file named `name` among `names`.
pub fn library_rank(name: &str, names: &[&str]) -> (r: Option<usize>)
    ensures
        match r {
            Some(i) => i < names@.len() && eq_ignore_ascii_case_spec(
                name.spec_bytes(),
                names@[i as int].spec_bytes(),
            ) && forall|j: int|
                0 <= j < i ==> !eq_ignore_ascii_case_spec(name.spec_bytes(), #[trigger] names@[j].spec_bytes()),
            None => forall|j: int|
                0 <= j < names@.len() ==> !eq_ignore_ascii_case_spec(
                    name.spec_bytes(),
                    #[trigger] names@[j].spec_bytes(),
                ),
        },
{
    let mut i: usize = 0;
    while i < names.len()
        invariant
            0 <= i <= names.len(),
            forall|j: int|
                0 <= j < i ==> !eq_ignore_ascii_case_spec(name.spec_bytes(), #[trigger] names@[j].spec_bytes()),
        decreases names.len() - i,
    {
        if eq_ignore_ascii_case(name.as_bytes(), names[i].as_bytes()) {
            return Some(i);
        }
        i = i + 1;
    }
    None
}

/// Byte strings in strict lexicographic order.
pub open spec fn bytes_lt(a: Seq<u8>, b: Seq<u8>) -> bool
    decreases a.len(),
{
    if a.len() == 0 {
        b.len() > 0
    } else if b.len() == 0 {
        false
    } else if a[0] != b[0] {
        a[0] < b[0]
    } else {
        bytes_lt(a.drop_first(), b.drop_first())
    }
}

/// Paths, as their components, in the strict order `Path` gives them:
/// component by component.
pub open spec fn path_lt(a: Seq<Seq<u8>>, b: Seq<Seq<u8>>) -> bool
    decreases a.len(),
{
    if a.len() == 0 {
        b.len() > 0
    } else if b.len() == 0 {
        false
    } else if a[0] != b[0] {
        bytes_lt(a[0], b[0])
    } else {
        path_lt(a.drop_first(), b.drop_first())
    }
}

/// Whether the match `(rank, path)` `a` comes before `b`: by rank, then by
/// path.
pub open spec fn match_lt(a: (usize, Seq<Seq<u8>>), b: (usize, Seq<Seq<u8>>)) -> bool {
    a.0 < b.0 || (a.0 == b.0 && path_lt(a.1, b.1))
}

pub proof fn lemma_bytes_lt_order(a: Seq<u8>, b: Seq<u8>, c: Seq<u8>)
    ensures
        !bytes_lt(a, a),
        bytes_lt(a, b) && bytes_lt(b, c) ==> bytes_lt(a, c),
        a != b ==> bytes_lt(a, b) || bytes_lt(b, a),
    decreases a.len(),
{
    if a.len() > 0 {
        lemma_bytes_lt_order(a.drop_first(), b.drop_first(), c.drop_first());
        if b.len() > 0 && a[0] == b[0] && a != b {
            if a.drop_first() == b.drop_first() {
                assert(a =~= seq![a[0]] + a.drop_first());
                assert(b =~= seq![b[0]] + b.drop_first());
            }
        }
    } else {
        if b.len() == 0 {
            assert(a =~= b);
        }
    }
}

pub proof fn lemma_path_lt_order(a: Seq<Seq<u8>>, b: Seq<Seq<u8>>, c: Seq<Seq<u8>>)
    ensures
        !path_lt(a, a),
        path_lt(a, b) && path_lt(b, c) ==> path_lt(a, c),
        a != b ==> path_lt(a, b) || path_lt(b, a),
    decreases a.len(),
{
    if a.len() > 0 {
        lemma_path_lt_order(a.drop_first(), b.drop_first(), c.drop_first());
        if b.len() > 0 {
            lemma_bytes_lt_order(a[0], b[0], a[0]);
            if c.len() > 0 {
                lemma_bytes_lt_order(a[0], b[0], c[0]);
                lemma_bytes_lt_order(b[0], c[0], a[0]);
                lemma_bytes_lt_order(a[0], c[0], b[0]);
                lemma_bytes_lt_order(c[0], a[0], b[0]);
            }
            if a[0] == b[0] && a != b {
                if a.drop_first() == b.drop_first() {
                    assert(a =~= seq![a[0]] + a.drop_first());
                    assert(b =~= seq![b[0]] + b.drop_first());
                }
            }
        }
    } else {
        if b.len() == 0 {
            assert(a =~= b);
        }
    }
}

fn bytes_lt_exec(a: &Vec<u8>, b: &Vec<u8>) -> (r: bool)
    ensures
        r == bytes_lt(a@, b@),
{
    let mut i: usize = 0;
    assert(a@.subrange(0, a@.len() as int) =~= a@);
    assert(b@.subrange(0, b@.len() as int) =~= b@);
    while i < a.len() && i < b.len() && a[i] == b[i]
        invariant
            0 <= i <= a@.len(),
            i <= b@.len(),
            bytes_lt(a@.subrange(i as int, a@.len() as int), b@.subrange(i as int, b@.len() as int))
                == bytes_lt(a@, b@),
        decreases a.len() - i,
    {
        assert(a@.subrange(i as int, a@.len() as int).drop_first() =~= a@.subrange(
            i as int + 1,
            a@.len() as int,
        ));
        assert(b@.subrange(i as int, b@.len() as int).drop_first() =~= b@.subrange(
            i as int + 1,
            b@.len() as int,
        ));
        i = i + 1;
    }
    if i == a.len() {
        i < b.len()
    } else if i == b.len() {
        false
    } else {
        a[i] < b[i]
    }
}

fn path_lt_exec(a: &Vec<Vec<u8>>, b: &Vec<Vec<u8>>) -> (r: bool)
    ensures
        r == path_lt(a@.map_values(|c: Vec<u8>| c@), b@.map_values(|c: Vec<u8>| c@)),
{
    let ghost av = a@.map_values(|c: Vec<u8>| c@);
    let ghost bv = b@.map_values(|c: Vec<u8>| c@);
    let mut i: usize = 0;
    proof {
        assert(av.subrange(0, av.len() as int) =~= av);
        assert(bv.subrange(0, bv.len() as int) =~= bv);
    }
    while i < a.len() && i < b.len() && crate::text::bytes_equal(a[i].as_slice(), b[i].as_slice())
        invariant
            0 <= i <= a@.len(),
            i <= b@.len(),
            av == a@.map_values(|c: Vec<u8>| c@),
            bv == b@.map_values(|c: Vec<u8>| c@),
            path_lt(av.subrange(i as int, av.len() as int), bv.subrange(i as int, bv.len() as int))
                == path_lt(av, bv),
        decreases a.len() - i,
    {
        assert(av.subrange(i as int, av.len() as int).drop_first() =~= av.subrange(
            i as int + 1,
            av.len() as int,
        ));
        assert(bv.subrange(i as int, bv.len() as int).drop_first() =~= bv.subrange(
            i as int + 1,
            bv.len() as int,
        ));
        i = i + 1;
    }
    if i == a.len() {
        i < b.len()
    } else if i == b.len() {
        false
    } else {
        assert(av[i as int] != bv[i as int]);
        bytes_lt_exec(&a[i], &b[i])
    }
}

/// The matches as the contracts speak of them.
pub open spec fn matches_view(m: Seq<(usize, Vec<Vec<u8>>)>) -> Seq<(usize, Seq<Seq<u8>>)> {
    m.map_values(|x: (usize, Vec<Vec<u8>>)| (x.0, x.1@.map_values(|c: Vec<u8>| c@)))
}

/// The library to use among the files found, each given with its rank and
/// its path's components: the best ranked, and among those the first by
/// path; the first such where several tie.
pub fn best_match(matches: &Vec<(usize, Vec<Vec<u8>>)>) -> (r: Option<usize>)
    ensures
        match r {
            Some(k) => {
                &&& k < matches@.len()
                &&& forall|j: int|
                    0 <= j < matches@.len() ==> !#[trigger] match_lt(
                        matches_view(matches@)[j],
                        matches_view(matches@)[k as int],
                    )
                &&& forall|j: int|
                    0 <= j < k ==> #[trigger] match_lt(
                        matches_view(matches@)[k as int],
                        matches_view(matches@)[j],
                    )
            },
            None => matches@.len() == 0,
        },
{
    if matches.len() == 0 {
        return None;
    }
    let ghost mv = matches_view(matches@);
    let mut best: usize = 0;
    let mut i: usize = 1;
    proof {
        lemma_path_lt_order(mv[0].1, mv[0].1, mv[0].1);
    }
    while i < matches.len()
        invariant
            1 <= i <= matches.len(),
            best < i,
            mv == matches_view(matches@),
            forall|j: int| 0 <= j < i ==> !#[trigger] match_lt(mv[j], mv[best as int]),
            forall|j: int| 0 <= j < best ==> #[trigger] match_lt(mv[best as int], mv[j]),
        decreases matches.len() - i,
    {
        let ri = matches[i].0;
        let rb = matches[best].0;
        let earlier = ri < rb || (ri == rb && path_lt_exec(&matches[i].1, &matches[best].1));
        assert(earlier == match_lt(mv[i as int], mv[best as int]));
        if earlier {
            proof {
                assert forall|j: int| 0 <= j < i + 1 implies !#[trigger] match_lt(mv[j], mv[i as int]) by {
                    lemma_path_lt_order(mv[j].1, mv[i as int].1, mv[best as int].1);
                    lemma_path_lt_order(mv[i as int].1, mv[i as int].1, mv[i as int].1);
                    if j < i {
                        assert(!match_lt(mv[j], mv[best as int]));
                    }
                }
                assert forall|j: int| 0 <= j < i implies #[trigger] match_lt(mv[i as int], mv[j]) by {
                    assert(!match_lt(mv[j], mv[best as int]));
                    lemma_path_lt_order(mv[i as int].1, mv[best as int].1, mv[j].1);
                    lemma_path_lt_order(mv[j].1, mv[best as int].1, mv[j].1);
                    lemma_path_lt_order(mv[best as int].1, mv[j].1, mv[best as int].1);
                    if mv[j].1 == mv[best as int].1 {
                        assert(match_lt(mv[i as int], mv[best as int]));
                    }
                }
            }
            best = i;
        } else {
            proof {
                lemma_path_lt_order(mv[i as int].1, mv[best as int].1, mv[i as int].1);
            }
        }
        i = i + 1;
    }
    Some(best)
}

/// Whether `c` stays in a directory name made from an archive's name:
/// ASCII letters and digits, `-` and `_`.
pub open spec fn safe_char(c: char) -> bool {
    ('a' <= c <= 'z') || ('A' <= c <= 'Z') || ('0' <= c <= '9') || c == '-' || c == '_'
}

/// The directory name an archive with the name `stem` unpacks to: its
/// characters, each that is not safe replaced by `_`.
pub fn safe_driver_stem(stem: &Vec<char>) -> (r: Vec<char>)
    ensures
        r@ == stem@.map_values(|c: char| if safe_char(c) { c } else { '_' }),
{
    let mut out: Vec<char> = Vec::new();
    let mut i: usize = 0;
    while i < stem.len()
        invariant
            0 <= i <= stem.len(),
            out@ == stem@.subrange(0, i as int).map_values(|c: char| if safe_char(c) { c } else { '_' }),
        decreases stem.len() - i,
    {
        let c = stem[i];
        let keep = ('a' <= c && c <= 'z') || ('A' <= c && c <= 'Z') || ('0' <= c && c <= '9') || c
            == '-' || c == '_';
        out.push(if keep { c } else { '_' });
        assert(out@ =~= stem@.subrange(0, i as int + 1).map_values(
            |c: char| if safe_char(c) { c } else { '_' },
        ));
        i = i + 1;
    }
    assert(stem@.subrange(0, i as int) =~= stem@);
    out
}

/// Where a custom driver's libraries are looked for.
#[derive(Clone, Copy, Debug, PartialEq, Eq)]
pub enum DriverSource {
    /// A ZIP archive: unpack it and look in the result.
    Archive,
    /// The directory named.
    Directory,
    /// The directory that holds the file named.
    FileParent,
    /// Nothing is there.
    Missing,
}

/// Where the libraries of a driver at a path are looked for: a path ending
/// in `.zip` (in any case) is unpacked, a directory searched, a file's
/// directory used.
pub fn driver_source(extension_is_zip: bool, is_dir: bool, is_file: bool) -> (r: DriverSource)
    ensures
        r == if extension_is_zip {
            DriverSource::Archive
        } else if is_dir {
            DriverSource::Directory
        } else if is_file {
            DriverSource::FileParent
        } else {
            DriverSource::Missing
        },
{
    if extension_is_zip {
        DriverSource::Archive
    } else if is_dir {
        DriverSource::Directory
    } else if is_file {
        DriverSource::FileParent
    } else {
        DriverSource::Missing
    }
}

/// Whether `extension` (without the dot) names a shared library: `so`,
/// `dylib` or `dll`, in any case.
pub open spec fn library_extension(extension: Seq<u8>) -> bool {
    eq_ignore_ascii_case_spec(extension, "so".spec_bytes()) || eq_ignore_ascii_case_spec(
        extension,
        "dylib".spec_bytes(),
    ) || eq_ignore_ascii_case_spec(extension, "dll".spec_bytes())
}

/// Whether the file named is used as both the EGL and the GLES library:
/// a file without an extension, or one with a shared library's; otherwise
/// the libraries are looked for by name.
pub fn use_named_file(is_file: bool, extension: Option<&str>) -> (r: bool)
    ensures
        r == (is_file && match extension {
            None => true,
            Some(e) => library_extension(e.spec_bytes()),
        }),
{
    if !is_file {
        return false;
    }
    match extension {
        None => true,
        Some(e) => eq_ignore_ascii_case(e.as_bytes(), "so".as_bytes()) || eq_ignore_ascii_case(
            e.as_bytes(),
            "dylib".as_bytes(),
        ) || eq_ignore_ascii_case(e.as_bytes(), "dll".as_bytes()),
    }
}

/// How the ANGLE libraries are found.
#[derive(Clone, Copy, Debug, PartialEq, Eq)]
pub enum AngleLibraries {
    /// Both override variables are set: use them.
    Override,
    /// Only one override variable is set: ANGLE is not used.
    IncompleteOverride,
    /// No override: on Android, look in the known places; elsewhere, the
    /// platform's library names.
    Search,
}

/// The ANGLE libraries come from the override variables when both are set;
/// one alone is refused.
pub fn angle_libraries(egl_override: bool, gles_override: bool) -> (r: AngleLibraries)
    ensures
        r == if egl_override && gles_override {
            AngleLibraries::Override
        } else if egl_override || gles_override {
            AngleLibraries::IncompleteOverride
        } else {
            AngleLibraries::Search
        },
{
    if egl_override && gles_override {
        AngleLibraries::Override
    } else if egl_override || gles_override {
        AngleLibraries::IncompleteOverride
    } else {
        AngleLibraries::Search
    }
}

/// The host systems the library names depend on.
#[derive(Clone, Copy, Debug, PartialEq, Eq)]
pub enum HostOs {
    Windows,
    MacOs,
    Android,
    Other,
}

/// The ANGLE library names outside Android.
pub fn angle_default_libraries(os: HostOs) -> (r: (&'static str, &'static str))
    ensures
        r == match os {
            HostOs::Windows => ("libEGL.dll", "libGLESv2.dll"),
            HostOs::MacOs => ("libEGL.dylib", "libGLESv2.dylib"),
            _ => ("libEGL.so", "libGLESv2.so"),
        },
{
    match os {
        HostOs::Windows => ("libEGL.dll", "libGLESv2.dll"),
        HostOs::MacOs => ("libEGL.dylib", "libGLESv2.dylib"),
        _ => ("libEGL.so", "libGLESv2.so"),
    }
}

/// Where ANGLE's EGL library is looked for on Android, in order.
pub fn android_angle_egl_paths() -> (r: Vec<&'static str>)
    ensures
        r@ == seq![
            "/data/local/tmp/radekhle/angle/libEGL_angle.so",
            "/data/local/tmp/angle/libEGL_angle.so",
            "/system/lib64/egl/libEGL_angle.so",
            "/system/lib/egl/libEGL_angle.so",
            "/system/lib64/libEGL_angle.so",
            "/system/lib/libEGL_angle.so",
        ],
{
    vec![
        "/data/local/tmp/radekhle/angle/libEGL_angle.so",
        "/data/local/tmp/angle/libEGL_angle.so",
        "/system/lib64/egl/libEGL_angle.so",
        "/system/lib/egl/libEGL_angle.so",
        "/system/lib64/libEGL_angle.so",
        "/system/lib/libEGL_angle.so",
    ]
}

/// Where ANGLE's GLES library is looked for on Android, in order.
pub fn android_angle_gles_paths() -> (r: Vec<&'static str>)
    ensures
        r@ == seq![
            "/data/local/tmp/radekhle/angle/libGLESv2_angle.so",
            "/data/local/tmp/angle/libGLESv2_angle.so",
            "/system/lib64/egl/libGLESv2_angle.so",
            "/system/lib/egl/libGLESv2_angle.so",
            "/system/lib64/libGLESv2_angle.so",
            "/system/lib/libGLESv2_angle.so",
        ],
{
    vec![
        "/data/local/tmp/radekhle/angle/libGLESv2_angle.so",
        "/data/local/tmp/angle/libGLESv2_angle.so",
        "/system/lib64/egl/libGLESv2_angle.so",
        "/system/lib/egl/libGLESv2_angle.so",
        "/system/lib64/libGLESv2_angle.so",
        "/system/lib/libGLESv2_angle.so",
    ]
}

/// Whether the chosen ANGLE libraries can be used: overridden ones and
/// Android's must be files; elsewhere the names are left to the loader.
pub fn angle_paths_usable(overridden: bool, os: HostOs, egl_is_file: bool, gles_is_file: bool) -> (r:
    bool)
    ensures
        r == if overridden || os == HostOs::Android {
            egl_is_file && gles_is_file
        } else {
            true
        },
{
    if overridden {
        return egl_is_file && gles_is_file;
    }
    match os {
        HostOs::Android => egl_is_file && gles_is_file,
        _ => true,
    }
}

} // verus!
