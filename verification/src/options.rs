//! Parsing of user-configurable options: the choices that are made by name
//! on the command line or in the per-app options file.
pub mod app_file;
pub mod argument;
pub mod text_fields;

use crate::text::str_eq;
use vstd::prelude::*;
use vstd::string::{StrSliceExecFns, StringExecFns};

verus! {

/// Game controller button for `--button-to-touch=` option.
#[derive(Copy, Clone, Hash, PartialEq, Eq, Debug)]
pub enum Button {
    DPadLeft,
    DPadUp,
    DPadRight,
    DPadDown,
    Start,
    A,
    B,
    X,
    Y,
    LeftShoulder,
}

/// How ARM64 guest code is run.
#[derive(Copy, Clone, PartialEq, Eq, Debug)]
pub enum Arm64Backend {
    Auto,
    Jit,
    Interpreter,
}

/// What runs ARM64 guest code where the JIT cannot.
#[derive(Copy, Clone, PartialEq, Eq, Debug)]
pub enum Arm64Fallback {
    Jit,
    Interpreter,
}

/// The `Debug` rendering of a string: quoted, with escapes.
pub uninterp spec fn debug_str(s: Seq<char>) -> Seq<char>;

/// `prefix`, then `value` rendered by `Debug` (as `{:?}` does), then
/// `suffix`. The contract claims that `format!` writes the three pieces
/// one after the other; what the `Debug` rendering of `value` is, it only
/// names.
#[verifier::external_body]
fn debug_quoted_between(prefix: &str, value: &str, suffix: &str) -> (r: String)
    ensures
        r@ == prefix@ + debug_str(value@) + suffix@,
{
    format!("{prefix}{value:?}{suffix}")
}

/// `a`, `b` and `c` one after the other.
fn concat3(a: &str, b: &str, c: &str) -> (r: String)
    ensures
        r@ == a@ + b@ + c@,
{
    let mut s = String::from_str(a);
    s.append(b);
    s.append(c);
    s
}

/// The fallback a name selects.
pub open spec fn fallback_named(s: Seq<char>) -> Option<Arm64Fallback> {
    if s == "jit"@ {
        Some(Arm64Fallback::Jit)
    } else if s == "interpreter"@ {
        Some(Arm64Fallback::Interpreter)
    } else {
        None
    }
}

/// The name of a fallback.
pub open spec fn fallback_label(f: Arm64Fallback) -> Seq<char> {
    match f {
        Arm64Fallback::Jit => "jit"@,
        Arm64Fallback::Interpreter => "interpreter"@,
    }
}

impl Arm64Fallback {
    /// Parses `jit` or `interpreter`.
    pub fn parse(value: &str) -> (r: Result<Self, String>)
        ensures
            match r {
                Ok(f) => fallback_named(value@) == Some(f),
                Err(e) => fallback_named(value@) is None && e@ == "Unknown ARM64 fallback "@
                    + debug_str(value@) + "; expected jit or interpreter"@,
            },
    {
        if str_eq(value, "jit") {
            Ok(Self::Jit)
        } else if str_eq(value, "interpreter") {
            Ok(Self::Interpreter)
        } else {
            Err(debug_quoted_between("Unknown ARM64 fallback ", value, "; expected jit or interpreter"))
        }
    }

    /// The name that [Arm64Fallback::parse] takes.
    pub fn label(self) -> (r: &'static str)
        ensures
            r@ == fallback_label(self),
    {
        match self {
            Self::Jit => "jit",
            Self::Interpreter => "interpreter",
        }
    }
}

/// The backend a name selects.
pub open spec fn backend_named(s: Seq<char>) -> Option<Arm64Backend> {
    if s == "auto"@ {
        Some(Arm64Backend::Auto)
    } else if s == "jit"@ {
        Some(Arm64Backend::Jit)
    } else if s == "interpreter"@ {
        Some(Arm64Backend::Interpreter)
    } else {
        None
    }
}

/// The name of a backend.
pub open spec fn backend_label(b: Arm64Backend) -> Seq<char> {
    match b {
        Arm64Backend::Auto => "auto"@,
        Arm64Backend::Jit => "jit"@,
        Arm64Backend::Interpreter => "interpreter"@,
    }
}

impl Arm64Backend {
    /// Parses `auto`, `jit` or `interpreter`.
    pub fn parse(value: &str) -> (r: Result<Self, String>)
        ensures
            match r {
                Ok(b) => backend_named(value@) == Some(b),
                Err(e) => backend_named(value@) is None && e@ == "Unknown ARM64 backend "@
                    + debug_str(value@) + "; expected auto, jit, or interpreter"@,
            },
    {
        if str_eq(value, "auto") {
            Ok(Self::Auto)
        } else if str_eq(value, "jit") {
            Ok(Self::Jit)
        } else if str_eq(value, "interpreter") {
            Ok(Self::Interpreter)
        } else {
            Err(
                debug_quoted_between(
                    "Unknown ARM64 backend ",
                    value,
                    "; expected auto, jit, or interpreter",
                ),
            )
        }
    }

    /// The name that [Arm64Backend::parse] takes.
    pub fn label(self) -> (r: &'static str)
        ensures
            r@ == backend_label(self),
    {
        match self {
            Self::Auto => "auto",
            Self::Jit => "jit",
            Self::Interpreter => "interpreter",
        }
    }
}

/// The graphics API the guest's OpenGL ES calls are served by.
#[derive(Copy, Clone, PartialEq, Eq, Debug)]
pub enum GraphicsApi {
    Default,
    Translator,
    TranslatorGLES30,
    GLES10,
    GLES11,
    GLES20,
    GLES30,
    Software,
    Metal,
}

impl Default for GraphicsApi {
    fn default() -> (r: Self)
        ensures
            r == GraphicsApi::Default,
    {
        Self::Default
    }
}

/// The API a short name selects.
pub open spec fn graphics_api_named(s: Seq<char>) -> Option<GraphicsApi> {
    if s == "default"@ || s == "auto"@ {
        Some(GraphicsApi::Default)
    } else if s == "translator"@ || s == "gles1.1-gles2.0"@ {
        Some(GraphicsApi::Translator)
    } else if s == "translator-gles3"@ || s == "gles1.1-gles3.0"@ {
        Some(GraphicsApi::TranslatorGLES30)
    } else if s == "gles1.0"@ || s == "gles10"@ {
        Some(GraphicsApi::GLES10)
    } else if s == "gles1.1"@ || s == "gles11"@ {
        Some(GraphicsApi::GLES11)
    } else if s == "gles2.0"@ || s == "gles20"@ {
        Some(GraphicsApi::GLES20)
    } else if s == "gles3.0"@ || s == "gles30"@ {
        Some(GraphicsApi::GLES30)
    } else if s == "software"@ || s == "software-rendering"@ || s == "cpu"@ {
        Some(GraphicsApi::Software)
    } else if s == "metal"@ {
        Some(GraphicsApi::Metal)
    } else {
        None
    }
}

/// The label shown for an API.
pub open spec fn graphics_api_label(a: GraphicsApi) -> Seq<char> {
    match a {
        GraphicsApi::Default => "Default (game)"@,
        GraphicsApi::Translator => "OpenGL ES 1.1 → OpenGL ES 2.0 translator"@,
        GraphicsApi::TranslatorGLES30 => "OpenGL ES 1.1 → OpenGL ES 3.0 translator"@,
        GraphicsApi::GLES10 => "OpenGL ES 1.0"@,
        GraphicsApi::GLES11 => "OpenGL ES 1.1"@,
        GraphicsApi::GLES20 => "OpenGL ES 2.0"@,
        GraphicsApi::GLES30 => "OpenGL ES 3.0"@,
        GraphicsApi::Software => "Software rendering"@,
        GraphicsApi::Metal => "Metal compatibility"@,
    }
}

impl GraphicsApi {
    /// Converts from the short name used on the command line.
    pub fn from_short_name(name: &str) -> (r: Result<Self, ()>)
        ensures
            match r {
                Ok(a) => graphics_api_named(name@) == Some(a),
                Err(()) => graphics_api_named(name@) is None,
            },
    {
        if str_eq(name, "default") || str_eq(name, "auto") {
            Ok(Self::Default)
        } else if str_eq(name, "translator") || str_eq(name, "gles1.1-gles2.0") {
            Ok(Self::Translator)
        } else if str_eq(name, "translator-gles3") || str_eq(name, "gles1.1-gles3.0") {
            Ok(Self::TranslatorGLES30)
        } else if str_eq(name, "gles1.0") || str_eq(name, "gles10") {
            Ok(Self::GLES10)
        } else if str_eq(name, "gles1.1") || str_eq(name, "gles11") {
            Ok(Self::GLES11)
        } else if str_eq(name, "gles2.0") || str_eq(name, "gles20") {
            Ok(Self::GLES20)
        } else if str_eq(name, "gles3.0") || str_eq(name, "gles30") {
            Ok(Self::GLES30)
        } else if str_eq(name, "software") || str_eq(name, "software-rendering") || str_eq(
            name,
            "cpu",
        ) {
            Ok(Self::Software)
        } else if str_eq(name, "metal") {
            Ok(Self::Metal)
        } else {
            Err(())
        }
    }

    /// A human-readable label.
    pub fn label(self) -> (r: &'static str)
        ensures
            r@ == graphics_api_label(self),
    {
        match self {
            Self::Default => "Default (game)",
            Self::Translator => "OpenGL ES 1.1 → OpenGL ES 2.0 translator",
            Self::TranslatorGLES30 => "OpenGL ES 1.1 → OpenGL ES 3.0 translator",
            Self::GLES10 => "OpenGL ES 1.0",
            Self::GLES11 => "OpenGL ES 1.1",
            Self::GLES20 => "OpenGL ES 2.0",
            Self::GLES30 => "OpenGL ES 3.0",
            Self::Software => "Software rendering",
            Self::Metal => "Metal compatibility",
        }
    }
}

/// What `--dump=` asks to be dumped.
#[derive(Default, Clone, Copy, PartialEq, Eq, Debug)]
pub struct DumpingOptions {
    pub linking_info: bool,
    pub symbols: bool,
}

impl DumpingOptions {
    /// Checks if any of the dumping options are active.
    pub fn any(&self) -> (r: bool)
        ensures
            r == (self.linking_info || self.symbols),
    {
        self.linking_info || self.symbols
    }
}

/// The index of the first comma in `s` at or after `k`, or its length.
pub open spec fn comma_from(s: Seq<char>, k: int) -> int
    decreases s.len() - k,
{
    if k < 0 || k >= s.len() {
        s.len() as int
    } else if s[k] == ',' {
        k
    } else {
        comma_from(s, k + 1)
    }
}

/// The comma-separated fields of `s` from `start` on (an empty string has
/// one empty field).
pub open spec fn comma_fields(s: Seq<char>, start: int) -> Seq<Seq<char>>
    decreases s.len() - start,
{
    let i = comma_from(s, start);
    if start < 0 || start > s.len() || i >= s.len() || i < start {
        seq![s.subrange(start, s.len() as int)]
    } else {
        seq![s.subrange(start, i)] + comma_fields(s, i + 1)
    }
}

/// What the fields from index `i` on make of `acc`: each names an option to
/// switch on, and the first that names none is the error.
pub open spec fn dump_fields_parse(
    fields: Seq<Seq<char>>,
    i: int,
    acc: DumpingOptions,
) -> Result<DumpingOptions, Seq<char>>
    decreases fields.len() - i,
{
    if i < 0 || i >= fields.len() {
        Ok(acc)
    } else if fields[i] == "linking-info"@ {
        dump_fields_parse(fields, i + 1, DumpingOptions { linking_info: true, ..acc })
    } else if fields[i] == "symbols"@ {
        dump_fields_parse(fields, i + 1, DumpingOptions { symbols: true, ..acc })
    } else {
        Err("Unrecognized option "@ + fields[i] + " for --dump=..."@)
    }
}

proof fn lemma_comma_from_bounds(s: Seq<char>, k: int)
    requires
        0 <= k <= s.len(),
    ensures
        k <= comma_from(s, k) <= s.len(),
        comma_from(s, k) < s.len() ==> s[comma_from(s, k)] == ',',
        forall|j: int| k <= j < comma_from(s, k) ==> s[j] != ',',
    decreases s.len() - k,
{
    if k < s.len() && s[k] != ',' {
        lemma_comma_from_bounds(s, k + 1);
    }
}

/// Parses the value of `--dump=`: a comma-separated list of
/// `linking-info` and `symbols`.
pub fn parse_dump_options(options: &str) -> (r: Result<DumpingOptions, String>)
    ensures
        match r {
            Ok(d) => dump_fields_parse(
                comma_fields(options@, 0),
                0,
                DumpingOptions { linking_info: false, symbols: false },
            ) == Ok::<DumpingOptions, Seq<char>>(d),
            Err(e) => dump_fields_parse(
                comma_fields(options@, 0),
                0,
                DumpingOptions { linking_info: false, symbols: false },
            ) == Err::<DumpingOptions, Seq<char>>(e@),
        },
{
    let n = options.unicode_len();
    let ghost s = options@;
    let ghost whole = dump_fields_parse(comma_fields(s, 0), 0, DumpingOptions { linking_info: false, symbols: false });
    let mut dumping_options = DumpingOptions { linking_info: false, symbols: false };
    let mut start: usize = 0;
    loop
        invariant
            s == options@,
            n == s.len(),
            start <= n,
            whole == dump_fields_parse(
                comma_fields(s, 0),
                0,
                DumpingOptions { linking_info: false, symbols: false },
            ),
            whole == dump_fields_parse(comma_fields(s, start as int), 0, dumping_options),
        decreases n - start,
    {
        let mut i = start;
        while i < n && options.get_char(i) != ','
            invariant
                s == options@,
                n == s.len(),
                start <= i <= n,
                forall|j: int| start <= j < i ==> s[j] != ',',
            decreases n - i,
        {
            i = i + 1;
        }
        proof {
            lemma_comma_from_bounds(s, start as int);
            let c = comma_from(s, start as int);
            if c < i {
                assert(s[c] != ',');
            }
            if i < c {
                assert(s[i as int] == ',');
            }
            assert(c == i);
        }
        let field = options.substring_char(start, i);
        let ghost fields = comma_fields(s, start as int);
        assert(fields[0] == field@);
        if str_eq(field, "linking-info") {
            dumping_options.linking_info = true;
        } else if str_eq(field, "symbols") {
            dumping_options.symbols = true;
        } else {
            return Err(concat3("Unrecognized option ", field, " for --dump=..."));
        }
        if i >= n {
            assert(fields.len() == 1);
            return Ok(dumping_options);
        }
        proof {
            let rest = comma_fields(s, i + 1);
            assert(fields =~= seq![field@] + rest);
            lemma_dump_fields_shift(seq![field@], rest, dumping_options);
        }
        start = i + 1;
    }
}

/// Parsing fields after a first one that switched `acc` on goes on from
/// the rest.
proof fn lemma_dump_fields_shift(first: Seq<Seq<char>>, rest: Seq<Seq<char>>, acc: DumpingOptions)
    requires
        first.len() == 1,
    ensures
        dump_fields_parse(first + rest, 1, acc) == dump_fields_parse(rest, 0, acc),
    decreases rest.len(),
{
    let all = first + rest;
    assert(all.subrange(1, all.len() as int) =~= rest);
    lemma_dump_fields_suffix(all, 1, acc);
}

/// Parsing from index `k` equals parsing the fields from `k` on.
proof fn lemma_dump_fields_suffix(fields: Seq<Seq<char>>, k: int, acc: DumpingOptions)
    requires
        0 <= k <= fields.len(),
    ensures
        dump_fields_parse(fields, k, acc) == dump_fields_parse(
            fields.subrange(k, fields.len() as int),
            0,
            acc,
        ),
    decreases fields.len() - k,
{
    let tail = fields.subrange(k, fields.len() as int);
    if k < fields.len() {
        let next = if fields[k] == "linking-info"@ {
            DumpingOptions { linking_info: true, ..acc }
        } else if fields[k] == "symbols"@ {
            DumpingOptions { symbols: true, ..acc }
        } else {
            acc
        };
        lemma_dump_fields_suffix(fields, k + 1, next);
        assert(tail.subrange(1, tail.len() as int) =~= fields.subrange(k + 1, fields.len() as int));
        lemma_dump_fields_suffix(tail, 1, next);
    }
}

} // verus!
