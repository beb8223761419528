//! Material and shader descriptors: builtin shader names, shader sources,
//! material document headers, descriptor file formats and alpha modes.

use vstd::prelude::*;
use crate::chars::{ascii_lower_seq, lemma_lower_trim_commute, trim, trimmed_ascii_lower, chars_equal, str_equal};

verus! {

/// The shaders shipped with the renderer.
#[derive(Clone, Copy, Debug, PartialEq, Eq, Hash, Structural)]
pub enum BuiltinShader {
    Basic,
    Lit,
    Unlit,
    SkyGradient,
    SpriteUi,
    Fallback,
}

/// Lighting model of a material.
#[derive(Clone, Copy, Debug, PartialEq, Eq, PartialOrd, Ord, Hash, Structural)]
pub enum MaterialType {
    Lit,
    Unlit,
    Basic,
}

/// Alpha compositing mode of a material.
#[derive(Clone, Copy, Debug, PartialEq, Eq, PartialOrd, Ord, Hash, Structural)]
pub enum AlphaMode {
    /// Render fully opaque with depth writes enabled.
    Opaque,
    /// Discard fragments with alpha below a fixed cutoff while keeping depth writes enabled.
    Mask,
    /// Blend source alpha over the framebuffer with depth writes disabled.
    Blend,
}

impl Default for AlphaMode {
    fn default() -> (r: Self)
        ensures
            r == AlphaMode::Opaque,
    {
        AlphaMode::Opaque
    }
}

/// Whether a pipeline for this alpha mode writes depth: opaque and masked
/// materials do, blended ones do not.
pub fn depth_write_enabled(alpha_mode: AlphaMode) -> (r: bool)
    ensures
        r == !(alpha_mode is Blend),
{
    match alpha_mode {
        AlphaMode::Opaque => true,
        AlphaMode::Mask => true,
        AlphaMode::Blend => false,
    }
}

/// Where a material's shader comes from.
#[derive(Clone, Debug)]
pub enum ShaderDescriptor {
    Builtin { shader: String },
    File { path: String },
    Inline { wgsl: String },
}

/// A resolved shader source.
#[derive(Clone, Debug)]
pub enum ShaderSource {
    Builtin(BuiltinShader),
    Wgsl(&'static str),
    WgslOwned(String),
    File(String),
}

/// Errors of material descriptor handling that do not come from I/O or parsing.
#[derive(Clone, Debug)]
pub enum MaterialDescriptorError {
    UnsupportedFormat { path: String, ext: String },
    UnsupportedVersion { path: String, format: String, version: u32 },
    UnknownBuiltinShader { name: String },
}

/// The builtin shader a normalised (trimmed, lower-case) name denotes, with aliases.
pub open spec fn builtin_shader_for(n: Seq<char>) -> Option<BuiltinShader> {
    if n == seq!['b', 'a', 's', 'i', 'c'] {
        Some(BuiltinShader::Basic)
    } else if n == seq!['l', 'i', 't'] {
        Some(BuiltinShader::Lit)
    } else if n == seq!['u', 'n', 'l', 'i', 't'] {
        Some(BuiltinShader::Unlit)
    } else if n == seq!['s', 'k', 'y', '_', 'g', 'r', 'a', 'd', 'i', 'e', 'n', 't'] || n == seq![
        's',
        'k',
        'y',
        'g',
        'r',
        'a',
        'd',
        'i',
        'e',
        'n',
        't',
    ] || n == seq!['s', 'k', 'y'] {
        Some(BuiltinShader::SkyGradient)
    } else if n == seq!['s', 'p', 'r', 'i', 't', 'e', '_', 'u', 'i'] || n == seq![
        's',
        'p',
        'r',
        'i',
        't',
        'e',
        'u',
        'i',
    ] || n == seq!['u', 'i'] {
        Some(BuiltinShader::SpriteUi)
    } else if n == seq!['f', 'a', 'l', 'l', 'b', 'a', 'c', 'k'] {
        Some(BuiltinShader::Fallback)
    } else {
        None
    }
}

/// The builtin shader a name denotes after trimming whitespace and lowering ASCII letters.
pub open spec fn parse_builtin_shader_spec(name: Seq<char>) -> Option<BuiltinShader> {
    builtin_shader_for(ascii_lower_seq(trim(name)))
}

/// Builtin shader names are case-insensitive: two names that agree once ASCII
/// letters are lowered parse to the same shader, or both to none.
pub proof fn lemma_builtin_shader_names_case_insensitive(a: Seq<char>, b: Seq<char>)
    requires
        ascii_lower_seq(a) == ascii_lower_seq(b),
    ensures
        parse_builtin_shader_spec(a) == parse_builtin_shader_spec(b),
{
    lemma_lower_trim_commute(a);
    lemma_lower_trim_commute(b);
}

/// Every documented name of a builtin shader parses to that shader, whatever
/// its letter case and surrounding whitespace: `basic`, `lit`, `unlit`,
/// `sky_gradient`/`skygradient`/`sky`, `sprite_ui`/`spriteui`/`ui` and
/// `fallback`; and no other name parses to any shader.
pub proof fn lemma_builtin_shader_aliases(name: Seq<char>)
    ensures
        ascii_lower_seq(trim(name)) =~= seq!['b', 'a', 's', 'i', 'c'] ==> parse_builtin_shader_spec(name)
            == Some(BuiltinShader::Basic),
        ascii_lower_seq(trim(name)) =~= seq!['l', 'i', 't'] ==> parse_builtin_shader_spec(name) == Some(
            BuiltinShader::Lit,
        ),
        ascii_lower_seq(trim(name)) =~= seq!['u', 'n', 'l', 'i', 't'] ==> parse_builtin_shader_spec(name)
            == Some(BuiltinShader::Unlit),
        ascii_lower_seq(trim(name)) =~= seq!['s', 'k', 'y', '_', 'g', 'r', 'a', 'd', 'i', 'e', 'n', 't']
            ==> parse_builtin_shader_spec(name) == Some(BuiltinShader::SkyGradient),
        ascii_lower_seq(trim(name)) =~= seq!['s', 'k', 'y', 'g', 'r', 'a', 'd', 'i', 'e', 'n', 't']
            ==> parse_builtin_shader_spec(name) == Some(BuiltinShader::SkyGradient),
        ascii_lower_seq(trim(name)) =~= seq!['s', 'k', 'y'] ==> parse_builtin_shader_spec(name) == Some(
            BuiltinShader::SkyGradient,
        ),
        ascii_lower_seq(trim(name)) =~= seq!['s', 'p', 'r', 'i', 't', 'e', '_', 'u', 'i'] ==> parse_builtin_shader_spec(
            name,
        ) == Some(BuiltinShader::SpriteUi),
        ascii_lower_seq(trim(name)) =~= seq!['s', 'p', 'r', 'i', 't', 'e', 'u', 'i'] ==> parse_builtin_shader_spec(
            name,
        ) == Some(BuiltinShader::SpriteUi),
        ascii_lower_seq(trim(name)) =~= seq!['u', 'i'] ==> parse_builtin_shader_spec(name) == Some(
            BuiltinShader::SpriteUi,
        ),
        ascii_lower_seq(trim(name)) =~= seq!['f', 'a', 'l', 'l', 'b', 'a', 'c', 'k'] ==> parse_builtin_shader_spec(
            name,
        ) == Some(BuiltinShader::Fallback),
        parse_builtin_shader_spec(name) is Some ==> {
            let n = ascii_lower_seq(trim(name));
            ||| n =~= seq!['b', 'a', 's', 'i', 'c']
            ||| n =~= seq!['l', 'i', 't']
            ||| n =~= seq!['u', 'n', 'l', 'i', 't']
            ||| n =~= seq!['s', 'k', 'y', '_', 'g', 'r', 'a', 'd', 'i', 'e', 'n', 't']
            ||| n =~= seq!['s', 'k', 'y', 'g', 'r', 'a', 'd', 'i', 'e', 'n', 't']
            ||| n =~= seq!['s', 'k', 'y']
            ||| n =~= seq!['s', 'p', 'r', 'i', 't', 'e', '_', 'u', 'i']
            ||| n =~= seq!['s', 'p', 'r', 'i', 't', 'e', 'u', 'i']
            ||| n =~= seq!['u', 'i']
            ||| n =~= seq!['f', 'a', 'l', 'l', 'b', 'a', 'c', 'k']
        },
{
}

/// Parses a builtin shader name (case-insensitive, surrounding whitespace ignored,
/// with the aliases `skygradient`/`sky` and `spriteui`/`ui`).
pub fn parse_builtin_shader(name: &str) -> (r: Result<BuiltinShader, MaterialDescriptorError>)
    ensures
        match r {
            Ok(s) => parse_builtin_shader_spec(name@) == Some(s),
            Err(e) => parse_builtin_shader_spec(name@) is None && (e matches MaterialDescriptorError::UnknownBuiltinShader { name: n } && n@ == name@),
        },
{
    let n = trimmed_ascii_lower(name);
    if chars_equal(&n, &['b', 'a', 's', 'i', 'c']) {
        Ok(BuiltinShader::Basic)
    } else if chars_equal(&n, &['l', 'i', 't']) {
        Ok(BuiltinShader::Lit)
    } else if chars_equal(&n, &['u', 'n', 'l', 'i', 't']) {
        Ok(BuiltinShader::Unlit)
    } else if chars_equal(&n, &['s', 'k', 'y', '_', 'g', 'r', 'a', 'd', 'i', 'e', 'n', 't'])
        || chars_equal(&n, &['s', 'k', 'y', 'g', 'r', 'a', 'd', 'i', 'e', 'n', 't']) || chars_equal(
        &n,
        &['s', 'k', 'y'],
    ) {
        Ok(BuiltinShader::SkyGradient)
    } else if chars_equal(&n, &['s', 'p', 'r', 'i', 't', 'e', '_', 'u', 'i']) || chars_equal(
        &n,
        &['s', 'p', 'r', 'i', 't', 'e', 'u', 'i'],
    ) || chars_equal(&n, &['u', 'i']) {
        Ok(BuiltinShader::SpriteUi)
    } else if chars_equal(&n, &['f', 'a', 'l', 'l', 'b', 'a', 'c', 'k']) {
        Ok(BuiltinShader::Fallback)
    } else {
        Err(MaterialDescriptorError::UnknownBuiltinShader { name: name.to_string() })
    }
}

/// Shader source of a material's shader descriptor: a builtin name is parsed,
/// a file path and inline WGSL are passed through.
pub fn shader_source_of(shader: &ShaderDescriptor) -> (r: Result<ShaderSource, MaterialDescriptorError>)
    ensures
        match shader {
            ShaderDescriptor::Builtin { shader: name } => match parse_builtin_shader_spec(name@) {
                Some(b) => r matches Ok(ShaderSource::Builtin(x)) && x == b,
                None => r matches Err(MaterialDescriptorError::UnknownBuiltinShader { name: n }) && n@ == name@,
            },
            ShaderDescriptor::File { path } => r matches Ok(ShaderSource::File(p)) && p@ == path@,
            ShaderDescriptor::Inline { wgsl } => r matches Ok(ShaderSource::WgslOwned(w)) && w@ == wgsl@,
        },
{
    match shader {
        ShaderDescriptor::Builtin { shader } => match parse_builtin_shader(shader.as_str()) {
            Ok(b) => Ok(ShaderSource::Builtin(b)),
            Err(e) => Err(e),
        },
        ShaderDescriptor::File { path } => Ok(ShaderSource::File(path.clone())),
        ShaderDescriptor::Inline { wgsl } => Ok(ShaderSource::WgslOwned(wgsl.clone())),
    }
}

/// The fallback shader of a material: the named builtin, or `Fallback` when none is named.
pub fn fallback_shader_of(fallback: &Option<String>) -> (r: Result<BuiltinShader, MaterialDescriptorError>)
    ensures
        match fallback {
            Some(name) => match parse_builtin_shader_spec(name@) {
                Some(b) => r == Ok::<BuiltinShader, MaterialDescriptorError>(b),
                None => r matches Err(MaterialDescriptorError::UnknownBuiltinShader { name: n }) && n@ == name@,
            },
            None => r == Ok::<BuiltinShader, MaterialDescriptorError>(BuiltinShader::Fallback),
        },
{
    match fallback {
        Some(name) => parse_builtin_shader(name.as_str()),
        None => Ok(BuiltinShader::Fallback),
    }
}

/// Format tag of wrapped material documents.
pub const OXMAT_FORMAT: &'static str = "oxide.oxmat";

/// Version of wrapped material documents.
pub const OXMAT_VERSION: u32 = 1;

/// The text of the material document format tag.
pub open spec fn oxmat_format_text() -> Seq<char> {
    seq!['o', 'x', 'i', 'd', 'e', '.', 'o', 'x', 'm', 'a', 't']
}

/// Checks the header of a wrapped material document: it must carry the material
/// format tag and the supported version.
pub fn check_material_document(format: String, version: u32, path: String) -> (r: Result<(), MaterialDescriptorError>)
    ensures
        r is Ok <==> (format@ == oxmat_format_text() && version == OXMAT_VERSION),
        r matches Err(e) ==> (e matches MaterialDescriptorError::UnsupportedVersion { path: p, format: f, version: v }
            && p@ == path@ && f@ == format@ && v == version),
{
    proof {
        reveal_strlit("oxide.oxmat");
        assert(OXMAT_FORMAT@ =~= oxmat_format_text());
    }
    if !str_equal(format.as_str(), OXMAT_FORMAT) || version != OXMAT_VERSION {
        return Err(MaterialDescriptorError::UnsupportedVersion { path, format, version });
    }
    Ok(())
}

/// Text format of a material descriptor file, chosen by extension.
#[derive(Clone, Copy, Debug, PartialEq, Eq, Structural)]
pub enum DescriptorFormat {
    /// Wrapped JSON document with format tag and version.
    Oxmat,
    Json,
    Ron,
    Toml,
}

/// The descriptor format for a lower-cased file extension.
pub open spec fn descriptor_format_spec(ext: Seq<char>) -> Option<DescriptorFormat> {
    if ext == seq!['o', 'x', 'm', 'a', 't'] {
        Some(DescriptorFormat::Oxmat)
    } else if ext == seq!['j', 's', 'o', 'n'] {
        Some(DescriptorFormat::Json)
    } else if ext == seq!['r', 'o', 'n'] {
        Some(DescriptorFormat::Ron)
    } else if ext == seq!['t', 'o', 'm', 'l'] {
        Some(DescriptorFormat::Toml)
    } else {
        None
    }
}

/// Chooses the descriptor format for a (lower-cased) file extension; `None` means unsupported.
pub fn descriptor_format_for_extension(ext: &str) -> (r: Option<DescriptorFormat>)
    ensures
        r == descriptor_format_spec(ext@),
{
    proof {
        reveal_strlit("oxmat");
        reveal_strlit("json");
        reveal_strlit("ron");
        reveal_strlit("toml");
        assert("oxmat"@ =~= seq!['o', 'x', 'm', 'a', 't']);
        assert("json"@ =~= seq!['j', 's', 'o', 'n']);
        assert("ron"@ =~= seq!['r', 'o', 'n']);
        assert("toml"@ =~= seq!['t', 'o', 'm', 'l']);
    }
    if str_equal(ext, "oxmat") {
        Some(DescriptorFormat::Oxmat)
    } else if str_equal(ext, "json") {
        Some(DescriptorFormat::Json)
    } else if str_equal(ext, "ron") {
        Some(DescriptorFormat::Ron)
    } else if str_equal(ext, "toml") {
        Some(DescriptorFormat::Toml)
    } else {
        None
    }
}

} // verus!
