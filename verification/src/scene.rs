//! Scene-facing render data: render materials, their batching keys, and the
//! small enums and headers of scene descriptor documents.

use vstd::prelude::*;
use vstd::string::StringExecFns;
use crate::chars::str_equal;
use crate::material::{BuiltinShader, MaterialType};
use crate::mesh::MeshPrimitive;

verus! {

/// Material intent for renderer-facing scene data.
#[derive(Clone, Debug)]
pub enum RenderMaterial {
    Builtin { shader: BuiltinShader, material_type: MaterialType, name: String },
    Named(String),
}

/// The name of the default material.
pub open spec fn default_material_name_text() -> Seq<char> {
    seq!['d', 'e', 'f', 'a', 'u', 'l', 't', '_', 'u', 'n', 'l', 'i', 't']
}

/// The name of the default material: `default_unlit`.
pub fn default_material_name() -> (r: String)
    ensures
        r@ == default_material_name_text(),
{
    proof {
        reveal_strlit("default_unlit");
        assert("default_unlit"@ =~= default_material_name_text());
    }
    "default_unlit".to_string()
}

impl Default for RenderMaterial {
    /// The builtin unlit material named `default_unlit`.
    fn default() -> (r: Self)
        ensures
            r matches RenderMaterial::Builtin { shader, material_type, name } && shader
                == BuiltinShader::Unlit && material_type == MaterialType::Unlit && name@
                == default_material_name_text(),
    {
        RenderMaterial::Builtin {
            shader: BuiltinShader::Unlit,
            material_type: MaterialType::Unlit,
            name: default_material_name(),
        }
    }
}

/// Shading mode of an instance batch.
#[derive(Clone, Copy, Debug, PartialEq, Eq, PartialOrd, Ord, Structural)]
pub enum MaterialMode {
    Unlit,
    Lit,
}

impl MaterialMode {
    /// The value the instance shader receives for this mode: 0 unlit, 1 lit.
    pub fn shader_index(self) -> (r: u8)
        ensures
            r == (if self is Lit { 1u8 } else { 0u8 }),
    {
        match self {
            MaterialMode::Unlit => 0,
            MaterialMode::Lit => 1,
        }
    }
}

/// Lit when either the shader or the material type is lit; unlit otherwise.
pub open spec fn material_mode_spec(shader: BuiltinShader, material_type: MaterialType) -> MaterialMode {
    if shader is Lit || material_type is Lit {
        MaterialMode::Lit
    } else {
        MaterialMode::Unlit
    }
}

/// A material is shaded lit as soon as either its shader or its material type
/// is lit, whatever the other one is; only an unlit shader with an unlit
/// material type is shaded unlit.
pub proof fn lemma_material_mode_lit_dominates(shader: BuiltinShader, material_type: MaterialType)
    ensures
        shader is Lit ==> material_mode_spec(shader, material_type) is Lit,
        material_type is Lit ==> material_mode_spec(shader, material_type) is Lit,
        !(shader is Lit) && !(material_type is Lit) ==> material_mode_spec(shader, material_type) is Unlit,
{
}

/// The shading mode for a builtin shader and material type.
pub fn material_mode(shader: BuiltinShader, material_type: MaterialType) -> (r: MaterialMode)
    ensures
        r == material_mode_spec(shader, material_type),
{
    match (shader, material_type) {
        (BuiltinShader::Lit, _) | (_, MaterialType::Lit) => MaterialMode::Lit,
        _ => MaterialMode::Unlit,
    }
}

/// The debug name of a builtin shader.
pub open spec fn builtin_shader_debug(s: BuiltinShader) -> Seq<char> {
    match s {
        BuiltinShader::Basic => seq!['B', 'a', 's', 'i', 'c'],
        BuiltinShader::Lit => seq!['L', 'i', 't'],
        BuiltinShader::Unlit => seq!['U', 'n', 'l', 'i', 't'],
        BuiltinShader::SkyGradient => seq!['S', 'k', 'y', 'G', 'r', 'a', 'd', 'i', 'e', 'n', 't'],
        BuiltinShader::SpriteUi => seq!['S', 'p', 'r', 'i', 't', 'e', 'U', 'i'],
        BuiltinShader::Fallback => seq!['F', 'a', 'l', 'l', 'b', 'a', 'c', 'k'],
    }
}

/// The debug name of a material type.
pub open spec fn material_type_debug(t: MaterialType) -> Seq<char> {
    match t {
        MaterialType::Lit => seq!['L', 'i', 't'],
        MaterialType::Unlit => seq!['U', 'n', 'l', 'i', 't'],
        MaterialType::Basic => seq!['B', 'a', 's', 'i', 'c'],
    }
}

fn builtin_shader_debug_name(s: BuiltinShader) -> (r: &'static str)
    ensures
        r@ == builtin_shader_debug(s),
{
    proof {
        reveal_strlit("Basic");
        reveal_strlit("Lit");
        reveal_strlit("Unlit");
        reveal_strlit("SkyGradient");
        reveal_strlit("SpriteUi");
        reveal_strlit("Fallback");
    }
    match s {
        BuiltinShader::Basic => {
            assert("Basic"@ =~= builtin_shader_debug(s));
            "Basic"
        },
        BuiltinShader::Lit => {
            assert("Lit"@ =~= builtin_shader_debug(s));
            "Lit"
        },
        BuiltinShader::Unlit => {
            assert("Unlit"@ =~= builtin_shader_debug(s));
            "Unlit"
        },
        BuiltinShader::SkyGradient => {
            assert("SkyGradient"@ =~= builtin_shader_debug(s));
            "SkyGradient"
        },
        BuiltinShader::SpriteUi => {
            assert("SpriteUi"@ =~= builtin_shader_debug(s));
            "SpriteUi"
        },
        BuiltinShader::Fallback => {
            assert("Fallback"@ =~= builtin_shader_debug(s));
            "Fallback"
        },
    }
}

fn material_type_debug_name(t: MaterialType) -> (r: &'static str)
    ensures
        r@ == material_type_debug(t),
{
    proof {
        reveal_strlit("Basic");
        reveal_strlit("Lit");
        reveal_strlit("Unlit");
    }
    match t {
        MaterialType::Lit => {
            assert("Lit"@ =~= material_type_debug(t));
            "Lit"
        },
        MaterialType::Unlit => {
            assert("Unlit"@ =~= material_type_debug(t));
            "Unlit"
        },
        MaterialType::Basic => {
            assert("Basic"@ =~= material_type_debug(t));
            "Basic"
        },
    }
}

/// `builtin:` as text.
pub open spec fn builtin_prefix() -> Seq<char> {
    seq!['b', 'u', 'i', 'l', 't', 'i', 'n', ':']
}

/// `named:` as text.
pub open spec fn named_prefix() -> Seq<char> {
    seq!['n', 'a', 'm', 'e', 'd', ':']
}

/// The batching identity of a material: `builtin:<Shader>:<Type>:<name>` or `named:<name>`.
pub open spec fn material_identity(m: RenderMaterial) -> Seq<char> {
    match m {
        RenderMaterial::Builtin { shader, material_type, name } => builtin_prefix()
            + builtin_shader_debug(shader) + seq![':'] + material_type_debug(material_type) + seq![':']
            + name@,
        RenderMaterial::Named(name) => named_prefix() + name@,
    }
}

/// The batching mode of a material: named materials are lit.
pub open spec fn material_batch_mode(m: RenderMaterial) -> MaterialMode {
    match m {
        RenderMaterial::Builtin { shader, material_type, .. } => material_mode_spec(shader, material_type),
        RenderMaterial::Named(_) => MaterialMode::Lit,
    }
}

/// Key grouping renderables that share a material into one instance batch.
#[derive(Clone, Debug)]
pub struct MaterialBatchKey {
    mode: MaterialMode,
    identity: String,
}

impl View for MaterialBatchKey {
    type V = (MaterialMode, Seq<char>);

    closed spec fn view(&self) -> (MaterialMode, Seq<char>) {
        (self.mode, self.identity@)
    }
}

impl MaterialBatchKey {
    /// The batching key of a material.
    pub fn from_material(material: &RenderMaterial) -> (r: Self)
        ensures
            r@ == (material_batch_mode(*material), material_identity(*material)),
    {
        match material {
            RenderMaterial::Builtin { shader, material_type, name } => {
                proof {
                    reveal_strlit("builtin:");
                    reveal_strlit(":");
                    assert("builtin:"@ =~= builtin_prefix());
                    assert(":"@ =~= seq![':']);
                }
                let mut identity = String::new();
                identity.append("builtin:");
                identity.append(builtin_shader_debug_name(*shader));
                identity.append(":");
                identity.append(material_type_debug_name(*material_type));
                identity.append(":");
                identity.append(name.as_str());
                MaterialBatchKey { mode: material_mode(*shader, *material_type), identity }
            },
            RenderMaterial::Named(name) => {
                proof {
                    reveal_strlit("named:");
                    assert("named:"@ =~= named_prefix());
                }
                let mut identity = String::new();
                identity.append("named:");
                identity.append(name.as_str());
                MaterialBatchKey { mode: MaterialMode::Lit, identity }
            },
        }
    }

    /// The shading mode of the batch.
    pub fn mode(&self) -> (r: MaterialMode)
        ensures
            r == self@.0,
    {
        self.mode
    }

    /// The batch identity text.
    pub fn identity(&self) -> (r: &str)
        ensures
            r@ == self@.1,
    {
        self.identity.as_str()
    }
}

impl PartialEq for MaterialBatchKey {
    fn eq(&self, other: &Self) -> (r: bool) {
        self.mode == other.mode && str_equal(self.identity.as_str(), other.identity.as_str())
    }
}

impl vstd::std_specs::cmp::PartialEqSpecImpl for MaterialBatchKey {
    open spec fn obeys_eq_spec() -> bool {
        true
    }

    open spec fn eq_spec(&self, other: &MaterialBatchKey) -> bool {
        self@ == other@
    }
}

/// Two materials are the same for batching: the same variant with the same
/// shader, material type and name text.
pub open spec fn same_material(a: RenderMaterial, b: RenderMaterial) -> bool {
    match (a, b) {
        (
            RenderMaterial::Builtin { shader: s1, material_type: t1, name: n1 },
            RenderMaterial::Builtin { shader: s2, material_type: t2, name: n2 },
        ) => s1 == s2 && t1 == t2 && n1@ == n2@,
        (RenderMaterial::Named(n1), RenderMaterial::Named(n2)) => n1@ == n2@,
        _ => false,
    }
}

proof fn lemma_split_at_colon(a: Seq<char>, x: Seq<char>, b: Seq<char>, y: Seq<char>)
    requires
        !a.contains(':'),
        !b.contains(':'),
        a + seq![':'] + x == b + seq![':'] + y,
    ensures
        a == b,
        x == y,
{
    let l = a + seq![':'] + x;
    let r = b + seq![':'] + y;
    if a.len() < b.len() {
        assert(l[a.len() as int] == ':');
        assert(r[a.len() as int] == b[a.len() as int]);
        assert(b.contains(':'));
    } else if b.len() < a.len() {
        assert(r[b.len() as int] == ':');
        assert(l[b.len() as int] == a[b.len() as int]);
        assert(a.contains(':'));
    } else {
        assert(a =~= l.subrange(0, a.len() as int));
        assert(b =~= r.subrange(0, b.len() as int));
        assert(x =~= l.subrange(a.len() as int + 1, l.len() as int));
        assert(y =~= r.subrange(b.len() as int + 1, r.len() as int));
    }
}

proof fn lemma_drop_prefix(p: Seq<char>, x: Seq<char>, y: Seq<char>)
    requires
        p + x == p + y,
    ensures
        x == y,
{
    assert(x =~= (p + x).subrange(p.len() as int, (p + x).len() as int));
    assert(y =~= (p + y).subrange(p.len() as int, (p + y).len() as int));
}

proof fn lemma_shader_debug_no_colon(s: BuiltinShader)
    ensures
        !builtin_shader_debug(s).contains(':'),
{
    let d = builtin_shader_debug(s);
    assert forall|i: int| 0 <= i < d.len() implies d[i] != ':' by {}
}

proof fn lemma_type_debug_no_colon(t: MaterialType)
    ensures
        !material_type_debug(t).contains(':'),
{
    let d = material_type_debug(t);
    assert forall|i: int| 0 <= i < d.len() implies d[i] != ':' by {}
}

proof fn lemma_shader_debug_injective(a: BuiltinShader, b: BuiltinShader)
    requires
        builtin_shader_debug(a) == builtin_shader_debug(b),
    ensures
        a == b,
{
    let da = builtin_shader_debug(a);
    let db = builtin_shader_debug(b);
    assert(da.len() == db.len());
    assert(da[0] == db[0]);
}

proof fn lemma_type_debug_injective(a: MaterialType, b: MaterialType)
    requires
        material_type_debug(a) == material_type_debug(b),
    ensures
        a == b,
{
    let da = material_type_debug(a);
    let db = material_type_debug(b);
    assert(da.len() == db.len());
    assert(da[0] == db[0]);
}

proof fn lemma_builtin_identity_injective(
    s1: BuiltinShader,
    t1: MaterialType,
    n1: Seq<char>,
    s2: BuiltinShader,
    t2: MaterialType,
    n2: Seq<char>,
)
    requires
        builtin_prefix() + builtin_shader_debug(s1) + seq![':'] + material_type_debug(t1) + seq![':'] + n1
            == builtin_prefix() + builtin_shader_debug(s2) + seq![':'] + material_type_debug(t2) + seq![':']
            + n2,
    ensures
        s1 == s2,
        t1 == t2,
        n1 == n2,
{
    let tail1 = material_type_debug(t1) + seq![':'] + n1;
    let tail2 = material_type_debug(t2) + seq![':'] + n2;
    let rest1 = builtin_shader_debug(s1) + seq![':'] + tail1;
    let rest2 = builtin_shader_debug(s2) + seq![':'] + tail2;
    assert(builtin_prefix() + builtin_shader_debug(s1) + seq![':'] + material_type_debug(t1) + seq![':'] + n1
        =~= builtin_prefix() + rest1);
    assert(builtin_prefix() + builtin_shader_debug(s2) + seq![':'] + material_type_debug(t2) + seq![':'] + n2
        =~= builtin_prefix() + rest2);
    lemma_drop_prefix(builtin_prefix(), rest1, rest2);
    lemma_shader_debug_no_colon(s1);
    lemma_shader_debug_no_colon(s2);
    lemma_split_at_colon(builtin_shader_debug(s1), tail1, builtin_shader_debug(s2), tail2);
    lemma_type_debug_no_colon(t1);
    lemma_type_debug_no_colon(t2);
    lemma_split_at_colon(material_type_debug(t1), n1, material_type_debug(t2), n2);
    lemma_shader_debug_injective(s1, s2);
    lemma_type_debug_injective(t1, t2);
}

proof fn lemma_prefixes_differ(x: Seq<char>, y: Seq<char>)
    ensures
        builtin_prefix() + x != named_prefix() + y,
{
    assert((builtin_prefix() + x)[0] == 'b');
    assert((named_prefix() + y)[0] == 'n');
}

/// Batching identities tell materials apart: two materials get the same
/// identity exactly when they are the same material.
pub proof fn lemma_material_identity_injective(a: RenderMaterial, b: RenderMaterial)
    ensures
        material_identity(a) == material_identity(b) <==> same_material(a, b),
{
    match a {
        RenderMaterial::Builtin { shader: s1, material_type: t1, name: n1 } => match b {
            RenderMaterial::Builtin { shader: s2, material_type: t2, name: n2 } => {
                if material_identity(a) == material_identity(b) {
                    lemma_builtin_identity_injective(s1, t1, n1@, s2, t2, n2@);
                }
            },
            RenderMaterial::Named(n2) => {
                lemma_prefixes_differ(
                    builtin_shader_debug(s1) + seq![':'] + material_type_debug(t1) + seq![':'] + n1@,
                    n2@,
                );
                assert(material_identity(a) =~= builtin_prefix() + (builtin_shader_debug(s1) + seq![':']
                    + material_type_debug(t1) + seq![':'] + n1@));
            },
        },
        RenderMaterial::Named(n1) => match b {
            RenderMaterial::Builtin { shader: s2, material_type: t2, name: n2 } => {
                lemma_prefixes_differ(
                    builtin_shader_debug(s2) + seq![':'] + material_type_debug(t2) + seq![':'] + n2@,
                    n1@,
                );
                assert(material_identity(b) =~= builtin_prefix() + (builtin_shader_debug(s2) + seq![':']
                    + material_type_debug(t2) + seq![':'] + n2@));
            },
            RenderMaterial::Named(n2) => {
                if material_identity(a) == material_identity(b) {
                    lemma_drop_prefix(named_prefix(), n1@, n2@);
                }
            },
        },
    }
}

/// Builtin shaders offered by scene descriptors.
#[derive(Clone, Copy, Debug, PartialEq, Eq, Structural)]
pub enum SceneBuiltinShader {
    Lit,
    Unlit,
}

impl Default for SceneBuiltinShader {
    fn default() -> (r: Self)
        ensures
            r == SceneBuiltinShader::Unlit,
    {
        SceneBuiltinShader::Unlit
    }
}

/// The renderer shader of a scene shader.
pub open spec fn scene_shader_builtin(s: SceneBuiltinShader) -> BuiltinShader {
    match s {
        SceneBuiltinShader::Lit => BuiltinShader::Lit,
        SceneBuiltinShader::Unlit => BuiltinShader::Unlit,
    }
}

/// The material type of a scene shader.
pub open spec fn scene_shader_material_type(s: SceneBuiltinShader) -> MaterialType {
    match s {
        SceneBuiltinShader::Lit => MaterialType::Lit,
        SceneBuiltinShader::Unlit => MaterialType::Unlit,
    }
}

impl SceneBuiltinShader {
    /// The material type this shader renders with.
    pub fn material_type(self) -> (r: MaterialType)
        ensures
            r == scene_shader_material_type(self),
    {
        match self {
            SceneBuiltinShader::Lit => MaterialType::Lit,
            SceneBuiltinShader::Unlit => MaterialType::Unlit,
        }
    }
}

impl From<SceneBuiltinShader> for BuiltinShader {
    fn from(value: SceneBuiltinShader) -> (r: Self) {
        match value {
            SceneBuiltinShader::Lit => BuiltinShader::Lit,
            SceneBuiltinShader::Unlit => BuiltinShader::Unlit,
        }
    }
}

impl vstd::std_specs::convert::FromSpecImpl<SceneBuiltinShader> for BuiltinShader {
    open spec fn obeys_from_spec() -> bool {
        true
    }

    open spec fn from_spec(v: SceneBuiltinShader) -> BuiltinShader {
        scene_shader_builtin(v)
    }
}

/// Primitive shapes offered by scene descriptors.
#[derive(Clone, Copy, Debug, PartialEq, Eq, Structural)]
pub enum SceneMeshPrimitive {
    Cube,
    Sphere,
}

impl Default for SceneMeshPrimitive {
    fn default() -> (r: Self)
        ensures
            r == SceneMeshPrimitive::Cube,
    {
        SceneMeshPrimitive::Cube
    }
}

/// The render primitive of a scene primitive: spheres get 16 segments and 16 rings.
pub open spec fn scene_primitive_mesh(p: SceneMeshPrimitive) -> MeshPrimitive {
    match p {
        SceneMeshPrimitive::Cube => MeshPrimitive::Cube,
        SceneMeshPrimitive::Sphere => MeshPrimitive::Sphere { segments: 16, rings: 16 },
    }
}

impl From<SceneMeshPrimitive> for MeshPrimitive {
    fn from(value: SceneMeshPrimitive) -> (r: Self) {
        match value {
            SceneMeshPrimitive::Cube => MeshPrimitive::Cube,
            SceneMeshPrimitive::Sphere => MeshPrimitive::Sphere { segments: 16, rings: 16 },
        }
    }
}

impl vstd::std_specs::convert::FromSpecImpl<SceneMeshPrimitive> for MeshPrimitive {
    open spec fn obeys_from_spec() -> bool {
        true
    }

    open spec fn from_spec(v: SceneMeshPrimitive) -> MeshPrimitive {
        scene_primitive_mesh(v)
    }
}

/// The render material of a scene material with the given name and shader.
pub fn render_material_from_scene(name: String, shader: SceneBuiltinShader) -> (r: RenderMaterial)
    ensures
        r matches RenderMaterial::Builtin { shader: s, material_type: t, name: n } && s
            == scene_shader_builtin(shader) && t == scene_shader_material_type(shader) && n@ == name@,
{
    RenderMaterial::Builtin {
        shader: BuiltinShader::from(shader),
        material_type: shader.material_type(),
        name,
    }
}

/// Display name of a scene entity.
#[derive(Clone, Debug)]
pub struct Name(pub String);

/// Format tag of wrapped scene documents.
pub const OXSCENE_FORMAT: &'static str = "oxide.oxscene";

/// Version of wrapped scene documents.
pub const OXSCENE_VERSION: u32 = 1;

/// The text of the scene document format tag.
pub open spec fn oxscene_format_text() -> Seq<char> {
    seq!['o', 'x', 'i', 'd', 'e', '.', 'o', 'x', 's', 'c', 'e', 'n', 'e']
}

/// Errors of scene descriptor handling that do not come from I/O or parsing.
#[derive(Clone, Debug)]
pub enum SceneDescriptorError {
    UnsupportedVersion { path: String, format: String, version: u32 },
}

/// Checks the header of a wrapped scene document: it must carry the scene
/// format tag and the supported version.
pub fn check_scene_document(format: String, version: u32, path: String) -> (r: Result<(), SceneDescriptorError>)
    ensures
        r is Ok <==> (format@ == oxscene_format_text() && version == OXSCENE_VERSION),
        r matches Err(SceneDescriptorError::UnsupportedVersion { path: p, format: f, version: v }) ==> p@
            == path@ && f@ == format@ && v == version,
{
    proof {
        reveal_strlit("oxide.oxscene");
        assert(OXSCENE_FORMAT@ =~= oxscene_format_text());
    }
    if !str_equal(format.as_str(), OXSCENE_FORMAT) || version != OXSCENE_VERSION {
        return Err(SceneDescriptorError::UnsupportedVersion { path, format, version });
    }
    Ok(())
}

/// Whether a scene JSON value is a wrapped document: its `format` field is the
/// scene format tag, or it has both a `scene` and a `version` field.
pub fn is_wrapped_scene_document(format: Option<&str>, has_scene: bool, has_version: bool) -> (r: bool)
    ensures
        r == ((format matches Some(f) && f@ == oxscene_format_text()) || (has_scene && has_version)),
{
    proof {
        reveal_strlit("oxide.oxscene");
        assert(OXSCENE_FORMAT@ =~= oxscene_format_text());
    }
    let tagged = match format {
        Some(f) => str_equal(f, OXSCENE_FORMAT),
        None => false,
    };
    tagged || (has_scene && has_version)
}

} // verus!
