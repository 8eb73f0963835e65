//! Custom shaders: the identifiers a shader definition is given, and the
//! rules for the names of the uniforms and textures an object binds to it.
//!
//! Binding names must be GLSL identifiers. Image-shader bindings cannot use
//! the `k_` prefix, which the engine keeps for its own inputs; mesh-shader
//! uniforms cannot reuse the names of the uniforms the engine supplies.

use vstd::prelude::*;
use vstd::string::StrSliceExecFns;

verus! {

/// An ASCII letter.
pub open spec fn is_ascii_letter(c: char) -> bool {
    ('a' as u32 <= c as u32 <= 'z' as u32) || ('A' as u32 <= c as u32 <= 'Z' as u32)
}

/// An ASCII digit.
pub open spec fn is_ascii_digit(c: char) -> bool {
    '0' as u32 <= c as u32 <= '9' as u32
}

/// A GLSL identifier: a letter or underscore, then letters, digits or underscores.
pub open spec fn is_identifier(name: Seq<char>) -> bool {
    &&& name.len() > 0
    &&& (name[0] == '_' || is_ascii_letter(name[0]))
    &&& forall|i: int|
        1 <= i < name.len() ==> name[i] == '_' || is_ascii_letter(name[i]) || is_ascii_digit(
            name[i],
        )
}

/// A name an image shader can bind: an identifier without the `k_` prefix.
pub open spec fn is_binding_name(name: Seq<char>) -> bool {
    &&& is_identifier(name)
    &&& !(name.len() >= 2 && name[0] == 'k' && name[1] == '_')
}

/// The names of the uniforms the engine supplies to mesh shaders.
pub open spec fn reserved_uniform_names() -> Seq<Seq<char>> {
    seq![
        "modelMatrix"@,
        "normalMatrix"@,
        "viewProjection"@,
        "viewMatrix"@,
        "projectionMatrix"@,
        "cameraPosition"@,
        "sceneTime"@,
        "materialColor"@,
        "hasNormal"@,
        "hasUv"@,
    ]
}

/// A name a mesh shader uniform can use: an identifier the engine does not supply.
pub open spec fn is_uniform_name(name: Seq<char>) -> bool {
    &&& is_identifier(name)
    &&& !reserved_uniform_names().contains(name)
}

fn is_letter(c: char) -> (letter: bool)
    ensures
        letter == is_ascii_letter(c),
{
    let code = c as u32;
    ('a' as u32 <= code && code <= 'z' as u32) || ('A' as u32 <= code && code <= 'Z' as u32)
}

fn is_digit(c: char) -> (digit: bool)
    ensures
        digit == is_ascii_digit(c),
{
    let code = c as u32;
    '0' as u32 <= code && code <= '9' as u32
}

/// Whether `name` is a GLSL identifier.
pub fn valid_identifier(name: &str) -> (valid: bool)
    ensures
        valid == is_identifier(name@),
{
    let len = name.unicode_len();
    if len == 0 {
        return false;
    }
    let first = name.get_char(0);
    if !(first == '_' || is_letter(first)) {
        return false;
    }
    let mut index: usize = 1;
    while index < len
        invariant
            len == name@.len(),
            1 <= index <= len,
            forall|i: int|
                1 <= i < index ==> name@[i] == '_' || is_ascii_letter(name@[i]) || is_ascii_digit(
                    name@[i],
                ),
        decreases len - index,
    {
        let c = name.get_char(index);
        if !(c == '_' || is_letter(c) || is_digit(c)) {
            return false;
        }
        index = index + 1;
    }
    true
}

/// Whether two texts hold the same characters.
pub fn same_text(left: &str, right: &str) -> (same: bool)
    ensures
        same == (left@ == right@),
{
    let len = left.unicode_len();
    if len != right.unicode_len() {
        return false;
    }
    let mut index: usize = 0;
    while index < len
        invariant
            len == left@.len(),
            len == right@.len(),
            index <= len,
            forall|i: int| 0 <= i < index ==> left@[i] == right@[i],
        decreases len - index,
    {
        if left.get_char(index) != right.get_char(index) {
            return false;
        }
        index = index + 1;
    }
    assert(left@ =~= right@);
    true
}

/// Whether an image shader can bind `name` as a uniform or texture.
pub fn valid_binding_name(name: &str) -> (valid: bool)
    ensures
        valid == is_binding_name(name@),
{
    if !valid_identifier(name) {
        return false;
    }
    let len = name.unicode_len();
    !(len >= 2 && name.get_char(0) == 'k' && name.get_char(1) == '_')
}

/// Whether a mesh shader uniform can use `name`.
pub fn valid_uniform_name(name: &str) -> (valid: bool)
    ensures
        valid == is_uniform_name(name@),
{
    if !valid_identifier(name) {
        return false;
    }
    let reserved = [
        "modelMatrix",
        "normalMatrix",
        "viewProjection",
        "viewMatrix",
        "projectionMatrix",
        "cameraPosition",
        "sceneTime",
        "materialColor",
        "hasNormal",
        "hasUv",
    ];
    let ghost names = reserved_uniform_names();
    assert(forall|i: int| 0 <= i < 10 ==> #[trigger] reserved@[i]@ == names[i]);
    let mut index: usize = 0;
    while index < 10
        invariant
            names == reserved_uniform_names(),
            forall|i: int| 0 <= i < 10 ==> #[trigger] reserved@[i]@ == names[i],
            index <= 10,
            forall|i: int| 0 <= i < index ==> names[i] != name@,
        decreases 10 - index,
    {
        if same_text(name, reserved[index]) {
            assert(names[index as int] == name@);
            return false;
        }
        index = index + 1;
    }
    assert(!names.contains(name@));
    true
}

/// Why an object's image-shader bindings are refused.
pub enum BindingError {
    /// The name is not an identifier, or uses the `k_` prefix.
    InvalidName(String),
    /// The name is bound both as a uniform and as a texture.
    UniformAndTexture(String),
}

impl BindingError {
    /// The message a refused binding is reported with.
    pub fn message(&self) -> (text: String)
        ensures
            self matches BindingError::InvalidName(name) ==> text@ == "Image shader binding `"@
                + name@ + "` must be a GLSL identifier and cannot use the `k_` prefix."@,
            self matches BindingError::UniformAndTexture(name) ==> text@
                == "Image shader binding `"@ + name@ + "` cannot be both a uniform and a texture."@,
    {
        let mut text = String::from_str("Image shader binding `");
        match self {
            BindingError::InvalidName(name) => {
                text.append(name.as_str());
                text.append("` must be a GLSL identifier and cannot use the `k_` prefix.");
            },
            BindingError::UniformAndTexture(name) => {
                text.append(name.as_str());
                text.append("` cannot be both a uniform and a texture.");
            },
        }
        text
    }
}

/// Whether `a` comes strictly before `b` in the order of their characters'
/// code points, a proper prefix first: the order of `String` keys in a sorted map.
pub open spec fn precedes(a: Seq<char>, b: Seq<char>) -> bool
    decreases a.len(),
{
    if a.len() == 0 {
        b.len() > 0
    } else if b.len() == 0 {
        false
    } else if a[0] != b[0] {
        (a[0] as u32) < (b[0] as u32)
    } else {
        precedes(a.drop_first(), b.drop_first())
    }
}

/// The names are in strictly increasing order, so none occurs twice: the keys
/// of a sorted map, walked in order.
pub open spec fn sorted_names(names: Seq<String>) -> bool {
    forall|i: int, j: int| 0 <= i < j < names.len() ==> precedes(names[i]@, names[j]@)
}

/// Checks the names an object binds to its image shader, given as the sorted
/// keys of its uniform and texture maps: every uniform name, then every
/// texture name, must be a binding name; then no uniform name may also be a
/// texture name. Reports the first offending name.
pub fn validate_binding_names(uniforms: &Vec<String>, textures: &Vec<String>) -> (result: Result<(), BindingError>)
    requires
        sorted_names(uniforms@),
        sorted_names(textures@),
    ensures
        result is Ok <==> (forall|i: int| 0 <= i < uniforms@.len() ==> is_binding_name(#[trigger] uniforms@[i]@))
            && (forall|i: int| 0 <= i < textures@.len() ==> is_binding_name(#[trigger] textures@[i]@))
            && (forall|i: int, j: int| 0 <= i < uniforms@.len() && 0 <= j < textures@.len() ==> #[trigger] uniforms@[i]@ != #[trigger] textures@[j]@),
        result matches Err(BindingError::InvalidName(name)) ==> !is_binding_name(name@) && ((exists|i: int|
            0 <= i < uniforms@.len() && uniforms@[i]@ == name@ && forall|j: int| 0 <= j < i ==> is_binding_name(#[trigger] uniforms@[j]@))
            || ((forall|j: int| 0 <= j < uniforms@.len() ==> is_binding_name(#[trigger] uniforms@[j]@)) && exists|i: int|
            0 <= i < textures@.len() && textures@[i]@ == name@ && forall|j: int| 0 <= j < i ==> is_binding_name(#[trigger] textures@[j]@))),
        result matches Err(BindingError::UniformAndTexture(name)) ==> (forall|i: int| 0 <= i < uniforms@.len() ==> is_binding_name(#[trigger] uniforms@[i]@))
            && (forall|i: int| 0 <= i < textures@.len() ==> is_binding_name(#[trigger] textures@[i]@))
            && exists|i: int| 0 <= i < uniforms@.len() && uniforms@[i]@ == name@ && textures@.map_values(|t: String| t@).contains(name@)
                && forall|k: int| 0 <= k < i ==> !textures@.map_values(|t: String| t@).contains(#[trigger] uniforms@[k]@),
{
    let mut i: usize = 0;
    while i < uniforms.len()
        invariant
            i <= uniforms@.len(),
            forall|j: int| 0 <= j < i ==> is_binding_name(#[trigger] uniforms@[j]@),
        decreases uniforms@.len() - i,
    {
        if !valid_binding_name(uniforms[i].as_str()) {
            return Err(BindingError::InvalidName(uniforms[i].clone()));
        }
        i = i + 1;
    }
    let mut i: usize = 0;
    while i < textures.len()
        invariant
            i <= textures@.len(),
            forall|j: int| 0 <= j < uniforms@.len() ==> is_binding_name(#[trigger] uniforms@[j]@),
            forall|j: int| 0 <= j < i ==> is_binding_name(#[trigger] textures@[j]@),
        decreases textures@.len() - i,
    {
        if !valid_binding_name(textures[i].as_str()) {
            return Err(BindingError::InvalidName(textures[i].clone()));
        }
        i = i + 1;
    }
    let ghost texture_names = textures@.map_values(|t: String| t@);
    let mut u: usize = 0;
    while u < uniforms.len()
        invariant
            texture_names == textures@.map_values(|t: String| t@),
            u <= uniforms@.len(),
            forall|j: int| 0 <= j < uniforms@.len() ==> is_binding_name(#[trigger] uniforms@[j]@),
            forall|j: int| 0 <= j < textures@.len() ==> is_binding_name(#[trigger] textures@[j]@),
            forall|k: int| 0 <= k < u ==> !texture_names.contains(#[trigger] uniforms@[k]@),
        decreases uniforms@.len() - u,
    {
        let mut t: usize = 0;
        while t < textures.len()
            invariant
                texture_names == textures@.map_values(|t: String| t@),
                u < uniforms@.len(),
                t <= textures@.len(),
                forall|j: int| 0 <= j < uniforms@.len() ==> is_binding_name(#[trigger] uniforms@[j]@),
                forall|j: int| 0 <= j < textures@.len() ==> is_binding_name(#[trigger] textures@[j]@),
                forall|k: int| 0 <= k < u ==> !texture_names.contains(#[trigger] uniforms@[k]@),
                forall|j: int| 0 <= j < t ==> textures@[j]@ != uniforms@[u as int]@,
            decreases textures@.len() - t,
        {
            if uniforms[u] == textures[t] {
                assert(texture_names[t as int] == uniforms@[u as int]@);
                assert(texture_names.contains(uniforms@[u as int]@));
                let name = uniforms[u].clone();
                assert(uniforms@[u as int]@ == name@ && texture_names.contains(name@) && forall|k: int|
                    0 <= k < u ==> !texture_names.contains(#[trigger] uniforms@[k]@));
                return Err(BindingError::UniformAndTexture(name));
            }
            t = t + 1;
        }
        assert(!texture_names.contains(uniforms@[u as int]@)) by {
            if texture_names.contains(uniforms@[u as int]@) {
                let j = choose|j: int| 0 <= j < texture_names.len() && texture_names[j] == uniforms@[u as int]@;
                assert(textures@[j]@ == uniforms@[u as int]@);
            }
        }
        u = u + 1;
    }
    assert forall|i: int, j: int| 0 <= i < uniforms@.len() && 0 <= j < textures@.len() implies #[trigger] uniforms@[i]@ != #[trigger] textures@[j]@ by {
        assert(texture_names[j] == textures@[j]@);
        assert(!texture_names.contains(uniforms@[i]@));
    }
    Ok(())
}

/// Hands out shader identifiers in increasing order, as the process-wide
/// counter of each kind of shader definition (image or mesh) does.
pub struct ShaderIds {
    next: u64,
}

impl View for ShaderIds {
    type V = u64;

    closed spec fn view(&self) -> u64 {
        self.next
    }
}

impl ShaderIds {
    /// A counter whose first identifier is 1.
    pub fn new() -> (ids: Self)
        ensures
            ids@ == 1,
    {
        ShaderIds { next: 1 }
    }

    /// Returns the next identifier and advances the counter, wrapping after `u64::MAX`.
    pub fn allocate(&mut self) -> (id: u64)
        ensures
            id == old(self)@,
            final(self)@ == vstd::wrapping::u64_specs::wrapping_add(old(self)@, 1),
    {
        let id = self.next;
        self.next = self.next.wrapping_add(1);
        id
    }
}

/// Shared GLSL 3.30 fragment-shader definition for image effects.
pub struct ImageShader {
    pub source: String,
    pub id: u64,
}

impl ImageShader {
    /// Creates a reusable shader definition from a complete GLSL 3.30
    /// fragment shader, with the next identifier of `ids`.
    pub fn new(source: String, ids: &mut ShaderIds) -> (shader: Self)
        ensures
            shader.source == source,
            shader.id == old(ids)@,
            final(ids)@ == vstd::wrapping::u64_specs::wrapping_add(old(ids)@, 1),
    {
        ImageShader { source, id: ids.allocate() }
    }
}

/// Shared GLSL 3.30 shader definition for three-dimensional meshes.
pub struct MeshShader {
    pub vertex: Option<String>,
    pub fragment: String,
    pub id: u64,
}

impl MeshShader {
    /// Creates a fragment shader paired with the engine's standard mesh vertex shader.
    pub fn fragment(source: String, ids: &mut ShaderIds) -> (shader: Self)
        ensures
            shader.vertex is None,
            shader.fragment == source,
            shader.id == old(ids)@,
            final(ids)@ == vstd::wrapping::u64_specs::wrapping_add(old(ids)@, 1),
    {
        MeshShader { vertex: None, fragment: source, id: ids.allocate() }
    }

    /// Creates a complete custom vertex/fragment program.
    pub fn program(vertex: String, fragment: String, ids: &mut ShaderIds) -> (shader: Self)
        ensures
            shader.vertex == Some(vertex),
            shader.fragment == fragment,
            shader.id == old(ids)@,
            final(ids)@ == vstd::wrapping::u64_specs::wrapping_add(old(ids)@, 1),
    {
        MeshShader { vertex: Some(vertex), fragment, id: ids.allocate() }
    }
}

} // verus!
