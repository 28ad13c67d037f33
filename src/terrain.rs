use vstd::prelude::*;

use crate::pass::VertexAttribute;

verus! {

/// A texture that a pass binds from each material.
#[derive(Clone, Copy, Debug, PartialEq, Eq, Structural)]
pub enum TextureSlot {
    Albedo,
    Emission,
    Splat,
}

/// A compiled shader module that a pass runs.
#[derive(Clone, Copy, Debug, PartialEq, Eq, Structural)]
pub enum ShaderModule {
    TerrainPosTexVertex,
    TerrainPosNormTexVertex,
    PosTexSkinVertex,
    TerrainFlatFragment,
    TerrainShadedFragment,
}

/// The material of a terrain: a splat map that weighs the layers, and the
/// layer textures, loaded as one array texture. Both are texture handles.
#[derive(Clone, Copy, Debug, PartialEq, Eq, Structural)]
pub struct TerrainMaterial {
    pub splat_map: u32,
    pub textures: u32,
}

impl TerrainMaterial {
    pub fn new(splat_map: u32, textures: u32) -> (r: Self)
        ensures
            r.splat_map == splat_map,
            r.textures == textures,
    {
        TerrainMaterial { splat_map, textures }
    }

    /// Whether both textures are among the `resident` ones, so that the
    /// material can be loaded.
    pub fn ready(&self, resident: &Vec<u32>) -> (r: bool)
        ensures
            r == (resident@.contains(self.splat_map) && resident@.contains(self.textures)),
    {
        let mut splat = false;
        let mut layers = false;
        let mut k: usize = 0;
        while k < resident.len()
            invariant
                0 <= k <= resident@.len(),
                splat == exists|c: int| 0 <= c < k && resident@[c] == self.splat_map,
                layers == exists|c: int| 0 <= c < k && resident@[c] == self.textures,
            decreases resident@.len() - k,
        {
            if resident[k] == self.splat_map {
                splat = true;
            }
            if resident[k] == self.textures {
                layers = true;
            }
            k = k + 1;
        }
        splat && layers
    }
}

fn attributes2(a: VertexAttribute, b: VertexAttribute) -> (r: Vec<VertexAttribute>)
    ensures
        r@ == seq![a, b],
{
    let mut v: Vec<VertexAttribute> = Vec::new();
    v.push(a);
    v.push(b);
    assert(v@ =~= seq![a, b]);
    v
}

fn attributes3(a: VertexAttribute, b: VertexAttribute, c: VertexAttribute) -> (r: Vec<
    VertexAttribute,
>)
    ensures
        r@ == seq![a, b, c],
{
    let mut v: Vec<VertexAttribute> = Vec::new();
    v.push(a);
    v.push(b);
    v.push(c);
    assert(v@ =~= seq![a, b, c]);
    v
}

/// The flat terrain pass: albedo and splat map, no lighting.
#[derive(Clone, Copy, Debug, PartialEq, Eq, Structural)]
pub struct TerrainFlatPassDef;

impl TerrainFlatPassDef {
    pub fn vertex_shader() -> (r: ShaderModule)
        ensures
            r == ShaderModule::TerrainPosTexVertex,
    {
        ShaderModule::TerrainPosTexVertex
    }

    pub fn vertex_skinned_shader() -> (r: ShaderModule)
        ensures
            r == ShaderModule::PosTexSkinVertex,
    {
        ShaderModule::PosTexSkinVertex
    }

    pub fn fragment_shader() -> (r: ShaderModule)
        ensures
            r == ShaderModule::TerrainFlatFragment,
    {
        ShaderModule::TerrainFlatFragment
    }

    /// The textures bound from each material.
    pub fn texture_set() -> (r: Vec<TextureSlot>)
        ensures
            r@ == seq![TextureSlot::Albedo, TextureSlot::Splat],
    {
        let mut v: Vec<TextureSlot> = Vec::new();
        v.push(TextureSlot::Albedo);
        v.push(TextureSlot::Splat);
        assert(v@ =~= seq![TextureSlot::Albedo, TextureSlot::Splat]);
        v
    }

    /// The vertex attributes of a static mesh.
    pub fn base_format() -> (r: Vec<VertexAttribute>)
        ensures
            r@ == seq![VertexAttribute::Position, VertexAttribute::TexCoord],
    {
        attributes2(VertexAttribute::Position, VertexAttribute::TexCoord)
    }

    /// The vertex attributes of a skinned mesh.
    pub fn skinned_format() -> (r: Vec<VertexAttribute>)
        ensures
            r@ == seq![
                VertexAttribute::Position,
                VertexAttribute::TexCoord,
                VertexAttribute::JointCombined,
            ],
    {
        attributes3(
            VertexAttribute::Position,
            VertexAttribute::TexCoord,
            VertexAttribute::JointCombined,
        )
    }
}

/// The shaded terrain pass: albedo, emission and splat map, with lighting.
#[derive(Clone, Copy, Debug, PartialEq, Eq, Structural)]
pub struct TerrainShadedPassDef;

impl TerrainShadedPassDef {
    pub fn vertex_shader() -> (r: ShaderModule)
        ensures
            r == ShaderModule::TerrainPosNormTexVertex,
    {
        ShaderModule::TerrainPosNormTexVertex
    }

    pub fn vertex_skinned_shader() -> (r: ShaderModule)
        ensures
            r == ShaderModule::PosTexSkinVertex,
    {
        ShaderModule::PosTexSkinVertex
    }

    pub fn fragment_shader() -> (r: ShaderModule)
        ensures
            r == ShaderModule::TerrainShadedFragment,
    {
        ShaderModule::TerrainShadedFragment
    }

    /// The textures bound from each material.
    pub fn texture_set() -> (r: Vec<TextureSlot>)
        ensures
            r@ == seq![TextureSlot::Albedo, TextureSlot::Emission, TextureSlot::Splat],
    {
        let mut v: Vec<TextureSlot> = Vec::new();
        v.push(TextureSlot::Albedo);
        v.push(TextureSlot::Emission);
        v.push(TextureSlot::Splat);
        assert(v@ =~= seq![TextureSlot::Albedo, TextureSlot::Emission, TextureSlot::Splat]);
        v
    }

    /// The vertex attributes of a static mesh.
    pub fn base_format() -> (r: Vec<VertexAttribute>)
        ensures
            r@ == seq![VertexAttribute::Position, VertexAttribute::Normal, VertexAttribute::TexCoord],
    {
        attributes3(VertexAttribute::Position, VertexAttribute::Normal, VertexAttribute::TexCoord)
    }

    /// The vertex attributes of a skinned mesh.
    pub fn skinned_format() -> (r: Vec<VertexAttribute>)
        ensures
            r@ == seq![
                VertexAttribute::Position,
                VertexAttribute::TexCoord,
                VertexAttribute::JointCombined,
            ],
    {
        attributes3(
            VertexAttribute::Position,
            VertexAttribute::TexCoord,
            VertexAttribute::JointCombined,
        )
    }
}

} // verus!
