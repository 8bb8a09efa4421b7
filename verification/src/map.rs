//! The generation facade: a single parameter bundle composed into a mesh and
//! a material.
//!
//! Generation is pure: it validates the parameters, builds the heightfield
//! sampler, triangulates it at the chosen level of detail, and bundles the
//! material layers for height-based blending. It either fully succeeds or
//! fails with an explicit error before any work is done.

use vstd::prelude::*;
use crate::fixed::ONE;
use crate::noise::{NoiseData, SCALE_MIN, SCALE_MAX, LACUNARITY_MAX, MAX_OCTAVES};
use crate::curve::HeightCurve;
use crate::material::{MaterialData, Color};
use crate::mesh::{Heightfield, GeneratedMesh, build_mesh, spec_matches_mesh, MAP_HEIGHT_MAX,
    MAX_LOD};

verus! {

/// Why generation was refused.
#[derive(Clone, Copy, Debug, PartialEq, Eq, Structural)]
pub enum MapError {
    /// A parameter is out of its documented range or the layer sequences are
    /// inconsistent.
    InvalidParameter,
    /// The level of detail cannot produce a valid triangulation.
    GeometryConfiguration,
}

/// The material bundle paired with a generated mesh: the validated layer
/// sequences, ready for height-based blending on the consumer's side.
#[derive(Clone, Debug, PartialEq)]
pub struct GeneratedMaterial {
    pub layer_colors: Vec<Color>,
    pub layer_heights: Vec<u64>,
    pub blend_values: Vec<u64>,
}

/// Whether a generated material carries exactly the layers of `md`.
pub open spec fn spec_matches_material(md: MaterialData, g: GeneratedMaterial) -> bool {
    &&& g.layer_colors@ == md.layer_colors@
    &&& g.layer_heights@ == md.layer_heights@
    &&& g.blend_values@ == md.blend_values@
}

/// Stores all parameters of a map.
#[derive(Clone, Debug, PartialEq)]
pub struct MapData {
    pub wireframe: bool,
    pub map_height: u64,
    pub level_of_detail: usize,
    pub noise_data: NoiseData,
    pub height_curve: HeightCurve,
    pub material_data: MaterialData,
}

impl MapData {
    /// All numeric parameters are inside their documented ranges and the
    /// material layers are consistent.
    pub open spec fn params_wf(self) -> bool {
        &&& self.noise_data.wf()
        &&& self.height_curve.wf()
        &&& self.material_data.wf()
        &&& 0 < self.map_height <= MAP_HEIGHT_MAX
    }

    /// The level of detail yields a valid triangulation.
    pub open spec fn geometry_wf(self) -> bool {
        self.level_of_detail <= MAX_LOD
    }

    pub open spec fn wf(self) -> bool {
        self.params_wf() && self.geometry_wf()
    }

    /// The heightfield sampler bound to these parameters.
    pub open spec fn spec_heightfield(self) -> Heightfield {
        Heightfield {
            noise: self.noise_data,
            curve: self.height_curve,
            map_height: self.map_height,
        }
    }

    /// The documented defaults: no wireframe, vertical scale 10, finest
    /// level of detail, and the default noise, curve and material bundles.
    pub open spec fn is_default(self) -> bool {
        &&& self.wireframe == false
        &&& self.map_height == 10_000_000
        &&& self.level_of_detail == 0
        &&& self.noise_data == NoiseData::spec_default()
        &&& self.height_curve == HeightCurve::spec_default()
        &&& self.material_data.is_default()
    }

    pub fn new() -> (r: Self)
        ensures
            r.is_default(),
            r.wf(),
    {
        Self::default()
    }

    /// Checks every parameter against its documented range before any
    /// generation work: exactly the invalid inputs are rejected.
    pub fn validate(&self) -> (r: Result<(), MapError>)
        ensures
            r is Ok <==> self.wf(),
            !self.params_wf() ==> r == Err::<(), MapError>(MapError::InvalidParameter),
            self.params_wf() && !self.geometry_wf() ==> r == Err::<(), MapError>(
                MapError::GeometryConfiguration,
            ),
    {
        let nd = &self.noise_data;
        let noise_ok = SCALE_MIN <= nd.scale && nd.scale <= SCALE_MAX && 1 <= nd.octaves
            && nd.octaves <= MAX_OCTAVES && nd.persistence <= ONE && ONE <= nd.lacunarity
            && nd.lacunarity <= LACUNARITY_MAX;
        let hc = &self.height_curve;
        let curve_ok = hc.water_level <= ONE && ONE <= hc.slope && hc.slope <= 5 * ONE;
        let material_ok = self.material_data.validate();
        let height_ok = 0 < self.map_height && self.map_height <= MAP_HEIGHT_MAX;
        if !(noise_ok && curve_ok && material_ok && height_ok) {
            Err(MapError::InvalidParameter)
        } else if self.level_of_detail > MAX_LOD {
            Err(MapError::GeometryConfiguration)
        } else {
            Ok(())
        }
    }

    /// Generates the mesh and the material of the map from its parameters.
    ///
    /// Succeeds exactly on well-formed parameters; the mesh is the
    /// triangulation of the heightfield at the chosen level of detail and
    /// the material carries the validated layers unchanged. `wireframe` is a
    /// display hint and takes no part in generation.
    pub fn generate(&self) -> (r: Result<(GeneratedMesh, GeneratedMaterial), MapError>)
        ensures
            r is Ok <==> self.wf(),
            self.wf() ==> (r matches Ok(p) && spec_matches_mesh(
                self.spec_heightfield(),
                self.level_of_detail as int,
                p.0,
            ) && spec_matches_material(self.material_data, p.1)),
            !self.params_wf() ==> r == Err::<(GeneratedMesh, GeneratedMaterial), MapError>(
                MapError::InvalidParameter,
            ),
            self.params_wf() && !self.geometry_wf() ==> r == Err::<
                (GeneratedMesh, GeneratedMaterial),
                MapError,
            >(MapError::GeometryConfiguration),
    {
        match self.validate() {
            Err(e) => Err(e),
            Ok(()) => {
                let hf = Heightfield {
                    noise: self.noise_data,
                    curve: self.height_curve,
                    map_height: self.map_height,
                };
                let mesh = build_mesh(&hf, self.level_of_detail);
                let material = GeneratedMaterial {
                    layer_colors: copied(&self.material_data.layer_colors),
                    layer_heights: copied(&self.material_data.layer_heights),
                    blend_values: copied(&self.material_data.blend_values),
                };
                Ok((mesh, material))
            },
        }
    }
}

impl Default for MapData {
    fn default() -> (r: Self)
        ensures
            r.is_default(),
            r.wf(),
    {
        MapData {
            wireframe: false,
            map_height: 10_000_000,
            level_of_detail: 0,
            noise_data: Default::default(),
            height_curve: Default::default(),
            material_data: Default::default(),
        }
    }
}

/// An element-for-element copy of a vector of plain values.
fn copied<T: Copy>(v: &Vec<T>) -> (r: Vec<T>)
    ensures
        r@ == v@,
{
    let mut r: Vec<T> = Vec::new();
    let mut i: usize = 0;
    while i < v.len()
        invariant
            i <= v@.len(),
            r@ == v@.subrange(0, i as int),
        decreases v@.len() - i,
    {
        r.push(v[i]);
        proof {
            assert(r@ =~= v@.subrange(0, (i + 1) as int));
        }
        i = i + 1;
    }
    proof {
        assert(v@.subrange(0, v@.len() as int) =~= v@);
    }
    r
}

/// Generation is deterministic: any two outputs that meet the generation
/// contract for the same parameters are equal in every component.
pub proof fn lemma_generate_deterministic(
    p: MapData,
    m1: GeneratedMesh,
    g1: GeneratedMaterial,
    m2: GeneratedMesh,
    g2: GeneratedMaterial,
)
    requires
        p.wf(),
        spec_matches_mesh(p.spec_heightfield(), p.level_of_detail as int, m1),
        spec_matches_mesh(p.spec_heightfield(), p.level_of_detail as int, m2),
        spec_matches_material(p.material_data, g1),
        spec_matches_material(p.material_data, g2),
    ensures
        m1.vertices@ == m2.vertices@,
        m1.normals@ == m2.normals@,
        m1.indices@ == m2.indices@,
        m1.heights@ == m2.heights@,
        g1.layer_colors@ == g2.layer_colors@,
        g1.layer_heights@ == g2.layer_heights@,
        g1.blend_values@ == g2.blend_values@,
{
    crate::mesh::lemma_mesh_deterministic(p.spec_heightfield(), p.level_of_detail as int, m1, m2);
}

} // verus!
