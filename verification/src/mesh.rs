//! Triangle meshes: corners in one list, and in another the places in it
//! of the three corners of each triangle.
use crate::material::{MaterialKind, MaterialModel};
use crate::scalar::Scalar;
use crate::shapes::{Primitive, PrimitiveModel, Triangle, TriangleModel};
use crate::vec3::{v3, v3_add, Vec3, V3};
use vstd::prelude::*;

verus! {

/// Whether the lists describe a mesh: the indices come in threes, and each
/// names a corner whose three coordinates the positions hold.
pub open spec fn mesh_is_valid(positions: Seq<Scalar>, indices: Seq<u32>) -> bool {
    &&& indices.len() % 3 == 0
    &&& forall|k: int| 0 <= k < indices.len() ==> 3 * #[trigger] indices[k] + 2 < positions.len()
}

/// The corner of the mesh with the given index.
pub open spec fn mesh_corner(positions: Seq<Scalar>, index: int) -> V3 {
    v3(positions[3 * index]@, positions[3 * index + 1]@, positions[3 * index + 2]@)
}

/// Triangle number `k` of the mesh, moved by `position`.
pub open spec fn mesh_triangle(
    positions: Seq<Scalar>,
    indices: Seq<u32>,
    k: int,
    material: MaterialModel,
    position: V3,
) -> PrimitiveModel {
    PrimitiveModel::Triangle(
        TriangleModel {
            v0: v3_add(position, mesh_corner(positions, indices[3 * k] as int)),
            v1: v3_add(position, mesh_corner(positions, indices[3 * k + 1] as int)),
            v2: v3_add(position, mesh_corner(positions, indices[3 * k + 2] as int)),
            material,
        },
    )
}

/// Whether the lists describe a mesh.
pub fn mesh_check(positions: &Vec<Scalar>, indices: &Vec<u32>) -> (ok: bool)
    ensures
        ok == mesh_is_valid(positions@, indices@),
{
    if indices.len() % 3 != 0 {
        return false;
    }
    let corners = positions.len() / 3;
    let mut k: usize = 0;
    while k < indices.len()
        invariant
            k <= indices.len(),
            corners == positions.len() / 3,
            forall|n: int| 0 <= n < k ==> 3 * #[trigger] indices[n] + 2 < positions.len(),
        decreases indices.len() - k,
    {
        if indices[k] as usize >= corners {
            assert(!(3 * indices@[k as int] + 2 < positions.len()));
            return false;
        }
        k = k + 1;
    }
    true
}

fn corner(positions: &Vec<Scalar>, index: u32) -> (c: Vec3)
    requires
        3 * index + 2 < positions.len(),
    ensures
        c@ == mesh_corner(positions@, index as int),
{
    let first: usize = index as usize * 3;
    Vec3::new(positions[first], positions[first + 1], positions[first + 2])
}

/// The triangles of a mesh, each moved by `position` and given `material`.
pub fn mesh_to_triangle_vec(
    positions: &Vec<Scalar>,
    indices: &Vec<u32>,
    material: MaterialKind,
    position: Vec3,
) -> (result: Vec<Primitive>)
    requires
        mesh_is_valid(positions@, indices@),
    ensures
        result.len() == indices.len() / 3,
        forall|k: int|
            0 <= k < result.len() ==> (#[trigger] result[k])@ == mesh_triangle(
                positions@,
                indices@,
                k,
                material@,
                position@,
            ),
{
    let mut result: Vec<Primitive> = Vec::new();
    let count = indices.len() / 3;
    let mut k: usize = 0;
    while k < count
        invariant
            k <= count,
            count == indices.len() / 3,
            mesh_is_valid(positions@, indices@),
            result.len() == k,
            forall|n: int|
                0 <= n < k ==> (#[trigger] result[n])@ == mesh_triangle(
                    positions@,
                    indices@,
                    n,
                    material@,
                    position@,
                ),
        decreases count - k,
    {
        let v0 = corner(positions, indices[3 * k]);
        let v1 = corner(positions, indices[3 * k + 1]);
        let v2 = corner(positions, indices[3 * k + 2]);
        result.push(
            Primitive::Triangle(
                Triangle {
                    vertices: [position.add(v0), position.add(v1), position.add(v2)],
                    material,
                },
            ),
        );
        k = k + 1;
    }
    result
}

} // verus!
