use pathtracer::material::{Lambertian, MaterialKind};
use pathtracer::mesh::{mesh_check, mesh_to_triangle_vec};
use pathtracer::scalar::{Scalar, ONE_RAW};
use pathtracer::shapes::Primitive;
use pathtracer::vec3::Vec3;

fn raw3(a: Vec3) -> (i64, i64, i64) {
    (a.x.raw(), a.y.raw(), a.z.raw())
}

fn grey() -> MaterialKind {
    MaterialKind::Lambertian(Lambertian { albedo: Vec3::from_raw(500_000_000, 500_000_000, 500_000_000) })
}

fn square() -> Vec<Scalar> {
    let corners: [i64; 12] = [0, 0, 0, 1, 0, 0, 1, 1, 0, 0, 1, 0];
    corners.iter().map(|c| Scalar::from_raw(c * ONE_RAW)).collect()
}

#[test]
fn mesh_with_whole_triangles_is_valid() {
    assert!(mesh_check(&square(), &vec![0, 1, 2, 0, 2, 3]));
    assert!(mesh_check(&square(), &vec![]));
    assert!(mesh_check(&vec![], &vec![]));
    assert!(mesh_check(&square(), &vec![3, 3, 3]));
}

#[test]
fn mesh_with_a_broken_triangle_is_not_valid() {
    assert!(!mesh_check(&square(), &vec![0, 1]));
    assert!(!mesh_check(&square(), &vec![0, 1, 2, 0]));
}

#[test]
fn mesh_with_a_missing_corner_is_not_valid() {
    assert!(!mesh_check(&square(), &vec![0, 1, 4]));
    assert!(!mesh_check(&square(), &vec![u32::MAX, 1, 2]));
    assert!(!mesh_check(&vec![], &vec![0, 0, 0]));
    let mut short = square();
    short.pop();
    assert!(!mesh_check(&short, &vec![0, 1, 3]));
    assert!(mesh_check(&short, &vec![0, 1, 2]));
}

#[test]
fn mesh_becomes_triangles_moved_to_their_place() {
    let indices = vec![0, 1, 2, 0, 2, 3];
    assert!(mesh_check(&square(), &indices));
    let triangles = mesh_to_triangle_vec(&square(), &indices, grey(), Vec3::from_raw(0, 0, -2 * ONE_RAW));
    assert_eq!(triangles.len(), 2);
    match triangles[0] {
        Primitive::Triangle(t) => {
            assert_eq!(raw3(t.vertices[0]), (0, 0, -2 * ONE_RAW));
            assert_eq!(raw3(t.vertices[1]), (ONE_RAW, 0, -2 * ONE_RAW));
            assert_eq!(raw3(t.vertices[2]), (ONE_RAW, ONE_RAW, -2 * ONE_RAW));
            assert!(matches!(t.material, MaterialKind::Lambertian(_)));
        }
        Primitive::Sphere(_) => panic!("a mesh holds triangles only"),
    }
    match triangles[1] {
        Primitive::Triangle(t) => {
            assert_eq!(raw3(t.vertices[0]), (0, 0, -2 * ONE_RAW));
            assert_eq!(raw3(t.vertices[1]), (ONE_RAW, ONE_RAW, -2 * ONE_RAW));
            assert_eq!(raw3(t.vertices[2]), (0, ONE_RAW, -2 * ONE_RAW));
        }
        Primitive::Sphere(_) => panic!("a mesh holds triangles only"),
    }
}

#[test]
fn mesh_without_indices_has_no_triangles() {
    let triangles = mesh_to_triangle_vec(&square(), &vec![], grey(), Vec3::zero());
    assert!(triangles.is_empty());
}
