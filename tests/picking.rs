use genmesh::generators::{Cube, SharedVertex};
use moksha::info::ObjectInfo;
use moksha::rc_rcell;
use moksha::shader::ShaderType;
use moksha::storage::Storage;
use nalgebra::{Isometry3, Point3, Vector3};
use ncollide3d::query::{Ray, RayCast};
use ncollide3d::shape::ConvexHull;

/// Whether the ray meets the hull of each object's points, placed at the
/// object's world translation (objects here only translate).
fn hits(s: &Storage<[f32; 3], Vec<Point3<f32>>>, ray: &Ray<f32>) -> Vec<bool> {
    (0..s.count())
        .map(|id| match s.mesh(id) {
            None => false,
            Some(points) => {
                let p = s.parent_transform(id);
                let t = s.transform(id);
                let at = Isometry3::translation(p[0] + t[0], p[1] + t[1], p[2] + t[2]);
                ConvexHull::try_from_points(points)
                    .map_or(false, |hull| hull.intersects_ray(&at, ray, f32::MAX))
            }
        })
        .collect()
}

fn add3(a: [f32; 3], b: [f32; 3]) -> [f32; 3] {
    [a[0] + b[0], a[1] + b[1], a[2] + b[2]]
}

#[test]
fn ray_at_cube_center_picks_it() {
    let cube: Vec<Point3<f32>> = Cube::new()
        .shared_vertex_iter()
        .map(|v| Point3::new(v.pos.x * 0.5, v.pos.y * 0.5, v.pos.z * 0.5))
        .collect();
    let mut s: Storage<[f32; 3], Vec<Point3<f32>>> = Storage::new([0.0; 3]);
    let root = s.add(None, None, [0.0; 3], ObjectInfo::named("Scene"));
    let c = s.add(Some(cube), Some(ShaderType::Color), [0.0; 3], ObjectInfo::named("cube"));
    assert!(s.attach(root, c, &add3));
    let toward_center = Ray::new(Point3::new(0.0, 0.0, 5.0), Vector3::new(0.0, 0.0, -1.0));
    assert_eq!(s.pick(root, &hits(&s, &toward_center)), Some(c));
    let beside = Ray::new(Point3::new(2.0, 0.0, 5.0), Vector3::new(0.0, 0.0, -1.0));
    assert_eq!(s.pick(root, &hits(&s, &beside)), None);
}

#[test]
fn shared_cell_holds_its_value() {
    let cell = rc_rcell(41);
    *cell.borrow_mut() += 1;
    assert_eq!(*cell.borrow(), 42);
}
