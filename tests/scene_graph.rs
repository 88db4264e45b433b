use moksha::info::{DrawMode, ObjectInfo, RenderFlags};
use moksha::render::{render_order, Stage, drawn_in};
use moksha::scene::{gizmo_style, Scene};
use moksha::shader::{is_power_of_2, ShaderType};
use moksha::storage::{LightType, Storage};

/// A pure translation; composing adds.
type Shift = (i64, i64, i64);

fn shift(a: Shift, b: Shift) -> Shift {
    (a.0 + b.0, a.1 + b.1, a.2 + b.2)
}

/// Rotation (unit quaternion w, x, y, z), translation and scale, in floats.
#[derive(Clone, Copy, Debug, PartialEq)]
struct Pose {
    q: [f32; 4],
    t: [f32; 3],
    s: [f32; 3],
}

const IDENTITY: Pose = Pose { q: [1.0, 0.0, 0.0, 0.0], t: [0.0; 3], s: [1.0; 3] };

fn quat_mul(a: [f32; 4], b: [f32; 4]) -> [f32; 4] {
    [
        a[0] * b[0] - a[1] * b[1] - a[2] * b[2] - a[3] * b[3],
        a[0] * b[1] + a[1] * b[0] + a[2] * b[3] - a[3] * b[2],
        a[0] * b[2] - a[1] * b[3] + a[2] * b[0] + a[3] * b[1],
        a[0] * b[3] + a[1] * b[2] - a[2] * b[1] + a[3] * b[0],
    ]
}

fn rotate(q: [f32; 4], v: [f32; 3]) -> [f32; 3] {
    let p = quat_mul(quat_mul(q, [0.0, v[0], v[1], v[2]]), [q[0], -q[1], -q[2], -q[3]]);
    [p[1], p[2], p[3]]
}

/// Parent first: scale multiplies, the child's translation is rotated and
/// scaled by the parent, rotations multiply.
fn compose(a: Pose, b: Pose) -> Pose {
    let r = rotate(a.q, b.t);
    Pose {
        q: quat_mul(a.q, b.q),
        t: [a.t[0] + a.s[0] * r[0], a.t[1] + a.s[1] * r[1], a.t[2] + a.s[2] * r[2]],
        s: [a.s[0] * b.s[0], a.s[1] * b.s[1], a.s[2] * b.s[2]],
    }
}

fn near(a: [f32; 3], b: [f32; 3]) -> bool {
    (0..3).all(|i| (a[i] - b[i]).abs() < 1e-5)
}

fn info(name: &str) -> ObjectInfo {
    ObjectInfo::named(name)
}

/// A chain root -> a -> b -> c and a sibling d of a, all translations.
fn chain() -> (Storage<Shift, String>, [usize; 5]) {
    let mut s: Storage<Shift, String> = Storage::new((0, 0, 0));
    let root = s.add(None, None, (0, 0, 0), info("root"));
    let a = s.add(Some("cube".to_string()), Some(ShaderType::Color), (1, 0, 0), info("a"));
    let b = s.add(Some("cube".to_string()), Some(ShaderType::Color), (0, 2, 0), info("b"));
    let c = s.add(None, None, (0, 0, 3), info("c"));
    let d = s.add(None, None, (5, 5, 5), info("d"));
    assert!(s.attach(root, a, &shift));
    assert!(s.attach(a, b, &shift));
    assert!(s.attach(b, c, &shift));
    assert!(s.attach(root, d, &shift));
    (s, [root, a, b, c, d])
}

/// The parent transform of `id` recomputed from scratch, top down.
fn recompute(s: &Storage<Shift, String>, id: usize) -> Shift {
    match s.parent(id) {
        None => (0, 0, 0),
        Some(p) => shift(recompute(s, p), s.transform(p)),
    }
}

#[test]
fn power_of_two_sides() {
    assert!(is_power_of_2(1));
    assert!(is_power_of_2(2));
    assert!(is_power_of_2(1024));
    assert!(is_power_of_2(1 << 31));
    assert!(!is_power_of_2(0));
    assert!(!is_power_of_2(3));
    assert!(!is_power_of_2(96));
    assert!(!is_power_of_2(u32::MAX));
}

#[test]
fn render_flag_presets() {
    let d = RenderFlags::default();
    assert_eq!(d, RenderFlags { render: false, depth: true, blend: false, cull_face: true });
    assert_eq!(RenderFlags::no_depth(), RenderFlags { depth: false, ..d });
    assert_eq!(
        RenderFlags::no_depth_blend_cull(),
        RenderFlags { render: false, depth: false, blend: true, cull_face: false }
    );
    assert_eq!(RenderFlags::no_cull(), RenderFlags { cull_face: false, ..d });
    assert_eq!(RenderFlags::blend_cull(), RenderFlags { render: false, depth: true, blend: true, cull_face: false });
    let i = ObjectInfo::default();
    assert_eq!(i.name, "node");
    assert_eq!(i.draw_mode, DrawMode::Triangle);
}

#[test]
fn add_gives_fresh_dense_ids() {
    let mut s: Storage<Shift, String> = Storage::new((0, 0, 0));
    let a = s.add(None, None, (1, 2, 3), info("a"));
    let b = s.add(Some("m".to_string()), Some(ShaderType::Simple), (4, 5, 6), info("b"));
    assert_eq!((a, b), (0, 1));
    assert_eq!(s.count(), 2);
    assert_eq!(s.transform(b), (4, 5, 6));
    assert_eq!(s.parent_transform(b), (0, 0, 0));
    assert_eq!(s.parent(b), None);
    assert!(s.children(b).is_empty());
    assert_eq!(s.info(a).name, "a");
    assert_eq!(s.mesh(b).as_deref(), Some("m"));
    assert_eq!(s.shader(b), Some(ShaderType::Simple));
    assert_eq!(s.shader(a), None);
}

#[test]
fn attach_propagates_to_whole_subtree() {
    let mut s: Storage<Shift, String> = Storage::new((0, 0, 0));
    let root = s.add(None, None, (10, 0, 0), info("root"));
    let a = s.add(None, None, (1, 0, 0), info("a"));
    let b = s.add(None, None, (0, 1, 0), info("b"));
    let c = s.add(None, None, (0, 0, 1), info("c"));
    // Build the subtree first, detached, then hang it under root.
    assert!(s.attach(a, b, &shift));
    assert!(s.attach(b, c, &shift));
    assert_eq!(s.parent_transform(c), (1, 1, 0));
    assert!(s.attach(root, a, &shift));
    assert_eq!(s.parent_transform(a), (10, 0, 0));
    assert_eq!(s.parent_transform(b), (11, 0, 0));
    assert_eq!(s.parent_transform(c), (11, 1, 0));
    for id in [root, a, b, c] {
        assert_eq!(s.parent_transform(id), recompute(&s, id));
    }
    assert_eq!(s.children(root), &vec![a]);
    assert_eq!(s.parent(a), Some(root));
}

#[test]
fn attach_refuses_cycles_and_second_parents() {
    let (mut s, [root, a, b, c, d]) = chain();
    let before: Vec<Shift> = (0..5).map(|i| s.parent_transform(i)).collect();
    // a is an ancestor of c: attaching a under c would close a cycle.
    assert!(!s.attach(c, a, &shift));
    // an object under itself.
    let e = s.add(None, None, (0, 0, 0), info("e"));
    assert!(!s.attach(e, e, &shift));
    // d already has a parent.
    assert!(!s.attach(b, d, &shift));
    assert_eq!(s.parent(a), Some(root));
    assert_eq!(s.parent(d), Some(root));
    assert_eq!(s.children(c).len(), 0);
    let after: Vec<Shift> = (0..5).map(|i| s.parent_transform(i)).collect();
    assert_eq!(before, after);
}

#[test]
fn set_transform_matches_recomputation() {
    let (mut s, [root, a, b, c, d]) = chain();
    s.set_transform(a, (7, 0, 0), &shift);
    s.set_transform(root, (0, 0, 100), &shift);
    s.set_transform(b, (0, -2, 0), &shift);
    for id in [root, a, b, c, d] {
        assert_eq!(s.parent_transform(id), recompute(&s, id));
    }
    assert_eq!(s.parent_transform(c), (7, -2, 100));
    assert_eq!(s.parent_transform(d), (0, 0, 100));
    assert_eq!(s.transform(a), (7, 0, 0));
    assert_eq!(s.transform(c), (0, 0, 3));
}

#[test]
fn rotating_parent_moves_child_to_minus_z() {
    let mut s: Storage<Pose, String> = Storage::new(IDENTITY);
    let a = s.add(Some("cube".to_string()), Some(ShaderType::Color), IDENTITY, info("A"));
    let b = s.add(
        Some("cube".to_string()),
        Some(ShaderType::Color),
        Pose { t: [2.0, 0.0, 0.0], ..IDENTITY },
        info("B"),
    );
    assert!(s.attach(a, b, &compose));
    let world = compose(s.parent_transform(b), s.transform(b));
    assert!(near(world.t, [2.0, 0.0, 0.0]));
    let h = std::f32::consts::FRAC_1_SQRT_2;
    let quarter_turn_y = Pose { q: [h, 0.0, h, 0.0], ..IDENTITY };
    s.set_transform(a, quarter_turn_y, &compose);
    let world = compose(s.parent_transform(b), s.transform(b));
    assert!(near(world.t, [0.0, 0.0, -2.0]), "{:?}", world.t);
}

#[test]
fn compose_with_identity_keeps_child() {
    let b = Pose { q: [0.5, 0.5, 0.5, 0.5], t: [1.0, -2.0, 3.0], s: [2.0, 1.0, -1.0] };
    let r = compose(IDENTITY, b);
    assert!(near(r.t, b.t) && near(r.s, b.s));
    let mut s: Storage<Pose, String> = Storage::new(IDENTITY);
    let p = s.add(None, None, IDENTITY, info("p"));
    let c = s.add(None, None, b, info("c"));
    assert!(s.attach(p, c, &compose));
    assert_eq!(s.parent_transform(c), IDENTITY);
}

#[test]
fn duplicate_is_an_independent_copy() {
    let (mut s, [_root, a, b, _c, _d]) = chain();
    let mut flagged = info("b");
    flagged.draw_mode = DrawMode::Lines;
    s.set_info(b, flagged);
    let copy = s.duplicate(b);
    assert_eq!(copy, 5);
    assert_eq!(s.transform(copy), s.transform(b));
    assert_eq!(s.info(copy).name, "b");
    assert_eq!(s.info(copy).draw_mode, DrawMode::Lines);
    assert_eq!(s.mesh(copy), s.mesh(b));
    assert_eq!(s.shader(copy), s.shader(b));
    assert_eq!(s.parent(copy), None);
    assert_eq!(s.parent_transform(copy), (0, 0, 0));
    s.set_transform(copy, (9, 9, 9), &shift);
    s.set_info(copy, info("other"));
    s.set_mesh(copy, None, None);
    assert_eq!(s.transform(b), (0, 2, 0));
    assert_eq!(s.info(b).name, "b");
    assert_eq!(s.mesh(b).as_deref(), Some("cube"));
    assert_eq!(s.parent(b), Some(a));
}

#[test]
fn show_stamps_the_subtree_only() {
    let (mut s, [root, a, b, c, d]) = chain();
    s.show(b);
    assert!(s.info(b).render_flags.render);
    assert!(s.info(c).render_flags.render);
    assert!(!s.info(a).render_flags.render);
    assert!(!s.info(root).render_flags.render);
    assert!(!s.info(d).render_flags.render);
    // Other fields stay.
    assert!(s.info(c).render_flags.depth);
    assert_eq!(s.info(c).name, "c");
}

#[test]
fn render_order_groups_stages() {
    let mut s: Storage<Shift, String> = Storage::new((0, 0, 0));
    let mut depthless = info("marker");
    depthless.render_flags = RenderFlags { render: true, ..RenderFlags::no_depth() };
    let mut wire = info("wire");
    wire.render_flags.render = true;
    let mut solid = info("solid");
    solid.render_flags.render = true;
    // Stored in reverse stage order.
    let m = s.add(Some("m".into()), Some(ShaderType::Simple), (0, 0, 0), depthless);
    let w = s.add(Some("w".into()), Some(ShaderType::Wireframe), (0, 0, 0), wire);
    let o = s.add(Some("o".into()), Some(ShaderType::Color), (0, 0, 0), solid);
    // Hidden and meshless objects are not drawn.
    let _hidden = s.add(Some("h".into()), Some(ShaderType::Color), (0, 0, 0), info("hidden"));
    let mut no_mesh = info("empty");
    no_mesh.render_flags.render = true;
    let _empty = s.add(None, None, (0, 0, 0), no_mesh);
    assert_eq!(render_order(&s), vec![o, w, m]);
    assert!(drawn_in(&s, o, Stage::Depth));
    assert!(drawn_in(&s, w, Stage::Deferred));
    assert!(drawn_in(&s, m, Stage::Depthless));
    assert!(!drawn_in(&s, w, Stage::Depth));
}

#[test]
fn pick_takes_first_hit_in_depth_first_order() {
    let (s, [root, a, b, c, d]) = chain();
    assert_eq!(s.pick_order(root), vec![root, a, b, c, d]);
    assert_eq!(s.pick_order(b), vec![b, c]);
    // Everything hit: root, c and d have no mesh, a comes first.
    let all = vec![true; 5];
    assert_eq!(s.pick(root, &all), Some(a));
    // Only b and the meshless c hit.
    let mut hits = vec![false; 5];
    hits[b] = true;
    hits[c] = true;
    assert_eq!(s.pick(root, &hits), Some(b));
    // A hit on a meshless object alone is no hit.
    let mut meshless = vec![false; 5];
    meshless[d] = true;
    assert_eq!(s.pick(root, &meshless), None);
    assert_eq!(s.pick(root, &vec![false; 5]), None);
}

#[test]
fn scene_factories_and_add() {
    let mut scene: Scene<Shift, String> = Scene::new((0, 0, 0));
    assert_eq!(scene.root(), 0);
    assert_eq!(scene.storage().info(0).name, "Scene");
    let e = scene.empty();
    assert_eq!(scene.storage().info(e).name, "Empty");
    let o = scene.object_from_mesh("cube".to_string(), ShaderType::Color);
    assert_eq!(scene.storage().info(o).name, "node");
    let n = scene.object_from_mesh_name_and_mode("grid".to_string(), ShaderType::Simple, "Grid", DrawMode::Lines);
    assert_eq!(scene.storage().info(n).draw_mode, DrawMode::Lines);
    scene.set_transform(o, (1, 1, 1), &shift);
    assert!(scene.add(o, &shift));
    assert!(scene.storage().info(o).render_flags.render);
    assert_eq!(scene.storage().parent(o), Some(0));
    assert!(!scene.add(o, &shift));
    let copy = scene.duplicate_node(o);
    assert_eq!(scene.storage().transform(copy), (1, 1, 1));
    assert_eq!(scene.storage().parent(copy), None);
}

#[test]
fn lights_get_their_gizmos() {
    let mut scene: Scene<Shift, String> = Scene::new((0, 0, 0));
    let amb = scene.light(LightType::Ambient, Some("ico1".to_string()));
    let point = scene.light(LightType::Point, Some("ico2".to_string()));
    let sun = scene.light(LightType::Directional, None);
    let s = scene.storage();
    assert_eq!(s.info(amb).name, "Ambient");
    assert_eq!(s.shader(amb), Some(ShaderType::Wireframe));
    assert_eq!(s.info(point).name, "Point");
    assert!(!s.info(point).render_flags.depth);
    assert_eq!(s.shader(point), Some(ShaderType::Simple));
    assert_eq!(s.info(sun).name, "Directional");
    assert_eq!(s.mesh(sun), &None);
    assert_eq!(s.lights(), &vec![(amb, LightType::Ambient), (point, LightType::Point), (sun, LightType::Directional)]);
    assert_eq!(gizmo_style(LightType::Ambient).map(|g| g.subdivisions), Some(1));
    assert_eq!(gizmo_style(LightType::Point).map(|g| g.subdivisions), Some(2));
    assert!(gizmo_style(LightType::Spot).is_none());
    assert_eq!(LightType::Spot.name(), "Spot");
}
