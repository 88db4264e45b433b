use moksha::info::{DrawMode, ObjectInfo};
use moksha::pipeline::{
    draw_call, light_slots, unroll, valid_indices, AttributePlan, DrawCall, DrawError, Feed,
    LightSlot, MaterialLayout, Primitive, UniformPlan,
};
use moksha::shader::ShaderType;
use moksha::storage::{LightType, Storage};

fn layout(shader_type: ShaderType) -> MaterialLayout {
    MaterialLayout {
        shader_type,
        flat_shade: false,
        wire_overlay: false,
        has_color: false,
        has_vertex_colors: false,
        has_tex_coords: false,
    }
}

#[test]
fn missing_payloads_are_reported() {
    assert_eq!(layout(ShaderType::Simple).check(), Err(DrawError::MissingColor));
    assert_eq!(layout(ShaderType::Wireframe).uniforms(), Err(DrawError::MissingColor));
    assert_eq!(layout(ShaderType::VertexColor).attributes(), Err(DrawError::MissingVertexColors));
    assert_eq!(layout(ShaderType::Texture).check(), Err(DrawError::MissingTexCoords));
    let ok = MaterialLayout { has_color: true, ..layout(ShaderType::Color) };
    assert_eq!(ok.check(), Ok(()));
}

#[test]
fn attribute_plans_follow_the_variant() {
    let plain = MaterialLayout { has_color: true, ..layout(ShaderType::Color) };
    assert_eq!(
        plain.attributes(),
        Ok(AttributePlan {
            positions: Feed::Shared,
            barycentric: false,
            normals: Feed::Shared,
            vertex_colors: false,
            tex_coords: false,
        })
    );
    let wired = MaterialLayout { wire_overlay: true, ..plain };
    assert_eq!(
        wired.attributes(),
        Ok(AttributePlan {
            positions: Feed::Unrolled,
            barycentric: true,
            normals: Feed::Unrolled,
            vertex_colors: false,
            tex_coords: false,
        })
    );
    let wire = MaterialLayout { has_color: true, ..layout(ShaderType::Wireframe) };
    let plan = wire.attributes().unwrap();
    assert_eq!((plan.positions, plan.barycentric, plan.normals), (Feed::Unrolled, true, Feed::Skip));
    let colors = MaterialLayout { has_vertex_colors: true, ..layout(ShaderType::VertexColor) };
    let plan = colors.attributes().unwrap();
    assert!(plan.vertex_colors);
    assert_eq!(plan.normals, Feed::Shared);
    let textured = MaterialLayout { has_tex_coords: true, ..layout(ShaderType::Texture) };
    assert!(textured.attributes().unwrap().tex_coords);
}

#[test]
fn uniform_plans_follow_the_variant() {
    let shaded = MaterialLayout { has_color: true, has_tex_coords: true, ..layout(ShaderType::Color) };
    assert_eq!(
        shaded.uniforms(),
        Ok(UniformPlan { color: true, shading_flags: true, albedo: true, alpha_to_coverage: false })
    );
    let wire = MaterialLayout { has_color: true, ..layout(ShaderType::Wireframe) };
    assert_eq!(
        wire.uniforms(),
        Ok(UniformPlan { color: true, shading_flags: false, albedo: false, alpha_to_coverage: true })
    );
    let tex = MaterialLayout { has_tex_coords: true, ..layout(ShaderType::Texture) };
    assert_eq!(
        tex.uniforms(),
        Ok(UniformPlan { color: false, shading_flags: false, albedo: false, alpha_to_coverage: false })
    );
}

#[test]
fn draw_calls_per_mode() {
    assert_eq!(draw_call(DrawMode::Points), DrawCall { primitive: Primitive::Points, indexed: true });
    assert_eq!(draw_call(DrawMode::Lines), DrawCall { primitive: Primitive::Lines, indexed: true });
    assert_eq!(draw_call(DrawMode::Triangle), DrawCall { primitive: Primitive::Triangles, indexed: true });
    assert_eq!(draw_call(DrawMode::Arrays), DrawCall { primitive: Primitive::Triangles, indexed: false });
}

#[test]
fn index_buffers_are_checked() {
    assert!(valid_indices(3, &vec![0, 1, 2]));
    assert!(valid_indices(0, &vec![]));
    assert!(!valid_indices(3, &vec![0, 1, 3]));
    assert!(!valid_indices(4, &vec![0, 1, 2, 3]));
}

#[test]
fn unroll_copies_each_indexed_vertex() {
    let data: Vec<f32> = vec![0.0, 0.1, 0.2, 1.0, 1.1, 1.2, 2.0, 2.1, 2.2];
    let out = unroll(&data, &vec![2, 0, 2]);
    assert_eq!(out, vec![2.0, 2.1, 2.2, 0.0, 0.1, 0.2, 2.0, 2.1, 2.2]);
    assert!(unroll(&data, &vec![]).is_empty());
}

#[test]
fn light_slots_count_per_kind() {
    let mut s: Storage<u8, ()> = Storage::new(0);
    for i in 0..5 {
        s.add(None, None, 0, ObjectInfo::named(&format!("l{}", i)));
    }
    s.add_light(0, LightType::Point);
    s.add_light(1, LightType::Ambient);
    s.add_light(2, LightType::Point);
    s.add_light(3, LightType::Spot);
    s.add_light(4, LightType::Point);
    assert_eq!(
        light_slots(&s),
        vec![
            LightSlot { id: 0, kind: LightType::Point, index: 0 },
            LightSlot { id: 1, kind: LightType::Ambient, index: 0 },
            LightSlot { id: 2, kind: LightType::Point, index: 1 },
            LightSlot { id: 3, kind: LightType::Spot, index: 0 },
            LightSlot { id: 4, kind: LightType::Point, index: 2 },
        ]
    );
    let empty: Storage<u8, ()> = Storage::new(0);
    assert!(light_slots(&empty).is_empty());
}
