use moonwalk::arena::Handle;
use moonwalk::engine::{Engine, ObjectKind};
use moonwalk::font::{FontAsset, FontError, Glyph};
use moonwalk::render::{EffectiveShader, FramePlan};
use moonwalk::scene::{z_key, clamp_non_negative, UniformKind, UniformValue, Vec2, Vec4};
use moonwalk::shader::{ShaderError, ShaderProgram, UniformDecl};

fn v2(x: f32, y: f32) -> Vec2 {
    Vec2 { x: x.to_bits(), y: y.to_bits() }
}

fn v4(x: f32, y: f32, z: f32, w: f32) -> Vec4 {
    Vec4 { x: x.to_bits(), y: y.to_bits(), z: z.to_bits(), w: w.to_bits() }
}

fn order(p: &FramePlan) -> Vec<Handle> {
    p.draws.iter().map(|d| d.object).collect()
}

fn glyph(ch: char) -> Glyph {
    Glyph { ch, atlas_x: 0, atlas_y: 0, width: 8, height: 8, bearing_x: 0, bearing_y: 8, advance: 8.0f32.to_bits() }
}

fn asset(chars: &str) -> FontAsset {
    FontAsset { glyphs: chars.chars().map(glyph).collect(), atlas_width: 64, atlas_height: 64, atlas: vec![0; 64 * 64] }
}

fn program(uniforms: &[(&str, UniformKind)]) -> ShaderProgram {
    ShaderProgram {
        uniforms: uniforms.iter().map(|(n, k)| UniformDecl { name: n.to_string(), kind: *k }).collect(),
    }
}

#[test]
fn lower_z_rect_is_drawn_first() {
    let mut e = Engine::new(800, 600);
    let red = e.new_rect().unwrap();
    e.config_position(red, v2(10.0, 10.0));
    e.config_size(red, v2(50.0, 50.0));
    e.config_color(red, v4(1.0, 0.0, 0.0, 1.0));
    e.config_z_index(red, 0.0f32.to_bits());
    let green = e.new_rect().unwrap();
    e.config_z_index(green, (-1.0f32).to_bits());
    e.config_color(green, v4(0.0, 1.0, 0.0, 1.0));
    let plan = e.render_frame(v4(0.0, 0.0, 0.0, 1.0));
    assert_eq!(order(&plan), vec![green, red]);
    assert_eq!(plan.draws[0].color, v4(0.0, 1.0, 0.0, 1.0));
    assert_eq!(plan.draws[1].color, v4(1.0, 0.0, 0.0, 1.0));
    assert_eq!(plan.draws[1].position, v2(10.0, 10.0));
    assert_eq!(plan.draws[1].size, v2(50.0, 50.0));
    assert_eq!(plan.batches.len(), 1);
    assert_eq!(plan.batches[0].shader, EffectiveShader::DefaultRect);
    assert_eq!((plan.batches[0].start, plan.batches[0].end), (0, 2));
}

#[test]
fn failed_compile_reports_and_leaves_default_shader() {
    let mut e = Engine::new(100, 100);
    let r = e.install_shader(Err(String::from("0:1: syntax error near 'invalid'")));
    match r {
        Err(ShaderError::CompileFailed(m)) => assert_eq!(m, "0:1: syntax error near 'invalid'"),
        Ok(_) => panic!("a failed compile gave an id"),
    }
    match e.install_shader(Err(String::new())) {
        Err(ShaderError::CompileFailed(m)) => assert!(!m.is_empty()),
        Ok(_) => panic!("a failed compile gave an id"),
    }
    let obj = e.new_rect().unwrap();
    e.set_object_shader(obj, Handle { index: 0, generation: 0 });
    let plan = e.render_frame(v4(0.0, 0.0, 0.0, 1.0));
    assert_eq!(plan.draws[0].shader, EffectiveShader::DefaultRect);
}

#[test]
fn config_after_delete_has_no_effect() {
    let mut e = Engine::new(100, 100);
    let a = e.new_rect().unwrap();
    let b = e.new_rect().unwrap();
    e.delete_object(a);
    e.config_color(a, v4(0.5, 0.5, 0.5, 1.0));
    e.config_position(a, v2(3.0, 4.0));
    e.delete_object(a);
    let plan = e.render_frame(v4(0.0, 0.0, 0.0, 1.0));
    assert_eq!(order(&plan), vec![b]);
    assert_eq!(plan.draws[0].color, v4(1.0, 1.0, 1.0, 1.0));
}

#[test]
fn reused_slot_rejects_old_handle() {
    let mut e = Engine::new(100, 100);
    let a = e.new_rect().unwrap();
    e.delete_object(a);
    let b = e.new_text().unwrap();
    assert_eq!(a.index, b.index);
    assert_ne!(a, b);
    assert!(!e.objects_arena().contains(a));
    assert!(e.objects_arena().contains(b));
    e.config_z_index(a, 5.0f32.to_bits());
    assert_eq!(e.objects_arena().get(b).unwrap().z_index, 0);
    assert_eq!(e.objects_arena().get(b).unwrap().kind, ObjectKind::Text);
}

#[test]
fn clear_all_invalidates_every_handle_but_keeps_fonts() {
    let mut e = Engine::new(100, 100);
    let a = e.new_rect().unwrap();
    let t = e.new_text().unwrap();
    let f = e.load_font(String::from("a.ttf"), 12.0f32.to_bits(), Ok(asset("ab"))).unwrap();
    e.clear_all();
    assert!(!e.objects_arena().contains(a));
    assert!(!e.objects_arena().contains(t));
    assert!(e.font_cache_ref().get(f).is_some());
    let c = e.new_rect().unwrap();
    assert_ne!(c, a);
    assert_ne!(c, t);
    assert_eq!(order(&e.render_frame(v4(0.0, 0.0, 0.0, 0.0))), vec![c]);
}

#[test]
fn zero_viewport_draws_nothing() {
    let mut e = Engine::new(100, 100);
    e.new_rect().unwrap();
    e.set_viewport(0, 100);
    let plan = e.render_frame(v4(0.2, 0.3, 0.4, 1.0));
    assert!(plan.draws.is_empty());
    assert!(plan.batches.is_empty());
    assert_eq!(plan.clear, v4(0.2, 0.3, 0.4, 1.0));
    e.set_viewport(100, 0);
    assert!(e.render_frame(v4(0.0, 0.0, 0.0, 1.0)).draws.is_empty());
    e.set_viewport(100, 100);
    assert_eq!(e.render_frame(v4(0.0, 0.0, 0.0, 1.0)).draws.len(), 1);
}

#[test]
fn equal_z_keeps_creation_order_across_batches_and_frames() {
    let mut e = Engine::new(100, 100);
    let s = e.install_shader(Ok(program(&[]))).ok().unwrap();
    let a = e.new_rect().unwrap();
    let b = e.new_rect().unwrap();
    let c = e.new_rect().unwrap();
    e.set_object_shader(b, s);
    let first = e.render_frame(v4(0.0, 0.0, 0.0, 1.0));
    assert_eq!(order(&first), vec![a, b, c]);
    assert_eq!(first.batches.len(), 3);
    assert_eq!(first.batches[1].shader, EffectiveShader::Custom(s));
    e.config_color(a, v4(0.0, 0.0, 1.0, 1.0));
    let second = e.render_frame(v4(0.0, 0.0, 0.0, 1.0));
    assert_eq!(order(&second), vec![a, b, c]);
}

#[test]
fn same_shader_neighbours_share_a_batch() {
    let mut e = Engine::new(100, 100);
    let a = e.new_rect().unwrap();
    let b = e.new_rect().unwrap();
    let c = e.new_rect().unwrap();
    e.config_z_index(c, (-2.0f32).to_bits());
    let plan = e.render_frame(v4(0.0, 0.0, 0.0, 1.0));
    assert_eq!(order(&plan), vec![c, a, b]);
    assert_eq!(plan.batches.len(), 1);
}

#[test]
fn font_cache_counts_loads() {
    let mut e = Engine::new(100, 100);
    let path = String::from("fonts/sans.ttf");
    let size = 16.0f32.to_bits();
    let f1 = e.load_font(path.clone(), size, Ok(asset("abc"))).unwrap();
    assert_eq!(e.find_font(&path, size), Some(f1));
    let f2 = e.load_font(path.clone(), size, Err(FontError::NotFound)).unwrap();
    assert_eq!(f1, f2);
    let other = e.load_font(path.clone(), 18.0f32.to_bits(), Ok(asset("abc"))).unwrap();
    assert_ne!(other, f1);
    e.clear_font(f1);
    assert!(e.font_cache_ref().get(f1).is_some());
    e.clear_font(f1);
    assert!(e.font_cache_ref().get(f1).is_none());
    assert_eq!(e.find_font(&path, size), None);
    e.clear_font(f1);
    let f3 = e.load_font(path, size, Ok(asset("abc"))).unwrap();
    assert_ne!(f3, f1);
}

#[test]
fn font_errors_pass_through() {
    let mut e = Engine::new(100, 100);
    assert_eq!(e.load_font(String::from("missing.ttf"), 0, Err(FontError::NotFound)), Err(FontError::NotFound));
    assert_eq!(e.load_font(String::from("bad.ttf"), 0, Err(FontError::Unsupported)), Err(FontError::Unsupported));
    assert_eq!(e.find_font(&String::from("missing.ttf"), 0), None);
}

#[test]
fn undeclared_uniform_does_not_disturb_others() {
    let mut e = Engine::new(100, 100);
    let s = e.install_shader(Ok(program(&[("u_time", UniformKind::Float), ("u_on", UniformKind::Bool)]))).ok().unwrap();
    let o = e.new_rect().unwrap();
    e.set_object_shader(o, s);
    e.set_uniform(o, String::from("u_time"), UniformValue::Float(1.5f32.to_bits()));
    e.set_uniform(o, String::from("u_missing"), UniformValue::Int(3));
    e.set_uniform(o, String::from("u_on"), UniformValue::Int(1));
    let plan = e.render_frame(v4(0.0, 0.0, 0.0, 1.0));
    let u = &plan.draws[0].uniforms;
    assert_eq!(u.len(), 1);
    assert_eq!(u[0].name, "u_time");
    assert!(matches!(u[0].value, UniformValue::Float(b) if b == 1.5f32.to_bits()));
    e.set_uniform(o, String::from("u_time"), UniformValue::Float(2.5f32.to_bits()));
    assert_eq!(e.objects_arena().get(o).unwrap().uniforms.len(), 3);
    let plan = e.render_frame(v4(0.0, 0.0, 0.0, 1.0));
    assert!(matches!(plan.draws[0].uniforms[0].value, UniformValue::Float(b) if b == 2.5f32.to_bits()));
}

#[test]
fn default_shader_binds_no_uniforms() {
    let mut e = Engine::new(100, 100);
    let o = e.new_rect().unwrap();
    e.set_uniform(o, String::from("u_time"), UniformValue::Float(1.0f32.to_bits()));
    let plan = e.render_frame(v4(0.0, 0.0, 0.0, 1.0));
    assert!(plan.draws[0].uniforms.is_empty());
}

#[test]
fn text_draws_glyphs_of_its_font() {
    let mut e = Engine::new(100, 100);
    let f = e.load_font(String::from("a.ttf"), 12.0f32.to_bits(), Ok(asset("hel"))).unwrap();
    let t = e.new_text().unwrap();
    e.config_text(t, String::from("hello!"));
    e.config_font(t, f);
    e.set_rounded(t, v4(4.0, 4.0, 4.0, 4.0));
    let plan = e.render_frame(v4(0.0, 0.0, 0.0, 1.0));
    assert_eq!(plan.draws.len(), 1);
    assert_eq!(plan.draws[0].glyphs, vec![0, 1, 2, 2]);
    assert_eq!(plan.draws[0].font, Some(f));
    assert_eq!(plan.draws[0].shader, EffectiveShader::DefaultText);
    assert_eq!(plan.draws[0].corner_radii, v4(0.0, 0.0, 0.0, 0.0));
}

#[test]
fn text_without_font_or_glyphs_is_skipped() {
    let mut e = Engine::new(100, 100);
    let f = e.load_font(String::from("a.ttf"), 12.0f32.to_bits(), Ok(asset("xyz"))).unwrap();
    let no_font = e.new_text().unwrap();
    e.config_text(no_font, String::from("abc"));
    let empty = e.new_text().unwrap();
    e.config_font(empty, f);
    let unknown_chars = e.new_text().unwrap();
    e.config_font(unknown_chars, f);
    e.config_text(unknown_chars, String::from("abc"));
    let r = e.new_rect().unwrap();
    e.set_rounded(r, v4(1.0, 2.0, 3.0, 4.0));
    let plan = e.render_frame(v4(0.0, 0.0, 0.0, 1.0));
    assert_eq!(order(&plan), vec![r]);
    assert_eq!(plan.draws[0].corner_radii, v4(1.0, 2.0, 3.0, 4.0));
}

#[test]
fn unloaded_font_is_not_bound() {
    let mut e = Engine::new(100, 100);
    let t = e.new_text().unwrap();
    e.config_font(t, Handle { index: 3, generation: 0 });
    assert_eq!(e.objects_arena().get(t).unwrap().font, None);
}

#[test]
fn negative_size_is_clamped_when_drawn() {
    let mut e = Engine::new(100, 100);
    let r = e.new_rect().unwrap();
    e.config_size(r, v2(-5.0, 7.0));
    let plan = e.render_frame(v4(0.0, 0.0, 0.0, 1.0));
    assert_eq!(plan.draws[0].size, v2(0.0, 7.0));
    assert_eq!(clamp_non_negative((-0.0f32).to_bits()), 0);
    assert_eq!(clamp_non_negative(3.0f32.to_bits()), 3.0f32.to_bits());
}

#[test]
fn z_key_orders_like_floats() {
    let zs = [-100.0f32, -1.5, -0.0, 0.0, 0.25, 1.0, 1e9];
    for w in zs.windows(2) {
        assert!(z_key(w[0].to_bits()) < z_key(w[1].to_bits()), "{} vs {}", w[0], w[1]);
    }
    assert_eq!(z_key(0.0f32.to_bits()), 0x8000_0000);
}

#[test]
fn new_objects_start_with_defaults() {
    let mut e = Engine::new(100, 100);
    let r = e.new_rect().unwrap();
    let o = e.objects_arena().get(r).unwrap();
    assert_eq!(o.color, v4(1.0, 1.0, 1.0, 1.0));
    assert_eq!(o.size, v2(0.0, 0.0));
    assert_eq!(o.rotation, 0);
    assert!(o.shader.is_none() && o.font.is_none() && o.text.is_empty());
    e.config_rotation(r, 45.0f32.to_bits());
    let plan = e.render_frame(v4(0.0, 0.0, 0.0, 1.0));
    assert_eq!(plan.draws[0].rotation, 45.0f32.to_bits());
}
