use rasterizer::color::{channel_from_fraction, Color};
use rasterizer::framebuffer::Framebuffer;
use rasterizer::geometry::{barycentric, Point2, ScreenPoint};
use rasterizer::mesh::{Corner, Mesh, Primitive, RenderConfig};
use rasterizer::raster::{Fill, TexCoord, Triangle, TEX_UNIT};
use rasterizer::shading::{face_intensity, face_normal, face_normal_fits, flat_shade, gamma_shade, Intensity, Lighting, Vector3};
use rasterizer::texture::Texture;

const GRAY: Color = Color { r: 40, g: 40, b: 40 };
const RED: Color = Color { r: 255, g: 0, b: 0 };
const WHITE: Color = Color { r: 255, g: 255, b: 255 };

fn p2(x: i64, y: i64) -> Point2 {
    Point2 { x, y }
}

fn sp(x: i64, y: i64, z: i64) -> ScreenPoint {
    ScreenPoint { x, y, z }
}

fn colored_pixels(fb: &Framebuffer, color: Color) -> Vec<(u32, u32)> {
    let mut out = Vec::new();
    for y in 0..fb.height() {
        for x in 0..fb.width() {
            if fb.get(x, y) == color {
                out.push((x, y));
            }
        }
    }
    out
}

#[test]
fn barycentric_weights_of_vertices_and_center() {
    let (a, b, c) = (p2(0, 0), p2(6, 0), p2(0, 6));
    let at_a = barycentric(a, b, c, a);
    assert_eq!((at_a.wa, at_a.wb, at_a.wc, at_a.total), (36, 0, 0, 36));
    let at_c = barycentric(a, b, c, c);
    assert_eq!((at_c.wa, at_c.wb, at_c.wc, at_c.total), (0, 0, 36, 36));
    let inner = barycentric(a, b, c, p2(2, 2));
    assert_eq!((inner.wa, inner.wb, inner.wc, inner.total), (12, 12, 12, 36));
}

#[test]
fn barycentric_total_is_positive_for_both_orientations() {
    let ccw = barycentric(p2(0, 0), p2(6, 0), p2(0, 6), p2(1, 2));
    let cw = barycentric(p2(0, 0), p2(0, 6), p2(6, 0), p2(1, 2));
    assert_eq!(ccw.total, 36);
    assert_eq!(cw.total, 36);
    assert_eq!((ccw.wa, ccw.wb, ccw.wc), (cw.wa, cw.wc, cw.wb));
}

#[test]
fn strictly_inside_point_has_positive_weights_summing_to_total() {
    let w = barycentric(p2(3, 1), p2(17, 4), p2(8, 15), p2(9, 7));
    assert!(w.wa > 0 && w.wb > 0 && w.wc > 0);
    assert_eq!(w.wa + w.wb + w.wc, w.total);
    let sum = w.wa as f64 / w.total as f64 + w.wb as f64 / w.total as f64 + w.wc as f64 / w.total as f64;
    assert!((sum - 1.0).abs() < 1e-5);
}

#[test]
fn outside_point_has_a_negative_weight() {
    let w = barycentric(p2(3, 1), p2(17, 4), p2(8, 15), p2(20, 20));
    assert!(w.wa < 0 || w.wb < 0 || w.wc < 0);
    let w = barycentric(p2(3, 1), p2(17, 4), p2(8, 15), p2(0, 0));
    assert!(w.wa < 0 || w.wb < 0 || w.wc < 0);
}

#[test]
fn degenerate_triangle_has_zero_total() {
    let w = barycentric(p2(0, 0), p2(5, 5), p2(10, 10), p2(3, 3));
    assert_eq!(w.total, 0);
}

#[test]
fn new_framebuffer_holds_background_and_unset_depth() {
    let fb = Framebuffer::new(4, 3, GRAY);
    assert_eq!((fb.width(), fb.height()), (4, 3));
    for y in 0..3 {
        for x in 0..4 {
            assert_eq!(fb.get(x, y), GRAY);
            assert_eq!(fb.depth_at(x, y), i64::MIN);
        }
    }
}

#[test]
fn set_changes_one_pixel() {
    let mut fb = Framebuffer::new(5, 5, GRAY);
    fb.set(2, 3, RED);
    assert_eq!(colored_pixels(&fb, RED), vec![(2, 3)]);
    assert_eq!(fb.depth_at(2, 3), i64::MIN);
}

#[test]
fn ppm_round_trip_of_single_red_pixel() {
    let mut fb = Framebuffer::new(100, 100, GRAY);
    fb.set(52, 41, RED);
    let text = String::from_utf8(fb.to_ppm()).unwrap();
    let lines: Vec<&str> = text.split('\n').collect();
    assert_eq!(lines[0], "P3");
    assert_eq!(lines[1], "100 100");
    assert_eq!(lines[2], "255");
    assert_eq!(lines.len(), 3 + 100 + 1);
    assert_eq!(lines[103], "");
    for row in 0..100 {
        let values: Vec<u32> = lines[3 + row].split(' ').map(|v| v.parse().unwrap()).collect();
        assert_eq!(values.len(), 300);
        for col in 0..100 {
            let px = &values[3 * col..3 * col + 3];
            if row == 41 && col == 52 {
                assert_eq!(px, &[255, 0, 0]);
            } else {
                assert_eq!(px, &[40, 40, 40]);
            }
        }
    }
}

#[test]
fn ppm_of_tiny_framebuffer() {
    let mut fb = Framebuffer::new(2, 1, Color { r: 7, g: 8, b: 9 });
    fb.set(1, 0, Color { r: 100, g: 0, b: 255 });
    assert_eq!(String::from_utf8(fb.to_ppm()).unwrap(), "P3\n2 1\n255\n7 8 9 100 0 255\n");
}

#[test]
fn flip_moves_rows() {
    let mut fb = Framebuffer::new(3, 4, GRAY);
    fb.set(1, 0, RED);
    fb.draw_triangle(&Triangle { a: sp(0, 0, 5), b: sp(2, 0, 5), c: sp(0, 0, 5) }, &Fill::Flat(RED), None);
    fb.flip_vertically();
    assert_eq!(colored_pixels(&fb, RED), vec![(1, 3)]);
}

#[test]
fn flip_twice_restores_buffer() {
    let mut fb = Framebuffer::new(6, 5, GRAY);
    fb.draw_triangle(&Triangle { a: sp(0, 0, 3), b: sp(5, 1, 3), c: sp(1, 4, 3) }, &Fill::Flat(RED), None);
    fb.set(5, 4, WHITE);
    let before = fb.to_ppm();
    let depths: Vec<i64> = (0..30).map(|i| fb.depth_at(i % 6, i / 6)).collect();
    fb.flip_vertically();
    assert_ne!(fb.to_ppm(), before);
    assert_eq!(fb.depth_at(0, 4), depths[0]);
    fb.flip_vertically();
    assert_eq!(fb.to_ppm(), before);
    let again: Vec<i64> = (0..30).map(|i| fb.depth_at(i % 6, i / 6)).collect();
    assert_eq!(again, depths);
}

#[test]
fn unit_right_triangle_fills_half_its_box() {
    let mut fb = Framebuffer::new(40, 40, GRAY);
    let t = Triangle { a: sp(10, 10, 0), b: sp(20, 10, 0), c: sp(10, 20, 0) };
    fb.draw_triangle(&t, &Fill::Flat(RED), None);
    let drawn = colored_pixels(&fb, RED);
    let mut expected = Vec::new();
    for y in 10..=20u32 {
        for x in 10..=20u32 {
            if x + y <= 30 {
                expected.push((x, y));
            }
        }
    }
    assert_eq!(expected.len(), 66);
    assert_eq!(drawn, expected);
    assert_eq!(fb.depth_at(12, 12), 0);
    assert_eq!(fb.depth_at(25, 25), i64::MIN);
}

#[test]
fn degenerate_triangle_draws_nothing() {
    let mut fb = Framebuffer::new(20, 20, GRAY);
    fb.draw_triangle(&Triangle { a: sp(1, 1, 0), b: sp(5, 5, 0), c: sp(9, 9, 0) }, &Fill::Flat(RED), None);
    assert!(colored_pixels(&fb, RED).is_empty());
}

#[test]
fn triangle_is_clipped_to_framebuffer() {
    let mut fb = Framebuffer::new(10, 10, GRAY);
    fb.draw_triangle(&Triangle { a: sp(-20, -20, 0), b: sp(40, -20, 0), c: sp(-20, 40, 0) }, &Fill::Flat(RED), None);
    assert_eq!(colored_pixels(&fb, RED).len(), 100);
}

#[test]
fn depth_test_keeps_the_closer_triangle() {
    let mut fb = Framebuffer::new(30, 30, GRAY);
    let near = Triangle { a: sp(0, 0, 10), b: sp(20, 0, 10), c: sp(0, 20, 10) };
    let far = Triangle { a: sp(0, 0, -10), b: sp(20, 0, -10), c: sp(0, 20, -10) };
    fb.draw_triangle(&near, &Fill::Flat(RED), None);
    fb.draw_triangle(&far, &Fill::Flat(WHITE), None);
    assert_eq!(fb.get(5, 5), RED);
    assert_eq!(fb.depth_at(5, 5), 10);
    let mut fb = Framebuffer::new(30, 30, GRAY);
    fb.draw_triangle(&far, &Fill::Flat(WHITE), None);
    fb.draw_triangle(&near, &Fill::Flat(RED), None);
    assert_eq!(fb.get(5, 5), RED);
}

#[test]
fn equal_depth_later_triangle_wins() {
    let mut fb = Framebuffer::new(30, 30, GRAY);
    let t = Triangle { a: sp(0, 0, 4), b: sp(20, 0, 4), c: sp(0, 20, 4) };
    fb.draw_triangle(&t, &Fill::Flat(RED), None);
    fb.draw_triangle(&t, &Fill::Flat(WHITE), None);
    assert_eq!(fb.get(3, 3), WHITE);
}

#[test]
fn interpolated_depth_rounds_down() {
    let mut fb = Framebuffer::new(10, 10, GRAY);
    let t = Triangle { a: sp(0, 0, 0), b: sp(3, 0, 1), c: sp(0, 3, 0) };
    fb.draw_triangle(&t, &Fill::Flat(RED), None);
    assert_eq!(fb.depth_at(0, 0), 0);
    assert_eq!(fb.depth_at(1, 0), 0);
    assert_eq!(fb.depth_at(2, 0), 0);
    assert_eq!(fb.depth_at(3, 0), 1);
    let t = Triangle { a: sp(0, 0, 0), b: sp(3, 0, -1), c: sp(0, 3, 0) };
    let mut fb = Framebuffer::new(10, 10, GRAY);
    fb.draw_triangle(&t, &Fill::Flat(RED), None);
    assert_eq!(fb.depth_at(1, 0), -1);
}

#[test]
fn drawing_same_triangle_twice_equals_once() {
    let t = Triangle { a: sp(2, 3, 7), b: sp(25, 6, -3), c: sp(9, 27, 12) };
    let mut once = Framebuffer::new(32, 32, GRAY);
    once.draw_triangle(&Triangle { a: sp(0, 0, 2), b: sp(31, 0, 2), c: sp(0, 31, 2) }, &Fill::Flat(WHITE), None);
    let mut twice = Framebuffer::new(32, 32, GRAY);
    twice.draw_triangle(&Triangle { a: sp(0, 0, 2), b: sp(31, 0, 2), c: sp(0, 31, 2) }, &Fill::Flat(WHITE), None);
    once.draw_triangle(&t, &Fill::Flat(RED), None);
    twice.draw_triangle(&t, &Fill::Flat(RED), None);
    twice.draw_triangle(&t, &Fill::Flat(RED), None);
    assert_eq!(once.to_ppm(), twice.to_ppm());
    for y in 0..32 {
        for x in 0..32 {
            assert_eq!(once.depth_at(x, y), twice.depth_at(x, y));
        }
    }
}

fn line_pixels(x0: u32, y0: u32, x1: u32, y1: u32) -> Vec<(u32, u32)> {
    let mut fb = Framebuffer::new(100, 100, GRAY);
    fb.draw_line(x0, y0, x1, y1, RED);
    colored_pixels(&fb, RED)
}

#[test]
fn line_pixels_do_not_depend_on_direction() {
    let cases = [(10, 20, 70, 20), (30, 5, 30, 90), (5, 5, 60, 60), (60, 5, 5, 60), (13, 20, 80, 40), (20, 13, 40, 80), (0, 0, 3, 1)];
    for &(x0, y0, x1, y1) in cases.iter() {
        assert_eq!(line_pixels(x0, y0, x1, y1), line_pixels(x1, y1, x0, y0));
    }
}

#[test]
fn horizontal_vertical_and_diagonal_lines() {
    assert_eq!(line_pixels(3, 7, 8, 7), (3..=8).map(|x| (x, 7)).collect::<Vec<_>>());
    assert_eq!(line_pixels(4, 9, 4, 2), (2..=9).map(|y| (4, y)).collect::<Vec<_>>());
    assert_eq!(line_pixels(1, 1, 5, 5), (1..=5).map(|k| (k, k)).collect::<Vec<_>>());
}

#[test]
fn shallow_line_rounds_to_nearest_row() {
    // y = x / 3 rounded, halves towards the start
    let mut got = line_pixels(0, 0, 6, 2);
    got.sort_by_key(|&(x, _)| x);
    assert_eq!(got, vec![(0, 0), (1, 0), (2, 1), (3, 1), (4, 1), (5, 2), (6, 2)]);
    let mut got = line_pixels(0, 0, 4, 1);
    got.sort_by_key(|&(x, _)| x);
    assert_eq!(got, vec![(0, 0), (1, 0), (2, 0), (3, 1), (4, 1)]);
}

#[test]
fn steep_line_walks_along_y() {
    let pixels = line_pixels(13, 20, 20, 80);
    assert_eq!(pixels.len(), 61);
    assert!(pixels.contains(&(13, 20)));
    assert!(pixels.contains(&(20, 80)));
}

#[test]
fn zero_length_line_plots_its_point() {
    assert_eq!(line_pixels(42, 17, 42, 17), vec![(42, 17)]);
}

#[test]
fn line_does_not_touch_depth() {
    let mut fb = Framebuffer::new(10, 10, GRAY);
    fb.draw_line(0, 0, 9, 9, RED);
    assert_eq!(fb.depth_at(4, 4), i64::MIN);
}

#[test]
fn flat_shade_is_exact() {
    assert_eq!(flat_shade(Intensity { num: 1, den: 1 }), 255);
    assert_eq!(flat_shade(Intensity { num: 1, den: 4 }), 127);
    assert_eq!(flat_shade(Intensity { num: 0, den: 9 }), 0);
    assert_eq!(flat_shade(Intensity { num: 9, den: 25 }), 153);
}

#[test]
fn gamma_shade_uses_square_root_of_intensity() {
    // intensity 1/4, gamma-corrected to 1/2
    assert_eq!(gamma_shade(200, Intensity { num: 1, den: 16 }), 100);
    // intensity 1/2, gamma-corrected to 0.7071...
    assert_eq!(gamma_shade(200, Intensity { num: 1, den: 4 }), 141);
    assert_eq!(gamma_shade(255, Intensity { num: 1, den: 1 }), 255);
    assert_eq!(gamma_shade(0, Intensity { num: 1, den: 1 }), 0);
}

#[test]
fn face_normal_and_intensity() {
    let n = face_normal(sp(0, 0, 0), sp(0, 4, 0), sp(3, 0, 0));
    assert_eq!(n, Vector3 { x: 0, y: 0, z: 12 });
    let towards = Vector3 { x: 0, y: 0, z: 5 };
    assert_eq!(face_intensity(n, towards, Lighting::Cull), Some(Intensity { num: 3600, den: 3600 }));
    let away = Vector3 { x: 0, y: 0, z: -5 };
    assert_eq!(face_intensity(n, away, Lighting::Cull), None);
    assert_eq!(face_intensity(n, away, Lighting::Ambient { percent: 20 }), Some(Intensity { num: 400, den: 10000 }));
    let oblique = Vector3 { x: 0, y: 3, z: 4 };
    let i = face_intensity(n, oblique, Lighting::Cull).unwrap();
    assert_eq!(flat_shade(i), 204);
    assert_eq!(face_intensity(n, oblique, Lighting::Ambient { percent: 90 }), Some(Intensity { num: 8100, den: 10000 }));
}

fn one_triangle_mesh(a: ScreenPoint, b: ScreenPoint, c: ScreenPoint) -> Mesh {
    Mesh {
        vertices: vec![a, b, c],
        tex_coords: vec![],
        primitives: vec![Primitive::Triangle(
            Corner { vertex: 0, tex: None },
            Corner { vertex: 1, tex: None },
            Corner { vertex: 2, tex: None },
        )],
    }
}

#[test]
fn back_face_is_culled() {
    let cfg = RenderConfig { light: Vector3 { x: 0, y: 0, z: 1 }, flat_lighting: Lighting::Cull, textured_lighting: Lighting::Cull, line_color: WHITE };
    // normal (c - a) x (b - a) points along -z
    let mesh = one_triangle_mesh(sp(0, 0, 0), sp(10, 0, 0), sp(0, 10, 0));
    let mut fb = Framebuffer::new(20, 20, GRAY);
    let before = fb.to_ppm();
    fb.draw_mesh(&mesh, &cfg, None);
    let mesh = one_triangle_mesh(sp(0, 0, 0), sp(0, 10, 0), sp(10, 0, 0));
    let mut lit = Framebuffer::new(20, 20, GRAY);
    lit.draw_mesh(&mesh, &cfg, None);
    let edge_on = Vector3 { x: 1, y: 0, z: 0 };
    let cfg_edge = RenderConfig { light: edge_on, ..cfg };
    fb.draw_mesh(&mesh, &cfg_edge, None);
    assert_eq!(fb.to_ppm(), before);
    assert_eq!(fb.depth_at(2, 2), i64::MIN);
    assert_eq!(lit.get(2, 2), WHITE);
}

#[test]
fn ambient_floor_draws_back_faces_dimly() {
    let cfg = RenderConfig { light: Vector3 { x: 0, y: 0, z: 1 }, flat_lighting: Lighting::Ambient { percent: 20 }, textured_lighting: Lighting::Cull, line_color: WHITE };
    let mesh = one_triangle_mesh(sp(0, 0, 0), sp(10, 0, 0), sp(0, 10, 0));
    let mut fb = Framebuffer::new(20, 20, GRAY);
    fb.draw_mesh(&mesh, &cfg, None);
    assert_eq!(fb.get(2, 2), Color { r: 51, g: 51, b: 51 });
}

#[test]
fn mesh_draws_points_and_lines() {
    let cfg = RenderConfig { light: Vector3 { x: 0, y: 0, z: 1 }, flat_lighting: Lighting::Cull, textured_lighting: Lighting::Cull, line_color: RED };
    let mesh = Mesh {
        vertices: vec![sp(1, 1, 0), sp(5, 1, 0), sp(8, 8, 0), sp(50, 50, 0)],
        tex_coords: vec![],
        primitives: vec![Primitive::Line(0, 1), Primitive::Point(2), Primitive::Line(2, 3), Primitive::Point(3)],
    };
    let mut fb = Framebuffer::new(10, 10, GRAY);
    fb.draw_mesh(&mesh, &cfg, None);
    assert_eq!(colored_pixels(&fb, RED), vec![(1, 1), (2, 1), (3, 1), (4, 1), (5, 1), (8, 8)]);
}

fn checker_texture() -> Texture {
    // 2 x 2 texels: row 0 red, green; row 1 blue, white
    let bytes = vec![200, 0, 0, 0, 200, 0, 0, 0, 200, 255, 255, 255];
    Texture::from_rgb_bytes(2, 2, bytes).unwrap()
}

#[test]
fn texture_from_bytes() {
    let t = checker_texture();
    assert_eq!((t.width(), t.height()), (2, 2));
    assert_eq!(t.texel(1, 0), Color { r: 0, g: 200, b: 0 });
    assert_eq!(t.texel(0, 1), Color { r: 0, g: 0, b: 200 });
    assert!(Texture::from_rgb_bytes(2, 2, vec![0; 11]).is_none());
    assert!(Texture::from_rgb_bytes(0, 2, vec![0; 12]).is_none());
    assert!(Texture::from_rgb_bytes(2, 0, vec![0; 12]).is_none());
    assert!(Texture::from_rgb_bytes(1, 1, vec![1, 2, 3, 4]).is_some());
}

#[test]
fn textured_triangle_samples_nearest_texel() {
    let tex = checker_texture();
    let t = Triangle { a: sp(0, 0, 0), b: sp(10, 0, 0), c: sp(0, 10, 0) };
    let fill = Fill::Textured {
        uv0: TexCoord { u: 0, v: 0 },
        uv1: TexCoord { u: TEX_UNIT, v: 0 },
        uv2: TexCoord { u: 0, v: TEX_UNIT },
        intensity: Intensity { num: 1, den: 1 },
    };
    let mut fb = Framebuffer::new(12, 12, GRAY);
    fb.draw_triangle(&t, &fill, Some(&tex));
    assert_eq!(fb.get(0, 0), Color { r: 200, g: 0, b: 0 });
    assert_eq!(fb.get(4, 0), Color { r: 200, g: 0, b: 0 });
    assert_eq!(fb.get(5, 0), Color { r: 0, g: 200, b: 0 });
    assert_eq!(fb.get(9, 0), Color { r: 0, g: 200, b: 0 });
    assert_eq!(fb.get(0, 6), Color { r: 0, g: 0, b: 200 });
    assert_eq!(fb.get(5, 5), Color { r: 255, g: 255, b: 255 });
    assert_eq!(fb.get(11, 11), GRAY);
}

#[test]
fn textured_triangle_is_gamma_shaded() {
    let tex = checker_texture();
    let t = Triangle { a: sp(0, 0, 0), b: sp(10, 0, 0), c: sp(0, 10, 0) };
    let fill = Fill::Textured {
        uv0: TexCoord { u: 0, v: 0 },
        uv1: TexCoord { u: 0, v: 0 },
        uv2: TexCoord { u: 0, v: 0 },
        intensity: Intensity { num: 1, den: 16 },
    };
    let mut fb = Framebuffer::new(12, 12, GRAY);
    fb.draw_triangle(&t, &fill, Some(&tex));
    assert_eq!(fb.get(3, 3), Color { r: 100, g: 0, b: 0 });
}

#[test]
fn mesh_with_texture_coordinates_uses_texture() {
    let tex = checker_texture();
    let cfg = RenderConfig { light: Vector3 { x: 0, y: 0, z: 1 }, flat_lighting: Lighting::Cull, textured_lighting: Lighting::Cull, line_color: RED };
    let mesh = Mesh {
        vertices: vec![sp(0, 0, 0), sp(0, 10, 0), sp(10, 0, 0)],
        tex_coords: vec![TexCoord { u: TEX_UNIT, v: TEX_UNIT }],
        primitives: vec![Primitive::Triangle(
            Corner { vertex: 0, tex: Some(0) },
            Corner { vertex: 1, tex: Some(0) },
            Corner { vertex: 2, tex: Some(0) },
        )],
    };
    let mut fb = Framebuffer::new(12, 12, GRAY);
    fb.draw_mesh(&mesh, &cfg, Some(&tex));
    assert_eq!(fb.get(1, 1), WHITE);
    let mut flat = Framebuffer::new(12, 12, GRAY);
    flat.draw_mesh(&mesh, &cfg, None);
    assert_eq!(flat.get(1, 1), WHITE);
}

#[test]
fn rgb_bytes_follow_rows() {
    let mut fb = Framebuffer::new(2, 2, GRAY);
    fb.set(1, 0, RED);
    fb.set(0, 1, Color { r: 1, g: 2, b: 3 });
    let bytes = fb.into_rgb_bytes();
    assert_eq!(&bytes[..12], &[40, 40, 40, 255, 0, 0, 1, 2, 3, 40, 40, 40]);
}

#[test]
fn channel_fractions_scale_to_bytes() {
    assert_eq!(channel_from_fraction(1, 1), 255);
    assert_eq!(channel_from_fraction(0, 1), 0);
    assert_eq!(channel_from_fraction(1, 2), 128);
    assert_eq!(channel_from_fraction(998, 1000), 255);
    assert_eq!(channel_from_fraction(997, 1000), 255);
    assert_eq!(channel_from_fraction(99, 100), 253);
    assert_eq!(channel_from_fraction(1, 5), 51);
    assert_eq!(channel_from_fraction(3, 2), 255);
}

#[test]
fn red_fraction_pixel_serializes_as_full_red() {
    let background = Color { r: channel_from_fraction(1, 5), g: channel_from_fraction(1, 5), b: channel_from_fraction(1, 5) };
    let red = Color { r: channel_from_fraction(1, 1), g: channel_from_fraction(0, 1), b: channel_from_fraction(0, 1) };
    let mut fb = Framebuffer::new(100, 100, background);
    fb.set(52, 41, red);
    let text = String::from_utf8(fb.to_ppm()).unwrap();
    let row: Vec<&str> = text.split('\n').nth(3 + 41).unwrap().split(' ').collect();
    assert_eq!(&row[3 * 52..3 * 52 + 3], &["255", "0", "0"]);
    assert_eq!(&row[0..3], &["51", "51", "51"]);
}

#[test]
fn arbitrary_slope_line_has_one_pixel_per_column() {
    let forward = line_pixels(13, 20, 80, 40);
    let backward = line_pixels(80, 40, 13, 20);
    assert_eq!(forward, backward);
    assert_eq!(forward.len(), 68);
    let mut columns: Vec<u32> = forward.iter().map(|&(x, _)| x).collect();
    columns.sort();
    assert_eq!(columns, (13..=80).collect::<Vec<_>>());
    assert!(forward.contains(&(13, 20)));
    assert!(forward.contains(&(80, 40)));
}

#[test]
fn texture_flips_rows() {
    let mut t = checker_texture();
    t.flip_vertically();
    assert_eq!(t.texel(0, 0), Color { r: 0, g: 0, b: 200 });
    assert_eq!(t.texel(1, 0), Color { r: 255, g: 255, b: 255 });
    assert_eq!(t.texel(0, 1), Color { r: 200, g: 0, b: 0 });
    assert_eq!(t.texel(1, 1), Color { r: 0, g: 200, b: 0 });
}

#[test]
fn wide_framebuffer_beyond_ten_thousand_columns() {
    let mut fb = Framebuffer::new(12000, 2, GRAY);
    assert_eq!((fb.width(), fb.height()), (12000, 2));
    assert_eq!(fb.get(11999, 1), GRAY);
    assert_eq!(fb.depth_at(11999, 1), i64::MIN);
    let t = Triangle { a: sp(11000, 0, 9000), b: sp(11999, 0, 9000), c: sp(11000, 1, 9000) };
    fb.draw_triangle(&t, &Fill::Flat(RED), None);
    assert_eq!(fb.get(11000, 0), RED);
    assert_eq!(fb.get(11999, 0), RED);
    assert_eq!(fb.get(11000, 1), RED);
    assert_eq!(fb.get(11001, 1), GRAY);
    assert_eq!(fb.depth_at(11500, 0), 9000);
    fb.draw_line(0, 1, 11999, 1, WHITE);
    assert_eq!(fb.get(6000, 1), WHITE);
}

#[test]
fn barycentric_with_large_coordinates() {
    let big = 4_000_000_000i64;
    let w = barycentric(p2(-big, -big), p2(big, -big), p2(-big, big), p2(0, 0));
    let area = 4 * (big as i128) * (big as i128);
    assert_eq!(w.total, area);
    assert_eq!((w.wa, w.wb, w.wc), (0, area / 2, area / 2));
    let w = barycentric(p2(-big, -big), p2(big, -big), p2(-big, big), p2(big, big));
    assert!(w.wa < 0);
}

#[test]
fn textured_faces_use_their_own_lighting_policy() {
    let tex = checker_texture();
    let cfg = RenderConfig {
        light: Vector3 { x: 0, y: 0, z: 1 },
        flat_lighting: Lighting::Cull,
        textured_lighting: Lighting::Ambient { percent: 25 },
        line_color: RED,
    };
    // a back face, once with texture coordinates and once without
    let corners = |tex: Option<usize>| Primitive::Triangle(
        Corner { vertex: 0, tex },
        Corner { vertex: 1, tex },
        Corner { vertex: 2, tex },
    );
    let mesh = Mesh {
        vertices: vec![sp(0, 0, 0), sp(10, 0, 0), sp(0, 10, 0)],
        tex_coords: vec![TexCoord { u: TEX_UNIT, v: TEX_UNIT }],
        primitives: vec![corners(Some(0))],
    };
    let mut fb = Framebuffer::new(12, 12, GRAY);
    fb.draw_mesh(&mesh, &cfg, Some(&tex));
    // white texel, gamma-shaded at intensity 1/4: 255 * sqrt(1/4)
    assert_eq!(fb.get(1, 1), Color { r: 127, g: 127, b: 127 });
    let mesh = Mesh { primitives: vec![corners(None)], ..mesh };
    let mut fb = Framebuffer::new(12, 12, GRAY);
    fb.draw_mesh(&mesh, &cfg, Some(&tex));
    assert_eq!(fb.get(1, 1), GRAY);
}

fn sorted(mut v: Vec<(u32, u32)>) -> Vec<(u32, u32)> {
    v.sort();
    v
}

#[test]
fn horizontal_line_both_directions() {
    let expected: Vec<(u32, u32)> = sorted((10..=60).map(|x| (x, 20)).collect());
    assert_eq!(expected.len(), 51);
    assert_eq!(sorted(line_pixels(10, 20, 60, 20)), expected);
    assert_eq!(sorted(line_pixels(60, 20, 10, 20)), expected);
}

#[test]
fn vertical_line_both_directions() {
    let expected: Vec<(u32, u32)> = sorted((5..=70).map(|y| (30, y)).collect());
    assert_eq!(expected.len(), 66);
    assert_eq!(sorted(line_pixels(30, 5, 30, 70)), expected);
    assert_eq!(sorted(line_pixels(30, 70, 30, 5)), expected);
}

#[test]
fn diagonal_line_both_directions() {
    let expected: Vec<(u32, u32)> = sorted((0..=40).map(|k| (10 + k, 10 + k)).collect());
    assert_eq!(expected.len(), 41);
    assert_eq!(sorted(line_pixels(10, 10, 50, 50)), expected);
    assert_eq!(sorted(line_pixels(50, 50, 10, 10)), expected);
}

#[test]
fn textured_back_face_is_culled() {
    let tex = checker_texture();
    let cfg = RenderConfig {
        light: Vector3 { x: 0, y: 0, z: 1 },
        flat_lighting: Lighting::Cull,
        textured_lighting: Lighting::Cull,
        line_color: RED,
    };
    let mesh = Mesh {
        vertices: vec![sp(0, 0, 0), sp(10, 0, 0), sp(0, 10, 0)],
        tex_coords: vec![TexCoord { u: TEX_UNIT, v: TEX_UNIT }],
        primitives: vec![Primitive::Triangle(
            Corner { vertex: 0, tex: Some(0) },
            Corner { vertex: 1, tex: Some(0) },
            Corner { vertex: 2, tex: Some(0) },
        )],
    };
    let mut fb = Framebuffer::new(12, 12, GRAY);
    let before = fb.to_ppm();
    fb.draw_mesh(&mesh, &cfg, Some(&tex));
    assert_eq!(fb.to_ppm(), before);
    assert_eq!(fb.depth_at(1, 1), i64::MIN);
}

#[test]
fn normal_bound_check() {
    assert!(face_normal_fits(sp(0, 0, 0), sp(10, 0, 0), sp(0, 10, 0)));
    // normal z component 2^33 exactly: still fits
    assert!(face_normal_fits(sp(0, 0, 0), sp(0, 131072, 0), sp(65536, 0, 0)));
    // one more unit of area: too large
    assert!(!face_normal_fits(sp(0, 0, 0), sp(0, 131072, 0), sp(65537, 0, 0)));
    assert!(!face_normal_fits(sp(0, 0, 0), sp(4_000_000_000, 0, 0), sp(0, 4_000_000_000, 0)));
}
