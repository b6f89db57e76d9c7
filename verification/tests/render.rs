use std::sync::Arc;

use sappix::BlendMode;
use sappix::Circle;
use sappix::ColorMode;
use sappix::ColorRect;
use sappix::ColorVec2;
use sappix::FBColor;
use sappix::I16Vec2;
use sappix::Line;
use sappix::Rect;
use sappix::Renderer;
use sappix::Sprite;
use sappix::SpriteFrame;
use sappix::SpriteFrameMode;
use sappix::Triangle;

fn at(r: &Renderer, x: i16, y: i16) -> FBColor {
    let w = r.width() as usize;
    r.fb()[y as usize * w + x as usize]
}

fn rgba(r: u8, g: u8, b: u8, a: u8) -> FBColor {
    FBColor::new(r, g, b, a)
}

const BLACK: (u8, u8, u8, u8) = (0, 0, 0, 255);
const WHITE: (u8, u8, u8, u8) = (255, 255, 255, 255);

fn black() -> FBColor {
    rgba(BLACK.0, BLACK.1, BLACK.2, BLACK.3)
}

fn white() -> FBColor {
    rgba(WHITE.0, WHITE.1, WHITE.2, WHITE.3)
}

fn filled(w: u16, h: u16, c: FBColor) -> Renderer {
    let mut r = Renderer::new(w, h);
    r.fill(c, BlendMode::Opaque);
    r
}

fn snapshot(r: &Renderer) -> Vec<FBColor> {
    r.fb().clone()
}

#[test]
fn opaque_blend_ignores_destination() {
    let mut r = filled(2, 2, rgba(9, 9, 9, 9));
    let c = rgba(10, 20, 30, 0);
    r.set(1, 1, c, BlendMode::Opaque);
    assert_eq!(at(&r, 1, 1), c);
}

#[test]
fn alpha_blend_transparent_source_is_identity() {
    let d = rgba(10, 20, 30, 200);
    let mut r = filled(1, 1, d);
    r.set(0, 0, rgba(250, 250, 250, 0), BlendMode::Alpha);
    assert_eq!(at(&r, 0, 0), d);
}

#[test]
fn alpha_blend_opaque_source_replaces() {
    let mut r = filled(1, 1, rgba(10, 20, 30, 200));
    let c = rgba(1, 2, 3, 255);
    r.set(0, 0, c, BlendMode::Alpha);
    assert_eq!(at(&r, 0, 0), c);
}

#[test]
fn alpha_blend_middle_exact_value() {
    // per channel: src + (dst * (255 - 128) + 127) / 255, clamped
    let mut r = filled(1, 1, rgba(200, 0, 255, 200));
    r.set(0, 0, rgba(100, 100, 200, 128), BlendMode::Alpha);
    let got = at(&r, 0, 0);
    assert_eq!(got.r() as u32, 100 + (200u32 * 127 + 127) / 255); // 200
    assert_eq!(got.g(), 100);
    assert_eq!(got.b(), 255); // 200 + 127 clamps
    assert_eq!(got.a() as u32, 128 + (200u32 * 127 + 127) / 255); // 228
}

#[test]
fn fill_opaque_sets_every_pixel() {
    let mut r = Renderer::new(3, 5);
    let c = rgba(7, 8, 9, 10);
    r.fill(c, BlendMode::Opaque);
    for y in 0..5 {
        for x in 0..3 {
            assert_eq!(at(&r, x, y), c);
        }
    }
}

#[test]
fn new_renderer_is_empty() {
    let r = Renderer::new(2, 2);
    assert_eq!(r.width(), 2);
    assert_eq!(r.height(), 2);
    assert_eq!(r.fb().len(), 4);
    for p in r.fb() {
        assert_eq!(*p, rgba(0, 0, 0, 0));
    }
}

#[test]
fn set_out_of_bounds_is_a_no_op() {
    let mut r = filled(2, 2, black());
    let before = snapshot(&r);
    r.set(-1, 0, white(), BlendMode::Opaque);
    r.set(0, -1, white(), BlendMode::Opaque);
    r.set(2, 0, white(), BlendMode::Opaque);
    r.set(0, 2, white(), BlendMode::Opaque);
    assert_eq!(snapshot(&r), before);
}

#[test]
fn fb_rgba8_layout() {
    let mut r = Renderer::new(2, 1);
    r.set(0, 0, rgba(1, 2, 3, 4), BlendMode::Opaque);
    r.set(1, 0, rgba(5, 6, 7, 8), BlendMode::Opaque);
    assert_eq!(r.fb_rgba8(), vec![1, 2, 3, 4, 5, 6, 7, 8]);
}

#[test]
fn color_rgba8_round_trip() {
    let c = rgba(13, 77, 254, 3);
    let q = c.to_rgba8();
    assert_eq!(FBColor::from_rgba8(q[0], q[1], q[2], q[3]), c);
}

#[test]
fn color_accessors_and_setters() {
    let mut c = rgba(1, 2, 3, 4);
    assert_eq!((c.r(), c.g(), c.b(), c.a()), (1, 2, 3, 4));
    c.set_r(10);
    c.set_g(20);
    c.set_b(30);
    c.set_a(40);
    assert_eq!(c, rgba(10, 20, 30, 40));
    assert_eq!(c.with_a(99), rgba(10, 20, 30, 99));
}

#[test]
fn lerp_endpoints_and_midpoint() {
    let a = rgba(0, 100, 200, 255);
    let b = rgba(255, 200, 0, 1);
    assert_eq!(a.lerp(b, 0), a);
    assert_eq!(a.lerp(b, 255), b);
    // per channel: (a * (255 - t) + b * t + 127) / 255 at t = 128
    let mid = a.lerp(b, 128);
    assert_eq!(mid.r(), ((0 * 127 + 255 * 128 + 127) / 255) as u8);
    assert_eq!(mid.g(), ((100 * 127 + 200 * 128 + 127) / 255) as u8);
}

#[test]
fn lerp3_equal_weights_averages() {
    let cs = [rgba(30, 0, 0, 255), rgba(60, 0, 0, 255), rgba(120, 0, 0, 255)];
    let c = FBColor::lerp3(&cs, &[1, 1, 1]);
    assert_eq!(c.r(), 70);
}

#[test]
fn mul_white_is_identity() {
    let c = rgba(12, 90, 200, 37);
    assert_eq!(c.mul(white()), c);
}

#[test]
fn point_draws_one_pixel() {
    let mut r = filled(3, 3, black());
    let p = ColorVec2::new(I16Vec2::new(1, 2), white(), BlendMode::Opaque);
    r.draw(&p);
    for y in 0..3 {
        for x in 0..3 {
            let want = if (x, y) == (1, 2) { white() } else { black() };
            assert_eq!(at(&r, x, y), want);
        }
    }
}

#[test]
fn rect_scenario_interior_white_border_black() {
    let mut r = filled(4, 4, black());
    let rect = ColorRect::new(
        Rect { position: I16Vec2::new(1, 1), size: I16Vec2::new(2, 2) },
        ColorMode::Solid(white()),
        BlendMode::Opaque,
    );
    r.draw(&rect);
    let mut whites = 0;
    for y in 0..4 {
        for x in 0..4 {
            let inside = (1..3).contains(&x) && (1..3).contains(&y);
            assert_eq!(at(&r, x, y), if inside { white() } else { black() });
            if inside {
                whites += 1;
            }
        }
    }
    assert_eq!(whites, 4);
}

#[test]
fn rect_zero_size_draws_nothing() {
    let mut r = filled(4, 4, black());
    let before = snapshot(&r);
    for size in [I16Vec2::new(0, 0), I16Vec2::new(0, 3), I16Vec2::new(3, 0)] {
        let rect = ColorRect::new(
            Rect { position: I16Vec2::new(1, 1), size },
            ColorMode::Solid(white()),
            BlendMode::Opaque,
        );
        r.draw(&rect);
        assert_eq!(snapshot(&r), before);
    }
}

#[test]
fn rect_negative_size_flips() {
    let mut r = filled(4, 4, black());
    let rect = ColorRect::new(
        Rect { position: I16Vec2::new(3, 3), size: I16Vec2::new(-2, -2) },
        ColorMode::Solid(white()),
        BlendMode::Opaque,
    );
    r.draw(&rect);
    for y in 0..4 {
        for x in 0..4 {
            let inside = (1..3).contains(&x) && (1..3).contains(&y);
            assert_eq!(at(&r, x, y), if inside { white() } else { black() });
        }
    }
}

#[test]
fn rect_clips_to_framebuffer() {
    let mut r = filled(2, 2, black());
    let rect = ColorRect::new(
        Rect { position: I16Vec2::new(-5, -5), size: I16Vec2::new(100, 100) },
        ColorMode::Solid(white()),
        BlendMode::Opaque,
    );
    r.draw(&rect);
    for p in r.fb() {
        assert_eq!(*p, white());
    }
}

#[test]
fn wide_framebuffer_columns_beyond_i16_are_painted() {
    // spec allows dimensions up to 65,535; geometry coordinates stay
    // signed 16-bit, but a rectangle can still cover columns past 32,767
    let mut r = filled(40000, 1, black());
    let rect = ColorRect::new(
        Rect { position: I16Vec2::new(30000, 0), size: I16Vec2::new(10000, 1) },
        ColorMode::Solid(white()),
        BlendMode::Opaque,
    );
    r.draw(&rect);
    assert_eq!(at(&r, 29999, 0), black());
    assert_eq!(r.fb()[30000], white());
    assert_eq!(r.fb()[32768], white());
    assert_eq!(r.fb()[39999], white());
}

#[test]
fn line_equal_endpoints_is_a_no_op() {
    let mut r = filled(3, 3, black());
    let before = snapshot(&r);
    let l = Line::new(1, 1, 1, 1, ColorMode::Solid(white()), BlendMode::Opaque);
    r.draw(&l);
    assert_eq!(snapshot(&r), before);
}

#[test]
fn line_horizontal_half_open_span() {
    let mut r = filled(4, 3, black());
    let l = Line::new(0, 1, 3, 1, ColorMode::Solid(white()), BlendMode::Opaque);
    r.draw(&l);
    for y in 0..3 {
        for x in 0..4 {
            let on = y == 1 && x < 3;
            assert_eq!(at(&r, x, y), if on { white() } else { black() }, "({x},{y})");
        }
    }
}

#[test]
fn line_vertical_half_open_span() {
    let mut r = filled(3, 4, black());
    let l = Line::new(1, 3, 1, 0, ColorMode::Solid(white()), BlendMode::Opaque);
    r.draw(&l);
    for y in 0..4 {
        for x in 0..3 {
            let on = x == 1 && y < 3;
            assert_eq!(at(&r, x, y), if on { white() } else { black() }, "({x},{y})");
        }
    }
}

#[test]
fn line_shallow_diagonal_pixels() {
    // driving axis x, delta (4, 1): minor steps at the rounded midpoint
    let mut r = filled(5, 3, black());
    let l = Line::new(0, 0, 4, 1, ColorMode::Solid(white()), BlendMode::Opaque);
    r.draw(&l);
    let expect = [(0, 0), (1, 0), (2, 0), (3, 1)];
    for y in 0..3 {
        for x in 0..5 {
            let on = expect.contains(&(x, y));
            assert_eq!(at(&r, x, y), if on { white() } else { black() }, "({x},{y})");
        }
    }
}

#[test]
fn line_two_color_interpolates_along_segment() {
    let mut r = filled(6, 1, black());
    let a = rgba(0, 0, 0, 255);
    let b = rgba(250, 0, 0, 255);
    let l = Line::new(0, 0, 5, 0, ColorMode::PerPoint([a, b]), BlendMode::Opaque);
    r.draw(&l);
    // t = x * 255 / 5; channel = (0 * (255 - t) + 250 * t + 127) / 255
    for x in 0..5 {
        let t = (x as u32) * 255 / 5;
        let want = ((250 * t + 127) / 255) as u8;
        assert_eq!(at(&r, x, 0).r(), want, "x = {x}");
    }
    // half-open: the second endpoint's pixel is untouched
    assert_eq!(at(&r, 5, 0), black());
}

#[test]
fn circle_radius_zero_leaves_framebuffer_unchanged() {
    for fill in [false, true] {
        let mut r = filled(4, 4, black());
        let before = snapshot(&r);
        let c = Circle::new(2, 2, 0, fill, white(), BlendMode::Opaque);
        r.draw(&c);
        assert_eq!(snapshot(&r), before);
    }
}

#[test]
fn circle_radius_one_filled_is_a_plus_shape() {
    let mut r = filled(5, 5, black());
    let c = Circle::new(2, 2, 1, true, white(), BlendMode::Opaque);
    r.draw(&c);
    let expect = [(2, 1), (1, 2), (2, 2), (3, 2), (2, 3)];
    for y in 0..5 {
        for x in 0..5 {
            let on = expect.contains(&(x, y));
            assert_eq!(at(&r, x, y), if on { white() } else { black() }, "({x},{y})");
        }
    }
}

#[test]
fn circle_radius_one_outline_skips_center() {
    let mut r = filled(5, 5, black());
    let c = Circle::new(2, 2, 1, false, white(), BlendMode::Opaque);
    r.draw(&c);
    assert_eq!(at(&r, 2, 2), black());
    assert_eq!(at(&r, 1, 2), white());
    assert_eq!(at(&r, 3, 2), white());
    assert_eq!(at(&r, 2, 1), white());
    assert_eq!(at(&r, 2, 3), white());
}

#[test]
fn circle_filled_paints_full_center_row() {
    let mut r = filled(5, 5, black());
    let c = Circle::new(2, 2, 2, true, white(), BlendMode::Opaque);
    r.draw(&c);
    for x in 0..5 {
        assert_eq!(at(&r, x, 2), white(), "x = {x}");
    }
}

#[test]
fn rect_four_corner_colors_start_at_top_left() {
    let tl = rgba(255, 0, 0, 255);
    let tr = rgba(0, 255, 0, 255);
    let bl = rgba(0, 0, 255, 255);
    let br = rgba(255, 255, 255, 255);
    let mut r = filled(4, 4, black());
    let rect = ColorRect::new(
        Rect { position: I16Vec2::new(0, 0), size: I16Vec2::new(4, 4) },
        ColorMode::PerPoint([tl, tr, bl, br]),
        BlendMode::Opaque,
    );
    r.draw(&rect);
    // the fractional position is 0 at the rectangle's top-left corner
    assert_eq!(at(&r, 0, 0), tl);
    // moving right raises the red-to-green blend toward the top-right
    assert!(at(&r, 3, 0).g() > at(&r, 0, 0).g());
    assert!(at(&r, 0, 3).b() > at(&r, 0, 0).b());
}

#[test]
fn circle_outline_paints_center_row_extremes() {
    let mut r = filled(7, 7, black());
    let c = Circle::new(3, 3, 3, false, white(), BlendMode::Opaque);
    r.draw(&c);
    assert_eq!(at(&r, 0, 3), white());
    assert_eq!(at(&r, 6, 3), white());
    assert_eq!(at(&r, 3, 3), black());
}

#[test]
fn circle_clips_to_framebuffer() {
    let mut r = filled(3, 3, black());
    let c = Circle::new(0, 0, 2, true, white(), BlendMode::Opaque);
    r.draw(&c);
    // no panic, and only circle-colored or untouched pixels
    for y in 0..3 {
        for x in 0..3 {
            let p = at(&r, x, y);
            assert!(p == white() || p == black());
        }
    }
}

fn triangle_pixels(a: I16Vec2, b: I16Vec2, c: I16Vec2) -> Vec<FBColor> {
    let mut r = filled(6, 6, black());
    let t = Triangle::new(a, b, c, ColorMode::Solid(white()), BlendMode::Opaque);
    r.draw(&t);
    snapshot(&r)
}

#[test]
fn triangle_winding_order_independent() {
    let a = I16Vec2::new(0, 0);
    let b = I16Vec2::new(5, 1);
    let c = I16Vec2::new(2, 5);
    let forward = triangle_pixels(a, b, c);
    let reversed = triangle_pixels(a, c, b);
    assert_eq!(forward, reversed);
}

#[test]
fn triangle_right_triangle_pixels() {
    let fb = triangle_pixels(I16Vec2::new(0, 0), I16Vec2::new(3, 0), I16Vec2::new(0, 3));
    for y in 0..6i32 {
        for x in 0..6i32 {
            let inside = x >= 0 && y >= 0 && x + y <= 3;
            let got = fb[(y * 6 + x) as usize];
            assert_eq!(got, if inside { white() } else { black() }, "({x},{y})");
        }
    }
}

#[test]
fn triangle_degenerate_draws_nothing() {
    let mut r = filled(4, 4, black());
    let before = snapshot(&r);
    let t = Triangle::new(
        I16Vec2::new(0, 0),
        I16Vec2::new(2, 2),
        I16Vec2::new(3, 3),
        ColorMode::Solid(white()),
        BlendMode::Opaque,
    );
    r.draw(&t);
    assert_eq!(snapshot(&r), before);
}

#[test]
fn triangle_three_color_vertices_keep_their_colors() {
    let red = rgba(255, 0, 0, 255);
    let green = rgba(0, 255, 0, 255);
    let blue = rgba(0, 0, 255, 255);
    let mut r = filled(8, 8, black());
    let t = Triangle::new(
        I16Vec2::new(0, 0),
        I16Vec2::new(7, 0),
        I16Vec2::new(0, 7),
        ColorMode::PerPoint([red, green, blue]),
        BlendMode::Opaque,
    );
    r.draw(&t);
    // at each vertex the opposite edge function vanishes, leaving that
    // vertex's own color
    assert_eq!(at(&r, 0, 0), red);
    assert_eq!(at(&r, 7, 0), green);
    assert_eq!(at(&r, 0, 7), blue);
}

fn sprite_2x2(pos: I16Vec2, rotation: i16, scale: u16) -> (Renderer, [FBColor; 4]) {
    let red = rgba(255, 0, 0, 255);
    let green = rgba(0, 255, 0, 255);
    let blue = rgba(0, 0, 255, 255);
    let yellow = rgba(255, 255, 0, 255);
    let pixels = Arc::new(vec![red, green, blue, yellow]);
    let sprite = Sprite::new(
        pixels,
        pos,
        rotation,
        scale,
        BlendMode::Opaque,
        ColorMode::Solid(white()),
        SpriteFrameMode::StillImage(2, 2),
    );
    let mut r = filled(6, 6, black());
    r.draw(&sprite);
    (r, [red, green, blue, yellow])
}

#[test]
fn sprite_identity_reproduces_source_centered() {
    // 2x2 source at position (2,2): center offset 1, so the image covers
    // (1,1)..(2,2)
    let (r, px) = sprite_2x2(I16Vec2::new(2, 2), 0, 256);
    assert_eq!(at(&r, 1, 1), px[0]);
    assert_eq!(at(&r, 2, 1), px[1]);
    assert_eq!(at(&r, 1, 2), px[2]);
    assert_eq!(at(&r, 2, 2), px[3]);
    for y in 0..6 {
        for x in 0..6 {
            if !((1..3).contains(&x) && (1..3).contains(&y)) {
                assert_eq!(at(&r, x, y), black(), "({x},{y})");
            }
        }
    }
}

#[test]
fn sprite_identity_with_whole_turns() {
    // rotation is in 1/256 turn units: any whole number of turns is the
    // identity
    let (r, px) = sprite_2x2(I16Vec2::new(2, 2), 512, 256);
    assert_eq!(at(&r, 1, 1), px[0]);
    assert_eq!(at(&r, 2, 2), px[3]);
}

#[test]
fn sprite_scale_zero_draws_nothing() {
    let (r, _) = sprite_2x2(I16Vec2::new(2, 2), 0, 0);
    for y in 0..6 {
        for x in 0..6 {
            assert_eq!(at(&r, x, y), black());
        }
    }
}

#[test]
fn sprite_modulation_tints_samples() {
    let pixels = Arc::new(vec![rgba(200, 100, 50, 255)]);
    let sprite = Sprite::new(
        pixels,
        I16Vec2::new(1, 1),
        0,
        256,
        BlendMode::Opaque,
        ColorMode::Solid(rgba(128, 255, 0, 255)),
        SpriteFrameMode::StillImage(1, 1),
    );
    let mut r = filled(3, 3, black());
    r.draw(&sprite);
    // channel product: (a * b + 127) / 255
    let got = at(&r, 1, 1);
    assert_eq!(got.r(), ((200 * 128 + 127) / 255) as u8);
    assert_eq!(got.g(), 100);
    assert_eq!(got.b(), 0);
}

#[test]
fn sprite_atlas_frame_selection() {
    let red = rgba(255, 0, 0, 255);
    let green = rgba(0, 255, 0, 255);
    let pixels = Arc::new(vec![red, green]);
    let frames = vec![SpriteFrame::new(0, 1, 1), SpriteFrame::new(1, 1, 1)];
    let mut sprite = Sprite::new(
        pixels,
        I16Vec2::new(1, 1),
        0,
        256,
        BlendMode::Opaque,
        ColorMode::Solid(white()),
        SpriteFrameMode::MultipleFrames(frames),
    );
    let mut r = filled(3, 3, black());
    r.draw(&sprite);
    assert_eq!(at(&r, 1, 1), red);
    sprite.set_frame(1);
    r.draw(&sprite);
    assert_eq!(at(&r, 1, 1), green);
}

#[test]
fn shared_sprite_pixels_back_multiple_sprites() {
    let pixels = Arc::new(vec![white()]);
    let make = |x: i16| {
        Sprite::new(
            Arc::clone(&pixels),
            I16Vec2::new(x, 0),
            0,
            256,
            BlendMode::Opaque,
            ColorMode::Solid(white()),
            SpriteFrameMode::StillImage(1, 1),
        )
    };
    let s0 = make(0);
    let s1 = make(2);
    let mut r = filled(3, 1, black());
    r.draw(&s0);
    r.draw(&s1);
    assert_eq!(at(&r, 0, 0), white());
    assert_eq!(at(&r, 2, 0), white());
    assert_eq!(at(&r, 1, 0), black());
}

#[test]
fn sprite_identity_clips_at_screen_edge() {
    // only the bottom-right source pixel lands on screen
    let (r, px) = sprite_2x2(I16Vec2::new(0, 0), 0, 256);
    assert_eq!(at(&r, 0, 0), px[3]);
    for y in 0..6 {
        for x in 0..6 {
            if (x, y) != (0, 0) {
                assert_eq!(at(&r, x, y), black(), "({x},{y})");
            }
        }
    }
}

#[test]
fn fill_alpha_blends_every_pixel() {
    let mut r = filled(2, 2, rgba(200, 0, 0, 255));
    r.fill(rgba(0, 100, 0, 128), BlendMode::Alpha);
    let want_r = (200u32 * 127 + 127) / 255;
    for p in r.fb() {
        assert_eq!(p.r() as u32, want_r);
        assert_eq!(p.g(), 100);
    }
}

#[test]
fn circle_scratch_state_does_not_leak_between_draws() {
    let mut r = filled(9, 9, black());
    let big = Circle::new(4, 4, 4, true, white(), BlendMode::Opaque);
    r.draw(&big);
    r.fill(black(), BlendMode::Opaque);
    let small = Circle::new(4, 4, 1, true, white(), BlendMode::Opaque);
    r.draw(&small);
    let mut whites = 0;
    for y in 0..9i16 {
        for x in 0..9i16 {
            if at(&r, x, y) == white() {
                whites += 1;
                assert!((3..=5).contains(&x) && (3..=5).contains(&y), "({x},{y})");
            }
        }
    }
    assert_eq!(whites, 5);
}

#[test]
fn draw_multiple_draws_in_order() {
    let mut r = filled(2, 1, black());
    let points = [
        ColorVec2::new(I16Vec2::new(0, 0), white(), BlendMode::Opaque),
        ColorVec2::new(I16Vec2::new(0, 0), rgba(9, 9, 9, 255), BlendMode::Opaque),
        ColorVec2::new(I16Vec2::new(1, 0), white(), BlendMode::Opaque),
    ];
    r.draw_multiple(&points);
    assert_eq!(at(&r, 0, 0), rgba(9, 9, 9, 255));
    assert_eq!(at(&r, 1, 0), white());
}

#[test]
fn edge_function_signed_area() {
    let a = I16Vec2::new(0, 0);
    let b = I16Vec2::new(4, 0);
    let c = I16Vec2::new(0, 3);
    assert_eq!(sappix::edge(a, b, c), 12);
    assert_eq!(sappix::edge(a, c, b), -12);
    assert_eq!(sappix::edge(a, b, I16Vec2::new(2, 0)), 0);
}
