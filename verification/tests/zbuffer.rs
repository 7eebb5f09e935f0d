use tinyrenderer::img::Img;
use tinyrenderer::our_gl::{depth_of_bits, draw_fragment, is_nearer, triangle, Depth, Fragment, ZBuffer};
use tinyrenderer::render::run_model_with_zbuffer_and_perspective;

fn frag(x: i32, y: i32, z: f32, color: (u8, u8, u8)) -> Fragment {
    Fragment { x, y, depth: depth_of_bits(z.to_bits()), color, discard: false }
}

#[test]
fn depth_keys_follow_float_order() {
    let zs = [f32::NEG_INFINITY, -3.5, -1.0, -1e-30, 0.0, 1e-30, 0.5, 1.0, 255.0, f32::INFINITY];
    for i in 0..zs.len() {
        for j in 0..zs.len() {
            let a = depth_of_bits(zs[i].to_bits());
            let b = depth_of_bits(zs[j].to_bits());
            assert_eq!(is_nearer(a, b), zs[i] < zs[j], "{} {}", zs[i], zs[j]);
        }
    }
    assert_eq!(depth_of_bits(0.0f32.to_bits()), depth_of_bits((-0.0f32).to_bits()));
    assert_eq!(depth_of_bits(0.0f32.to_bits()), Depth::Ordered(0));
    assert_eq!(depth_of_bits(1.0f32.to_bits()), Depth::Ordered(0x3f80_0000));
    assert_eq!(depth_of_bits((-1.0f32).to_bits()), Depth::Ordered(-0x3f80_0000));
    assert_eq!(depth_of_bits(f32::NAN.to_bits()), Depth::Unordered);
}

#[test]
fn unordered_is_never_nearer() {
    let one = Depth::Ordered(1);
    assert!(!is_nearer(Depth::Unordered, one));
    assert!(!is_nearer(one, Depth::Unordered));
    assert!(!is_nearer(Depth::Unordered, Depth::Unordered));
    assert!(is_nearer(Depth::Ordered(-5), one));
    assert!(!is_nearer(one, one));
}

#[test]
fn nearer_fragment_replaces_farther() {
    let mut img = Img::new(4, 4);
    let mut zb = ZBuffer::new();
    draw_fragment(&mut img, &mut zb, &frag(1, 2, 0.5, (10, 0, 0)));
    assert_eq!(img.get(1, 2), (10, 0, 0));
    draw_fragment(&mut img, &mut zb, &frag(1, 2, 0.25, (20, 0, 0)));
    assert_eq!(img.get(1, 2), (10, 0, 0));
    draw_fragment(&mut img, &mut zb, &frag(1, 2, 0.5, (30, 0, 0)));
    assert_eq!(img.get(1, 2), (10, 0, 0));
    draw_fragment(&mut img, &mut zb, &frag(1, 2, 0.75, (40, 0, 0)));
    assert_eq!(img.get(1, 2), (40, 0, 0));
    assert_eq!(zb.get(1, 2), Some(depth_of_bits(0.75f32.to_bits())));
    assert_eq!(zb.get(2, 1), None);
}

#[test]
fn discarded_fragment_keeps_depth_but_not_colour() {
    let mut img = Img::new(2, 2);
    let mut zb = ZBuffer::new();
    let mut f = frag(0, 0, 1.0, (9, 9, 9));
    f.discard = true;
    draw_fragment(&mut img, &mut zb, &f);
    assert_eq!(img.get(0, 0), (0, 0, 0));
    assert_eq!(zb.get(0, 0), Some(depth_of_bits(1.0f32.to_bits())));
    draw_fragment(&mut img, &mut zb, &frag(0, 0, 0.5, (5, 5, 5)));
    assert_eq!(img.get(0, 0), (0, 0, 0));
}

#[test]
fn nan_depth_is_drawn_once_and_then_sticks() {
    let mut img = Img::new(2, 2);
    let mut zb = ZBuffer::new();
    draw_fragment(&mut img, &mut zb, &frag(1, 1, f32::NAN, (1, 1, 1)));
    assert_eq!(img.get(1, 1), (1, 1, 1));
    draw_fragment(&mut img, &mut zb, &frag(1, 1, f32::INFINITY, (2, 2, 2)));
    assert_eq!(img.get(1, 1), (1, 1, 1));
    assert_eq!(zb.get(1, 1), Some(Depth::Unordered));
}

#[test]
fn off_canvas_fragments_only_touch_the_zbuffer() {
    let mut img = Img::new(2, 2);
    let mut zb = ZBuffer::new();
    draw_fragment(&mut img, &mut zb, &frag(-1, 0, 1.0, (7, 7, 7)));
    draw_fragment(&mut img, &mut zb, &frag(5, 1, 1.0, (7, 7, 7)));
    assert_eq!(zb.get(-1, 0), Some(depth_of_bits(1.0f32.to_bits())));
    assert_eq!(zb.get(5, 1), Some(depth_of_bits(1.0f32.to_bits())));
    for x in 0..2 {
        for y in 0..2 {
            assert_eq!(img.get(x, y), (0, 0, 0));
        }
    }
}

#[test]
fn zbuffer_keys_do_not_collide() {
    let mut img = Img::new(1, 1);
    let mut zb = ZBuffer::new();
    let pts = [(i32::MIN, i32::MIN), (i32::MAX, i32::MAX), (0, -1), (-1, 0), (1, i32::MIN), (0, i32::MAX)];
    for (k, &(x, y)) in pts.iter().enumerate() {
        draw_fragment(&mut img, &mut zb, &Fragment { x, y, depth: Depth::Ordered(k as i64), color: (0, 0, 0), discard: false });
    }
    for (k, &(x, y)) in pts.iter().enumerate() {
        assert_eq!(zb.get(x, y), Some(Depth::Ordered(k as i64)));
    }
}

#[test]
fn triangle_keeps_first_of_nearest() {
    let mut img = Img::new(3, 3);
    let mut zb = ZBuffer::new();
    let frags = vec![
        frag(0, 0, 1.0, (1, 0, 0)),
        frag(1, 1, 2.0, (2, 0, 0)),
        frag(0, 0, 3.0, (3, 0, 0)),
        frag(0, 0, 3.0, (4, 0, 0)),
        frag(1, 1, -2.0, (5, 0, 0)),
        frag(0, 0, 2.0, (6, 0, 0)),
    ];
    triangle(&frags, &mut img, &mut zb);
    assert_eq!(img.get(0, 0), (3, 0, 0));
    assert_eq!(img.get(1, 1), (2, 0, 0));
    assert_eq!(img.get(2, 2), (0, 0, 0));
    assert_eq!(zb.get(0, 0), Some(depth_of_bits(3.0f32.to_bits())));
}

#[test]
fn rendering_shares_one_zbuffer_and_flips() {
    let tris = vec![
        vec![frag(0, 0, 1.0, (1, 1, 1)), frag(1, 0, 1.0, (2, 2, 2))],
        vec![frag(0, 0, 0.5, (3, 3, 3)), frag(1, 0, 1.5, (4, 4, 4)), frag(1, 2, 0.0, (5, 5, 5))],
    ];
    let img = run_model_with_zbuffer_and_perspective(2, 3, &tris);
    assert_eq!(img.width(), 2);
    assert_eq!(img.height(), 3);
    assert_eq!(img.get(0, 2), (1, 1, 1));
    assert_eq!(img.get(1, 2), (4, 4, 4));
    assert_eq!(img.get(1, 0), (5, 5, 5));
    assert_eq!(img.get(0, 0), (0, 0, 0));
    assert_eq!(img.get(0, 1), (0, 0, 0));
}

#[test]
fn passes_is_the_depth_test() {
    let mut img = Img::new(2, 2);
    let mut zb = ZBuffer::new();
    assert!(zb.passes(0, 0, Depth::Unordered));
    draw_fragment(&mut img, &mut zb, &frag(0, 0, 1.0, (1, 1, 1)));
    assert!(!zb.passes(0, 0, depth_of_bits(1.0f32.to_bits())));
    assert!(!zb.passes(0, 0, depth_of_bits(0.5f32.to_bits())));
    assert!(zb.passes(0, 0, depth_of_bits(2.0f32.to_bits())));
    assert!(!zb.passes(0, 0, Depth::Unordered));
    assert!(zb.passes(1, 0, depth_of_bits(0.0f32.to_bits())));
}

#[test]
fn drawing_a_triangle_twice_changes_nothing() {
    let frags = vec![
        frag(0, 0, 1.0, (1, 0, 0)),
        frag(0, 0, 2.0, (2, 0, 0)),
        frag(1, 0, f32::NAN, (3, 0, 0)),
        frag(1, 0, 5.0, (4, 0, 0)),
        frag(1, 1, 0.5, (5, 0, 0)),
    ];
    let mut img = Img::new(2, 2);
    let mut zb = ZBuffer::new();
    triangle(&frags, &mut img, &mut zb);
    let before: Vec<_> = (0..4).map(|i| (img.get(i % 2, i / 2), zb.get((i % 2) as i32, (i / 2) as i32))).collect();
    triangle(&frags, &mut img, &mut zb);
    let after: Vec<_> = (0..4).map(|i| (img.get(i % 2, i / 2), zb.get((i % 2) as i32, (i / 2) as i32))).collect();
    assert_eq!(before, after);
}

#[test]
fn order_of_triangles_does_not_matter_when_depths_differ() {
    let a = vec![frag(0, 0, 1.0, (1, 0, 0)), frag(1, 0, 3.0, (2, 0, 0)), frag(1, 1, 0.0, (3, 0, 0))];
    let b = vec![frag(0, 0, 2.0, (4, 0, 0)), frag(1, 0, -3.0, (5, 0, 0)), frag(0, 1, 9.0, (6, 0, 0))];
    let draw = |first: &Vec<Fragment>, second: &Vec<Fragment>| {
        let mut img = Img::new(2, 2);
        let mut zb = ZBuffer::new();
        triangle(first, &mut img, &mut zb);
        triangle(second, &mut img, &mut zb);
        (0..4).map(|i| (img.get(i % 2, i / 2), zb.get((i % 2) as i32, (i / 2) as i32))).collect::<Vec<_>>()
    };
    assert_eq!(draw(&a, &b), draw(&b, &a));
}
