use transform2d::algebra::{floor_div_by, COORD_LIMIT, ONE};
use transform2d::figure::NO_VERTEX;
use transform2d::raster::{set_pixel, FRAME_LEN};
use transform2d::{clear, Color, Figure, Matrix, Vertex, HEIGHT, WIDTH};

fn px(x: i64, y: i64) -> Vertex {
    Vertex::new(x * ONE, y * ONE)
}

fn square() -> Figure {
    Figure::new(vec![px(100, 100), px(100, 200), px(200, 200), px(200, 100)])
}

fn coords(f: &Figure) -> Vec<(i64, i64)> {
    (0..f.len()).map(|i| (f.vertex(i).x, f.vertex(i).y)).collect()
}

fn pixel(buf: &[u8], x: usize, y: usize) -> [u8; 4] {
    let i = 4 * (y * WIDTH + x);
    [buf[i], buf[i + 1], buf[i + 2], buf[i + 3]]
}

fn black_frame() -> Vec<u8> {
    let mut b = vec![7u8; FRAME_LEN];
    clear(&mut b);
    b
}

/// Offsets of a regular polygon with `n` vertices and the given radius, in fixed point.
fn ring(n: usize, radius: f64) -> Vec<Vertex> {
    (0..n)
        .map(|i| {
            let a = i as f64 * 2.0 * std::f64::consts::PI / n as f64;
            Vertex::new(
                (radius * a.cos() * ONE as f64).round() as i64,
                (radius * a.sin() * ONE as f64).round() as i64,
            )
        })
        .collect()
}

fn fixed(v: f64) -> i64 {
    (v * ONE as f64).round() as i64
}

#[test]
fn vertex_add_sub() {
    let a = Vertex::new(5, -3);
    let b = Vertex::new(2, 10);
    assert_eq!(a.add(b), Vertex::new(7, 7));
    assert_eq!(a.sub(b), Vertex::new(3, -13));
}

#[test]
fn vertex_times_matrix() {
    let v = px(3, 4);
    assert_eq!(v.mul(Matrix::scaling(2 * ONE, 3 * ONE)), px(6, 12));
    assert_eq!(v.mul(Matrix::translation(10 * ONE, -ONE)), px(13, 3));
    // a quarter turn: cos 0, sin 1
    assert_eq!(v.mul(Matrix::rotation(0, ONE)), px(-4, 3));
}

#[test]
fn floor_div_rounds_down() {
    assert_eq!(floor_div_by(2048, 1024), 2);
    assert_eq!(floor_div_by(2047, 1024), 1);
    assert_eq!(floor_div_by(-1, 1024), -1);
    assert_eq!(floor_div_by(-1024, 1024), -1);
    assert_eq!(floor_div_by(-1025, 1024), -2);
}

#[test]
fn round_half_away_from_zero() {
    assert_eq!(Vertex::new(ONE + ONE / 2, ONE / 2 - 1).round(), (2, 0));
    assert_eq!(Vertex::new(-(ONE + ONE / 2), -(ONE / 2 + 1)).round(), (-2, -1));
    assert_eq!(Vertex::new(-ONE / 2, ONE / 2).round(), (-1, 1));
    assert_eq!(Vertex::new(-(ONE / 2 - 1), 0).round(), (0, 0));
}

#[test]
fn clear_fills_opaque_black() {
    let b = black_frame();
    assert_eq!(b.len(), WIDTH * HEIGHT * 4);
    assert_eq!(pixel(&b, 0, 0), [0, 0, 0, 255]);
    assert_eq!(pixel(&b, WIDTH - 1, HEIGHT - 1), [0, 0, 0, 255]);
    assert!(b.chunks(4).all(|p| p == [0, 0, 0, 255]));
}

#[test]
fn set_pixel_in_frame() {
    let mut b = black_frame();
    set_pixel(3, 2, Color::new(1, 2, 3, 4), &mut b);
    assert_eq!(pixel(&b, 3, 2), [1, 2, 3, 4]);
    assert_eq!(&b[4 * (2 * WIDTH + 3)..4 * (2 * WIDTH + 3) + 4], &[1, 2, 3, 4]);
    assert_eq!(b.iter().filter(|&&x| x == 1).count(), 1);
}

#[test]
fn set_pixel_clips_outside_frame() {
    let before = black_frame();
    let c = Color::new(255, 0, 0, 255);
    for (x, y) in [(-1, 0), (0, -1), (WIDTH as i64, 0), (0, HEIGHT as i64), (-5, 700), (900, 900)] {
        let mut b = before.clone();
        set_pixel(x, y, c, &mut b);
        assert_eq!(b, before);
    }
}

#[test]
fn line_horizontal_includes_both_ends() {
    let mut b = black_frame();
    let red = Color::new(255, 0, 0, 255);
    transform2d::raster::line((2, 5), (6, 5), red, &mut b);
    for x in 2..=6 {
        assert_eq!(pixel(&b, x, 5), [255, 0, 0, 255]);
    }
    assert_eq!(pixel(&b, 1, 5), [0, 0, 0, 255]);
    assert_eq!(pixel(&b, 7, 5), [0, 0, 0, 255]);
}

#[test]
fn line_steep_one_pixel_per_row() {
    let mut b = black_frame();
    let red = Color::new(255, 0, 0, 255);
    transform2d::raster::line((10, 10), (12, 16), red, &mut b);
    for y in 10..=16 {
        let n = (0..WIDTH).filter(|&x| pixel(&b, x, y)[0] == 255).count();
        assert_eq!(n, 1);
    }
    assert_eq!(pixel(&b, 10, 10), [255, 0, 0, 255]);
    assert_eq!(pixel(&b, 12, 16), [255, 0, 0, 255]);
}

#[test]
fn line_diagonal_backwards() {
    let mut b = black_frame();
    let red = Color::new(255, 0, 0, 255);
    transform2d::raster::line((8, 8), (5, 5), red, &mut b);
    for k in 5..=8 {
        assert_eq!(pixel(&b, k, k), [255, 0, 0, 255]);
    }
    assert_eq!(b.chunks(4).filter(|p| p[0] == 255).count(), 4);
}

#[test]
fn line_single_point() {
    let mut b = black_frame();
    transform2d::raster::line((4, 4), (4, 4), Color::new(9, 9, 9, 9), &mut b);
    assert_eq!(pixel(&b, 4, 4), [9, 9, 9, 9]);
    assert_eq!(b.chunks(4).filter(|p| p[0] == 9).count(), 1);
}

#[test]
fn line_clipped_off_frame() {
    let mut b = black_frame();
    transform2d::raster::line((-3, 0), (2, 0), Color::new(255, 0, 0, 255), &mut b);
    assert_eq!(b.chunks(4).filter(|p| p[0] == 255).count(), 3);
}

#[test]
fn center_of_square() {
    assert_eq!(square().get_center(), px(150, 150));
}

#[test]
fn scale_then_rotate_scenario() {
    let mut f = square();
    f.scale(2 * ONE, 2 * ONE);
    assert_eq!(
        coords(&f),
        vec![
            (50 * ONE, 50 * ONE),
            (50 * ONE, 250 * ONE),
            (250 * ONE, 250 * ONE),
            (250 * ONE, 50 * ONE)
        ]
    );
    let a = std::f64::consts::FRAC_PI_4;
    f.rotate(fixed(a.cos()), fixed(a.sin()), NO_VERTEX);
    let expected = [(-100.0f64, -100.0f64), (-100.0, 100.0), (100.0, 100.0), (100.0, -100.0)];
    for (i, (ex, ey)) in expected.iter().enumerate() {
        let v = f.vertex(i);
        let dx = v.x as f64 / ONE as f64 - 150.0;
        let dy = v.y as f64 / ONE as f64 - 150.0;
        let r = (dx * dx + dy * dy).sqrt();
        assert!((r - 100.0 * 2f64.sqrt()).abs() < 1e-3, "radius {}", r);
        let (wx, wy) = (ex * a.cos() - ey * a.sin(), ex * a.sin() + ey * a.cos());
        assert!((dx - wx).abs() < 1e-3 && (dy - wy).abs() < 1e-3, "at ({}, {})", dx, dy);
        let want = ey.atan2(*ex) + a;
        let got = dy.atan2(dx);
        let diff = (got - want).rem_euclid(2.0 * std::f64::consts::PI);
        assert!(diff < 1e-3 || diff > 2.0 * std::f64::consts::PI - 1e-3);
    }
}

#[test]
fn scale_keeps_centroid() {
    let mut f = square();
    f.scale(3 * ONE, ONE / 2);
    assert_eq!(f.get_center(), px(150, 150));
}

#[test]
fn rotate_by_nothing_is_identity() {
    let mut f = Figure::new(vec![Vertex::new(17, 99), Vertex::new(-500, 3), Vertex::new(1234, -77)]);
    let before = coords(&f);
    f.rotate(ONE, 0, NO_VERTEX);
    assert_eq!(coords(&f), before);
    f.rotate(ONE, 0, 1);
    assert_eq!(coords(&f), before);
}

#[test]
fn rotate_full_turn_is_identity() {
    let mut f = square();
    let before = coords(&f);
    let a = 2.0 * std::f64::consts::PI;
    f.rotate(fixed(a.cos()), fixed(a.sin()), NO_VERTEX);
    assert_eq!(coords(&f), before);
}

#[test]
fn rotate_about_vertex() {
    let mut f = square();
    f.rotate(0, ONE, 0);
    assert_eq!(coords(&f)[0], (100 * ONE, 100 * ONE));
    assert_eq!(coords(&f)[2], (0, 200 * ONE));
}

#[test]
fn rotate_pivot_out_of_range_uses_centroid() {
    let mut f = square();
    let mut g = square();
    f.rotate(0, ONE, 9);
    g.rotate(0, ONE, NO_VERTEX);
    assert_eq!(coords(&f), coords(&g));
}

#[test]
fn translate_is_additive() {
    let mut f = square();
    let mut g = square();
    f.translate(3 * ONE, -2 * ONE);
    f.translate(7, 11 * ONE);
    g.translate(3 * ONE + 7, 9 * ONE);
    assert_eq!(coords(&f), coords(&g));
    assert_eq!(coords(&g)[0], (103 * ONE + 7, 109 * ONE));
}

#[test]
fn empty_figure_transforms_are_no_ops() {
    let mut f = Figure::new(vec![]);
    f.scale(2 * ONE, 2 * ONE);
    f.rotate(0, ONE, NO_VERTEX);
    f.translate(ONE, ONE);
    f.pop(&vec![]);
    assert_eq!(f.len(), 0);
    assert_eq!(f.get_vertex((10, 10)), NO_VERTEX);
}

#[test]
fn push_makes_regular_polygon() {
    let mut f = square();
    f.push(Vertex::new(0, 0), &ring(5, 100.0));
    assert_eq!(f.len(), 5);
    for i in 0..5 {
        let v = f.vertex(i);
        let dx = v.x as f64 / ONE as f64 - 150.0;
        let dy = v.y as f64 / ONE as f64 - 150.0;
        assert!(((dx * dx + dy * dy).sqrt() - 100.0).abs() < 0.01);
        let angle = dy.atan2(dx).rem_euclid(2.0 * std::f64::consts::PI);
        let want = i as f64 * 2.0 * std::f64::consts::PI / 5.0;
        assert!((angle - want).abs() < 1e-3);
    }
    assert_eq!(f.vertex(0), px(250, 150));
}

#[test]
fn push_on_empty_centers_on_vertex() {
    let mut f = Figure::new(vec![]);
    f.push(px(40, 60), &ring(1, 100.0));
    assert_eq!(coords(&f), vec![(140 * ONE, 60 * ONE)]);
}

#[test]
fn pop_makes_smaller_regular_polygon() {
    let mut f = square();
    f.pop(&ring(3, 100.0));
    assert_eq!(f.len(), 3);
    // centroid of (100,100), (100,200), (200,200)
    let c = Vertex::new((400 * ONE).div_euclid(3), (500 * ONE).div_euclid(3));
    assert_eq!(f.vertex(0), Vertex::new(c.x + 100 * ONE, c.y));
}

#[test]
fn pop_single_vertex_is_no_op() {
    let mut f = Figure::new(vec![px(1, 2)]);
    f.pop(&vec![]);
    assert_eq!(coords(&f), vec![(ONE, 2 * ONE)]);
}

#[test]
fn hit_test_sentinel_near_centroid() {
    let f = square();
    assert_eq!(f.get_vertex((150, 150)), NO_VERTEX);
    assert_eq!(f.get_vertex((140, 160)), NO_VERTEX);
}

#[test]
fn hit_test_nearest_vertex() {
    let f = square();
    assert_eq!(f.get_vertex((95, 90)), 0);
    assert_eq!(f.get_vertex((190, 210)), 2);
    assert_eq!(f.get_vertex((230, 80)), 3);
}

#[test]
fn hit_test_tie_lowest_index() {
    let f = Figure::new(vec![px(0, 0), px(10, 0), px(0, 100), px(10, 100)]);
    // (5, 0) is equally near vertices 0 and 1
    assert_eq!(f.get_vertex((5, 0)), 0);
}

#[test]
fn draw_square_outline() {
    let mut b = black_frame();
    let red = Color::new(255, 0, 0, 255);
    square().draw(red, &mut b);
    for k in 100..=200 {
        assert_eq!(pixel(&b, k, 100), [255, 0, 0, 255]);
        assert_eq!(pixel(&b, k, 200), [255, 0, 0, 255]);
        assert_eq!(pixel(&b, 100, k), [255, 0, 0, 255]);
        assert_eq!(pixel(&b, 200, k), [255, 0, 0, 255]);
    }
    assert_eq!(pixel(&b, 150, 150), [0, 0, 0, 255]);
    assert_eq!(b.chunks(4).filter(|p| p[0] == 255).count(), 400);
}

#[test]
fn draw_is_deterministic() {
    let mut f = square();
    f.rotate(fixed(0.3f64.cos()), fixed(0.3f64.sin()), NO_VERTEX);
    let red = Color::new(255, 0, 0, 255);
    let mut b1 = black_frame();
    let mut b2 = vec![200u8; FRAME_LEN];
    clear(&mut b2);
    f.draw(red, &mut b1);
    f.draw(red, &mut b2);
    assert_eq!(b1, b2);
}

#[test]
fn transforms_out_of_bounds_change_nothing() {
    let mut f = Figure::new(vec![px(0, 0), px(1_000_000, 0), px(0, 1_000_000)]);
    let before = coords(&f);
    assert!(!f.scale(4 * ONE, 4 * ONE));
    assert_eq!(coords(&f), before);
    assert!(!f.translate(100_000 * ONE, 0));
    assert_eq!(coords(&f), before);
    assert!(f.translate(ONE, 0));
    assert_eq!(coords(&f)[1], (1_000_001 * ONE, 0));
    assert!(f.scale(ONE, ONE));
}

#[test]
fn push_out_of_bounds_changes_nothing() {
    let mut f = square();
    let before = coords(&f);
    let far = vec![Vertex::new(i64::MAX, 0); 5];
    assert!(!f.push(Vertex::new(0, 0), &far));
    assert_eq!(coords(&f), before);
    let mut g = square();
    assert!(!g.pop(&vec![Vertex::new(0, 2 * COORD_LIMIT); 3]));
    assert_eq!(coords(&g), before);
}

#[test]
fn closing_edge_runs_last_to_first() {
    let mut b = black_frame();
    let f = Figure::new(vec![px(0, 0), px(2, 1)]);
    f.draw(Color::new(255, 0, 0, 255), &mut b);
    // first edge (0,0) -> (2,1) takes (1,0); the closing edge (2,1) -> (0,0) takes (1,1)
    assert_eq!(pixel(&b, 1, 0), [255, 0, 0, 255]);
    assert_eq!(pixel(&b, 1, 1), [255, 0, 0, 255]);
    assert_eq!(b.chunks(4).filter(|p| p[0] == 255).count(), 4);
}

#[test]
fn pushed_vertices_sit_at_ring_radius() {
    let mut f = square();
    let r = ring(6, 100.0);
    assert!(f.push(Vertex::new(0, 0), &r));
    let c = px(150, 150);
    for i in 0..6 {
        let v = f.vertex(i);
        let (dx, dy) = ((v.x - c.x) as i128, (v.y - c.y) as i128);
        let (rx, ry) = (r[i].x as i128, r[i].y as i128);
        assert_eq!(dx * dx + dy * dy, rx * rx + ry * ry);
    }
}

#[test]
fn rotate_moves_centroid_by_at_most_a_few_units() {
    let mut f = Figure::new(vec![px(0, 0), px(7, 1), px(2, 9)]);
    let before = f.get_center();
    let a = 0.5f64;
    let (c, s) = (fixed(a.cos()), fixed(a.sin()));
    assert!(f.rotate(c, s, NO_VERTEX));
    let after = f.get_center();
    let bound = (c.abs() + s.abs()) / ONE + 2;
    assert!((after.x - before.x).abs() <= bound);
    assert!((after.y - before.y).abs() <= bound);
}
