use scop::model::{bounding_box, widest, Bounds, NormalizationError, Position};
use scop::single::Single;

fn single(x: f32) -> Single {
    Single::from_bits(x.to_bits())
}

fn number(s: Single) -> f32 {
    f32::from_bits(s.to_bits())
}

fn position(x: f32, y: f32, z: f32) -> Position {
    Position { x: single(x), y: single(y), z: single(z) }
}

fn low(b: &Bounds) -> (f32, f32, f32) {
    (number(b.min.x), number(b.min.y), number(b.min.z))
}

fn high(b: &Bounds) -> (f32, f32, f32) {
    (number(b.max.x), number(b.max.y), number(b.max.z))
}

#[test]
fn empty_model_has_no_box() {
    assert_eq!(bounding_box(&vec![]), Err(NormalizationError::EmptyModel));
}

#[test]
fn box_of_one_vertex_is_the_vertex() {
    let b = bounding_box(&vec![position(1.5, -2.0, 3.25)]).unwrap();
    assert_eq!(low(&b), (1.5, -2.0, 3.25));
    assert_eq!(high(&b), (1.5, -2.0, 3.25));
}

#[test]
fn box_reaches_from_lowest_to_highest() {
    let vertices = vec![
        position(0.0, 0.0, 0.0),
        position(2.0, 0.0, 0.0),
        position(0.0, 4.0, 0.0),
        position(0.0, 0.0, 0.0),
    ];
    let b = bounding_box(&vertices).unwrap();
    assert_eq!(low(&b), (0.0, 0.0, 0.0));
    assert_eq!(high(&b), (2.0, 4.0, 0.0));
}

#[test]
fn fitted_box_is_centred_with_longest_half_side_one() {
    let vertices = vec![
        position(0.0, 0.0, 0.0),
        position(2.0, 0.0, 0.0),
        position(0.0, 4.0, 0.0),
        position(0.0, 0.0, 0.0),
    ];
    let b = bounding_box(&vertices).unwrap();
    let (min, max) = (low(&b), high(&b));
    let half = ((max.0 - min.0) / 2.0, (max.1 - min.1) / 2.0, (max.2 - min.2) / 2.0);
    let extent = number(widest(single(half.0), single(half.1), single(half.2)));
    assert_eq!(extent, 2.0);
    let scale = 1.0 / extent;
    let centre = ((max.0 + min.0) / 2.0, (max.1 + min.1) / 2.0, (max.2 + min.2) / 2.0);
    assert_eq!(centre, (1.0, 2.0, 0.0));
    // scale * (corner - centre), for the two corners of the box
    let fit = |p: (f32, f32, f32)| {
        (scale * (p.0 - centre.0), scale * (p.1 - centre.1), scale * (p.2 - centre.2))
    };
    let (a, z) = (fit(min), fit(max));
    let near = |x: f32, y: f32| (x - y).abs() <= 1e-5;
    assert!(near(a.0, -0.5) && near(a.1, -1.0) && near(a.2, 0.0));
    assert!(near(z.0, 0.5) && near(z.1, 1.0) && near(z.2, 0.0));
    assert!(near(a.0 + z.0, 0.0) && near(a.1 + z.1, 0.0) && near(a.2 + z.2, 0.0));
    let longest = z.0.abs().max(z.1.abs()).max(z.2.abs());
    assert!(near(longest, 1.0));
    for v in &vertices {
        let p = fit((number(v.x), number(v.y), number(v.z)));
        assert!(p.0.abs() <= 1.0 && p.1.abs() <= 1.0 && p.2.abs() <= 1.0);
    }
}

#[test]
fn box_holds_every_vertex() {
    let mut seed: u32 = 7;
    let mut next = || {
        seed = seed.wrapping_mul(1664525).wrapping_add(1013904223);
        ((seed >> 8) as f32 / 65536.0) - 128.0
    };
    let vertices: Vec<Position> = (0..200).map(|_| position(next(), next(), next())).collect();
    let b = bounding_box(&vertices).unwrap();
    let xs: Vec<f32> = vertices.iter().map(|v| number(v.x)).collect();
    let ys: Vec<f32> = vertices.iter().map(|v| number(v.y)).collect();
    let zs: Vec<f32> = vertices.iter().map(|v| number(v.z)).collect();
    let least = |v: &Vec<f32>| v.iter().cloned().fold(f32::INFINITY, f32::min);
    let most = |v: &Vec<f32>| v.iter().cloned().fold(f32::NEG_INFINITY, f32::max);
    assert_eq!(low(&b), (least(&xs), least(&ys), least(&zs)));
    assert_eq!(high(&b), (most(&xs), most(&ys), most(&zs)));
}

#[test]
fn what_is_no_number_is_passed_over() {
    let vertices = vec![
        position(f32::NAN, 1.0, -1.0),
        position(3.0, f32::NAN, -2.0),
        position(-3.0, 5.0, f32::NAN),
    ];
    let b = bounding_box(&vertices).unwrap();
    assert_eq!(low(&b), (-3.0, 1.0, -2.0));
    assert_eq!(high(&b), (3.0, 5.0, -1.0));
}

#[test]
fn axis_without_a_number_keeps_the_starting_bounds() {
    let vertices = vec![position(f32::NAN, 0.0, 0.0), position(f32::NAN, 1.0, 0.0)];
    let b = bounding_box(&vertices).unwrap();
    assert_eq!(number(b.min.x), f32::MAX);
    assert_eq!(number(b.max.x), f32::MIN);
    assert_eq!((number(b.min.y), number(b.max.y)), (0.0, 1.0));
}

#[test]
fn infinities_are_bounds_too() {
    let vertices = vec![
        position(f32::INFINITY, f32::NEG_INFINITY, 0.0),
        position(1.0, 1.0, 0.0),
    ];
    let b = bounding_box(&vertices).unwrap();
    assert_eq!(number(b.max.x), f32::INFINITY);
    assert_eq!(number(b.min.x), 1.0);
    assert_eq!(number(b.min.y), f32::NEG_INFINITY);
    assert_eq!(number(b.max.y), 1.0);
    // the search for the highest starts at the smallest finite number
    let b = bounding_box(&vec![position(f32::NEG_INFINITY, f32::INFINITY, 0.0)]).unwrap();
    assert_eq!(number(b.max.x), f32::MIN);
    assert_eq!(number(b.min.x), f32::NEG_INFINITY);
    assert_eq!(number(b.min.y), f32::MAX);
    assert_eq!(number(b.max.y), f32::INFINITY);
}

#[test]
fn zeros_of_both_signs() {
    let b = bounding_box(&vec![position(0.0, -0.0, 0.0), position(-0.0, 0.0, 0.0)]).unwrap();
    assert_eq!(b.min.x.to_bits(), (-0.0f32).to_bits());
    assert_eq!(b.max.x.to_bits(), 0.0f32.to_bits());
    assert_eq!(b.min.y.to_bits(), (-0.0f32).to_bits());
    assert_eq!(b.max.y.to_bits(), 0.0f32.to_bits());
    assert_eq!(b.min.z.to_bits(), 0.0f32.to_bits());
    assert_eq!(b.max.z.to_bits(), 0.0f32.to_bits());
}

#[test]
fn widest_has_the_greatest_magnitude() {
    let w = |x: f32, y: f32, z: f32| number(widest(single(x), single(y), single(z)));
    assert_eq!(w(1.0, 2.0, 0.0), 2.0);
    assert_eq!(w(3.0, 2.0, 1.0), 3.0);
    assert_eq!(w(1.0, 2.0, 3.0), 3.0);
    assert_eq!(w(1.0, -2.0, 0.5), -2.0);
    assert_eq!(w(-4.0, 2.0, 3.0), -4.0);
    assert_eq!(w(0.0, 0.0, 0.0), 0.0);
    assert_eq!(w(1.0, f32::INFINITY, 2.0), f32::INFINITY);
}

#[test]
fn widest_of_equals_is_the_later_one() {
    let w = |x: f32, y: f32, z: f32| widest(single(x), single(y), single(z)).to_bits();
    assert_eq!(w(2.0, -2.0, 1.0), (-2.0f32).to_bits());
    assert_eq!(w(-2.0, 2.0, 1.0), 2.0f32.to_bits());
    assert_eq!(w(2.0, 1.0, -2.0), (-2.0f32).to_bits());
    assert_eq!(w(1.0, 2.0, -2.0), (-2.0f32).to_bits());
    assert_eq!(w(-0.0, 0.0, -0.0), (-0.0f32).to_bits());
    assert_eq!(w(1.0, 1.0, 1.0), 1.0f32.to_bits());
}

#[test]
fn widest_agrees_with_the_greatest_absolute_value() {
    let values = [0.0f32, -0.0, 0.5, -0.5, 1.0, -1.0, 2.0, 1e-30, -1e30, f32::MAX];
    for &x in &values {
        for &y in &values {
            for &z in &values {
                let all = [x, y, z];
                let wanted = all
                    .iter()
                    .max_by(|a, b| a.abs().partial_cmp(&b.abs()).unwrap())
                    .unwrap();
                let got = widest(single(x), single(y), single(z));
                assert_eq!(got.to_bits(), wanted.to_bits(), "{} {} {}", x, y, z);
            }
        }
    }
}

#[test]
fn what_is_no_number_counts_as_widest() {
    let got = widest(single(1.0), single(f32::NAN), single(f32::INFINITY));
    assert!(number(got).is_nan());
}
