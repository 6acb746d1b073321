use fractal_generator::escape::escape_time;

fn mandelbrot(cr: f64, ci: f64, max: u32) -> (u32, (f64, f64)) {
    escape_time(
        (0.0f64, 0.0f64),
        max,
        |z: (f64, f64)| z.0 * z.0 + z.1 * z.1 < 4.0,
        move |z: (f64, f64)| (z.0 * z.0 - z.1 * z.1 + cr, 2.0 * z.0 * z.1 + ci),
    )
}

#[test]
fn interior_point_reaches_cap() {
    let (n, _) = mandelbrot(-0.5, 0.0, 100);
    assert_eq!(n, 100);
}

#[test]
fn two_escapes_after_one_step() {
    let (n, z) = mandelbrot(2.0, 0.0, 100);
    assert_eq!(n, 1);
    assert_eq!(z, (2.0, 0.0));
}

#[test]
fn count_never_exceeds_cap() {
    for k in 0..50 {
        let c = -2.0 + 0.1 * k as f64;
        let (n, _) = mandelbrot(c, 0.3, 37);
        assert!(n <= 37);
    }
    let (n, z) = mandelbrot(0.0, 0.0, 0);
    assert_eq!(n, 0);
    assert_eq!(z, (0.0, 0.0));
}

#[test]
fn stops_when_test_fails_at_start() {
    let (n, z) = escape_time(5u32, 10, |z: u32| z < 5, |z: u32| z + 1);
    assert_eq!((n, z), (0, 5));
    let (n, z) = escape_time(0u32, 10, |z: u32| z < 3, |z: u32| z + 1);
    assert_eq!((n, z), (3, 3));
}
