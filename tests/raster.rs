use fractal_generator::raster::{accept_render, blank_buffer, assemble_buffer, grid_size, QualityLevel};

#[test]
fn quality_scales() {
    assert_eq!(QualityLevel::Low.scale(), 4);
    assert_eq!(QualityLevel::Medium.scale(), 2);
    assert_eq!(QualityLevel::High.scale(), 1);
    assert_eq!(grid_size(800, 600, 4), (200, 150));
    assert_eq!(grid_size(5, 3, 2), (2, 1));
}

#[test]
fn full_resolution_copies_colors() {
    let colors = vec![(1, 2, 3), (4, 5, 6)];
    let out = assemble_buffer(2, 1, 1, &colors);
    assert_eq!(out, vec![1, 2, 3, 255, 4, 5, 6, 255]);
}

#[test]
fn blocks_are_replicated() {
    let colors = vec![(10, 20, 30), (40, 50, 60), (70, 80, 90), (100, 110, 120)];
    let out = assemble_buffer(4, 4, 2, &colors);
    assert_eq!(out.len(), 4 * 4 * 4);
    let pixel = |x: usize, y: usize| {
        let i = (y * 4 + x) * 4;
        (out[i], out[i + 1], out[i + 2], out[i + 3])
    };
    assert_eq!(pixel(0, 0), (10, 20, 30, 255));
    assert_eq!(pixel(1, 1), (10, 20, 30, 255));
    assert_eq!(pixel(2, 0), (40, 50, 60, 255));
    assert_eq!(pixel(3, 1), (40, 50, 60, 255));
    assert_eq!(pixel(0, 2), (70, 80, 90, 255));
    assert_eq!(pixel(3, 3), (100, 110, 120, 255));
}

#[test]
fn partial_blocks_stay_blank() {
    let colors = vec![(9, 9, 9), (8, 8, 8)];
    let out = assemble_buffer(5, 3, 2, &colors);
    assert_eq!(out.len(), 5 * 3 * 4);
    let pixel = |x: usize, y: usize| {
        let i = (y * 5 + x) * 4;
        (out[i], out[i + 1], out[i + 2], out[i + 3])
    };
    assert_eq!(pixel(1, 1), (9, 9, 9, 255));
    assert_eq!(pixel(3, 0), (8, 8, 8, 255));
    assert_eq!(pixel(4, 0), (0, 0, 0, 0));
    assert_eq!(pixel(0, 2), (0, 0, 0, 0));
}

#[test]
fn empty_image_is_empty_buffer() {
    let out = assemble_buffer(0, 7, 1, &Vec::new());
    assert!(out.is_empty());
}

#[test]
fn mismatched_render_is_discarded() {
    let mut shown = vec![1u8; 8];
    assert!(!accept_render(&mut shown, vec![2u8; 12], 2, 1));
    assert_eq!(shown, vec![1u8; 8]);
    assert!(accept_render(&mut shown, vec![3u8; 16], 2, 2));
    assert_eq!(shown, vec![3u8; 16]);
    assert!(!accept_render(&mut shown, vec![], usize::MAX, 2));
    assert_eq!(shown, vec![3u8; 16]);
}

#[test]
fn rejected_render_blanks_a_stale_buffer() {
    let mut shown: Vec<u8> = Vec::new();
    assert!(!accept_render(&mut shown, vec![9u8; 3], 1, 1));
    assert_eq!(shown, vec![0u8; 4]);
    let mut shown = vec![7u8; 8];
    assert!(!accept_render(&mut shown, vec![9u8; 8], 3, 1));
    assert_eq!(shown, vec![0u8; 12]);
}

#[test]
fn blank_buffer_is_zero() {
    assert_eq!(blank_buffer(5), vec![0u8; 5]);
    assert!(blank_buffer(0).is_empty());
}
