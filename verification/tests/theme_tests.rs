use pdf_viewer::theme::{
    apply_theme_and_convert_bgra_to_rgba, brightness_sample_offsets, swap_red_blue, theme_name,
    theme_rgb, THEME_COUNT,
};

#[test]
fn theme_table() {
    assert_eq!(THEME_COUNT, 8);
    assert_eq!(theme_rgb(0), (255, 255, 255));
    assert_eq!(theme_rgb(2), (42, 37, 34));
    assert_eq!(theme_rgb(7), (30, 30, 46));
    assert_eq!(theme_name(0), "Original");
    assert_eq!(theme_name(3), "ChatGPT Cool");
    assert_eq!(theme_name(7), "Mocha Blue");
}

#[test]
fn swap_red_blue_swaps_whole_pixels_only() {
    let mut px = vec![1u8, 2, 3, 4, 5, 6, 7, 8, 9, 10];
    swap_red_blue(&mut px);
    assert_eq!(px, vec![3, 2, 1, 4, 7, 6, 5, 8, 9, 10]);
}

#[test]
fn converting_twice_restores_the_page() {
    let original: Vec<u8> = (0u8..23).collect();
    let mut px = original.clone();
    swap_red_blue(&mut px);
    assert_ne!(px, original);
    swap_red_blue(&mut px);
    assert_eq!(px, original);
}

#[test]
fn original_theme_only_reorders_channels() {
    let mut px = vec![10u8, 20, 30, 40, 50, 60, 70, 80];
    apply_theme_and_convert_bgra_to_rgba(&mut px, 0, false, |_bg, _px| (0, 0, 0));
    assert_eq!(px, vec![30, 20, 10, 40, 70, 60, 50, 80]);
}

#[test]
fn dark_page_only_reorders_channels() {
    let mut px = vec![10u8, 20, 30, 40];
    apply_theme_and_convert_bgra_to_rgba(&mut px, 5, true, |_bg, _px| (0, 0, 0));
    assert_eq!(px, vec![30, 20, 10, 40]);
}

#[test]
fn light_page_is_tinted_with_the_theme_background() {
    // pixel 1: b=10 g=20 r=30 a=40; pixel 2: b=1 g=2 r=3 a=4; 1 trailing byte
    let mut px = vec![10u8, 20, 30, 40, 1, 2, 3, 4, 99];
    apply_theme_and_convert_bgra_to_rgba(&mut px, 3, false, |bg, (r, g, b)| {
        (bg.0.wrapping_add(r), bg.1.wrapping_add(g), bg.2.wrapping_add(b))
    });
    // theme 3 is (52, 53, 65); output in RGBA order, alpha and tail kept
    assert_eq!(px, vec![82, 73, 75, 40, 55, 55, 66, 4, 99]);
}

#[test]
fn sample_grid_small_image() {
    // 4 x 2 image: every pixel is sampled, row by row
    assert_eq!(brightness_sample_offsets(32, 4, 2), vec![0, 4, 8, 12, 16, 20, 24, 28]);
    // a short buffer keeps only pixels whose first three bytes fit
    assert_eq!(brightness_sample_offsets(27, 4, 2), vec![0, 4, 8, 12, 16, 20, 24]);
    assert_eq!(brightness_sample_offsets(26, 4, 2), vec![0, 4, 8, 12, 16, 20]);
    assert_eq!(brightness_sample_offsets(2, 4, 2), Vec::<usize>::new());
}

#[test]
fn sample_grid_steps_by_a_twentieth() {
    // 40 x 1: every second column
    let offs = brightness_sample_offsets(40 * 4, 40, 1);
    assert_eq!(offs.len(), 20);
    assert_eq!(offs[0], 0);
    assert_eq!(offs[1], 8);
    assert_eq!(offs[19], 38 * 4);
    // 1 x 60: every third row
    let offs = brightness_sample_offsets(60 * 4, 1, 60);
    assert_eq!(offs, (0..20).map(|k| k * 3 * 4).collect::<Vec<usize>>());
}

#[test]
fn sample_grid_empty_image() {
    assert!(brightness_sample_offsets(100, 0, 5).is_empty());
    assert!(brightness_sample_offsets(100, 5, 0).is_empty());
}
