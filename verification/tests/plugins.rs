use parser::plugins::blur::{apply_blur_logic, blur_image, parse_blur_params, BlurParams};
use parser::plugins::mirror::{apply_mirror_logic, mirror_image, parse_mirror_params, MirrorParams};

const RGBA_BYTES_PER_PIXEL: u32 = 4;
const G_OFFSET: usize = 1;
const B_OFFSET: usize = 2;
const A_OFFSET: usize = 3;

const WIDTH: usize = 3;
const HEIGHT: usize = 3;
const RGBA_3X3_UNIFORM: [u8; WIDTH * HEIGHT * RGBA_BYTES_PER_PIXEL as usize] = [
    120, 120, 120, 120, 120, 120, 120, 120, 120, 120, 120, 120, 120, 120, 120, 120, 120, 120, 120,
    120, 120, 120, 120, 120, 120, 120, 120, 120, 120, 120, 120, 120, 120, 120, 120, 120,
];

const RGBA_3X3_BRIGHT_CENTER: [u8; WIDTH * HEIGHT * RGBA_BYTES_PER_PIXEL as usize] = [
    0, 0, 0, 255, 0, 0, 0, 255, 0, 0, 0, 255, 0, 0, 0, 255, 255, 255, 255, 255, 0, 0, 0, 255, 0, 0,
    0, 255, 0, 0, 0, 255, 0, 0, 0, 255,
];

#[test]
fn test_parse_params_1_3() {
    let params_str = "radius=1,iterations=3";
    let expected_params = BlurParams { radius: 1, iterations: 3 };
    assert_eq!(parse_blur_params(params_str).unwrap(), expected_params);
}

#[test]
fn test_parse_params_radius_only() {
    let params_str = "radius=3";
    let expected_params = BlurParams { radius: 3, iterations: 1 };
    assert_eq!(parse_blur_params(params_str).unwrap(), expected_params);
}

#[test]
fn test_parse_params_iterations_only() {
    let params_str = "iterations=3";
    let expected_params = BlurParams { radius: 1, iterations: 3 };
    assert_eq!(parse_blur_params(params_str).unwrap(), expected_params);
}

#[test]
fn test_parse_params_defaults_missing_keys() {
    let params_str = "";
    let expected_params = BlurParams { radius: 1, iterations: 1 };
    assert_eq!(parse_blur_params(params_str).unwrap(), expected_params);
}

#[test]
fn test_parse_params_unknown_key() {
    let params_str = "radius=1,unknown_key=some_value,iterations=3";
    let _expected = BlurParams { radius: 1, iterations: 3 };
    assert_eq!(parse_blur_params(params_str).is_err(), true);
    assert_eq!(
        parse_blur_params(params_str).unwrap_err(),
        "Неподдерживаемый параметр 'unknown_key'".to_string()
    );
}

#[test]
fn test_parse_params_invalid_value() {
    let params_str = "radius=wrong_value";
    assert!(parse_blur_params(params_str).is_err());
}

#[test]
fn test_parse_params_invalid_format() {
    let params_str = "radius:true";
    assert!(parse_blur_params(params_str).is_err());
}

#[test]
fn test_apply_blur_logic_uniform_no_change() {
    let mut rgba_data: Vec<u8> = RGBA_3X3_UNIFORM.to_vec();
    let blur_params = BlurParams { radius: 2, iterations: 3 };
    apply_blur_logic(&mut rgba_data, WIDTH as u32, HEIGHT as u32, blur_params);
    assert_eq!(rgba_data, RGBA_3X3_UNIFORM);
}

#[test]
fn test_apply_blur_logic_center_affects_area() {
    let mut rgba_data: Vec<u8> = RGBA_3X3_BRIGHT_CENTER.to_vec();
    let blur_params = BlurParams { radius: 2, iterations: 3 };
    apply_blur_logic(&mut rgba_data, WIDTH as u32, HEIGHT as u32, blur_params);
    for row in 0..HEIGHT {
        for column in 0..WIDTH {
            let cur_pixel_pos = (row * WIDTH + column) * RGBA_BYTES_PER_PIXEL as usize;
            assert_ne!(rgba_data[cur_pixel_pos], 0);
            assert_ne!(rgba_data[cur_pixel_pos + G_OFFSET], 0);
            assert_ne!(rgba_data[cur_pixel_pos + B_OFFSET], 0);
            assert_eq!(rgba_data[cur_pixel_pos + A_OFFSET], 255);
        }
    }
}

#[test]
fn test_parse_params_all_true() {
    let params_str = "horizontal=true,vertical=true";
    let expected_params = MirrorParams { horizontal: true, vertical: true };
    assert_eq!(parse_mirror_params(params_str).unwrap(), expected_params);
}

#[test]
fn blur_messages_name_the_piece() {
    assert_eq!(
        parse_blur_params("radius=wrong_value").unwrap_err(),
        "Неверное значение для пары 'radius': 'wrong_value'".to_string()
    );
    assert_eq!(
        parse_blur_params("radius:true").unwrap_err(),
        "Неверный формат [ключ]=[значение], строка 'radius:true'".to_string()
    );
    assert_eq!(
        parse_blur_params(" radius = 2 , , iterations=+4 ").unwrap(),
        BlurParams { radius: 2, iterations: 4 }
    );
    assert_eq!(
        parse_blur_params("radius=1,radius=5").unwrap(),
        BlurParams { radius: 5, iterations: 1 }
    );
    assert!(parse_blur_params("radius=4294967296").is_err());
    assert!(parse_blur_params("radius=-1").is_err());
    assert!(parse_blur_params("radius=1=2").is_err());
}

#[test]
fn blur_first_error_wins() {
    assert_eq!(
        parse_blur_params("size=3,radius:1").unwrap_err(),
        "Неподдерживаемый параметр 'size'".to_string()
    );
}

#[test]
fn blur_rounds_half_up() {
    // A 2x1 image, radius 1: both pixels average the two values.
    let mut data: Vec<u8> = vec![0, 1, 2, 255, 1, 2, 4, 255];
    apply_blur_logic(&mut data, 2, 1, BlurParams { radius: 1, iterations: 1 });
    // (0+1)/2 = 0.5 -> 1, (1+2)/2 = 1.5 -> 2, (2+4)/2 = 3
    assert_eq!(data, vec![1, 2, 3, 255, 1, 2, 3, 255]);
}

#[test]
fn blur_exact_values_on_bright_center() {
    let mut data: Vec<u8> = RGBA_3X3_BRIGHT_CENTER.to_vec();
    apply_blur_logic(&mut data, 3, 3, BlurParams { radius: 1, iterations: 1 });
    // Corners see 4 pixels: 255/4 = 63.75 -> 64; edges see 6: 42.5 -> 43;
    // the center sees all 9: 28.33 -> 28.
    let expected_red = [64, 43, 64, 43, 28, 43, 64, 43, 64];
    for p in 0..9 {
        assert_eq!(data[p * 4], expected_red[p]);
        assert_eq!(data[p * 4 + 3], 255);
    }
}

#[test]
fn blur_leaves_bytes_past_the_image() {
    let mut data: Vec<u8> = vec![10, 10, 10, 10, 30, 30, 30, 30, 7, 7];
    apply_blur_logic(&mut data, 2, 1, BlurParams { radius: 1, iterations: 2 });
    assert_eq!(data, vec![20, 20, 20, 20, 20, 20, 20, 20, 7, 7]);
}

#[test]
fn blur_zero_iterations_changes_nothing() {
    let mut data: Vec<u8> = RGBA_3X3_BRIGHT_CENTER.to_vec();
    apply_blur_logic(&mut data, 3, 3, BlurParams { radius: 5, iterations: 0 });
    assert_eq!(data, RGBA_3X3_BRIGHT_CENTER.to_vec());
}

#[test]
fn mirror_params_defaults_and_errors() {
    assert_eq!(
        parse_mirror_params("").unwrap(),
        MirrorParams { horizontal: false, vertical: false }
    );
    assert_eq!(
        parse_mirror_params("vertical=true").unwrap(),
        MirrorParams { horizontal: false, vertical: true }
    );
    assert_eq!(
        parse_mirror_params("horizontal=yes").unwrap_err(),
        "Неверное значение для пары 'horizontal': 'yes'".to_string()
    );
    assert_eq!(
        parse_mirror_params("diagonal=true").unwrap_err(),
        "Неподдерживаемый параметр 'diagonal'".to_string()
    );
    assert!(parse_mirror_params("horizontal").is_err());
    assert!(parse_mirror_params("horizontal=True").is_err());
}

fn image_2x2() -> Vec<u8> {
    vec![1, 1, 1, 1, 2, 2, 2, 2, 3, 3, 3, 3, 4, 4, 4, 4]
}

#[test]
fn mirror_flips() {
    let mut data = image_2x2();
    apply_mirror_logic(&mut data, 2, 2, MirrorParams { horizontal: true, vertical: false });
    assert_eq!(data, vec![2, 2, 2, 2, 1, 1, 1, 1, 4, 4, 4, 4, 3, 3, 3, 3]);

    let mut data = image_2x2();
    apply_mirror_logic(&mut data, 2, 2, MirrorParams { horizontal: false, vertical: true });
    assert_eq!(data, vec![3, 3, 3, 3, 4, 4, 4, 4, 1, 1, 1, 1, 2, 2, 2, 2]);

    let mut data = image_2x2();
    apply_mirror_logic(&mut data, 2, 2, MirrorParams { horizontal: true, vertical: true });
    assert_eq!(data, vec![4, 4, 4, 4, 3, 3, 3, 3, 2, 2, 2, 2, 1, 1, 1, 1]);
}

#[test]
fn mirror_twice_is_identity() {
    let start_image: Vec<u8> = (0..60).collect();
    let mut data = start_image.clone();
    let params = || MirrorParams { horizontal: true, vertical: true };
    apply_mirror_logic(&mut data, 5, 3, params());
    assert_ne!(data, start_image);
    apply_mirror_logic(&mut data, 5, 3, params());
    assert_eq!(data, start_image);
}

#[test]
fn mirror_odd_width_keeps_middle_column() {
    let mut data: Vec<u8> = vec![1, 1, 1, 1, 2, 2, 2, 2, 3, 3, 3, 3];
    apply_mirror_logic(&mut data, 3, 1, MirrorParams { horizontal: true, vertical: false });
    assert_eq!(data, vec![3, 3, 3, 3, 2, 2, 2, 2, 1, 1, 1, 1]);
}

#[test]
fn nothing_to_do_leaves_any_buffer() {
    let mut data: Vec<u8> = vec![1, 2, 3];
    apply_blur_logic(&mut data, 100000, 100000, BlurParams { radius: 1, iterations: 0 });
    assert_eq!(data, vec![1, 2, 3]);
    apply_mirror_logic(&mut data, 1, 4000000, MirrorParams { horizontal: true, vertical: false });
    assert_eq!(data, vec![1, 2, 3]);
    apply_mirror_logic(&mut data, 4000000, 1, MirrorParams { horizontal: false, vertical: true });
    assert_eq!(data, vec![1, 2, 3]);
}

#[test]
fn blur_image_parses_then_blurs() {
    let mut data: Vec<u8> = RGBA_3X3_BRIGHT_CENTER.to_vec();
    assert_eq!(blur_image(3, 3, &mut data, "radius=1,iterations=1"), Ok(()));
    let mut expected: Vec<u8> = RGBA_3X3_BRIGHT_CENTER.to_vec();
    apply_blur_logic(&mut expected, 3, 3, BlurParams { radius: 1, iterations: 1 });
    assert_eq!(data, expected);
    assert_eq!(data[4 * 4], 28);
}

#[test]
fn blur_image_bad_params_leave_the_image() {
    let mut data: Vec<u8> = RGBA_3X3_BRIGHT_CENTER.to_vec();
    assert_eq!(
        blur_image(3, 3, &mut data, "size=3"),
        Err("Неподдерживаемый параметр 'size'".to_string())
    );
    assert_eq!(data, RGBA_3X3_BRIGHT_CENTER.to_vec());
}

#[test]
fn blur_radius_zero_changes_nothing() {
    let mut data: Vec<u8> = RGBA_3X3_BRIGHT_CENTER.to_vec();
    assert_eq!(blur_image(3, 3, &mut data, "radius=0,iterations=7"), Ok(()));
    assert_eq!(data, RGBA_3X3_BRIGHT_CENTER.to_vec());
}

#[test]
fn blur_stays_between_smallest_and_largest() {
    let mut data: Vec<u8> = (0..36u8).map(|b| b.wrapping_mul(37)).collect();
    let before = data.clone();
    apply_blur_logic(&mut data, 3, 3, BlurParams { radius: 2, iterations: 3 });
    for c in 0..4 {
        let lo = (0..9).map(|p| before[p * 4 + c]).min().unwrap();
        let hi = (0..9).map(|p| before[p * 4 + c]).max().unwrap();
        for p in 0..9 {
            assert!(lo <= data[p * 4 + c] && data[p * 4 + c] <= hi);
        }
    }
}

#[test]
fn mirror_image_parses_then_flips() {
    let mut data = image_2x2();
    assert_eq!(mirror_image(2, 2, &mut data, "horizontal=true"), Ok(()));
    assert_eq!(data, vec![2, 2, 2, 2, 1, 1, 1, 1, 4, 4, 4, 4, 3, 3, 3, 3]);

    let mut data = image_2x2();
    assert_eq!(
        mirror_image(2, 2, &mut data, "horizontal=yes"),
        Err("Неверное значение для пары 'horizontal': 'yes'".to_string())
    );
    assert_eq!(data, image_2x2());
}
