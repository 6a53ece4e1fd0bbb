//! Tests of the jump-flood schedule and the distance transform.

use tile_sdf::compile::compile_map;
use tile_sdf::compile::FAR_VALUE;
use tile_sdf::compile::SOLID_VALUE;
use tile_sdf::sdf::compile_scene;
use tile_sdf::sdf::jump_flood;
use tile_sdf::sdf::next_pow2;
use tile_sdf::sdf::num_passes;
use tile_sdf::sdf::pad_occluder;
use tile_sdf::sdf::params_for_pass;
use tile_sdf::sdf::workgroups_for;

#[test]
fn pass_count_for_width_256_is_8() {
    assert_eq!(num_passes(256), 8);
}

#[test]
fn jump_distances_halve_from_half_width_to_one() {
    let expected = [128u32, 64, 32, 16, 8, 4, 2, 1];
    for (i, &jump) in expected.iter().enumerate() {
        let p = params_for_pass(256, 100, i as u32);
        assert_eq!(p.jump_distance, jump);
        assert_eq!(p.run, i as i32);
        assert_eq!(p.texture_size, [256, 100]);
    }
}

#[test]
fn pass_counts_for_other_widths() {
    assert_eq!(num_passes(1), 0);
    assert_eq!(num_passes(2), 1);
    assert_eq!(num_passes(1024), 10);
}

#[test]
fn workgroup_counts_cover_the_extent() {
    assert_eq!(workgroups_for(0), 0);
    assert_eq!(workgroups_for(1), 1);
    assert_eq!(workgroups_for(16), 1);
    assert_eq!(workgroups_for(17), 2);
    assert_eq!(workgroups_for(256), 16);
    assert_eq!(workgroups_for(257), 17);
}

#[test]
fn next_pow2_rounds_up() {
    assert_eq!(next_pow2(0), Some(1));
    assert_eq!(next_pow2(1), Some(1));
    assert_eq!(next_pow2(2), Some(2));
    assert_eq!(next_pow2(3), Some(4));
    assert_eq!(next_pow2(48), Some(64));
    assert_eq!(next_pow2(144), Some(256));
    assert_eq!(next_pow2(0x8000_0000), Some(0x8000_0000));
    assert_eq!(next_pow2(0x8000_0001), None);
}

#[test]
fn single_seed_reaches_the_whole_image() {
    // One seed on an otherwise-far 16x16 buffer: after log2(16) = 4 passes
    // every pixel has been reached - no value is the far sentinel - and
    // every value is at most width - 1.
    let (w, h) = (16u32, 16u32);
    let (sx, sy) = (5usize, 7usize);
    let mut seed = vec![FAR_VALUE; (w * h) as usize];
    seed[sy * w as usize + sx] = 0;
    let field = jump_flood(seed, w, h);
    assert_eq!(field.len(), (w * h) as usize);
    for (k, &v) in field.iter().enumerate() {
        assert!(v < FAR_VALUE, "pixel {} was never reached", k);
        assert!(v <= (w - 1), "pixel {} overshoots the reach bound", k);
    }
    // The seed itself stays at cost zero, and a direct neighbor is reached
    // at the cost of the final unit jump.
    assert_eq!(field[sy * w as usize + sx], 0);
    assert_eq!(field[sy * w as usize + sx + 1], 1);
}

#[test]
fn padding_keeps_pixels_and_fills_far() {
    let compiled = compile_map("####\n#..#\n####").unwrap();
    let padded = pad_occluder(&compiled.occluder);
    assert!(padded.width.is_power_of_two());
    assert!(padded.width >= compiled.occluder.width);
    assert!(padded.width >= compiled.occluder.height);
    assert_eq!(padded.width, 256);
    assert_eq!(padded.height, compiled.occluder.height);
    // Pixels inside the unpadded image are preserved, padding is far.
    assert_eq!(padded.get(0, 0), SOLID_VALUE);
    assert_eq!(padded.get(compiled.occluder.width + 3, 5), FAR_VALUE);
}

#[test]
fn whole_pipeline_floods_a_small_room() {
    // A 4x3 room: the occluder is 192x144, padded to a 256-wide image, and
    // after all passes the seeds keep cost zero while every floor pixel
    // holds a small positive cost.
    let (compiled, field) = compile_scene("####\n#..#\n####").unwrap();
    assert_eq!(compiled.occluder.width, 192);
    assert_eq!(compiled.occluder.height, 144);
    assert_eq!(field.width, 256);
    assert_eq!(field.height, 144);
    assert_eq!(field.data.len(), 256 * 144);
    let w = field.width as usize;
    // A wall pixel is a seed at cost zero and stays there.
    assert_eq!(field.data[0], 0);
    // A floor pixel ends with a small positive cost.
    let mid = 60 * w + 60;
    assert!(field.data[mid] > 0);
    assert!(field.data[mid] < FAR_VALUE);
}
