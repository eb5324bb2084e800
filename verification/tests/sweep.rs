use julia_frames::escape::escape_time;
use julia_frames::raster::Raster;
use julia_frames::sweep::{frame_indices, sweep};
use num::Complex;

fn escape_radius(cx: f64, cy: f64) -> f64 {
    let c = (cx * cx + cy * cy).sqrt();
    (1.0 + (1.0 + 4.0 * c).sqrt()) / 2.0
}

fn julia_sweep(
    width: u32,
    height: u32,
    count: u32,
    step: f64,
    x0: f64,
    y0: f64,
) -> Vec<(u32, Raster)> {
    let scale_x = 3.0 / width as f64;
    let scale_y = 3.0 / height as f64;
    sweep(
        width,
        height,
        count,
        |i: u32| {
            let re = x0 + step * i as f64;
            (Complex::new(re, y0), escape_radius(re, y0))
        },
        |param: &(Complex<f64>, f64), x: u32, y: u32| {
            let (c, r) = *param;
            let cx = x as f64 * scale_x - 1.5;
            let cy = y as f64 * scale_y - 1.5;
            escape_time(
                Complex::new(cx, cy),
                |z: &Complex<f64>| z.norm() > r,
                |z: Complex<f64>| z * z + c,
            )
        },
    )
}

#[test]
fn frame_indices_count_up_from_zero() {
    assert_eq!(frame_indices(5), vec![0u32, 1, 2, 3, 4]);
    assert_eq!(frame_indices(1), vec![0u32]);
}

#[test]
fn no_frames_no_indices() {
    assert_eq!(frame_indices(0), Vec::<u32>::new());
}

#[test]
fn sweep_numbers_its_frames_without_gaps_or_duplicates() {
    let frames = sweep(2, 2, 6, |i: u32| i as u8, |c: &u8, _x: u32, _y: u32| *c);
    let mut seen = vec![0u32; 6];
    for (index, _) in frames.iter() {
        seen[*index as usize] += 1;
    }
    assert_eq!(frames.len(), 6);
    assert_eq!(seen, vec![1u32; 6]);
    let indices: Vec<u32> = frames.iter().map(|f| f.0).collect();
    assert_eq!(indices, vec![0u32, 1, 2, 3, 4, 5]);
}

#[test]
fn each_frame_is_rendered_under_its_own_parameter() {
    let frames = sweep(
        3,
        2,
        4,
        |i: u32| 10 * i as u8,
        |c: &u8, x: u32, y: u32| *c + (3 * y + x) as u8,
    );
    assert_eq!(frames[0].1.samples(), &vec![0u8, 1, 2, 3, 4, 5]);
    assert_eq!(frames[3].1.samples(), &vec![30u8, 31, 32, 33, 34, 35]);
}

#[test]
fn all_frames_have_the_same_size() {
    let frames = julia_sweep(8, 6, 3, 0.001, -0.87, 0.1);
    assert_eq!(frames.len(), 3);
    for (_, raster) in frames.iter() {
        assert_eq!(raster.width(), 8);
        assert_eq!(raster.height(), 6);
        assert_eq!(raster.samples().len(), 48);
    }
}

#[test]
fn empty_sweep() {
    let frames = julia_sweep(8, 6, 0, 0.001, -0.87, 0.1);
    assert!(frames.is_empty());
}

#[test]
fn sweep_without_step_repeats_one_raster() {
    let frames = julia_sweep(40, 30, 5, 0.0, -0.87, 0.1);
    assert_eq!(frames.len(), 5);
    for i in 0..5 {
        for j in 0..5 {
            assert_eq!(frames[i].1.samples(), frames[j].1.samples());
        }
    }
}

#[test]
fn sweep_with_a_step_changes_the_raster() {
    let frames = julia_sweep(40, 30, 2, 0.5, -0.87, 0.1);
    assert_ne!(frames[0].1.samples(), frames[1].1.samples());
}

#[test]
fn sweep_covers_every_index_for_the_default_run() {
    let frames = julia_sweep(4, 3, 100, 0.001, -0.87, 0.1);
    let indices: Vec<u32> = frames.iter().map(|f| f.0).collect();
    assert_eq!(indices, (0..100).collect::<Vec<u32>>());
}
