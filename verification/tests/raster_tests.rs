use std::num::NonZero;

use kiddo::{ImmutableKdTree, SquaredEuclidean};
use lidar_heightmap::global_constants::CHANNELS;
use lidar_heightmap::raster::{
    buffer_length, replicate_channels, sample_offset, sample_position, SamplePosition,
};

#[test]
fn buffer_holds_three_samples_per_pixel() {
    assert_eq!(CHANNELS, 3);
    assert_eq!(buffer_length(0), 0);
    assert_eq!(buffer_length(1), 3);
    assert_eq!(buffer_length(2), 12);
    assert_eq!(buffer_length(1024), 3_145_728);
    assert_eq!(buffer_length(u16::MAX), 12_884_508_675);
}

#[test]
fn pixels_lie_row_after_row() {
    assert_eq!(sample_offset(0, 0, 2), 0);
    assert_eq!(sample_offset(1, 0, 2), 3);
    assert_eq!(sample_offset(0, 1, 2), 6);
    assert_eq!(sample_offset(1, 1, 2), 9);
    assert_eq!(sample_offset(5, 7, 1024), 5 * 3 + 7 * 3072);
    assert_eq!(sample_offset(65534, 65534, u16::MAX), 12_884_508_675 - 3);
}

#[test]
fn pixel_positions_of_a_two_by_two_texture() {
    let at = |east: u64, north: u64| SamplePosition { east, east_steps: 6, north, north_steps: 2 };
    assert_eq!(sample_position(0, 2), at(0, 2));
    assert_eq!(sample_position(3, 2), at(3, 2));
    assert_eq!(sample_position(6, 2), at(0, 1));
    assert_eq!(sample_position(9, 2), at(3, 1));
}

#[test]
fn first_row_is_the_northern_edge() {
    for column in 0..8u16 {
        let position = sample_position(sample_offset(column, 0, 8), 8);
        assert_eq!(position.north, position.north_steps);
        assert_eq!(position.east, 3 * column as u64);
    }
    let last = sample_position(sample_offset(0, 7, 8), 8);
    assert_eq!((last.north, last.north_steps), (1, 8));
}

#[test]
fn spot_on_a_ten_unit_tile() {
    let spot = |column: u16, row: u16| {
        let p = sample_position(sample_offset(column, row, 2), 2);
        (
            p.east as f64 / p.east_steps as f64 * 10.0,
            p.north as f64 / p.north_steps as f64 * 10.0,
        )
    };
    assert_eq!(spot(0, 0), (0.0, 10.0));
    assert_eq!(spot(1, 0), (5.0, 10.0));
    assert_eq!(spot(0, 1), (0.0, 5.0));
    assert_eq!(spot(1, 1), (5.0, 5.0));
}

#[test]
fn position_of_a_sample_within_a_pixel() {
    assert_eq!(
        sample_position(4, 2),
        SamplePosition { east: 4, east_steps: 6, north: 2, north_steps: 2 }
    );
    assert_eq!(
        sample_position(11, 2),
        SamplePosition { east: 5, east_steps: 6, north: 1, north_steps: 2 }
    );
}

#[test]
fn offsets_and_positions_agree_on_every_pixel() {
    let resolution: u16 = 37;
    let mut expected: u64 = 0;
    for row in 0..resolution {
        for column in 0..resolution {
            let offset = sample_offset(column, row, resolution);
            assert_eq!(offset, expected);
            expected += 3;
            let position = sample_position(offset, resolution);
            assert_eq!(position.east, 3 * column as u64);
            assert_eq!(position.east_steps, 3 * resolution as u64);
            assert_eq!(position.north, (resolution - row) as u64);
            assert_eq!(position.north_steps, resolution as u64);
        }
    }
    assert_eq!(expected, buffer_length(resolution));
}

#[test]
fn each_height_fills_the_three_channels_of_its_pixel() {
    assert_eq!(replicate_channels(&vec![0.25f32, 0.5]), vec![0.25, 0.25, 0.25, 0.5, 0.5, 0.5]);
    assert_eq!(replicate_channels(&vec![7u8]), vec![7, 7, 7]);
    assert_eq!(replicate_channels(&Vec::<f32>::new()), Vec::<f32>::new());
}

#[test]
fn replicated_heights_lie_at_the_offsets_of_their_pixels() {
    let resolution: u16 = 4;
    let heights: Vec<u32> = (0..16).collect();
    let samples = replicate_channels(&heights);
    assert_eq!(samples.len() as u64, buffer_length(resolution));
    for row in 0..resolution {
        for column in 0..resolution {
            let offset = sample_offset(column, row, resolution) as usize;
            let height = (row * resolution + column) as u32;
            assert_eq!(&samples[offset..offset + 3], &[height, height, height]);
        }
    }
}

#[test]
fn heights_of_a_two_by_two_texture_come_from_nearest_points() {
    let cloud = [[0.0, 0.0, 0.0], [10.0, 0.0, 10.0], [0.0, 10.0, 10.0], [10.0, 10.0, 20.0]];
    let (lowest, highest) = (0.0f64, 20.0f64);
    let normalized: Vec<f64> =
        cloud.iter().map(|p| (p[2] - lowest) / (highest - lowest)).collect();
    let places: Vec<[f64; 2]> = cloud.iter().map(|p| [p[0], p[1]]).collect();
    let tree = ImmutableKdTree::<f64, 2>::new_from_slice(&places);
    let resolution: u16 = 2;

    let mut heights: Vec<f32> = Vec::new();
    for offset in (0..buffer_length(resolution)).step_by(CHANNELS) {
        let spot = sample_position(offset, resolution);
        let x = spot.east as f64 / spot.east_steps as f64 * 10.0;
        let y = spot.north as f64 / spot.north_steps as f64 * 10.0;
        let nearest = tree.nearest_n::<SquaredEuclidean>(&[x, y], NonZero::new(1).unwrap());
        assert_eq!(nearest.len(), 1);
        let picked = nearest[0].item as usize;
        let distance = |p: &[f64; 2]| (p[0] - x).powi(2) + (p[1] - y).powi(2);
        assert!(places.iter().all(|p| distance(&places[picked]) <= distance(p)));
        heights.push(normalized[picked] as f32);
    }

    assert_eq!(heights.len(), 4);
    assert_eq!(heights[0], 0.5);
    assert!(heights[1] == 0.5 || heights[1] == 1.0);
    assert!(heights[2] == 0.0 || heights[2] == 0.5);

    let samples = replicate_channels(&heights);
    assert_eq!(samples.len(), 12);
    for row in 0..resolution {
        for column in 0..resolution {
            let offset = sample_offset(column, row, resolution) as usize;
            let height = heights[(row * resolution + column) as usize];
            assert_eq!(&samples[offset..offset + 3], &[height, height, height]);
        }
    }
}
