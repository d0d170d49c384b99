use lidar_heightmap::config::{read_config_from_cli, Cli, Config};
use lidar_heightmap::errors::CommandlineParsingErrors;
use lidar_heightmap::point::Point;

fn cli(points: &[&str], radius: &[u8], blocks: &[u8]) -> Cli {
    Cli {
        points: points.iter().map(|p| p.to_string()).collect(),
        radius: radius.to_vec(),
        possible_blocks: blocks.to_vec(),
        blur_kernel_size: 10,
        sample_size: 3,
        resolution: 1024,
        destination_folder: String::from("textures"),
    }
}

#[test]
fn read_config_pairs_points_with_radii() {
    let config = read_config_from_cli(&cli(&["(462, 101)", "(3,4)"], &[2, 0], &[11, 12])).unwrap();
    assert_eq!(config.core_points.len(), 2);
    assert_eq!(config.core_points[0].center, Point(462, 101));
    assert_eq!(config.core_points[0].radius, 2);
    assert_eq!(config.core_points[1].center, Point(3, 4));
    assert_eq!(config.core_points[1].radius, 0);
    assert_eq!(config.possible_blocks, vec![11, 12]);
    assert_eq!(config.blur_kernel_size, 10);
    assert_eq!(config.sample_size, 3);
    assert_eq!(config.resolution, 1024);
    assert_eq!(config.destination_folder, "textures");
}

#[test]
fn read_config_keeps_repeated_blocks_as_given() {
    let config = read_config_from_cli(&cli(&["(1, 1)"], &[1], &[5, 5, 6])).unwrap();
    assert_eq!(config.possible_blocks, vec![5, 5, 6]);
}

#[test]
fn read_config_wants_as_many_radii_as_points() {
    let result = read_config_from_cli(&cli(&["(1, 1)", "(2, 2)"], &[1], &[5]));
    assert!(matches!(
        result,
        Err(CommandlineParsingErrors::NumberOfPointsAndRadius(
            "Number of points must equal number of radius-es"
        ))
    ));
    let result = read_config_from_cli(&cli(&["(1, 1)"], &[1, 2], &[5]));
    assert!(matches!(result, Err(CommandlineParsingErrors::NumberOfPointsAndRadius(_))));
}

#[test]
fn read_config_wants_a_block() {
    let result = read_config_from_cli(&cli(&["(1, 1)"], &[1], &[]));
    assert!(matches!(
        result,
        Err(CommandlineParsingErrors::IncorrectArgumentStructure(
            "At least one possible block must be given"
        ))
    ));
}

#[test]
fn read_config_checks_counts_before_blocks_and_blocks_before_points() {
    let result = read_config_from_cli(&cli(&["nonsense"], &[], &[]));
    assert!(matches!(result, Err(CommandlineParsingErrors::NumberOfPointsAndRadius(_))));
    let result = read_config_from_cli(&cli(&["nonsense"], &[1], &[]));
    assert!(matches!(
        result,
        Err(CommandlineParsingErrors::IncorrectArgumentStructure(
            "At least one possible block must be given"
        ))
    ));
}

#[test]
fn read_config_reports_the_first_point_that_cannot_be_read() {
    let result = read_config_from_cli(&cli(&["(1, 1)", "(x, 2)", "3 4"], &[1, 1, 1], &[5]));
    assert!(matches!(
        result,
        Err(CommandlineParsingErrors::IntegerParsing(
            "First argument could not be converted to u16"
        ))
    ));
    let result = read_config_from_cli(&cli(&["(1, 1)", "3 4", "(x, 2)"], &[1, 1, 1], &[5]));
    assert!(matches!(
        result,
        Err(CommandlineParsingErrors::IncorrectArgumentStructure(
            "Second number is not correctly structured. Structure should be '(x, y)'"
        ))
    ));
}

#[test]
fn read_config_accepts_no_points_at_all() {
    let config = read_config_from_cli(&cli(&[], &[], &[1])).unwrap();
    assert!(config.core_points.is_empty());
}

#[test]
fn core_points_may_have_radii_to_spare() {
    let areas = cli(&["(8, 9)"], &[4, 5, 6], &[]).core_points().unwrap();
    assert_eq!(areas.len(), 1);
    assert_eq!(areas[0].center, Point(8, 9));
    assert_eq!(areas[0].radius, 4);
}

#[test]
fn try_from_does_not_ask_for_blocks() {
    let config = Config::try_from(&cli(&["(8, 9)"], &[4], &[])).unwrap();
    assert!(config.possible_blocks.is_empty());
    assert_eq!(config.core_points[0].radius, 4);
    assert!(Config::try_from(&cli(&["8"], &[4], &[])).is_err());
}

#[test]
fn new_keeps_its_parts() {
    let config = Config::new(vec![], vec![9, 8], 1, 2, 3, String::from("d"));
    assert!(config.core_points.is_empty());
    assert_eq!(config.possible_blocks, vec![9, 8]);
    assert_eq!(config.blur_kernel_size, 1);
    assert_eq!(config.sample_size, 2);
    assert_eq!(config.resolution, 3);
    assert_eq!(config.destination_folder, "d");
}

#[test]
fn settings_need_a_pixel_and_a_sample() {
    assert!(Config::new(vec![], vec![], 0, 1, 1, String::new()).is_consistent());
    assert!(!Config::new(vec![], vec![], 0, 0, 1, String::new()).is_consistent());
    assert!(!Config::new(vec![], vec![], 0, 1, 0, String::new()).is_consistent());
}
