use lidar_heightmap::area::CorePoint;
use lidar_heightmap::config::Config;
use lidar_heightmap::fetch::{
    pause_after, pause_for, FetchOutcome, FetchPlan, FetchWorker, TileRequest,
};
use lidar_heightmap::global_constants::{PACING_LIMIT_SECS, REQUEST_TIMEOUT_SECS};
use lidar_heightmap::point::Point;

fn tiles(count: i16) -> Vec<Point> {
    (0..count).map(|i| Point(100 + i, 200)).collect()
}

fn request(tile: Point, block: u8) -> Option<TileRequest> {
    Some(TileRequest { tile, block })
}

#[test]
fn first_success_wins() {
    let tile = Point(462, 101);
    let mut worker = FetchWorker::new(0, 1, vec![tile], vec![11, 12]);
    assert_eq!(worker.request(), request(tile, 11));
    worker.record(FetchOutcome::Unreachable);
    assert_eq!(worker.request(), request(tile, 12));
    worker.record(FetchOutcome::Delivered);
    assert_eq!(worker.request(), None);
    assert!(worker.is_finished());
}

#[test]
fn delivery_by_the_first_block_skips_the_others() {
    let list = tiles(2);
    let mut worker = FetchWorker::new(0, 1, list.clone(), vec![1, 2, 3]);
    assert_eq!(worker.request(), request(list[0], 1));
    worker.record(FetchOutcome::Delivered);
    assert_eq!(worker.request(), request(list[1], 1));
}

#[test]
fn tile_that_no_block_delivers_is_given_up() {
    let list = tiles(2);
    let mut worker = FetchWorker::new(0, 1, list.clone(), vec![1, 2]);
    worker.record(FetchOutcome::Unreachable);
    assert_eq!(worker.request(), request(list[0], 2));
    worker.record(FetchOutcome::Unreachable);
    assert_eq!(worker.request(), request(list[1], 1));
    worker.record(FetchOutcome::Unreachable);
    worker.record(FetchOutcome::Unreachable);
    assert_eq!(worker.request(), None);
}

#[test]
fn worker_strides_through_the_list() {
    let list = tiles(5);
    let mut worker = FetchWorker::new(1, 2, list.clone(), vec![7]);
    assert_eq!(worker.request(), request(list[1], 7));
    worker.record(FetchOutcome::Delivered);
    assert_eq!(worker.request(), request(list[3], 7));
    worker.record(FetchOutcome::Unreachable);
    assert_eq!(worker.request(), None);
}

#[test]
fn workers_share_out_every_tile_once() {
    let list = tiles(7);
    let mut visited: Vec<Point> = Vec::new();
    for id in 0..3 {
        let mut worker = FetchWorker::new(id, 3, list.clone(), vec![1, 2]);
        let mut last: Option<Point> = None;
        while let Some(next) = worker.request() {
            if last != Some(next.tile) {
                visited.push(next.tile);
                last = Some(next.tile);
            }
            let outcome = if next.block == 2 { FetchOutcome::Delivered } else { FetchOutcome::Unreachable };
            worker.record(outcome);
        }
    }
    assert_eq!(visited.len(), 7);
    visited.sort();
    assert_eq!(visited, list);
}

#[test]
fn worker_beyond_the_list_has_nothing_to_do() {
    let worker = FetchWorker::new(5, 8, tiles(3), vec![1]);
    assert!(worker.is_finished());
    assert_eq!(worker.request(), None);
}

#[test]
fn worker_without_blocks_has_nothing_to_do() {
    let mut worker = FetchWorker::new(0, 2, tiles(3), vec![]);
    assert!(worker.is_finished());
    assert_eq!(worker.request(), None);
    assert_eq!(worker.record(FetchOutcome::Delivered), 0);
    assert_eq!(worker.request(), None);
}

#[test]
fn finished_worker_stays_finished() {
    let mut worker = FetchWorker::new(0, 1, tiles(1), vec![1]);
    worker.record(FetchOutcome::Delivered);
    assert!(worker.is_finished());
    assert_eq!(worker.record(FetchOutcome::Unreachable), 0);
    assert_eq!(worker.record(FetchOutcome::Delivered), 0);
    assert!(worker.is_finished());
}

#[test]
fn worker_pauses_after_a_delivery_only() {
    for _ in 0..200 {
        let mut worker = FetchWorker::new(0, 1, tiles(2), vec![1, 2]);
        assert_eq!(worker.record(FetchOutcome::Unreachable), 0);
        assert!(worker.record(FetchOutcome::Delivered) < PACING_LIMIT_SECS);
        assert_eq!(worker.record(FetchOutcome::Unreachable), 0);
        assert_eq!(worker.record(FetchOutcome::Unreachable), 0);
    }
}

#[test]
fn pause_is_drawn_below_the_limit() {
    assert_eq!(PACING_LIMIT_SECS, 5);
    let mut seen = [false; 5];
    for _ in 0..2000 {
        assert_eq!(pause_after(FetchOutcome::Unreachable), 0);
        let pause = pause_after(FetchOutcome::Delivered);
        assert!(pause < PACING_LIMIT_SECS);
        seen[pause as usize] = true;
    }
    assert!(seen.iter().filter(|hit| **hit).count() > 1);
}

#[test]
fn every_kind_of_failure_moves_on_to_the_next_block() {
    let list = tiles(1);
    for outcome in [FetchOutcome::Unreachable, FetchOutcome::Refused, FetchOutcome::Unreadable] {
        assert!(outcome.is_failure());
        let mut worker = FetchWorker::new(0, 1, list.clone(), vec![8, 9]);
        assert_eq!(worker.record(outcome), 0);
        assert_eq!(worker.request(), request(list[0], 9));
        assert_eq!(worker.record(outcome), 0);
        assert_eq!(worker.request(), None);
    }
    assert!(!FetchOutcome::Delivered.is_failure());
}

#[test]
fn request_timeout_is_five_minutes() {
    assert_eq!(REQUEST_TIMEOUT_SECS, 300);
}

#[test]
fn url_names_block_and_tile() {
    let request = TileRequest { tile: Point(462, 101), block: 35 };
    assert_eq!(request.url(), "https://gis.arso.gov.si/lidar/otr/laz/b_35/D96TM/TMR_462_101.laz");
}

#[test]
fn url_writes_negative_coordinates_with_a_minus_sign() {
    let request = TileRequest { tile: Point(-3, 5), block: 0 };
    assert_eq!(request.url(), "https://gis.arso.gov.si/lidar/otr/laz/b_0/D96TM/TMR_-3_5.laz");
    let request = TileRequest { tile: Point(i16::MIN, i16::MAX), block: 255 };
    assert_eq!(
        request.url(),
        "https://gis.arso.gov.si/lidar/otr/laz/b_255/D96TM/TMR_-32768_32767.laz"
    );
}

#[test]
fn plan_drops_repeated_blocks_and_keeps_their_order() {
    let config = Config::new(
        vec![CorePoint::new(Point(10, 10), 0)],
        vec![3, 1, 3, 2, 1, 3],
        10,
        3,
        1024,
        String::from("out"),
    );
    let plan = FetchPlan::new(&config);
    assert_eq!(plan.blocks(), &vec![3, 1, 2]);
    assert_eq!(plan.tiles(), &vec![Point(10, 10)]);
    assert_eq!(plan.first_tile(), Some(Point(10, 10)));
}

#[test]
fn plan_of_overlapping_areas_has_each_tile_once() {
    let config = Config::new(
        vec![CorePoint::new(Point(0, 0), 1), CorePoint::new(Point(1, 1), 1)],
        vec![4],
        10,
        3,
        1024,
        String::from("out"),
    );
    let plan = FetchPlan::new(&config);
    assert_eq!(plan.tiles().len(), 9);
    assert_eq!(plan.first_tile(), Some(Point(0, 0)));
    let mut worker = plan.worker(0, 1);
    let mut asked: Vec<Point> = Vec::new();
    while let Some(next) = worker.request() {
        assert!(next.tile.in_range());
        assert_eq!(next.block, 4);
        asked.push(next.tile);
        worker.record(FetchOutcome::Delivered);
    }
    assert_eq!(&asked, plan.tiles());
}

#[test]
fn plan_without_tiles_has_no_first_tile() {
    let config = Config::new(vec![], vec![4], 10, 3, 1024, String::from("out"));
    let plan = FetchPlan::new(&config);
    assert_eq!(plan.first_tile(), None);
    assert!(plan.worker(0, 4).is_finished());
}

#[test]
fn pause_is_the_number_drawn_after_a_delivery_and_none_after_a_failure() {
    for drawn in [0u64, 1, 4, 300, u64::MAX] {
        assert_eq!(pause_for(FetchOutcome::Delivered, drawn), drawn);
        assert_eq!(pause_for(FetchOutcome::Unreachable, drawn), 0);
        assert_eq!(pause_for(FetchOutcome::Refused, drawn), 0);
        assert_eq!(pause_for(FetchOutcome::Unreadable, drawn), 0);
    }
}

#[test]
fn plan_holds_tiles_of_the_grid_only() {
    let config = Config::new(
        vec![CorePoint::new(Point(-1, 998), 3), CorePoint::new(Point(1001, -2), 4)],
        vec![4, 4],
        10,
        3,
        1024,
        String::from("out"),
    );
    let plan = FetchPlan::new(&config);
    assert_eq!(plan.tiles().len(), 3 * 5 + 3 * 3);
    assert!(plan.tiles().iter().all(|tile| tile.in_range()));
    assert_eq!(plan.blocks(), &vec![4]);
    for id in 0..3 {
        let mut worker = plan.worker(id, 3);
        while let Some(next) = worker.request() {
            assert!(next.tile.in_range());
            worker.record(FetchOutcome::Refused);
        }
    }
}
