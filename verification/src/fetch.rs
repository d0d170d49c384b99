//! The download schedule of one fetch worker.
//!
//! A pool of workers shares one list of tiles and one list of source blocks.
//! Worker `id` of `workers` takes the tiles at `id`, `id + workers`,
//! `id + 2 * workers`, ... For each of its tiles it asks the blocks in their
//! order until one delivers; a failed attempt moves on to the next block, a
//! delivery (or the last block failing) moves on to the next tile. The
//! worker itself performs no download: it names the next request and is
//! told how the attempt ended.

use rand::Rng;
use vstd::arithmetic::div_mod::{lemma_fundamental_div_mod, lemma_mod_add_multiples_vanish};
use vstd::prelude::*;

use crate::area::CorePoint;
use crate::config::Config;
use crate::decimal::{decimal, decimal_string, signed_decimal, signed_decimal_string};
use crate::distinct::{
    first_occurrences, lemma_first_occurrences_distinct, lemma_first_occurrences_same_items,
    unique,
};
use crate::global_constants::PACING_LIMIT_SECS;
use crate::point::Point;
use crate::region::{filter_points, lemma_selected_is_union, selected_tiles};

verus! {

/// How a download attempt ended.
#[derive(Clone, Copy, Debug, PartialEq, Eq, Structural)]
pub enum FetchOutcome {
    /// The source could not be reached, or did not answer in time.
    Unreachable,
    /// The source answered with a status other than success.
    Refused,
    /// The source answered, but its body could not be read.
    Unreadable,
    /// The source delivered the tile's payload.
    Delivered,
}

impl FetchOutcome {
    /// Whether the attempt brought no payload. Every such outcome means the
    /// same to a worker: this block does not have the tile.
    pub open spec fn failed(self) -> bool {
        self != FetchOutcome::Delivered
    }

    /// Tests whether the attempt brought no payload.
    pub fn is_failure(&self) -> (failed: bool)
        ensures
            failed == self.failed(),
    {
        match self {
            FetchOutcome::Delivered => false,
            _ => true,
        }
    }
}

/// One download attempt: a tile and the block that is asked for it.
#[derive(Clone, Copy, Debug, PartialEq, Eq, Structural)]
pub struct TileRequest {
    pub tile: Point,
    pub block: u8,
}

/// What a worker's schedule consists of, as plain mathematics.
pub struct WorkerState {
    /// The tiles that the pool shares.
    pub tiles: Seq<Point>,
    /// The blocks to ask for each tile, in order of preference.
    pub blocks: Seq<u8>,
    /// This worker's number within the pool.
    pub id: nat,
    /// The size of the pool.
    pub workers: nat,
    /// Index of the tile being worked on; `tiles.len()` once none is left.
    pub tile: nat,
    /// Index of the block to ask next for that tile.
    pub block: nat,
}

impl WorkerState {
    /// The state in which worker `id` of `workers` starts.
    pub open spec fn initial(id: nat, workers: nat, tiles: Seq<Point>, blocks: Seq<u8>) -> Self {
        WorkerState {
            tiles,
            blocks,
            id,
            workers,
            tile: if id < tiles.len() {
                id
            } else {
                tiles.len()
            },
            block: 0,
        }
    }

    /// Whether every tile of the shared list is a tile of the grid.
    pub open spec fn tiles_in_grid(self) -> bool {
        forall|i: int| 0 <= i < self.tiles.len() ==> (#[trigger] self.tiles[i]).is_tile()
    }

    /// The states that a worker can be in.
    pub open spec fn wf(self) -> bool {
        &&& self.workers > 0
        &&& self.tiles_in_grid()
        &&& self.tile <= self.tiles.len()
        &&& self.tile < self.tiles.len() ==> self.tile >= self.id && self.tile % self.workers
            == self.id % self.workers
        &&& self.block < self.blocks.len() || self.block == 0
    }

    /// Whether the worker has nothing left to ask for.
    pub open spec fn finished(self) -> bool {
        self.tile >= self.tiles.len() || self.blocks.len() == 0
    }

    /// The attempt to make next, if any is left.
    pub open spec fn request(self) -> Option<TileRequest> {
        if self.finished() {
            None
        } else {
            Some(TileRequest { tile: self.tiles[self.tile as int], block: self.blocks[self.block as int] })
        }
    }

    /// The state once the current tile is given up or done with.
    pub open spec fn next_tile(self) -> Self {
        WorkerState {
            tile: if self.tile + self.workers < self.tiles.len() {
                self.tile + self.workers
            } else {
                self.tiles.len()
            },
            block: 0,
            ..self
        }
    }

    /// The state after the current request ended in `outcome`. A finished
    /// worker stays as it is.
    pub open spec fn after(self, outcome: FetchOutcome) -> Self {
        if self.finished() {
            self
        } else if outcome.failed() && self.block + 1 < self.blocks.len() {
            WorkerState { block: self.block + 1, ..self }
        } else {
            self.next_tile()
        }
    }

    /// The state after a series of requests ended in `outcomes`, one after
    /// the other.
    pub open spec fn run(self, outcomes: Seq<FetchOutcome>) -> Self
        decreases outcomes.len(),
    {
        if outcomes.len() == 0 {
            self
        } else {
            self.run(outcomes.drop_last()).after(outcomes.last())
        }
    }

    /// Whether the worker pauses after an attempt that ended in `outcome`:
    /// it does after every delivery.
    pub open spec fn pauses(self, outcome: FetchOutcome) -> bool {
        !self.finished() && outcome == FetchOutcome::Delivered
    }
}

/// A worker whose tiles all lie in the grid starts in a valid state.
pub proof fn lemma_initial_wf(id: nat, workers: nat, tiles: Seq<Point>, blocks: Seq<u8>)
    requires
        workers > 0,
        forall|i: int| 0 <= i < tiles.len() ==> (#[trigger] tiles[i]).is_tile(),
    ensures
        WorkerState::initial(id, workers, tiles, blocks).wf(),
{
}

/// Whatever the outcome, a worker stays in a valid state, keeps its lists,
/// number and pool, and never goes back: it stays on its tile with the next
/// block, or leaves the tile for good. It leaves a tile only once a block
/// has delivered it or the last block has failed.
pub proof fn lemma_after_wf(state: WorkerState, outcome: FetchOutcome)
    requires
        state.wf(),
    ensures
        state.after(outcome).wf(),
        state.after(outcome).tiles == state.tiles,
        state.after(outcome).blocks == state.blocks,
        state.after(outcome).id == state.id,
        state.after(outcome).workers == state.workers,
        state.after(outcome).tile == state.tile ==> state.finished() || state.after(outcome).block
            == state.block + 1,
        state.after(outcome).tile >= state.tile,
        state.after(outcome).tile != state.tile ==> !outcome.failed() || state.block + 1
            == state.blocks.len(),
{
    if state.tile + state.workers < state.tiles.len() {
        lemma_mod_add_multiples_vanish(state.tile as int, state.workers as int);
    }
}

/// First delivery wins: once a block has delivered a tile, no further block
/// is asked for it. The next request, if there is one, is for the worker's
/// next tile and starts again at the first block.
pub proof fn lemma_delivery_ends_tile(state: WorkerState)
    requires
        state.wf(),
        !state.finished(),
    ensures
        state.after(FetchOutcome::Delivered).tile > state.tile,
        state.after(FetchOutcome::Delivered).block == 0,
        state.after(FetchOutcome::Delivered).request() matches Some(next) ==> next.tile
            == state.tiles[(state.tile + state.workers) as int] && next.block == state.blocks[0],
{
}

/// A failure of any kind is absorbed: it moves on to the next block of the
/// same tile while one is left, and to the next tile after the last block.
pub proof fn lemma_failure_tries_next_block(state: WorkerState, outcome: FetchOutcome)
    requires
        state.wf(),
        !state.finished(),
        outcome.failed(),
    ensures
        state.block + 1 < state.blocks.len() ==> state.after(outcome).request() == Some(
            TileRequest {
                tile: state.tiles[state.tile as int],
                block: state.blocks[(state.block + 1) as int],
            },
        ),
        state.block + 1 >= state.blocks.len() ==> state.after(outcome) == state.next_tile(),
{
}

/// Every request is for a tile of the shared list, which is a tile of the
/// grid, and a block of the shared list.
pub proof fn lemma_request_from_lists(state: WorkerState)
    requires
        state.wf(),
    ensures
        state.request() matches Some(r) ==> state.tiles.contains(r.tile) && r.tile.is_tile()
            && state.blocks.contains(r.block),
{
    if !state.finished() {
        assert(state.tiles[state.tile as int] == state.request()->0.tile);
        assert(state.blocks[state.block as int] == state.request()->0.block);
    }
}

/// Two workers of one pool never work on the same position of the list.
pub proof fn lemma_workers_share_no_tile(a: WorkerState, b: WorkerState)
    requires
        a.wf(),
        b.wf(),
        a.tiles == b.tiles,
        a.workers == b.workers,
        a.id < a.workers,
        b.id < b.workers,
        a.id != b.id,
        a.tile < a.tiles.len(),
        b.tile < b.tiles.len(),
    ensures
        a.tile != b.tile,
{
    vstd::arithmetic::div_mod::lemma_small_mod(a.id, a.workers);
    vstd::arithmetic::div_mod::lemma_small_mod(b.id, b.workers);
}

/// Every position of the list belongs to a worker of the pool, which gets
/// to it once each of its earlier tiles was delivered.
pub proof fn lemma_every_tile_is_reached(
    workers: nat,
    tiles: Seq<Point>,
    blocks: Seq<u8>,
    position: nat,
)
    requires
        workers > 0,
        blocks.len() > 0,
        position < tiles.len(),
    ensures
        WorkerState::initial(position % workers, workers, tiles, blocks).run(
            Seq::new(position / workers, |k: int| FetchOutcome::Delivered),
        ).request() == Some(TileRequest { tile: tiles[position as int], block: blocks[0] }),
{
    let id = position % workers;
    let rounds = position / workers;
    lemma_fundamental_div_mod(position as int, workers as int);
    assert(workers * rounds == rounds * workers) by (nonlinear_arith);
    assert(id + rounds * workers == position);
    lemma_deliveries_advance(id, workers, tiles, blocks, rounds);
}

proof fn lemma_deliveries_advance(
    id: nat,
    workers: nat,
    tiles: Seq<Point>,
    blocks: Seq<u8>,
    rounds: nat,
)
    requires
        workers > 0,
        blocks.len() > 0,
        id + rounds * workers < tiles.len(),
    ensures
        WorkerState::initial(id, workers, tiles, blocks).run(
            Seq::new(rounds, |k: int| FetchOutcome::Delivered),
        ) == (WorkerState { tiles, blocks, id, workers, tile: id + rounds * workers, block: 0 }),
    decreases rounds,
{
    let deliveries = Seq::new(rounds, |k: int| FetchOutcome::Delivered);
    if rounds > 0 {
        let fewer = (rounds - 1) as nat;
        assert(id + fewer * workers + workers == id + rounds * workers) by (nonlinear_arith)
            requires
                fewer + 1 == rounds,
        ;
        lemma_deliveries_advance(id, workers, tiles, blocks, fewer);
        assert(deliveries.drop_last() =~= Seq::new(fewer, |k: int| FetchOutcome::Delivered));
        assert(deliveries.last() == FetchOutcome::Delivered);
    } else {
        assert(id + rounds * workers == id) by (nonlinear_arith)
            requires
                rounds == 0,
        ;
    }
}

/// A fetch worker's place in its schedule.
pub struct FetchWorker {
    tiles: Vec<Point>,
    blocks: Vec<u8>,
    id: usize,
    workers: usize,
    tile_index: usize,
    block_index: usize,
}

impl View for FetchWorker {
    type V = WorkerState;

    closed spec fn view(&self) -> WorkerState {
        WorkerState {
            tiles: self.tiles@,
            blocks: self.blocks@,
            id: self.id as nat,
            workers: self.workers as nat,
            tile: self.tile_index as nat,
            block: self.block_index as nat,
        }
    }
}

impl FetchWorker {
    #[verifier::type_invariant]
    spec fn valid(&self) -> bool {
        self@.wf()
    }

    /// Worker `id` of a pool of `workers`, before its first request. The
    /// tiles that it is given must be tiles of the grid.
    pub fn new(id: usize, workers: usize, tiles: Vec<Point>, blocks: Vec<u8>) -> (worker: Self)
        requires
            workers > 0,
            forall|i: int| 0 <= i < tiles@.len() ==> (#[trigger] tiles@[i]).is_tile(),
        ensures
            worker@ == WorkerState::initial(id as nat, workers as nat, tiles@, blocks@),
            worker@.wf(),
    {
        let tile_index: usize = if id < tiles.len() {
            id
        } else {
            tiles.len()
        };
        FetchWorker { tiles, blocks, id, workers, tile_index, block_index: 0 }
    }

    /// Whether nothing is left for this worker to ask for.
    pub fn is_finished(&self) -> (done: bool)
        ensures
            done == self@.finished(),
    {
        self.tile_index >= self.tiles.len() || self.blocks.len() == 0
    }

    /// The attempt to make next, or `None` once the worker is through. No
    /// attempt is ever for a coordinate outside the grid.
    pub fn request(&self) -> (next: Option<TileRequest>)
        ensures
            next == self@.request(),
            next matches Some(r) ==> r.tile.is_tile(),
            self@.wf(),
    {
        proof {
            use_type_invariant(self);
        }
        if self.is_finished() {
            None
        } else {
            Some(TileRequest { tile: self.tiles[self.tile_index], block: self.blocks[self.block_index] })
        }
    }

    /// Takes note of how the attempt named by `request` ended, and returns
    /// the number of seconds to pause before the next one. The worker pauses
    /// after each delivery, for a time drawn at random below
    /// `PACING_LIMIT_SECS`, and not at all after a failure.
    pub fn record(&mut self, outcome: FetchOutcome) -> (pause: u64)
        ensures
            final(self)@ == old(self)@.after(outcome),
            final(self)@.wf(),
            old(self)@.pauses(outcome) ==> pause < PACING_LIMIT_SECS,
            !old(self)@.pauses(outcome) ==> pause == 0,
    {
        proof {
            use_type_invariant(&*self);
            lemma_after_wf(self@, outcome);
        }
        if self.is_finished() {
            return 0;
        }
        if outcome.is_failure() && self.blocks.len() - self.block_index > 1 {
            self.block_index = self.block_index + 1;
            return 0;
        }
        self.block_index = 0;
        if self.tiles.len() - self.tile_index > self.workers {
            self.tile_index = self.tile_index + self.workers;
        } else {
            self.tile_index = self.tiles.len();
        }
        pause_after(outcome)
    }
}

/// The pause, in seconds, that follows an attempt: none after a failure, a
/// random one below `PACING_LIMIT_SECS` after a delivery.
pub fn pause_after(outcome: FetchOutcome) -> (pause: u64)
    ensures
        outcome.failed() ==> pause == 0,
        pause < PACING_LIMIT_SECS,
{
    let drawn: u64 = if outcome.is_failure() {
        0
    } else {
        random_below(PACING_LIMIT_SECS)
    };
    pause_for(outcome, drawn)
}

/// The pause that follows an attempt, given the number of seconds that was
/// drawn for it: the number drawn after a delivery, none after a failure.
pub open spec fn pause_of(outcome: FetchOutcome, drawn: u64) -> u64 {
    if outcome.failed() {
        0
    } else {
        drawn
    }
}

/// The pause, in seconds, that follows an attempt for which `drawn` seconds
/// were drawn: a delivery is followed by a pause of that length, a failure
/// by none.
pub fn pause_for(outcome: FetchOutcome, drawn: u64) -> (pause: u64)
    ensures
        pause == pause_of(outcome, drawn),
{
    if outcome.is_failure() {
        0
    } else {
        drawn
    }
}

/// Draws a number at random from `0..limit`.
///
/// Trusted: this is `rand::Rng::gen_range` on the generator that
/// `rand::thread_rng` hands out, called with the half-open range `0..limit`.
/// `gen_range` panics on an empty range and otherwise returns a value of the
/// range; nothing more is claimed of the number drawn.
#[verifier::external_body]
fn random_below(limit: u64) -> (drawn: u64)
    requires
        limit > 0,
    ensures
        drawn < limit,
{
    rand::thread_rng().gen_range(0..limit)
}

/// The address from which `request` is fetched: the file of the tile in
/// the folder of the block.
pub open spec fn url_of(request: TileRequest) -> Seq<char> {
    "https://gis.arso.gov.si/lidar/otr/laz/b_"@ + decimal(request.block as nat) + "/D96TM/TMR_"@
        + signed_decimal(request.tile.0 as int) + "_"@ + signed_decimal(request.tile.1 as int)
        + ".laz"@
}

impl TileRequest {
    /// The address from which this request is fetched.
    pub fn url(&self) -> (address: String)
        ensures
            address@ == url_of(*self),
    {
        let mut address: String = String::from_str("https://gis.arso.gov.si/lidar/otr/laz/b_");
        address.append(decimal_string(self.block as u32).as_str());
        address.append("/D96TM/TMR_");
        address.append(signed_decimal_string(self.tile.0).as_str());
        address.append("_");
        address.append(signed_decimal_string(self.tile.1).as_str());
        address.append(".laz");
        address
    }
}

/// What the workers of a run share, as plain values.
pub struct PlanView {
    /// The tiles to fetch.
    pub tiles: Seq<Point>,
    /// The blocks to ask for each tile, in order of preference.
    pub blocks: Seq<u8>,
}

/// What the workers of a run share: the tiles to fetch, all of them tiles
/// of the grid, and the blocks to ask, each list without repeats.
pub struct FetchPlan {
    tiles: Vec<Point>,
    blocks: Vec<u8>,
}

impl View for FetchPlan {
    type V = PlanView;

    closed spec fn view(&self) -> PlanView {
        PlanView { tiles: self.tiles@, blocks: self.blocks@ }
    }
}

impl FetchPlan {
    #[verifier::type_invariant]
    spec fn valid(&self) -> bool {
        &&& forall|i: int| 0 <= i < self.tiles@.len() ==> (#[trigger] self.tiles@[i]).is_tile()
        &&& self.tiles@.no_duplicates()
        &&& self.blocks@.no_duplicates()
    }

    /// The plan of a run with the given settings: the tiles that its areas
    /// of interest select, and its blocks in the order given, each once.
    pub fn new(config: &Config) -> (plan: Self)
        ensures
            plan@.tiles == selected_tiles(config.core_points@),
            plan@.blocks == first_occurrences(config.possible_blocks@),
    {
        proof {
            lemma_first_occurrences_distinct(config.possible_blocks@);
        }
        FetchPlan { tiles: filter_points(config), blocks: unique(&config.possible_blocks) }
    }

    /// The tiles to fetch: tiles of the grid, none of them twice.
    pub fn tiles(&self) -> (tiles: &Vec<Point>)
        ensures
            tiles@ == self@.tiles,
            tiles@.no_duplicates(),
            forall|i: int| 0 <= i < tiles@.len() ==> (#[trigger] tiles@[i]).is_tile(),
    {
        proof {
            use_type_invariant(self);
        }
        &self.tiles
    }

    /// The blocks to ask for each tile, in order of preference, none of
    /// them twice.
    pub fn blocks(&self) -> (blocks: &Vec<u8>)
        ensures
            blocks@ == self@.blocks,
            blocks@.no_duplicates(),
    {
        proof {
            use_type_invariant(self);
        }
        &self.blocks
    }

    /// The first tile of the plan, `None` if the plan has no tile. It is
    /// the same from run to run, which makes it the tile to pin as the
    /// origin where offsets are to be reproducible.
    pub fn first_tile(&self) -> (first: Option<Point>)
        ensures
            self@.tiles.len() == 0 ==> first is None,
            self@.tiles.len() > 0 ==> first == Some(self@.tiles[0]),
            first matches Some(tile) ==> tile.is_tile(),
    {
        proof {
            use_type_invariant(self);
        }
        if self.tiles.len() > 0 {
            Some(self.tiles[0])
        } else {
            None
        }
    }

    /// Worker `id` of a pool of `workers` that carries out this plan.
    pub fn worker(&self, id: usize, workers: usize) -> (worker: FetchWorker)
        requires
            workers > 0,
        ensures
            worker@ == WorkerState::initial(id as nat, workers as nat, self@.tiles, self@.blocks),
            worker@.wf(),
    {
        proof {
            use_type_invariant(self);
        }
        let mut tiles: Vec<Point> = Vec::with_capacity(self.tiles.len());
        let mut i: usize = 0;
        while i < self.tiles.len()
            invariant
                i <= self.tiles@.len(),
                tiles@ == self.tiles@.take(i as int),
            decreases self.tiles@.len() - i,
        {
            tiles.push(self.tiles[i]);
            proof {
                assert(self.tiles@.take(i + 1) =~= self.tiles@.take(i as int).push(
                    self.tiles@[i as int],
                ));
            }
            i = i + 1;
        }
        proof {
            assert(self.tiles@.take(i as int) =~= self.tiles@);
        }
        FetchWorker::new(id, workers, tiles, self.blocks.clone())
    }
}

/// No coordinate outside the grid reaches a fetch: whatever a worker of a
/// plan asks for is a tile of the grid that an area of interest covers, and
/// a block that the settings name.
pub proof fn lemma_requests_stay_in_grid(
    areas: Seq<CorePoint>,
    possible_blocks: Seq<u8>,
    state: WorkerState,
)
    requires
        state.wf(),
        state.tiles == selected_tiles(areas),
        state.blocks == first_occurrences(possible_blocks),
    ensures
        state.request() matches Some(r) ==> r.tile.is_tile() && possible_blocks.contains(r.block),
{
    if let Some(r) = state.request() {
        lemma_request_from_lists(state);
        lemma_selected_is_union(areas, r.tile);
        lemma_first_occurrences_same_items(possible_blocks);
    }
}

} // verus!
