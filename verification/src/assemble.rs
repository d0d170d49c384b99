//! Assembling decoded payloads into point-cloud tiles.
//!
//! A payload is decoded as a LAS or LAZ point cloud by the caller, who hands
//! on what the decoder gave: the cloud, or the decoder's error. The tile
//! made from a cloud carries its offset from the origin tile: the tile that
//! was pinned as the origin, or else the first tile that was assembled. A
//! payload that could not be decoded fails its tile and nothing else.

use vstd::prelude::*;

use crate::naming::{lemma_texture_paths_differ, texture_path_of};
use crate::point::Point;

verus! {

/// The point cloud of one tile.
pub struct LazData {
    /// Where the tile lies, counted in tiles from the origin tile.
    pub offset_from_center: (i16, i16),
    /// The box that encloses the points.
    pub bounds: las::Bounds,
    pub points: Vec<las::Point>,
}

/// Why a tile could not be assembled.
#[derive(Clone, Copy, Debug, PartialEq, Eq, Structural)]
pub enum AssemblyError {
    /// The payload fetched for `tile` is no point cloud that can be read.
    MalformedPayload { tile: Point },
}

/// Whether the offset of `tile` from `origin` can be held in `i16`s. It
/// always can where both are tiles of the grid.
pub open spec fn offset_fits(origin: Point, tile: Point) -> bool {
    &&& i16::MIN <= tile.0 - origin.0 <= i16::MAX
    &&& i16::MIN <= tile.1 - origin.1 <= i16::MAX
}

/// The offset of `tile` from `origin`, coordinate by coordinate.
pub open spec fn offset_between(origin: Point, tile: Point) -> (i16, i16) {
    ((tile.0 - origin.0) as i16, (tile.1 - origin.1) as i16)
}

/// The origin once `tile` has been assembled: the origin that there was,
/// or `tile` if there was none.
pub open spec fn origin_after(before: Option<Point>, tile: Point) -> Point {
    match before {
        Some(origin) => origin,
        None => tile,
    }
}

/// Where `tile` lies, counted in tiles from `origin`.
pub fn tile_offset(origin: Point, tile: Point) -> (offset: (i16, i16))
    requires
        offset_fits(origin, tile),
    ensures
        offset == offset_between(origin, tile),
        offset.0 == tile.0 - origin.0,
        offset.1 == tile.1 - origin.1,
{
    (tile.0 - origin.0, tile.1 - origin.1)
}

/// Tiles of the grid are never too far apart for their offset to be held.
pub proof fn lemma_offset_of_tiles_fits(origin: Point, tile: Point)
    requires
        origin.is_tile(),
        tile.is_tile(),
    ensures
        offset_fits(origin, tile),
{
}

/// Counted from one origin, different tiles have different offsets, and so
/// different texture files: no tile's texture overwrites another's.
pub proof fn lemma_tiles_get_their_own_files(
    folder: Seq<char>,
    origin: Point,
    a: Point,
    b: Point,
)
    requires
        offset_fits(origin, a),
        offset_fits(origin, b),
        a != b,
    ensures
        offset_between(origin, a) != offset_between(origin, b),
        texture_path_of(folder, offset_between(origin, a)) != texture_path_of(
            folder,
            offset_between(origin, b),
        ),
{
    lemma_texture_paths_differ(folder, offset_between(origin, a), offset_between(origin, b));
}

/// The state of assembly: the origin tile, once there is one.
pub struct Assembler {
    origin: Option<Point>,
}

impl View for Assembler {
    type V = Option<Point>;

    closed spec fn view(&self) -> Option<Point> {
        self.origin
    }
}

impl Assembler {
    #[verifier::type_invariant]
    spec fn valid(&self) -> bool {
        self.origin matches Some(origin) ==> origin.is_tile()
    }

    /// An assembler without an origin: the first tile that it assembles
    /// becomes the origin.
    pub fn new() -> (assembler: Self)
        ensures
            assembler@ is None,
    {
        Assembler { origin: None }
    }

    /// An assembler whose origin is `origin`, whichever tile comes first.
    pub fn pinned(origin: Point) -> (assembler: Self)
        requires
            origin.is_tile(),
        ensures
            assembler@ == Some(origin),
    {
        Assembler { origin: Some(origin) }
    }

    /// The origin tile, once there is one.
    pub fn origin(&self) -> (origin: Option<Point>)
        ensures
            origin == self@,
            origin matches Some(o) ==> o.is_tile(),
    {
        proof {
            use_type_invariant(self);
        }
        self.origin
    }

    /// Makes the tile `tile` from what reading its payload gave.
    ///
    /// If the payload could not be read, the tile fails and the assembler
    /// stays as it is. Otherwise the tile gets the cloud that was read and
    /// its offset from the origin; if there was no origin yet, `tile`
    /// becomes the origin. An origin, once there, never changes.
    pub fn place(
        &mut self,
        tile: Point,
        cloud: Result<(las::Bounds, Vec<las::Point>), las::Error>,
    ) -> (assembled: Result<LazData, AssemblyError>)
        requires
            tile.is_tile(),
        ensures
            cloud is Err ==> assembled == Err::<LazData, AssemblyError>(
                AssemblyError::MalformedPayload { tile },
            ),
            cloud is Err ==> final(self)@ == old(self)@,
            cloud is Ok ==> assembled is Ok,
            cloud is Ok ==> final(self)@ == Some(origin_after(old(self)@, tile)),
            cloud is Ok ==> assembled->Ok_0.offset_from_center == offset_between(
                origin_after(old(self)@, tile),
                tile,
            ),
            cloud is Ok ==> assembled->Ok_0.bounds == cloud->Ok_0.0,
            cloud is Ok ==> assembled->Ok_0.points == cloud->Ok_0.1,
    {
        proof {
            use_type_invariant(&*self);
        }
        match cloud {
            Err(_) => Err(AssemblyError::MalformedPayload { tile }),
            Ok((bounds, points)) => {
                let origin: Point = match self.origin {
                    Some(origin) => origin,
                    None => tile,
                };
                self.origin = Some(origin);
                Ok(LazData { offset_from_center: tile_offset(origin, tile), bounds, points })
            },
        }
    }
}

} // verus!
