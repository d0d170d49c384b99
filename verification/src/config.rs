//! The settings of a run and how they are read from the command line's
//! arguments.

use vstd::prelude::*;

use crate::area::CorePoint;
use crate::errors::CommandlineParsingErrors;
use crate::point::{point_of_text, Point};

verus! {

/// The arguments of the command line, as they were given.
pub struct Cli {
    /// The centres of the areas of interest, each written as `(x, y)`.
    pub points: Vec<String>,
    /// The radius of each area, in the order of `points`.
    pub radius: Vec<u8>,
    /// The blocks of the source that may hold a tile.
    pub possible_blocks: Vec<u8>,
    pub blur_kernel_size: u8,
    pub sample_size: u8,
    pub resolution: u16,
    pub destination_folder: String,
}

/// The settings of a run.
pub struct Config {
    pub core_points: Vec<CorePoint>,
    pub possible_blocks: Vec<u8>,
    pub blur_kernel_size: u8,
    pub sample_size: u8,
    pub resolution: u16,
    pub destination_folder: String,
}

/// The settings of a run as plain values.
pub struct ConfigView {
    pub core_points: Seq<CorePoint>,
    pub possible_blocks: Seq<u8>,
    pub blur_kernel_size: u8,
    pub sample_size: u8,
    pub resolution: u16,
    pub destination_folder: Seq<char>,
}

impl View for Config {
    type V = ConfigView;

    open spec fn view(&self) -> ConfigView {
        ConfigView {
            core_points: self.core_points@,
            possible_blocks: self.possible_blocks@,
            blur_kernel_size: self.blur_kernel_size,
            sample_size: self.sample_size,
            resolution: self.resolution,
            destination_folder: self.destination_folder@,
        }
    }
}

/// The areas that the texts `points` and the numbers `radius` describe,
/// pair by pair: the `i`-th area has the point read from `points[i]` as its
/// centre and `radius[i]` as its radius. If a text cannot be read, the
/// result is the error of the first one that cannot.
pub open spec fn areas_of(points: Seq<String>, radius: Seq<u8>) -> Result<
    Seq<CorePoint>,
    CommandlineParsingErrors,
>
    decreases points.len(),
{
    if points.len() == 0 {
        Ok(Seq::empty())
    } else {
        match areas_of(points.drop_last(), radius) {
            Err(e) => Err(e),
            Ok(areas) => match point_of_text(points.last()@) {
                Err(e) => Err(e),
                Ok(center) => Ok(
                    areas.push(CorePoint { center, radius: radius[points.len() - 1] }),
                ),
            },
        }
    }
}

impl Cli {
    /// The settings that these arguments describe, without a check of how
    /// many there are of each.
    pub open spec fn settings(&self) -> Result<ConfigView, CommandlineParsingErrors> {
        match areas_of(self.points@, self.radius@) {
            Err(e) => Err(e),
            Ok(core_points) => Ok(
                ConfigView {
                    core_points,
                    possible_blocks: self.possible_blocks@,
                    blur_kernel_size: self.blur_kernel_size,
                    sample_size: self.sample_size,
                    resolution: self.resolution,
                    destination_folder: self.destination_folder@,
                },
            ),
        }
    }

    /// The settings that these arguments describe, if they are in order:
    /// there must be as many radii as points, and at least one block.
    pub open spec fn checked_settings(&self) -> Result<ConfigView, CommandlineParsingErrors> {
        if self.points@.len() != self.radius@.len() {
            Err(
                CommandlineParsingErrors::NumberOfPointsAndRadius(
                    "Number of points must equal number of radius-es",
                ),
            )
        } else if self.possible_blocks@.len() < 1 {
            Err(
                CommandlineParsingErrors::IncorrectArgumentStructure(
                    "At least one possible block must be given",
                ),
            )
        } else {
            self.settings()
        }
    }

    /// Reads the areas of interest: each point with the radius of the same
    /// position. Fails with the error of the first point that cannot be
    /// read.
    pub fn core_points(&self) -> (areas: Result<Vec<CorePoint>, CommandlineParsingErrors>)
        requires
            self.points@.len() <= self.radius@.len(),
        ensures
            areas matches Ok(found) ==> areas_of(self.points@, self.radius@) == Ok::<
                Seq<CorePoint>,
                CommandlineParsingErrors,
            >(found@),
            areas matches Err(e) ==> areas_of(self.points@, self.radius@) == Err::<
                Seq<CorePoint>,
                CommandlineParsingErrors,
            >(e),
    {
        let count: usize = self.points.len();
        let mut result: Vec<CorePoint> = Vec::with_capacity(count);
        let mut i: usize = 0;
        proof {
            assert(self.points@.take(0) =~= Seq::<String>::empty());
        }
        while i < count
            invariant
                count == self.points@.len(),
                count <= self.radius@.len(),
                i <= count,
                areas_of(self.points@.take(i as int), self.radius@) == Ok::<
                    Seq<CorePoint>,
                    CommandlineParsingErrors,
                >(result@),
            decreases count - i,
        {
            let ghost longer = self.points@.take(i + 1);
            proof {
                assert(longer.drop_last() =~= self.points@.take(i as int));
                assert(longer.last() == self.points@[i as int]);
            }
            match Point::from_str(self.points[i].as_str()) {
                Ok(point) => {
                    result.push(CorePoint::new(point, self.radius[i]));
                },
                Err(e) => {
                    proof {
                        lemma_areas_of_fails_on(self.points@, self.radius@, i + 1);
                    }
                    return Err(e);
                },
            }
            i = i + 1;
        }
        proof {
            assert(self.points@.take(count as int) =~= self.points@);
        }
        Ok(result)
    }
}

/// Once a text cannot be read, the texts after it change nothing.
proof fn lemma_areas_of_fails_on(points: Seq<String>, radius: Seq<u8>, upto: int)
    requires
        0 <= upto <= points.len(),
        areas_of(points.take(upto), radius) is Err,
    ensures
        areas_of(points, radius) == areas_of(points.take(upto), radius),
    decreases points.len() - upto,
{
    if upto < points.len() {
        let longer = points.take(upto + 1);
        assert(longer.drop_last() =~= points.take(upto));
        lemma_areas_of_fails_on(points, radius, upto + 1);
    } else {
        assert(points.take(upto) =~= points);
    }
}

impl ConfigView {
    /// Whether a run can be made with these settings: a texture needs at
    /// least one pixel, and a pixel at least one sample point.
    pub open spec fn consistent(self) -> bool {
        self.resolution > 0 && self.sample_size >= 1
    }
}

impl Config {
    /// Tests whether a run can be made with these settings.
    pub fn is_consistent(&self) -> (consistent: bool)
        ensures
            consistent == self@.consistent(),
    {
        self.resolution > 0 && self.sample_size >= 1
    }

    /// Settings made of the given parts.
    pub fn new(
        core_points: Vec<CorePoint>,
        possible_blocks: Vec<u8>,
        blur_kernel_size: u8,
        sample_size: u8,
        resolution: u16,
        destination_folder: String,
    ) -> (config: Self)
        ensures
            config@ == (ConfigView {
                core_points: core_points@,
                possible_blocks: possible_blocks@,
                blur_kernel_size,
                sample_size,
                resolution,
                destination_folder: destination_folder@,
            }),
    {
        Config {
            core_points,
            possible_blocks,
            blur_kernel_size,
            sample_size,
            resolution,
            destination_folder,
        }
    }

    /// The settings that the arguments describe. Fails if a point cannot be
    /// read.
    pub fn try_from(value: &Cli) -> (config: Result<Config, CommandlineParsingErrors>)
        requires
            value.points@.len() <= value.radius@.len(),
        ensures
            config matches Ok(made) ==> value.settings() == Ok::<
                ConfigView,
                CommandlineParsingErrors,
            >(made@),
            config matches Err(e) ==> value.settings() == Err::<
                ConfigView,
                CommandlineParsingErrors,
            >(e),
    {
        match value.core_points() {
            Ok(core_points) => Ok(
                Config::new(
                    core_points,
                    value.possible_blocks.clone(),
                    value.blur_kernel_size,
                    value.sample_size,
                    value.resolution,
                    value.destination_folder.clone(),
                ),
            ),
            Err(e) => Err(e),
        }
    }
}

/// Checks the arguments of the command line and makes the settings of the
/// run from them.
///
/// Fails with `NumberOfPointsAndRadius` unless there are as many radii as
/// points, then with `IncorrectArgumentStructure` if no block is given, then
/// with the error of the first point that cannot be read.
pub fn read_config_from_cli(arguments: &Cli) -> (config: Result<
    Config,
    CommandlineParsingErrors,
>)
    ensures
        config matches Ok(made) ==> arguments.checked_settings() == Ok::<
            ConfigView,
            CommandlineParsingErrors,
        >(made@),
        config matches Err(e) ==> arguments.checked_settings() == Err::<
            ConfigView,
            CommandlineParsingErrors,
        >(e),
{
    if arguments.points.len() != arguments.radius.len() {
        return Err(
            CommandlineParsingErrors::NumberOfPointsAndRadius(
                "Number of points must equal number of radius-es",
            ),
        );
    }
    if arguments.possible_blocks.len() < 1 {
        return Err(
            CommandlineParsingErrors::IncorrectArgumentStructure(
                "At least one possible block must be given",
            ),
        );
    }
    Config::try_from(arguments)
}

} // verus!
