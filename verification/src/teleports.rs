//! Regions of interest: squares around the destinations that a region file
//! lists, and the test whether a grid cell lies in one of them.
//!
//! A region file holds one destination to a line: a world, a north-south
//! coordinate and an east-west coordinate, each parted from the next by one
//! space. What follows the first colon of a line is not read.

use crate::coord::{coord_from_bytes, coord_value, CoordError};
use crate::propdump::{find_space, token_end};
use vstd::prelude::*;
use vstd::slice::slice_subrange;

verus! {

/// ASCII colon, which ends the part of a line that is read.
pub const COLON: u8 = 58;

/// Why a region file could not be loaded. The number is the index of the
/// line at fault, counted from zero.
#[derive(Copy, Clone, Debug, PartialEq, Eq, Structural)]
pub enum RegionFileError {
    /// The line lacks its north-south or its east-west coordinate.
    MissingToken(usize),
    /// A coordinate of the line is malformed.
    Coordinate(usize, CoordError),
}

/// A square of grid cells, both bounds of each axis included.
#[derive(Copy, Clone, Debug, PartialEq, Eq, Structural)]
pub struct Region {
    pub min_x: i16,
    pub max_x: i16,
    pub min_z: i16,
    pub max_z: i16,
}

/// `value` held to the range of a 16-bit signed integer.
pub open spec fn saturate(value: int) -> i16 {
    if value < i16::MIN {
        i16::MIN
    } else if value > i16::MAX {
        i16::MAX
    } else {
        value as i16
    }
}

/// The bounds `radius` below and above `coord`, each held to the range of a
/// 16-bit signed integer.
pub open spec fn bounds_of(coord: i16, radius: i16) -> (i16, i16) {
    (saturate(coord - radius), saturate(coord + radius))
}

/// The region around the cell `(x, z)`.
pub open spec fn region_around(x: i16, z: i16, radius: i16) -> Region {
    Region {
        min_x: bounds_of(x, radius).0,
        max_x: bounds_of(x, radius).1,
        min_z: bounds_of(z, radius).0,
        max_z: bounds_of(z, radius).1,
    }
}

/// Whether the cell `(x, z)` lies in the region.
pub open spec fn in_region(region: Region, x: i16, z: i16) -> bool {
    region.min_x <= x <= region.max_x && region.min_z <= z <= region.max_z
}

/// Whether the cell `(x, z)` lies in one region at least.
pub open spec fn in_some_region(regions: Seq<Region>, x: i16, z: i16) -> bool {
    exists|i: int| 0 <= i < regions.len() && in_region(#[trigger] regions[i], x, z)
}

/// The bounds `radius` below and above `coord`, saturating.
pub fn bounds(coord: i16, radius: i16) -> (r: (i16, i16))
    ensures
        r == bounds_of(coord, radius),
{
    let low: i32 = coord as i32 - radius as i32;
    let high: i32 = coord as i32 + radius as i32;
    (clamp(low), clamp(high))
}

/// `value` held to the range of a 16-bit signed integer.
fn clamp(value: i32) -> (r: i16)
    ensures
        r == saturate(value as int),
{
    if value < i16::MIN as i32 {
        i16::MIN
    } else if value > i16::MAX as i32 {
        i16::MAX
    } else {
        value as i16
    }
}

/// The index of the first byte `b` at or after `from`; the length of `s`
/// where there is none.
pub open spec fn index_of(s: Seq<u8>, b: u8, from: int) -> int
    decreases s.len() - from,
{
    if 0 <= from < s.len() && s[from] != b {
        index_of(s, b, from + 1)
    } else {
        from
    }
}

/// Where the line that begins at `from` ends: at its line feed, or at the
/// end of the text.
pub open spec fn line_end(text: Seq<u8>, from: int) -> int {
    index_of(text, 10, from)
}

/// The line that begins at `from`, without its line feed, and without the
/// carriage return before the line feed where there is one.
pub open spec fn line_at(text: Seq<u8>, from: int) -> Seq<u8> {
    let end = line_end(text, from);
    if from < end < text.len() && text[end - 1] == 13 {
        text.subrange(from, end - 1)
    } else {
        text.subrange(from, end)
    }
}

/// Where the line after the one that begins at `from` begins.
pub open spec fn next_line(text: Seq<u8>, from: int) -> int {
    if line_end(text, from) < text.len() {
        line_end(text, from) + 1
    } else {
        text.len() as int
    }
}

/// The part of a line that is read: what stands before its first colon.
pub open spec fn line_head(line: Seq<u8>) -> Seq<u8> {
    line.subrange(0, index_of(line, COLON, 0))
}

/// The region that a line describes, or why it describes none.
///
/// The first token of the line is the world. The second is the north-south
/// coordinate and gives `z`; the third is the east-west coordinate and
/// gives `x`.
pub open spec fn line_region(line: Seq<u8>, radius: i16) -> Result<Region, Option<CoordError>> {
    let head = line_head(line);
    let world_end = token_end(head, 0);
    let ns_end = token_end(head, world_end + 1);
    let ew_end = token_end(head, ns_end + 1);
    if world_end >= head.len() || ns_end >= head.len() {
        Err(None)
    } else {
        match coord_value(head.subrange(world_end + 1, ns_end)) {
            Err(e) => Err(Some(e)),
            Ok(z) => match coord_value(head.subrange(ns_end + 1, ew_end)) {
                Err(e) => Err(Some(e)),
                Ok(x) => Ok(region_around(x, z, radius)),
            },
        }
    }
}

/// The error of the line at index `line` that describes no region.
pub open spec fn line_error(line: int, cause: Option<CoordError>) -> RegionFileError {
    match cause {
        None => RegionFileError::MissingToken(line as usize),
        Some(e) => RegionFileError::Coordinate(line as usize, e),
    }
}

/// The regions of the lines of `text` from the offset `from` on, where the
/// line at `from` has the index `line`: one region to a line and in the
/// order of the lines, or the error of the first line that describes none.
pub open spec fn regions_from(text: Seq<u8>, from: int, line: int, radius: i16) -> Result<
    Seq<Region>,
    RegionFileError,
>
    decreases text.len() - from,
{
    if from < 0 || from >= text.len() {
        Ok(Seq::empty())
    } else {
        match line_region(line_at(text, from), radius) {
            Err(cause) => Err(line_error(line, cause)),
            Ok(region) => if next_line(text, from) <= from {
                Ok(seq![region])
            } else {
                match regions_from(text, next_line(text, from), line + 1, radius) {
                    Err(e) => Err(e),
                    Ok(rest) => Ok(seq![region] + rest),
                }
            },
        }
    }
}

/// The regions of a whole region file.
pub open spec fn regions_of(text: Seq<u8>, radius: i16) -> Result<Seq<Region>, RegionFileError> {
    regions_from(text, 0, 0, radius)
}

/// The index of the first byte `b` at or after `from`, or the length of `s`.
pub(crate) fn find_byte(s: &[u8], b: u8, from: usize) -> (at: usize)
    requires
        from <= s@.len(),
    ensures
        at == index_of(s@, b, from as int),
        from <= at <= s@.len(),
{
    let mut i: usize = from;
    while i < s.len() && s[i] != b
        invariant
            from <= i <= s@.len(),
            index_of(s@, b, from as int) == index_of(s@, b, i as int),
        decreases s@.len() - i,
    {
        i = i + 1;
    }
    i
}

/// Reads one line of a region file.
pub fn parse_region_line(line: &[u8], radius: i16) -> (r: Result<Region, Option<CoordError>>)
    ensures
        r == line_region(line@, radius),
{
    let head = slice_subrange(line, 0, find_byte(line, COLON, 0));
    let n: usize = head.len();
    let world_end: usize = find_space(head, 0);
    if world_end >= n {
        return Err(None);
    }
    let ns_end: usize = find_space(head, world_end + 1);
    if ns_end >= n {
        return Err(None);
    }
    let ew_end: usize = find_space(head, ns_end + 1);
    let z: i16 = match coord_from_bytes(slice_subrange(head, world_end + 1, ns_end)) {
        Err(e) => {
            return Err(Some(e));
        },
        Ok(z) => z,
    };
    let x: i16 = match coord_from_bytes(slice_subrange(head, ns_end + 1, ew_end)) {
        Err(e) => {
            return Err(Some(e));
        },
        Ok(x) => x,
    };
    let (min_x, max_x) = bounds(x, radius);
    let (min_z, max_z) = bounds(z, radius);
    Ok(Region { min_x, max_x, min_z, max_z })
}

/// The regions of interest.
#[derive(Clone, Debug, PartialEq, Eq)]
pub struct Teleports {
    regions: Vec<Region>,
}

impl View for Teleports {
    type V = Seq<Region>;

    closed spec fn view(&self) -> Seq<Region> {
        self.regions@
    }
}

impl Teleports {
    /// Loads the regions that the text of a region file lists, each a
    /// square of the given radius around its destination.
    ///
    /// A line that describes no region fails the whole load.
    pub fn from_text(text: &[u8], radius: i16) -> (r: Result<Teleports, RegionFileError>)
        ensures
            match regions_of(text@, radius) {
                Ok(regions) => r matches Ok(loaded) && loaded@ == regions,
                Err(e) => r matches Err(f) && f == e,
            },
    {
        let n: usize = text.len();
        let mut regions: Vec<Region> = Vec::new();
        let mut from: usize = 0;
        let mut line: usize = 0;
        assert(regions@ =~= Seq::<Region>::empty());
        while from < n
            invariant
                0 <= from <= n,
                n == text@.len(),
                line <= from,
                regions_of(text@, radius) == (match regions_from(
                    text@,
                    from as int,
                    line as int,
                    radius,
                ) {
                    Ok(rest) => Ok::<Seq<Region>, RegionFileError>(regions@ + rest),
                    Err(e) => Err::<Seq<Region>, RegionFileError>(e),
                }),
            decreases n - from,
        {
            let end: usize = find_byte(text, 10, from);
            let stop: usize = if from < end && end < n && text[end - 1] == 13 {
                end - 1
            } else {
                end
            };
            let next: usize = if end < n {
                end + 1
            } else {
                n
            };
            match parse_region_line(slice_subrange(text, from, stop), radius) {
                Err(None) => {
                    return Err(RegionFileError::MissingToken(line));
                },
                Err(Some(e)) => {
                    return Err(RegionFileError::Coordinate(line, e));
                },
                Ok(region) => {
                    proof {
                        match regions_from(text@, next as int, line + 1, radius) {
                            Ok(rest) => {
                                assert(regions@ + (seq![region] + rest) =~= regions@.push(region)
                                    + rest);
                            },
                            Err(_) => {},
                        }
                    }
                    regions.push(region);
                },
            }
            from = next;
            line = line + 1;
        }
        assert(regions@ + Seq::<Region>::empty() =~= regions@);
        Ok(Teleports { regions })
    }

    /// How many regions there are.
    pub fn len(&self) -> (r: usize)
        ensures
            r == self@.len(),
    {
        self.regions.len()
    }

    /// The regions, in the order of the lines that described them.
    pub fn regions(&self) -> (r: &Vec<Region>)
        ensures
            r@ == self@,
    {
        &self.regions
    }

    /// Whether the grid cell `(cell_x, cell_z)` lies in one region at least.
    pub fn contains(&self, cell_x: i16, cell_z: i16) -> (r: bool)
        ensures
            r == in_some_region(self@, cell_x, cell_z),
    {
        let mut i: usize = 0;
        while i < self.regions.len()
            invariant
                0 <= i <= self.regions@.len(),
                forall|j: int|
                    0 <= j < i ==> !in_region(#[trigger] self.regions@[j], cell_x, cell_z),
            decreases self.regions@.len() - i,
        {
            let region: Region = self.regions[i];
            if region.min_x <= cell_x && cell_x <= region.max_x && region.min_z <= cell_z && cell_z
                <= region.max_z {
                return true;
            }
            i = i + 1;
        }
        false
    }
}

/// A cell that lies one unit or more outside the bounds of every region, on
/// both axes, lies in no region.
pub proof fn lemma_outside_every_region(regions: Seq<Region>, x: i16, z: i16)
    requires
        forall|i: int|
            0 <= i < regions.len() ==> (x < (#[trigger] regions[i]).min_x || x > regions[i].max_x)
                && (z < regions[i].min_z || z > regions[i].max_z),
    ensures
        !in_some_region(regions, x, z),
{
}

/// A cell lies in the region around itself, whatever the radius is from
/// zero up.
pub proof fn lemma_center_in_region(x: i16, z: i16, radius: i16)
    requires
        radius >= 0,
    ensures
        in_region(region_around(x, z, radius), x, z),
{
}

} // verus!
