//! One region of an address space, and the line of the kernel's `maps` file
//! that describes it: two addresses of twelve hexadecimal digits each with a
//! hyphen between them, then permissions, offset, device and inode, which the
//! region does not keep, then a path or a bracketed pseudo-name, or nothing.

use crate::hex::{all_hex, hex_value, is_hex_digit, lemma_hex_value_fits, parse_hex};
use crate::text::{chars_of, string_of};
use std::num::ParseIntError;
use vstd::prelude::*;
use vstd::slice::slice_subrange;
use vstd::string::StrSliceExecFns;

verus! {

/// The number of hexadecimal digits of an address in a line of the map.
pub const ADDRESS_DIGITS: usize = 12;

/// Where the filler between the end address and the path begins in a line.
pub const FILLER_START: usize = 25;

/// One region of a process's address space and the path it is mapped from.
#[derive(Debug, Clone, PartialEq, Eq)]
pub struct Region {
    pub start: u64,
    pub end: u64,
    pub path: String,
}

/// The mathematical content of a [`Region`].
pub struct RegionView {
    pub start: u64,
    pub end: u64,
    pub path: Seq<char>,
}

impl View for Region {
    type V = RegionView;

    open spec fn view(&self) -> RegionView {
        RegionView { start: self.start, end: self.end, path: self.path@ }
    }
}

/// Why the text of a map could not be read.
#[derive(Debug, PartialEq, Eq)]
pub enum MemoryMapError {
    /// The line does not have the form of a region.
    RegexError(String),
    /// An address of the line is not a number that fits in 64 bits.
    ParseIntError(String, ParseIntError),
}

/// The mathematical content of a [`MemoryMapError`]: its kind and the line
/// that it is about.
pub enum MapErrorView {
    RegexError(Seq<char>),
    ParseIntError(Seq<char>),
}

impl View for MemoryMapError {
    type V = MapErrorView;

    open spec fn view(&self) -> MapErrorView {
        match self {
            MemoryMapError::RegexError(line) => MapErrorView::RegexError(line@),
            MemoryMapError::ParseIntError(line, _) => MapErrorView::ParseIntError(line@),
        }
    }
}

/// `c` opens a path (`/`) or a bracketed pseudo-name (`[`).
pub open spec fn opens_name(c: char) -> bool {
    c == '/' || c == '['
}

/// The place of the first `/` or `[` of `line` at or after `from`, or the
/// length of `line` if there is none.
pub open spec fn name_start(line: Seq<char>, from: int) -> int
    decreases line.len() - from,
{
    if from >= line.len() {
        line.len() as int
    } else if opens_name(line[from]) {
        from
    } else {
        name_start(line, from + 1)
    }
}

/// `line` has the form of a region: a first address of twelve hexadecimal
/// digits, a hyphen, a last address of twelve hexadecimal digits and no
/// more (so that an address is read whole or not at all), a filler free of
/// `/` and `[`, and a name that runs to the end of `line` and holds no line
/// feed.
pub open spec fn line_matches(line: Seq<char>) -> bool {
    &&& line.len() >= FILLER_START
    &&& all_hex(line.subrange(0, ADDRESS_DIGITS as int))
    &&& line[ADDRESS_DIGITS as int] == '-'
    &&& all_hex(line.subrange(ADDRESS_DIGITS + 1, FILLER_START as int))
    &&& line.len() > FILLER_START ==> !is_hex_digit(line[FILLER_START as int])
    &&& !line.skip(name_start(line, FILLER_START as int)).contains('\n')
}

/// The region that a line of that form describes.
pub open spec fn region_of(line: Seq<char>) -> RegionView {
    RegionView {
        start: hex_value(line.subrange(0, ADDRESS_DIGITS as int)) as u64,
        end: hex_value(line.subrange(ADDRESS_DIGITS + 1, FILLER_START as int)) as u64,
        path: line.skip(name_start(line, FILLER_START as int)),
    }
}

/// What a line stands for: the region it describes, or the line itself as
/// one that cannot be read.
pub open spec fn parse_region(line: Seq<char>) -> Result<RegionView, MapErrorView> {
    if line_matches(line) {
        Ok(region_of(line))
    } else {
        Err(MapErrorView::RegexError(line))
    }
}

/// The region is mapped from a file: its path begins with `/`.
pub open spec fn file_backed(region: RegionView) -> bool {
    region.path.len() > 0 && region.path[0] == '/'
}

/// Whether `c` is a hexadecimal digit.
fn hex_digit(c: char) -> (b: bool)
    ensures
        b == is_hex_digit(c),
{
    ('0' <= c && c <= '9') || ('a' <= c && c <= 'f') || ('A' <= c && c <= 'F')
}

/// Whether the characters of `line` from `from` up to `to` are hexadecimal
/// digits.
fn hex_run(line: &[char], from: usize, to: usize) -> (b: bool)
    requires
        from <= to <= line@.len(),
    ensures
        b == all_hex(line@.subrange(from as int, to as int)),
{
    let mut i: usize = from;
    while i < to
        invariant
            from <= i <= to <= line@.len(),
            forall|j: int| from <= j < i ==> is_hex_digit(#[trigger] line@[j]),
        decreases to - i,
    {
        if !hex_digit(line[i]) {
            assert(line@.subrange(from as int, to as int)[i - from] == line@[i as int]);
            return false;
        }
        i += 1;
    }
    true
}

/// The place of the first `/` or `[` of `line` at or after `from`, or the
/// length of `line`.
fn find_name(line: &[char], from: usize) -> (k: usize)
    requires
        from <= line@.len(),
    ensures
        k == name_start(line@, from as int),
        from <= k <= line@.len(),
{
    let mut i: usize = from;
    while i < line.len() && !(line[i] == '/' || line[i] == '[')
        invariant
            from <= i <= line@.len(),
            name_start(line@, from as int) == name_start(line@, i as int),
        decreases line@.len() - i,
    {
        i += 1;
    }
    i
}

/// Whether a line feed stands in `line` at or after `from`.
fn has_line_feed(line: &[char], from: usize) -> (b: bool)
    requires
        from <= line@.len(),
    ensures
        b == line@.skip(from as int).contains('\n'),
{
    let mut i: usize = from;
    while i < line.len()
        invariant
            from <= i <= line@.len(),
            forall|j: int| from <= j < i ==> line@[j] != '\n',
        decreases line@.len() - i,
    {
        if line[i] == '\n' {
            assert(line@.skip(from as int)[i - from] == '\n');
            return true;
        }
        i += 1;
    }
    false
}

/// Reads one line of a map, given as characters.
pub(crate) fn parse_line(line: &[char]) -> (r: Result<Region, MemoryMapError>)
    ensures
        parse_region(line@) == match r {
            Ok(region) => Ok(region@),
            Err(e) => Err(e@),
        },
{
    let n = line.len();
    if n < FILLER_START || !hex_run(line, 0, ADDRESS_DIGITS) || line[ADDRESS_DIGITS] != '-'
        || !hex_run(line, ADDRESS_DIGITS + 1, FILLER_START) {
        return Err(MemoryMapError::RegexError(string_of(line)));
    }
    if n > FILLER_START && hex_digit(line[FILLER_START]) {
        return Err(MemoryMapError::RegexError(string_of(line)));
    }
    let k = find_name(line, FILLER_START);
    if has_line_feed(line, k) {
        return Err(MemoryMapError::RegexError(string_of(line)));
    }
    proof {
        lemma_hex_value_fits(line@.subrange(0, ADDRESS_DIGITS as int));
        lemma_hex_value_fits(line@.subrange(ADDRESS_DIGITS + 1, FILLER_START as int));
    }
    let low = string_of(slice_subrange(line, 0, ADDRESS_DIGITS));
    let start = match parse_hex(low.as_str()) {
        Ok(v) => v,
        Err(e) => return Err(MemoryMapError::ParseIntError(string_of(line), e)),
    };
    let high = string_of(slice_subrange(line, ADDRESS_DIGITS + 1, FILLER_START));
    let end = match parse_hex(high.as_str()) {
        Ok(v) => v,
        Err(e) => return Err(MemoryMapError::ParseIntError(string_of(line), e)),
    };
    let path = string_of(slice_subrange(line, k, n));
    Ok(Region { start, end, path })
}

impl Region {
    /// Reads one line of a map. The line is accepted if and only if it has
    /// the form that [`line_matches`] describes; the region then holds its two
    /// addresses and, as its path, the line from the first `/` or `[` after the
    /// addresses on (nothing, if there is none). A line of another form, one
    /// with an address of more or fewer than twelve digits among them, is
    /// handed back in `RegexError`.
    pub fn from_str(s: &str) -> (r: Result<Region, MemoryMapError>)
        ensures
            parse_region(s@) == match r {
                Ok(region) => Ok(region@),
                Err(e) => Err(e@),
            },
    {
        let chars = chars_of(s);
        parse_line(chars.as_slice())
    }

    /// Whether the region is mapped from a file: whether its path begins
    /// with `/`.
    pub fn is_file_backed(&self) -> (b: bool)
        ensures
            b == file_backed(self@),
    {
        let path = self.path.as_str();
        !path.is_empty() && path.get_char(0) == '/'
    }
}

} // verus!
