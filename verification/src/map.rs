//! The memory map of a traced process: the file-backed regions of its
//! address space, read from the text of the kernel's `maps` file.

use crate::order::{
    insert_point, lemma_insert_point, lemma_sort_by_start, lemma_sort_ignores_order,
    sort_by_start, sorted_by_start, distinct_starts,
};
use crate::region::{
    file_backed, line_matches, parse_line, region_of, MapErrorView, MemoryMapError, Region,
    RegionView,
};
use crate::text::chars_of;
use vstd::prelude::*;
use vstd::slice::slice_subrange;

verus! {

/// The number of characters of `text` from `from` up to the next line feed,
/// or up to the end of `text` if no line feed follows.
pub open spec fn line_len(text: Seq<char>, from: int) -> nat
    decreases text.len() - from,
{
    if from >= text.len() || text[from] == '\n' {
        0
    } else {
        1 + line_len(text, from + 1)
    }
}

/// `line` without the carriage return at its end, if it has one.
pub open spec fn strip_cr(line: Seq<char>) -> Seq<char> {
    if line.len() > 0 && line.last() == '\r' {
        line.drop_last()
    } else {
        line
    }
}

/// The lines of `text` from `from` on. A line ends at a line feed, or at a
/// carriage return that a line feed follows; neither belongs to the line. A
/// last line need not be ended, and no line follows the last line feed.
pub open spec fn lines_from(text: Seq<char>, from: int) -> Seq<Seq<char>>
    decreases text.len() - from,
{
    if from >= text.len() {
        Seq::empty()
    } else {
        let end = from + line_len(text, from);
        if end >= text.len() {
            seq![text.subrange(from, text.len() as int)]
        } else {
            seq![strip_cr(text.subrange(from, end))] + lines_from(text, end + 1)
        }
    }
}

/// The lines of `text`.
pub open spec fn lines_of(text: Seq<char>) -> Seq<Seq<char>> {
    lines_from(text, 0)
}

/// `c` is white space: a space, a tab, a line feed, a form feed or a carriage
/// return.
pub open spec fn is_space(c: char) -> bool {
    c == ' ' || c == '\t' || c == '\n' || c == '\x0c' || c == '\r'
}

/// `line` is blank: it is empty, or holds white space only.
pub open spec fn is_blank(line: Seq<char>) -> bool {
    forall|i: int| 0 <= i < line.len() ==> is_space(#[trigger] line[i])
}

/// Those of `lines` that are not blank, in their order.
pub open spec fn non_blank(lines: Seq<Seq<char>>) -> Seq<Seq<char>> {
    lines.filter(|line: Seq<char>| !is_blank(line))
}

/// The lines of `text` that are not blank.
pub open spec fn content_lines(text: Seq<char>) -> Seq<Seq<char>> {
    non_blank(lines_of(text))
}

/// The regions of `lines` that are mapped from a file, in the order of the
/// lines.
pub open spec fn retained(lines: Seq<Seq<char>>) -> Seq<RegionView> {
    lines.map_values(|line: Seq<char>| region_of(line)).filter(
        |region: RegionView| file_backed(region),
    )
}

/// The views of a sequence of regions.
pub open spec fn views_of(regions: Seq<Region>) -> Seq<RegionView> {
    regions.map_values(|region: Region| region@)
}

/// `addr` lies in the region, both ends included.
pub open spec fn holds(region: RegionView, addr: u64) -> bool {
    region.start <= addr && addr <= region.end
}

/// The path of the first of `regions` that holds `addr`, if one does.
pub open spec fn lookup_path(regions: Seq<RegionView>, addr: u64) -> Option<Seq<char>>
    decreases regions.len(),
{
    if regions.len() == 0 {
        None
    } else if holds(regions.first(), addr) {
        Some(regions.first().path)
    } else {
        lookup_path(regions.drop_first(), addr)
    }
}

/// The path that a lookup finds is the path of the first region that holds
/// the address; a lookup finds nothing if and only if no region holds it.
pub proof fn lemma_lookup_path(regions: Seq<RegionView>, addr: u64)
    ensures
        match lookup_path(regions, addr) {
            Some(path) => exists|i: int|
                0 <= i < regions.len() && holds(#[trigger] regions[i], addr) && regions[i].path
                    == path && forall|j: int| 0 <= j < i ==> !holds(#[trigger] regions[j], addr),
            None => forall|i: int| 0 <= i < regions.len() ==> !holds(#[trigger] regions[i], addr),
        },
    decreases regions.len(),
{
    if regions.len() > 0 {
        let rest = regions.drop_first();
        if holds(regions.first(), addr) {
            assert(holds(regions[0], addr));
        } else {
            lemma_lookup_path(rest, addr);
            match lookup_path(rest, addr) {
                Some(path) => {
                    let i = choose|i: int|
                        0 <= i < rest.len() && holds(#[trigger] rest[i], addr) && rest[i].path
                            == path && forall|j: int|
                            0 <= j < i ==> !holds(#[trigger] rest[j], addr);
                    assert(holds(regions[i + 1], addr));
                    assert forall|j: int| 0 <= j < i + 1 implies !holds(
                        #[trigger] regions[j],
                        addr,
                    ) by {
                        if j > 0 {
                            assert(regions[j] == rest[j - 1]);
                        }
                    }
                },
                None => {
                    assert forall|i: int| 0 <= i < regions.len() implies !holds(
                        #[trigger] regions[i],
                        addr,
                    ) by {
                        if i > 0 {
                            assert(regions[i] == rest[i - 1]);
                        }
                    }
                },
            }
        }
    }
}

/// A lookup of an address that a region holds finds the path of that region,
/// where every region in front of it that holds the address too has the
/// same path.
pub proof fn lemma_lookup_in_region(regions: Seq<RegionView>, i: int, addr: u64)
    requires
        0 <= i < regions.len(),
        holds(regions[i], addr),
        forall|j: int|
            0 <= j < i && holds(#[trigger] regions[j], addr) ==> regions[j].path
                == regions[i].path,
    ensures
        lookup_path(regions, addr) == Some(regions[i].path),
    decreases regions.len(),
{
    if !holds(regions.first(), addr) {
        let rest = regions.drop_first();
        assert forall|j: int| 0 <= j < i - 1 && holds(#[trigger] rest[j], addr) implies rest[j].path
            == rest[i - 1].path by {
            assert(rest[j] == regions[j + 1]);
        }
        lemma_lookup_in_region(rest, i - 1, addr);
    } else {
        assert(holds(regions[0], addr));
    }
}

/// Lookups of the first and of the last address of a region find the path of
/// that region, where every region in front of it that holds that address too
/// has the same path. (A region in front that ends where this one starts holds
/// the first address; if it has another path, the lookup finds that one.)
pub proof fn lemma_lookup_at_bounds(regions: Seq<RegionView>, i: int)
    requires
        0 <= i < regions.len(),
        regions[i].start <= regions[i].end,
        forall|j: int|
            0 <= j < i && (holds(#[trigger] regions[j], regions[i].start) || holds(
                regions[j],
                regions[i].end,
            )) ==> regions[j].path == regions[i].path,
    ensures
        lookup_path(regions, regions[i].start) == Some(regions[i].path),
        lookup_path(regions, regions[i].end) == Some(regions[i].path),
{
    lemma_lookup_in_region(regions, i, regions[i].start);
    lemma_lookup_in_region(regions, i, regions[i].end);
}

/// The first line of `lines` that does not have the form of a region, if
/// there is one.
pub open spec fn first_mismatch(lines: Seq<Seq<char>>) -> Option<Seq<char>>
    decreases lines.len(),
{
    if lines.len() == 0 {
        None
    } else if !line_matches(lines.first()) {
        Some(lines.first())
    } else {
        first_mismatch(lines.drop_first())
    }
}

/// What the text of a map stands for. Blank lines are passed over. Of the
/// others, the first that cannot be read is the error, if there is one; else
/// the text stands for the regions mapped from files, in ascending order of
/// `start`.
pub open spec fn parse_map(text: Seq<char>) -> Result<Seq<RegionView>, MapErrorView> {
    match first_mismatch(content_lines(text)) {
        Some(line) => Err(MapErrorView::RegexError(line)),
        None => Ok(sort_by_start(retained(content_lines(text)))),
    }
}

/// The memory map of one process at one moment: its regions that are mapped
/// from files.
#[derive(Debug, Clone, PartialEq, Eq)]
pub struct MemoryMap {
    pub files: Vec<Region>,
}

impl View for MemoryMap {
    type V = Seq<RegionView>;

    open spec fn view(&self) -> Seq<RegionView> {
        views_of(self.files@)
    }
}

/// What holds of the regions of every map that was read from text: they are
/// in ascending order of `start`, and each is mapped from a file.
pub open spec fn well_formed(regions: Seq<RegionView>) -> bool {
    &&& sorted_by_start(regions)
    &&& forall|i: int| 0 <= i < regions.len() ==> file_backed(#[trigger] regions[i])
}

/// The lines that are not blank, with one more line.
proof fn lemma_non_blank_push(lines: Seq<Seq<char>>, line: Seq<char>)
    ensures
        non_blank(lines.push(line)) == if is_blank(line) {
            non_blank(lines)
        } else {
            non_blank(lines).push(line)
        },
{
    lines.lemma_filter_push(line, |line: Seq<char>| !is_blank(line));
}

/// The lines that are not blank, of two runs of lines, one behind the other.
proof fn lemma_non_blank_concat(front: Seq<Seq<char>>, back: Seq<Seq<char>>)
    ensures
        non_blank(front + back) == non_blank(front) + non_blank(back),
{
    Seq::filter_distributes_over_add(front, back, |line: Seq<char>| !is_blank(line));
}

/// Behind lines that can all be read, the first mismatch is that of the
/// lines that follow.
proof fn lemma_first_mismatch_behind(front: Seq<Seq<char>>, back: Seq<Seq<char>>)
    requires
        first_mismatch(front) is None,
    ensures
        first_mismatch(front + back) == first_mismatch(back),
    decreases front.len(),
{
    if front.len() == 0 {
        assert(front + back == back);
    } else {
        assert((front + back).first() == front.first());
        assert((front + back).drop_first() == front.drop_first() + back);
        lemma_first_mismatch_behind(front.drop_first(), back);
    }
}

/// Lines that can all be read can still all be read with one more such line.
proof fn lemma_first_mismatch_push(lines: Seq<Seq<char>>, line: Seq<char>)
    requires
        first_mismatch(lines) is None,
        line_matches(line),
    ensures
        first_mismatch(lines.push(line)) is None,
{
    let single = seq![line];
    assert(single.first() == line);
    assert(single.drop_first() == Seq::<Seq<char>>::empty());
    assert(first_mismatch(Seq::<Seq<char>>::empty()) is None);
    assert(first_mismatch(single) is None);
    assert(lines.push(line) == lines + single);
    lemma_first_mismatch_behind(lines, single);
}

/// The regions of the lines, with one more line.
proof fn lemma_retained_push(lines: Seq<Seq<char>>, line: Seq<char>)
    ensures
        retained(lines.push(line)) == if file_backed(region_of(line)) {
            retained(lines).push(region_of(line))
        } else {
            retained(lines)
        },
{
    let read = |line: Seq<char>| region_of(line);
    let keep = |region: RegionView| file_backed(region);
    assert(lines.push(line).map_values(read) == lines.map_values(read).push(region_of(line)));
    lines.map_values(read).lemma_filter_push(region_of(line), keep);
}

/// The regions of two runs of lines, one behind the other.
proof fn lemma_retained_concat(front: Seq<Seq<char>>, back: Seq<Seq<char>>)
    ensures
        retained(front + back) == retained(front) + retained(back),
{
    let read = |line: Seq<char>| region_of(line);
    let keep = |region: RegionView| file_backed(region);
    assert((front + back).map_values(read) == front.map_values(read) + back.map_values(read));
    Seq::filter_distributes_over_add(front.map_values(read), back.map_values(read), keep);
}

/// Lines that are the same up to their order hold the same regions.
proof fn lemma_retained_permutes(a: Seq<Seq<char>>, b: Seq<Seq<char>>)
    requires
        a.to_multiset() == b.to_multiset(),
    ensures
        retained(a).to_multiset() == retained(b).to_multiset(),
    decreases a.len(),
{
    broadcast use vstd::seq_lib::group_to_multiset_ensures;

    vstd::seq_lib::to_multiset_len(a);
    vstd::seq_lib::to_multiset_len(b);
    if a.len() == 0 {
        assert(a == b);
    } else {
        let last = a.last();
        let init = a.drop_last();
        assert(b.to_multiset().count(last) > 0);
        assert(b.contains(last));
        let i = choose|i: int| 0 <= i < b.len() && b[i] == last;
        let rest = b.remove(i);
        assert(a.remove(a.len() - 1) == init);
        assert(init.to_multiset() == rest.to_multiset());
        lemma_retained_permutes(init, rest);
        let single = seq![last];
        let head = b.take(i);
        let tail = b.skip(i + 1);
        assert(a == init + single);
        assert(b == head + single + tail);
        assert(rest == head + tail);
        lemma_retained_concat(init, single);
        lemma_retained_concat(head, single);
        lemma_retained_concat(head + single, tail);
        lemma_retained_concat(head, tail);
        vstd::seq_lib::lemma_multiset_commutative(retained(init), retained(single));
        vstd::seq_lib::lemma_multiset_commutative(retained(head), retained(single));
        vstd::seq_lib::lemma_multiset_commutative(
            retained(head) + retained(single),
            retained(tail),
        );
        vstd::seq_lib::lemma_multiset_commutative(retained(head), retained(tail));
        assert(retained(b).to_multiset() == retained(rest).to_multiset().add(
            retained(single).to_multiset(),
        ));
    }
}

/// No line is a mismatch if and only if every line has the form of a region.
proof fn lemma_first_mismatch(lines: Seq<Seq<char>>)
    ensures
        first_mismatch(lines) is None <==> forall|i: int|
            0 <= i < lines.len() ==> line_matches(#[trigger] lines[i]),
    decreases lines.len(),
{
    if lines.len() > 0 {
        let rest = lines.drop_first();
        lemma_first_mismatch(rest);
        if line_matches(lines.first()) {
            if first_mismatch(rest) is None {
                assert forall|i: int| 0 <= i < lines.len() implies line_matches(
                    #[trigger] lines[i],
                ) by {
                    if i > 0 {
                        assert(lines[i] == rest[i - 1]);
                    }
                }
            } else {
                let i = choose|i: int| 0 <= i < rest.len() && !line_matches(#[trigger] rest[i]);
                assert(lines[i + 1] == rest[i]);
            }
        } else {
            assert(!line_matches(lines[0]));
        }
    }
}

/// The order of the lines of a text does not matter, where every line that
/// is not blank can be read and no two regions that are kept start at the
/// same address: a text with the same lines that are not blank, in another
/// order, stands for the same map.
pub proof fn lemma_map_ignores_line_order(a: Seq<char>, b: Seq<char>)
    requires
        parse_map(a) is Ok,
        content_lines(a).to_multiset() == content_lines(b).to_multiset(),
        distinct_starts(retained(content_lines(a))),
    ensures
        parse_map(b) == parse_map(a),
{
    broadcast use vstd::seq_lib::group_to_multiset_ensures;

    let first = content_lines(a);
    let second = content_lines(b);
    lemma_first_mismatch(first);
    lemma_first_mismatch(second);
    assert forall|i: int| 0 <= i < second.len() implies line_matches(#[trigger] second[i]) by {
        assert(second.to_multiset().count(second[i]) > 0);
        assert(first.contains(second[i]));
    }
    lemma_retained_permutes(first, second);
    lemma_sort_ignores_order(retained(first), retained(second));
}

/// Every region of the lines is mapped from a file.
proof fn lemma_retained_file_backed(lines: Seq<Seq<char>>)
    ensures
        forall|i: int|
            0 <= i < retained(lines).len() ==> file_backed(#[trigger] retained(lines)[i]),
{
    let read = |line: Seq<char>| region_of(line);
    let keep = |region: RegionView| file_backed(region);
    assert forall|i: int| 0 <= i < retained(lines).len() implies file_backed(
        #[trigger] retained(lines)[i],
    ) by {
        lines.map_values(read).lemma_filter_pred(keep, i);
    }
}

/// Sorting regions that are mapped from files yields a well-formed sequence.
pub proof fn lemma_sort_well_formed(regions: Seq<RegionView>)
    requires
        forall|i: int| 0 <= i < regions.len() ==> file_backed(#[trigger] regions[i]),
    ensures
        well_formed(sort_by_start(regions)),
{
    broadcast use vstd::seq_lib::group_to_multiset_ensures;

    lemma_sort_by_start(regions);
    let sorted = sort_by_start(regions);
    assert forall|i: int| 0 <= i < sorted.len() implies file_backed(#[trigger] sorted[i]) by {
        assert(sorted.to_multiset().count(sorted[i]) > 0);
        assert(regions.contains(sorted[i]));
    }
}

/// The end of the line of `text` that begins at `from`: the place of the next
/// line feed, or the length of `text`.
fn find_line_end(text: &[char], from: usize) -> (end: usize)
    requires
        from <= text@.len(),
    ensures
        end == from + line_len(text@, from as int),
        from <= end <= text@.len(),
{
    let mut i: usize = from;
    while i < text.len() && text[i] != '\n'
        invariant
            from <= i <= text@.len(),
            from + line_len(text@, from as int) == i + line_len(text@, i as int),
        decreases text@.len() - i,
    {
        i += 1;
    }
    i
}

/// Whether `line` is blank.
fn blank(line: &[char]) -> (b: bool)
    ensures
        b == is_blank(line@),
{
    let mut i: usize = 0;
    while i < line.len()
        invariant
            i <= line@.len(),
            forall|j: int| 0 <= j < i ==> is_space(#[trigger] line@[j]),
        decreases line@.len() - i,
    {
        let c = line[i];
        if !(c == ' ' || c == '\t' || c == '\n' || c == '\x0c' || c == '\r') {
            return false;
        }
        i += 1;
    }
    true
}

/// Puts `region` into `files` behind the last region that starts at or before
/// it.
fn insert_region(files: &mut Vec<Region>, region: Region)
    ensures
        views_of(final(files)@) == views_of(old(files)@).insert(
            insert_point(views_of(old(files)@), region.start),
            region@,
        ),
{
    let ghost before = views_of(files@);
    let mut i: usize = files.len();
    assert(before.take(i as int) == before);
    while i > 0 && files[i - 1].start > region.start
        invariant
            i <= files@.len(),
            views_of(files@) == before,
            insert_point(before, region.start) == insert_point(before.take(i as int), region.start),
        decreases i,
    {
        assert(before.take(i as int).drop_last() == before.take(i - 1));
        i -= 1;
    }
    proof {
        lemma_insert_point(before, region.start);
    }
    files.insert(i, region);
    assert(views_of(files@) == before.insert(i as int, region@));
}

impl MemoryMap {
    /// The regions are in ascending order of `start`, and each is mapped from a
    /// file.
    pub open spec fn wf(&self) -> bool {
        well_formed(self@)
    }

    /// The path of the first region that holds `addr`, both ends of a region
    /// included; `None` if and only if no region holds `addr`.
    pub fn lookup(&self, addr: u64) -> (r: Option<&str>)
        ensures
            match r {
                Some(path) => lookup_path(self@, addr) == Some(path@),
                None => lookup_path(self@, addr) is None,
            },
            match r {
                Some(path) => exists|i: int|
                    0 <= i < self@.len() && holds(#[trigger] self@[i], addr) && self@[i].path
                        == path@ && forall|j: int| 0 <= j < i ==> !holds(#[trigger] self@[j], addr),
                None => forall|i: int| 0 <= i < self@.len() ==> !holds(#[trigger] self@[i], addr),
            },
    {
        let mut i: usize = 0;
        assert(self@.skip(0) == self@);
        while i < self.files.len()
            invariant
                i <= self.files@.len(),
                lookup_path(self@, addr) == lookup_path(self@.skip(i as int), addr),
            decreases self.files@.len() - i,
        {
            let file = &self.files[i];
            assert(self@.skip(i as int).first() == file@);
            if file.start <= addr && addr <= file.end {
                proof {
                    lemma_lookup_path(self@, addr);
                }
                return Some(file.path.as_str());
            }
            assert(self@.skip(i as int).drop_first() == self@.skip(i + 1));
            i += 1;
        }
        proof {
            lemma_lookup_path(self@, addr);
        }
        None
    }

    /// Reads the text of a map. Blank lines, which are empty or hold white
    /// space only, are passed over. Every other line must have the form of a
    /// region: the first one that does not is handed back in `RegexError`. Of
    /// the regions, those whose path begins with `/` are kept, in ascending
    /// order of `start`, regions that start at the same address in the order
    /// of their lines.
    pub fn from_str(s: &str) -> (r: Result<MemoryMap, MemoryMapError>)
        ensures
            parse_map(s@) == match r {
                Ok(map) => Ok(map@),
                Err(e) => Err(e@),
            },
            r matches Ok(map) ==> map.wf(),
    {
        let chars = chars_of(s);
        let text = chars.as_slice();
        let n = text.len();
        let mut files: Vec<Region> = Vec::new();
        let mut pos: usize = 0;
        let ghost mut seen: Seq<Seq<char>> = Seq::empty();
        let ghost mut done: Seq<Seq<char>> = Seq::empty();
        assert(views_of(files@) == Seq::<RegionView>::empty());
        proof {
            reveal(Seq::filter);
        }
        assert(non_blank(seen) == done);
        while pos < n
            invariant
                text@ == s@,
                n == text@.len(),
                pos <= n,
                lines_of(s@) == seen + lines_from(s@, pos as int),
                done == non_blank(seen),
                first_mismatch(done) is None,
                views_of(files@) == sort_by_start(retained(done)),
            decreases n - pos,
        {
            let end = find_line_end(text, pos);
            let stop = if end < n && end > pos && text[end - 1] == '\r' {
                end - 1
            } else {
                end
            };
            let next = if end < n {
                end + 1
            } else {
                n
            };
            let line = slice_subrange(text, pos, stop);
            let ghost rest = lines_from(s@, next as int);
            proof {
                let whole = s@.subrange(pos as int, end as int);
                if end < n {
                    if end > pos && text[end - 1] == '\r' {
                        assert(whole.last() == '\r');
                        assert(whole.drop_last() == line@);
                    }
                    assert(strip_cr(whole) == line@);
                } else {
                    assert(rest == Seq::<Seq<char>>::empty());
                    assert(seq![line@] + rest == seq![line@]);
                }
            }
            assert(lines_from(s@, pos as int) == seq![line@] + rest);
            assert(seen + (seq![line@] + rest) == seen.push(line@) + rest);
            proof {
                lemma_non_blank_push(seen, line@);
            }
            if !blank(line) {
                match parse_line(line) {
                    Err(e) => {
                        proof {
                            let single = seq![line@];
                            lemma_non_blank_concat(seen.push(line@), rest);
                            assert(done.push(line@) + non_blank(rest) == done + (single
                                + non_blank(rest)));
                            assert((single + non_blank(rest)).first() == line@);
                            lemma_first_mismatch_behind(done, single + non_blank(rest));
                        }
                        return Err(e);
                    },
                    Ok(region) => {
                        proof {
                            lemma_retained_push(done, line@);
                            lemma_first_mismatch_push(done, line@);
                            assert(done.push(line@).drop_last() == done);
                        }
                        if region.is_file_backed() {
                            proof {
                                assert(retained(done.push(line@)).drop_last() == retained(done));
                            }
                            insert_region(&mut files, region);
                        }
                        proof {
                            done = done.push(line@);
                        }
                    },
                }
            }
            proof {
                seen = seen.push(line@);
            }
            pos = next;
        }
        proof {
            assert(lines_of(s@) == seen);
            lemma_retained_file_backed(done);
            lemma_sort_well_formed(retained(done));
        }
        Ok(MemoryMap { files })
    }
}

} // verus!
