use vstd::prelude::*;

use crate::context::Asset;

verus! {

/// A position in a text file: a zero-based line and a byte column.
#[derive(PartialEq, Eq, Structural, Clone, Copy, Debug)]
pub struct SourcePos {
    pub line: usize,
    pub column: usize,
}

impl SourcePos {
    /// The first position of a file.
    pub fn start() -> (r: Self)
        ensures
            r.line == 0 && r.column == 0,
    {
        SourcePos { line: 0, column: 0 }
    }

    /// A position after every position of any file.
    pub fn max() -> (r: Self)
        ensures
            r.line == usize::MAX && r.column == usize::MAX,
    {
        SourcePos { line: usize::MAX, column: usize::MAX }
    }
}

/// The byte offsets at which the lines of `c` start: zero, and one past
/// every newline.
pub open spec fn line_starts_of(c: Seq<u8>) -> Seq<usize>
    decreases c.len(),
{
    if c.len() == 0 {
        seq![0usize]
    } else if c.last() == 10u8 {
        line_starts_of(c.drop_last()).push(c.len() as usize)
    } else {
        line_starts_of(c.drop_last())
    }
}

pub open spec fn strictly_increasing(s: Seq<usize>) -> bool {
    forall|i: int, j: int| 0 <= i < j < s.len() ==> s[i] < s[j]
}

/// Whether some bytes are valid UTF-8 text.
pub uninterp spec fn is_utf8(b: Seq<u8>) -> bool;

/// Relies on `std::str::from_utf8`: it succeeds exactly on valid UTF-8.
#[verifier::external_body]
fn utf8_valid(b: &[u8]) -> (r: bool)
    ensures
        r == is_utf8(b@),
{
    std::str::from_utf8(b).is_ok()
}

/// The line index of a file: the starts of its lines, or nothing where the
/// content is not text.
#[derive(Debug)]
pub enum FileLinesContent {
    Lines(Vec<usize>),
    Unparseable,
}

proof fn lemma_line_starts_shape(c: Seq<u8>)
    requires
        c.len() <= usize::MAX,
    ensures
        line_starts_of(c).len() > 0,
        line_starts_of(c)[0] == 0,
        strictly_increasing(line_starts_of(c)),
        forall|k: int| 0 <= k < line_starts_of(c).len() ==> #[trigger] line_starts_of(c)[k] <= c.len(),
    decreases c.len(),
{
    if c.len() > 0 {
        let init = c.drop_last();
        lemma_line_starts_shape(init);
        if c.last() == 10u8 {
            let s = line_starts_of(init);
            let t = s.push(c.len() as usize);
            assert forall|i: int, j: int| 0 <= i < j < t.len() implies t[i] < t[j] by {
                assert(t[i] == s[i]);
                if j == t.len() - 1 {
                    assert(s[i] <= init.len());
                } else {
                    assert(t[j] == s[j]);
                }
            }
        }
    }
}

/// The starts of the lines of `content`.
pub fn line_starts(content: &[u8]) -> (r: Vec<usize>)
    ensures
        r@ == line_starts_of(content@),
        r@.len() > 0 && r@[0] == 0,
        strictly_increasing(r@),
{
    let mut out: Vec<usize> = Vec::new();
    out.push(0);
    let mut i: usize = 0;
    assert(out@ =~= line_starts_of(content@.subrange(0, 0)));
    while i < content.len()
        invariant
            i <= content@.len(),
            out@ == line_starts_of(content@.subrange(0, i as int)),
        decreases content@.len() - i,
    {
        let ghost pre = content@.subrange(0, i + 1);
        assert(pre.drop_last() =~= content@.subrange(0, i as int));
        if content[i] == 10u8 {
            out.push(i + 1);
        }
        i = i + 1;
    }
    assert(content@.subrange(0, i as int) =~= content@);
    proof {
        lemma_line_starts_shape(content@);
    }
    out
}

impl FileLinesContent {
    /// The line index of some content: text is indexed, other bytes are not.
    pub fn of(content: &[u8]) -> (r: Self)
        ensures
            is_utf8(content@) ==> (r matches FileLinesContent::Lines(v) && v@ == line_starts_of(
                content@,
            )),
            !is_utf8(content@) ==> r is Unparseable,
    {
        if utf8_valid(content) {
            FileLinesContent::Lines(line_starts(content))
        } else {
            FileLinesContent::Unparseable
        }
    }
}

/// `pos` is where byte offset `o` lies for the line starts `lines`: on the
/// last line that starts at or before `o`, or on the first line where no
/// line starts that early.
pub open spec fn is_position(lines: Seq<usize>, o: usize, pos: SourcePos) -> bool {
    if lines.len() == 0 || lines[0] > o {
        pos.line == 0 && pos.column == o
    } else {
        &&& pos.line < lines.len()
        &&& lines[pos.line as int] <= o
        &&& (pos.line + 1 == lines.len() || lines[pos.line + 1] > o)
        &&& pos.column == o - lines[pos.line as int]
    }
}

/// The line and column of a byte offset, found by binary search over the
/// starts of the lines.
pub fn find_line_and_column(lines: &Vec<usize>, offset: usize) -> (r: SourcePos)
    requires
        strictly_increasing(lines@),
    ensures
        is_position(lines@, offset, r),
{
    let mut lo: usize = 0;
    let mut hi: usize = lines.len();
    while lo < hi
        invariant
            strictly_increasing(lines@),
            lo <= hi <= lines@.len(),
            forall|k: int| 0 <= k < lo ==> lines@[k] <= offset,
            forall|k: int| hi <= k < lines@.len() ==> lines@[k] > offset,
        decreases hi - lo,
    {
        let mid = lo + (hi - lo) / 2;
        if lines[mid] <= offset {
            lo = mid + 1;
        } else {
            hi = mid;
        }
    }
    if lo == 0 {
        SourcePos { line: 0, column: offset }
    } else {
        SourcePos { line: lo - 1, column: offset - lines[lo - 1] }
    }
}

/// Where a line index can be had, a position found from an offset leads
/// back to that offset: the start of its line plus its column.
pub proof fn lemma_position_round_trip(lines: Seq<usize>, o: usize, pos: SourcePos)
    requires
        lines.len() > 0,
        lines[0] == 0,
        is_position(lines, o, pos),
    ensures
        pos.line < lines.len(),
        lines[pos.line as int] + pos.column == o,
{
}

/// A span of an asset, as line and column positions.
#[derive(Debug)]
pub struct IssueSource {
    pub asset: Asset,
    pub start: SourcePos,
    pub end: SourcePos,
}

impl IssueSource {
    /// The span of byte offsets `start..end` of `asset`, given the asset's
    /// line index: positions found by line where there is one, and otherwise
    /// the whole file, from the first position to the last possible one.
    pub fn from_lines(asset: Asset, lines: &FileLinesContent, start: usize, end: usize) -> (r:
        Self)
        requires
            lines matches FileLinesContent::Lines(v) ==> strictly_increasing(v@),
        ensures
            r.asset == asset,
            match lines {
                FileLinesContent::Lines(v) => is_position(v@, start, r.start) && is_position(
                    v@,
                    end,
                    r.end,
                ),
                FileLinesContent::Unparseable => r.start.line == 0 && r.start.column == 0
                    && r.end.line == usize::MAX && r.end.column == usize::MAX,
            },
    {
        match lines {
            FileLinesContent::Lines(v) => {
                let s = find_line_and_column(v, start);
                let e = find_line_and_column(v, end);
                IssueSource { asset, start: s, end: e }
            },
            FileLinesContent::Unparseable => IssueSource {
                asset,
                start: SourcePos::start(),
                end: SourcePos::max(),
            },
        }
    }

    /// The span of byte offsets `start..end` of `asset`: positions found by
    /// line where the content is text, and otherwise the whole file.
    pub fn from_byte_offset(asset: Asset, start: usize, end: usize) -> (r: Self)
        ensures
            r.asset == asset,
            is_utf8(asset.content@) ==> is_position(line_starts_of(asset.content@), start, r.start)
                && is_position(line_starts_of(asset.content@), end, r.end),
            !is_utf8(asset.content@) ==> r.start.line == 0 && r.start.column == 0 && r.end.line
                == usize::MAX && r.end.column == usize::MAX,
    {
        let lines = FileLinesContent::of(asset.content.as_slice());
        proof {
            assert(asset.content@.len() == asset.content.len());
            lemma_line_starts_shape(asset.content@);
        }
        IssueSource::from_lines(asset, &lines, start, end)
    }
}

} // verus!
