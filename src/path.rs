use vstd::prelude::*;
use vstd::string::{StrSliceExecFns, StringExecFns};

verus! {

/// The segments of `s` between `start` and the end, where a segment is a
/// maximal run of characters other than `/`; `start..i` is the part of the
/// current segment that has been scanned already.
pub open spec fn segments_from(s: Seq<char>, start: int, i: int) -> Seq<Seq<char>>
    decreases s.len() - i,
{
    if i >= s.len() {
        if start < i {
            seq![s.subrange(start, i)]
        } else {
            seq![]
        }
    } else if s[i] == '/' {
        (if start < i {
            seq![s.subrange(start, i)]
        } else {
            seq![]
        }) + segments_from(s, i + 1, i + 1)
    } else {
        segments_from(s, start, i + 1)
    }
}

/// The non-empty `/`-separated segments of a textual path.
pub open spec fn split_path(s: Seq<char>) -> Seq<Seq<char>> {
    segments_from(s, 0, 0)
}

/// The textual form of a list of segments: each segment preceded by `/`.
pub open spec fn joined(segs: Seq<Seq<char>>) -> Seq<char>
    decreases segs.len(),
{
    if segs.len() == 0 {
        seq![]
    } else {
        joined(segs.drop_last()) + seq!['/'] + segs.last()
    }
}

/// The textual form of an absolute path; the root is `/`.
pub open spec fn path_text(segs: Seq<Seq<char>>) -> Seq<char> {
    if segs.len() == 0 {
        seq!['/']
    } else {
        joined(segs)
    }
}

/// `inner` lies strictly below `dir`.
pub open spec fn strictly_inside(inner: Seq<Seq<char>>, dir: Seq<Seq<char>>) -> bool {
    dir.len() < inner.len() && inner.subrange(0, dir.len() as int) == dir
}

/// An absolute path in the file system abstraction, held as its segments.
#[derive(Debug)]
pub struct AbsoluteSystemPathBuf {
    pub segments: Vec<String>,
}

impl View for AbsoluteSystemPathBuf {
    type V = Seq<Seq<char>>;

    open spec fn view(&self) -> Seq<Seq<char>> {
        self.segments@.map_values(|s: String| s@)
    }
}

impl Clone for AbsoluteSystemPathBuf {
    fn clone(&self) -> (r: Self)
        ensures
            r.segments@ == self.segments@,
    {
        AbsoluteSystemPathBuf { segments: copy_strings(&self.segments) }
    }
}

/// An element-wise copy of a list of strings.
pub fn copy_strings(v: &Vec<String>) -> (r: Vec<String>)
    ensures
        r@ == v@,
{
    let mut out: Vec<String> = Vec::new();
    let mut i: usize = 0;
    while i < v.len()
        invariant
            i <= v@.len(),
            out@ == v@.subrange(0, i as int),
        decreases v@.len() - i,
    {
        out.push(v[i].clone());
        assert(out@ =~= v@.subrange(0, i + 1));
        i = i + 1;
    }
    assert(out@ =~= v@);
    out
}

impl AbsoluteSystemPathBuf {
    /// The path made of the given segments.
    pub fn new(segments: Vec<String>) -> (r: Self)
        ensures
            r.segments == segments,
    {
        AbsoluteSystemPathBuf { segments }
    }

    /// The root directory.
    pub fn root() -> (r: Self)
        ensures
            r.segments@.len() == 0,
    {
        AbsoluteSystemPathBuf { segments: Vec::new() }
    }

    /// Parses a textual path: empty segments (doubled or trailing `/`) are
    /// dropped.
    pub fn parse(s: &str) -> (r: Self)
        ensures
            r@ == split_path(s@),
    {
        let n = s.unicode_len();
        let mut out: Vec<String> = Vec::new();
        let mut start: usize = 0;
        let mut i: usize = 0;
        while i < n
            invariant
                n == s@.len(),
                start <= i <= n,
                out@.map_values(|x: String| x@) + segments_from(s@, start as int, i as int)
                    == split_path(s@),
            decreases n - i,
        {
            let c = s.get_char(i);
            if c == '/' {
                let ghost before = out@;
                if start < i {
                    let seg = String::from_str(s.substring_char(start, i));
                    out.push(seg);
                    assert(out@.map_values(|x: String| x@) =~= before.map_values(|x: String| x@)
                        + seq![s@.subrange(start as int, i as int)]);
                }
                proof {
                    if start >= i {
                        assert(out@.map_values(|x: String| x@) =~= before.map_values(|x: String| x@));
                    }
                    assert(out@.map_values(|x: String| x@) + segments_from(s@, i + 1, i + 1)
                        =~= before.map_values(|x: String| x@) + segments_from(s@, start as int, i as int));
                }
                start = i + 1;
            }
            i = i + 1;
        }
        let ghost before = out@;
        if start < n {
            let seg = String::from_str(s.substring_char(start, n));
            out.push(seg);
            assert(out@.map_values(|x: String| x@) =~= before.map_values(|x: String| x@)
                + seq![s@.subrange(start as int, n as int)]);
        } else {
            assert(out@.map_values(|x: String| x@) =~= before.map_values(|x: String| x@)
                + segments_from(s@, start as int, n as int));
        }
        AbsoluteSystemPathBuf { segments: out }
    }

    /// The directory that holds this path; the root is its own parent.
    pub fn parent(&self) -> (r: Self)
        ensures
            self.segments@.len() == 0 ==> r.segments@ == self.segments@,
            self.segments@.len() > 0 ==> r.segments@ == self.segments@.drop_last(),
            self@.len() == 0 ==> r@ == self@,
            self@.len() > 0 ==> r@ == self@.drop_last(),
    {
        let n = self.segments.len();
        let mut out: Vec<String> = Vec::new();
        let m: usize = if n == 0 { 0 } else { n - 1 };
        let mut i: usize = 0;
        while i < m
            invariant
                m <= n == self.segments@.len(),
                m == 0 || m == n - 1,
                i <= m,
                out@ == self.segments@.subrange(0, i as int),
            decreases m - i,
        {
            out.push(self.segments[i].clone());
            assert(out@ =~= self.segments@.subrange(0, i + 1));
            i = i + 1;
        }
        proof {
            if n == 0 {
                assert(out@ =~= self.segments@);
            } else {
                assert(out@ =~= self.segments@.drop_last());
                assert(out@.map_values(|s: String| s@) =~= self@.drop_last());
            }
        }
        AbsoluteSystemPathBuf { segments: out }
    }

    /// This path followed by the segments of `rest`.
    pub fn join(&self, rest: &AbsoluteSystemPathBuf) -> (r: Self)
        ensures
            r.segments@ == self.segments@ + rest.segments@,
            r@ == self@ + rest@,
    {
        let mut out = copy_strings(&self.segments);
        let mut i: usize = 0;
        while i < rest.segments.len()
            invariant
                i <= rest.segments@.len(),
                out@ == self.segments@ + rest.segments@.subrange(0, i as int),
            decreases rest.segments@.len() - i,
        {
            out.push(rest.segments[i].clone());
            assert(out@ =~= self.segments@ + rest.segments@.subrange(0, i + 1));
            i = i + 1;
        }
        assert(rest.segments@.subrange(0, i as int) =~= rest.segments@);
        assert(out@.map_values(|s: String| s@) =~= self@ + rest@);
        AbsoluteSystemPathBuf { segments: out }
    }

    /// Whether the two paths name the same place.
    pub fn same_as(&self, other: &AbsoluteSystemPathBuf) -> (r: bool)
        ensures
            r == (self@ == other@),
    {
        if self.segments.len() != other.segments.len() {
            return false;
        }
        let mut i: usize = 0;
        while i < self.segments.len()
            invariant
                self.segments@.len() == other.segments@.len(),
                i <= self.segments@.len(),
                self@.subrange(0, i as int) == other@.subrange(0, i as int),
            decreases self.segments@.len() - i,
        {
            if self.segments[i] != other.segments[i] {
                assert(self@[i as int] != other@[i as int]);
                return false;
            }
            assert(self@.subrange(0, i + 1) =~= self@.subrange(0, i as int).push(self@[i as int]));
            assert(other@.subrange(0, i + 1) =~= other@.subrange(0, i as int).push(other@[i as int]));
            i = i + 1;
        }
        assert(self@ =~= self@.subrange(0, i as int));
        assert(other@ =~= other@.subrange(0, i as int));
        true
    }

    /// Whether this path lies strictly below `dir`.
    pub fn is_inside(&self, dir: &AbsoluteSystemPathBuf) -> (r: bool)
        ensures
            r == strictly_inside(self@, dir@),
    {
        if dir.segments.len() >= self.segments.len() {
            return false;
        }
        let mut i: usize = 0;
        while i < dir.segments.len()
            invariant
                dir.segments@.len() < self.segments@.len(),
                i <= dir.segments@.len(),
                self@.subrange(0, i as int) == dir@.subrange(0, i as int),
            decreases dir.segments@.len() - i,
        {
            if self.segments[i] != dir.segments[i] {
                assert(self@.subrange(0, dir@.len() as int)[i as int] != dir@[i as int]);
                return false;
            }
            assert(self@.subrange(0, i + 1) =~= self@.subrange(0, i as int).push(self@[i as int]));
            assert(dir@.subrange(0, i + 1) =~= dir@.subrange(0, i as int).push(dir@[i as int]));
            i = i + 1;
        }
        assert(dir@ =~= dir@.subrange(0, i as int));
        true
    }

    /// The textual form of the path, such as `/src/index.js`.
    pub fn to_text(&self) -> (r: String)
        ensures
            r@ == path_text(self@),
    {
        if self.segments.len() == 0 {
            proof {
                reveal_strlit("/");
            }
            return String::from_str("/");
        }
        let mut out = String::new();
        let mut i: usize = 0;
        while i < self.segments.len()
            invariant
                i <= self.segments@.len(),
                out@ == joined(self@.subrange(0, i as int)),
            decreases self.segments@.len() - i,
        {
            out.append("/");
            out.append(self.segments[i].as_str());
            proof {
                let pre = self@.subrange(0, i + 1);
                assert(pre.drop_last() =~= self@.subrange(0, i as int));
                reveal_strlit("/");
            }
            i = i + 1;
        }
        assert(self@.subrange(0, i as int) =~= self@);
        out
    }
}

impl<'a> From<&'a str> for AbsoluteSystemPathBuf {
    fn from(s: &'a str) -> (r: Self)
        ensures
            r@ == split_path(s@),
    {
        AbsoluteSystemPathBuf::parse(s)
    }
}

impl<'a> vstd::std_specs::convert::FromSpecImpl<&'a str> for AbsoluteSystemPathBuf {
    open spec fn obeys_from_spec() -> bool {
        false
    }

    open spec fn from_spec(v: &'a str) -> Self {
        arbitrary()
    }
}

impl From<AbsoluteSystemPathBuf> for String {
    fn from(p: AbsoluteSystemPathBuf) -> (r: Self)
        ensures
            r@ == path_text(p@),
    {
        p.to_text()
    }
}

impl vstd::std_specs::convert::FromSpecImpl<AbsoluteSystemPathBuf> for String {
    open spec fn obeys_from_spec() -> bool {
        false
    }

    open spec fn from_spec(v: AbsoluteSystemPathBuf) -> Self {
        arbitrary()
    }
}

} // verus!
