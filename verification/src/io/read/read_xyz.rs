//! XYZ trajectories: frames of an atom-count line, a comment line, and one
//! `symbol x y z` line per atom.
use vstd::prelude::*;

use crate::text::{
    chars_of, field_spans, fields, float_literal_at, is_float_literal, parse_usize_at,
    spec_parse_usize, substring, trim, trim_bounds, views, IntErrorKind,
};

verus! {

/// Whether `line` opens a new XYZ frame: trimmed, it is a non-negative
/// integer (an atom count).
pub open spec fn is_xyz_header(line: Seq<char>) -> bool {
    trim(line).len() > 0 && spec_parse_usize(trim(line)) is Ok
}

/// Whether `line` opens a new XYZ frame.
pub fn is_header(line: &str) -> (r: bool)
    ensures
        r == is_xyz_header(line@),
{
    let v = chars_of(line);
    let (a, b) = trim_bounds(&v);
    a < b && parse_usize_at(&v, a, b).is_ok()
}

/// The text of one frame: per atom its symbol and the three coordinate
/// fields as written (each a literal that `str::parse::<f64>` accepts), and
/// the atom indices `0, 1, ...`.
pub struct XyzFrame {
    pub indices: Vec<i32>,
    pub symbols: Vec<String>,
    pub coords: Vec<(String, String, String)>,
}

/// Why a frame could not be read.
pub enum XyzError {
    /// The first line is no atom count.
    AtomCount(IntErrorKind),
    /// Fewer than `expected` atom lines follow the comment line.
    BlockTooShort { expected: usize, found: usize },
    /// Atom line `index` has fewer than four fields.
    InvalidAtomLine { index: usize, line: String },
    /// A coordinate field (`axis` 0, 1, 2 for x, y, z) of `line` is no number.
    BadCoordinate { axis: usize, line: String },
}

/// A frame's contents in the terms of the specification.
pub struct XyzFrameView {
    pub indices: Seq<i32>,
    pub symbols: Seq<Seq<char>>,
    pub coords: Seq<(Seq<char>, Seq<char>, Seq<char>)>,
}

/// Why a frame could not be read, in the terms of the specification.
pub enum XyzErrorView {
    AtomCount(IntErrorKind),
    BlockTooShort { expected: int, found: int },
    InvalidAtomLine { index: int, line: Seq<char> },
    BadCoordinate { axis: int, line: Seq<char> },
}

impl XyzFrame {
    pub open spec fn view(&self) -> XyzFrameView {
        XyzFrameView {
            indices: self.indices@,
            symbols: views(self.symbols@),
            coords: self.coords@.map_values(
                |c: (String, String, String)| (c.0@, c.1@, c.2@),
            ),
        }
    }
}

impl XyzError {
    pub open spec fn view(&self) -> XyzErrorView {
        match self {
            XyzError::AtomCount(e) => XyzErrorView::AtomCount(*e),
            XyzError::BlockTooShort { expected, found } => XyzErrorView::BlockTooShort {
                expected: *expected as int,
                found: *found as int,
            },
            XyzError::InvalidAtomLine { index, line } => XyzErrorView::InvalidAtomLine {
                index: *index as int,
                line: line@,
            },
            XyzError::BadCoordinate { axis, line } => XyzErrorView::BadCoordinate {
                axis: *axis as int,
                line: line@,
            },
        }
    }
}

pub open spec fn xyz_result_view(r: Result<XyzFrame, XyzError>) -> Result<XyzFrameView, XyzErrorView> {
    match r {
        Ok(f) => Ok(f.view()),
        Err(e) => Err(e.view()),
    }
}

/// The first fault of an atom line with fields `parts`: `Some(None)` when it
/// has fewer than four fields, `Some(Some(axis))` when coordinate `axis` is no
/// number, `None` when the line is sound.
pub open spec fn atom_line_fault(parts: Seq<Seq<char>>) -> Option<Option<int>> {
    if parts.len() < 4 {
        Some(None)
    } else if !is_float_literal(parts[1]) {
        Some(Some(0))
    } else if !is_float_literal(parts[2]) {
        Some(Some(1))
    } else if !is_float_literal(parts[3]) {
        Some(Some(2))
    } else {
        None
    }
}

/// The first of the atom lines `first + i`, `from <= i < n`, with a fault:
/// its number `i` and the fault.
pub open spec fn first_fault(lines: Seq<Seq<char>>, first: int, from: int, n: int) -> Option<
    (int, Option<int>),
>
    decreases n - from,
{
    if from >= n {
        None
    } else {
        match atom_line_fault(fields(lines[first + from])) {
            Some(f) => Some((from, f)),
            None => first_fault(lines, first, from + 1, n),
        }
    }
}

/// The indices `0, 1, ..., (n as i32) - 1`, as `(0..n as i32).collect()`
/// gives them.
pub open spec fn index_seq(n: int) -> Seq<i32> {
    let m = n as i32;
    Seq::new(if m > 0 { m as nat } else { 0 }, |i: int| i as i32)
}

/// What reading one XYZ frame from its lines gives.
pub open spec fn spec_xyz_frame(lines: Seq<Seq<char>>) -> Result<XyzFrameView, XyzErrorView> {
    match spec_parse_usize(trim(lines[0])) {
        Err(e) => Err(XyzErrorView::AtomCount(e)),
        Ok(n) => if lines.len() < 2 + n {
            Err(XyzErrorView::BlockTooShort { expected: n, found: lines.len() - 2 })
        } else {
            match first_fault(lines, 2, 0, n) {
                Some((i, None)) => Err(XyzErrorView::InvalidAtomLine { index: i, line: lines[2 + i] }),
                Some((i, Some(axis))) => Err(XyzErrorView::BadCoordinate { axis, line: lines[2 + i] }),
                None => Ok(
                    XyzFrameView {
                        indices: index_seq(n),
                        symbols: Seq::new(n as nat, |i: int| fields(lines[2 + i])[0]),
                        coords: Seq::new(
                            n as nat,
                            |i: int|
                                (
                                    fields(lines[2 + i])[1],
                                    fields(lines[2 + i])[2],
                                    fields(lines[2 + i])[3],
                                ),
                        ),
                    },
                ),
            }
        },
    }
}

/// Whether reading the frame would index past its lines or overflow the
/// count `2 + n`: the lines that `parse_timestep` does not accept.
pub open spec fn xyz_frame_readable(lines: Seq<Seq<char>>) -> bool {
    &&& lines.len() >= 1
    &&& spec_parse_usize(trim(lines[0])) matches Ok(n) ==> lines.len() >= 2 && n + 2 <= usize::MAX
}

/// The indices `0 .. n as i32`.
pub fn index_range(n: usize) -> (r: Vec<i32>)
    ensures
        r@ == index_seq(n as int),
{
    let m = n as i32;
    let mut out: Vec<i32> = Vec::new();
    let mut i: i32 = 0;
    while i < m
        invariant
            0 <= i,
            m == n as i32,
            i <= m || m <= 0,
            m <= 0 ==> i == 0,
            out@.len() == i as nat,
            forall|j: int| 0 <= j < i ==> out@[j] == j as i32,
        decreases m - i,
    {
        out.push(i);
        i = i + 1;
    }
    assert(out@.len() == index_seq(n as int).len());
    assert(out@ =~= index_seq(n as int));
    out
}

/// One atom line's fields checked, in the order a reader meets them.
fn check_atom_line(line: &str, index: usize) -> (r: Result<(String, String, String, String), XyzError>)
    ensures
        match r {
            Ok(t) => atom_line_fault(fields(line@)) is None && t.0@ == fields(line@)[0] && t.1@
                == fields(line@)[1] && t.2@ == fields(line@)[2] && t.3@ == fields(line@)[3],
            Err(e) => match atom_line_fault(fields(line@)) {
                Some(None) => e.view() == XyzErrorView::InvalidAtomLine {
                    index: index as int,
                    line: line@,
                },
                Some(Some(axis)) => e.view() == XyzErrorView::BadCoordinate { axis, line: line@ },
                None => false,
            },
        },
{
    let v = chars_of(line);
    let spans = field_spans(&v);
    if spans.len() < 4 {
        return Err(XyzError::InvalidAtomLine { index, line: line.to_owned() });
    }
    let mut k: usize = 1;
    while k < 4
        invariant
            1 <= k <= 4,
            spans@.len() == fields(v@).len() >= 4,
            v@ == line@,
            forall|j: int|
                #![trigger spans@[j]]
                0 <= j < spans@.len() ==> {
                    &&& spans@[j].0 < spans@[j].1 <= v@.len()
                    &&& v@.subrange(spans@[j].0 as int, spans@[j].1 as int) == fields(v@)[j]
                },
            forall|j: int| 1 <= j < k ==> is_float_literal(#[trigger] fields(v@)[j]),
        decreases 4 - k,
    {
        let (a, b) = spans[k];
        if !float_literal_at(&v, a, b) {
            return Err(XyzError::BadCoordinate { axis: k - 1, line: line.to_owned() });
        }
        k = k + 1;
    }
    let (a0, b0) = spans[0];
    let (a1, b1) = spans[1];
    let (a2, b2) = spans[2];
    let (a3, b3) = spans[3];
    Ok((substring(line, a0, b0), substring(line, a1, b1), substring(line, a2, b2), substring(line, a3, b3)))
}

/// Reads one XYZ frame from its lines: the atom count, a comment line, and
/// that many atom lines, each `symbol x y z` (more fields are ignored). The
/// first fault found, line by line, is the error.
pub fn parse_timestep(lines: &Vec<String>) -> (r: Result<XyzFrame, XyzError>)
    requires
        xyz_frame_readable(views(lines@)),
    ensures
        xyz_result_view(r) == spec_xyz_frame(views(lines@)),
{
    let ghost ls = views(lines@);
    assert(ls[0] == lines@[0]@);
    let v0 = chars_of(lines[0].as_str());
    let (a, b) = trim_bounds(&v0);
    let n = match parse_usize_at(&v0, a, b) {
        Ok(n) => n,
        Err(e) => return Err(XyzError::AtomCount(e)),
    };
    let expected_len = 2 + n;
    if lines.len() < expected_len {
        return Err(XyzError::BlockTooShort { expected: n, found: lines.len() - 2 });
    }
    let mut symbols: Vec<String> = Vec::new();
    let mut coords: Vec<(String, String, String)> = Vec::new();
    let mut i: usize = 0;
    while i < n
        invariant
            i <= n,
            n + 2 <= lines@.len(),
            n + 2 <= usize::MAX,
            ls == views(lines@),
            spec_parse_usize(trim(ls[0])) == Ok::<int, IntErrorKind>(n as int),
            first_fault(ls, 2, 0, n as int) == first_fault(ls, 2, i as int, n as int),
            symbols@.len() == i,
            coords@.len() == i,
            forall|j: int| 0 <= j < i ==> (#[trigger] symbols@[j])@ == fields(ls[2 + j])[0],
            forall|j: int|
                0 <= j < i ==> {
                    &&& (#[trigger] coords@[j]).0@ == fields(ls[2 + j])[1]
                    &&& coords@[j].1@ == fields(ls[2 + j])[2]
                    &&& coords@[j].2@ == fields(ls[2 + j])[3]
                },
        decreases n - i,
    {
        assert(ls[2 + i] == lines@[2 + i]@);
        match check_atom_line(lines[2 + i].as_str(), i) {
            Ok((sym, x, y, z)) => {
                symbols.push(sym);
                coords.push((x, y, z));
            },
            Err(e) => {
                assert(first_fault(ls, 2, i as int, n as int) == Some(
                    (i as int, atom_line_fault(fields(ls[2 + i])).unwrap()),
                ));
                return Err(e);
            },
        }
        i = i + 1;
    }
    let indices = index_range(n);
    let frame = XyzFrame { indices, symbols, coords };
    assert(frame.view().symbols =~= Seq::new(n as nat, |j: int| fields(ls[2 + j])[0]));
    assert(frame.view().coords =~= Seq::new(
        n as nat,
        |j: int| (fields(ls[2 + j])[1], fields(ls[2 + j])[2], fields(ls[2 + j])[3]),
    ));
    Ok(frame)
}

} // verus!
