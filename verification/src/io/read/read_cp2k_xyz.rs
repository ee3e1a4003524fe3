//! CP2K trajectories: XYZ frames of positions, and optionally a second XYZ
//! file of velocities read line for line beside it.
use vstd::prelude::*;

use crate::io::read::read_xyz::{spec_xyz_frame, xyz_frame_readable, xyz_result_view, XyzError, XyzFrame};
use crate::text::{
    chars_of, field_spans, fields, float_literal_at, is_float_literal, parse_usize_at,
    spec_parse_usize, substring, trim, trim_bounds, views, IntErrorKind,
};

verus! {

/// Reads one frame of a CP2K position file; the format is XYZ.
pub fn parse_timestep(lines: &Vec<String>) -> (r: Result<XyzFrame, XyzError>)
    requires
        xyz_frame_readable(views(lines@)),
    ensures
        xyz_result_view(r) == spec_xyz_frame(views(lines@)),
{
    crate::io::read::read_xyz::parse_timestep(lines)
}

/// Why a velocity frame could not be read.
pub enum VelocityError {
    /// The frame has fewer than three lines.
    TooShort { lines: usize },
    /// The first line is no atom count.
    AtomCount(IntErrorKind),
    /// The atom count differs from that of the positions.
    CountMismatch { expected: usize, found: usize },
    /// Fewer than `expected` atom lines follow the comment line.
    BlockTooShort { expected: usize, found: usize },
    /// Atom line `index` has neither three nor four fields.
    InvalidLine { index: usize, line: String },
    /// A velocity component (`axis` 0, 1, 2) of `line` is no number.
    BadComponent { axis: usize, line: String },
}

/// Why a velocity frame could not be read, in the terms of the specification.
pub enum VelocityErrorView {
    TooShort { lines: int },
    AtomCount(IntErrorKind),
    CountMismatch { expected: int, found: int },
    BlockTooShort { expected: int, found: int },
    InvalidLine { index: int, line: Seq<char> },
    BadComponent { axis: int, line: Seq<char> },
}

impl VelocityError {
    pub open spec fn view(&self) -> VelocityErrorView {
        match self {
            VelocityError::TooShort { lines } => VelocityErrorView::TooShort { lines: *lines as int },
            VelocityError::AtomCount(e) => VelocityErrorView::AtomCount(*e),
            VelocityError::CountMismatch { expected, found } => VelocityErrorView::CountMismatch {
                expected: *expected as int,
                found: *found as int,
            },
            VelocityError::BlockTooShort { expected, found } => VelocityErrorView::BlockTooShort {
                expected: *expected as int,
                found: *found as int,
            },
            VelocityError::InvalidLine { index, line } => VelocityErrorView::InvalidLine {
                index: *index as int,
                line: line@,
            },
            VelocityError::BadComponent { axis, line } => VelocityErrorView::BadComponent {
                axis: *axis as int,
                line: line@,
            },
        }
    }
}

pub open spec fn velocity_result_view(r: Result<Vec<(String, String, String)>, VelocityError>) -> Result<
    Seq<(Seq<char>, Seq<char>, Seq<char>)>,
    VelocityErrorView,
> {
    match r {
        Ok(v) => Ok(v@.map_values(|c: (String, String, String)| (c.0@, c.1@, c.2@))),
        Err(e) => Err(e.view()),
    }
}

/// Where the three components start among the fields of a velocity line:
/// after the symbol when there are four fields.
pub open spec fn velocity_offset(parts: Seq<Seq<char>>) -> int {
    if parts.len() == 4 {
        1
    } else {
        0
    }
}

/// The first fault of a velocity line with fields `parts`: `Some(None)` when
/// it has neither three nor four fields, `Some(Some(axis))` when component
/// `axis` is no number, `None` when the line is sound.
pub open spec fn velocity_line_fault(parts: Seq<Seq<char>>) -> Option<Option<int>> {
    let o = velocity_offset(parts);
    if parts.len() != 3 && parts.len() != 4 {
        Some(None)
    } else if !is_float_literal(parts[o]) {
        Some(Some(0))
    } else if !is_float_literal(parts[o + 1]) {
        Some(Some(1))
    } else if !is_float_literal(parts[o + 2]) {
        Some(Some(2))
    } else {
        None
    }
}

/// The first of the velocity lines `2 + i`, `from <= i < n`, with a fault.
pub open spec fn first_velocity_fault(lines: Seq<Seq<char>>, from: int, n: int) -> Option<
    (int, Option<int>),
>
    decreases n - from,
{
    if from >= n {
        None
    } else {
        match velocity_line_fault(fields(lines[2 + from])) {
            Some(f) => Some((from, f)),
            None => first_velocity_fault(lines, from + 1, n),
        }
    }
}

/// The three velocity fields of a sound velocity line.
pub open spec fn velocity_fields(line: Seq<char>) -> (Seq<char>, Seq<char>, Seq<char>) {
    let parts = fields(line);
    let o = velocity_offset(parts);
    (parts[o], parts[o + 1], parts[o + 2])
}

/// What reading one velocity frame, for `expected` atoms, gives.
pub open spec fn spec_velocity_block(lines: Seq<Seq<char>>, expected: int) -> Result<
    Seq<(Seq<char>, Seq<char>, Seq<char>)>,
    VelocityErrorView,
> {
    if lines.len() < 3 {
        Err(VelocityErrorView::TooShort { lines: lines.len() as int })
    } else {
        match spec_parse_usize(trim(lines[0])) {
            Err(e) => Err(VelocityErrorView::AtomCount(e)),
            Ok(n) => if n != expected {
                Err(VelocityErrorView::CountMismatch { expected, found: n })
            } else if lines.len() < 2 + n {
                Err(VelocityErrorView::BlockTooShort { expected: n, found: lines.len() - 2 })
            } else {
                match first_velocity_fault(lines, 0, n) {
                    Some((i, None)) => Err(
                        VelocityErrorView::InvalidLine { index: i, line: lines[2 + i] },
                    ),
                    Some((i, Some(axis))) => Err(
                        VelocityErrorView::BadComponent { axis, line: lines[2 + i] },
                    ),
                    None => Ok(Seq::new(n as nat, |i: int| velocity_fields(lines[2 + i]))),
                }
            },
        }
    }
}

/// Whether reading a velocity frame for `expected` atoms stays within
/// `usize`: where its count reads as `expected`, two more lines can be
/// counted.
pub open spec fn velocity_block_readable(lines: Seq<Seq<char>>, expected: int) -> bool {
    lines.len() >= 3 && spec_parse_usize(trim(lines[0])) == Ok::<int, IntErrorKind>(expected)
        ==> expected + 2 <= usize::MAX
}

/// One velocity line's fields checked, in the order a reader meets them.
fn check_velocity_line(line: &str, index: usize) -> (r: Result<(String, String, String), VelocityError>)
    ensures
        match r {
            Ok(t) => velocity_line_fault(fields(line@)) is None && (t.0@, t.1@, t.2@)
                == velocity_fields(line@),
            Err(e) => match velocity_line_fault(fields(line@)) {
                Some(None) => e.view() == VelocityErrorView::InvalidLine {
                    index: index as int,
                    line: line@,
                },
                Some(Some(axis)) => e.view() == VelocityErrorView::BadComponent { axis, line: line@ },
                None => false,
            },
        },
{
    let v = chars_of(line);
    let spans = field_spans(&v);
    if spans.len() != 3 && spans.len() != 4 {
        return Err(VelocityError::InvalidLine { index, line: line.to_owned() });
    }
    let off: usize = if spans.len() == 4 {
        1
    } else {
        0
    };
    let mut k: usize = 0;
    while k < 3
        invariant
            k <= 3,
            spans@.len() == fields(v@).len(),
            spans@.len() == 3 || spans@.len() == 4,
            off == velocity_offset(fields(v@)),
            v@ == line@,
            forall|j: int|
                #![trigger spans@[j]]
                0 <= j < spans@.len() ==> {
                    &&& spans@[j].0 < spans@[j].1 <= v@.len()
                    &&& v@.subrange(spans@[j].0 as int, spans@[j].1 as int) == fields(v@)[j]
                },
            forall|j: int| off <= j < off + k ==> is_float_literal(#[trigger] fields(v@)[j]),
        decreases 3 - k,
    {
        let (a, b) = spans[off + k];
        if !float_literal_at(&v, a, b) {
            return Err(VelocityError::BadComponent { axis: k, line: line.to_owned() });
        }
        k = k + 1;
    }
    let (a0, b0) = spans[off];
    let (a1, b1) = spans[off + 1];
    let (a2, b2) = spans[off + 2];
    Ok((substring(line, a0, b0), substring(line, a1, b1), substring(line, a2, b2)))
}

/// Reads one frame of a CP2K velocity file, for `expected_n_atoms` atoms:
/// the atom count, a comment line, and per atom `vx vy vz` or
/// `symbol vx vy vz`. The first fault found is the error.
pub fn parse_velocity_block(lines: &Vec<String>, expected_n_atoms: usize) -> (r: Result<
    Vec<(String, String, String)>,
    VelocityError,
>)
    requires
        velocity_block_readable(views(lines@), expected_n_atoms as int),
    ensures
        velocity_result_view(r) == spec_velocity_block(views(lines@), expected_n_atoms as int),
{
    let ghost ls = views(lines@);
    if lines.len() < 3 {
        return Err(VelocityError::TooShort { lines: lines.len() });
    }
    assert(ls[0] == lines@[0]@);
    let v0 = chars_of(lines[0].as_str());
    let (a, b) = trim_bounds(&v0);
    let n = match parse_usize_at(&v0, a, b) {
        Ok(n) => n,
        Err(e) => return Err(VelocityError::AtomCount(e)),
    };
    if n != expected_n_atoms {
        return Err(VelocityError::CountMismatch { expected: expected_n_atoms, found: n });
    }
    if lines.len() < 2 + n {
        return Err(VelocityError::BlockTooShort { expected: n, found: lines.len() - 2 });
    }
    let mut out: Vec<(String, String, String)> = Vec::new();
    let mut i: usize = 0;
    while i < n
        invariant
            i <= n,
            n + 2 <= lines@.len(),
            n + 2 <= usize::MAX,
            n == expected_n_atoms,
            lines@.len() >= 3,
            ls == views(lines@),
            spec_parse_usize(trim(ls[0])) == Ok::<int, IntErrorKind>(n as int),
            first_velocity_fault(ls, 0, n as int) == first_velocity_fault(ls, i as int, n as int),
            out@.len() == i,
            forall|j: int|
                0 <= j < i ==> ((#[trigger] out@[j]).0@, out@[j].1@, out@[j].2@) == velocity_fields(
                    ls[2 + j],
                ),
        decreases n - i,
    {
        assert(ls[2 + i] == lines@[2 + i]@);
        match check_velocity_line(lines[2 + i].as_str(), i) {
            Ok(t) => {
                out.push(t);
            },
            Err(e) => {
                assert(first_velocity_fault(ls, i as int, n as int) == Some(
                    (i as int, velocity_line_fault(fields(ls[2 + i])).unwrap()),
                ));
                return Err(e);
            },
        }
        i = i + 1;
    }
    assert(out@.map_values(|c: (String, String, String)| (c.0@, c.1@, c.2@)) =~= Seq::new(
        n as nat,
        |j: int| velocity_fields(ls[2 + j]),
    ));
    Ok(out)
}

} // verus!
