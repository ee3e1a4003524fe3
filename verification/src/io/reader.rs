//! Choosing a reader for a trajectory format, and choosing among the saved
//! per-frame files `timestep_<N>.bin` those of the frames asked for.
use vstd::prelude::*;

use vstd::string::StringExecFns;

use crate::text::{chars_of, decimal, decimal_text, lemma_parse_decimal, parse_usize_at, spec_parse_usize, views};

verus! {

/// The trajectory formats that `reader` reads.
#[derive(Debug, Clone, Copy, PartialEq, Eq, Structural)]
pub enum Format {
    LammpsDump,
}

/// The format named `name`: only `lammps-dump` is read; any other name is
/// refused and handed back.
pub fn select_format(name: &str) -> (r: Result<Format, String>)
    ensures
        match r {
            Ok(f) => name@ == "lammps-dump"@ && f == Format::LammpsDump,
            Err(n) => name@ != "lammps-dump"@ && n@ == name@,
        },
{
    let a = name.to_owned();
    let b = "lammps-dump".to_owned();
    if a == b {
        Ok(Format::LammpsDump)
    } else {
        Err(a)
    }
}

// ---------------------------------------------------------------------------
// Saved frames
// ---------------------------------------------------------------------------

/// The frame number of a file named `timestep_<N>.bin`: the file stem is
/// `timestep_` followed by a `usize`, and the extension is `bin`.
pub open spec fn timestep_of(name: Seq<char>) -> Option<int> {
    let n = name.len();
    if n >= 13 && name.skip(n - 4) == seq!['.', 'b', 'i', 'n'] && name.take(9) == seq![
        't',
        'i',
        'm',
        'e',
        's',
        't',
        'e',
        'p',
        '_',
    ] {
        match spec_parse_usize(name.subrange(9, n - 4)) {
            Ok(v) => Some(v),
            Err(_) => None,
        }
    } else {
        None
    }
}

/// The frame number in a file name `timestep_<N>.bin`, if it is one.
pub fn timestep_of_name(name: &str) -> (r: Option<usize>)
    ensures
        match r {
            Some(t) => timestep_of(name@) == Some(t as int),
            None => timestep_of(name@) is None,
        },
{
    let v = chars_of(name);
    let n = v.len();
    if n < 13 {
        return None;
    }
    let suffix = vec!['.', 'b', 'i', 'n'];
    let prefix = vec!['t', 'i', 'm', 'e', 's', 't', 'e', 'p', '_'];
    let mut i: usize = 0;
    while i < 4
        invariant
            i <= 4,
            n == v@.len() >= 13,
            v@ == name@,
            suffix@ == seq!['.', 'b', 'i', 'n'],
            forall|j: int| 0 <= j < i ==> v@[n - 4 + j] == suffix@[j],
        decreases 4 - i,
    {
        if v[n - 4 + i] != suffix[i] {
            assert(v@.skip(n - 4)[i as int] != seq!['.', 'b', 'i', 'n'][i as int]);
            return None;
        }
        i = i + 1;
    }
    assert(v@.skip(n - 4) =~= seq!['.', 'b', 'i', 'n']);
    let mut i: usize = 0;
    while i < 9
        invariant
            i <= 9,
            n == v@.len() >= 13,
            v@ == name@,
            v@.skip(n - 4) == seq!['.', 'b', 'i', 'n'],
            prefix@ == seq!['t', 'i', 'm', 'e', 's', 't', 'e', 'p', '_'],
            forall|j: int| 0 <= j < i ==> v@[j] == prefix@[j],
        decreases 9 - i,
    {
        if v[i] != prefix[i] {
            assert(v@.take(9)[i as int] != seq!['t', 'i', 'm', 'e', 's', 't', 'e', 'p', '_'][i as int]);
            return None;
        }
        i = i + 1;
    }
    assert(v@.take(9) =~= seq!['t', 'i', 'm', 'e', 's', 't', 'e', 'p', '_']);
    match parse_usize_at(&v, 9, n - 4) {
        Ok(t) => Some(t),
        Err(_) => None,
    }
}

/// The name of the file a frame is saved to: `timestep_<n>.bin`.
pub open spec fn frame_name(n: nat) -> Seq<char> {
    seq!['t', 'i', 'm', 'e', 's', 't', 'e', 'p', '_'] + decimal(n) + seq!['.', 'b', 'i', 'n']
}

/// The path of the file that frame `index` is saved to in directory `dir`.
pub fn frame_file_path(dir: &str, index: usize) -> (r: String)
    ensures
        r@ == dir@ + seq!['/'] + frame_name(index as nat),
{
    proof {
        reveal_strlit("/timestep_");
        reveal_strlit(".bin");
    }
    let mut r = dir.to_owned();
    r.append("/timestep_");
    let d = decimal_text(index);
    r.append(d.as_str());
    r.append(".bin");
    assert(r@ =~= dir@ + seq!['/'] + frame_name(index as nat));
    r
}

/// A saved frame's file name reads back as the frame's number: the frame
/// selection finds every frame under the name it was saved with.
pub proof fn lemma_frame_name_round_trip(n: nat)
    requires
        n <= usize::MAX,
    ensures
        timestep_of(frame_name(n)) == Some(n as int),
{
    let name = frame_name(n);
    let len = name.len();
    lemma_parse_decimal(n);
    crate::text::lemma_decimal_reads_back(n, usize::MAX as int);
    assert(name.skip(len - 4) =~= seq!['.', 'b', 'i', 'n']);
    assert(name.take(9) =~= seq!['t', 'i', 'm', 'e', 's', 't', 'e', 'p', '_']);
    assert(name.subrange(9, len - 4) =~= decimal(n));
}

/// Whether frame `t` is one asked for: `start <= t <= end`, every
/// `interval`-th from `start`.
pub open spec fn step_selected(t: int, start: int, end: int, interval: int) -> bool {
    start <= t <= end && (t - start) % interval == 0
}

/// The saved frames among `names`, in the order given, that are asked for,
/// each with its frame number.
pub open spec fn frames_selected(names: Seq<Seq<char>>, start: int, end: int, interval: int) -> Seq<
    (int, Seq<char>),
>
    decreases names.len(),
{
    if names.len() == 0 {
        seq![]
    } else {
        let before = frames_selected(names.drop_last(), start, end, interval);
        match timestep_of(names.last()) {
            Some(t) => if step_selected(t, start, end, interval) {
                before.push((t, names.last()))
            } else {
                before
            },
            None => before,
        }
    }
}

/// The entries of `s` with frame number `t`, in order.
pub open spec fn with_step(s: Seq<(int, Seq<char>)>, t: int) -> Seq<(int, Seq<char>)>
    decreases s.len(),
{
    if s.len() == 0 {
        seq![]
    } else if s.last().0 == t {
        with_step(s.drop_last(), t).push(s.last())
    } else {
        with_step(s.drop_last(), t)
    }
}

/// Whether the frame numbers never fall along `s`.
pub open spec fn sorted_by_step(s: Seq<(int, Seq<char>)>) -> bool {
    forall|i: int, j: int| 0 <= i < j < s.len() ==> s[i].0 <= s[j].0
}

pub open spec fn entries_view(v: Seq<(usize, String)>) -> Seq<(int, Seq<char>)> {
    v.map_values(|e: (usize, String)| (e.0 as int, e.1@))
}

pub proof fn lemma_with_step_add(a: Seq<(int, Seq<char>)>, b: Seq<(int, Seq<char>)>, t: int)
    ensures
        with_step(a + b, t) == with_step(a, t) + with_step(b, t),
    decreases b.len(),
{
    if b.len() == 0 {
        assert(a + b =~= a);
        assert(with_step(a, t) + with_step(b, t) =~= with_step(a, t));
    } else {
        assert((a + b).drop_last() =~= a + b.drop_last());
        lemma_with_step_add(a, b.drop_last(), t);
        if b.last().0 == t {
            assert(with_step(a, t) + with_step(b.drop_last(), t).push(b.last()) =~= (with_step(a, t)
                + with_step(b.drop_last(), t)).push(b.last()));
        }
    }
}

pub proof fn lemma_with_step_none(a: Seq<(int, Seq<char>)>, t: int)
    requires
        forall|i: int| 0 <= i < a.len() ==> a[i].0 != t,
    ensures
        with_step(a, t) == Seq::<(int, Seq<char>)>::empty(),
    decreases a.len(),
{
    if a.len() > 0 {
        lemma_with_step_none(a.drop_last(), t);
    }
}

/// Inserting an entry after all entries of lower or equal number and before
/// all of higher number keeps the entries sorted, and keeps each number's
/// entries in the order they came, the new one last.
pub proof fn lemma_insert_sorted(
    before: Seq<(int, Seq<char>)>,
    p: int,
    x: (int, Seq<char>),
    sel: Seq<(int, Seq<char>)>,
)
    requires
        sorted_by_step(before),
        0 <= p <= before.len(),
        forall|i: int| 0 <= i < p ==> before[i].0 <= x.0,
        forall|i: int| p <= i < before.len() ==> before[i].0 > x.0,
        forall|s: int| #[trigger] with_step(before, s) == with_step(sel, s),
    ensures
        sorted_by_step(before.insert(p, x)),
        forall|s: int| #[trigger] with_step(before.insert(p, x), s) == with_step(sel.push(x), s),
{
    let after = before.insert(p, x);
    let a = before.take(p);
    let b = before.skip(p);
    assert(after =~= a + seq![x] + b);
    assert(before =~= a + b);
    assert forall|i: int, j: int| 0 <= i < j < after.len() implies after[i].0 <= after[j].0 by {
        if i < p && j < p {
            assert(after[i] == before[i] && after[j] == before[j]);
        } else if i < p && j == p {
            assert(after[i] == before[i]);
        } else if i < p {
            assert(after[i] == before[i] && after[j] == before[j - 1]);
        } else if i == p {
            assert(after[j] == before[j - 1]);
        } else {
            assert(after[i] == before[i - 1] && after[j] == before[j - 1]);
        }
    }
    assert forall|s: int| #[trigger] with_step(after, s) == with_step(sel.push(x), s) by {
        lemma_with_step_add(a + seq![x], b, s);
        lemma_with_step_add(a, seq![x], s);
        lemma_with_step_add(a, b, s);
        let e = Seq::<(int, Seq<char>)>::empty();
        assert(seq![x].drop_last() =~= e);
        assert(seq![x].last() == x);
        assert(sel.push(x).drop_last() =~= sel);
        assert(sel.push(x).last() == x);
        assert(with_step(after, s) == with_step(a, s) + with_step(seq![x], s) + with_step(b, s));
        assert(with_step(sel, s) == with_step(a, s) + with_step(b, s));
        if s == x.0 {
            assert forall|i: int| 0 <= i < b.len() implies b[i].0 != s by {
                assert(b[i] == before[p + i]);
            }
            lemma_with_step_none(b, s);
            assert(with_step(seq![x], s) == with_step(e, s).push(x));
            assert(with_step(e, s) == e);
            assert(with_step(sel.push(x), s) == with_step(sel, s).push(x));
            assert(with_step(a, s) + seq![x] + e =~= (with_step(a, s) + e).push(x));
        } else {
            assert(with_step(seq![x], s) == with_step(e, s));
            assert(with_step(e, s) == e);
            assert(with_step(sel.push(x), s) == with_step(sel, s));
            assert(with_step(a, s) + e + with_step(b, s) =~= with_step(a, s) + with_step(b, s));
        }
    }
}

/// The saved frames asked for among the file names `names`: each name of
/// the form `timestep_<N>.bin` with `start <= N <= end` and `N - start` a
/// multiple of `interval`, with its frame number, sorted by frame number;
/// names of the same number keep the order they came in.
pub fn select_timestep_files(names: &Vec<String>, start: usize, end: usize, interval: usize) -> (r: Vec<
    (usize, String),
>)
    requires
        interval > 0 || forall|i: int|
            0 <= i < names@.len() ==> (timestep_of(#[trigger] names@[i]@) matches Some(t) ==> !(start
                <= t <= end)),
    ensures
        sorted_by_step(entries_view(r@)),
        forall|t: int|
            #[trigger] with_step(entries_view(r@), t) == with_step(
                frames_selected(views(names@), start as int, end as int, interval as int),
                t,
            ),
{
    let ghost all = views(names@);
    let mut out: Vec<(usize, String)> = Vec::new();
    let mut k: usize = 0;
    while k < names.len()
        invariant
            k <= names@.len(),
            all == views(names@),
            interval > 0 || forall|i: int|
                0 <= i < names@.len() ==> (timestep_of(#[trigger] names@[i]@) matches Some(t) ==> !(
                start <= t <= end)),
            sorted_by_step(entries_view(out@)),
            forall|t: int|
                #[trigger] with_step(entries_view(out@), t) == with_step(
                    frames_selected(all.take(k as int), start as int, end as int, interval as int),
                    t,
                ),
        decreases names@.len() - k,
    {
        let ghost pre = all.take(k as int);
        let ghost post = all.take(k + 1);
        assert(post.drop_last() =~= pre);
        assert(post.last() == names@[k as int]@);
        let name = &names[k];
        match timestep_of_name(name.as_str()) {
            Some(t) => {
                if start <= t && t <= end && (t - start) % interval == 0 {
                    // insert after every entry whose number is at most t
                    let mut p: usize = out.len();
                    while p > 0 && out[p - 1].0 > t
                        invariant
                            p <= out@.len(),
                            sorted_by_step(entries_view(out@)),
                            forall|j: int| p <= j < out@.len() ==> out@[j].0 > t,
                        decreases p,
                    {
                        p = p - 1;
                    }
                    let ghost before = entries_view(out@);
                    let ghost x = (t as int, name@);
                    proof {
                        if p > 0 {
                            assert(before[p - 1].0 <= t);
                        }
                        assert forall|i: int| 0 <= i < p implies before[i].0 <= t by {
                            if i < p - 1 {
                                assert(before[i].0 <= before[p - 1].0);
                            }
                        }
                        lemma_insert_sorted(
                            before,
                            p as int,
                            x,
                            frames_selected(pre, start as int, end as int, interval as int),
                        );
                    }
                    out.insert(p, (t, name.clone()));
                    assert(entries_view(out@) =~= before.insert(p as int, x));
                }
            },
            None => {},
        }
        k = k + 1;
    }
    assert(all.take(names@.len() as int) =~= all);
    out
}

} // verus!
