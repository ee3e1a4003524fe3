//! Reorientation dynamics of O-H bonds: which bonds a correlation follows,
//! and the name of the file each time origin's correlation is saved to.
use vstd::prelude::*;
use vstd::string::StringExecFns;

use crate::analysis::hbond::statistics::{filter_view, matches_target_type, passes_filter};
use crate::text::{decimal, decimal_text, views};

verus! {

/// Which of the bonds, by type, a correlation follows: those whose type
/// holds every token of `filter` (all of them where there is no filter),
/// or `None` where it follows none.
pub fn oh_mask(mol_types: &Vec<String>, filter: &Option<Vec<String>>) -> (r: Option<Vec<bool>>)
    ensures
        match r {
            Some(m) => {
                &&& m@.len() == mol_types@.len()
                &&& forall|i: int|
                    0 <= i < m@.len() ==> m@[i] == passes_filter(
                        #[trigger] mol_types@[i]@,
                        filter_view(filter),
                    )
                &&& exists|i: int| 0 <= i < m@.len() && m@[i]
            },
            None => forall|i: int|
                0 <= i < mol_types@.len() ==> !passes_filter(
                    #[trigger] mol_types@[i]@,
                    filter_view(filter),
                ),
        },
{
    let mut mask: Vec<bool> = Vec::new();
    let mut any = false;
    let mut witness: usize = 0;
    let mut i: usize = 0;
    while i < mol_types.len()
        invariant
            i <= mol_types@.len(),
            mask@.len() == i,
            forall|j: int|
                0 <= j < i ==> mask@[j] == passes_filter(#[trigger] mol_types@[j]@, filter_view(filter)),
            any ==> witness < i && mask@[witness as int],
            !any ==> forall|j: int| 0 <= j < i ==> !mask@[j],
        decreases mol_types@.len() - i,
    {
        let keep = matches_target_type(mol_types[i].as_str(), filter);
        mask.push(keep);
        if keep && !any {
            any = true;
            witness = i;
        }
        i = i + 1;
    }
    if any {
        assert(mask@[witness as int]);
        Some(mask)
    } else {
        assert forall|j: int| 0 <= j < mol_types@.len() implies !passes_filter(
            #[trigger] mol_types@[j]@,
            filter_view(filter),
        ) by {
            assert(!mask@[j]);
        }
        None
    }
}

/// The tokens joined by `+`.
pub open spec fn joined_plus(tokens: Seq<Seq<char>>) -> Seq<char>
    decreases tokens.len(),
{
    if tokens.len() == 0 {
        seq![]
    } else if tokens.len() == 1 {
        tokens[0]
    } else {
        joined_plus(tokens.drop_last()) + seq!['+'] + tokens.last()
    }
}

/// The name of the file that the correlation from origin `t0` is saved
/// to: `time_corr_<t0>.bin`, or `time_corr_<t0>_<tokens joined by +>.bin`
/// under a type filter.
pub open spec fn result_name(t0: nat, filter: Option<Seq<Seq<char>>>) -> Seq<char> {
    match filter {
        None => "time_corr_"@ + decimal(t0) + ".bin"@,
        Some(tokens) => "time_corr_"@ + decimal(t0) + seq!['_'] + joined_plus(tokens) + ".bin"@,
    }
}

/// The name of the file that the correlation from origin `t0` is saved to.
pub fn result_file_name(t0: usize, filter: &Option<Vec<String>>) -> (r: String)
    ensures
        r@ == result_name(t0 as nat, filter_view(filter)),
{
    let mut r = "time_corr_".to_owned();
    let d = decimal_text(t0);
    r.append(d.as_str());
    match filter {
        None => {},
        Some(tokens) => {
            proof {
                reveal_strlit("_");
                reveal_strlit("+");
            }
            r.append("_");
            let ghost head = r@;
            let mut k: usize = 0;
            while k < tokens.len()
                invariant
                    k <= tokens@.len(),
                    r@ == head + joined_plus(views(tokens@).take(k as int)),
                decreases tokens@.len() - k,
            {
                let ghost before = r@;
                let ghost pre = views(tokens@).take(k as int);
                let ghost post = views(tokens@).take(k + 1);
                assert(post.drop_last() =~= pre);
                assert(post.last() == tokens@[k as int]@);
                proof {
                    reveal_strlit("+");
                }
                if k > 0 {
                    r.append("+");
                }
                r.append(tokens[k].as_str());
                if k == 0 {
                    assert(post =~= seq![tokens@[0]@]);
                    assert(pre =~= Seq::<Seq<char>>::empty());
                    assert(joined_plus(pre) =~= Seq::<char>::empty());
                    assert(r@ =~= head + joined_plus(post));
                } else {
                    assert(joined_plus(post) == joined_plus(pre) + seq!['+'] + tokens@[k as int]@);
                    assert(r@ =~= head + joined_plus(post));
                }
                k = k + 1;
            }
            assert(views(tokens@).take(tokens@.len() as int) =~= views(tokens@));
        },
    }
    r.append(".bin");
    r
}

} // verus!
