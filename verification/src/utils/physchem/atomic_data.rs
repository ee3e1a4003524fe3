//! The elements: symbol, atomic number and standard atomic mass.
use vstd::prelude::*;

use crate::text::same_text;

verus! {

/// Entry `k` of the table of elements, in order of listing: symbol,
/// atomic number, and standard atomic mass in units of 10^-4 u (hydrogen's
/// 1.008 u is 10080). Positions past the last entry repeat it.
pub open spec fn element_at(k: int) -> (Seq<char>, i32, u32) {
    if k == 0 {
        ("H"@, 1i32, 10080u32)
    } else if k == 1 {
        ("He"@, 2i32, 40026u32)
    } else if k == 2 {
        ("Li"@, 3i32, 69400u32)
    } else if k == 3 {
        ("Be"@, 4i32, 90122u32)
    } else if k == 4 {
        ("B"@, 5i32, 108100u32)
    } else if k == 5 {
        ("C"@, 6i32, 120110u32)
    } else if k == 6 {
        ("N"@, 7i32, 140070u32)
    } else if k == 7 {
        ("O"@, 8i32, 159990u32)
    } else if k == 8 {
        ("F"@, 9i32, 189980u32)
    } else if k == 9 {
        ("Ne"@, 10i32, 201800u32)
    } else if k == 10 {
        ("Na"@, 11i32, 229900u32)
    } else if k == 11 {
        ("Mg"@, 12i32, 243050u32)
    } else if k == 12 {
        ("Al"@, 13i32, 269820u32)
    } else if k == 13 {
        ("Si"@, 14i32, 280850u32)
    } else if k == 14 {
        ("P"@, 15i32, 309740u32)
    } else if k == 15 {
        ("S"@, 16i32, 320600u32)
    } else if k == 16 {
        ("Cl"@, 17i32, 354500u32)
    } else if k == 17 {
        ("Ar"@, 18i32, 399480u32)
    } else if k == 18 {
        ("K"@, 19i32, 390980u32)
    } else if k == 19 {
        ("Ca"@, 20i32, 400780u32)
    } else if k == 20 {
        ("Sc"@, 21i32, 449560u32)
    } else if k == 21 {
        ("Ti"@, 22i32, 478670u32)
    } else if k == 22 {
        ("V"@, 23i32, 509420u32)
    } else if k == 23 {
        ("Cr"@, 24i32, 520000u32)
    } else if k == 24 {
        ("Mn"@, 25i32, 549380u32)
    } else if k == 25 {
        ("Fe"@, 26i32, 558450u32)
    } else if k == 26 {
        ("Ni"@, 27i32, 586930u32)
    } else if k == 27 {
        ("Co"@, 28i32, 589330u32)
    } else if k == 28 {
        ("Cu"@, 29i32, 635460u32)
    } else if k == 29 {
        ("Zn"@, 30i32, 653800u32)
    } else if k == 30 {
        ("Ga"@, 31i32, 697230u32)
    } else if k == 31 {
        ("Ge"@, 32i32, 726300u32)
    } else if k == 32 {
        ("As"@, 33i32, 749220u32)
    } else if k == 33 {
        ("Se"@, 34i32, 789710u32)
    } else if k == 34 {
        ("Br"@, 35i32, 799040u32)
    } else if k == 35 {
        ("Kr"@, 36i32, 837980u32)
    } else if k == 36 {
        ("Rb"@, 37i32, 854680u32)
    } else if k == 37 {
        ("Sr"@, 38i32, 876200u32)
    } else if k == 38 {
        ("Y"@, 39i32, 889060u32)
    } else if k == 39 {
        ("Zr"@, 40i32, 912240u32)
    } else if k == 40 {
        ("Nb"@, 41i32, 929060u32)
    } else if k == 41 {
        ("Mo"@, 42i32, 959500u32)
    } else if k == 42 {
        ("Tc"@, 43i32, 980000u32)
    } else if k == 43 {
        ("Ru"@, 44i32, 1010700u32)
    } else if k == 44 {
        ("Rh"@, 45i32, 1029100u32)
    } else if k == 45 {
        ("Pd"@, 46i32, 1064200u32)
    } else if k == 46 {
        ("Ag"@, 47i32, 1078700u32)
    } else if k == 47 {
        ("Cd"@, 48i32, 1124100u32)
    } else if k == 48 {
        ("In"@, 49i32, 1148200u32)
    } else if k == 49 {
        ("Sn"@, 50i32, 1187100u32)
    } else if k == 50 {
        ("Sb"@, 51i32, 1217600u32)
    } else if k == 51 {
        ("I"@, 53i32, 1269000u32)
    } else if k == 52 {
        ("Te"@, 52i32, 1276000u32)
    } else if k == 53 {
        ("Xe"@, 54i32, 1312900u32)
    } else if k == 54 {
        ("Cs"@, 55i32, 1329100u32)
    } else if k == 55 {
        ("Ba"@, 56i32, 1373300u32)
    } else if k == 56 {
        ("La"@, 57i32, 1389100u32)
    } else if k == 57 {
        ("Ce"@, 58i32, 1401200u32)
    } else if k == 58 {
        ("Pr"@, 59i32, 1409100u32)
    } else if k == 59 {
        ("Nd"@, 60i32, 1442400u32)
    } else if k == 60 {
        ("Pm"@, 61i32, 1450000u32)
    } else if k == 61 {
        ("Sm"@, 62i32, 1503600u32)
    } else if k == 62 {
        ("Eu"@, 63i32, 1520000u32)
    } else if k == 63 {
        ("Gd"@, 64i32, 1572500u32)
    } else if k == 64 {
        ("Tb"@, 65i32, 1589300u32)
    } else if k == 65 {
        ("Dy"@, 66i32, 1625000u32)
    } else if k == 66 {
        ("Ho"@, 67i32, 1649300u32)
    } else if k == 67 {
        ("Er"@, 68i32, 1672600u32)
    } else if k == 68 {
        ("Tm"@, 69i32, 1689300u32)
    } else if k == 69 {
        ("Yb"@, 70i32, 1730400u32)
    } else if k == 70 {
        ("Lu"@, 71i32, 1750000u32)
    } else if k == 71 {
        ("Hf"@, 72i32, 1784900u32)
    } else if k == 72 {
        ("Ta"@, 73i32, 1809500u32)
    } else if k == 73 {
        ("W"@, 74i32, 1838400u32)
    } else if k == 74 {
        ("Re"@, 75i32, 1862100u32)
    } else if k == 75 {
        ("Os"@, 76i32, 1902300u32)
    } else if k == 76 {
        ("Ir"@, 77i32, 1922200u32)
    } else if k == 77 {
        ("Pt"@, 78i32, 1950800u32)
    } else if k == 78 {
        ("Au"@, 79i32, 1969700u32)
    } else if k == 79 {
        ("Hg"@, 80i32, 2005900u32)
    } else if k == 80 {
        ("Tl"@, 81i32, 2043800u32)
    } else if k == 81 {
        ("Pb"@, 82i32, 2072000u32)
    } else if k == 82 {
        ("Bi"@, 83i32, 2089800u32)
    } else if k == 83 {
        ("Po"@, 84i32, 2090000u32)
    } else if k == 84 {
        ("At"@, 85i32, 2100000u32)
    } else if k == 85 {
        ("Rn"@, 86i32, 2220000u32)
    } else if k == 86 {
        ("Fr"@, 87i32, 2230000u32)
    } else if k == 87 {
        ("Ra"@, 88i32, 2260000u32)
    } else if k == 88 {
        ("Ac"@, 89i32, 2270000u32)
    } else if k == 89 {
        ("Th"@, 90i32, 2320400u32)
    } else if k == 90 {
        ("Pa"@, 91i32, 2310400u32)
    } else if k == 91 {
        ("U"@, 92i32, 2380300u32)
    } else if k == 92 {
        ("Np"@, 93i32, 2370000u32)
    } else if k == 93 {
        ("Pu"@, 94i32, 2440000u32)
    } else if k == 94 {
        ("Am"@, 95i32, 2430000u32)
    } else if k == 95 {
        ("Cm"@, 96i32, 2470000u32)
    } else if k == 96 {
        ("Bk"@, 97i32, 2470000u32)
    } else if k == 97 {
        ("Cf"@, 98i32, 2510000u32)
    } else if k == 98 {
        ("Es"@, 99i32, 2520000u32)
    } else if k == 99 {
        ("Fm"@, 100i32, 2570000u32)
    } else if k == 100 {
        ("Md"@, 101i32, 2580000u32)
    } else if k == 101 {
        ("No"@, 102i32, 2590000u32)
    } else if k == 102 {
        ("Lr"@, 103i32, 2620000u32)
    } else if k == 103 {
        ("Rf"@, 104i32, 2670000u32)
    } else if k == 104 {
        ("Db"@, 105i32, 2700000u32)
    } else if k == 105 {
        ("Sg"@, 106i32, 2710000u32)
    } else if k == 106 {
        ("Bh"@, 107i32, 2700000u32)
    } else if k == 107 {
        ("Hs"@, 108i32, 2770000u32)
    } else if k == 108 {
        ("Mt"@, 109i32, 2760000u32)
    } else if k == 109 {
        ("Ds"@, 110i32, 2810000u32)
    } else if k == 110 {
        ("Rg"@, 111i32, 2800000u32)
    } else if k == 111 {
        ("Cn"@, 112i32, 2850000u32)
    } else if k == 112 {
        ("Nh"@, 113i32, 2840000u32)
    } else if k == 113 {
        ("Fl"@, 114i32, 2890000u32)
    } else if k == 114 {
        ("Mc"@, 115i32, 2880000u32)
    } else if k == 115 {
        ("Lv"@, 116i32, 2930000u32)
    } else if k == 116 {
        ("Ts"@, 117i32, 2940000u32)
    } else {
        ("Og"@, 118i32, 2940000u32)
    }
}

/// The table of elements.
pub open spec fn elements() -> Seq<(Seq<char>, i32, u32)> {
    Seq::new(118, |k: int| element_at(k))
}

pub open spec fn table_view(t: Seq<(&'static str, i32, u32)>) -> Seq<(Seq<char>, i32, u32)> {
    t.map_values(|e: (&'static str, i32, u32)| (e.0@, e.1, e.2))
}

/// The table of elements.
pub fn element_table() -> (t: Vec<(&'static str, i32, u32)>)
    ensures
        table_view(t@) == elements(),
{
    let t = vec![
        ("H", 1i32, 10080u32),
        ("He", 2i32, 40026u32),
        ("Li", 3i32, 69400u32),
        ("Be", 4i32, 90122u32),
        ("B", 5i32, 108100u32),
        ("C", 6i32, 120110u32),
        ("N", 7i32, 140070u32),
        ("O", 8i32, 159990u32),
        ("F", 9i32, 189980u32),
        ("Ne", 10i32, 201800u32),
        ("Na", 11i32, 229900u32),
        ("Mg", 12i32, 243050u32),
        ("Al", 13i32, 269820u32),
        ("Si", 14i32, 280850u32),
        ("P", 15i32, 309740u32),
        ("S", 16i32, 320600u32),
        ("Cl", 17i32, 354500u32),
        ("Ar", 18i32, 399480u32),
        ("K", 19i32, 390980u32),
        ("Ca", 20i32, 400780u32),
        ("Sc", 21i32, 449560u32),
        ("Ti", 22i32, 478670u32),
        ("V", 23i32, 509420u32),
        ("Cr", 24i32, 520000u32),
        ("Mn", 25i32, 549380u32),
        ("Fe", 26i32, 558450u32),
        ("Ni", 27i32, 586930u32),
        ("Co", 28i32, 589330u32),
        ("Cu", 29i32, 635460u32),
        ("Zn", 30i32, 653800u32),
        ("Ga", 31i32, 697230u32),
        ("Ge", 32i32, 726300u32),
        ("As", 33i32, 749220u32),
        ("Se", 34i32, 789710u32),
        ("Br", 35i32, 799040u32),
        ("Kr", 36i32, 837980u32),
        ("Rb", 37i32, 854680u32),
        ("Sr", 38i32, 876200u32),
        ("Y", 39i32, 889060u32),
        ("Zr", 40i32, 912240u32),
        ("Nb", 41i32, 929060u32),
        ("Mo", 42i32, 959500u32),
        ("Tc", 43i32, 980000u32),
        ("Ru", 44i32, 1010700u32),
        ("Rh", 45i32, 1029100u32),
        ("Pd", 46i32, 1064200u32),
        ("Ag", 47i32, 1078700u32),
        ("Cd", 48i32, 1124100u32),
        ("In", 49i32, 1148200u32),
        ("Sn", 50i32, 1187100u32),
        ("Sb", 51i32, 1217600u32),
        ("I", 53i32, 1269000u32),
        ("Te", 52i32, 1276000u32),
        ("Xe", 54i32, 1312900u32),
        ("Cs", 55i32, 1329100u32),
        ("Ba", 56i32, 1373300u32),
        ("La", 57i32, 1389100u32),
        ("Ce", 58i32, 1401200u32),
        ("Pr", 59i32, 1409100u32),
        ("Nd", 60i32, 1442400u32),
        ("Pm", 61i32, 1450000u32),
        ("Sm", 62i32, 1503600u32),
        ("Eu", 63i32, 1520000u32),
        ("Gd", 64i32, 1572500u32),
        ("Tb", 65i32, 1589300u32),
        ("Dy", 66i32, 1625000u32),
        ("Ho", 67i32, 1649300u32),
        ("Er", 68i32, 1672600u32),
        ("Tm", 69i32, 1689300u32),
        ("Yb", 70i32, 1730400u32),
        ("Lu", 71i32, 1750000u32),
        ("Hf", 72i32, 1784900u32),
        ("Ta", 73i32, 1809500u32),
        ("W", 74i32, 1838400u32),
        ("Re", 75i32, 1862100u32),
        ("Os", 76i32, 1902300u32),
        ("Ir", 77i32, 1922200u32),
        ("Pt", 78i32, 1950800u32),
        ("Au", 79i32, 1969700u32),
        ("Hg", 80i32, 2005900u32),
        ("Tl", 81i32, 2043800u32),
        ("Pb", 82i32, 2072000u32),
        ("Bi", 83i32, 2089800u32),
        ("Po", 84i32, 2090000u32),
        ("At", 85i32, 2100000u32),
        ("Rn", 86i32, 2220000u32),
        ("Fr", 87i32, 2230000u32),
        ("Ra", 88i32, 2260000u32),
        ("Ac", 89i32, 2270000u32),
        ("Th", 90i32, 2320400u32),
        ("Pa", 91i32, 2310400u32),
        ("U", 92i32, 2380300u32),
        ("Np", 93i32, 2370000u32),
        ("Pu", 94i32, 2440000u32),
        ("Am", 95i32, 2430000u32),
        ("Cm", 96i32, 2470000u32),
        ("Bk", 97i32, 2470000u32),
        ("Cf", 98i32, 2510000u32),
        ("Es", 99i32, 2520000u32),
        ("Fm", 100i32, 2570000u32),
        ("Md", 101i32, 2580000u32),
        ("No", 102i32, 2590000u32),
        ("Lr", 103i32, 2620000u32),
        ("Rf", 104i32, 2670000u32),
        ("Db", 105i32, 2700000u32),
        ("Sg", 106i32, 2710000u32),
        ("Bh", 107i32, 2700000u32),
        ("Hs", 108i32, 2770000u32),
        ("Mt", 109i32, 2760000u32),
        ("Ds", 110i32, 2810000u32),
        ("Rg", 111i32, 2800000u32),
        ("Cn", 112i32, 2850000u32),
        ("Nh", 113i32, 2840000u32),
        ("Fl", 114i32, 2890000u32),
        ("Mc", 115i32, 2880000u32),
        ("Lv", 116i32, 2930000u32),
        ("Ts", 117i32, 2940000u32),
        ("Og", 118i32, 2940000u32)
    ];
    assert(table_view(t@) =~= elements());
    t
}

/// The first entry of `t` from `from` on whose symbol is `s`.
pub open spec fn find_symbol(t: Seq<(Seq<char>, i32, u32)>, s: Seq<char>, from: int) -> Option<int>
    decreases t.len() - from,
{
    if from < 0 || from >= t.len() {
        None
    } else if t[from].0 == s {
        Some(from)
    } else {
        find_symbol(t, s, from + 1)
    }
}

/// The first entry of `t` from `from` on whose atomic number is `n`.
pub open spec fn find_number(t: Seq<(Seq<char>, i32, u32)>, n: i32, from: int) -> Option<int>
    decreases t.len() - from,
{
    if from < 0 || from >= t.len() {
        None
    } else if t[from].1 == n {
        Some(from)
    } else {
        find_number(t, n, from + 1)
    }
}

/// The atomic number of the element of symbol `s`, if the table has it.
pub open spec fn number_of(s: Seq<char>) -> Option<i32> {
    match find_symbol(elements(), s, 0) {
        Some(k) => Some(elements()[k].1),
        None => None,
    }
}

/// The mass (in 10^-4 u) of the element of symbol `s`, if the table has it.
pub open spec fn mass_by_symbol(s: Seq<char>) -> Option<u32> {
    match find_symbol(elements(), s, 0) {
        Some(k) => Some(elements()[k].2),
        None => None,
    }
}

/// The mass (in 10^-4 u) of the element of atomic number `n`, if the table
/// has it.
pub open spec fn mass_by_number(n: i32) -> Option<u32> {
    match find_number(elements(), n, 0) {
        Some(k) => Some(elements()[k].2),
        None => None,
    }
}

fn position_of_symbol(t: &Vec<(&'static str, i32, u32)>, s: &str) -> (r: Option<usize>)
    ensures
        match r {
            Some(k) => find_symbol(table_view(t@), s@, 0) == Some(k as int),
            None => find_symbol(table_view(t@), s@, 0) is None,
        },
{
    let ghost tv = table_view(t@);
    let mut i: usize = t.len();
    let mut found: Option<usize> = None;
    while i > 0
        invariant
            i <= t@.len(),
            tv == table_view(t@),
            match found {
                Some(k) => find_symbol(tv, s@, i as int) == Some(k as int),
                None => find_symbol(tv, s@, i as int) is None,
            },
        decreases i,
    {
        i = i - 1;
        assert(tv[i as int].0 == t@[i as int].0@);
        if same_text(t[i].0, s) {
            found = Some(i);
        }
    }
    found
}

fn position_of_number(t: &Vec<(&'static str, i32, u32)>, n: i32) -> (r: Option<usize>)
    ensures
        match r {
            Some(k) => find_number(table_view(t@), n, 0) == Some(k as int),
            None => find_number(table_view(t@), n, 0) is None,
        },
{
    let ghost tv = table_view(t@);
    let mut i: usize = t.len();
    let mut found: Option<usize> = None;
    while i > 0
        invariant
            i <= t@.len(),
            tv == table_view(t@),
            match found {
                Some(k) => find_number(tv, n, i as int) == Some(k as int),
                None => find_number(tv, n, i as int) is None,
            },
        decreases i,
    {
        i = i - 1;
        assert(tv[i as int].1 == t@[i as int].1);
        if t[i].1 == n {
            found = Some(i);
        }
    }
    found
}

/// The atomic number of the element of symbol `symbol`; `None` where the
/// table has no such element.
pub fn atomic_numbers(symbol: &str) -> (r: Option<i32>)
    ensures
        r == number_of(symbol@),
{
    let t = element_table();
    proof {
        lemma_find_symbol_range(table_view(t@), symbol@, 0);
    }
    match position_of_symbol(&t, symbol) {
        Some(k) => Some(t[k].1),
        None => None,
    }
}

/// The standard atomic mass, in 10^-4 u, of the element of symbol
/// `symbol`; `None` where the table has no such element.
pub fn mass_of_symbol(symbol: &str) -> (r: Option<u32>)
    ensures
        r == mass_by_symbol(symbol@),
{
    let t = element_table();
    proof {
        lemma_find_symbol_range(table_view(t@), symbol@, 0);
    }
    match position_of_symbol(&t, symbol) {
        Some(k) => Some(t[k].2),
        None => None,
    }
}

/// The standard atomic mass, in 10^-4 u, of the element of atomic number
/// `number`; `None` where the table has no such element.
pub fn mass_of_number(number: i32) -> (r: Option<u32>)
    ensures
        r == mass_by_number(number),
{
    let t = element_table();
    proof {
        lemma_find_number_range(table_view(t@), number, 0);
    }
    match position_of_number(&t, number) {
        Some(k) => Some(t[k].2),
        None => None,
    }
}

/// The atomic number listed at position `k` of the table: `k + 1`, but for
/// iodine (53), listed before tellurium (52).
pub open spec fn listed_number(k: int) -> int {
    if k == 51 {
        53
    } else if k == 52 {
        52
    } else {
        k + 1
    }
}

proof fn lemma_listed_numbers()
    ensures
        elements().len() == 118,
        forall|k: int| 0 <= k < 118 ==> #[trigger] elements()[k].1 == listed_number(k),
{
    assert forall|k: int| 0 <= k < 118 implies #[trigger] elements()[k].1 == listed_number(k) by {
        assert(elements()[k] == element_at(k));
    }
}

proof fn lemma_find_number_at(t: Seq<(Seq<char>, i32, u32)>, k: int, from: int)
    requires
        0 <= from <= k < t.len(),
        forall|j: int| from <= j < t.len() && j != k ==> #[trigger] t[j].1 != t[k].1,
    ensures
        find_number(t, t[k].1, from) == Some(k),
    decreases k - from,
{
    if from < k {
        lemma_find_number_at(t, k, from + 1);
    }
}

/// Every atomic number from 1 to 118 belongs to exactly one element of the
/// table, and no other number to any.
pub proof fn lemma_numbers_one_to_one(n: i32)
    ensures
        (1 <= n <= 118) == (find_number(elements(), n, 0) is Some),
        forall|j: int, k: int|
            0 <= j < k < elements().len() ==> #[trigger] elements()[j].1 != #[trigger] elements()[k].1,
{
    lemma_listed_numbers();
    let t = elements();
    if 1 <= n <= 118 {
        let k: int = if n == 53 {
            51
        } else if n == 52 {
            52
        } else {
            n - 1
        };
        assert(t[k].1 == n);
        lemma_find_number_at(t, k, 0);
    } else {
        assert forall|j: int| 0 <= j < t.len() implies #[trigger] t[j].1 != n by {}
        lemma_find_number_none(t, n, 0);
    }
}

proof fn lemma_find_number_none(t: Seq<(Seq<char>, i32, u32)>, n: i32, from: int)
    requires
        0 <= from <= t.len(),
        forall|j: int| 0 <= j < t.len() ==> #[trigger] t[j].1 != n,
    ensures
        find_number(t, n, from) is None,
    decreases t.len() - from,
{
    if from < t.len() {
        lemma_find_number_none(t, n, from + 1);
    }
}

/// Looking an element's mass up by symbol, or by the atomic number of that
/// symbol, gives the same mass.
pub proof fn lemma_mass_by_symbol_or_number(s: Seq<char>)
    ensures
        mass_by_symbol(s) == match number_of(s) {
            Some(n) => mass_by_number(n),
            None => None::<u32>,
        },
{
    lemma_listed_numbers();
    let t = elements();
    match find_symbol(t, s, 0) {
        Some(k) => {
            lemma_find_symbol_range(t, s, 0);
            lemma_find_number_at(t, k, 0);
        },
        None => {},
    }
}

proof fn lemma_find_number_range(t: Seq<(Seq<char>, i32, u32)>, n: i32, from: int)
    ensures
        find_number(t, n, from) matches Some(k) ==> from <= k < t.len(),
    decreases t.len() - from,
{
    if 0 <= from < t.len() && t[from].1 != n {
        lemma_find_number_range(t, n, from + 1);
    }
}

proof fn lemma_find_symbol_range(t: Seq<(Seq<char>, i32, u32)>, s: Seq<char>, from: int)
    ensures
        find_symbol(t, s, from) matches Some(k) ==> from <= k < t.len(),
    decreases t.len() - from,
{
    if 0 <= from < t.len() && t[from].0 != s {
        lemma_find_symbol_range(t, s, from + 1);
    }
}

} // verus!
