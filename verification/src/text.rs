//! Character-level text handling for the trajectory readers: whitespace,
//! trimming, splitting a line into fields, and the integer and float literal
//! syntax that the readers accept.
use vstd::prelude::*;

verus! {

// ---------------------------------------------------------------------------
// Whitespace, trimming and fields
// ---------------------------------------------------------------------------

/// The Unicode `White_Space` characters: what separates fields on a line and
/// what `trim` removes.
pub open spec fn is_ws(c: char) -> bool {
    let u = c as u32;
    ||| 0x09 <= u <= 0x0D
    ||| u == 0x20
    ||| u == 0x85
    ||| u == 0xA0
    ||| u == 0x1680
    ||| 0x2000 <= u <= 0x200A
    ||| u == 0x2028
    ||| u == 0x2029
    ||| u == 0x202F
    ||| u == 0x205F
    ||| u == 0x3000
}

/// `s` without its leading whitespace.
pub open spec fn trim_start(s: Seq<char>) -> Seq<char>
    decreases s.len(),
{
    if s.len() > 0 && is_ws(s[0]) {
        trim_start(s.drop_first())
    } else {
        s
    }
}

/// `s` without its trailing whitespace.
pub open spec fn trim_end(s: Seq<char>) -> Seq<char>
    decreases s.len(),
{
    if s.len() > 0 && is_ws(s.last()) {
        trim_end(s.drop_last())
    } else {
        s
    }
}

/// `s` without leading and trailing whitespace.
pub open spec fn trim(s: Seq<char>) -> Seq<char> {
    trim_end(trim_start(s))
}

/// The number of characters before the first whitespace of `s`.
pub open spec fn word_len(s: Seq<char>) -> nat
    decreases s.len(),
{
    if s.len() == 0 || is_ws(s[0]) {
        0
    } else {
        1 + word_len(s.drop_first())
    }
}

/// The fields of `s`: its maximal runs of non-whitespace characters, in order.
pub open spec fn fields(s: Seq<char>) -> Seq<Seq<char>>
    decreases s.len(),
{
    if s.len() == 0 {
        seq![]
    } else if is_ws(s[0]) {
        fields(s.drop_first())
    } else {
        let w = word_len(s);
        proof {
            lemma_word_len_bounds(s);
        }
        seq![s.take(w as int)] + fields(s.skip(w as int))
    }
}

/// The views of a sequence of strings.
pub open spec fn views(v: Seq<String>) -> Seq<Seq<char>> {
    v.map_values(|t: String| t@)
}

pub proof fn lemma_word_len_bounds(s: Seq<char>)
    ensures
        word_len(s) <= s.len(),
        s.len() > 0 && !is_ws(s[0]) ==> word_len(s) >= 1,
        forall|i: int| 0 <= i < word_len(s) ==> !is_ws(#[trigger] s[i]),
        word_len(s) < s.len() ==> is_ws(s[word_len(s) as int]),
    decreases s.len(),
{
    if s.len() > 0 && !is_ws(s[0]) {
        lemma_word_len_bounds(s.drop_first());
        assert forall|i: int| 0 <= i < word_len(s) implies !is_ws(#[trigger] s[i]) by {
            if i > 0 {
                assert(s[i] == s.drop_first()[i - 1]);
            }
        }
    }
}

/// Whether `c` is a whitespace character (Unicode `White_Space`).
pub fn is_whitespace(c: char) -> (r: bool)
    ensures
        r == is_ws(c),
{
    let u = c as u32;
    (0x09 <= u && u <= 0x0D) || u == 0x20 || u == 0x85 || u == 0xA0 || u == 0x1680 || (0x2000 <= u
        && u <= 0x200A) || u == 0x2028 || u == 0x2029 || u == 0x202F || u == 0x205F || u == 0x3000
}

/// The characters of `s`.
pub fn chars_of(s: &str) -> (v: Vec<char>)
    ensures
        v@ == s@,
{
    broadcast use vstd::string::group_string_axioms;

    let mut v: Vec<char> = Vec::new();
    for c in it: s.chars()
        invariant
            it.seq() == s@,
            v@ == it.seq().take(it.index()),
    {
        v.push(c);
    }
    v
}

/// The bounds `(a, b)` of `v` without leading and trailing whitespace.
pub fn trim_bounds(v: &Vec<char>) -> (r: (usize, usize))
    ensures
        r.0 <= r.1 <= v@.len(),
        v@.subrange(r.0 as int, r.1 as int) == trim(v@),
{
    let n = v.len();
    let mut a: usize = 0;
    assert(v@.skip(0) =~= v@);
    while a < n && is_whitespace(v[a])
        invariant
            a <= n == v@.len(),
            trim_start(v@) == trim_start(v@.skip(a as int)),
        decreases n - a,
    {
        assert(v@.skip(a as int).drop_first() =~= v@.skip(a + 1));
        a = a + 1;
    }
    assert(trim_start(v@) == v@.skip(a as int)) by {
        assert(v@.skip(a as int).len() == 0 || !is_ws(v@.skip(a as int)[0]));
    }
    let mut b: usize = n;
    while b > a && is_whitespace(v[b - 1])
        invariant
            a <= b <= n == v@.len(),
            trim(v@) == trim_end(v@.subrange(a as int, b as int)),
        decreases b,
    {
        assert(v@.subrange(a as int, b as int).drop_last() =~= v@.subrange(a as int, b - 1));
        b = b - 1;
    }
    assert(v@.subrange(a as int, n as int) =~= v@.skip(a as int));
    (a, b)
}

/// The character spans of the fields of `v`.
pub fn field_spans(v: &Vec<char>) -> (r: Vec<(usize, usize)>)
    ensures
        r@.len() == fields(v@).len(),
        forall|k: int|
            #![trigger r@[k]]
            0 <= k < r@.len() ==> {
                &&& r@[k].0 < r@[k].1 <= v@.len()
                &&& v@.subrange(r@[k].0 as int, r@[k].1 as int) == fields(v@)[k]
            },
{
    let n = v.len();
    let mut out: Vec<(usize, usize)> = Vec::new();
    let mut i: usize = 0;
    let ghost acc: Seq<Seq<char>> = seq![];
    assert(v@.skip(0) =~= v@);
    assert(acc + fields(v@.skip(0)) =~= fields(v@));
    while i < n
        invariant
            i <= n == v@.len(),
            out@.len() == acc.len(),
            fields(v@) == acc + fields(v@.skip(i as int)),
            forall|k: int|
                #![trigger out@[k]]
                0 <= k < out@.len() ==> {
                    &&& out@[k].0 < out@[k].1 <= i
                    &&& v@.subrange(out@[k].0 as int, out@[k].1 as int) == acc[k]
                },
        decreases n - i,
    {
        if is_whitespace(v[i]) {
            assert(v@.skip(i as int).drop_first() =~= v@.skip(i + 1));
            i = i + 1;
        } else {
            let start = i;
            let ghost rest = v@.skip(start as int);
            proof {
                lemma_word_len_bounds(rest);
            }
            while i < n && !is_whitespace(v[i])
                invariant
                    start <= i <= n == v@.len(),
                    rest == v@.skip(start as int),
                    out@.len() == acc.len(),
                    fields(v@) == acc + fields(rest),
                    forall|k: int|
                        #![trigger out@[k]]
                        0 <= k < out@.len() ==> {
                            &&& out@[k].0 < out@[k].1 <= start
                            &&& v@.subrange(out@[k].0 as int, out@[k].1 as int) == acc[k]
                        },
                    word_len(rest) == (i - start) + word_len(v@.skip(i as int)),
                decreases n - i,
            {
                assert(v@.skip(i as int).drop_first() =~= v@.skip(i + 1));
                i = i + 1;
            }
            assert(word_len(v@.skip(i as int)) == 0);
            assert(rest.take((i - start) as int) =~= v@.subrange(start as int, i as int));
            assert(rest.skip((i - start) as int) =~= v@.skip(i as int));
            assert(fields(rest) == seq![rest.take((i - start) as int)] + fields(v@.skip(i as int)));
            let ghost old_acc = acc;
            proof {
                acc = acc.push(v@.subrange(start as int, i as int));
            }
            out.push((start, i));
            assert(fields(v@) =~= acc + fields(v@.skip(i as int))) by {
                assert(old_acc + (seq![v@.subrange(start as int, i as int)] + fields(v@.skip(i as int)))
                    =~= acc + fields(v@.skip(i as int)));
            }
            assert forall|k: int| #![trigger out@[k]] 0 <= k < out@.len() implies {
                &&& out@[k].0 < out@[k].1 <= i
                &&& v@.subrange(out@[k].0 as int, out@[k].1 as int) == acc[k]
            } by {
                if k < out@.len() - 1 {
                    assert(acc[k] == old_acc[k]);
                }
            }
        }
    }
    assert(v@.skip(n as int) =~= Seq::<char>::empty());
    assert(acc + fields(v@.skip(n as int)) =~= acc);
    assert(fields(v@) == acc);
    out
}

/// The text of `s` from character `from` to character `to`.
pub fn substring(s: &str, from: usize, to: usize) -> (r: String)
    requires
        from <= to <= s@.len(),
    ensures
        r@ == s@.subrange(from as int, to as int),
{
    s.substring_char(from, to).to_owned()
}

/// The fields of `s`, as `str::split_whitespace` gives them.
pub fn split_fields(s: &str) -> (r: Vec<String>)
    ensures
        views(r@) == fields(s@),
{
    let v = chars_of(s);
    let spans = field_spans(&v);
    assert(forall|j: int|
        #![trigger spans@[j]]
        0 <= j < spans@.len() ==> {
            &&& spans@[j].0 < spans@[j].1 <= v@.len()
            &&& v@.subrange(spans@[j].0 as int, spans@[j].1 as int) == fields(v@)[j]
        });
    let mut out: Vec<String> = Vec::new();
    let mut k: usize = 0;
    while k < spans.len()
        invariant
            k <= spans@.len() == fields(v@).len(),
            v@ == s@,
            out@.len() == k,
            forall|j: int|
                #![trigger spans@[j]]
                0 <= j < spans@.len() ==> {
                    &&& spans@[j].0 < spans@[j].1 <= v@.len()
                    &&& v@.subrange(spans@[j].0 as int, spans@[j].1 as int) == fields(v@)[j]
                },
            forall|j: int| 0 <= j < k ==> (#[trigger] out@[j])@ == fields(v@)[j],
        decreases spans@.len() - k,
    {
        let (a, b) = spans[k];
        out.push(substring(s, a, b));
        k = k + 1;
    }
    assert(views(out@) =~= fields(s@));
    out
}

/// `s` without leading and trailing whitespace, as `str::trim` gives it.
pub fn trimmed(s: &str) -> (r: String)
    ensures
        r@ == trim(s@),
{
    let v = chars_of(s);
    let (a, b) = trim_bounds(&v);
    substring(s, a, b)
}

/// Whether `s` begins with `p`.
pub fn starts_with(s: &Vec<char>, p: &Vec<char>) -> (r: bool)
    ensures
        r == (p@.len() <= s@.len() && s@.take(p@.len() as int) == p@),
{
    if p.len() > s.len() {
        return false;
    }
    let mut i: usize = 0;
    while i < p.len()
        invariant
            i <= p@.len() <= s@.len(),
            forall|j: int| 0 <= j < i ==> s@[j] == p@[j],
        decreases p@.len() - i,
    {
        if s[i] != p[i] {
            assert(s@.take(p@.len() as int)[i as int] != p@[i as int]);
            return false;
        }
        i = i + 1;
    }
    assert(s@.take(p@.len() as int) =~= p@);
    true
}

/// Whether `p` occurs in `s` at position `at`.
pub open spec fn occurs_at(s: Seq<char>, p: Seq<char>, at: int) -> bool {
    0 <= at && at + p.len() <= s.len() && s.subrange(at, at + p.len()) == p
}

/// Whether `p` occurs anywhere in `s`.
pub open spec fn contains_seq(s: Seq<char>, p: Seq<char>) -> bool {
    exists|at: int| occurs_at(s, p, at)
}

/// Whether `p` occurs in `s` at `at`, compared character by character.
fn matches_at(s: &Vec<char>, p: &Vec<char>, at: usize) -> (r: bool)
    requires
        at + p@.len() <= s@.len(),
    ensures
        r == occurs_at(s@, p@, at as int),
{
    let n = s.len();
    let mut i: usize = 0;
    while i < p.len()
        invariant
            i <= p@.len(),
            at + p@.len() <= s@.len() == n,
            forall|j: int| 0 <= j < i ==> s@[at + j] == p@[j],
        decreases p@.len() - i,
    {
        if s[at + i] != p[i] {
            assert(s@.subrange(at as int, at + p@.len())[i as int] != p@[i as int]);
            return false;
        }
        i = i + 1;
    }
    assert(s@.subrange(at as int, at + p@.len()) =~= p@);
    true
}

/// Whether `p` occurs in `s`, as `str::contains` answers it.
pub fn contains(s: &Vec<char>, p: &Vec<char>) -> (r: bool)
    ensures
        r == contains_seq(s@, p@),
{
    if p.len() > s.len() {
        return false;
    }
    if p.len() == 0 {
        assert(s@.subrange(0, 0) =~= p@);
        assert(occurs_at(s@, p@, 0));
        return true;
    }
    let n = s.len();
    let last = n - p.len();
    let mut at: usize = 0;
    while at <= last
        invariant
            last + p@.len() == s@.len() == n,
            p@.len() >= 1,
            forall|j: int| 0 <= j < at ==> !occurs_at(s@, p@, j),
        decreases last + 1 - at,
    {
        if matches_at(s, p, at) {
            return true;
        }
        at = at + 1;
    }
    assert forall|j: int| !occurs_at(s@, p@, j) by {
        if 0 <= j && j + p@.len() <= s@.len() {
            assert(j <= last);
        }
    }
    false
}

/// Whether the string `s` contains the string `p`.
pub fn str_contains(s: &str, p: &str) -> (r: bool)
    ensures
        r == contains_seq(s@, p@),
{
    let sv = chars_of(s);
    let pv = chars_of(p);
    contains(&sv, &pv)
}

/// Whether two strings hold the same characters.
pub fn same_text(a: &str, b: &str) -> (r: bool)
    ensures
        r == (a@ == b@),
{
    let x = chars_of(a);
    let y = chars_of(b);
    if x.len() != y.len() {
        return false;
    }
    let mut i: usize = 0;
    while i < x.len()
        invariant
            i <= x@.len() == y@.len(),
            x@ == a@,
            y@ == b@,
            forall|j: int| 0 <= j < i ==> x@[j] == y@[j],
        decreases x@.len() - i,
    {
        if x[i] != y[i] {
            return false;
        }
        i = i + 1;
    }
    assert(x@ =~= y@);
    true
}

/// Whether the string `s` holds the character `c`.
pub fn has_char(s: &str, c: char) -> (r: bool)
    ensures
        r == s@.contains(c),
{
    let v = chars_of(s);
    let mut i: usize = 0;
    while i < v.len()
        invariant
            i <= v@.len(),
            v@ == s@,
            forall|j: int| 0 <= j < i ==> v@[j] != c,
        decreases v@.len() - i,
    {
        if v[i] == c {
            assert(v@[i as int] == c);
            return true;
        }
        i = i + 1;
    }
    false
}

/// Whether the string `s` begins with the string `p`.
pub fn str_starts_with(s: &str, p: &str) -> (r: bool)
    ensures
        r == (p@.len() <= s@.len() && s@.take(p@.len() as int) == p@),
{
    let sv = chars_of(s);
    let pv = chars_of(p);
    starts_with(&sv, &pv)
}


// ---------------------------------------------------------------------------
// Decimal text of numbers
// ---------------------------------------------------------------------------

/// The character of decimal digit `d`.
pub open spec fn digit_char(d: int) -> char {
    if d == 0 {
        '0'
    } else if d == 1 {
        '1'
    } else if d == 2 {
        '2'
    } else if d == 3 {
        '3'
    } else if d == 4 {
        '4'
    } else if d == 5 {
        '5'
    } else if d == 6 {
        '6'
    } else if d == 7 {
        '7'
    } else if d == 8 {
        '8'
    } else {
        '9'
    }
}

/// The decimal text of `n`, as `format!("{}", n)` writes it: no sign, no
/// leading zero.
pub open spec fn decimal(n: nat) -> Seq<char>
    decreases n,
{
    if n < 10 {
        seq![digit_char(n as int)]
    } else {
        decimal(n / 10).push(digit_char((n % 10) as int))
    }
}

fn digit_text(d: usize) -> (r: &'static str)
    requires
        d < 10,
    ensures
        r@ == seq![digit_char(d as int)],
{
    proof {
        reveal_strlit("0");
        reveal_strlit("1");
        reveal_strlit("2");
        reveal_strlit("3");
        reveal_strlit("4");
        reveal_strlit("5");
        reveal_strlit("6");
        reveal_strlit("7");
        reveal_strlit("8");
        reveal_strlit("9");
    }
    if d == 0 {
        "0"
    } else if d == 1 {
        "1"
    } else if d == 2 {
        "2"
    } else if d == 3 {
        "3"
    } else if d == 4 {
        "4"
    } else if d == 5 {
        "5"
    } else if d == 6 {
        "6"
    } else if d == 7 {
        "7"
    } else if d == 8 {
        "8"
    } else {
        "9"
    }
}

/// The decimal text of `n`.
pub fn decimal_text(n: usize) -> (r: String)
    ensures
        r@ == decimal(n as nat),
    decreases n,
{
    if n < 10 {
        digit_text(n).to_owned()
    } else {
        let mut s = decimal_text(n / 10);
        s.append(digit_text(n % 10));
        s
    }
}

proof fn lemma_digits_up_push(s: Seq<char>, c: char, acc: int, v: int, max: int)
    requires
        0 <= acc,
        digits_up(s, acc, max) == Ok::<int, IntErrorKind>(v),
        is_digit(c),
        v * 10 + digit_value(c) <= max,
    ensures
        digits_up(s.push(c), acc, max) == Ok::<int, IntErrorKind>(v * 10 + digit_value(c)),
    decreases s.len(),
{
    if s.len() == 0 {
        assert(v == acc);
        assert(s.push(c).drop_first() =~= Seq::<char>::empty());
        assert(digits_up(Seq::<char>::empty(), acc * 10 + digit_value(c), max) == Ok::<int, IntErrorKind>(
            acc * 10 + digit_value(c),
        ));
    } else {
        let a2 = acc * 10 + digit_value(s[0]);
        assert(s.push(c).drop_first() =~= s.drop_first().push(c));
        assert(s.push(c)[0] == s[0]);
        lemma_digits_up_push(s.drop_first(), c, a2, v, max);
    }
}

/// Reading back the decimal text of `n` gives `n`, for every `n` that fits.
pub proof fn lemma_decimal_reads_back(n: nat, max: int)
    requires
        n <= max,
    ensures
        digits_up(decimal(n), 0, max) == Ok::<int, IntErrorKind>(n as int),
        decimal(n).len() >= 1,
        is_digit(decimal(n)[0]),
    decreases n,
{
    if n < 10 {
        let s = seq![digit_char(n as int)];
        assert(s.drop_first() =~= Seq::<char>::empty());
        assert(is_digit(s[0]) && digit_value(s[0]) == n);
        assert(digits_up(Seq::<char>::empty(), n as int, max) == Ok::<int, IntErrorKind>(n as int));
    } else {
        lemma_decimal_reads_back(n / 10, max);
        let c = digit_char((n % 10) as int);
        assert(is_digit(c) && digit_value(c) == n % 10);
        lemma_digits_up_push(decimal(n / 10), c, 0, (n / 10) as int, max);
        assert(decimal(n)[0] == decimal(n / 10)[0]);
    }
}

/// `str::parse::<usize>` gives back `n` from the decimal text of `n`.
pub proof fn lemma_parse_decimal(n: nat)
    requires
        n <= usize::MAX,
    ensures
        spec_parse_usize(decimal(n)) == Ok::<int, IntErrorKind>(n as int),
{
    lemma_decimal_reads_back(n, usize::MAX as int);
}

// ---------------------------------------------------------------------------
// Integer literals
// ---------------------------------------------------------------------------

/// Why a text is not an integer of a given type; the kinds that
/// `core::num::IntErrorKind` distinguishes for decimal text.
#[derive(Debug, Clone, Copy, PartialEq, Eq, Structural)]
pub enum IntErrorKind {
    Empty,
    InvalidDigit,
    PosOverflow,
    NegOverflow,
}

pub open spec fn is_digit(c: char) -> bool {
    '0' <= c <= '9'
}

pub open spec fn digit_value(c: char) -> int {
    c as int - '0' as int
}

/// Reads decimal digits left to right onto `acc`; fails at the first
/// character that is no digit, or as soon as the value passes `max`.
pub open spec fn digits_up(s: Seq<char>, acc: int, max: int) -> Result<int, IntErrorKind>
    decreases s.len(),
{
    if s.len() == 0 {
        Ok(acc)
    } else if !is_digit(s[0]) {
        Err(IntErrorKind::InvalidDigit)
    } else if acc * 10 + digit_value(s[0]) > max {
        Err(IntErrorKind::PosOverflow)
    } else {
        digits_up(s.drop_first(), acc * 10 + digit_value(s[0]), max)
    }
}

/// Reads decimal digits left to right, subtracting from `acc`; fails at the
/// first character that is no digit, or as soon as the value passes `min`.
pub open spec fn digits_down(s: Seq<char>, acc: int, min: int) -> Result<int, IntErrorKind>
    decreases s.len(),
{
    if s.len() == 0 {
        Ok(acc)
    } else if !is_digit(s[0]) {
        Err(IntErrorKind::InvalidDigit)
    } else if acc * 10 - digit_value(s[0]) < min {
        Err(IntErrorKind::NegOverflow)
    } else {
        digits_down(s.drop_first(), acc * 10 - digit_value(s[0]), min)
    }
}

pub open spec fn is_sign(c: char) -> bool {
    c == '+' || c == '-'
}

/// The decimal integer that `s` spells for a type ranging over `[min, max]`
/// (`min < 0` for a signed type): an optional sign, `-` only where the type is
/// signed, then digits.
pub open spec fn parse_int(s: Seq<char>, min: int, max: int) -> Result<int, IntErrorKind> {
    if s.len() == 0 {
        Err(IntErrorKind::Empty)
    } else if s.len() == 1 && is_sign(s[0]) {
        Err(IntErrorKind::InvalidDigit)
    } else if s[0] == '+' {
        digits_up(s.drop_first(), 0, max)
    } else if s[0] == '-' && min < 0 {
        digits_down(s.drop_first(), 0, min)
    } else {
        digits_up(s, 0, max)
    }
}

/// `s` read as a `usize`, as `str::parse::<usize>` reads it.
pub open spec fn spec_parse_usize(s: Seq<char>) -> Result<int, IntErrorKind> {
    parse_int(s, 0, usize::MAX as int)
}

/// `s` read as an `i32`, as `str::parse::<i32>` reads it.
pub open spec fn spec_parse_i32(s: Seq<char>) -> Result<int, IntErrorKind> {
    parse_int(s, i32::MIN as int, i32::MAX as int)
}

pub proof fn lemma_digits_up_range(s: Seq<char>, acc: int, max: int)
    requires
        0 <= acc <= max,
    ensures
        digits_up(s, acc, max) matches Ok(v) ==> 0 <= v <= max,
    decreases s.len(),
{
    if s.len() > 0 && is_digit(s[0]) && acc * 10 + digit_value(s[0]) <= max {
        lemma_digits_up_range(s.drop_first(), acc * 10 + digit_value(s[0]), max);
    }
}

pub proof fn lemma_digits_down_range(s: Seq<char>, acc: int, min: int)
    requires
        min <= acc <= 0,
    ensures
        digits_down(s, acc, min) matches Ok(v) ==> min <= v <= 0,
    decreases s.len(),
{
    if s.len() > 0 && is_digit(s[0]) && acc * 10 - digit_value(s[0]) >= min {
        lemma_digits_down_range(s.drop_first(), acc * 10 - digit_value(s[0]), min);
    }
}

/// Digits of `v[from..to]` read upward from 0, bounded by `max`.
fn read_digits_up(v: &Vec<char>, from: usize, to: usize, max: u64) -> (r: Result<u64, IntErrorKind>)
    requires
        from <= to <= v@.len(),
        9 <= max,
    ensures
        match r {
            Ok(n) => digits_up(v@.subrange(from as int, to as int), 0, max as int) == Ok::<
                int,
                IntErrorKind,
            >(n as int),
            Err(e) => digits_up(v@.subrange(from as int, to as int), 0, max as int) == Err::<
                int,
                IntErrorKind,
            >(e),
        },
{
    let mut acc: u64 = 0;
    let mut i: usize = from;
    while i < to
        invariant
            from <= i <= to <= v@.len(),
            acc <= max,
            9 <= max,
            digits_up(v@.subrange(from as int, to as int), 0, max as int) == digits_up(
                v@.subrange(i as int, to as int),
                acc as int,
                max as int,
            ),
        decreases to - i,
    {
        let c = v[i];
        assert(v@.subrange(i as int, to as int)[0] == c);
        assert(v@.subrange(i as int, to as int).drop_first() =~= v@.subrange(i + 1, to as int));
        if !('0' <= c && c <= '9') {
            return Err(IntErrorKind::InvalidDigit);
        }
        let d = (c as u32 - '0' as u32) as u64;
        if acc > (max - d) / 10 {
            assert(acc * 10 + d > max) by (nonlinear_arith)
                requires
                    acc > (max - d) / 10,
                    d <= 9,
                    9 <= max,
            ;
            return Err(IntErrorKind::PosOverflow);
        }
        assert(acc * 10 + d <= max) by (nonlinear_arith)
            requires
                acc <= (max - d) / 10,
                d <= 9,
        ;
        acc = acc * 10 + d;
        i = i + 1;
    }
    assert(v@.subrange(to as int, to as int).len() == 0);
    Ok(acc)
}


/// Digits of `v[from..to]` read downward from 0, bounded by `min < 0`.
fn read_digits_down(v: &Vec<char>, from: usize, to: usize, min: i64) -> (r: Result<
    i64,
    IntErrorKind,
>)
    requires
        from <= to <= v@.len(),
        i64::MIN + 9 <= min <= -9,
    ensures
        match r {
            Ok(n) => digits_down(v@.subrange(from as int, to as int), 0, min as int) == Ok::<
                int,
                IntErrorKind,
            >(n as int),
            Err(e) => digits_down(v@.subrange(from as int, to as int), 0, min as int) == Err::<
                int,
                IntErrorKind,
            >(e),
        },
{
    let mut acc: i64 = 0;
    let mut i: usize = from;
    while i < to
        invariant
            from <= i <= to <= v@.len(),
            min <= acc <= 0,
            i64::MIN + 9 <= min <= -9,
            digits_down(v@.subrange(from as int, to as int), 0, min as int) == digits_down(
                v@.subrange(i as int, to as int),
                acc as int,
                min as int,
            ),
        decreases to - i,
    {
        let c = v[i];
        assert(v@.subrange(i as int, to as int)[0] == c);
        assert(v@.subrange(i as int, to as int).drop_first() =~= v@.subrange(i + 1, to as int));
        if !('0' <= c && c <= '9') {
            return Err(IntErrorKind::InvalidDigit);
        }
        let d = (c as u32 - '0' as u32) as i64;
        let mag = 0 - acc;
        let lim = 0 - min;
        if mag > (lim - d) / 10 {
            assert(mag * 10 + d > lim) by (nonlinear_arith)
                requires
                    mag > (lim - d) / 10,
                    0 <= d <= 9,
                    lim >= 9,
            ;
            return Err(IntErrorKind::NegOverflow);
        }
        assert(mag * 10 + d <= lim) by (nonlinear_arith)
            requires
                mag <= (lim - d) / 10,
                0 <= d <= 9,
                lim >= 9,
        ;
        acc = acc * 10 - d;
        i = i + 1;
    }
    assert(v@.subrange(to as int, to as int).len() == 0);
    Ok(acc)
}

/// `v[from..to]` read as a `usize`, as `str::parse::<usize>` reads it.
pub fn parse_usize_at(v: &Vec<char>, from: usize, to: usize) -> (r: Result<usize, IntErrorKind>)
    requires
        from <= to <= v@.len(),
    ensures
        match r {
            Ok(n) => spec_parse_usize(v@.subrange(from as int, to as int)) == Ok::<
                int,
                IntErrorKind,
            >(n as int),
            Err(e) => spec_parse_usize(v@.subrange(from as int, to as int)) == Err::<
                int,
                IntErrorKind,
            >(e),
        },
{
    let ghost t = v@.subrange(from as int, to as int);
    if from == to {
        return Err(IntErrorKind::Empty);
    }
    let c0 = v[from];
    assert(t[0] == c0);
    if to - from == 1 && (c0 == '+' || c0 == '-') {
        return Err(IntErrorKind::InvalidDigit);
    }
    let start = if c0 == '+' {
        from + 1
    } else {
        from
    };
    assert(t.drop_first() =~= v@.subrange(from + 1, to as int));
    match read_digits_up(v, start, to, usize::MAX as u64) {
        Ok(n) => {
            proof {
                lemma_digits_up_range(v@.subrange(start as int, to as int), 0, usize::MAX as int);
            }
            Ok(n as usize)
        },
        Err(e) => Err(e),
    }
}

/// `v[from..to]` read as an `i32`, as `str::parse::<i32>` reads it.
pub fn parse_i32_at(v: &Vec<char>, from: usize, to: usize) -> (r: Result<i32, IntErrorKind>)
    requires
        from <= to <= v@.len(),
    ensures
        match r {
            Ok(n) => spec_parse_i32(v@.subrange(from as int, to as int)) == Ok::<
                int,
                IntErrorKind,
            >(n as int),
            Err(e) => spec_parse_i32(v@.subrange(from as int, to as int)) == Err::<
                int,
                IntErrorKind,
            >(e),
        },
{
    let ghost t = v@.subrange(from as int, to as int);
    if from == to {
        return Err(IntErrorKind::Empty);
    }
    let c0 = v[from];
    assert(t[0] == c0);
    if to - from == 1 && (c0 == '+' || c0 == '-') {
        return Err(IntErrorKind::InvalidDigit);
    }
    assert(t.drop_first() =~= v@.subrange(from + 1, to as int));
    if c0 == '-' {
        match read_digits_down(v, from + 1, to, i32::MIN as i64) {
            Ok(n) => {
                proof {
                    lemma_digits_down_range(v@.subrange(from + 1, to as int), 0, i32::MIN as int);
                }
                Ok(n as i32)
            },
            Err(e) => Err(e),
        }
    } else {
        let start = if c0 == '+' {
            from + 1
        } else {
            from
        };
        match read_digits_up(v, start, to, i32::MAX as u64) {
            Ok(n) => {
                proof {
                    lemma_digits_up_range(v@.subrange(start as int, to as int), 0, i32::MAX as int);
                }
                Ok(n as i32)
            },
            Err(e) => Err(e),
        }
    }
}

/// `s` read as a `usize`, as `str::parse::<usize>` reads it.
pub fn parse_usize(s: &str) -> (r: Result<usize, IntErrorKind>)
    ensures
        match r {
            Ok(n) => spec_parse_usize(s@) == Ok::<int, IntErrorKind>(n as int),
            Err(e) => spec_parse_usize(s@) == Err::<int, IntErrorKind>(e),
        },
{
    let v = chars_of(s);
    assert(v@.subrange(0, v@.len() as int) =~= v@);
    parse_usize_at(&v, 0, v.len())
}

/// `s` read as an `i32`, as `str::parse::<i32>` reads it.
pub fn parse_i32(s: &str) -> (r: Result<i32, IntErrorKind>)
    ensures
        match r {
            Ok(n) => spec_parse_i32(s@) == Ok::<int, IntErrorKind>(n as int),
            Err(e) => spec_parse_i32(s@) == Err::<int, IntErrorKind>(e),
        },
{
    let v = chars_of(s);
    assert(v@.subrange(0, v@.len() as int) =~= v@);
    parse_i32_at(&v, 0, v.len())
}


// ---------------------------------------------------------------------------
// Float literals
// ---------------------------------------------------------------------------

pub open spec fn all_digits(s: Seq<char>) -> bool {
    forall|i: int| 0 <= i < s.len() ==> is_digit(#[trigger] s[i])
}

/// `s` without one leading `+` or `-`.
pub open spec fn strip_sign(s: Seq<char>) -> Seq<char> {
    if s.len() > 0 && is_sign(s[0]) {
        s.drop_first()
    } else {
        s
    }
}

/// `Digit+ | Digit+ '.' Digit* | Digit* '.' Digit+`
pub open spec fn is_mantissa(m: Seq<char>) -> bool {
    ||| m.len() > 0 && all_digits(m)
    ||| exists|p: int|
        0 <= p < m.len() && m[p] == '.' && m.len() >= 2 && all_digits(m.take(p)) && all_digits(
            m.skip(p + 1),
        )
}

/// `Sign? Digit+`, the part after `e`.
pub open spec fn is_exponent_digits(x: Seq<char>) -> bool {
    strip_sign(x).len() > 0 && all_digits(strip_sign(x))
}

/// `Mantissa ('e' Sign? Digit+)?`, `e` in either case.
pub open spec fn is_number(t: Seq<char>) -> bool {
    ||| is_mantissa(t)
    ||| exists|e: int|
        0 <= e < t.len() && (t[e] == 'e' || t[e] == 'E') && is_mantissa(t.take(e))
            && is_exponent_digits(t.skip(e + 1))
}

/// Whether `c` is the lower-case letter `w` in either case.
pub open spec fn same_letter(c: char, w: char) -> bool {
    c == w || ('A' <= c <= 'Z' && c as u32 + 32 == w as u32)
}

/// Whether `t` spells the lower-case word `w` in any mix of cases.
pub open spec fn eq_ignore_case(t: Seq<char>, w: Seq<char>) -> bool {
    t.len() == w.len() && forall|i: int| 0 <= i < t.len() ==> same_letter(#[trigger] t[i], w[i])
}

/// The literals that `str::parse::<f64>` accepts, as its documentation gives
/// their grammar: `Sign? ('inf' | 'infinity' | 'nan' | Number)`, letters in
/// any case.
pub open spec fn is_float_literal(s: Seq<char>) -> bool {
    let t = strip_sign(s);
    ||| eq_ignore_case(t, seq!['i', 'n', 'f'])
    ||| eq_ignore_case(t, seq!['i', 'n', 'f', 'i', 'n', 'i', 't', 'y'])
    ||| eq_ignore_case(t, seq!['n', 'a', 'n'])
    ||| is_number(t)
}

/// Whether `v[from..to]` is all digits.
fn digits_only_at(v: &Vec<char>, from: usize, to: usize) -> (r: bool)
    requires
        from <= to <= v@.len(),
    ensures
        r == all_digits(v@.subrange(from as int, to as int)),
{
    let mut i = from;
    while i < to
        invariant
            from <= i <= to <= v@.len(),
            forall|j: int| from <= j < i ==> is_digit(#[trigger] v@[j]),
        decreases to - i,
    {
        if !('0' <= v[i] && v[i] <= '9') {
            assert(!is_digit(v@.subrange(from as int, to as int)[i - from]));
            return false;
        }
        i = i + 1;
    }
    assert forall|j: int|
        0 <= j < v@.subrange(from as int, to as int).len() implies is_digit(
        #[trigger] v@.subrange(from as int, to as int)[j],
    ) by {
        assert(v@.subrange(from as int, to as int)[j] == v@[from + j]);
    }
    true
}

/// Whether `v[from..to]` is a mantissa.
fn mantissa_at(v: &Vec<char>, from: usize, to: usize) -> (r: bool)
    requires
        from <= to <= v@.len(),
    ensures
        r == is_mantissa(v@.subrange(from as int, to as int)),
{
    let ghost m = v@.subrange(from as int, to as int);
    let mut p = from;
    while p < to && v[p] != '.'
        invariant
            from <= p <= to <= v@.len(),
            forall|j: int| from <= j < p ==> v@[j] != '.',
        decreases to - p,
    {
        p = p + 1;
    }
    if p == to {
        let r = from < to && digits_only_at(v, from, to);
        assert forall|q: int|
            0 <= q < m.len() && m[q] == '.' implies false by {
            assert(m[q] == v@[from + q]);
        }
        return r;
    }
    let ghost q = p - from;
    assert(m[q] == '.');
    assert(m.take(q) =~= v@.subrange(from as int, p as int));
    assert(m.skip(q + 1) =~= v@.subrange(p + 1, to as int));
    let before = digits_only_at(v, from, p);
    let after = digits_only_at(v, p + 1, to);
    let r = to - from >= 2 && before && after;
    if r {
        assert(is_mantissa(m));
    } else {
        assert(!(m.len() > 0 && all_digits(m))) by {
            assert(!is_digit(m[q]));
        }
        assert forall|p2: int|
            0 <= p2 < m.len() && m[p2] == '.' && m.len() >= 2 implies !(all_digits(m.take(p2))
            && all_digits(m.skip(p2 + 1))) by {
            if p2 < q {
                assert(m[p2] == v@[from + p2]);
            } else if p2 > q {
                assert(m.take(p2)[q] == '.');
                assert(!is_digit(m.take(p2)[q]));
            }
        }
    }
    r
}

/// Whether `v[from..to]` is `Sign? Digit+`.
fn exponent_at(v: &Vec<char>, from: usize, to: usize) -> (r: bool)
    requires
        from <= to <= v@.len(),
    ensures
        r == is_exponent_digits(v@.subrange(from as int, to as int)),
{
    let ghost x = v@.subrange(from as int, to as int);
    if from < to && (v[from] == '+' || v[from] == '-') {
        assert(strip_sign(x) =~= v@.subrange(from + 1, to as int));
        from + 1 < to && digits_only_at(v, from + 1, to)
    } else {
        assert(strip_sign(x) =~= x);
        from < to && digits_only_at(v, from, to)
    }
}

/// Whether `v[from..to]` spells the lower-case word `w` in any case.
fn eq_ignore_case_at(v: &Vec<char>, from: usize, to: usize, w: &Vec<char>) -> (r: bool)
    requires
        from <= to <= v@.len(),
    ensures
        r == eq_ignore_case(v@.subrange(from as int, to as int), w@),
{
    let ghost t = v@.subrange(from as int, to as int);
    if to - from != w.len() {
        return false;
    }
    let mut i: usize = 0;
    while i < w.len()
        invariant
            to - from == w@.len(),
            from <= to <= v@.len(),
            i <= w@.len(),
            t == v@.subrange(from as int, to as int),
            forall|j: int| 0 <= j < i ==> same_letter(#[trigger] t[j], w@[j]),
        decreases w@.len() - i,
    {
        let c = v[from + i];
        let wc = w[i];
        assert(t[i as int] == c);
        if !(c == wc || ('A' <= c && c <= 'Z' && c as u32 + 32 == wc as u32)) {
            return false;
        }
        i = i + 1;
    }
    true
}


/// Whether `v[from..to]` is a literal that `str::parse::<f64>` accepts.
pub fn float_literal_at(v: &Vec<char>, from: usize, to: usize) -> (r: bool)
    requires
        from <= to <= v@.len(),
    ensures
        r == is_float_literal(v@.subrange(from as int, to as int)),
{
    let ghost s = v@.subrange(from as int, to as int);
    let a = if from < to && (v[from] == '+' || v[from] == '-') {
        from + 1
    } else {
        from
    };
    let ghost t = v@.subrange(a as int, to as int);
    assert(strip_sign(s) =~= t);
    let inf = vec!['i', 'n', 'f'];
    let infinity = vec!['i', 'n', 'f', 'i', 'n', 'i', 't', 'y'];
    let nan = vec!['n', 'a', 'n'];
    assert(inf@ =~= seq!['i', 'n', 'f']);
    assert(infinity@ =~= seq!['i', 'n', 'f', 'i', 'n', 'i', 't', 'y']);
    assert(nan@ =~= seq!['n', 'a', 'n']);
    if eq_ignore_case_at(v, a, to, &inf) || eq_ignore_case_at(v, a, to, &infinity)
        || eq_ignore_case_at(v, a, to, &nan) {
        return true;
    }
    // the first `e` or `E` ends the mantissa
    let mut e = a;
    while e < to && v[e] != 'e' && v[e] != 'E'
        invariant
            a <= e <= to <= v@.len(),
            forall|j: int| a <= j < e ==> v@[j] != 'e' && v@[j] != 'E',
        decreases to - e,
    {
        e = e + 1;
    }
    if e == to {
        let r = mantissa_at(v, a, to);
        assert(!exists|e2: int|
            0 <= e2 < t.len() && (t[e2] == 'e' || t[e2] == 'E') && is_mantissa(t.take(e2))
                && is_exponent_digits(t.skip(e2 + 1))) by {
            assert forall|e2: int| 0 <= e2 < t.len() implies !(t[e2] == 'e' || t[e2] == 'E') by {
                assert(t[e2] == v@[a + e2]);
            }
        }
        return r;
    }
    let ghost k = e - a;
    assert(t.take(k) =~= v@.subrange(a as int, e as int));
    assert(t.skip(k + 1) =~= v@.subrange(e + 1, to as int));
    let m = mantissa_at(v, a, e);
    let x = exponent_at(v, e + 1, to);
    proof {
        lemma_mantissa_no_e(t.take(k));
        assert forall|e2: int|
            0 <= e2 < t.len() && (t[e2] == 'e' || t[e2] == 'E') && is_mantissa(t.take(e2))
                && is_exponent_digits(t.skip(e2 + 1)) implies e2 == k by {
            if e2 > k {
                lemma_mantissa_no_e(t.take(e2));
                assert(t.take(e2)[k] == t[k]);
            } else if e2 < k {
                assert(t[e2] == v@[a + e2]);
            }
        }
        lemma_mantissa_no_e(t);
        assert(t[k] == 'e' || t[k] == 'E');
        assert(!is_mantissa(t));
        if m && x {
            assert(0 <= k < t.len() && (t[k] == 'e' || t[k] == 'E') && is_mantissa(t.take(k))
                && is_exponent_digits(t.skip(k + 1)));
        }
    }
    m && x
}

/// A mantissa holds no `e` or `E`.
pub proof fn lemma_mantissa_no_e(m: Seq<char>)
    ensures
        is_mantissa(m) ==> forall|i: int| 0 <= i < m.len() ==> #[trigger] m[i] != 'e' && m[i] != 'E',
{
    if is_mantissa(m) {
        if m.len() > 0 && all_digits(m) {
        } else {
            let p = choose|p: int|
                0 <= p < m.len() && m[p] == '.' && m.len() >= 2 && all_digits(m.take(p))
                    && all_digits(m.skip(p + 1));
            assert forall|i: int| 0 <= i < m.len() implies #[trigger] m[i] != 'e' && m[i] != 'E' by {
                if i < p {
                    assert(m.take(p)[i] == m[i]);
                } else if i > p {
                    assert(m.skip(p + 1)[i - p - 1] == m[i]);
                }
            }
        }
    }
}

/// Whether `s` is a literal that `str::parse::<f64>` accepts.
pub fn is_float_text(s: &str) -> (r: bool)
    ensures
        r == is_float_literal(s@),
{
    let v = chars_of(s);
    assert(v@.subrange(0, v@.len() as int) =~= v@);
    float_literal_at(&v, 0, v.len())
}

} // verus!
