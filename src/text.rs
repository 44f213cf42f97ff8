//! Byte-level text primitives: decimal numerals, substring search and
//! line splitting.
use vstd::prelude::*;

verus! {

/// Sub-second resolution of every time value: one unit is a microsecond.
pub const MICROS_PER_SECOND: u64 = 1_000_000;

/// Largest number of digits accepted before the decimal point.
pub const MAX_WHOLE_DIGITS: usize = 12;

/// Largest number of digits accepted after the decimal point.
pub const MAX_FRACTION_DIGITS: usize = 6;

pub open spec fn is_digit(b: u8) -> bool {
    48 <= b && b <= 57
}

pub open spec fn all_digits(s: Seq<u8>) -> bool {
    forall|i: int| 0 <= i < s.len() ==> is_digit(#[trigger] s[i])
}

/// The number that a string of decimal digits denotes.
pub open spec fn digits_value(s: Seq<u8>) -> nat
    decreases s.len(),
{
    if s.len() == 0 {
        0
    } else {
        digits_value(s.drop_last()) * 10 + (s.last() - 48) as nat
    }
}

pub open spec fn pow10(n: nat) -> nat
    decreases n,
{
    if n == 0 {
        1
    } else {
        10 * pow10((n - 1) as nat)
    }
}

pub proof fn lemma_pow10_monotonic(a: nat, b: nat)
    requires
        a <= b,
    ensures
        1 <= pow10(a) <= pow10(b),
    decreases b,
{
    if b > 0 {
        if a < b {
            lemma_pow10_monotonic(a, (b - 1) as nat);
        } else {
            lemma_pow10_monotonic((b - 1) as nat, (b - 1) as nat);
        }
    }
}

pub proof fn lemma_pow10_values()
    ensures
        pow10(6) == 1_000_000,
        pow10(12) == 1_000_000_000_000,
{
    reveal_with_fuel(pow10, 13);
}

pub proof fn lemma_pow10_add(a: nat, b: nat)
    ensures
        pow10(a) * pow10(b) == pow10(a + b),
    decreases a,
{
    if a > 0 {
        let c = (a - 1) as nat;
        lemma_pow10_add(c, b);
        assert(pow10(c + b + 1) == 10 * pow10(c + b));
        assert(pow10(a) == 10 * pow10(c));
        assert(a + b == c + b + 1);
        assert(pow10(a) * pow10(b) == 10 * (pow10(c) * pow10(b))) by (nonlinear_arith)
            requires
                pow10(a) == 10 * pow10(c),
        ;
        assert(pow10(a) * pow10(b) == pow10(a + b));
    } else {
        assert(pow10(0) == 1);
        assert(pow10(a) * pow10(b) == pow10(b)) by (nonlinear_arith)
            requires
                pow10(a) == 1,
        ;
    }
}

/// `s` is `W.F`: one to twelve whole digits, a point, one to six fraction digits.
pub open spec fn point_at(s: Seq<u8>, k: int) -> bool {
    &&& 0 < k <= MAX_WHOLE_DIGITS
    &&& k + 1 < s.len()
    &&& s.len() - k - 1 <= MAX_FRACTION_DIGITS
    &&& s[k] == 46
    &&& all_digits(s.subrange(0, k))
    &&& all_digits(s.subrange(k + 1, s.len() as int))
}

/// The value in microseconds of a non-negative decimal numeral, either a
/// whole number of seconds or one with up to six fraction digits; `None`
/// when `s` is not such a numeral.
pub open spec fn decimal_micros(s: Seq<u8>) -> Option<nat> {
    if 0 < s.len() <= MAX_WHOLE_DIGITS && all_digits(s) {
        Some(digits_value(s) * 1_000_000)
    } else if exists|k: int| point_at(s, k) {
        let k = choose|k: int| point_at(s, k);
        let frac = s.subrange(k + 1, s.len() as int);
        Some(
            digits_value(s.subrange(0, k)) * 1_000_000 + digits_value(frac) * pow10(
                (6 - frac.len()) as nat,
            ),
        )
    } else {
        None
    }
}

/// Reads a string of at most twelve digits.
fn digits_to_u64(s: &[u8]) -> (r: u64)
    requires
        s@.len() <= MAX_WHOLE_DIGITS,
        all_digits(s@),
    ensures
        r == digits_value(s@),
        r < pow10(s@.len()),
{
    let mut v: u64 = 0;
    let mut i: usize = 0;
    proof {
        lemma_pow10_monotonic(s@.len() as nat, 12);
        lemma_pow10_values();
    }
    while i < s.len()
        invariant
            i <= s@.len() <= 12,
            all_digits(s@),
            v == digits_value(s@.subrange(0, i as int)),
            v < pow10(i as nat),
            pow10(s@.len() as nat) <= 1_000_000_000_000,
        decreases s@.len() - i,
    {
        proof {
            lemma_pow10_monotonic((i + 1) as nat, s@.len() as nat);
            assert(s@.subrange(0, i + 1).drop_last() =~= s@.subrange(0, i as int));
            assert(is_digit(s@[i as int]));
        }
        let d = s[i] - 48;
        assert(v * 10 + d < pow10((i + 1) as nat)) by (nonlinear_arith)
            requires
                v < pow10(i as nat),
                d < 10,
                pow10((i + 1) as nat) == 10 * pow10(i as nat),
        ;
        v = v * 10 + d as u64;
        i = i + 1;
    }
    assert(s@.subrange(0, i as int) =~= s@);
    v
}

/// Index of the first byte of `s` that is not a digit, or its length.
fn digit_run(s: &[u8]) -> (k: usize)
    ensures
        k <= s@.len(),
        all_digits(s@.subrange(0, k as int)),
        k < s@.len() ==> !is_digit(s@[k as int]),
{
    let mut k: usize = 0;
    while k < s.len() && 48 <= s[k] && s[k] <= 57
        invariant
            k <= s@.len(),
            all_digits(s@.subrange(0, k as int)),
        decreases s@.len() - k,
    {
        assert(all_digits(s@.subrange(0, k + 1))) by {
            assert forall|i: int| 0 <= i < k + 1 implies is_digit(#[trigger] s@.subrange(0, k + 1)[i]) by {
                if i < k {
                    assert(s@.subrange(0, k + 1)[i] == s@.subrange(0, k as int)[i]);
                }
            }
        }
        k = k + 1;
    }
    k
}

/// Parses a non-negative decimal numeral into microseconds.
pub fn parse_micros(s: &[u8]) -> (r: Option<u64>)
    ensures
        match r {
            Some(v) => decimal_micros(s@) == Some(v as nat),
            None => decimal_micros(s@) is None,
        },
{
    let k = digit_run(s);
    proof {
        lemma_pow10_values();
    }
    if k == s.len() {
        assert(s@.subrange(0, k as int) =~= s@);
        if k == 0 || k > MAX_WHOLE_DIGITS {
            assert(!exists|j: int| point_at(s@, j)) by {
                if exists|j: int| point_at(s@, j) {
                    let j = choose|j: int| point_at(s@, j);
                    assert(is_digit(s@[j]));
                }
            }
            return None;
        }
        let w = digits_to_u64(s);
        proof {
            lemma_pow10_monotonic(k as nat, 12);
        }
        return Some(w * MICROS_PER_SECOND);
    }
    // Here s[k] is the first byte that is not a digit.
    assert(!(0 < s@.len() <= MAX_WHOLE_DIGITS && all_digits(s@))) by {
        if all_digits(s@) {
            assert(is_digit(s@[k as int]));
        }
    }
    assert forall|j: int| point_at(s@, j) implies j == k by {
        if j < k {
            assert(s@.subrange(0, k as int)[j] == s@[j]);
            assert(is_digit(s@.subrange(0, k as int)[j]));
        } else if j > k {
            assert(s@.subrange(0, j)[k as int] == s@[k as int]);
            assert(is_digit(s@.subrange(0, j)[k as int]));
        }
    }
    if k == 0 || k > MAX_WHOLE_DIGITS || s[k] != 46 || k + 1 >= s.len() || s.len() - k - 1
        > MAX_FRACTION_DIGITS {
        return None;
    }
    let whole = &s[0..k];
    let frac = &s[k + 1..s.len()];
    let fk = digit_run(frac);
    if fk != frac.len() {
        assert(!point_at(s@, k as int)) by {
            assert(frac@ =~= s@.subrange(k + 1, s@.len() as int));
        }
        return None;
    }
    assert(frac@.subrange(0, fk as int) =~= frac@);
    assert(point_at(s@, k as int));
    let w = digits_to_u64(whole);
    let f = digits_to_u64(frac);
    let scale = pow10_u64(MAX_FRACTION_DIGITS - frac.len());
    proof {
        lemma_pow10_monotonic(k as nat, 12);
        lemma_pow10_monotonic(frac@.len() as nat, 6);
        lemma_pow10_monotonic((6 - frac@.len()) as nat, 6);
        lemma_pow10_add(frac@.len() as nat, (6 - frac@.len()) as nat);
    }
    assert(f * scale < 1_000_000) by (nonlinear_arith)
        requires
            f < pow10(frac@.len() as nat),
            scale == pow10((6 - frac@.len()) as nat),
            pow10(frac@.len() as nat) * pow10((6 - frac@.len()) as nat) == 1_000_000,
    {
    }
    Some(w * MICROS_PER_SECOND + f * scale)
}

fn pow10_u64(n: usize) -> (r: u64)
    requires
        n <= 6,
    ensures
        r == pow10(n as nat),
{
    let mut r: u64 = 1;
    let mut i: usize = 0;
    while i < n
        invariant
            i <= n <= 6,
            r == pow10(i as nat),
            pow10(i as nat) <= 1_000_000,
        decreases n - i,
    {
        proof {
            lemma_pow10_monotonic((i + 1) as nat, 6);
            lemma_pow10_values();
        }
        r = r * 10;
        i = i + 1;
    }
    r
}

/// `pat` occurs in `s` starting at `i`.
pub open spec fn occurs_at(s: Seq<u8>, pat: Seq<u8>, i: int) -> bool {
    0 <= i && i + pat.len() <= s.len() && s.subrange(i, i + pat.len()) == pat
}

pub open spec fn first_occurrence(s: Seq<u8>, pat: Seq<u8>, i: int) -> bool {
    &&& occurs_at(s, pat, i)
    &&& forall|j: int| 0 <= j < i ==> !occurs_at(s, pat, j)
}

pub open spec fn contains(s: Seq<u8>, pat: Seq<u8>) -> bool {
    exists|i: int| occurs_at(s, pat, i)
}

/// Where `pat` first occurs in `s`.
pub open spec fn find_spec(s: Seq<u8>, pat: Seq<u8>) -> Option<int> {
    if exists|i: int| first_occurrence(s, pat, i) {
        Some(choose|i: int| first_occurrence(s, pat, i))
    } else {
        None
    }
}

pub proof fn lemma_first_occurrence_unique(s: Seq<u8>, pat: Seq<u8>, i: int)
    requires
        first_occurrence(s, pat, i),
    ensures
        find_spec(s, pat) == Some(i),
        contains(s, pat),
{
    let k = choose|k: int| first_occurrence(s, pat, k);
    if k < i {
        assert(!occurs_at(s, pat, k));
    }
    if i < k {
        assert(!occurs_at(s, pat, i));
    }
}

pub proof fn lemma_find_none(s: Seq<u8>, pat: Seq<u8>)
    requires
        forall|j: int| !occurs_at(s, pat, j),
    ensures
        find_spec(s, pat) is None,
        !contains(s, pat),
{
}

fn matches_at(s: &[u8], pat: &[u8], i: usize) -> (r: bool)
    requires
        i + pat@.len() <= s@.len(),
    ensures
        r == occurs_at(s@, pat@, i as int),
{
    let n = s.len();
    let mut k: usize = 0;
    while k < pat.len()
        invariant
            n == s@.len(),
            k <= pat@.len(),
            i + pat@.len() <= s@.len(),
            s@.subrange(i as int, i + k) =~= pat@.subrange(0, k as int),
        decreases pat@.len() - k,
    {
        if s[i + k] != pat[k] {
            assert(s@.subrange(i as int, i + pat@.len())[k as int] != pat@[k as int]);
            return false;
        }
        assert(s@.subrange(i as int, i + k + 1) =~= pat@.subrange(0, k + 1));
        k = k + 1;
    }
    assert(pat@.subrange(0, k as int) =~= pat@);
    true
}

/// Finds the first occurrence of `pat` in `s`.
pub fn find(s: &[u8], pat: &[u8]) -> (r: Option<usize>)
    ensures
        match r {
            Some(i) => find_spec(s@, pat@) == Some(i as int) && first_occurrence(s@, pat@, i as int)
                && contains(s@, pat@),
            None => find_spec(s@, pat@) is None && !contains(s@, pat@),
        },
{
    if pat.len() > s.len() {
        proof {
            lemma_find_none(s@, pat@);
        }
        return None;
    }
    let last = s.len() - pat.len();
    let mut i: usize = 0;
    loop
        invariant
            i <= last,
            last == s@.len() - pat@.len(),
            forall|j: int| 0 <= j < i ==> !occurs_at(s@, pat@, j),
        decreases last - i,
    {
        if matches_at(s, pat, i) {
            proof {
                lemma_first_occurrence_unique(s@, pat@, i as int);
            }
            return Some(i);
        }
        if i == last {
            proof {
                lemma_find_none(s@, pat@);
            }
            return None;
        }
        i = i + 1;
    }
}

pub open spec fn is_line_break(b: u8) -> bool {
    b == 10 || b == 13
}

/// The pieces of `s` between line breaks (a newline or a carriage return),
/// in order, empty ones included: one more than the number of breaks.
pub open spec fn lines(s: Seq<u8>) -> Seq<Seq<u8>>
    decreases s.len(),
{
    if s.len() == 0 {
        seq![Seq::empty()]
    } else {
        let p = lines(s.drop_last());
        if is_line_break(s.last()) {
            p.push(Seq::empty())
        } else {
            p.update(p.len() - 1, p.last().push(s.last()))
        }
    }
}

/// Splits `s` at every newline and carriage return.
pub fn split_lines(s: &[u8]) -> (r: Vec<Vec<u8>>)
    ensures
        r.deep_view() == lines(s@),
{
    let mut done: Vec<Vec<u8>> = Vec::new();
    let mut cur: Vec<u8> = Vec::new();
    let mut i: usize = 0;
    assert(s@.subrange(0, 0) =~= Seq::<u8>::empty());
    assert(done.deep_view() =~= Seq::<Seq<u8>>::empty());
    assert(cur.deep_view() =~= Seq::<u8>::empty());
    assert(done.deep_view().push(cur.deep_view()) =~= lines(s@.subrange(0, 0)));
    while i < s.len()
        invariant
            i <= s@.len(),
            done.deep_view().push(cur.deep_view()) == lines(s@.subrange(0, i as int)),
        decreases s@.len() - i,
    {
        let b = s[i];
        assert(s@.subrange(0, i + 1).drop_last() =~= s@.subrange(0, i as int));
        let ghost before = done.deep_view();
        let ghost line = cur.deep_view();
        assert(lines(s@.subrange(0, i as int)) == before.push(line));
        assert(s@.subrange(0, i + 1).last() == b);
        if b == 10 || b == 13 {
            done.push(cur);
            cur = Vec::new();
            assert(done.deep_view() =~= before.push(line));
            assert(cur.deep_view() =~= Seq::<u8>::empty());
            assert(done.deep_view().push(cur.deep_view()) =~= lines(s@.subrange(0, i + 1)));
        } else {
            cur.push(b);
            assert(cur.deep_view() =~= line.push(b));
            assert(before.push(line).update(before.len() as int, line.push(b)) =~= before.push(
                line.push(b),
            ));
            assert(done.deep_view().push(cur.deep_view()) =~= lines(s@.subrange(0, i + 1)));
        }
        i = i + 1;
    }
    assert(s@.subrange(0, i as int) =~= s@);
    let ghost before = done.deep_view();
    let ghost line = cur.deep_view();
    done.push(cur);
    assert(done.deep_view() =~= before.push(line));
    done
}

} // verus!
