//! Display of a repeating decimal: the digits up to the end of the first
//! period, with a combining overline (U+0305) on each digit of the period,
//! so `1/3` shows as `0.3̅` and `1/6` as `0.16̅`. Such text is for reading
//! only; it is not an expression.
use vstd::prelude::*;
use crate::rational::{
    Rat, abs, nat_dec, digit_char, rat_mul_spec, rat_sub_spec, rat_floor, rat_mul, rat_sub, rat_abs,
    rat_from_i64,
};
use crate::fraction::lemma_canon;
use crate::number::{Number, NumV};
use crate::display::decimal_string_spec;
use crate::text::{collect_chars, string_of};

verus! {

/// The next decimal digit of a fraction `x`: `⌊10·x⌋`.
pub open spec fn next_digit(x: (int, int)) -> int {
    let t = rat_mul_spec(x, (10, 1));
    t.0 / t.1
}

/// What is left of `x` after its next decimal digit: `10·x − ⌊10·x⌋`.
pub open spec fn next_frac(x: (int, int)) -> (int, int) {
    let t = rat_mul_spec(x, (10, 1));
    rat_sub_spec(t, (t.0 / t.1, 1))
}

/// The fraction left after `i` decimal digits of `x0`.
pub open spec fn frac_at(x0: (int, int), i: nat) -> (int, int)
    decreases i,
{
    if i == 0 {
        x0
    } else {
        next_frac(frac_at(x0, (i - 1) as nat))
    }
}

/// The least `i` from `from` up to below `j` at which the fraction is the
/// one after `j` digits.
pub open spec fn repeat_from(x0: (int, int), from: nat, j: nat) -> Option<nat>
    decreases j - from,
{
    if from >= j {
        None
    } else if frac_at(x0, from) == frac_at(x0, j) {
        Some(from)
    } else {
        repeat_from(x0, from + 1, j)
    }
}

/// The first period `(start, end)` of the digits of `x0` that ends within
/// `bound` digits; `None` when the expansion ends (a fraction of zero) or
/// no period ends within `bound` digits.
pub open spec fn cycle_from(x0: (int, int), j: nat, bound: nat) -> Option<(nat, nat)>
    decreases bound + 1 - j,
{
    if j > bound {
        None
    } else if frac_at(x0, j) == (0int, 1int) {
        None
    } else {
        match repeat_from(x0, 0, j) {
            Some(i) => Some((i, j)),
            None => cycle_from(x0, j + 1, bound),
        }
    }
}

/// The digits of `x0` from position `from` up to below `to`, each from
/// position `mark` on followed by a combining overline.
pub open spec fn marked_digits(x0: (int, int), from: nat, to: nat, mark: nat) -> Seq<char>
    decreases to - from,
{
    if from >= to {
        Seq::empty()
    } else {
        seq![digit_char(next_digit(frac_at(x0, from)))] + (if from >= mark {
            seq!['\u{0305}']
        } else {
            Seq::empty()
        }) + marked_digits(x0, from + 1, to, mark)
    }
}

/// The fractional part of `|r|`.
pub open spec fn frac_part(r: (int, int)) -> (int, int) {
    rat_sub_spec((abs(r.0) as int, r.1), (abs(r.0) as int / r.1, 1))
}

/// Display text of a number: a fraction whose decimal digits repeat with a
/// period that ends within `digits` digits is shown up to the end of that
/// period with the period overlined; anything else as its decimal string.
pub open spec fn display_spec(n: NumV, digits: usize) -> Seq<char> {
    match n {
        NumV::Rational(r) => if r.1 != 1 {
            match cycle_from(frac_part(r), 1, digits as nat) {
                Some((i, j)) => (if r.0 < 0 {
                    seq!['-']
                } else {
                    Seq::empty()
                }) + nat_dec((abs(r.0) as int / r.1) as nat) + seq!['.'] + marked_digits(
                    frac_part(r),
                    0,
                    j,
                    i,
                ),
                None => decimal_string_spec(n, digits),
            }
        } else {
            decimal_string_spec(n, digits)
        },
        NumV::Real(_) => decimal_string_spec(n, digits),
    }
}

/// A fraction in `[0, 1)`.
pub open spec fn unit_frac(x: (int, int)) -> bool {
    0 <= x.0 < x.1
}

/// The next digit of a fraction in `[0, 1)` is `0..=9`, and what is left is
/// again in `[0, 1)`.
proof fn lemma_next(x: (int, int))
    requires
        unit_frac(x),
    ensures
        0 <= next_digit(x) <= 9,
        unit_frac(next_frac(x)),
{
    let t = rat_mul_spec(x, (10, 1));
    lemma_canon(x.0 * 10, x.1 * 1);
    assert(t.0 * (x.1 * 1) == (x.0 * 10) * t.1);
    assert(0 <= t.0 < 10 * t.1) by (nonlinear_arith)
        requires
            t.0 * x.1 == (x.0 * 10) * t.1,
            0 <= x.0 < x.1,
            t.1 > 0,
    ;
    let f = t.0 / t.1;
    assert(0 <= f <= 9) by (nonlinear_arith)
        requires
            0 <= t.0 < 10 * t.1,
            t.1 > 0,
            f == t.0 / t.1,
    ;
    let rest = t.0 * 1 - f * t.1;
    assert(0 <= rest < t.1) by (nonlinear_arith)
        requires
            rest == t.0 * 1 - f * t.1,
            f == t.0 / t.1,
            t.1 > 0,
            t.0 >= 0,
    ;
    lemma_canon(rest, t.1 * 1);
    let nx = next_frac(x);
    assert(nx.0 * (t.1 * 1) == rest * nx.1);
    assert(0 <= nx.0 < nx.1) by (nonlinear_arith)
        requires
            nx.0 * t.1 == rest * nx.1,
            0 <= rest < t.1,
            nx.1 > 0,
    ;
}

/// The fractional part of a value is in `[0, 1)`.
proof fn lemma_frac_part(r: (int, int))
    requires
        r.1 > 0,
    ensures
        unit_frac(frac_part(r)),
{
    let a = abs(r.0) as int;
    let d = r.1;
    let ip = a / d;
    let rest = a * 1 - ip * d;
    assert(0 <= rest < d) by (nonlinear_arith)
        requires
            rest == a * 1 - ip * d,
            ip == a / d,
            d > 0,
            a >= 0,
    ;
    lemma_canon(rest, d * 1);
    let x = frac_part(r);
    assert(x.0 * (d * 1) == rest * x.1);
    assert(0 <= x.0 < x.1) by (nonlinear_arith)
        requires
            x.0 * d == rest * x.1,
            0 <= rest < d,
            x.1 > 0,
    ;
}

proof fn lemma_frac_at(x0: (int, int), i: nat)
    requires
        unit_frac(x0),
    ensures
        unit_frac(frac_at(x0, i)),
        0 <= next_digit(frac_at(x0, i)) <= 9,
    decreases i,
{
    if i > 0 {
        lemma_frac_at(x0, (i - 1) as nat);
        lemma_next(frac_at(x0, (i - 1) as nat));
    }
    lemma_next(frac_at(x0, i));
}

/// The next digit of `x` and what is left of it.
fn step(x: &Rat) -> (r: (char, Rat))
    requires
        unit_frac(x@),
    ensures
        r.0 == digit_char(next_digit(x@)),
        r.1@ == next_frac(x@),
{
    proof {
        lemma_next(x@);
    }
    let t = rat_mul(x, &rat_from_i64(10));
    let f = rat_floor(&t);
    let d: u8 = match f.try_i64() {
        Some(v) => v as u8,
        None => 0,
    };
    assert(d == next_digit(x@));
    let c = (d + 48) as char;
    (c, rat_sub(&t, &f))
}

/// The first period of the digits of `x0` within `digits` digits.
fn find_cycle(x0: &Rat, digits: usize) -> (res: Option<(usize, usize)>)
    requires
        unit_frac(x0@),
    ensures
        match cycle_from(x0@, 1, digits as nat) {
            Some((i, j)) => res matches Some((a, b)) && a == i && b == j,
            None => res is None,
        },
{
    let mut seen: Vec<Rat> = Vec::new();
    seen.push(x0.duplicate());
    let mut cur = x0.duplicate();
    let mut j: usize = 0;
    while j < digits
        invariant
            j <= digits,
            unit_frac(x0@),
            seen.len() == j + 1,
            forall|i: int| 0 <= i <= j ==> (#[trigger] seen@[i])@ == frac_at(x0@, i as nat),
            cur@ == frac_at(x0@, j as nat),
            cycle_from(x0@, 1, digits as nat) == cycle_from(x0@, (j + 1) as nat, digits as nat),
        decreases digits - j,
    {
        proof {
            lemma_frac_at(x0@, j as nat);
        }
        let (_, nx) = step(&cur);
        let jj = j + 1;
        assert(nx@ == frac_at(x0@, jj as nat));
        nx.check_wf();
        if nx.is_zero() {
            assert(crate::rational::gcd(0, abs(nx@.1)) == crate::rational::gcd(abs(nx@.1), 0));
            assert(nx@ == (0int, 1int));
            return None;
        }
        let mut i: usize = 0;
        while i < jj
            invariant
                i <= jj,
                jj == j + 1,
                seen.len() == j + 1,
                forall|k: int| 0 <= k <= j ==> (#[trigger] seen@[k])@ == frac_at(x0@, k as nat),
                nx@ == frac_at(x0@, jj as nat),
                jj <= digits,
                frac_at(x0@, jj as nat) != (0int, 1int),
                cycle_from(x0@, 1, digits as nat) == cycle_from(x0@, jj as nat, digits as nat),
                repeat_from(x0@, 0, jj as nat) == repeat_from(x0@, i as nat, jj as nat),
            decreases jj - i,
        {
            if seen[i].same_value_as(&nx) {
                assert(repeat_from(x0@, i as nat, jj as nat) == Some(i as nat));
                assert(cycle_from(x0@, jj as nat, digits as nat) == Some((i as nat, jj as nat)));
                return Some((i, jj));
            }
            i = i + 1;
        }
        assert(repeat_from(x0@, 0, jj as nat) is None);
        assert(cycle_from(x0@, jj as nat, digits as nat) == cycle_from(
            x0@,
            (jj + 1) as nat,
            digits as nat,
        ));
        seen.push(nx.duplicate());
        cur = nx;
        j = jj;
    }
    None
}

/// The digits of `x0` up to below `to`, overlined from `mark` on.
fn marked_text(x0: &Rat, to: usize, mark: usize) -> (out: Vec<char>)
    requires
        unit_frac(x0@),
    ensures
        out@ == marked_digits(x0@, 0, to as nat, mark as nat),
{
    let mut out: Vec<char> = Vec::new();
    let mut cur = x0.duplicate();
    let mut k: usize = 0;
    while k < to
        invariant
            k <= to,
            unit_frac(x0@),
            cur@ == frac_at(x0@, k as nat),
            out@ + marked_digits(x0@, k as nat, to as nat, mark as nat) == marked_digits(
                x0@,
                0,
                to as nat,
                mark as nat,
            ),
        decreases to - k,
    {
        proof {
            lemma_frac_at(x0@, k as nat);
        }
        let (c, nx) = step(&cur);
        let ghost before = out@;
        out.push(c);
        if k >= mark {
            out.push('\u{0305}');
        }
        proof {
            let tail = marked_digits(x0@, (k + 1) as nat, to as nat, mark as nat);
            assert(before + marked_digits(x0@, k as nat, to as nat, mark as nat) =~= out@ + tail);
        }
        cur = nx;
        k = k + 1;
    }
    assert(marked_digits(x0@, k as nat, to as nat, mark as nat) == Seq::<char>::empty());
    assert(out@ + Seq::<char>::empty() =~= out@);
    out
}

impl Number {
    /// Text for reading: as [`Number::to_decimal_string`], except that a
    /// fraction whose decimal digits repeat with a period ending within
    /// `digits` digits is shown up to the end of that period, with a
    /// combining overline (U+0305) on each digit of the period: `1/3` is
    /// `0.3̅`, `1/6` is `0.16̅`, `-1/7` is `-0.1̅4̅2̅8̅5̅7̅`. It is not meant to be
    /// typed in again; [`Number::to_refeed_string`] is.
    pub fn to_display_string(&self, digits: usize) -> (s: String)
        ensures
            s@ == display_spec(self@, digits),
    {
        if let Number::Rational(r) = self {
            if !r.is_integer() {
                r.check_wf();
                let mag = rat_abs(r);
                let ip = rat_floor(&mag);
                let x0 = rat_sub(&mag, &ip);
                proof {
                    lemma_frac_part(r@);
                }
                assert(x0@ == frac_part(r@));
                if let Some((i, j)) = find_cycle(&x0, digits) {
                    let t = ip.to_text();
                    let mut out: Vec<char> = Vec::new();
                    if r.is_negative() {
                        out.push('-');
                    }
                    let ghost sign = out@;
                    let digits_of_ip = collect_chars(t.as_str());
                    proof {
                        assert(ip@.0 >= 0) by (nonlinear_arith)
                            requires
                                ip@.0 == abs(r@.0) as int / r@.1,
                                r@.1 > 0,
                        ;
                        assert(crate::rational::rat_display(ip@) == nat_dec(ip@.0 as nat));
                    }
                    let mut body = digits_of_ip;
                    body.push('.');
                    let tail = marked_text(&x0, j, i);
                    let mut all = out;
                    let ghost head = all@;
                    let ghost b = body@;
                    all.append(&mut body);
                    let ghost mid = all@;
                    let mut tl = tail;
                    let ghost tv = tl@;
                    all.append(&mut tl);
                    proof {
                        assert(all@ =~= head + b + tv);
                        assert(ip@ == (abs(r@.0) as int / r@.1, 1int));
                        assert(b == nat_dec((abs(r@.0) as int / r@.1) as nat) + seq!['.']);
                        assert(tv == marked_digits(frac_part(r@), 0, j as nat, i as nat));
                        assert(head == (if r@.0 < 0 {
                            seq!['-']
                        } else {
                            Seq::<char>::empty()
                        }));
                        assert(cycle_from(frac_part(r@), 1, digits as nat) == Some((i as nat, j as nat)));
                    }
                    return string_of(&all);
                }
            }
        }
        self.to_decimal_string(digits)
    }
}

} // verus!
