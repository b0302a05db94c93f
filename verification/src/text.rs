//! Character-level string helpers.
use vstd::prelude::*;
use crate::rational::{all_digits, digits_val};

verus! {

broadcast use vstd::string::group_string_axioms;

/// The characters `cs[i..j]` as a `String`.
pub fn chars_to_string(cs: &Vec<char>, i: usize, j: usize) -> (s: String)
    requires
        i <= j <= cs.len(),
    ensures
        s@ == cs@.subrange(i as int, j as int),
{
    let mut s = String::new();
    let mut k = i;
    while k < j
        invariant
            i <= k <= j <= cs.len(),
            s@ == cs@.subrange(i as int, k as int),
        decreases j - k,
    {
        push_char(&mut s, cs[k]);
        assert(cs@.subrange(i as int, k + 1) =~= cs@.subrange(i as int, k as int).push(cs@[k as int]));
        k = k + 1;
    }
    s
}

/// `String::push`: appends one character.
#[verifier::external_body]
pub(crate) fn push_char(s: &mut String, c: char)
    ensures
        final(s)@ == old(s)@.push(c),
{
    s.push(c)
}

/// The characters of a string, in order.
pub fn collect_chars(src: &str) -> (cs: Vec<char>)
    ensures
        cs@ == src@,
{
    let mut cs: Vec<char> = Vec::new();
    for c in it: src.chars()
        invariant
            cs@ == it.seq().take(it.index()),
            it.seq() == src@,
    {
        cs.push(c);
    }
    cs
}


/// Index of the first `c` in `s` at or after `i`.
pub open spec fn index_from(s: Seq<char>, c: char, i: int) -> Option<int>
    decreases s.len() - i,
{
    if i < 0 || i >= s.len() {
        None
    } else if s[i] == c {
        Some(i)
    } else {
        index_from(s, c, i + 1)
    }
}

/// The position of the first `c` in `cs`.
pub fn find_char(cs: &Vec<char>, c: char) -> (r: Option<usize>)
    ensures
        match r {
            Some(i) => i < cs.len() && cs@[i as int] == c && forall|k: int| 0 <= k < i ==> cs@[k] != c,
            None => !cs@.contains(c),
        },
        match r {
            Some(i) => index_from(cs@, c, 0) == Some(i as int),
            None => index_from(cs@, c, 0) is None,
        },
{
    let mut i: usize = 0;
    while i < cs.len()
        invariant
            i <= cs.len(),
            forall|k: int| 0 <= k < i ==> cs@[k] != c,
            index_from(cs@, c, 0) == index_from(cs@, c, i as int),
        decreases cs.len() - i,
    {
        if cs[i] == c {
            return Some(i);
        }
        i = i + 1;
    }
    None
}

/// All of `cs` as a `String`.
pub fn string_of(cs: &Vec<char>) -> (s: String)
    ensures
        s@ == cs@,
{
    let s = chars_to_string(cs, 0, cs.len());
    assert(cs@.subrange(0, cs@.len() as int) =~= cs@);
    s
}

/// `cs[i..j]` as a new vector.
pub fn sub_chars(cs: &Vec<char>, i: usize, j: usize) -> (r: Vec<char>)
    requires
        i <= j <= cs.len(),
    ensures
        r@ == cs@.subrange(i as int, j as int),
{
    let mut r: Vec<char> = Vec::new();
    let mut k = i;
    while k < j
        invariant
            i <= k <= j <= cs.len(),
            r@ == cs@.subrange(i as int, k as int),
        decreases j - k,
    {
        r.push(cs[k]);
        assert(cs@.subrange(i as int, k + 1) =~= cs@.subrange(i as int, k as int).push(cs@[k as int]));
        k = k + 1;
    }
    r
}

/// Appends `cs[i..j]` to `out`.
pub fn push_range(out: &mut Vec<char>, cs: &Vec<char>, i: usize, j: usize)
    requires
        i <= j <= cs.len(),
    ensures
        final(out)@ == old(out)@ + cs@.subrange(i as int, j as int),
{
    let mut k = i;
    while k < j
        invariant
            i <= k <= j <= cs.len(),
            out@ == old(out)@ + cs@.subrange(i as int, k as int),
        decreases j - k,
    {
        out.push(cs[k]);
        assert(old(out)@ + cs@.subrange(i as int, k + 1) =~= old(out)@ + cs@.subrange(i as int, k as int) + seq![cs@[k as int]]);
        k = k + 1;
    }
}

/// `u64::from_str`: digits with an optional leading `+`, in range.
pub open spec fn u64_parse_spec(s: Seq<char>) -> Option<u64> {
    let d = if s.len() > 0 && s[0] == '+' {
        s.drop_first()
    } else {
        s
    };
    if all_digits(d) && digits_val(d) <= u64::MAX {
        Some(digits_val(d) as u64)
    } else {
        None
    }
}

/// `i64::from_str`: digits with an optional leading `+` or `-`, in range.
pub open spec fn i64_parse_spec(s: Seq<char>) -> Option<i64> {
    if s.len() > 0 && s[0] == '-' {
        let d = s.drop_first();
        if all_digits(d) && digits_val(d) <= 0x8000_0000_0000_0000 {
            Some((-digits_val(d)) as i64)
        } else {
            None
        }
    } else {
        let d = if s.len() > 0 && s[0] == '+' {
            s.drop_first()
        } else {
            s
        };
        if all_digits(d) && digits_val(d) <= i64::MAX {
            Some(digits_val(d) as i64)
        } else {
            None
        }
    }
}

/// A digit string's value is at least that of any of its prefixes.
proof fn lemma_digits_val_prefix(s: Seq<char>, j: int)
    requires
        0 <= j <= s.len(),
        forall|k: int| 0 <= k < s.len() ==> '0' <= #[trigger] s[k] <= '9',
    ensures
        digits_val(s.take(j)) <= digits_val(s),
    decreases s.len(),
{
    if j < s.len() {
        let t = s.drop_last();
        assert(t.take(j) =~= s.take(j));
        lemma_digits_val_prefix(t, j);
    } else {
        assert(s.take(j) =~= s);
    }
}

/// The value of the digits `cs[start..]` when they are all digits (at least
/// one) and the value is at most `limit`.
fn digits_value_upto(cs: &Vec<char>, start: usize, limit: u64) -> (r: Option<u64>)
    requires
        start <= cs.len(),
    ensures
        r == (if all_digits(cs@.skip(start as int)) && digits_val(cs@.skip(start as int)) <= limit {
            Some(digits_val(cs@.skip(start as int)) as u64)
        } else {
            None::<u64>
        }),
{
    let ghost d = cs@.skip(start as int);
    if start == cs.len() {
        return None;
    }
    let mut acc: u128 = 0;
    let mut k: usize = start;
    while k < cs.len()
        invariant
            start <= k <= cs.len(),
            d == cs@.skip(start as int),
            acc == digits_val(d.take(k - start)),
            acc <= limit,
            forall|q: int| 0 <= q < k - start ==> '0' <= #[trigger] d[q] <= '9',
        decreases cs.len() - k,
    {
        let c = cs[k];
        if !('0' <= c && c <= '9') {
            assert(d[k - start] == c);
            return None;
        }
        let digit = (c as u32 - 48) as u128;
        assert(d.take(k - start + 1).drop_last() =~= d.take(k - start));
        assert(d.take(k - start + 1).last() == c);
        let next = acc * 10 + digit;
        assert(next == digits_val(d.take(k - start + 1)));
        if next > limit as u128 {
            proof {
                if all_digits(d) {
                    lemma_digits_val_prefix(d, k - start + 1);
                }
            }
            return None;
        }
        acc = next;
        k = k + 1;
    }
    assert(d.take(k - start) =~= d);
    Some(acc as u64)
}

/// `str::parse::<u64>`: an optional `+` and decimal digits whose value
/// fits.
pub(crate) fn parse_u64(s: &str) -> (r: Option<u64>)
    ensures
        r == u64_parse_spec(s@),
{
    let cs = collect_chars(s);
    let start: usize = if cs.len() > 0 && cs[0] == '+' {
        1
    } else {
        0
    };
    proof {
        if start == 1 {
            assert(cs@.skip(1) =~= cs@.drop_first());
        } else {
            assert(cs@.skip(0) =~= cs@);
        }
    }
    digits_value_upto(&cs, start, u64::MAX)
}

/// `str::parse::<i64>`: an optional `+` or `-` and decimal digits whose
/// value fits.
pub(crate) fn parse_i64(s: &str) -> (r: Option<i64>)
    ensures
        r == i64_parse_spec(s@),
{
    let cs = collect_chars(s);
    if cs.len() > 0 && cs[0] == '-' {
        assert(cs@.skip(1) =~= cs@.drop_first());
        match digits_value_upto(&cs, 1, 0x8000_0000_0000_0000) {
            Some(v) => Some((-(v as i128)) as i64),
            None => None,
        }
    } else {
        let start: usize = if cs.len() > 0 && cs[0] == '+' {
            1
        } else {
            0
        };
        proof {
            if start == 1 {
                assert(cs@.skip(1) =~= cs@.drop_first());
            } else {
                assert(cs@.skip(0) =~= cs@);
            }
        }
        match digits_value_upto(&cs, start, 0x7fff_ffff_ffff_ffff) {
            Some(v) => Some(v as i64),
            None => None,
        }
    }
}

/// The two texts are equal.
pub fn same_text(a: &str, b: &str) -> (r: bool)
    ensures
        r == (a@ == b@),
{
    let x = collect_chars(a);
    let y = collect_chars(b);
    if x.len() != y.len() {
        return false;
    }
    let mut i: usize = 0;
    while i < x.len()
        invariant
            x@ == a@,
            y@ == b@,
            x.len() == y.len(),
            i <= x.len(),
            forall|k: int| 0 <= k < i ==> x@[k] == y@[k],
        decreases x.len() - i,
    {
        if x[i] != y[i] {
            return false;
        }
        i = i + 1;
    }
    assert(x@ =~= y@);
    true
}

} // verus!
