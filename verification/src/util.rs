//! Parsing of delimited numeric pairs, as handed over on a command line.

use vstd::prelude::*;

verus! {

use vstd::string::StrSliceExecFns;

/// A decimal digit character.
pub open spec fn is_digit_char(c: char) -> bool {
    '0' <= c && c <= '9'
}

/// The numeric value of a digit character.
pub open spec fn digit_val(c: char) -> int {
    c as int - '0' as int
}

/// Every character of the string is a decimal digit.
pub open spec fn all_digits(s: Seq<char>) -> bool {
    forall|i: int| 0 <= i < s.len() ==> is_digit_char(#[trigger] s[i])
}

/// The number a digit string denotes, most significant digit first.
pub open spec fn digits_value(s: Seq<char>) -> int
    decreases s.len(),
{
    if s.len() == 0 {
        0
    } else {
        digits_value(s.drop_last()) * 10 + digit_val(s.last())
    }
}

/// A string that denotes a `u32`: nonempty, digits only, value in range.
pub open spec fn valid_u32_str(s: Seq<char>) -> bool {
    &&& s.len() >= 1
    &&& all_digits(s)
    &&& digits_value(s) <= u32::MAX
}

/// Index of the first occurrence of `d` in `s`, or `s.len()` if there is
/// none.
pub open spec fn first_delim(s: Seq<char>, d: char) -> int
    decreases s.len(),
{
    if s.len() == 0 {
        0
    } else if s[0] == d {
        0
    } else {
        1 + first_delim(s.skip(1), d)
    }
}

/// Ten to the `n`th.
pub open spec fn pow10(n: nat) -> int
    decreases n,
{
    if n == 0 {
        1
    } else {
        10 * pow10((n - 1) as nat)
    }
}

proof fn lemma_pow10_pos(n: nat)
    ensures
        pow10(n) >= 1,
    decreases n,
{
    if n > 0 {
        lemma_pow10_pos((n - 1) as nat);
    }
}

proof fn lemma_digits_value_nonneg(s: Seq<char>)
    requires
        all_digits(s),
    ensures
        digits_value(s) >= 0,
    decreases s.len(),
{
    if s.len() > 0 {
        assert forall|i: int| 0 <= i < s.drop_last().len() implies is_digit_char(
            #[trigger] s.drop_last()[i],
        ) by {
            assert(s.drop_last()[i] == s[i]);
        }
        lemma_digits_value_nonneg(s.drop_last());
        assert(is_digit_char(s.last()));
    }
}

/// Concatenating digit strings concatenates their numbers: the left part is
/// shifted up by one power of ten per right-hand digit.
proof fn lemma_digits_concat(p: Seq<char>, q: Seq<char>)
    ensures
        digits_value(p + q) == digits_value(p) * pow10(q.len()) + digits_value(q),
    decreases q.len(),
{
    if q.len() == 0 {
        assert(p + q =~= p);
    } else {
        let q0 = q.drop_last();
        assert((p + q).drop_last() =~= p + q0);
        assert((p + q).last() == q.last());
        lemma_digits_concat(p, q0);
        assert((digits_value(p) * pow10(q0.len()) + digits_value(q0)) * 10 + digit_val(q.last())
            == digits_value(p) * (pow10(q0.len()) * 10) + (digits_value(q0) * 10 + digit_val(
            q.last(),
        ))) by (nonlinear_arith);
        assert(pow10(q.len()) == pow10(q0.len()) * 10) by (nonlinear_arith)
            requires
                pow10(q.len()) == 10 * pow10((q.len() - 1) as nat),
                q0.len() == q.len() - 1,
        ;
    }
}

/// The index a left-to-right scan stops at is the first occurrence.
proof fn lemma_first_delim_at(s: Seq<char>, d: char, i: int)
    requires
        0 <= i <= s.len(),
        forall|j: int| 0 <= j < i ==> s[j] != d,
        i < s.len() ==> s[i] == d,
    ensures
        first_delim(s, d) == i,
    decreases s.len(),
{
    if s.len() == 0 {
    } else if s[0] == d {
        assert(i == 0);
    } else {
        assert(i >= 1);
        let t = s.skip(1);
        assert forall|j: int| 0 <= j < i - 1 implies t[j] != d by {
            assert(t[j] == s[j + 1]);
        }
        if i - 1 < t.len() {
            assert(t[i - 1] == s[i]);
        }
        lemma_first_delim_at(t, d, i - 1);
    }
}

/// Parse the characters of `s` between `start` and `end` as a `u32`:
/// the number they denote when they are one or more digits denoting a
/// value in range, and nothing otherwise.
fn parse_u32_range(s: &str, start: usize, end: usize) -> (r: Option<u32>)
    requires
        start <= end <= s@.len(),
    ensures
        r is Some <==> valid_u32_str(s@.subrange(start as int, end as int)),
        r matches Some(v) ==> v == digits_value(s@.subrange(start as int, end as int)),
{
    if start == end {
        return None;
    }
    let mut acc: u32 = 0;
    let mut i: usize = start;
    while i < end
        invariant
            start < end <= s@.len(),
            start <= i <= end,
            forall|j: int| start <= j < i ==> is_digit_char(#[trigger] s@[j]),
            acc == digits_value(s@.subrange(start as int, i as int)),
        decreases end - i,
    {
        let ch: char = s.get_char(i);
        let cv: u32 = ch as u32;
        if cv < 48 || cv > 57 {
            proof {
                assert(!is_digit_char(s@[i as int]));
                assert(s@.subrange(start as int, end as int)[i - start as int] == s@[i as int]);
            }
            return None;
        }
        let d: u32 = cv - 48;
        let next: u64 = (acc as u64) * 10 + (d as u64);
        proof {
            let seg_next = s@.subrange(start as int, i as int + 1);
            assert(seg_next.drop_last() =~= s@.subrange(start as int, i as int));
            assert(seg_next.last() == s@[i as int]);
            assert(digit_val(s@[i as int]) == d);
        }
        if next > 0xFFFF_FFFF {
            proof {
                let seg = s@.subrange(start as int, end as int);
                let p = s@.subrange(start as int, i as int + 1);
                let q = s@.subrange(i as int + 1, end as int);
                assert(seg =~= p + q);
                if all_digits(seg) {
                    assert forall|j: int| 0 <= j < q.len() implies is_digit_char(
                        #[trigger] q[j],
                    ) by {
                        assert(q[j] == seg[j + (i + 1 - start)]);
                    }
                    lemma_digits_concat(p, q);
                    lemma_pow10_pos(q.len());
                    lemma_digits_value_nonneg(q);
                    assert(digits_value(p) * pow10(q.len()) >= digits_value(p)) by (
                    nonlinear_arith)
                        requires
                            digits_value(p) >= 0,
                            pow10(q.len()) >= 1,
                    ;
                }
            }
            return None;
        }
        acc = next as u32;
        i = i + 1;
    }
    proof {
        assert(s@.subrange(start as int, end as int) =~= s@.subrange(start as int, i as int));
    }
    Some(acc)
}

/// Split `dimensions` at the first two occurrences of `delimiter` and parse
/// the first two pieces as a pair of `u32` values. The pair comes back
/// exactly when the delimiter occurs and both pieces are digit strings in
/// range; any other input yields nothing.
pub fn parse_list(dimensions: String, delimiter: char) -> (r: Option<(u32, u32)>)
    ensures
        ({
            let s = dimensions@;
            let f1 = first_delim(s, delimiter);
            if f1 == s.len() {
                r is None
            } else {
                let seg1 = s.subrange(0, f1);
                let rest = s.skip(f1 + 1);
                let seg2 = rest.subrange(0, first_delim(rest, delimiter));
                &&& (r is Some <==> valid_u32_str(seg1) && valid_u32_str(seg2))
                &&& (r matches Some(p) ==> p.0 == digits_value(seg1) && p.1 == digits_value(
                    seg2,
                ))
            }
        }),
{
    let s: &str = dimensions.as_str();
    let n: usize = s.unicode_len();
    let mut f1: usize = 0;
    while f1 < n && s.get_char(f1) != delimiter
        invariant
            n == s@.len(),
            0 <= f1 <= n,
            forall|j: int| 0 <= j < f1 ==> s@[j] != delimiter,
        decreases n - f1,
    {
        f1 = f1 + 1;
    }
    proof {
        lemma_first_delim_at(s@, delimiter, f1 as int);
    }
    if f1 == n {
        return None;
    }
    let mut f2: usize = f1 + 1;
    while f2 < n && s.get_char(f2) != delimiter
        invariant
            n == s@.len(),
            f1 < n,
            f1 + 1 <= f2 <= n,
            forall|j: int| f1 + 1 <= j < f2 ==> s@[j] != delimiter,
        decreases n - f2,
    {
        f2 = f2 + 1;
    }
    proof {
        let rest = s@.skip(f1 as int + 1);
        assert forall|j: int| 0 <= j < f2 - f1 - 1 implies rest[j] != delimiter by {
            assert(rest[j] == s@[j + (f1 + 1)]);
        }
        if f2 < n {
            assert(rest[f2 - f1 - 1] == s@[f2 as int]);
        }
        lemma_first_delim_at(rest, delimiter, f2 - f1 - 1);
        assert(rest.subrange(0, f2 - f1 - 1) =~= s@.subrange(f1 as int + 1, f2 as int));
    }
    let first = parse_u32_range(s, 0, f1);
    let second = parse_u32_range(s, f1 + 1, f2);
    match (first, second) {
        (Some(a), Some(b)) => Some((a, b)),
        _ => None,
    }
}

} // verus!
