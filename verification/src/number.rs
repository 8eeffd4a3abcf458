use vstd::prelude::*;

verus! {

pub open spec fn is_ascii_digit(c: char) -> bool {
    '0' <= c <= '9'
}

pub open spec fn all_ascii_digits(s: Seq<char>) -> bool {
    forall|i: int| 0 <= i < s.len() ==> #[trigger] is_ascii_digit(s[i])
}

/// The value of a string of decimal digits.
pub open spec fn digits_value(s: Seq<char>) -> int
    decreases s.len(),
{
    if s.len() == 0 {
        0
    } else {
        digits_value(s.drop_last()) * 10 + ((s.last() as u32) - ('0' as u32))
    }
}

/// `s` without a leading sign, and whether the sign was a minus.
pub open spec fn split_sign(s: Seq<char>) -> (bool, Seq<char>) {
    if s.len() > 0 && s[0] == '-' {
        (true, s.skip(1))
    } else if s.len() > 0 && s[0] == '+' {
        (false, s.skip(1))
    } else {
        (false, s)
    }
}

/// What `str::parse::<i32>` gives for `s`: an optional sign followed by at least
/// one ASCII digit, with a value in the range of `i32`.
pub open spec fn spec_parse_i32(s: Seq<char>) -> Option<i32> {
    let (negative, body) = split_sign(s);
    if body.len() == 0 || !all_ascii_digits(body) {
        None
    } else {
        let v = if negative {
            -digits_value(body)
        } else {
            digits_value(body)
        };
        if i32::MIN <= v <= i32::MAX {
            Some(v as i32)
        } else {
            None
        }
    }
}

/// The decimal texts without exponent that `str::parse::<f32>` accepts: an
/// optional sign, then digits with exactly one `.`, and at least one digit.
pub open spec fn is_decimal_float_text(s: Seq<char>) -> bool {
    let body = split_sign(s).1;
    &&& body.len() >= 2
    &&& exists|d: int|
        0 <= d < body.len() && #[trigger] body[d] == '.' && all_ascii_digits(body.take(d))
            && all_ascii_digits(body.skip(d + 1))
}

proof fn lemma_digits_step(body: Seq<char>, k: int)
    requires
        0 <= k < body.len(),
    ensures
        digits_value(body.take(k + 1)) == digits_value(body.take(k)) * 10 + ((body[k] as u32) - (
        '0' as u32)),
{
    assert(body.take(k + 1).drop_last() =~= body.take(k));
    assert(body.take(k + 1).last() == body[k]);
}

proof fn lemma_two_dots(body: Seq<char>, a: int, b: int)
    requires
        0 <= a < b < body.len(),
        body[a] == '.',
        body[b] == '.',
    ensures
        !(exists|d: int|
            0 <= d < body.len() && #[trigger] body[d] == '.' && all_ascii_digits(body.take(d))
                && all_ascii_digits(body.skip(d + 1))),
{
    if exists|d: int|
        0 <= d < body.len() && #[trigger] body[d] == '.' && all_ascii_digits(body.take(d))
            && all_ascii_digits(body.skip(d + 1)) {
        let e = choose|d: int|
            0 <= d < body.len() && #[trigger] body[d] == '.' && all_ascii_digits(body.take(d))
                && all_ascii_digits(body.skip(d + 1));
        if e < a {
            assert(body.skip(e + 1)[a - e - 1] == '.');
            assert(!is_ascii_digit(body.skip(e + 1)[a - e - 1]));
        } else if e > a {
            assert(body.take(e)[a] == '.');
            assert(!is_ascii_digit(body.take(e)[a]));
        } else {
            assert(body.skip(e + 1)[b - e - 1] == '.');
            assert(!is_ascii_digit(body.skip(e + 1)[b - e - 1]));
        }
    }
}

proof fn lemma_stray_char(body: Seq<char>, a: int)
    requires
        0 <= a < body.len(),
        body[a] != '.',
        !is_ascii_digit(body[a]),
    ensures
        !(exists|d: int|
            0 <= d < body.len() && #[trigger] body[d] == '.' && all_ascii_digits(body.take(d))
                && all_ascii_digits(body.skip(d + 1))),
{
    if exists|d: int|
        0 <= d < body.len() && #[trigger] body[d] == '.' && all_ascii_digits(body.take(d))
            && all_ascii_digits(body.skip(d + 1)) {
        let e = choose|d: int|
            0 <= d < body.len() && #[trigger] body[d] == '.' && all_ascii_digits(body.take(d))
                && all_ascii_digits(body.skip(d + 1));
        if a < e {
            assert(body.take(e)[a] == body[a]);
            assert(!is_ascii_digit(body.take(e)[a]));
        } else {
            assert(body.skip(e + 1)[a - e - 1] == body[a]);
            assert(!is_ascii_digit(body.skip(e + 1)[a - e - 1]));
        }
    }
}

proof fn lemma_digits_value_monotone(s: Seq<char>, i: int)
    requires
        0 <= i <= s.len(),
        all_ascii_digits(s),
    ensures
        0 <= digits_value(s.take(i)) <= digits_value(s),
    decreases s.len() - i,
{
    if i < s.len() {
        lemma_digits_value_monotone(s, i + 1);
        assert(s.take(i + 1).drop_last() =~= s.take(i));
        assert(is_ascii_digit(s[i]));
    } else {
        assert(s.take(i) =~= s);
    }
    lemma_digits_value_nonneg(s);
}

proof fn lemma_digits_value_nonneg(s: Seq<char>)
    requires
        all_ascii_digits(s),
    ensures
        digits_value(s) >= 0,
    decreases s.len(),
{
    if s.len() > 0 {
        assert(is_ascii_digit(s.last()));
        lemma_digits_value_nonneg(s.drop_last());
    }
}

/// Parses a decimal `i32` as `str::parse::<i32>` does.
pub fn parse_i32(s: &Vec<char>) -> (res: Option<i32>)
    ensures
        res == spec_parse_i32(s@),
{
    let mut start: usize = 0;
    let mut negative = false;
    if s.len() > 0 && s[0] == '-' {
        negative = true;
        start = 1;
    } else if s.len() > 0 && s[0] == '+' {
        start = 1;
    }
    let ghost body = split_sign(s@).1;
    assert(body =~= s@.skip(start as int));
    if start >= s.len() {
        return None;
    }
    let mut value: i64 = 0;
    let mut i: usize = start;
    while i < s.len()
        invariant
            start <= i <= s.len(),
            body == split_sign(s@).1,
            body =~= s@.skip(start as int),
            all_ascii_digits(body.take(i - start)),
            value == digits_value(body.take(i - start)),
            0 <= value <= 2147483648,
        decreases s.len() - i,
    {
        let c = s[i];
        if !('0' <= c && c <= '9') {
            assert(body[i - start] == c);
            assert(!is_ascii_digit(body[i - start]));
            assert(!all_ascii_digits(body));
            assert(spec_parse_i32(s@) is None);
            return None;
        }
        let d = (c as u32 - '0' as u32) as i64;
        proof {
            lemma_digits_step(body, i - start);
        }
        assert(all_ascii_digits(body.take(i + 1 - start))) by {
            assert forall|j: int| 0 <= j < i + 1 - start implies #[trigger] is_ascii_digit(
                body.take(i + 1 - start)[j],
            ) by {
                if j < i - start {
                    assert(body.take(i + 1 - start)[j] == body.take(i - start)[j]);
                }
            }
        }
        value = value * 10 + d;
        i = i + 1;
        if value > 2147483648 {
            proof {
                if all_ascii_digits(body) {
                    lemma_digits_value_monotone(body, i - start);
                }
            }
            assert(spec_parse_i32(s@) is None);
            return None;
        }
    }
    assert(body.take(i - start) =~= body);
    if negative {
        Some((0 - value) as i32)
    } else if value <= 2147483647 {
        Some(value as i32)
    } else {
        None
    }
}

/// Whether `s` is a decimal floating point text; see [`is_decimal_float_text`].
pub fn check_decimal_float(s: &Vec<char>) -> (res: bool)
    ensures
        res == is_decimal_float_text(s@),
{
    let mut start: usize = 0;
    if s.len() > 0 && (s[0] == '-' || s[0] == '+') {
        start = 1;
    }
    let ghost body = split_sign(s@).1;
    assert(body =~= s@.skip(start as int));
    if s.len() < start + 2 {
        return false;
    }
    let mut dot: Option<usize> = None;
    let mut i: usize = start;
    while i < s.len()
        invariant
            start <= i <= s.len(),
            body == split_sign(s@).1,
            body =~= s@.skip(start as int),
            match dot {
                None => all_ascii_digits(body.take(i - start)),
                Some(d) => start <= d < i && body[d - start] == '.' && all_ascii_digits(
                    body.take(d - start),
                ) && all_ascii_digits(body.subrange(d - start + 1, i - start)),
            },
        decreases s.len() - i,
    {
        let c = s[i];
        assert(body[i - start] == c);
        if c == '.' {
            match dot {
                Some(d) => {
                    assert(start <= d < i && body[d - start] == '.');
                    proof {
                        lemma_two_dots(body, d - start, i - start);
                    }
                    return false;
                },
                None => {
                    dot = Some(i);
                    assert(body.subrange(i - start + 1, i + 1 - start) =~= Seq::<char>::empty());
                },
            }
        } else if !('0' <= c && c <= '9') {
            proof {
                lemma_stray_char(body, i - start);
            }
            return false;
        } else {
            match dot {
                None => {
                    assert forall|j: int| 0 <= j < i + 1 - start implies #[trigger] is_ascii_digit(
                        body.take(i + 1 - start)[j],
                    ) by {
                        if j < i - start {
                            assert(body.take(i + 1 - start)[j] == body.take(i - start)[j]);
                        }
                    }
                },
                Some(d) => {
                    assert forall|j: int|
                        0 <= j < i + 1 - start - (d - start + 1) implies #[trigger] is_ascii_digit(
                        body.subrange(d - start + 1, i + 1 - start)[j],
                    ) by {
                        if j < i - start - (d - start + 1) {
                            assert(body.subrange(d - start + 1, i + 1 - start)[j] == body.subrange(
                                d - start + 1,
                                i - start,
                            )[j]);
                        }
                    }
                },
            }
        }
        i = i + 1;
    }
    match dot {
        None => {
            assert(body.take(i - start) =~= body);
            assert(!is_decimal_float_text(s@)) by {
                if is_decimal_float_text(s@) {
                    let e = choose|e: int|
                        0 <= e < body.len() && #[trigger] body[e] == '.' && all_ascii_digits(
                            body.take(e),
                        ) && all_ascii_digits(body.skip(e + 1));
                    assert(is_ascii_digit(body.take(i - start)[e]));
                }
            }
            false
        },
        Some(d) => {
            assert(body.subrange(d - start + 1, i - start) =~= body.skip(d - start + 1));
            assert(body[d - start] == '.');
            true
        },
    }
}

} // verus!
