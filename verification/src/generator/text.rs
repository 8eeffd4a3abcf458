use vstd::prelude::*;

use crate::input_reader::collect_string;

verus! {

/// The texts of the items, one after the other.
pub open spec fn concat_map<A>(items: Seq<A>, f: spec_fn(A) -> Seq<char>) -> Seq<char>
    decreases items.len(),
{
    if items.len() == 0 {
        Seq::empty()
    } else {
        concat_map(items.drop_last(), f) + f(items.last())
    }
}

/// The texts of the items, with `separator` between each two.
pub open spec fn join_map<A>(items: Seq<A>, f: spec_fn(A) -> Seq<char>, separator: Seq<char>) -> Seq<
    char,
>
    decreases items.len(),
{
    if items.len() == 0 {
        Seq::empty()
    } else if items.len() == 1 {
        f(items[0])
    } else {
        join_map(items.drop_last(), f, separator) + separator + f(items.last())
    }
}

pub proof fn lemma_concat_map_step<A>(items: Seq<A>, f: spec_fn(A) -> Seq<char>, i: int)
    requires
        0 <= i < items.len(),
    ensures
        concat_map(items.take(i + 1), f) == concat_map(items.take(i), f) + f(items[i]),
{
    assert(items.take(i + 1).drop_last() =~= items.take(i));
}

/// `part` stands somewhere in `text`, as a contiguous piece.
pub open spec fn has_part(text: Seq<char>, part: Seq<char>) -> bool {
    exists|i: int| 0 <= i && i + part.len() <= text.len() && #[trigger] text.subrange(i, i + part.len()) == part
}

/// Every text is a piece of itself.
pub proof fn lemma_has_part_self(t: Seq<char>)
    ensures
        has_part(t, t),
{
    let i: int = 0;
    assert(t.subrange(i, i + t.len()) =~= t);
}

/// A piece of the middle of a text is a piece of the whole.
pub proof fn lemma_has_part_within(a: Seq<char>, b: Seq<char>, c: Seq<char>, part: Seq<char>)
    requires
        has_part(b, part),
    ensures
        has_part(a + b + c, part),
{
    let i = choose|i: int| 0 <= i && i + part.len() <= b.len() && #[trigger] b.subrange(i, i + part.len()) == part;
    let t = a + b + c;
    assert(t.subrange(a.len() + i, a.len() + i + part.len()) =~= part);
}

/// The text of every item stands in the concatenation of all.
pub proof fn lemma_has_part_concat_map<A>(items: Seq<A>, f: spec_fn(A) -> Seq<char>, k: int)
    requires
        0 <= k < items.len(),
    ensures
        has_part(concat_map(items, f), f(items[k])),
    decreases items.len(),
{
    let last = items.len() - 1;
    if k == last {
        let t = concat_map(items.drop_last(), f) + f(items.last());
        let n: int = concat_map(items.drop_last(), f).len() as int;
        assert(t.subrange(n, n + f(items[k]).len()) =~= f(items[k]));
    } else {
        assert(items.drop_last()[k] == items[k]);
        lemma_has_part_concat_map(items.drop_last(), f, k);
        lemma_has_part_within(Seq::empty(), concat_map(items.drop_last(), f), f(items.last()), f(items[k]));
        assert(Seq::<char>::empty() + concat_map(items.drop_last(), f) + f(items.last()) =~= concat_map(items, f));
    }
}

pub proof fn lemma_join_map_step<A>(items: Seq<A>, f: spec_fn(A) -> Seq<char>, separator: Seq<char>, i: int)
    requires
        0 <= i < items.len(),
    ensures
        i == 0 ==> join_map(items.take(i + 1), f, separator) == f(items[i]),
        i > 0 ==> join_map(items.take(i + 1), f, separator) == join_map(items.take(i), f, separator)
            + separator + f(items[i]),
{
    assert(items.take(i + 1).drop_last() =~= items.take(i));
}

/// The character of a decimal digit.
pub open spec fn digit_char(d: int) -> char {
    if d == 0 {
        '0'
    } else if d == 1 {
        '1'
    } else if d == 2 {
        '2'
    } else if d == 3 {
        '3'
    } else if d == 4 {
        '4'
    } else if d == 5 {
        '5'
    } else if d == 6 {
        '6'
    } else if d == 7 {
        '7'
    } else if d == 8 {
        '8'
    } else {
        '9'
    }
}

/// The decimal digits of `n`, without leading zeros.
pub open spec fn natural_text(n: nat) -> Seq<char>
    decreases n,
{
    if n < 10 {
        seq![digit_char(n as int)]
    } else {
        natural_text(n / 10).push(digit_char((n % 10) as int))
    }
}

/// An integer in decimal, with a `-` in front when it is negative.
pub open spec fn integer_text(i: int) -> Seq<char> {
    if i < 0 {
        seq!['-'] + natural_text((-i) as nat)
    } else {
        natural_text(i as nat)
    }
}

fn digit(d: u64) -> (c: char)
    requires
        d < 10,
    ensures
        c == digit_char(d as int),
{
    if d == 0 {
        '0'
    } else if d == 1 {
        '1'
    } else if d == 2 {
        '2'
    } else if d == 3 {
        '3'
    } else if d == 4 {
        '4'
    } else if d == 5 {
        '5'
    } else if d == 6 {
        '6'
    } else if d == 7 {
        '7'
    } else if d == 8 {
        '8'
    } else {
        '9'
    }
}

fn natural_chars(n: u64) -> (res: Vec<char>)
    ensures
        res@ == natural_text(n as nat),
    decreases n,
{
    if n < 10 {
        let mut v = Vec::new();
        v.push(digit(n));
        assert(v@ =~= seq![digit_char(n as int)]);
        v
    } else {
        let mut v = natural_chars(n / 10);
        v.push(digit(n % 10));
        v
    }
}

/// An `i32` in decimal, as `ToString` writes it.
pub fn integer_string(i: i32) -> (res: String)
    ensures
        res@ == integer_text(i as int),
{
    if i < 0 {
        let magnitude: i64 = -(i as i64);
        let mut v = Vec::new();
        v.push('-');
        let mut digits = natural_chars(magnitude as u64);
        v.append(&mut digits);
        assert(v@ =~= seq!['-'] + natural_text((-i) as nat));
        collect_string(v.as_slice())
    } else {
        let v = natural_chars(i as u64);
        collect_string(v.as_slice())
    }
}

proof fn lemma_digit_value(d: int)
    requires
        0 <= d < 10,
    ensures
        (digit_char(d) as u32) - ('0' as u32) == d,
        crate::number::is_ascii_digit(digit_char(d)),
{
}

proof fn lemma_natural_text(n: nat)
    ensures
        natural_text(n).len() >= 1,
        crate::number::all_ascii_digits(natural_text(n)),
        crate::number::digits_value(natural_text(n)) == n,
    decreases n,
{
    lemma_digit_value((n % 10) as int);
    if n < 10 {
        let t = natural_text(n);
        assert(t.drop_last() =~= Seq::<char>::empty());
        assert(n % 10 == n);
        assert(t.last() == digit_char(n as int));
        assert(crate::number::digits_value(t.drop_last()) == 0);
        assert(crate::number::digits_value(t) == crate::number::digits_value(t.drop_last()) * 10 + ((
        t.last() as u32) - ('0' as u32)));
    } else {
        lemma_natural_text(n / 10);
        let t = natural_text(n);
        assert(t.drop_last() =~= natural_text(n / 10));
        assert(n == (n / 10) * 10 + n % 10) by (nonlinear_arith);
        assert(t.last() == digit_char((n % 10) as int));
        assert(crate::number::digits_value(t) == crate::number::digits_value(t.drop_last()) * 10 + ((
        t.last() as u32) - ('0' as u32)));
        assert forall|i: int| 0 <= i < t.len() implies #[trigger] crate::number::is_ascii_digit(t[i]) by {
            if i < t.len() - 1 {
                assert(t[i] == natural_text(n / 10)[i]);
            }
        }
    }
}

/// An integer written in decimal reads back as the same integer: what the
/// generator prints for an integer literal is what the lexer parsed it from.
pub proof fn law_integer_text_reads_back(i: i32)
    ensures
        crate::number::spec_parse_i32(integer_text(i as int)) == Some(i),
{
    if i < 0 {
        let digits = natural_text((-i) as nat);
        lemma_natural_text((-i) as nat);
        assert((seq!['-'] + digits).skip(1) =~= digits);
        assert((seq!['-'] + digits)[0] == '-');
    } else {
        lemma_natural_text(i as nat);
        let t = natural_text(i as nat);
        assert(crate::number::is_ascii_digit(t[0]));
    }
}

} // verus!
