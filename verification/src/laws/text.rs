//! Laws of texts: numbers in digits, letters, order and blanks.
use vstd::prelude::*;

use crate::text::{
    all_digits, comes_before, decimal, digits_value, integer_value, is_space, lower, lowered, signed_decimal,
    trimmed, trimmed_end, trimmed_start,
};

verus! {

// ---------------------------------------------------------------------------
// Numbers
// ---------------------------------------------------------------------------

/// Digits count by their place: putting more digits behind a number multiplies it by ten for each
/// of them. A digit alone counts what it says.
pub proof fn digits_count_by_their_place(a: Seq<char>, b: Seq<char>)
    ensures
        digits_value(a + b) == digits_value(a) * vstd::arithmetic::power::pow(10, b.len()) + digits_value(b),
        forall|c: char| '0' <= c <= '9' ==> #[trigger] digits_value(seq![c]) == c as int - '0' as int,
    decreases b.len(),
{
    assert(digits_value(Seq::<char>::empty()) == 0);
    assert forall|c: char| '0' <= c <= '9' implies #[trigger] digits_value(seq![c]) == c as int - '0' as int by {
        assert(seq![c].drop_last() =~= Seq::<char>::empty());
    }
    vstd::arithmetic::power::lemma_pow0(10);
    if b.len() == 0 {
        assert(a + b =~= a);
        assert(digits_value(a) * 1 == digits_value(a)) by (nonlinear_arith);
    } else {
        let rest = b.drop_last();
        digits_count_by_their_place(a, rest);
        assert((a + b).drop_last() =~= a + rest);
        vstd::arithmetic::power::lemma_pow_adds(10, rest.len(), 1);
        vstd::arithmetic::power::lemma_pow1(10);
        let p = vstd::arithmetic::power::pow(10, rest.len());
        let v = digits_value(a) as int;
        assert((v * p) * 10 == v * (p * 10)) by (nonlinear_arith);
        let w = digits_value(rest) as int;
        assert((v * p + w) * 10 == (v * p) * 10 + w * 10) by (nonlinear_arith);
    }
}

/// A number in digits has no more digits than it needs, and reads from its highest digit on:
/// below ten it is one digit, else the tens come before the ones.
pub proof fn numbers_read_from_their_highest_digit(n: nat)
    ensures
        all_digits(decimal(n)),
        n > 0 ==> decimal(n)[0] != '0',
        decimal(n).len() > 0,
        decimal(n).last() as nat == 48 + n % 10,
        n >= 10 ==> decimal(n).drop_last() == decimal(n / 10),
        n < 10 ==> decimal(n).len() == 1,
    decreases n,
{
    if n >= 10 {
        numbers_read_from_their_highest_digit(n / 10);
        assert(decimal(n).drop_last() =~= decimal(n / 10));
        assert(decimal(n)[0] == decimal(n / 10)[0]);
    }
}

/// A sign stands in front: a minus turns the number below zero, a plus changes nothing.
pub proof fn signs_stand_in_front(digits: Seq<char>)
    requires
        digits.len() > 0,
        all_digits(digits),
    ensures
        integer_value(digits) == Some(digits_value(digits) as int),
        integer_value(seq!['+'] + digits) == Some(digits_value(digits) as int),
        integer_value(seq!['-'] + digits) == Some(-(digits_value(digits) as int)),
{
    let first = digits[0];
    assert('0' <= first <= '9');
    assert((seq!['+'] + digits).drop_first() =~= digits);
    assert((seq!['-'] + digits).drop_first() =~= digits);
}

/// A number below zero is the number above it behind a minus.
pub proof fn negative_numbers_have_a_minus(n: nat)
    requires
        n > 0,
    ensures
        signed_decimal(n as int) == decimal(n),
        signed_decimal(-(n as int)) == seq!['-'] + decimal(n),
{
}

// ---------------------------------------------------------------------------
// Letters and order
// ---------------------------------------------------------------------------

/// Every capital becomes the small letter as far from 'a' as it was from 'A'. Everything else
/// stays, and every character stays in its place.
pub proof fn capitals_become_small(s: Seq<char>, i: int)
    requires
        0 <= i < s.len(),
    ensures
        lowered(s).len() == s.len(),
        'A' <= s[i] <= 'Z' ==> lowered(s)[i] as int - 'a' as int == s[i] as int - 'A' as int,
        !('A' <= s[i] <= 'Z') ==> lowered(s)[i] == s[i],
        lower(lower(s[i])) == lower(s[i]),
{
}

/// Of two texts that begin alike, the one with the smaller character at the first difference
/// comes first.
pub proof fn first_difference_decides(common: Seq<char>, a: Seq<char>, b: Seq<char>)
    requires
        a.len() > 0,
        b.len() > 0,
        a[0] < b[0],
    ensures
        comes_before(common + a, common + b),
        !comes_before(common + b, common + a),
    decreases common.len(),
{
    if common.len() == 0 {
        assert(common + a =~= a);
        assert(common + b =~= b);
    } else {
        let rest = common.drop_first();
        first_difference_decides(rest, a, b);
        assert((common + a).drop_first() =~= rest + a);
        assert((common + b).drop_first() =~= rest + b);
    }
}

/// A text comes before every longer one that begins with it.
pub proof fn beginnings_come_first(a: Seq<char>, more: Seq<char>)
    requires
        more.len() > 0,
    ensures
        comes_before(a, a + more),
        !comes_before(a + more, a),
    decreases a.len(),
{
    if a.len() > 0 {
        beginnings_come_first(a.drop_first(), more);
        assert((a + more).drop_first() =~= a.drop_first() + more);
    }
}

// ---------------------------------------------------------------------------
// Blanks
// ---------------------------------------------------------------------------

/// Spaces, tabs and line ends are blanks. No visible character of ASCII is one.
pub proof fn visible_characters_are_no_blanks(c: char)
    ensures
        c == ' ' || c == '\t' || c == '\n' || c == '\r' ==> is_space(c),
        '!' <= c <= '~' ==> !is_space(c),
{
}

/// Trimming cuts the blanks off both ends, all of them, and nothing else.
pub proof fn only_outer_blanks_are_trimmed(before: Seq<char>, text: Seq<char>, after: Seq<char>)
    requires
        forall|i: int| 0 <= i < before.len() ==> is_space(#[trigger] before[i]),
        forall|i: int| 0 <= i < after.len() ==> is_space(#[trigger] after[i]),
        text.len() > 0 ==> !is_space(text[0]) && !is_space(text.last()),
    ensures
        trimmed(before + text + after) == text,
{
    lemma_trimmed_start(before, text + after, text.len() > 0);
    assert(before + (text + after) =~= before + text + after);
    if text.len() > 0 {
        lemma_trimmed_end(text, after);
    } else {
        assert(text + after =~= after);
        lemma_trimmed_start(after, Seq::empty(), true);
        assert(after + Seq::<char>::empty() =~= after);
        lemma_all_trimmed(before, after);
        assert(before + text + after =~= before + after);
    }
}

proof fn lemma_trimmed_start(before: Seq<char>, rest: Seq<char>, stops: bool)
    requires
        forall|i: int| 0 <= i < before.len() ==> is_space(#[trigger] before[i]),
        stops && rest.len() > 0 ==> !is_space(rest[0]),
    ensures
        stops ==> trimmed_start(before + rest) == rest,
    decreases before.len(),
{
    if before.len() == 0 {
        assert(before + rest =~= rest);
    } else {
        let tail = before.drop_first();
        assert forall|i: int| 0 <= i < tail.len() implies is_space(#[trigger] tail[i]) by {
            assert(tail[i] == before[i + 1]);
        }
        lemma_trimmed_start(tail, rest, stops);
        assert((before + rest).drop_first() =~= tail + rest);
        assert((before + rest)[0] == before[0]);
    }
}

proof fn lemma_all_trimmed(a: Seq<char>, b: Seq<char>)
    requires
        forall|i: int| 0 <= i < a.len() ==> is_space(#[trigger] a[i]),
        forall|i: int| 0 <= i < b.len() ==> is_space(#[trigger] b[i]),
    ensures
        trimmed(a + b) == Seq::<char>::empty(),
{
    let all = a + b;
    assert forall|i: int| 0 <= i < all.len() implies is_space(#[trigger] all[i]) by {
        if i < a.len() {
            assert(all[i] == a[i]);
        } else {
            assert(all[i] == b[i - a.len()]);
        }
    }
    lemma_trimmed_start(all, Seq::empty(), true);
    assert(all + Seq::<char>::empty() =~= all);
}

proof fn lemma_trimmed_end(text: Seq<char>, after: Seq<char>)
    requires
        forall|i: int| 0 <= i < after.len() ==> is_space(#[trigger] after[i]),
        text.len() > 0,
        !is_space(text.last()),
    ensures
        trimmed_end(text + after) == text,
    decreases after.len(),
{
    if after.len() == 0 {
        assert(text + after =~= text);
    } else {
        let rest = after.drop_last();
        assert forall|i: int| 0 <= i < rest.len() implies is_space(#[trigger] rest[i]) by {
            assert(rest[i] == after[i]);
        }
        lemma_trimmed_end(text, rest);
        assert((text + after).drop_last() =~= text + rest);
        assert((text + after).last() == after.last());
        assert(after.last() == after[after.len() - 1]);
    }
}

} // verus!
