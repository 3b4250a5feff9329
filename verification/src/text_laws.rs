//! What holds of every joined text, numeral and pair of strings.

use vstd::prelude::*;

verus! {

/// Joining nothing gives nothing, and joining one piece gives the piece: a separator
/// stands only between two pieces.
pub proof fn law_joining_few_pieces(piece: Seq<char>, separator: Seq<char>)
    ensures
        crate::text::joined(Seq::empty(), separator) == Seq::<char>::empty(),
        crate::text::joined(seq![piece], separator) == piece,
{
}

/// Joining two lists in a row is joining each, with one separator in between.
pub proof fn law_joining_concatenation(
    left: Seq<Seq<char>>,
    right: Seq<Seq<char>>,
    separator: Seq<char>,
)
    requires
        left.len() > 0,
        right.len() > 0,
    ensures
        crate::text::joined(left + right, separator) == crate::text::joined(left, separator)
            + separator + crate::text::joined(right, separator),
    decreases right.len(),
{
    let whole = left + right;
    assert(whole.last() == right.last());
    if right.len() == 1 {
        assert(whole.drop_last() =~= left);
    } else {
        assert(whole.drop_last() =~= left + right.drop_last());
        law_joining_concatenation(left, right.drop_last(), separator);
        assert(crate::text::joined(whole, separator) =~= crate::text::joined(left, separator)
            + separator + crate::text::joined(right, separator));
    }
}

/// A numeral of one digit is the digit, and multiplying by ten and adding a digit
/// writes the digit behind the numeral.
pub proof fn law_numeral_ends_in_its_last_digit(n: nat, d: nat)
    requires
        d < 10,
    ensures
        crate::text::decimal(d).len() == 1,
        crate::text::decimal(d)[0] as int == '0' as int + d,
        n > 0 ==> crate::text::decimal(10 * n + d) == crate::text::decimal(n)
            + crate::text::decimal(d),
{
    if n > 0 {
        let whole = 10 * n + d;
        assert(whole / 10 == n);
        assert(whole % 10 == d);
        assert(crate::text::decimal(whole) =~= crate::text::decimal(n) + crate::text::decimal(d));
    }
}

/// What two strings have in common at the front does not matter for their order.
pub proof fn law_order_ignores_a_common_front(
    front: Seq<char>,
    a: Seq<char>,
    b: Seq<char>,
)
    ensures
        crate::text::text_less(front + a, front + b) == crate::text::text_less(a, b),
    decreases front.len(),
{
    if front.len() == 0 {
        assert(front + a =~= a);
        assert(front + b =~= b);
    } else {
        law_order_ignores_a_common_front(front.drop_first(), a, b);
        assert((front + a).drop_first() =~= front.drop_first() + a);
        assert((front + b).drop_first() =~= front.drop_first() + b);
    }
}

/// Strings are ordered by the first place where they differ: by the code points there,
/// and a string comes before its extensions.
pub proof fn law_order_is_by_the_first_difference(
    front: Seq<char>,
    c: char,
    a: Seq<char>,
    d: char,
    b: Seq<char>,
)
    ensures
        !crate::text::text_less(front, front),
        crate::text::text_less(front, front + (seq![c] + a)),
        !crate::text::text_less(front + (seq![c] + a), front),
        c != d ==> crate::text::text_less(front + (seq![c] + a), front + (seq![d] + b)) == (
        c < d),
{
    let nothing = Seq::<char>::empty();
    let left = seq![c] + a;
    let right = seq![d] + b;
    assert(front + nothing =~= front);
    assert(left[0] == c && right[0] == d);
    law_order_ignores_a_common_front(front, nothing, nothing);
    law_order_ignores_a_common_front(front, nothing, left);
    law_order_ignores_a_common_front(front, left, nothing);
    law_order_ignores_a_common_front(front, left, right);
}

/// What two lists of strings have in common at the front does not matter for their
/// order.
pub proof fn law_list_order_ignores_a_common_front(
    front: Seq<Seq<char>>,
    a: Seq<Seq<char>>,
    b: Seq<Seq<char>>,
)
    ensures
        crate::text::texts_less(front + a, front + b) == crate::text::texts_less(a, b),
    decreases front.len(),
{
    if front.len() == 0 {
        assert(front + a =~= a);
        assert(front + b =~= b);
    } else {
        law_list_order_ignores_a_common_front(front.drop_first(), a, b);
        assert((front + a).drop_first() =~= front.drop_first() + a);
        assert((front + b).drop_first() =~= front.drop_first() + b);
    }
}

/// Lists of strings are ordered by the first place where they differ, as the strings
/// there are, and a list comes before its extensions.
pub proof fn law_list_order_is_by_the_first_difference(
    front: Seq<Seq<char>>,
    s: Seq<char>,
    a: Seq<Seq<char>>,
    t: Seq<char>,
    b: Seq<Seq<char>>,
)
    ensures
        !crate::text::texts_less(front, front),
        crate::text::texts_less(front, front + (seq![s] + a)),
        !crate::text::texts_less(front + (seq![s] + a), front),
        s != t ==> crate::text::texts_less(front + (seq![s] + a), front + (seq![t] + b))
            == crate::text::text_less(s, t),
{
    let nothing = Seq::<Seq<char>>::empty();
    let left = seq![s] + a;
    let right = seq![t] + b;
    assert(front + nothing =~= front);
    assert(left[0] == s && right[0] == t);
    law_list_order_ignores_a_common_front(front, nothing, nothing);
    law_list_order_ignores_a_common_front(front, nothing, left);
    law_list_order_ignores_a_common_front(front, left, nothing);
    law_list_order_ignores_a_common_front(front, left, right);
}

} // verus!
