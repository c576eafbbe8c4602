//! What holds of texts, numbers in decimal notation and failures.

use crate::failure::FailureModel;
use crate::text;
use crate::text::Text;
use vstd::prelude::*;

verus! {

/// Up to position `k` the texts are the same, and there the first one ends or has
/// the smaller character.
pub open spec fn differs_first_at(a: Text, b: Text, k: int) -> bool {
    &&& 0 <= k <= a.len()
    &&& k < b.len()
    &&& forall|j: int| 0 <= j < k ==> a[j] == b[j]
    &&& k == a.len() || a[k] < b[k]
}

/// A text comes before another exactly where, at the first difference, it ends or
/// has the smaller character.
pub proof fn texts_are_ordered_by_their_first_difference(a: Text, b: Text)
    ensures
        text::text_lt(a, b) <==> exists|k: int| #[trigger] differs_first_at(a, b, k),
    decreases a.len(),
{
    if b.len() == 0 {
    } else if a.len() == 0 {
        assert(differs_first_at(a, b, 0));
    } else if a[0] != b[0] {
        if a[0] < b[0] {
            assert(differs_first_at(a, b, 0));
        }
        assert forall|k: int| #[trigger] differs_first_at(a, b, k) implies a[0] < b[0] by {
            if k > 0 {
                assert(a[0] == b[0]);
            }
        }
    } else {
        let c = a.drop_first();
        let d = b.drop_first();
        texts_are_ordered_by_their_first_difference(c, d);
        if exists|k: int| #[trigger] differs_first_at(c, d, k) {
            let k = choose|k: int| #[trigger] differs_first_at(c, d, k);
            assert forall|j: int| 0 <= j < k + 1 implies a[j] == b[j] by {
                if j > 0 {
                    assert(c[j - 1] == d[j - 1]);
                }
            }
            assert(differs_first_at(a, b, k + 1));
        }
        if exists|k: int| #[trigger] differs_first_at(a, b, k) {
            let k = choose|k: int| #[trigger] differs_first_at(a, b, k);
            assert(k > 0);
            assert forall|j: int| 0 <= j < k - 1 implies c[j] == d[j] by {
                assert(a[j + 1] == b[j + 1]);
            }
            assert(differs_first_at(c, d, k - 1));
        }
    }
}

/// No text stands where nothing is joined, a text alone stands as it is, and a
/// text in front is parted from what follows by the separator.
pub proof fn joined_texts_stand_in_order(first: Text, rest: Seq<Text>, separator: Text)
    ensures
        text::joined(Seq::empty(), separator) == Seq::<char>::empty(),
        text::joined(seq![first] + rest, separator) == if rest.len() == 0 {
            first
        } else {
            first + separator + text::joined(rest, separator)
        },
    decreases rest.len(),
{
    let all = seq![first] + rest;
    if rest.len() == 0 {
        assert(all =~= seq![first]);
    } else {
        let init = rest.drop_last();
        joined_texts_stand_in_order(first, init, separator);
        assert(all.drop_last() =~= seq![first] + init);
        assert(all.last() == rest.last());
        if init.len() == 0 {
            assert(rest =~= seq![rest[0]]);
            assert(text::joined(all, separator) =~= first + separator + text::joined(
                rest,
                separator,
            ));
        } else {
            assert(text::joined(all, separator) =~= first + separator + text::joined(
                rest,
                separator,
            ));
        }
    }
}

/// The number that decimal digits stand for.
pub open spec fn number_read(digits: Text) -> int
    decreases digits.len(),
{
    if digits.len() == 0 {
        0
    } else {
        10 * number_read(digits.drop_last()) + (digits.last() as int - '0' as int)
    }
}

/// A number in decimal notation has only digits, does not start with a zero
/// unless it is zero, and is read back as that number.
pub proof fn decimal_notation_is_read_back(n: nat)
    ensures
        ({
            let digits = text::decimal_text(n);
            &&& digits.len() > 0
            &&& forall|i: int| 0 <= i < digits.len() ==> '0' <= #[trigger] digits[i] <= '9'
            &&& digits[0] == '0' ==> n == 0
            &&& number_read(digits) == n
        }),
    decreases n,
{
    let digits = text::decimal_text(n);
    if n < 10 {
        assert(digits.drop_last() =~= Seq::empty());
        reveal_with_fuel(number_read, 2);
    } else {
        decimal_notation_is_read_back(n / 10);
        assert(digits.drop_last() =~= text::decimal_text(n / 10));
        assert(digits[0] == text::decimal_text(n / 10)[0]);
        assert forall|i: int| 0 <= i < digits.len() implies '0' <= #[trigger] digits[i] <= '9' by {
            if i < digits.len() - 1 {
                assert(digits[i] == text::decimal_text(n / 10)[i]);
            }
        }
    }
}

/// A negative number has a minus sign in front of its amount, and no other has.
pub proof fn signed_notation_is_read_back(n: int)
    ensures
        ({
            let written = text::signed_decimal_text(n);
            &&& written.len() > 0
            &&& written[0] == '-' <==> n < 0
            &&& n >= 0 ==> number_read(written) == n
            &&& n < 0 ==> number_read(written.drop_first()) == -n
        }),
{
    if n < 0 {
        decimal_notation_is_read_back((-n) as nat);
        assert(text::signed_decimal_text(n).drop_first() =~= text::decimal_text((-n) as nat));
    } else {
        decimal_notation_is_read_back(n as nat);
        let digits = text::decimal_text(n as nat);
        assert('0' <= digits[0]);
    }
}

/// A prefix is taken off exactly where the text goes on after it.
pub proof fn prefixes_are_taken_off(s: Text, prefix: Text, rest: Text)
    ensures
        text::after_prefix(s, prefix) == Some(rest) <==> s == prefix + rest,
{
    if s == prefix + rest {
        assert(prefix.is_prefix_of(s));
        assert(s.skip(prefix.len() as int) =~= rest);
    }
    if text::after_prefix(s, prefix) == Some(rest) {
        assert(s =~= prefix + rest);
    }
}

/// The full message of a failure is what failed, and where there is a cause, a
/// colon, a space and the cause after it.
pub proof fn failures_name_their_cause(context: Text, cause: Text)
    ensures
        (FailureModel { context, cause: None }).full_message() == context,
        (FailureModel { context, cause: Some(cause) }).full_message() == context + seq![':', ' ']
            + cause,
{
    reveal_strlit(": ");
    assert(": "@ =~= seq![':', ' ']);
}

} // verus!
