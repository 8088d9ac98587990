//! Lexicographic order on character sequences.
//!
//! Snapshot names are compared as plain character sequences, by Unicode
//! scalar value. Because the timestamp inside a name is fixed-width and
//! left-padded, this order coincides with chronological order for names
//! that share a dataset path.

use vstd::prelude::*;

verus! {

/// Strict lexicographic order: `a` comes before `b`.
pub open spec fn lex_lt(a: Seq<char>, b: Seq<char>) -> bool
    decreases a.len(),
{
    if b.len() == 0 {
        false
    } else if a.len() == 0 {
        true
    } else if (a[0] as u32) < (b[0] as u32) {
        true
    } else if a[0] == b[0] {
        lex_lt(a.skip(1), b.skip(1))
    } else {
        false
    }
}

/// Reflexive closure of `lex_lt`.
pub open spec fn lex_le(a: Seq<char>, b: Seq<char>) -> bool {
    lex_lt(a, b) || a == b
}

/// A sequence of names in ascending lexicographic order, duplicates
/// allowed.
pub open spec fn sorted_names(s: Seq<Seq<char>>) -> bool {
    forall|i: int, j: int| 0 <= i < j < s.len() ==> lex_le(s[i], s[j])
}

/// `lex_lt` is a strict total order: of `a < b`, `a == b`, `b < a`,
/// exactly one holds.
pub proof fn lemma_lex_lt_trichotomy(a: Seq<char>, b: Seq<char>)
    ensures
        lex_lt(a, b) || a == b || lex_lt(b, a),
        lex_lt(a, b) ==> !(a == b) && !lex_lt(b, a),
        a == b ==> !lex_lt(a, b) && !lex_lt(b, a),
    decreases a.len(),
{
    if a.len() == 0 && b.len() == 0 {
        assert(a =~= b);
    } else if a.len() > 0 && b.len() > 0 {
        if a[0] == b[0] {
            lemma_lex_lt_trichotomy(a.skip(1), b.skip(1));
            if a.skip(1) == b.skip(1) {
                assert forall|i: int| 0 <= i < a.len() implies a[i] == b[i] by {
                    if i > 0 {
                        assert(a[i] == a.skip(1)[i - 1]);
                        assert(b[i] == b.skip(1)[i - 1]);
                    }
                }
                assert(a =~= b);
            }
            if a == b {
                assert(a.skip(1) =~= b.skip(1));
            }
        } else {
            vstd::utf8::char_u32_cast(a[0], a[0] as u32);
            vstd::utf8::char_u32_cast(b[0], b[0] as u32);
            assert(a[0] as u32 != b[0] as u32);
        }
    }
}

/// `lex_lt` is transitive.
pub proof fn lemma_lex_lt_transitive(a: Seq<char>, b: Seq<char>, c: Seq<char>)
    requires
        lex_lt(a, b),
        lex_lt(b, c),
    ensures
        lex_lt(a, c),
    decreases a.len(),
{
    if a.len() > 0 {
        if a[0] == b[0] && b[0] == c[0] {
            lemma_lex_lt_transitive(a.skip(1), b.skip(1), c.skip(1));
        }
    }
}

/// `lex_le` is transitive.
pub proof fn lemma_lex_le_transitive(a: Seq<char>, b: Seq<char>, c: Seq<char>)
    requires
        lex_le(a, b),
        lex_le(b, c),
    ensures
        lex_le(a, c),
{
    if lex_lt(a, b) && lex_lt(b, c) {
        lemma_lex_lt_transitive(a, b, c);
    }
}

/// Is `c` a decimal digit?
pub open spec fn is_digit(c: char) -> bool {
    '0' as u32 <= c as u32 <= '9' as u32
}

/// Does `s` consist of decimal digits only?
pub open spec fn all_digits(s: Seq<char>) -> bool {
    forall|i: int| 0 <= i < s.len() ==> is_digit(#[trigger] s[i])
}

/// The numeric value of a digit character; zero for anything else.
pub open spec fn digit_val(c: char) -> nat {
    if is_digit(c) {
        (c as u32 - '0' as u32) as nat
    } else {
        0
    }
}

/// The value of a sequence of digit characters read as a decimal number.
pub open spec fn decimal_value(s: Seq<char>) -> nat
    decreases s.len(),
{
    if s.len() == 0 {
        0
    } else {
        decimal_value(s.drop_last()) * 10 + digit_val(s.last())
    }
}

/// Ten to the `n`th.
pub open spec fn pow10(n: nat) -> nat
    decreases n,
{
    if n == 0 {
        1nat
    } else {
        10 * pow10((n - 1) as nat)
    }
}

/// `decimal_value`, peeled from the front: the leading digit carries the
/// highest power of ten.
proof fn lemma_decimal_value_front(s: Seq<char>)
    requires
        s.len() > 0,
    ensures
        decimal_value(s) == digit_val(s[0]) * pow10((s.len() - 1) as nat) + decimal_value(
            s.skip(1),
        ),
    decreases s.len(),
{
    if s.len() == 1 {
        assert(s.drop_last() =~= Seq::<char>::empty());
        assert(s.skip(1) =~= Seq::<char>::empty());
        assert(pow10(0) == 1);
        assert(decimal_value(Seq::<char>::empty()) == 0);
        assert(s.last() == s[0]);
    } else {
        lemma_decimal_value_front(s.drop_last());
        assert(s.drop_last()[0] == s[0]);
        assert(s.skip(1).drop_last() =~= s.drop_last().skip(1));
        assert(s.skip(1).last() == s.last());
        let p = pow10((s.len() - 2) as nat);
        assert(decimal_value(s) == decimal_value(s.drop_last()) * 10 + digit_val(s.last()));
        assert(decimal_value(s.drop_last()) == digit_val(s[0]) * p + decimal_value(
            s.drop_last().skip(1),
        ));
        assert(decimal_value(s.skip(1)) == decimal_value(s.skip(1).drop_last()) * 10 + digit_val(
            s.skip(1).last(),
        ));
        assert(decimal_value(s) == (digit_val(s[0]) * p + decimal_value(s.drop_last().skip(1)))
            * 10 + digit_val(s.last()));
        assert((digit_val(s[0]) * p + decimal_value(s.drop_last().skip(1))) * 10 + digit_val(
            s.last(),
        ) == digit_val(s[0]) * (p * 10) + (decimal_value(s.drop_last().skip(1)) * 10 + digit_val(
            s.last(),
        ))) by (nonlinear_arith);
        assert(pow10((s.len() - 1) as nat) == p * 10);
    }
}

/// A decimal number of `n` digits is below ten to the `n`th.
proof fn lemma_decimal_value_bound(s: Seq<char>)
    ensures
        decimal_value(s) < pow10(s.len() as nat),
    decreases s.len(),
{
    if s.len() > 0 {
        lemma_decimal_value_bound(s.drop_last());
        assert(digit_val(s.last()) <= 9);
    }
}

/// On digit strings of one width, lexicographic order is numeric order.
///
/// With the snapshot timestamp's fixed-width, left-padded fields this is
/// why name order within one dataset is chronological order: two names
/// with equal dataset paths compare by their timestamp text
/// (`lemma_lex_lt_common_prefix`), and each fixed-width decimal field of
/// that text compares as its value.
pub proof fn lemma_lex_lt_is_numeric_on_fixed_width(a: Seq<char>, b: Seq<char>)
    requires
        a.len() == b.len(),
        all_digits(a),
        all_digits(b),
    ensures
        lex_lt(a, b) <==> decimal_value(a) < decimal_value(b),
    decreases a.len(),
{
    if a.len() > 0 {
        lemma_decimal_value_front(a);
        lemma_decimal_value_front(b);
        let p = pow10((a.len() - 1) as nat);
        let da = digit_val(a[0]);
        let db = digit_val(b[0]);
        let ra = decimal_value(a.skip(1));
        let rb = decimal_value(b.skip(1));
        assert(a.skip(1).len() == b.skip(1).len());
        assert(all_digits(a.skip(1)) && all_digits(b.skip(1))) by {
            assert(forall|i: int| 0 <= i < a.skip(1).len() ==> #[trigger] a.skip(1)[i] == a[i + 1]);
            assert(forall|i: int| 0 <= i < b.skip(1).len() ==> #[trigger] b.skip(1)[i] == b[i + 1]);
        }
        lemma_lex_lt_is_numeric_on_fixed_width(a.skip(1), b.skip(1));
        assert(ra < p && rb < p) by {
            lemma_decimal_value_bound(a.skip(1));
            lemma_decimal_value_bound(b.skip(1));
        }
        assert(is_digit(a[0]) && is_digit(b[0]));
        if a[0] == b[0] {
            assert(lex_lt(a, b) == lex_lt(a.skip(1), b.skip(1)));
            assert(da * p + ra < db * p + rb <==> ra < rb);
        } else if (a[0] as u32) < (b[0] as u32) {
            assert(lex_lt(a, b));
            assert(da + 1 <= db);
            assert(da * p + ra < db * p + rb) by (nonlinear_arith)
                requires
                    da + 1 <= db,
                    ra < p,
                    0 <= rb,
            ;
        } else {
            assert(!lex_lt(a, b));
            vstd::utf8::char_u32_cast(a[0], a[0] as u32);
            vstd::utf8::char_u32_cast(b[0], b[0] as u32);
            assert(db + 1 <= da);
            assert(db * p + rb < da * p + ra) by (nonlinear_arith)
                requires
                    db + 1 <= da,
                    rb < p,
                    0 <= ra,
            ;
        }
    }
}

/// Prepending a common prefix changes nothing about the relative order
/// of two character sequences.
///
/// For snapshot names this says: two names with the same dataset path are
/// ordered exactly as their timestamp-and-label parts are, so with the
/// fixed-width timestamp format, name order within one dataset is
/// chronological order.
pub proof fn lemma_lex_lt_common_prefix(p: Seq<char>, a: Seq<char>, b: Seq<char>)
    ensures
        lex_lt(p + a, p + b) == lex_lt(a, b),
    decreases p.len(),
{
    if p.len() == 0 {
        assert(p + a =~= a);
        assert(p + b =~= b);
    } else {
        assert((p + a).skip(1) =~= p.skip(1) + a);
        assert((p + b).skip(1) =~= p.skip(1) + b);
        lemma_lex_lt_common_prefix(p.skip(1), a, b);
    }
}

} // verus!
