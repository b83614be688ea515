//! Decimal number fields of NMEA sentences.
use vstd::prelude::*;
use vstd::string::*;

verus! {

/// The text that a malformed integer field is answered with.
pub const INT_FIELD_ERROR: &'static str = "Wrong signed int field format.";

/// An ASCII decimal digit.
pub open spec fn is_digit(c: char) -> bool {
    '0' <= c && c <= '9'
}

/// The number that a digit stands for.
pub open spec fn digit_value(c: char) -> int {
    (c as int) - ('0' as int)
}

/// Every character of `s` is a decimal digit.
pub open spec fn all_digits(s: Seq<char>) -> bool {
    forall|i: int| 0 <= i < s.len() ==> is_digit(#[trigger] s[i])
}

/// The value of a string of decimal digits, most significant first.
pub open spec fn digits_value(s: Seq<char>) -> int
    decreases s.len(),
{
    if s.len() == 0 {
        0
    } else {
        10 * digits_value(s.drop_last()) + digit_value(s.last())
    }
}

/// The integer that `s` spells: an optional `+` or `-` followed by at least
/// one decimal digit and nothing else.
pub open spec fn decimal_value(s: Seq<char>) -> Option<int> {
    if s.len() > 0 && (s[0] == '+' || s[0] == '-') {
        let d = s.drop_first();
        if d.len() > 0 && all_digits(d) {
            Some(if s[0] == '-' { -digits_value(d) } else { digits_value(d) })
        } else {
            None
        }
    } else if s.len() > 0 && all_digits(s) {
        Some(digits_value(s))
    } else {
        None
    }
}

/// What `s` reads as when it is taken for an `i16`: its decimal value where
/// that value fits, else nothing.
pub open spec fn decimal_i16(s: Seq<char>) -> Option<i16> {
    match decimal_value(s) {
        Some(v) => if i16::MIN <= v <= i16::MAX { Some(v as i16) } else { None },
        None => None,
    }
}

/// A string of digits has a value of at least zero.
pub proof fn lemma_digits_value_nonneg(s: Seq<char>)
    requires
        all_digits(s),
    ensures
        digits_value(s) >= 0,
    decreases s.len(),
{
    if s.len() > 0 {
        assert(is_digit(s[s.len() - 1]));
        lemma_digits_value_nonneg(s.drop_last());
    }
}

/// A prefix of a string of digits is worth no more than the whole string.
pub proof fn lemma_digits_value_prefix(s: Seq<char>, k: int)
    requires
        all_digits(s),
        0 <= k <= s.len(),
    ensures
        digits_value(s.take(k)) <= digits_value(s),
    decreases s.len(),
{
    if k == s.len() {
        assert(s.take(k) =~= s);
    } else {
        let t = s.drop_last();
        assert(all_digits(t)) by {
            assert forall|i: int| 0 <= i < t.len() implies is_digit(#[trigger] t[i]) by {
                assert(t[i] == s[i]);
            }
        }
        assert(is_digit(s[s.len() - 1]));
        lemma_digits_value_prefix(t, k);
        assert(t.take(k) =~= s.take(k));
        lemma_digits_value_nonneg(t);
    }
}

/// A lone digit reads as the number it stands for.
pub proof fn law_single_digit(c: char)
    requires
        is_digit(c),
    ensures
        decimal_i16(seq![c]) == Some((c as int - '0' as int) as i16),
{
    let s = seq![c];
    assert(all_digits(s));
    assert(s.drop_last() =~= Seq::<char>::empty());
    assert(s.last() == c);
    assert(digits_value(s.drop_last()) == 0);
    assert(digits_value(s) == c as int - '0' as int);
}

/// Writing one more digit behind a string of digits multiplies its value by
/// ten and adds the digit.
pub proof fn law_append_digit(s: Seq<char>, c: char)
    requires
        s.len() > 0,
        all_digits(s),
        is_digit(c),
    ensures
        decimal_value(s + seq![c]) == Some(10 * decimal_value(s)->0 + (c as int - '0' as int)),
{
    let t = s + seq![c];
    assert(all_digits(t)) by {
        assert forall|i: int| 0 <= i < t.len() implies is_digit(#[trigger] t[i]) by {
            if i < s.len() {
                assert(t[i] == s[i]);
            }
        }
    }
    assert(t.drop_last() =~= s);
    if s[0] == '+' || s[0] == '-' {
        assert(is_digit(s[0]));
    }
    assert(t[0] == s[0]);
}

/// Leading zeros do not change what a string of digits reads as.
pub proof fn law_leading_zero(s: Seq<char>)
    requires
        s.len() > 0,
        all_digits(s),
    ensures
        decimal_value(seq!['0'] + s) == decimal_value(s),
        decimal_i16(seq!['0'] + s) == decimal_i16(s),
{
    lemma_zero_prefix_value(s);
    let t = seq!['0'] + s;
    assert(all_digits(t)) by {
        assert forall|i: int| 0 <= i < t.len() implies is_digit(#[trigger] t[i]) by {
            if i > 0 {
                assert(t[i] == s[i - 1]);
            }
        }
    }
    assert(is_digit(s[0]));
}

proof fn lemma_zero_prefix_value(s: Seq<char>)
    ensures
        digits_value(seq!['0'] + s) == digits_value(s),
    decreases s.len(),
{
    let t = seq!['0'] + s;
    if s.len() == 0 {
        assert(t.drop_last() =~= Seq::<char>::empty());
        assert(t.last() == '0');
        assert(digits_value(t.drop_last()) == 0);
        assert(s =~= Seq::<char>::empty());
    } else {
        lemma_zero_prefix_value(s.drop_last());
        assert(t.drop_last() =~= seq!['0'] + s.drop_last());
        assert(t.last() == s.last());
    }
}

/// A sign in front of a string of digits: `+` keeps its value, `-` negates it.
pub proof fn law_sign(s: Seq<char>)
    requires
        s.len() > 0,
        all_digits(s),
    ensures
        decimal_value(seq!['+'] + s) == decimal_value(s),
        decimal_value(seq!['-'] + s) == Some(-decimal_value(s)->0),
{
    assert((seq!['+'] + s).drop_first() =~= s);
    assert((seq!['-'] + s).drop_first() =~= s);
    assert(is_digit(s[0]));
}

/// What is not an optional sign followed by digits reads as nothing: the
/// empty text, a lone sign, a first character that is neither sign nor
/// digit, or a later character that is not a digit.
pub proof fn law_rejects_non_decimal(s: Seq<char>, i: int)
    requires
        0 <= i,
        i < s.len() ==> !is_digit(s[i]) && (i > 0 || (s[0] != '+' && s[0] != '-')),
        i >= s.len() ==> s.len() == 0 || (s.len() == 1 && (s[0] == '+' || s[0] == '-')),
    ensures
        decimal_value(s) is None,
        decimal_i16(s) is None,
{
    if 0 <= i < s.len() {
        assert(!is_digit(s[i]));
        if s[0] == '+' || s[0] == '-' {
            assert(i > 0);
            assert(s.drop_first()[i - 1] == s[i]);
            assert(!all_digits(s.drop_first()));
            assert(decimal_value(s) is None);
        } else {
            assert(!all_digits(s));
            assert(decimal_value(s) is None);
        }
    } else if s.len() == 1 {
        assert(s.drop_first().len() == 0);
        assert(decimal_value(s) is None);
    } else {
        assert(decimal_value(s) is None);
    }
}

/// A text reads as an `i16` exactly when its decimal value is within the
/// `i16` range, and then as that value.
pub proof fn law_i16_range(s: Seq<char>, v: i16)
    ensures
        decimal_i16(s) == Some(v) <==> decimal_value(s) == Some(v as int),
        decimal_value(s) matches Some(w) && (w < i16::MIN || w > i16::MAX) ==> decimal_i16(s) is None,
{
}

/// Reads `s` as a decimal `i16`: an optional sign, then digits only.
pub fn parse_decimal_i16(s: &str) -> (r: Option<i16>)
    ensures
        r == decimal_i16(s@),
{
    let n = s.unicode_len();
    if n == 0 {
        return None;
    }
    let first = s.get_char(0);
    let negative = first == '-';
    let start: usize = if first == '+' || first == '-' { 1 } else { 0 };
    if start == n {
        assert(s@.drop_first().len() == 0);
        return None;
    }
    let ghost digits = s@.subrange(start as int, n as int);
    proof {
        if start == 1 {
            assert(digits =~= s@.drop_first());
        } else {
            assert(digits =~= s@);
        }
        assert(digits.len() > 0);
    }
    let mut acc: u32 = 0;
    let mut i: usize = start;
    while i < n
        invariant
            start <= i <= n,
            start < n,
            n == s@.len(),
            digits == s@.subrange(start as int, n as int),
            decimal_value(s@) == (if all_digits(digits) {
                Some(if negative { -digits_value(digits) } else { digits_value(digits) })
            } else {
                None::<int>
            }),
            acc <= 32768,
            all_digits(s@.subrange(start as int, i as int)),
            acc == digits_value(s@.subrange(start as int, i as int)),
        decreases n - i,
    {
        let c = s.get_char(i);
        if !('0' <= c && c <= '9') {
            proof {
                assert(digits[i - start] == c);
                assert(!all_digits(digits));
            }
            return None;
        }
        let d: u32 = (c as u32) - ('0' as u32);
        let ghost before = s@.subrange(start as int, i as int);
        let ghost after = s@.subrange(start as int, i + 1);
        proof {
            assert(after.drop_last() =~= before);
            assert(after.last() == c);
            assert(all_digits(after)) by {
                assert forall|j: int| 0 <= j < after.len() implies is_digit(#[trigger] after[j]) by {
                    if j < before.len() {
                        assert(after[j] == before[j]);
                    }
                }
            }
        }
        let next: u32 = acc * 10 + d;
        if next > 32768 {
            proof {
                if all_digits(digits) {
                    assert(digits.take(i + 1 - start) =~= after);
                    lemma_digits_value_prefix(digits, i + 1 - start);
                }
            }
            return None;
        }
        acc = next;
        i = i + 1;
    }
    proof {
        assert(s@.subrange(start as int, i as int) =~= digits);
    }
    if negative {
        let v: i32 = 0 - (acc as i32);
        Some(v as i16)
    } else if acc > 32767 {
        None
    } else {
        Some(acc as i16)
    }
}

/// The view of an optional field.
pub open spec fn field_view(field: Option<&str>) -> Option<Seq<char>> {
    match field {
        Some(s) => Some(s@),
        None => None,
    }
}

/// How an optional field reads as an optional `i16`: a missing or empty
/// field is `Some(None)`, a well-formed one `Some(Some(v))`, and a malformed
/// one `None`.
pub open spec fn field_i16(field: Option<Seq<char>>) -> Option<Option<i16>> {
    match field {
        None => Some(None),
        Some(s) => if s.len() == 0 {
            Some(None)
        } else {
            match decimal_i16(s) {
                Some(v) => Some(Some(v)),
                None => None,
            }
        },
    }
}

/// Reads an optional field as an optional `i16`. A missing or empty field
/// gives `Ok(None)`; a field that is not a decimal `i16` gives the error.
pub fn parse_i16(input: Option<&str>) -> (r: Result<Option<i16>, &'static str>)
    ensures
        match field_i16(field_view(input)) {
            Some(v) => r == Ok::<Option<i16>, &'static str>(v),
            None => r matches Err(e) && e@ == INT_FIELD_ERROR@,
        },
        match input {
            None => r == Ok::<Option<i16>, &'static str>(None),
            Some(s) => if s@.len() == 0 {
                r == Ok::<Option<i16>, &'static str>(None)
            } else {
                match decimal_i16(s@) {
                    Some(v) => r == Ok::<Option<i16>, &'static str>(Some(v)),
                    None => r matches Err(e) && e@ == INT_FIELD_ERROR@,
                }
            },
        },
{
    match input {
        None => Ok(None),
        Some(s) => {
            if s.unicode_len() == 0 {
                Ok(None)
            } else {
                match parse_decimal_i16(s) {
                    Some(v) => Ok(Some(v)),
                    None => Err(INT_FIELD_ERROR),
                }
            }
        },
    }
}

/// What `parse_i16` answers for a present, non-empty field is what the
/// field reads as in decimal: its value where it is a decimal `i16`, the
/// error where it is not.
pub proof fn law_parse_i16_present(s: &str, r: Result<Option<i16>, &'static str>)
    requires
        call_ensures(parse_i16, (Some(s),), r),
        s@.len() > 0,
    ensures
        forall|v: i16| decimal_i16(s@) == Some(v) <==> r == Ok::<Option<i16>, &'static str>(Some(v)),
        decimal_i16(s@) is None <==> r is Err,
{
}

/// A missing or empty field reads as `Ok(None)`.
pub proof fn law_parse_i16_absent(input: Option<&str>, r: Result<Option<i16>, &'static str>)
    requires
        call_ensures(parse_i16, (input,), r),
        input matches Some(s) ==> s@.len() == 0,
    ensures
        r == Ok::<Option<i16>, &'static str>(None),
{
}

} // verus!
