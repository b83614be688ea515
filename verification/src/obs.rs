//! The three-axis readings of an `OBS` sentence.
use vstd::prelude::*;
use crate::common::{decimal_i16, field_i16, parse_i16, INT_FIELD_ERROR};
use crate::fields::Fields;

verus! {

/// A reading along three axes.
#[derive(Debug, PartialEq, Clone)]
pub struct Dim3 {
    pub x: i16,
    pub y: i16,
    pub z: i16,
}

/// The `i`-th of the fields, where there is one.
pub open spec fn nth_field(fields: Seq<Seq<char>>, i: int) -> Option<Seq<char>> {
    if 0 <= i < fields.len() {
        Some(fields[i])
    } else {
        None
    }
}

/// What reading a `Dim3` from `fields` gives: `None` where a field is
/// malformed, `Some(None)` where a field is missing or empty, and the
/// reading otherwise.
pub open spec fn dim3_outcome(fields: Seq<Seq<char>>) -> Option<Option<Dim3>> {
    let x = field_i16(nth_field(fields, 0));
    let y = field_i16(nth_field(fields, 1));
    let z = field_i16(nth_field(fields, 2));
    if x is None || y is None || z is None {
        None
    } else {
        match (x->0, y->0, z->0) {
            (Some(x), Some(y), Some(z)) => Some(Some(Dim3 { x, y, z })),
            _ => Some(None),
        }
    }
}

/// How many fields reading a `Dim3` uses up: three, or up to and including
/// the first malformed one, and never more than there are.
pub open spec fn dim3_consumed(fields: Seq<Seq<char>>) -> int {
    let taken: int = if field_i16(nth_field(fields, 0)) is None {
        1
    } else if field_i16(nth_field(fields, 1)) is None {
        2
    } else {
        3
    };
    if taken <= fields.len() {
        taken
    } else {
        fields.len() as int
    }
}

impl Dim3 {
    /// Reads the next three fields as the `x`, `y` and `z` of a reading.
    /// A malformed field is an error, and reading stops after it; a missing
    /// or empty field gives `Ok(None)`.
    pub fn parse<'a>(fields: &mut Fields<'a>) -> (r: Result<Option<Self>, &'static str>)
        ensures
            final(fields)@ == old(fields)@.skip(dim3_consumed(old(fields)@)),
            match dim3_outcome(old(fields)@) {
                Some(v) => r == Ok::<Option<Dim3>, &'static str>(v),
                None => r matches Err(e) && e@ == INT_FIELD_ERROR@,
            },
            // three well-formed fields give the reading they spell
            old(fields)@.len() >= 3 && old(fields)@[0].len() > 0 && decimal_i16(old(fields)@[0]) is Some
                && old(fields)@[1].len() > 0 && decimal_i16(old(fields)@[1]) is Some
                && old(fields)@[2].len() > 0 && decimal_i16(old(fields)@[2]) is Some ==> r == Ok::<
                Option<Dim3>,
                &'static str,
            >(
                Some(
                    (Dim3 {
                        x: decimal_i16(old(fields)@[0])->0,
                        y: decimal_i16(old(fields)@[1])->0,
                        z: decimal_i16(old(fields)@[2])->0,
                    }),
                ),
            ) && final(fields)@ == old(fields)@.skip(3),
            // a malformed first field is the error, and only it is used up
            old(fields)@.len() >= 1 && old(fields)@[0].len() > 0 && decimal_i16(old(fields)@[0]) is None
                ==> (r matches Err(e) && e@ == INT_FIELD_ERROR@) && final(fields)@ == old(fields)@.skip(1),
            // a malformed second field after an empty or well-formed first one
            old(fields)@.len() >= 2 && (old(fields)@[0].len() == 0 || decimal_i16(old(fields)@[0]) is Some)
                && old(fields)@[1].len() > 0 && decimal_i16(old(fields)@[1]) is None ==> (r matches Err(e)
                && e@ == INT_FIELD_ERROR@) && final(fields)@ == old(fields)@.skip(2),
            // a malformed third field after two empty or well-formed ones
            old(fields)@.len() >= 3 && (old(fields)@[0].len() == 0 || decimal_i16(old(fields)@[0]) is Some)
                && (old(fields)@[1].len() == 0 || decimal_i16(old(fields)@[1]) is Some)
                && old(fields)@[2].len() > 0 && decimal_i16(old(fields)@[2]) is None ==> (r matches Err(e)
                && e@ == INT_FIELD_ERROR@) && final(fields)@ == old(fields)@.skip(3),
            // no malformed field among the first three, but one missing or empty
            (forall|i: int|
                0 <= i < 3 && i < old(fields)@.len() ==> #[trigger] old(fields)@[i].len() == 0
                    || decimal_i16(old(fields)@[i]) is Some) && (old(fields)@.len() < 3
                || old(fields)@[0].len() == 0 || old(fields)@[1].len() == 0 || old(fields)@[2].len() == 0)
                ==> r == Ok::<Option<Dim3>, &'static str>(None) && final(fields)@ == old(fields)@.skip(
                if old(fields)@.len() < 3 { old(fields)@.len() as int } else { 3 },
            ),
    {
        let ghost f = fields@;
        let x = parse_i16(fields.next())?;
        let y = parse_i16(fields.next())?;
        let z = parse_i16(fields.next())?;
        proof {
            assert(f.skip(dim3_consumed(f)) =~= fields@);
        }
        if let (Some(x), Some(y), Some(z)) = (x, y, z) {
            return Ok(Some(Dim3 { x, y, z }));
        } else {
            return Ok(None);
        }
    }
}

/// A field that is present, non-empty and a decimal `i16`.
pub open spec fn well_formed_i16(field: Seq<char>) -> bool {
    field.len() > 0 && decimal_i16(field) is Some
}

/// Three well-formed fields give the reading they spell, with the first as
/// `x`, the second as `y` and the third as `z`, whatever the values (zeros
/// included), and exactly those three fields are used up.
pub proof fn law_dim3_reads_values<'a>(
    fields: &mut Fields<'a>,
    r: Result<Option<Dim3>, &'static str>,
)
    requires
        call_ensures(Dim3::parse, (fields,), r),
        old(fields)@.len() >= 3,
        well_formed_i16(old(fields)@[0]),
        well_formed_i16(old(fields)@[1]),
        well_formed_i16(old(fields)@[2]),
    ensures
        r == Ok::<Option<Dim3>, &'static str>(
            Some(
                (Dim3 {
                    x: decimal_i16(old(fields)@[0])->0,
                    y: decimal_i16(old(fields)@[1])->0,
                    z: decimal_i16(old(fields)@[2])->0,
                }),
            ),
        ),
        final(fields)@ == old(fields)@.skip(3),
{
}

/// A malformed field among the first three makes the reading fail with the
/// integer-field error, wherever it stands.
pub proof fn law_dim3_malformed_is_error<'a>(
    fields: &mut Fields<'a>,
    r: Result<Option<Dim3>, &'static str>,
    i: int,
)
    requires
        call_ensures(Dim3::parse, (fields,), r),
        0 <= i < 3,
        i < old(fields)@.len(),
        old(fields)@[i].len() > 0,
        decimal_i16(old(fields)@[i]) is None,
    ensures
        r matches Err(e) && e@ == INT_FIELD_ERROR@,
{
    let f = old(fields)@;
    if f[0].len() > 0 && decimal_i16(f[0]) is None {
    } else if f[1].len() > 0 && decimal_i16(f[1]) is None {
    } else {
        assert(i == 2);
    }
}

/// With no malformed field among the first three, a missing or empty one
/// makes the reading `None` rather than an error.
pub proof fn law_dim3_missing_is_none<'a>(
    fields: &mut Fields<'a>,
    r: Result<Option<Dim3>, &'static str>,
    i: int,
)
    requires
        call_ensures(Dim3::parse, (fields,), r),
        forall|j: int|
            0 <= j < 3 && j < old(fields)@.len() ==> #[trigger] old(fields)@[j].len() == 0
                || decimal_i16(old(fields)@[j]) is Some,
        0 <= i < 3,
        i >= old(fields)@.len() || old(fields)@[i].len() == 0,
    ensures
        r == Ok::<Option<Dim3>, &'static str>(None),
{
    let f = old(fields)@;
    if f.len() >= 3 {
        assert(f[0].len() == 0 || decimal_i16(f[0]) is Some);
        assert(f[i].len() == 0);
    }
}

} // verus!
