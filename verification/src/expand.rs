//! What a memoized macro expansion costs on the heap.

use rowan::TextSize;
use vstd::prelude::*;

use crate::containers::{shares_one_value, slice};
use crate::syntax::{parse, parse_bytes, Parse};
use crate::weight::{added, charge_of, plus, reports};

verus! {

/// `rowan::TextSize`, carried as an opaque value.
#[verifier::external_type_specification]
#[verifier::external_body]
pub struct ExTextSize(TextSize);

/// Where each stretch of an expansion comes from, by the offset it ends at.
pub struct ExpansionSpanMap<S> {
    pub spans: Vec<(TextSize, S)>,
}

/// The result of an expansion, and what went wrong on the way.
pub struct ExpandResult<T, E> {
    pub value: T,
    pub err: Option<E>,
}

/// What a span map weighs: its entries by number, without spare room.
pub open spec fn span_map_bytes<S>(span_map: &ExpansionSpanMap<S>) -> nat {
    span_map.spans@.len() * vstd::layout::size_of::<(TextSize, S)>()
}

/// The heap of a span map.
pub fn span_map_heap<S>(span_map: &ExpansionSpanMap<S>) -> (r: Option<usize>)
    ensures
        r is Some,
        reports(r, span_map.spans@.len() * vstd::layout::size_of::<(TextSize, S)>()),
        reports(r, span_map_bytes(span_map)),
{
    slice(span_map.spans.as_slice())
}

/// What an expansion weighs: what was parsed, and where it comes from.
pub open spec fn expansion_bytes<T, S, E>(
    value: &ExpandResult<(Parse<T>, ExpansionSpanMap<S>), E>,
) -> nat {
    parse_bytes(&value.value.0) + span_map_bytes(&value.value.1)
}

/// The heap of an expansion.
///
/// The error half is not counted: it is shared with whoever else observed the
/// same failure, and charging it here would count one allocation twice.
pub fn parse_macro_expansion<T, S, E>(
    value: &ExpandResult<(Parse<T>, ExpansionSpanMap<S>), E>,
) -> (r: Option<usize>)
    ensures
        reports(r, expansion_bytes(value)),
        r == added(
            charge_of(parse_bytes(&value.value.0)),
            charge_of(value.value.1.spans@.len() * vstd::layout::size_of::<(TextSize, S)>()),
        ),
        value.value.0.errors matches Some(errors) ==> shares_one_value(&errors),
{
    plus(parse(&value.value.0), span_map_heap(&value.value.1))
}

/// An expansion does not pay for its error, whatever it is.
pub proof fn law_the_error_is_free<T, S, E>(
    value: ExpandResult<(Parse<T>, ExpansionSpanMap<S>), E>,
    other_err: Option<E>,
)
    ensures
        expansion_bytes(&ExpandResult { err: other_err, ..value }) == expansion_bytes(&value),
{
}

/// An expansion weighs what its parse weighs, the errors of the parse included,
/// and its spans by number, and nothing else.
pub proof fn law_an_expansion_weighs_its_parse_and_its_spans<T, S, E>(
    value: &ExpandResult<(Parse<T>, ExpansionSpanMap<S>), E>,
)
    ensures
        span_map_bytes(&value.value.1) == value.value.1.spans@.len() * vstd::layout::size_of::<
            (TextSize, S),
        >(),
        expansion_bytes(value) == parse_bytes(&value.value.0) + value.value.1.spans@.len()
            * vstd::layout::size_of::<(TextSize, S)>(),
{
}

/// Two expansions with the same spans weigh as far apart as their parses do.
pub proof fn law_expansions_differ_as_their_parses_do<T, S, E>(
    a: &ExpandResult<(Parse<T>, ExpansionSpanMap<S>), E>,
    b: &ExpandResult<(Parse<T>, ExpansionSpanMap<S>), E>,
)
    requires
        a.value.1.spans@.len() == b.value.1.spans@.len(),
    ensures
        expansion_bytes(a) - expansion_bytes(b) == parse_bytes(&a.value.0) - parse_bytes(
            &b.value.0,
        ),
{
}

} // verus!
