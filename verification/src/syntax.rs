//! What a parsed file costs on the heap: its green tree and its errors.

use rowan::{GreenNode, TextRange};
use std::marker::PhantomData;
use std::ops::Deref;
use triomphe::Arc;
use vstd::prelude::*;

use crate::containers::{pointee, shared, shares_one_value, slice, slice_bytes};
use crate::green::{green_bytes, green_tree, root_of, subtrees, tree_of};
use crate::sharing::law_a_larger_tree_weighs_more;
use crate::weight::{added, charge_of, plus, reports};

verus! {

/// `rowan::TextRange`, carried as an opaque value.
#[verifier::external_type_specification]
#[verifier::external_body]
pub struct ExTextRange(TextRange);

/// A syntax error: what is wrong, and where.
pub struct SyntaxError {
    pub message: String,
    pub range: TextRange,
}

/// A parsed file: its tree, and the errors found on the way.
#[verifier::reject_recursive_types(T)]
pub struct Parse<T> {
    pub green: Option<GreenNode>,
    pub errors: Option<Arc<[SyntaxError]>>,
    pub ty: PhantomData<T>,
}

/// What a parsed file weighs: its tree, and its list of errors by length.
pub open spec fn parse_bytes<T>(parsed: &Parse<T>) -> nat {
    let green = match parsed.green {
        Some(green) => green_bytes(tree_of(&root_of(&green))),
        None => 0,
    };
    let errors = match parsed.errors {
        Some(errors) => slice_bytes(pointee(&errors)),
        None => 0,
    };
    green + errors
}

/// The heap of a parsed file.
///
/// The error list is owned by the parse rather than shared with whoever asks for
/// the errors later, so counting it here is not a double count.
pub fn parse<T>(parsed: &Parse<T>) -> (r: Option<usize>)
    ensures
        reports(r, parse_bytes(parsed)),
        r == added(
            match parsed.green {
                Some(green) => charge_of(green_bytes(tree_of(&root_of(&green)))),
                None => Some(0usize),
            },
            match parsed.errors {
                Some(errors) => charge_of(
                    pointee(&errors)@.len() * vstd::layout::size_of::<SyntaxError>(),
                ),
                None => Some(0usize),
            },
        ),
        parsed.green matches Some(green) ==> tree_of(&root_of(&green)) is Node && tree_of(
            &root_of(&green),
        )->node == root_of(&green),
        parsed.errors matches Some(errors) ==> shares_one_value(&errors),
{
    let green = match &parsed.green {
        Some(green) => green_tree(green.deref()),
        None => Some(0),
    };
    let errors = match &parsed.errors {
        Some(errors) => slice(shared(errors)),
        None => Some(0),
    };
    plus(green, errors)
}

/// More code costs more: a parse whose tree holds another's, and more, weighs
/// more than the other, where their errors are the same.
pub proof fn law_more_code_costs_more<T>(
    small: Parse<T>,
    large: Parse<T>,
    inner: GreenNode,
    outer: GreenNode,
)
    requires
        small.green == Some(inner),
        large.green == Some(outer),
        small.errors == large.errors,
        subtrees(tree_of(&root_of(&outer))).contains(tree_of(&root_of(&inner))),
        tree_of(&root_of(&outer)) != tree_of(&root_of(&inner)),
    ensures
        parse_bytes(&small) < parse_bytes(&large),
{
    law_a_larger_tree_weighs_more(tree_of(&root_of(&outer)), tree_of(&root_of(&inner)));
}

/// Nothing parsed weighs nothing, a tree weighs what the tree weighs, and a list
/// of errors comes on top of any tree by its length, however long it is.
pub proof fn law_a_parse_weighs_its_tree_and_its_errors<T>(
    parsed: Parse<T>,
    green: GreenNode,
    errors: Arc<[SyntaxError]>,
)
    ensures
        parse_bytes(&Parse { green: None, errors: None, ..parsed }) == 0,
        parse_bytes(&Parse { green: Some(green), errors: None, ..parsed }) == green_bytes(
            tree_of(&root_of(&green)),
        ),
        parse_bytes(&Parse { errors: Some(errors), ..parsed }) == parse_bytes(
            &Parse { errors: None, ..parsed },
        ) + pointee(&errors)@.len() * vstd::layout::size_of::<SyntaxError>(),
{
}

/// Errors of one more parse add what they are: two parses of the same tree weigh
/// apart by as many errors as their lists differ in.
pub proof fn law_more_errors_cost_more<T>(
    parsed: Parse<T>,
    fewer: Arc<[SyntaxError]>,
    more: Arc<[SyntaxError]>,
)
    requires
        pointee(&fewer)@.len() <= pointee(&more)@.len(),
    ensures
        parse_bytes(&Parse { errors: Some(more), ..parsed }) - parse_bytes(
            &Parse { errors: Some(fewer), ..parsed },
        ) == (pointee(&more)@.len() - pointee(&fewer)@.len()) * vstd::layout::size_of::<SyntaxError>(),
{
    law_a_parse_weighs_its_tree_and_its_errors(
        parsed,
        arbitrary(),
        fewer,
    );
    law_a_parse_weighs_its_tree_and_its_errors(
        parsed,
        arbitrary(),
        more,
    );
    let (a, b, size) = (
        pointee(&fewer)@.len() as int,
        pointee(&more)@.len() as int,
        vstd::layout::size_of::<SyntaxError>() as int,
    );
    assert(b * size - a * size == (b - a) * size) by (nonlinear_arith);
}

} // verus!
