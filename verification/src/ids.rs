//! Ids as text: the hyphenated form of a universally unique identifier.
use crate::types::{ExecutionId, ExternalTarget};
use vstd::arithmetic::power::pow;
use vstd::prelude::*;

verus! {

/// A lower-case hexadecimal digit.
pub open spec fn hex_digit(n: int) -> char {
    if n < 10 {
        ('0' as int + n) as char
    } else {
        ('a' as int + n - 10) as char
    }
}

/// How many hyphens stand before position `i` of a hyphenated id.
pub open spec fn hyphens_before(i: int) -> int {
    if i <= 8 {
        0
    } else if i <= 13 {
        1
    } else if i <= 18 {
        2
    } else if i <= 23 {
        3
    } else {
        4
    }
}

/// The hyphenated form of an id: its 32 hexadecimal digits, most significant
/// first and in lower case, in groups of 8, 4, 4, 4 and 12.
pub open spec fn hyphenated(id: u128) -> Seq<char> {
    Seq::new(
        36,
        |i: int|
            if i == 8 || i == 13 || i == 18 || i == 23 {
                '-'
            } else {
                hex_digit((id as int / pow(16, (31 - (i - hyphens_before(i))) as nat)) % 16)
            },
    )
}

/// The id that a text denotes, where it denotes one.
pub uninterp spec fn parsed_id(text: Seq<char>) -> Option<u128>;

/// `Uuid::from_u128` and the `Display` of `Uuid`: the hyphenated form of the
/// number, most significant digit first.
#[verifier::external_body]
pub(crate) fn id_text(id: u128) -> (r: String)
    ensures
        r@ == hyphenated(id),
{
    uuid::Uuid::from_u128(id).to_string()
}

/// `Uuid`'s `FromStr`: accepts the plain, hyphenated, braced and URN forms in
/// either case, and rejects any other text. Which text gives which id is named
/// [`parsed_id`]; of the forms, the contract states the hyphenated one, which
/// gives the id back.
#[verifier::external_body]
pub(crate) fn parse_id(text: &str) -> (r: Option<u128>)
    ensures
        r == parsed_id(text@),
        forall|id: u128| text@ == #[trigger] hyphenated(id) ==> r == Some(id),
{
    match text.parse::<uuid::Uuid>() {
        Ok(id) => Some(id.as_u128()),
        Err(_) => None,
    }
}

/// A workflow execution as text.
pub open spec fn execution_text(id: ExecutionId) -> Seq<char> {
    hyphenated(id.0)
}

/// The target of an external signal or cancel as text.
pub open spec fn target_text(target: ExternalTarget) -> Seq<char> {
    match target {
        ExternalTarget::ExecutionId(id) => execution_text(id),
    }
}

/// Assembles [`target_text`].
pub(crate) fn show_target(target: &ExternalTarget) -> (r: String)
    ensures
        r@ == target_text(*target),
{
    match target {
        ExternalTarget::ExecutionId(id) => id_text(id.0),
    }
}

} // verus!
