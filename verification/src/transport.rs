//! What a host receives when the result of a query has been put into text.

use vstd::prelude::*;

verus! {

/// The text of an empty list.
pub open spec fn empty_list() -> Seq<char> {
    seq!['[', ']']
}

/// The text to hand to the host, given the outcome of encoding a query's
/// result: the encoded text, or the text of an empty list if encoding
/// failed. A failure is not passed on, so the host cannot tell it from a
/// query that found nothing.
pub fn encoded_or_empty<E>(encoded: Result<String, E>) -> (text: String)
    ensures
        text@ == (match encoded {
            Ok(list) => list@,
            Err(_) => empty_list(),
        }),
{
    match encoded {
        Ok(list) => list,
        Err(_) => {
            proof {
                reveal_strlit("[]");
            }
            "[]".to_owned()
        },
    }
}

} // verus!
