//! Reading the bot's settings.
use vstd::prelude::*;

verus! {

/// The texts that a yes/no setting reads as yes.
pub open spec fn truthy(value: Seq<char>) -> bool {
    value == "1"@ || value == "true"@ || value == "True"@
}

/// A yes/no setting: "1", "true" and "True" mean yes, anything else no.
pub fn into_bool(value: String) -> (r: bool)
    ensures
        r == truthy(value@),
{
    let possible_boolean_trues = vec![
        String::from_str("1"),
        String::from_str("true"),
        String::from_str("True"),
    ];
    let mut i: usize = 0;
    while i < possible_boolean_trues.len()
        invariant
            i <= possible_boolean_trues@.len(),
            possible_boolean_trues@.len() == 3,
            possible_boolean_trues@[0]@ == "1"@,
            possible_boolean_trues@[1]@ == "true"@,
            possible_boolean_trues@[2]@ == "True"@,
            forall|j: int| 0 <= j < i ==> possible_boolean_trues@[j]@ != value@,
        decreases possible_boolean_trues@.len() - i,
    {
        if possible_boolean_trues[i] == value {
            return true;
        }
        i = i + 1;
    }
    false
}

} // verus!
