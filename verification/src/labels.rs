use vstd::prelude::*;

verus! {

/// How many classes the network scores.
pub const LABEL_COUNT: usize = 5;

/// The fixed label table: output index `i` of the network always means
/// `spec_label(i)`.  An index past the table falls back to "unknown".
pub open spec fn spec_label(i: int) -> Seq<char> {
    if i == 0 {
        "daisy"@
    } else if i == 1 {
        "dandelion"@
    } else if i == 2 {
        "rose"@
    } else if i == 3 {
        "sunflower"@
    } else if i == 4 {
        "tulip"@
    } else {
        "unknown"@
    }
}

/// The label for output index `i`, "unknown" past the table.
pub fn label_for(i: usize) -> (r: String)
    ensures
        r@ == spec_label(i as int),
{
    if i == 0 {
        "daisy".to_owned()
    } else if i == 1 {
        "dandelion".to_owned()
    } else if i == 2 {
        "rose".to_owned()
    } else if i == 3 {
        "sunflower".to_owned()
    } else if i == 4 {
        "tulip".to_owned()
    } else {
        "unknown".to_owned()
    }
}

} // verus!
