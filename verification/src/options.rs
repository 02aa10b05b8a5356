//! What the command line asks for.
use vstd::prelude::*;

verus! {

/// A month selection that the command line accepts: none, or a month from 1 to 12.
pub open spec fn valid_month_selection(month: Option<u8>) -> bool {
    match month {
        Some(m) => 1 <= m <= 12,
        None => true,
    }
}

/// The options of a conversion: the workbook to read, where to write the
/// payload (standard output when `None`), and the month to limit it to.
pub struct Options {
    pub input: String,
    pub output: Option<String>,
    pub month: Option<u8>,
}

impl Options {
    /// The options for the given paths and month selection, or `None` where the
    /// month lies outside 1..=12.
    pub fn new(input: String, output: Option<String>, month: Option<u8>) -> (r: Option<Options>)
        ensures
            match r {
                Some(o) => valid_month_selection(month) && o.input@ == input@
                    && crate::payload::types::opt_text(o.output) == crate::payload::types::opt_text(output)
                    && o.month == month,
                None => !valid_month_selection(month),
            },
    {
        match month {
            Some(m) => if m < 1 || m > 12 {
                return None;
            },
            None => {},
        }
        Some(Options { input, output, month })
    }
}

} // verus!
