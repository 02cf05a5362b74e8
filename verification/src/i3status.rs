//! Status-bar output block for i3status / waybar style bars.

use vstd::prelude::*;

verus! {

/// One block of custom status-bar output: the visible text plus an optional
/// tooltip and CSS class.
pub struct CustomBarStatus {
    pub text: String,
    pub tooltip: String,
    pub class: String,
}

impl CustomBarStatus {
    /// A status block that shows `text` and nothing else.
    pub fn new(text: String) -> (r: Self)
        ensures
            r.text == text,
            r.tooltip@ == Seq::<char>::empty(),
            r.class@ == Seq::<char>::empty(),
    {
        Self { text, tooltip: String::new(), class: String::new() }
    }
}

} // verus!
