//! The generated configuration and the persisted current-theme marker.

use vstd::prelude::*;
use vstd::string::StringExecFns;

verus! {

/// Name of the marker file, under the configuration root, that records the
/// current theme.
pub const MARKER_FILE_NAME: &'static str = "curr_color";

/// The generated configuration: the base fragment followed by the theme's
/// content, byte for byte, with nothing inserted between them.
pub fn compose_config(base: &str, theme: &str) -> (r: String)
    ensures
        r@ == base@ + theme@,
{
    let out = base.to_owned();
    out.concat(theme)
}

/// The current theme at startup from what reading the marker file gave:
/// an unreadable or missing marker means no prior selection, the empty name.
pub fn current_theme_from(marker: Option<String>) -> (r: String)
    ensures
        marker.is_none() ==> r@ == Seq::<char>::empty(),
        marker.is_some() ==> r@ == marker.unwrap()@,
{
    match marker {
        Some(s) => s,
        None => String::new(),
    }
}

} // verus!
