//! Dashboard interaction state: the input modes of the terminal front end
//! and the wrap-around arithmetic of its site-list selection. The drawing
//! itself lives with the embedding application.

use vstd::prelude::*;

verus! {

/// What the dashboard's key handler is currently collecting.
#[derive(Debug, Clone, Copy, PartialEq, Eq, Structural)]
pub enum InputMode {
    /// Keys navigate and trigger commands.
    Normal,
    /// Collecting the URL of a site to add.
    AddUrl,
    /// Collecting the display name of a site to add.
    AddName,
    /// Collecting the optional CSS selector of a site to add.
    AddSelector,
    /// Collecting the notification token.
    SetToken,
    /// The help screen is shown; any key closes it.
    Help,
}

/// The selection one step down a list of `len` entries, wrapping from the
/// last entry to the first; an empty or unset selection lands on the
/// first entry.
pub fn next_index(selected: Option<usize>, len: usize) -> (r: usize)
    ensures
        selected is None ==> r == 0,
        selected is Some && selected.unwrap() + 1 >= len ==> r == 0,
        selected is Some && selected.unwrap() + 1 < len ==> r == selected.unwrap() + 1,
{
    match selected {
        None => 0,
        Some(i) => {
            if len == 0 || i >= len - 1 {
                0
            } else {
                i + 1
            }
        },
    }
}

/// The selection one step up, wrapping from the first entry to the last;
/// an empty list or an unset selection lands on the first entry.
pub fn previous_index(selected: Option<usize>, len: usize) -> (r: usize)
    ensures
        selected is None ==> r == 0,
        selected is Some && selected.unwrap() == 0 && len == 0 ==> r == 0,
        selected is Some && selected.unwrap() == 0 && len > 0 ==> r == len - 1,
        selected is Some && selected.unwrap() > 0 ==> r == selected.unwrap() - 1,
{
    match selected {
        None => 0,
        Some(i) => {
            if i == 0 {
                if len == 0 {
                    0
                } else {
                    len - 1
                }
            } else {
                i - 1
            }
        },
    }
}

} // verus!
