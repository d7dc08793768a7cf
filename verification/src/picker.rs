//! The picker's row and action types, its `matches / total` counter, and the
//! decisions behind each frame: what a row reads, what the empty list says,
//! and what the insert button does.

use vstd::prelude::*;
use vstd::string::*;
use crate::text::{decimal, push_decimal};

verus! {

/// One result row's display strings.
pub struct Row {
    pub name: String,
    pub location: String,
}

/// What the user did this frame in the picker.
pub enum Action {
    /// Nothing this frame.
    Idle,
    /// Insert the row at this index.
    Accept(usize),
    /// Dismiss the picker.
    Close,
}

/// The counter text for `matches` out of `total`.
pub open spec fn counter_spec(matches: nat, total: nat) -> Seq<char> {
    decimal(matches) + " / "@ + decimal(total)
}

/// The `matches / total` counter text.
pub fn counter_text(matches: usize, total: usize) -> (r: String)
    ensures
        r@ == counter_spec(matches as nat, total as nat),
{
    let mut s = String::new();
    push_decimal(&mut s, matches as u64);
    s.append(" / ");
    push_decimal(&mut s, total as u64);
    assert(s@ =~= counter_spec(matches as nat, total as nat));
    s
}

/// The dim text after a row's name: its location, set off by four spaces;
/// nothing for a row without one.
pub open spec fn suffix_spec(location: Seq<char>) -> Seq<char> {
    if location.len() == 0 {
        Seq::empty()
    } else {
        "    "@ + location
    }
}

/// The dim text shown after `row`'s name.
pub fn row_suffix(row: &Row) -> (r: String)
    ensures
        r@ == suffix_spec(row.location@),
{
    if crate::text::chars_of(row.location.as_str()).len() == 0 {
        String::new()
    } else {
        let mut s = String::from_str("    ");
        s.append(row.location.as_str());
        proof {
            reveal_strlit("    ");
        }
        s
    }
}

/// What the result list shows in place of rows: a note when nothing is
/// indexed, another when nothing matches, none when there are rows.
pub open spec fn note_spec(total: nat, rows: nat) -> Option<Seq<char>> {
    if total == 0 {
        Some("no files indexed"@)
    } else if rows == 0 {
        Some("no matches"@)
    } else {
        None
    }
}

/// The note the result list shows for an index of `total` files and `rows`
/// shown rows.
pub fn empty_note(total: usize, rows: usize) -> (r: Option<String>)
    ensures
        match r {
            Some(t) => note_spec(total as nat, rows as nat) == Some(t@),
            None => note_spec(total as nat, rows as nat) is None,
        },
{
    if total == 0 {
        Some(String::from_str("no files indexed"))
    } else if rows == 0 {
        Some(String::from_str("no matches"))
    } else {
        None
    }
}

/// The insert button (or Enter): accept the selected row, unless there are
/// no rows.
pub fn insert_pressed(rows: usize, selected: usize) -> (r: Action)
    ensures
        rows == 0 ==> r is Idle,
        rows > 0 ==> r == Action::Accept(selected),
{
    if rows == 0 {
        Action::Idle
    } else {
        Action::Accept(selected)
    }
}

} // verus!
