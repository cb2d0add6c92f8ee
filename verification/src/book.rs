//! A user's journal of positions, as the bot keeps it in the user's database:
//! the list of positions and the index of the one selected for editing.
use vstd::prelude::*;
use vstd::string::*;

use crate::position::{IndexedPosition, Position, PositionView};
use crate::text::{push_str};

verus! {

/// What the user's database holds that the journal reads: the value under
/// `edit_id` (where it is an `i32`) and the items of the list `positions`,
/// each a position or `None` where the stored item is not one.
pub struct OptionsBook {
    pub edit_id: Option<i32>,
    pub positions: Vec<Option<Position>>,
}

/// The mathematical value of an [`OptionsBook`].
pub struct BookView {
    pub edit_id: Option<i32>,
    pub positions: Seq<Option<PositionView>>,
}

/// The value of a stored item.
pub open spec fn slot_view(s: Option<Position>) -> Option<PositionView> {
    match s {
        Some(p) => Some(p@),
        None => None,
    }
}

/// The values of a list of stored items.
pub open spec fn slot_views(s: Seq<Option<Position>>) -> Seq<Option<PositionView>> {
    s.map_values(|x: Option<Position>| slot_view(x))
}

impl View for OptionsBook {
    type V = BookView;

    open spec fn view(&self) -> BookView {
        BookView { edit_id: self.edit_id, positions: slot_views(self.positions@) }
    }
}

/// The text of an error of the selection.
pub open spec fn no_edit_id_text() -> Seq<char> {
    "Failed to retrieve edit_id"@
}

/// The text for a book with no position selected.
pub open spec fn nothing_selected_text() -> Seq<char> {
    "No open position selected"@
}

/// The text for a selection past the end of the list.
pub open spec fn invalid_selection_text() -> Seq<char> {
    "Invalid selection"@
}

/// The text for a selected item that cannot be read as a position.
pub open spec fn unreadable_position_text() -> Seq<char> {
    "Failed to retrieve position"@
}

/// The selected position and its index, or the text of the error: no
/// `edit_id`; `-1` (nothing selected); an index at or past the end of the
/// list (the length taken as an `i32`); any other index that is not an item
/// of the list or whose item is not a position.
pub open spec fn spec_selected(b: BookView) -> Result<(PositionView, i32), Seq<char>> {
    match b.edit_id {
        None => Err(no_edit_id_text()),
        Some(id) => if id == -1 {
            Err(nothing_selected_text())
        } else if id >= (b.positions.len() as i32) {
            Err(invalid_selection_text())
        } else if 0 <= id < b.positions.len() && b.positions[id as int] is Some {
            Ok((b.positions[id as int]->0, id))
        } else {
            Err(unreadable_position_text())
        },
    }
}

/// The position selected for editing, with its index, or the reason there is none.
pub fn get_selected_position(book: &OptionsBook) -> (r: Result<IndexedPosition, String>)
    ensures
        match (r, spec_selected(book@)) {
            (Ok(ip), Ok((p, i))) => ip.position@ == p && ip.index == i,
            (Err(m), Err(t)) => m@ == t,
            _ => false,
        },
        r matches Ok(ip) ==> 0 <= ip.index < book.positions.len(),
{
    let edit_id: i32 = match book.edit_id {
        Some(id) => id,
        None => {
            return Err(String::from_str("Failed to retrieve edit_id"));
        },
    };
    if edit_id == -1 {
        return Err(String::from_str("No open position selected"));
    }
    if edit_id >= book.positions.len() as i32 {
        return Err(String::from_str("Invalid selection"));
    }
    if edit_id < 0 || edit_id as usize >= book.positions.len() {
        return Err(String::from_str("Failed to retrieve position"));
    }
    let idx = edit_id as usize;
    assert(book@.positions[idx as int] == slot_view(book.positions@[idx as int]));
    match &book.positions[idx] {
        Some(position) => Ok(IndexedPosition { position: position.duplicate(), index: edit_id }),
        None => Err(String::from_str("Failed to retrieve position")),
    }
}

/// The book with the position at `index` replaced.
pub open spec fn spec_replaced(b: BookView, index: int, p: PositionView) -> BookView {
    BookView { positions: b.positions.update(index, Some(p)), ..b }
}

/// Every stored item is a position.
pub open spec fn all_readable(b: BookView) -> bool {
    forall|i: int| 0 <= i < b.positions.len() ==> (#[trigger] b.positions[i]) is Some
}

/// Replaces the position at `index` with `position`. The list is rewritten
/// whole, so every item must read as a position, and `index` must be one of
/// the list.
pub fn position_list_replace(book: &mut OptionsBook, index: usize, position: Position)
    requires
        index < old(book).positions.len(),
        all_readable(old(book)@),
    ensures
        final(book)@ == spec_replaced(old(book)@, index as int, position@),
{
    let ghost p = position@;
    let ghost before = book@;
    book.positions.set(index, Some(position));
    assert(book@.positions =~= before.positions.update(index as int, Some(p)));
}

/// The book with the selection cleared.
pub open spec fn spec_cleared(b: BookView) -> BookView {
    BookView { edit_id: Some(-1i32), ..b }
}

/// Clears the selection (`edit_id` becomes `-1`).
pub fn clear_selection(book: &mut OptionsBook)
    ensures
        final(book)@ == spec_cleared(old(book)@),
{
    book.edit_id = Some(-1);
}

/// The book with `index` selected.
pub open spec fn spec_selecting(b: BookView, index: i32) -> BookView {
    BookView { edit_id: Some(index), ..b }
}

/// Selects the position at `index` for editing.
pub fn select_position(book: &mut OptionsBook, index: i32)
    ensures
        final(book)@ == spec_selecting(old(book)@, index),
{
    book.edit_id = Some(index);
}

/// Adds a position at the end of the list.
pub fn add_position(book: &mut OptionsBook, position: Position)
    ensures
        final(book)@ == (BookView { positions: old(book)@.positions.push(Some(position@)), ..old(book)@ }),
{
    let ghost before = book@;
    let ghost p = position@;
    book.positions.push(Some(position));
    assert(book@.positions =~= before.positions.push(Some(p)));
}

/// The book of a newly created database: nothing selected, no positions.
pub fn new_book() -> (r: OptionsBook)
    ensures
        r@ == (BookView { edit_id: Some(-1i32), positions: Seq::empty() }),
{
    let r = OptionsBook { edit_id: Some(-1), positions: Vec::new() };
    assert(r@.positions =~= Seq::<Option<PositionView>>::empty());
    r
}

/// The path of a user's database: `{root}/options{userid}.db`.
pub fn get_options_db_path(root: &str, userid: &str) -> (r: String)
    ensures
        r@ == root@ + "/options"@ + userid@ + ".db"@,
{
    let mut r = String::new();
    push_str(&mut r, root);
    push_str(&mut r, "/options");
    push_str(&mut r, userid);
    push_str(&mut r, ".db");
    r
}

// ----------------------------------------------------------------------------
// Laws
// ----------------------------------------------------------------------------

/// A position written over the selected index is what the selection then reads.
pub proof fn law_replace_then_select(b: BookView, index: int, p: PositionView)
    requires
        0 <= index < b.positions.len(),
        b.positions.len() <= i32::MAX,
        b.edit_id == Some(index as i32),
    ensures
        spec_selected(spec_replaced(b, index, p)) == Ok::<(PositionView, i32), Seq<char>>(
            (p, index as i32),
        ),
{
}

/// Replacing a position keeps every other item and the length of the list.
pub proof fn law_replace_keeps_others(b: BookView, index: int, p: PositionView, j: int)
    requires
        0 <= index < b.positions.len(),
        0 <= j < b.positions.len(),
        j != index,
    ensures
        spec_replaced(b, index, p).positions[j] == b.positions[j],
        spec_replaced(b, index, p).positions.len() == b.positions.len(),
        spec_replaced(b, index, p).edit_id == b.edit_id,
{
}

/// After the selection is cleared, nothing is selected.
pub proof fn law_cleared_selects_nothing(b: BookView)
    ensures
        spec_selected(spec_cleared(b)) == Err::<(PositionView, i32), Seq<char>>(
            nothing_selected_text(),
        ),
{
}

/// Selecting an index that holds a position selects that position.
pub proof fn law_select_reads_slot(b: BookView, index: i32)
    requires
        0 <= index < b.positions.len(),
        b.positions.len() <= i32::MAX,
        b.positions[index as int] is Some,
    ensures
        spec_selected(spec_selecting(b, index)) == Ok::<(PositionView, i32), Seq<char>>(
            (b.positions[index as int]->0, index),
        ),
{
}

/// Writing back the position a slot already holds leaves the book as it was.
pub proof fn law_replace_with_stored_is_identity(b: BookView, index: int, p: PositionView)
    requires
        0 <= index < b.positions.len(),
        b.positions[index] == Some(p),
    ensures
        spec_replaced(b, index, p) == b,
{
    assert(spec_replaced(b, index, p).positions =~= b.positions);
}

/// After a command writes a position back and the selection is cleared, the
/// next selection finds nothing selected, whatever was written.
pub proof fn law_command_then_clear_selects_nothing(b: BookView, index: int, p: PositionView)
    ensures
        spec_selected(spec_cleared(spec_replaced(b, index, p))) == Err::<(PositionView, i32), Seq<char>>(
            nothing_selected_text(),
        ),
{
}

/// With every stored item readable and a list no longer than `i32::MAX`,
/// selection succeeds exactly when `edit_id` is an index of the list, and
/// then gives that index and its position; an `edit_id` below `-1` is an
/// unreadable position.
pub proof fn law_selection_succeeds_iff(b: BookView)
    requires
        all_readable(b),
        b.positions.len() <= i32::MAX,
    ensures
        (spec_selected(b) is Ok) == (b.edit_id matches Some(id) && 0 <= id < b.positions.len()),
        spec_selected(b) matches Ok((p, i)) ==> b.edit_id == Some(i) && b.positions[i as int] == Some(p),
        b.edit_id matches Some(id) && id < -1 ==> spec_selected(b) == Err::<(PositionView, i32), Seq<char>>(
            unreadable_position_text(),
        ),
{
    if let Some(id) = b.edit_id {
        if 0 <= id < b.positions.len() {
            assert(b.positions[id as int] is Some);
        }
    }
}

} // verus!
