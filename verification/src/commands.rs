//! The journal commands on the selected position: what each one writes back
//! into the user's book. Choosing the position, asking the user and saving
//! the book happen around them.
use vstd::prelude::*;

use crate::book::{
    all_readable, clear_selection, position_list_replace, spec_cleared, spec_replaced, BookView,
    OptionsBook,
};
use crate::position::{
    change_open_date, close_contract, closed_position, edit_contract, edited_position,
    expire_contract, expired_position, final_open_day, redated_position, remaining_after_split,
    roll_contract, rolled_position, split_allowed, split_off, split_position, split_reply,
    split_reply_text, Amount, ContractEdits, IndexedPosition, PositionView,
};
use crate::text::{parse_u16, spec_u16_result, IntParseError};
use crate::time::{opt_text, spec_edited_date, DateEditError, Moment};

verus! {

/// Every stored item of the book reads as a position (the commands rewrite
/// the whole list and cannot do so otherwise).
pub fn all_positions_readable(book: &OptionsBook) -> (r: bool)
    ensures
        r == all_readable(book@),
{
    let mut i: usize = 0;
    while i < book.positions.len()
        invariant
            i <= book.positions.len(),
            forall|j: int| 0 <= j < i ==> (#[trigger] book@.positions[j]) is Some,
        decreases book.positions.len() - i,
    {
        assert(book@.positions[i as int] == crate::book::slot_view(book.positions@[i as int]));
        if book.positions[i].is_none() {
            return false;
        }
        i = i + 1;
    }
    true
}

/// What a command may be given: a selection of a readable book whose
/// position has a current contract.
pub open spec fn command_ready(b: BookView, selected: IndexedPosition) -> bool {
    &&& 0 <= selected.index < b.positions.len()
    &&& all_readable(b)
    &&& selected.position.contracts.len() > 0
}

/// `close`: the selected position's current contract is closed at `now` for
/// `premium`, the position is written back at its index, and the selection
/// is cleared.
pub fn apply_close(book: &mut OptionsBook, selected: IndexedPosition, now: Moment, premium: Amount)
    requires
        command_ready(old(book)@, selected),
    ensures
        final(book)@ == spec_cleared(
            spec_replaced(
                old(book)@,
                selected.index as int,
                closed_position(selected.position@, now, premium),
            ),
        ),
        final(book)@.edit_id == Some(-1i32),
{
    let mut position = selected.position;
    close_contract(&mut position, now, premium);
    position_list_replace(book, selected.index as usize, position);
    clear_selection(book);
}

/// `expire`: the selected position's current contract is marked expired, the
/// position is written back, and the selection is cleared.
pub fn apply_expire(book: &mut OptionsBook, selected: IndexedPosition)
    requires
        command_ready(old(book)@, selected),
    ensures
        final(book)@ == spec_cleared(
            spec_replaced(old(book)@, selected.index as int, expired_position(selected.position@)),
        ),
        final(book)@.edit_id == Some(-1i32),
{
    let mut position = selected.position;
    expire_contract(&mut position);
    position_list_replace(book, selected.index as usize, position);
    clear_selection(book);
}

/// What a roll is given besides the position.
pub struct RollTerms {
    pub closed_at: Moment,
    pub opened_at: Moment,
    pub expiry: Moment,
    pub premium_loss: Amount,
    pub premium_gain: Amount,
    pub strike: Option<Amount>,
}

/// `roll`: the selected position's current contract is rolled on the given
/// terms and the position is written back.
pub fn apply_roll(book: &mut OptionsBook, selected: IndexedPosition, terms: RollTerms)
    requires
        command_ready(old(book)@, selected),
    ensures
        final(book)@ == spec_replaced(
            old(book)@,
            selected.index as int,
            rolled_position(
                selected.position@,
                terms.closed_at,
                terms.opened_at,
                terms.expiry,
                terms.premium_loss,
                terms.premium_gain,
                terms.strike,
            ),
        ),
{
    let mut position = selected.position;
    roll_contract(
        &mut position,
        terms.closed_at,
        terms.opened_at,
        terms.expiry,
        terms.premium_loss,
        terms.premium_gain,
        terms.strike,
    );
    position_list_replace(book, selected.index as usize, position);
}

/// `edit`: the given fields of the selected position's current contract are
/// replaced, the position is written back, and the selection is cleared.
pub fn apply_edit(book: &mut OptionsBook, selected: IndexedPosition, edits: ContractEdits)
    requires
        command_ready(old(book)@, selected),
    ensures
        final(book)@ == spec_cleared(
            spec_replaced(old(book)@, selected.index as int, edited_position(selected.position@, edits)),
        ),
        final(book)@.edit_id == Some(-1i32),
{
    let mut position = selected.position;
    edit_contract(&mut position, edits);
    position_list_replace(book, selected.index as usize, position);
    clear_selection(book);
}

/// The new date the `date` command would give the selected position, or its error.
pub open spec fn date_outcome(
    p: PositionView,
    year: Option<String>,
    month: Option<String>,
    day: Option<String>,
) -> Result<Option<i64>, DateEditError> {
    match final_open_day(p) {
        None => Err(DateEditError::InvalidDate),
        Some(current) => spec_edited_date(current, opt_text(year), opt_text(month), opt_text(day)),
    }
}

/// `date`: the opening date of the selected position's current contract is
/// edited (see `change_open_date`). On success the position is written back,
/// changed or not, and the selection is cleared; on an error the book stays
/// as it was, and the list is not touched (so it need not be readable then).
pub fn apply_date(
    book: &mut OptionsBook,
    selected: IndexedPosition,
    year: Option<String>,
    month: Option<String>,
    day: Option<String>,
) -> (r: Result<(), DateEditError>)
    requires
        0 <= selected.index < old(book).positions.len(),
        selected.position.contracts.len() > 0,
        date_outcome(selected.position@, year, month, day) is Ok ==> all_readable(old(book)@),
    ensures
        match date_outcome(selected.position@, year, month, day) {
            Err(e) => r == Err::<(), DateEditError>(e) && final(book)@ == old(book)@,
            Ok(None) => r is Ok && final(book)@ == spec_cleared(
                spec_replaced(old(book)@, selected.index as int, selected.position@),
            ) && final(book)@.edit_id == Some(-1i32),
            Ok(Some(secs)) => r is Ok && final(book)@ == spec_cleared(
                spec_replaced(
                    old(book)@,
                    selected.index as int,
                    redated_position(selected.position@, secs),
                ),
            ) && final(book)@.edit_id == Some(-1i32),
        },
{
    let mut position = selected.position;
    match change_open_date(&mut position, year, month, day) {
        Ok(()) => {
            position_list_replace(book, selected.index as usize, position);
            clear_selection(book);
            Ok(())
        },
        Err(e) => Err(e),
    }
}

/// Why a split command did nothing.
#[derive(Clone, Copy, Debug, PartialEq, Eq, Structural)]
pub enum SplitFailure {
    /// The quantity typed is not a `u16`: std's error kind.
    NotANumber(IntParseError),
    /// The quantity is not strictly between 0 and the current quantity.
    OutOfRange,
}

/// The book after a split of `split` out of the selected position: the
/// position is written back with the smaller quantities and the split-off copy
/// is added at the end.
pub open spec fn spec_split_book(b: BookView, index: int, p: PositionView, split: u16) -> BookView {
    let replaced = spec_replaced(b, index, remaining_after_split(p, split));
    BookView { positions: replaced.positions.push(Some(split_off(p, split))), ..replaced }
}

/// `split`: reads the quantity typed, splits the selected position (see
/// `split_position`), writes the rest back and adds the split-off part;
/// returns the reply. A quantity that is not a number, or out of range,
/// leaves the book as it was.
pub fn apply_split(book: &mut OptionsBook, selected: IndexedPosition, quantity_text: &str) -> (r:
    Result<String, SplitFailure>)
    requires
        0 <= selected.index < old(book).positions.len(),
        selected.position.contracts.len() > 0,
        (spec_u16_result(quantity_text@) matches Ok(q) && split_allowed(selected.position@, q))
            ==> all_readable(old(book)@),
    ensures
        match spec_u16_result(quantity_text@) {
            Err(e) => r == Err::<String, SplitFailure>(SplitFailure::NotANumber(e)) && final(book)@
                == old(book)@,
            Ok(q) => if split_allowed(selected.position@, q) {
                r is Ok && r->Ok_0@ == split_reply_text(
                    selected.position@.contracts.last().open.quantity,
                    q,
                ) && final(book)@ == spec_split_book(
                    old(book)@,
                    selected.index as int,
                    selected.position@,
                    q,
                )
            } else {
                r == Err::<String, SplitFailure>(SplitFailure::OutOfRange) && final(book)@
                    == old(book)@
            },
        },
{
    let split_quantity = match parse_u16(quantity_text) {
        Ok(q) => q,
        Err(e) => return Err(SplitFailure::NotANumber(e)),
    };
    let original_quantity = selected.position.get_final_contract().open.quantity;
    match split_position(&selected.position, split_quantity) {
        Err(_) => Err(SplitFailure::OutOfRange),
        Ok((kept, taken)) => {
            position_list_replace(book, selected.index as usize, kept);
            crate::book::add_position(book, taken);
            Ok(split_reply(original_quantity, split_quantity))
        },
    }
}

/// An edit with no field given, of a position selected from the book,
/// leaves the positions as they were and only clears the selection.
pub proof fn law_empty_edit_leaves_book(b: BookView, index: int, p: PositionView, edits: ContractEdits)
    requires
        0 <= index < b.positions.len(),
        b.positions[index] == Some(p),
        p.contracts.len() > 0,
        edits.ticker is None,
        edits.strike is None,
        edits.expiry is None,
        edits.premium is None,
        edits.quantity is None,
    ensures
        spec_replaced(b, index, edited_position(p, edits)) == b,
        spec_cleared(spec_replaced(b, index, edited_position(p, edits))) == spec_cleared(b),
{
    assert(edited_position(p, edits).contracts =~= p.contracts);
    crate::book::law_replace_with_stored_is_identity(b, index, p);
}

} // verus!
