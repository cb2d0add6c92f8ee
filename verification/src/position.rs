//! Option positions: a chain of contracts (the opening trade and its rolls),
//! and the edits the journal commands make to them.
use vstd::prelude::*;
use vstd::string::*;

use crate::text::push_decimal;
use crate::text::{decimal, push_str};
use crate::text::{spec_i32_result, spec_u32_result};
use crate::time::{
    calendar_of, edited_date, law_utc_timestamp_reads_back, opt_text, spec_edited_date, utc_calendar,
    DateEditError, Moment,
};

verus! {

/// A dollar amount (price, premium or strike) held as the bit pattern of the
/// `f64` that the user typed; the library stores and copies it only.
#[derive(Clone, Copy, Debug, PartialEq, Eq, Structural)]
pub struct Amount {
    pub bits: u64,
}

/// The opening side of an options contract.
pub struct OptionOpen {
    pub date: Moment,
    /// `put` or `call`.
    pub open_type: String,
    pub ticker: String,
    pub strike: Amount,
    pub expiry: Moment,
    pub premium: Amount,
    pub quantity: u16,
    /// `open`, `closed`, `expired`, `assigned` or `rolled`.
    pub status: String,
}

/// The closing side of an options contract.
pub struct OptionClose {
    pub date: Moment,
    /// `close` or `roll`.
    pub close_type: String,
    pub premium: Amount,
}

/// One contract: how it was opened and, once it is, how it was closed.
pub struct Contract {
    pub open: OptionOpen,
    pub close: Option<OptionClose>,
}

/// A position: the contracts of one trade in order, the current one last.
pub struct Position {
    pub contracts: Vec<Contract>,
}

/// A position selected for editing, with its index in the user's list.
pub struct IndexedPosition {
    pub position: Position,
    pub index: i32,
}

/// The mathematical value of an [`OptionOpen`].
pub struct OpenView {
    pub date: Moment,
    pub open_type: Seq<char>,
    pub ticker: Seq<char>,
    pub strike: Amount,
    pub expiry: Moment,
    pub premium: Amount,
    pub quantity: u16,
    pub status: Seq<char>,
}

/// The mathematical value of an [`OptionClose`].
pub struct CloseView {
    pub date: Moment,
    pub close_type: Seq<char>,
    pub premium: Amount,
}

/// The mathematical value of a [`Contract`].
pub struct ContractView {
    pub open: OpenView,
    pub close: Option<CloseView>,
}

/// The mathematical value of a [`Position`]: its contracts.
pub struct PositionView {
    pub contracts: Seq<ContractView>,
}

/// The values of a sequence of contracts.
pub open spec fn contract_views(s: Seq<Contract>) -> Seq<ContractView> {
    s.map_values(|x: Contract| x@)
}

impl View for OptionOpen {
    type V = OpenView;

    open spec fn view(&self) -> OpenView {
        OpenView {
            date: self.date,
            open_type: self.open_type@,
            ticker: self.ticker@,
            strike: self.strike,
            expiry: self.expiry,
            premium: self.premium,
            quantity: self.quantity,
            status: self.status@,
        }
    }
}

impl View for OptionClose {
    type V = CloseView;

    open spec fn view(&self) -> CloseView {
        CloseView { date: self.date, close_type: self.close_type@, premium: self.premium }
    }
}

impl View for Contract {
    type V = ContractView;

    open spec fn view(&self) -> ContractView {
        ContractView {
            open: self.open@,
            close: match self.close {
                Some(c) => Some(c@),
                None => None,
            },
        }
    }
}

impl View for Position {
    type V = PositionView;

    open spec fn view(&self) -> PositionView {
        PositionView { contracts: contract_views(self.contracts@) }
    }
}

impl OptionOpen {
    /// A copy with the same value.
    pub fn duplicate(&self) -> (r: OptionOpen)
        ensures
            r@ == self@,
    {
        OptionOpen {
            date: self.date,
            open_type: self.open_type.clone(),
            ticker: self.ticker.clone(),
            strike: self.strike,
            expiry: self.expiry,
            premium: self.premium,
            quantity: self.quantity,
            status: self.status.clone(),
        }
    }
}

impl OptionClose {
    /// A copy with the same value.
    pub fn duplicate(&self) -> (r: OptionClose)
        ensures
            r@ == self@,
    {
        OptionClose { date: self.date, close_type: self.close_type.clone(), premium: self.premium }
    }
}

impl Contract {
    /// A copy with the same value.
    pub fn duplicate(&self) -> (r: Contract)
        ensures
            r@ == self@,
    {
        let close = match &self.close {
            Some(c) => Some(c.duplicate()),
            None => None,
        };
        Contract { open: self.open.duplicate(), close }
    }
}

impl Position {
    /// A copy with the same value (what `clone` gives).
    pub fn duplicate(&self) -> (r: Position)
        ensures
            r@ == self@,
    {
        let mut contracts: Vec<Contract> = Vec::new();
        let mut i: usize = 0;
        while i < self.contracts.len()
            invariant
                i <= self.contracts.len(),
                contracts@.len() == i,
                forall|j: int| 0 <= j < i ==> (#[trigger] contracts@[j])@ == self.contracts@[j]@,
            decreases self.contracts.len() - i,
        {
            contracts.push(self.contracts[i].duplicate());
            i = i + 1;
        }
        let r = Position { contracts };
        assert(r@.contracts =~= self@.contracts);
        r
    }

    /// The current contract: the last one.
    pub fn get_final_contract(&self) -> (r: &Contract)
        requires
            self.contracts.len() > 0,
        ensures
            r@ == self@.contracts.last(),
    {
        &self.contracts[self.contracts.len() - 1]
    }
}

// ----------------------------------------------------------------------------
// Edits of the current contract
// ----------------------------------------------------------------------------

/// `p` with its last contract replaced by `c`.
pub open spec fn with_last(p: PositionView, c: ContractView) -> PositionView {
    PositionView { contracts: p.contracts.update(p.contracts.len() - 1, c) }
}

/// An opening side with another status.
pub open spec fn with_status(o: OpenView, status: Seq<char>) -> OpenView {
    OpenView { status, ..o }
}

/// Removes the last contract and hands it back.
fn take_last(position: &mut Position) -> (c: Contract)
    requires
        old(position).contracts.len() > 0,
    ensures
        final(position).contracts@ == old(position).contracts@.drop_last(),
        c@ == old(position)@.contracts.last(),
{
    let c = position.contracts.pop();
    c.unwrap()
}

/// Puts `c` back as the last contract.
proof fn lemma_put_back(old_p: PositionView, rest: Seq<Contract>, c: Contract, all: Seq<Contract>)
    requires
        old_p.contracts.len() > 0,
        contract_views(rest) =~= old_p.contracts.drop_last(),
        all == rest.push(c),
    ensures
        contract_views(all) == old_p.contracts.update(old_p.contracts.len() - 1, c@),
{
    let n = old_p.contracts.len();
    assert(contract_views(rest).len() == rest.len());
    assert(rest.len() == n - 1);
    let target = old_p.contracts.update(n - 1, c@);
    assert forall|j: int| 0 <= j < all.len() implies #[trigger] contract_views(all)[j]
        == target[j] by {
        assert(contract_views(all)[j] == all[j]@);
        if j < rest.len() {
            assert(all[j] == rest[j]);
            assert(contract_views(rest)[j] == rest[j]@);
            assert(old_p.contracts.drop_last()[j] == old_p.contracts[j]);
        }
    }
    assert(contract_views(all) =~= target);
}

/// The position after closing its current contract at `now` for `premium`.
pub open spec fn closed_position(p: PositionView, now: Moment, premium: Amount) -> PositionView {
    with_last(
        p,
        ContractView {
            open: with_status(p.contracts.last().open, "closed"@),
            close: Some(CloseView { date: now, close_type: "close"@, premium }),
        },
    )
}

/// Closes the current contract: it gets a close of type `close` at `now` for
/// `premium`, and its status becomes `closed`.
pub fn close_contract(position: &mut Position, now: Moment, premium: Amount)
    requires
        old(position).contracts.len() > 0,
    ensures
        final(position)@ == closed_position(old(position)@, now, premium),
{
    let ghost old_p = position@;
    let mut c = take_last(position);
    let ghost rest = position.contracts@;
    c.close = Some(OptionClose { date: now, close_type: String::from_str("close"), premium });
    c.open.status = String::from_str("closed");
    position.contracts.push(c);
    proof {
        lemma_put_back(old_p, rest, c, position.contracts@);
    }
}

/// The position after its current contract expired.
pub open spec fn expired_position(p: PositionView) -> PositionView {
    with_last(
        p,
        ContractView {
            open: with_status(p.contracts.last().open, "expired"@),
            ..p.contracts.last()
        },
    )
}

/// Marks the current contract as expired.
pub fn expire_contract(position: &mut Position)
    requires
        old(position).contracts.len() > 0,
    ensures
        final(position)@ == expired_position(old(position)@),
{
    let ghost old_p = position@;
    let mut c = take_last(position);
    let ghost rest = position.contracts@;
    c.open.status = String::from_str("expired");
    position.contracts.push(c);
    proof {
        lemma_put_back(old_p, rest, c, position.contracts@);
    }
}

/// The contract a roll opens after `prev`: same type, ticker and quantity,
/// the given strike (or the previous one), expiry and premium, status `open`.
pub open spec fn rolled_successor(
    prev: OpenView,
    opened_at: Moment,
    expiry: Moment,
    premium_gain: Amount,
    strike: Option<Amount>,
) -> ContractView {
    ContractView {
        open: OpenView {
            date: opened_at,
            open_type: prev.open_type,
            ticker: prev.ticker,
            strike: match strike {
                Some(s) => s,
                None => prev.strike,
            },
            expiry,
            premium: premium_gain,
            quantity: prev.quantity,
            status: "open"@,
        },
        close: None,
    }
}

/// The position after a roll of its current contract.
pub open spec fn rolled_position(
    p: PositionView,
    closed_at: Moment,
    opened_at: Moment,
    expiry: Moment,
    premium_loss: Amount,
    premium_gain: Amount,
    strike: Option<Amount>,
) -> PositionView {
    let last = p.contracts.last();
    let closed = ContractView {
        open: with_status(last.open, "rolled"@),
        close: Some(CloseView { date: closed_at, close_type: "roll"@, premium: premium_loss }),
    };
    PositionView {
        contracts: with_last(p, closed).contracts.push(
            rolled_successor(last.open, opened_at, expiry, premium_gain, strike),
        ),
    }
}

/// Rolls the current contract: it is closed with type `roll` at `closed_at`
/// for `premium_loss` and marked `rolled`, and a new contract opened at
/// `opened_at` follows it (see [`rolled_successor`]).
pub fn roll_contract(
    position: &mut Position,
    closed_at: Moment,
    opened_at: Moment,
    expiry: Moment,
    premium_loss: Amount,
    premium_gain: Amount,
    strike: Option<Amount>,
)
    requires
        old(position).contracts.len() > 0,
    ensures
        final(position)@ == rolled_position(
            old(position)@,
            closed_at,
            opened_at,
            expiry,
            premium_loss,
            premium_gain,
            strike,
        ),
{
    let ghost old_p = position@;
    let mut c = take_last(position);
    let ghost rest = position.contracts@;
    c.open.status = String::from_str("rolled");
    c.close = Some(
        OptionClose { date: closed_at, close_type: String::from_str("roll"), premium: premium_loss },
    );
    let new_strike = match strike {
        Some(s) => s,
        None => c.open.strike,
    };
    let next = Contract {
        open: OptionOpen {
            date: opened_at,
            open_type: c.open.open_type.clone(),
            ticker: c.open.ticker.clone(),
            strike: new_strike,
            expiry,
            premium: premium_gain,
            quantity: c.open.quantity,
            status: String::from_str("open"),
        },
        close: None,
    };
    position.contracts.push(c);
    proof {
        lemma_put_back(old_p, rest, c, position.contracts@);
    }
    let ghost mid = position.contracts@;
    position.contracts.push(next);
    assert(contract_views(position.contracts@) =~= contract_views(mid).push(next@));
}

/// The fields an edit may replace in the current contract; `None` keeps one.
pub struct ContractEdits {
    pub ticker: Option<String>,
    pub strike: Option<Amount>,
    pub expiry: Option<Moment>,
    pub premium: Option<Amount>,
    pub quantity: Option<u16>,
}

/// `v` where given, else `keep`.
pub open spec fn or_keep<T>(v: Option<T>, keep: T) -> T {
    match v {
        Some(x) => x,
        None => keep,
    }
}

/// The opening side after an edit.
pub open spec fn edited_open(o: OpenView, edits: ContractEdits) -> OpenView {
    OpenView {
        ticker: match edits.ticker {
            Some(t) => t@,
            None => o.ticker,
        },
        strike: or_keep(edits.strike, o.strike),
        expiry: or_keep(edits.expiry, o.expiry),
        premium: or_keep(edits.premium, o.premium),
        quantity: or_keep(edits.quantity, o.quantity),
        ..o
    }
}

/// The position after an edit of its current contract.
pub open spec fn edited_position(p: PositionView, edits: ContractEdits) -> PositionView {
    with_last(
        p,
        ContractView { open: edited_open(p.contracts.last().open, edits), ..p.contracts.last() },
    )
}

/// Replaces the fields of the current contract's opening side that the edit gives.
pub fn edit_contract(position: &mut Position, edits: ContractEdits)
    requires
        old(position).contracts.len() > 0,
    ensures
        final(position)@ == edited_position(old(position)@, edits),
{
    let ghost old_p = position@;
    let ghost e = edits;
    let mut c = take_last(position);
    let ghost rest = position.contracts@;
    if let Some(ticker) = edits.ticker {
        c.open.ticker = ticker;
    }
    if let Some(strike) = edits.strike {
        c.open.strike = strike;
    }
    if let Some(expiry) = edits.expiry {
        c.open.expiry = expiry;
    }
    if let Some(premium) = edits.premium {
        c.open.premium = premium;
    }
    if let Some(quantity) = edits.quantity {
        c.open.quantity = quantity;
    }
    position.contracts.push(c);
    proof {
        lemma_put_back(old_p, rest, c, position.contracts@);
    }
}

/// The position whose current contract opened at `secs` (no fraction).
pub open spec fn redated_position(p: PositionView, secs: i64) -> PositionView {
    with_last(
        p,
        ContractView {
            open: OpenView { date: Moment { secs, nanos: 0 }, ..p.contracts.last().open },
            ..p.contracts.last()
        },
    )
}

/// The view of the current contract's opening day, where chrono has one.
pub open spec fn final_open_day(p: PositionView) -> Option<(i32, u32, u32)> {
    utc_calendar(p.contracts.last().open.date.secs, p.contracts.last().open.date.nanos)
}

/// Changes the opening date of the current contract: each typed field replaces
/// the current year, month or day (in UTC); if any was typed the new date is
/// 17:00 UTC on the resulting day. Nothing changes on an error, nor when no
/// field was typed. A current date outside chrono's range (which no date
/// that chrono made has) is refused as an invalid date.
pub fn change_open_date(
    position: &mut Position,
    year: Option<String>,
    month: Option<String>,
    day: Option<String>,
) -> (r: Result<(), DateEditError>)
    requires
        old(position).contracts.len() > 0,
    ensures
        match final_open_day(old(position)@) {
            None => r == Err::<(), DateEditError>(DateEditError::InvalidDate) && final(position)@
                == old(position)@,
            Some(current) => match spec_edited_date(
                current,
                opt_text(year),
                opt_text(month),
                opt_text(day),
            ) {
                Err(e) => r == Err::<(), DateEditError>(e) && final(position)@ == old(position)@,
                Ok(None) => r is Ok && final(position)@ == old(position)@,
                Ok(Some(secs)) => r is Ok && final(position)@ == redated_position(
                    old(position)@,
                    secs,
                ),
            },
        },
{
    let current = match calendar_of(position.get_final_contract().open.date) {
        Some(ymd) => ymd,
        None => return Err(DateEditError::InvalidDate),
    };
    match edited_date(current, year, month, day) {
        Err(e) => Err(e),
        Ok(None) => Ok(()),
        Ok(Some(t)) => {
            let ghost old_p = position@;
            let mut c = take_last(position);
            let ghost rest = position.contracts@;
            c.open.date = t;
            position.contracts.push(c);
            proof {
                lemma_put_back(old_p, rest, c, position.contracts@);
            }
            Ok(())
        },
    }
}

// ----------------------------------------------------------------------------
// Laws
// ----------------------------------------------------------------------------

/// Closing, expiring, editing and re-dating touch only the current contract:
/// the number of contracts and every earlier contract stay as they were.
pub proof fn law_edits_keep_earlier_contracts(
    p: PositionView,
    now: Moment,
    premium: Amount,
    edits: ContractEdits,
    secs: i64,
    i: int,
)
    requires
        p.contracts.len() > 0,
        0 <= i < p.contracts.len() - 1,
    ensures
        closed_position(p, now, premium).contracts.len() == p.contracts.len(),
        closed_position(p, now, premium).contracts[i] == p.contracts[i],
        expired_position(p).contracts.len() == p.contracts.len(),
        expired_position(p).contracts[i] == p.contracts[i],
        edited_position(p, edits).contracts.len() == p.contracts.len(),
        edited_position(p, edits).contracts[i] == p.contracts[i],
        redated_position(p, secs).contracts.len() == p.contracts.len(),
        redated_position(p, secs).contracts[i] == p.contracts[i],
{
}

/// A roll keeps every earlier contract, marks the current one `rolled` with
/// a close of type `roll`, and adds exactly one `open` contract after it, of
/// the same type, ticker and quantity and without a close.
pub proof fn law_roll_extends_chain(
    p: PositionView,
    closed_at: Moment,
    opened_at: Moment,
    expiry: Moment,
    premium_loss: Amount,
    premium_gain: Amount,
    strike: Option<Amount>,
    i: int,
)
    requires
        p.contracts.len() > 0,
        0 <= i < p.contracts.len() - 1,
    ensures
        ({
            let r = rolled_position(p, closed_at, opened_at, expiry, premium_loss, premium_gain, strike);
            let n = p.contracts.len() as int;
            &&& r.contracts.len() == n + 1
            &&& r.contracts[i] == p.contracts[i]
            &&& r.contracts[n - 1].open.status == "rolled"@
            &&& r.contracts[n - 1].close matches Some(c) && c.close_type == "roll"@
            &&& r.contracts[n].open.status == "open"@
            &&& r.contracts[n].close is None
            &&& r.contracts[n].open.ticker == p.contracts[n - 1].open.ticker
            &&& r.contracts[n].open.open_type == p.contracts[n - 1].open.open_type
            &&& r.contracts[n].open.quantity == p.contracts[n - 1].open.quantity
            &&& r.contracts[n].open.strike == match strike {
                Some(s) => s,
                None => p.contracts[n - 1].open.strike,
            }
            &&& r.contracts[n].open.date == opened_at
            &&& r.contracts[n].open.expiry == expiry
            &&& r.contracts[n].open.premium == premium_gain
            &&& r.contracts[n - 1].open == OpenView { status: "rolled"@, ..p.contracts[n - 1].open }
            &&& r.contracts[n - 1].close == Some(
                CloseView { date: closed_at, close_type: "roll"@, premium: premium_loss },
            )
        }),
{
}

/// Closing changes only the current contract, and of it only the status, which
/// becomes `closed`, and the close, which records `now`, the type `close` and
/// the premium paid; its opening date, type, ticker, strike, expiry, premium
/// and quantity stay as they were.
pub proof fn law_close_sets_status_and_close(p: PositionView, now: Moment, premium: Amount)
    requires
        p.contracts.len() > 0,
    ensures
        ({
            let r = closed_position(p, now, premium);
            let n = p.contracts.len() as int;
            &&& r.contracts.len() == n
            &&& forall|i: int| 0 <= i < n - 1 ==> #[trigger] r.contracts[i] == p.contracts[i]
            &&& r.contracts[n - 1].open == OpenView { status: "closed"@, ..p.contracts[n - 1].open }
            &&& r.contracts[n - 1].open.date == p.contracts[n - 1].open.date
            &&& r.contracts[n - 1].close == Some(
                CloseView { date: now, close_type: "close"@, premium },
            )
        }),
{
}

/// An edit sets each field it gives on the current contract and keeps each
/// field it leaves out; the opening date, type, status and close, and every
/// earlier contract, stay as they were.
pub proof fn law_edit_sets_given_fields(p: PositionView, edits: ContractEdits)
    requires
        p.contracts.len() > 0,
    ensures
        ({
            let r = edited_position(p, edits);
            let n = p.contracts.len() as int;
            let before = p.contracts[n - 1];
            let after = r.contracts[n - 1];
            &&& r.contracts.len() == n
            &&& forall|i: int| 0 <= i < n - 1 ==> #[trigger] r.contracts[i] == p.contracts[i]
            &&& after.open.ticker == match edits.ticker {
                Some(t) => t@,
                None => before.open.ticker,
            }
            &&& after.open.strike == match edits.strike {
                Some(s) => s,
                None => before.open.strike,
            }
            &&& after.open.expiry == match edits.expiry {
                Some(e) => e,
                None => before.open.expiry,
            }
            &&& after.open.premium == match edits.premium {
                Some(x) => x,
                None => before.open.premium,
            }
            &&& after.open.quantity == match edits.quantity {
                Some(q) => q,
                None => before.open.quantity,
            }
            &&& after.open.date == before.open.date
            &&& after.open.open_type == before.open.open_type
            &&& after.open.status == before.open.status
            &&& after.close == before.close
        }),
{
}

/// A date edit that succeeds with a new date reads the fields left blank from
/// the UTC day of the current (last) contract's opening: the new date is
/// 17:00 UTC on the day made of each typed field, parsed, or else that
/// day's year, month or day.
pub proof fn law_date_edit_keeps_current_day(
    p: PositionView,
    year: Option<Seq<char>>,
    month: Option<Seq<char>>,
    day: Option<Seq<char>>,
    secs: i64,
)
    requires
        p.contracts.len() > 0,
        final_open_day(p) is Some,
        spec_edited_date(final_open_day(p)->0, year, month, day) == Ok::<
            Option<i64>,
            DateEditError,
        >(Some(secs)),
    ensures
        ({
            let last = p.contracts[p.contracts.len() - 1].open.date;
            let current = utc_calendar(last.secs, last.nanos)->0;
            &&& utc_calendar(last.secs, last.nanos) is Some
            &&& utc_calendar(secs, 0) == Some(
                (
                    match year {
                        Some(t) => spec_i32_result(t)->Ok_0,
                        None => current.0,
                    },
                    match month {
                        Some(t) => spec_u32_result(t)->Ok_0,
                        None => current.1,
                    },
                    match day {
                        Some(t) => spec_u32_result(t)->Ok_0,
                        None => current.2,
                    },
                ),
            )
            &&& (secs as int) % 86400 == 17 * 3600
        }),
{
    let cur = final_open_day(p)->0;
    let y = match year {
        Some(t) => spec_i32_result(t)->Ok_0,
        None => cur.0,
    };
    let m = match month {
        Some(t) => spec_u32_result(t)->Ok_0,
        None => cur.1,
    };
    let d = match day {
        Some(t) => spec_u32_result(t)->Ok_0,
        None => cur.2,
    };
    assert(secs == crate::time::utc_timestamp(y, m, d, 17, 0, 0));
    law_utc_timestamp_reads_back(y, m, d, 17, 0, 0);
}

// ----------------------------------------------------------------------------
// Splitting a position
// ----------------------------------------------------------------------------

/// A contract with another quantity.
pub open spec fn with_quantity(c: ContractView, q: u16) -> ContractView {
    ContractView { open: OpenView { quantity: q, ..c.open }, ..c }
}

/// `a - b`, or 0 where `b` exceeds `a` (`u16::saturating_sub`).
pub open spec fn saturating_sub(a: u16, b: u16) -> u16 {
    if a >= b {
        (a - b) as u16
    } else {
        0
    }
}

/// The position that stays after `split` contracts are taken out of each contract.
pub open spec fn remaining_after_split(p: PositionView, split: u16) -> PositionView {
    PositionView {
        contracts: p.contracts.map_values(
            |c: ContractView| with_quantity(c, saturating_sub(c.open.quantity, split)),
        ),
    }
}

/// The new position that holds `split` of every contract.
pub open spec fn split_off(p: PositionView, split: u16) -> PositionView {
    PositionView { contracts: p.contracts.map_values(|c: ContractView| with_quantity(c, split)) }
}

/// A split is allowed for a quantity strictly between 0 and the current contract's.
pub open spec fn split_allowed(p: PositionView, split: u16) -> bool {
    0 < split && split < p.contracts.last().open.quantity
}

/// Why a split was refused.
#[derive(Clone, Copy, Debug, PartialEq, Eq, Structural)]
pub enum SplitError {
    /// The split quantity is not between 0 and the current quantity, exclusive.
    QuantityOutOfRange,
}

/// Splits a position in two: the original keeps its contracts with `split`
/// fewer of each (never below 0), and a copy holds `split` of each. The split
/// quantity must be strictly between 0 and the current contract's quantity.
pub fn split_position(position: &Position, split_quantity: u16) -> (r: Result<
    (Position, Position),
    SplitError,
>)
    requires
        position.contracts.len() > 0,
    ensures
        split_allowed(position@, split_quantity) <==> r is Ok,
        r matches Ok((kept, taken)) ==> kept@ == remaining_after_split(position@, split_quantity)
            && taken@ == split_off(position@, split_quantity),
        r matches Err(e) ==> e == SplitError::QuantityOutOfRange,
{
    let original_quantity = position.get_final_contract().open.quantity;
    if split_quantity == 0 || split_quantity >= original_quantity {
        return Err(SplitError::QuantityOutOfRange);
    }
    let mut kept: Vec<Contract> = Vec::new();
    let mut taken: Vec<Contract> = Vec::new();
    let mut i: usize = 0;
    let ghost p = position@;
    while i < position.contracts.len()
        invariant
            p == position@,
            i <= position.contracts.len(),
            kept@.len() == i,
            taken@.len() == i,
            forall|j: int|
                0 <= j < i ==> (#[trigger] kept@[j])@ == with_quantity(
                    p.contracts[j],
                    saturating_sub(p.contracts[j].open.quantity, split_quantity),
                ),
            forall|j: int|
                0 <= j < i ==> (#[trigger] taken@[j])@ == with_quantity(
                    p.contracts[j],
                    split_quantity,
                ),
        decreases position.contracts.len() - i,
    {
        assert(p.contracts[i as int] == position.contracts@[i as int]@);
        let mut k = position.contracts[i].duplicate();
        k.open.quantity = k.open.quantity.saturating_sub(split_quantity);
        kept.push(k);
        let mut t = position.contracts[i].duplicate();
        t.open.quantity = split_quantity;
        taken.push(t);
        i = i + 1;
    }
    let kept_position = Position { contracts: kept };
    let taken_position = Position { contracts: taken };
    assert(kept_position@.contracts =~= remaining_after_split(p, split_quantity).contracts);
    assert(taken_position@.contracts =~= split_off(p, split_quantity).contracts);
    Ok((kept_position, taken_position))
}

/// Splitting conserves the quantity of the current contract: what stays plus
/// what is taken out is what there was.
pub proof fn law_split_conserves_quantity(p: PositionView, split: u16)
    requires
        p.contracts.len() > 0,
        split_allowed(p, split),
    ensures
        remaining_after_split(p, split).contracts.last().open.quantity + split_off(
            p,
            split,
        ).contracts.last().open.quantity == p.contracts.last().open.quantity,
        remaining_after_split(p, split).contracts.len() == p.contracts.len(),
        split_off(p, split).contracts.len() == p.contracts.len(),
{
}

/// Splitting changes nothing but quantities: every contract of both halves
/// is the original contract with another quantity.
pub proof fn law_split_keeps_terms(p: PositionView, split: u16, i: int)
    requires
        0 <= i < p.contracts.len(),
    ensures
        remaining_after_split(p, split).contracts[i] == with_quantity(
            p.contracts[i],
            remaining_after_split(p, split).contracts[i].open.quantity,
        ),
        split_off(p, split).contracts[i] == with_quantity(p.contracts[i], split),
{
}

/// The reply to a successful split.
pub open spec fn split_reply_text(original: u16, split: u16) -> Seq<char> {
    "Position split successfully. Original quantity: "@ + decimal((original - split) as nat)
        + ", Split quantity: "@ + decimal(split as nat)
}

/// The reply to a successful split of `split` out of `original`.
pub fn split_reply(original: u16, split: u16) -> (r: String)
    requires
        split <= original,
    ensures
        r@ == split_reply_text(original, split),
{
    let mut r = String::from_str("Position split successfully. Original quantity: ");
    push_decimal(&mut r, (original - split) as u64);
    push_str(&mut r, ", Split quantity: ");
    push_decimal(&mut r, split as u64);
    r
}

} // verus!
