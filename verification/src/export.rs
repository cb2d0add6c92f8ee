//! The CSV export of a journal: one row per trade, in date order.
use vstd::prelude::*;
use vstd::string::*;

use crate::date::Simpledate;
use crate::position::{contract_views, Amount, Contract, ContractView, Position, PositionView};
use crate::time::{calendar_of, utc_calendar, Moment};
use crate::text::{
    decimal, push_char, push_decimal, push_signed_decimal, push_str, push_zero_padded, same_text,
    signed_decimal, zero_padded,
};

verus! {

// ----------------------------------------------------------------------------
// Date order
// ----------------------------------------------------------------------------

/// `a` is on or before `b`: (year, month, day) compared in that order.
pub open spec fn date_le(a: Simpledate, b: Simpledate) -> bool {
    a.year < b.year || (a.year == b.year && (a.month < b.month || (a.month == b.month && a.day
        <= b.day)))
}

/// `a` and `b` name the same day.
pub open spec fn same_day(a: Simpledate, b: Simpledate) -> bool {
    a.year == b.year && a.month == b.month && a.day == b.day
}

/// Whether `a` is on or before `b`.
pub fn date_on_or_before(a: &Simpledate, b: &Simpledate) -> (r: bool)
    ensures
        r == date_le(*a, *b),
{
    if a.year != b.year {
        a.year < b.year
    } else if a.month != b.month {
        a.month < b.month
    } else {
        a.day <= b.day
    }
}

/// `order` lists each index below `n` exactly once.
pub open spec fn is_index_permutation(order: Seq<usize>, n: nat) -> bool {
    &&& order.len() == n
    &&& forall|i: int| 0 <= i < order.len() ==> (#[trigger] order[i]) < n
    &&& forall|i: int, j: int| 0 <= i < j < order.len() ==> order[i] != order[j]
}

/// Taking `dates` in the order `order` gives them in date order, and dates of
/// the same day keep their original order (the order of a stable sort).
pub open spec fn is_stable_date_order(dates: Seq<Simpledate>, order: Seq<usize>) -> bool {
    &&& forall|i: int, j: int|
        #![trigger order[i], order[j]]
        0 <= i < j < order.len() ==> date_le(dates[order[i] as int], dates[order[j] as int])
    &&& forall|i: int, j: int|
        #![trigger order[i], order[j]]
        0 <= i < j < order.len() && same_day(dates[order[i] as int], dates[order[j] as int])
            ==> order[i] < order[j]
}

/// The order in which a stable sort by date (`sort_by` on (year, month, day))
/// puts `dates`: `r[k]` is the index of the row that comes `k`-th.
pub fn date_order(dates: &Vec<Simpledate>) -> (r: Vec<usize>)
    ensures
        is_index_permutation(r@, dates@.len()),
        is_stable_date_order(dates@, r@),
{
    let mut order: Vec<usize> = Vec::new();
    let mut k: usize = 0;
    while k < dates.len()
        invariant
            k <= dates.len(),
            is_index_permutation(order@, k as nat),
            is_stable_date_order(dates@, order@),
        decreases dates.len() - k,
    {
        // Find where row `k` goes: after every row on or before its day.
        let mut pos: usize = order.len();
        while pos > 0 && !date_on_or_before(&dates[order[pos - 1]], &dates[k])
            invariant
                pos <= order.len(),
                k < dates.len(),
                is_index_permutation(order@, k as nat),
                is_stable_date_order(dates@, order@),
                forall|q: int|
                    pos <= q < order.len() ==> !date_le(
                        #[trigger] dates@[order@[q] as int],
                        dates@[k as int],
                    ),
            decreases pos,
        {
            pos = pos - 1;
        }
        proof {
            // Everything before `pos` is on or before the new row's day.
            if pos > 0 {
                assert(date_le(dates@[order@[pos - 1] as int], dates@[k as int]));
            }
            assert forall|q: int| 0 <= q < pos implies date_le(
                #[trigger] dates@[order@[q] as int],
                dates@[k as int],
            ) by {
                if q < pos - 1 {
                    assert(date_le(dates@[order@[q] as int], dates@[order@[pos - 1] as int]));
                }
            }
        }
        let ghost old_order = order@;
        order.insert(pos, k);
        proof {
            let o = order@;
            assert(o == old_order.insert(pos as int, k));
            assert forall|i: int| 0 <= i < o.len() implies (#[trigger] o[i]) < k + 1 by {
                if i < pos {
                    assert(o[i] == old_order[i]);
                } else if i > pos {
                    assert(o[i] == old_order[i - 1]);
                }
            }
            assert forall|i: int, j: int| 0 <= i < j < o.len() implies o[i] != o[j] by {
                if i < pos {
                    assert(o[i] == old_order[i]);
                } else if i > pos {
                    assert(o[i] == old_order[i - 1]);
                }
                if j < pos {
                    assert(o[j] == old_order[j]);
                } else if j > pos {
                    assert(o[j] == old_order[j - 1]);
                }
            }
            assert forall|i: int, j: int|
                #![trigger o[i], o[j]]
                0 <= i < j < o.len() implies date_le(dates@[o[i] as int], dates@[o[j] as int])
                && (same_day(dates@[o[i] as int], dates@[o[j] as int]) ==> o[i] < o[j]) by {
                if i < pos {
                    assert(o[i] == old_order[i]);
                } else if i > pos {
                    assert(o[i] == old_order[i - 1]);
                }
                if j < pos {
                    assert(o[j] == old_order[j]);
                } else if j > pos {
                    assert(o[j] == old_order[j - 1]);
                }
                if i != pos && j != pos {
                    let a = if i < pos { i } else { i - 1 };
                    let b = if j < pos { j } else { j - 1 };
                    assert(date_le(dates@[old_order[a] as int], dates@[old_order[b] as int]));
                }
            }
        }
        k = k + 1;
    }
    order
}

// ----------------------------------------------------------------------------
// Rows
// ----------------------------------------------------------------------------

/// The label of a contract status in the export.
pub open spec fn status_label_text(status: Seq<char>) -> Seq<char> {
    if status == "open"@ {
        "Open"@
    } else if status == "closed"@ {
        "Closed"@
    } else if status == "expired"@ {
        "Expired"@
    } else if status == "assigned"@ {
        "Exercised"@
    } else if status == "rolled"@ {
        "Rolled"@
    } else if status == "close"@ {
        "BTC"@
    } else if status == "roll"@ {
        "Rolled"@
    } else {
        "Unknown: "@ + status
    }
}

/// The export label of a status: `open` is `Open`, `closed` `Closed`,
/// `expired` `Expired`, `assigned` `Exercised`, `rolled` and `roll` `Rolled`,
/// `close` `BTC`; any other is `Unknown: ` and the status.
pub fn status_label(status: &str) -> (r: String)
    ensures
        r@ == status_label_text(status@),
{
    if same_text(status, "open") {
        String::from_str("Open")
    } else if same_text(status, "closed") {
        String::from_str("Closed")
    } else if same_text(status, "expired") {
        String::from_str("Expired")
    } else if same_text(status, "assigned") {
        String::from_str("Exercised")
    } else if same_text(status, "rolled") {
        String::from_str("Rolled")
    } else if same_text(status, "close") {
        String::from_str("BTC")
    } else if same_text(status, "roll") {
        String::from_str("Rolled")
    } else {
        let mut r = String::from_str("Unknown: ");
        push_str(&mut r, status);
        r
    }
}

/// The label of a contract type in the export.
pub open spec fn contract_type_label_text(contract_type: Seq<char>) -> Seq<char> {
    if contract_type == "put"@ {
        "CSP"@
    } else if contract_type == "call"@ {
        "CC"@
    } else {
        "Unknown"@
    }
}

/// The export label of a contract type: a `put` is a cash-secured put (`CSP`),
/// a `call` a covered call (`CC`); anything else is `Unknown`.
pub fn contract_type_label(contract_type: &str) -> (r: String)
    ensures
        r@ == contract_type_label_text(contract_type@),
{
    if same_text(contract_type, "put") {
        String::from_str("CSP")
    } else if same_text(contract_type, "call") {
        String::from_str("CC")
    } else {
        String::from_str("Unknown")
    }
}

/// A date as `MM/DD/YYYY`, each field zero-padded to its width.
pub open spec fn date_cell(d: Simpledate) -> Seq<char> {
    zero_padded(d.month as int, 2) + seq!['/'] + zero_padded(d.day as int, 2) + seq!['/'] + zero_padded(
        d.year as int,
        4,
    )
}

/// Appends a date as `MM/DD/YYYY`.
fn push_date_cell(out: &mut String, d: &Simpledate)
    ensures
        final(out)@ == old(out)@ + date_cell(*d),
{
    push_zero_padded(out, d.month as i64, 2);
    push_char(out, '/');
    push_zero_padded(out, d.day as i64, 2);
    push_char(out, '/');
    push_zero_padded(out, d.year as i64, 4);
    assert(final(out)@ =~= old(out)@ + date_cell(*d));
}

/// One exported row: what goes into it, with the amounts already written
/// (the stock price with two decimals or empty, the strike as printed) and the
/// premium in cents.
pub struct ExportRow {
    pub date: Simpledate,
    pub ticker: String,
    pub price: String,
    pub contract_type: String,
    pub strike: String,
    pub expiry_date: Simpledate,
    pub status: String,
    pub quantity: u16,
    pub premium_cents: i64,
}

/// The CSV line of a row: date, ticker, price, type label, strike, expiry
/// date, status label, quantity and premium in cents, separated by commas.
pub open spec fn row_text(row: ExportRow) -> Seq<char> {
    line_text(
        row.date,
        row.ticker@,
        row.price@,
        row.contract_type@,
        row.strike@,
        row.expiry_date,
        row.status@,
        row.quantity,
        row.premium_cents,
    )
}

/// The CSV line of a trade: date, ticker, price, type label, strike, expiry
/// date, status label, quantity and premium in cents, separated by commas.
pub open spec fn line_text(
    date: Simpledate,
    ticker: Seq<char>,
    price: Seq<char>,
    contract_type: Seq<char>,
    strike: Seq<char>,
    expiry: Simpledate,
    status: Seq<char>,
    quantity: u16,
    premium_cents: i64,
) -> Seq<char> {
    date_cell(date) + seq![','] + ticker + seq![','] + price + seq![','] + contract_type_label_text(
        contract_type,
    ) + seq![','] + strike + seq![','] + date_cell(expiry) + seq![','] + status_label_text(status)
        + seq![','] + decimal(quantity as nat) + seq![','] + signed_decimal(premium_cents as int)
}

/// The CSV line of an exported row (without line end).
pub fn row_line(row: &ExportRow) -> (r: String)
    ensures
        r@ == row_text(*row),
{
    let mut r = String::new();
    push_date_cell(&mut r, &row.date);
    push_char(&mut r, ',');
    push_str(&mut r, row.ticker.as_str());
    push_char(&mut r, ',');
    push_str(&mut r, row.price.as_str());
    push_char(&mut r, ',');
    let t = contract_type_label(row.contract_type.as_str());
    push_str(&mut r, t.as_str());
    push_char(&mut r, ',');
    push_str(&mut r, row.strike.as_str());
    push_char(&mut r, ',');
    push_date_cell(&mut r, &row.expiry_date);
    push_char(&mut r, ',');
    let s = status_label(row.status.as_str());
    push_str(&mut r, s.as_str());
    push_char(&mut r, ',');
    push_decimal(&mut r, row.quantity as u64);
    push_char(&mut r, ',');
    push_signed_decimal(&mut r, row.premium_cents);
    assert(r@ =~= row_text(*row));
    r
}

// ----------------------------------------------------------------------------
// Entries
// ----------------------------------------------------------------------------

/// What the export writes of one trade: the opening or the closing of a
/// contract. Amounts and times are written out by the caller.
pub struct ExportEntry {
    /// When the trade happened.
    pub date: Moment,
    pub ticker: String,
    pub contract_type: String,
    pub strike: Amount,
    pub expiry: Moment,
    /// The contract's status for an opening, the close type for a closing.
    pub status: String,
    pub quantity: u16,
    /// The premium of the trade, as stored.
    pub premium: Amount,
    /// A closing (the premium was paid, not received).
    pub closing: bool,
}

/// The mathematical value of an [`ExportEntry`].
pub struct EntryView {
    pub date: Moment,
    pub ticker: Seq<char>,
    pub contract_type: Seq<char>,
    pub strike: Amount,
    pub expiry: Moment,
    pub status: Seq<char>,
    pub quantity: u16,
    pub premium: Amount,
    pub closing: bool,
}

impl View for ExportEntry {
    type V = EntryView;

    open spec fn view(&self) -> EntryView {
        EntryView {
            date: self.date,
            ticker: self.ticker@,
            contract_type: self.contract_type@,
            strike: self.strike,
            expiry: self.expiry,
            status: self.status@,
            quantity: self.quantity,
            premium: self.premium,
            closing: self.closing,
        }
    }
}

/// The values of a sequence of entries.
pub open spec fn entry_views(s: Seq<ExportEntry>) -> Seq<EntryView> {
    s.map_values(|e: ExportEntry| e@)
}

/// The values of a sequence of positions.
pub open spec fn position_views(s: Seq<Position>) -> Seq<PositionView> {
    s.map_values(|p: Position| p@)
}

/// The entries of one contract: its opening, then its closing if it has one.
/// Both carry the contract's ticker, type, strike, expiry and quantity.
pub open spec fn contract_entries(c: ContractView) -> Seq<EntryView> {
    let opening = EntryView {
        date: c.open.date,
        ticker: c.open.ticker,
        contract_type: c.open.open_type,
        strike: c.open.strike,
        expiry: c.open.expiry,
        status: c.open.status,
        quantity: c.open.quantity,
        premium: c.open.premium,
        closing: false,
    };
    match c.close {
        None => seq![opening],
        Some(k) => seq![
            opening,
            EntryView { date: k.date, status: k.close_type, premium: k.premium, closing: true, ..opening },
        ],
    }
}

/// The entries of contracts in order.
pub open spec fn contracts_entries(cs: Seq<ContractView>) -> Seq<EntryView>
    decreases cs.len(),
{
    if cs.len() == 0 {
        Seq::empty()
    } else {
        contracts_entries(cs.drop_last()) + contract_entries(cs.last())
    }
}

/// The entries of positions in order: each position's contracts in turn.
pub open spec fn positions_entries(ps: Seq<PositionView>) -> Seq<EntryView>
    decreases ps.len(),
{
    if ps.len() == 0 {
        Seq::empty()
    } else {
        positions_entries(ps.drop_last()) + contracts_entries(ps.last().contracts)
    }
}

/// The entry of a contract's opening.
fn opening_entry(c: &Contract) -> (r: ExportEntry)
    ensures
        r@ == contract_entries(c@)[0],
{
    ExportEntry {
        date: c.open.date,
        ticker: c.open.ticker.clone(),
        contract_type: c.open.open_type.clone(),
        strike: c.open.strike,
        expiry: c.open.expiry,
        status: c.open.status.clone(),
        quantity: c.open.quantity,
        premium: c.open.premium,
        closing: false,
    }
}

/// Every trade of the journal in order: for each position, for each of its
/// contracts, the opening and then, where there is one, the closing.
pub fn export_entries(positions: &Vec<Position>) -> (r: Vec<ExportEntry>)
    ensures
        entry_views(r@) == positions_entries(position_views(positions@)),
{
    let mut out: Vec<ExportEntry> = Vec::new();
    let ghost ps = position_views(positions@);
    let mut i: usize = 0;
    assert(ps.take(0) =~= Seq::<PositionView>::empty());
    assert(entry_views(out@) =~= Seq::<EntryView>::empty());
    while i < positions.len()
        invariant
            i <= positions.len(),
            ps == position_views(positions@),
            entry_views(out@) == positions_entries(ps.take(i as int)),
        decreases positions.len() - i,
    {
        let p = &positions[i];
        let ghost cs = p@.contracts;
        let ghost before = entry_views(out@);
        assert(cs.take(0) =~= Seq::<ContractView>::empty());
        assert(before + contracts_entries(cs.take(0)) =~= before);
        let mut j: usize = 0;
        while j < p.contracts.len()
            invariant
                j <= p.contracts.len(),
                cs == p@.contracts,
                cs == contract_views(p.contracts@),
                entry_views(out@) == before + contracts_entries(cs.take(j as int)),
            decreases p.contracts.len() - j,
        {
            let c = &p.contracts[j];
            assert(cs[j as int] == c@);
            let ghost mid = entry_views(out@);
            out.push(opening_entry(c));
            match &c.close {
                Some(k) => {
                    out.push(
                        ExportEntry {
                            date: k.date,
                            ticker: c.open.ticker.clone(),
                            contract_type: c.open.open_type.clone(),
                            strike: c.open.strike,
                            expiry: c.open.expiry,
                            status: k.close_type.clone(),
                            quantity: c.open.quantity,
                            premium: k.premium,
                            closing: true,
                        },
                    );
                },
                None => {},
            }
            proof {
                assert(cs.take(j + 1).drop_last() =~= cs.take(j as int));
                assert(entry_views(out@) =~= mid + contract_entries(c@));
                assert(before + contracts_entries(cs.take(j + 1)) =~= before + contracts_entries(
                    cs.take(j as int),
                ) + contract_entries(c@));
            }
            j = j + 1;
        }
        proof {
            assert(cs.take(cs.len() as int) =~= cs);
            assert(ps[i as int] == p@);
            assert(ps.take(i + 1).drop_last() =~= ps.take(i as int));
        }
        i = i + 1;
    }
    assert(ps.take(positions.len() as int) =~= ps);
    out
}

// ----------------------------------------------------------------------------
// The fields of a line
// ----------------------------------------------------------------------------

/// The pieces of `s` between occurrences of `sep`, as `str::split(sep)`
/// yields them.
pub open spec fn split_on(s: Seq<char>, sep: char) -> Seq<Seq<char>>
    decreases s.len(),
{
    if s.len() == 0 {
        seq![Seq::<char>::empty()]
    } else {
        let prev = split_on(s.drop_last(), sep);
        if s.last() == sep {
            prev.push(Seq::<char>::empty())
        } else {
            prev.update(prev.len() - 1, prev.last().push(s.last()))
        }
    }
}

/// The pieces joined with `sep` between them.
pub open spec fn join_on(fields: Seq<Seq<char>>, sep: char) -> Seq<char>
    decreases fields.len(),
{
    if fields.len() == 0 {
        Seq::empty()
    } else if fields.len() == 1 {
        fields[0]
    } else {
        join_on(fields.drop_last(), sep).push(sep) + fields.last()
    }
}

/// `s` holds no `c`.
pub open spec fn free_of(s: Seq<char>, c: char) -> bool {
    forall|i: int| 0 <= i < s.len() ==> s[i] != c
}

/// The nine fields of a row's line, in order.
pub open spec fn row_fields(row: ExportRow) -> Seq<Seq<char>> {
    line_fields(
        row.date,
        row.ticker@,
        row.price@,
        row.contract_type@,
        row.strike@,
        row.expiry_date,
        row.status@,
        row.quantity,
        row.premium_cents,
    )
}

/// The nine fields of a trade's line, in order.
pub open spec fn line_fields(
    date: Simpledate,
    ticker: Seq<char>,
    price: Seq<char>,
    contract_type: Seq<char>,
    strike: Seq<char>,
    expiry: Simpledate,
    status: Seq<char>,
    quantity: u16,
    premium_cents: i64,
) -> Seq<Seq<char>> {
    seq![
        date_cell(date),
        ticker,
        price,
        contract_type_label_text(contract_type),
        strike,
        date_cell(expiry),
        status_label_text(status),
        decimal(quantity as nat),
        signed_decimal(premium_cents as int),
    ]
}

proof fn lemma_split_on_nonempty(s: Seq<char>, sep: char)
    ensures
        split_on(s, sep).len() >= 1,
    decreases s.len(),
{
    if s.len() > 0 {
        lemma_split_on_nonempty(s.drop_last(), sep);
    }
}

/// Text without the separator extends the last piece.
proof fn lemma_split_on_suffix(x: Seq<char>, b: Seq<char>, sep: char)
    requires
        free_of(b, sep),
    ensures
        split_on(x + b, sep) == split_on(x, sep).update(
            split_on(x, sep).len() - 1,
            split_on(x, sep).last() + b,
        ),
    decreases b.len(),
{
    lemma_split_on_nonempty(x, sep);
    if b.len() == 0 {
        assert(x + b =~= x);
        assert(split_on(x, sep).update(split_on(x, sep).len() - 1, split_on(x, sep).last() + b)
            =~= split_on(x, sep));
    } else {
        let b0 = b.drop_last();
        lemma_split_on_suffix(x, b0, sep);
        assert((x + b).drop_last() =~= x + b0);
        assert((x + b).last() == b[b.len() - 1]);
        assert(split_on(x, sep).last() + b =~= (split_on(x, sep).last() + b0).push(b.last()));
        assert(split_on(x + b, sep) =~= split_on(x, sep).update(
            split_on(x, sep).len() - 1,
            split_on(x, sep).last() + b,
        ));
    }
}

/// Splitting undoes joining where no piece holds the separator.
proof fn lemma_split_join(fields: Seq<Seq<char>>, sep: char)
    requires
        fields.len() >= 1,
        forall|i: int| 0 <= i < fields.len() ==> free_of(#[trigger] fields[i], sep),
    ensures
        split_on(join_on(fields, sep), sep) == fields,
    decreases fields.len(),
{
    let e = Seq::<char>::empty();
    if fields.len() == 1 {
        lemma_split_on_suffix(e, fields[0], sep);
        assert(e + fields[0] =~= fields[0]);
        assert(split_on(e, sep) =~= seq![e]);
        assert(seq![e].update(0, e + fields[0]) =~= fields);
    } else {
        let init = fields.drop_last();
        assert forall|i: int| 0 <= i < init.len() implies free_of(#[trigger] init[i], sep) by {
            assert(init[i] == fields[i]);
        }
        lemma_split_join(init, sep);
        let j = join_on(init, sep).push(sep);
        assert(j.drop_last() =~= join_on(init, sep));
        assert(split_on(j, sep) =~= init.push(e));
        assert(free_of(fields[fields.len() - 1], sep));
        lemma_split_on_suffix(j, fields.last(), sep);
        assert(e + fields.last() =~= fields.last());
        assert(init.push(e).update(init.len() as int, e + fields.last()) =~= fields);
    }
}

/// Joining pieces that hold no `c` with a separator other than `c` gives
/// text without `c`.
proof fn lemma_join_free(fields: Seq<Seq<char>>, sep: char, c: char)
    requires
        sep != c,
        forall|i: int| 0 <= i < fields.len() ==> free_of(#[trigger] fields[i], c),
    ensures
        free_of(join_on(fields, sep), c),
    decreases fields.len(),
{
    if fields.len() > 1 {
        let init = fields.drop_last();
        assert forall|i: int| 0 <= i < init.len() implies free_of(#[trigger] init[i], c) by {
            assert(init[i] == fields[i]);
        }
        lemma_join_free(init, sep, c);
        let j = join_on(init, sep).push(sep);
        let l = fields.last();
        assert(free_of(fields[fields.len() - 1], c));
        assert forall|i: int| 0 <= i < (j + l).len() implies (j + l)[i] != c by {
            if i < j.len() - 1 {
                assert((j + l)[i] == join_on(init, sep)[i]);
            } else if i >= j.len() {
                assert((j + l)[i] == l[i - j.len()]);
            }
        }
    } else if fields.len() == 1 {
        assert(free_of(fields[0], c));
    }
}

/// A decimal holds only digits.
proof fn lemma_decimal_free(n: nat, c: char)
    requires
        !crate::text::is_digit(c),
    ensures
        free_of(decimal(n), c),
{
    crate::text::lemma_decimal_digits(n);
    let d = decimal(n);
    assert forall|i: int| 0 <= i < d.len() implies d[i] != c by {
        assert(crate::text::is_digit(d[i]));
    }
}

/// A signed or zero-padded number holds only digits and `-`.
proof fn lemma_numbers_free(i: int, w: nat, c: char)
    requires
        !crate::text::is_digit(c),
        c != '-',
    ensures
        free_of(zero_padded(i, w), c),
        free_of(signed_decimal(i), c),
{
    let m: nat = if i < 0 { (-i) as nat } else { i as nat };
    lemma_decimal_free(m, c);
    let sign: Seq<char> = if i < 0 { seq!['-'] } else { seq![] };
    let fill: int = w - sign.len() - decimal(m).len();
    let z = crate::text::zeros(if fill > 0 { fill as nat } else { 0 });
    let all = sign + z + decimal(m);
    assert forall|k: int| 0 <= k < all.len() implies all[k] != c by {
        if k >= sign.len() + z.len() {
            assert(all[k] == decimal(m)[k - sign.len() - z.len()]);
        }
    }
    assert(zero_padded(i, w) == all);
    let sd = signed_decimal(i);
    assert forall|k: int| 0 <= k < sd.len() implies sd[k] != c by {
        if i < 0 {
            if k >= 1 {
                assert(sd[k] == decimal(m)[k - 1]);
            }
        }
    }
}

/// A date cell holds only digits, `-` and `/`.
proof fn lemma_date_cell_free(d: Simpledate, c: char)
    requires
        !crate::text::is_digit(c),
        c != '-',
        c != '/',
    ensures
        free_of(date_cell(d), c),
{
    lemma_numbers_free(d.month as int, 2, c);
    lemma_numbers_free(d.day as int, 2, c);
    lemma_numbers_free(d.year as int, 4, c);
    let a = zero_padded(d.month as int, 2);
    let b = zero_padded(d.day as int, 2);
    let y = zero_padded(d.year as int, 4);
    let s = seq!['/'];
    let all = a + s + b + s + y;
    assert forall|k: int| 0 <= k < all.len() implies all[k] != c by {
        if k < a.len() {
            assert(all[k] == a[k]);
        } else if k < a.len() + 1 {
        } else if k < a.len() + 1 + b.len() {
            assert(all[k] == b[k - a.len() - 1]);
        } else if k < a.len() + 2 + b.len() {
        } else {
            assert(all[k] == y[k - a.len() - 2 - b.len()]);
        }
    }
    assert(date_cell(d) == all);
}

/// The labels hold neither a comma nor a line end, except what an unknown
/// status brings along.
proof fn lemma_labels_free(status: Seq<char>, contract_type: Seq<char>, c: char)
    requires
        c == ',' || c == '\n',
        free_of(status, c),
    ensures
        free_of(status_label_text(status), c),
        free_of(contract_type_label_text(contract_type), c),
{
    reveal_strlit("Open");
    reveal_strlit("Closed");
    reveal_strlit("Expired");
    reveal_strlit("Exercised");
    reveal_strlit("Rolled");
    reveal_strlit("BTC");
    reveal_strlit("Unknown: ");
    reveal_strlit("CSP");
    reveal_strlit("CC");
    reveal_strlit("Unknown");
    let u = "Unknown: "@ + status;
    assert forall|k: int| 0 <= k < u.len() implies u[k] != c by {
        if k >= 9 {
            assert(u[k] == status[k - 9]);
        }
    }
}

/// A trade's line is its nine fields joined by commas.
proof fn lemma_line_is_join(
    date: Simpledate,
    ticker: Seq<char>,
    price: Seq<char>,
    contract_type: Seq<char>,
    strike: Seq<char>,
    expiry: Simpledate,
    status: Seq<char>,
    quantity: u16,
    premium_cents: i64,
)
    ensures
        line_text(date, ticker, price, contract_type, strike, expiry, status, quantity, premium_cents)
            == join_on(
            line_fields(date, ticker, price, contract_type, strike, expiry, status, quantity, premium_cents),
            ',',
        ),
{
    let f = line_fields(date, ticker, price, contract_type, strike, expiry, status, quantity, premium_cents);
    assert(f.len() == 9);
    assert(join_on(f.take(1), ',') =~= f[0]);
    assert(f.take(2).drop_last() =~= f.take(1));
    assert(f.take(3).drop_last() =~= f.take(2));
    assert(f.take(4).drop_last() =~= f.take(3));
    assert(f.take(5).drop_last() =~= f.take(4));
    assert(f.take(6).drop_last() =~= f.take(5));
    assert(f.take(7).drop_last() =~= f.take(6));
    assert(f.take(8).drop_last() =~= f.take(7));
    assert(f.take(9).drop_last() =~= f.take(8));
    assert(f.take(9) =~= f);
    let c = seq![','];
    assert(join_on(f.take(2), ',') =~= f[0] + c + f[1]);
    assert(join_on(f.take(3), ',') =~= f[0] + c + f[1] + c + f[2]);
    assert(join_on(f.take(4), ',') =~= f[0] + c + f[1] + c + f[2] + c + f[3]);
    assert(join_on(f.take(5), ',') =~= f[0] + c + f[1] + c + f[2] + c + f[3] + c + f[4]);
    assert(join_on(f.take(6), ',') =~= f[0] + c + f[1] + c + f[2] + c + f[3] + c + f[4] + c
        + f[5]);
    assert(join_on(f.take(7), ',') =~= f[0] + c + f[1] + c + f[2] + c + f[3] + c + f[4] + c
        + f[5] + c + f[6]);
    assert(join_on(f.take(8), ',') =~= f[0] + c + f[1] + c + f[2] + c + f[3] + c + f[4] + c
        + f[5] + c + f[6] + c + f[7]);
    assert(join_on(f.take(9), ',') =~= f[0] + c + f[1] + c + f[2] + c + f[3] + c + f[4] + c
        + f[5] + c + f[6] + c + f[7] + c + f[8]);
    assert(line_text(date, ticker, price, contract_type, strike, expiry, status, quantity, premium_cents)
        =~= join_on(f, ','));
}

/// A trade's line holds no line end where its ticker, price, strike and
/// status hold none.
proof fn lemma_line_newline_free(
    date: Simpledate,
    ticker: Seq<char>,
    price: Seq<char>,
    contract_type: Seq<char>,
    strike: Seq<char>,
    expiry: Simpledate,
    status: Seq<char>,
    quantity: u16,
    premium_cents: i64,
)
    requires
        free_of(ticker, '\n'),
        free_of(price, '\n'),
        free_of(strike, '\n'),
        free_of(status, '\n'),
    ensures
        free_of(
            line_text(date, ticker, price, contract_type, strike, expiry, status, quantity, premium_cents),
            '\n',
        ),
{
    let f = line_fields(date, ticker, price, contract_type, strike, expiry, status, quantity, premium_cents);
    lemma_line_is_join(date, ticker, price, contract_type, strike, expiry, status, quantity, premium_cents);
    lemma_date_cell_free(date, '\n');
    lemma_date_cell_free(expiry, '\n');
    lemma_labels_free(status, contract_type, '\n');
    lemma_decimal_free(quantity as nat, '\n');
    lemma_numbers_free(premium_cents as int, 0, '\n');
    assert forall|i: int| 0 <= i < f.len() implies free_of(#[trigger] f[i], '\n') by {}
    lemma_join_free(f, ',', '\n');
}

/// Where the ticker, price, strike and status hold no comma, the line splits
/// on commas into exactly its nine fields: the dates as `MM/DD/YYYY`, the
/// type and status labels, the quantity and the premium in cents. Where they
/// hold no line end either, neither does the line.
pub proof fn law_row_fields(row: ExportRow)
    requires
        free_of(row.ticker@, ','),
        free_of(row.price@, ','),
        free_of(row.strike@, ','),
        free_of(row.status@, ','),
    ensures
        split_on(row_text(row), ',') == row_fields(row),
        row_fields(row).len() == 9,
        free_of(row.ticker@, '\n') && free_of(row.price@, '\n') && free_of(row.strike@, '\n')
            && free_of(row.status@, '\n') ==> free_of(row_text(row), '\n'),
{
    let f = row_fields(row);
    lemma_line_is_join(
        row.date,
        row.ticker@,
        row.price@,
        row.contract_type@,
        row.strike@,
        row.expiry_date,
        row.status@,
        row.quantity,
        row.premium_cents,
    );
    lemma_date_cell_free(row.date, ',');
    lemma_date_cell_free(row.expiry_date, ',');
    lemma_labels_free(row.status@, row.contract_type@, ',');
    lemma_decimal_free(row.quantity as nat, ',');
    lemma_numbers_free(row.premium_cents as int, 0, ',');
    assert forall|i: int| 0 <= i < f.len() implies free_of(#[trigger] f[i], ',') by {}
    lemma_split_join(f, ',');
    if free_of(row.ticker@, '\n') && free_of(row.price@, '\n') && free_of(row.strike@, '\n')
        && free_of(row.status@, '\n') {
        lemma_line_newline_free(
            row.date,
            row.ticker@,
            row.price@,
            row.contract_type@,
            row.strike@,
            row.expiry_date,
            row.status@,
            row.quantity,
            row.premium_cents,
        );
    }
}

// ----------------------------------------------------------------------------
// The CSV text
// ----------------------------------------------------------------------------

/// The amounts of one trade as the caller writes them: the stock price with
/// two decimals (or empty), the strike as printed, the premium in cents.
pub struct AmountCells {
    pub price: String,
    pub strike: String,
    pub premium_cents: i64,
}

/// The calendar day in UTC of a moment, where chrono has one.
pub open spec fn day_of(m: Moment) -> Option<Simpledate> {
    match utc_calendar(m.secs, m.nanos) {
        Some((y, mo, d)) => Some(Simpledate { year: y, month: mo, day: d }),
        None => None,
    }
}

/// Every trade's date and expiry have a calendar day.
pub open spec fn entries_dated(es: Seq<EntryView>) -> bool {
    forall|i: int|
        0 <= i < es.len() ==> day_of((#[trigger] es[i]).date) is Some && day_of(es[i].expiry) is Some
}

/// The days of the trades, the key of the export's order.
pub open spec fn entry_days(es: Seq<EntryView>) -> Seq<Simpledate> {
    Seq::new(es.len(), |i: int| day_of(es[i].date)->0)
}

/// The line of a trade, with its line end.
pub open spec fn entry_line(e: EntryView, c: AmountCells) -> Seq<char> {
    line_text(
        day_of(e.date)->0,
        e.ticker,
        c.price@,
        e.contract_type,
        c.strike@,
        day_of(e.expiry)->0,
        e.status,
        e.quantity,
        c.premium_cents,
    ) + seq!['\n']
}

/// The lines of the trades taken in `order`, one after another.
pub open spec fn ordered_text(es: Seq<EntryView>, cs: Seq<AmountCells>, order: Seq<usize>) -> Seq<char>
    decreases order.len(),
{
    if order.len() == 0 {
        Seq::empty()
    } else {
        ordered_text(es, cs, order.drop_last()) + entry_line(
            es[order.last() as int],
            cs[order.last() as int],
        )
    }
}

/// The CSV file of an export: one line per trade (with its amounts in `cells`,
/// in the same order), sorted by the trade's day with a stable sort, each
/// line ended by a line end, and no header. `None` where a trade has a moment
/// without a calendar day in chrono (which no `DateTime` has).
pub fn export_csv(entries: &Vec<ExportEntry>, cells: &Vec<AmountCells>) -> (r: Option<String>)
    requires
        entries.len() == cells.len(),
    ensures
        r is Some <==> entries_dated(entry_views(entries@)),
        r matches Some(t) ==> exists|order: Seq<usize>|
            #![trigger ordered_text(entry_views(entries@), cells@, order)]
            is_index_permutation(order, entries@.len()) && is_stable_date_order(
                entry_days(entry_views(entries@)),
                order,
            ) && t@ == ordered_text(entry_views(entries@), cells@, order),
{
    let ghost es = entry_views(entries@);
    let mut dates: Vec<Simpledate> = Vec::new();
    let mut lines: Vec<String> = Vec::new();
    let mut i: usize = 0;
    while i < entries.len()
        invariant
            i <= entries.len(),
            entries.len() == cells.len(),
            es == entry_views(entries@),
            dates@.len() == i,
            lines@.len() == i,
            forall|j: int| 0 <= j < i ==> day_of((#[trigger] es[j]).date) is Some && day_of(es[j].expiry) is Some,
            forall|j: int| 0 <= j < i ==> (#[trigger] dates@[j]) == day_of(es[j].date)->0,
            forall|j: int| 0 <= j < i ==> (#[trigger] lines@[j])@ == entry_line(es[j], cells@[j]),
        decreases entries.len() - i,
    {
        let e = &entries[i];
        let c = &cells[i];
        assert(es[i as int] == e@);
        let date = match calendar_of(e.date) {
            Some((y, m, d)) => Simpledate { year: y, month: m, day: d },
            None => {
                return None;
            },
        };
        let expiry = match calendar_of(e.expiry) {
            Some((y, m, d)) => Simpledate { year: y, month: m, day: d },
            None => {
                return None;
            },
        };
        let row = ExportRow {
            date,
            ticker: e.ticker.clone(),
            price: c.price.clone(),
            contract_type: e.contract_type.clone(),
            strike: c.strike.clone(),
            expiry_date: expiry,
            status: e.status.clone(),
            quantity: e.quantity,
            premium_cents: c.premium_cents,
        };
        let mut line = row_line(&row);
        push_char(&mut line, '\n');
        dates.push(date);
        lines.push(line);
        i = i + 1;
    }
    let order = date_order(&dates);
    proof {
        assert(dates@ =~= entry_days(es));
    }
    let mut out = String::new();
    let mut k: usize = 0;
    assert(order@.take(0) =~= Seq::<usize>::empty());
    while k < order.len()
        invariant
            k <= order.len(),
            order@.len() == entries.len(),
            entries.len() == cells.len(),
            lines@.len() == entries.len(),
            es == entry_views(entries@),
            forall|q: int| 0 <= q < order@.len() ==> (#[trigger] order@[q]) < entries.len(),
            forall|j: int| 0 <= j < entries.len() ==> (#[trigger] lines@[j])@ == entry_line(es[j], cells@[j]),
            out@ == ordered_text(es, cells@, order@.take(k as int)),
        decreases order.len() - k,
    {
        let idx = order[k];
        push_str(&mut out, lines[idx].as_str());
        assert(order@.take(k + 1).drop_last() =~= order@.take(k as int));
        assert(order@.take(k + 1).last() == idx);
        k = k + 1;
    }
    assert(order@.take(order.len() as int) =~= order@);
    Some(out)
}

// ----------------------------------------------------------------------------
// Laws of the export
// ----------------------------------------------------------------------------

/// The number of trades of a contract: its opening, and its closing if any.
pub open spec fn contract_trades(c: ContractView) -> nat {
    if c.close is Some {
        2
    } else {
        1
    }
}

/// The number of trades of contracts.
pub open spec fn contracts_trades(cs: Seq<ContractView>) -> nat
    decreases cs.len(),
{
    if cs.len() == 0 {
        0
    } else {
        contracts_trades(cs.drop_last()) + contract_trades(cs.last())
    }
}

/// The number of trades of positions.
pub open spec fn positions_trades(ps: Seq<PositionView>) -> nat
    decreases ps.len(),
{
    if ps.len() == 0 {
        0
    } else {
        positions_trades(ps.drop_last()) + contracts_trades(ps.last().contracts)
    }
}

proof fn lemma_contracts_count(cs: Seq<ContractView>)
    ensures
        contracts_entries(cs).len() == contracts_trades(cs),
    decreases cs.len(),
{
    if cs.len() > 0 {
        lemma_contracts_count(cs.drop_last());
    }
}

/// The export lists one trade per contract and one more per closed contract.
pub proof fn law_export_counts_trades(ps: Seq<PositionView>)
    ensures
        positions_entries(ps).len() == positions_trades(ps),
    decreases ps.len(),
{
    if ps.len() > 0 {
        law_export_counts_trades(ps.drop_last());
        lemma_contracts_count(ps.last().contracts);
    }
}

/// The number of times `c` occurs in `s`.
pub open spec fn count_of(s: Seq<char>, c: char) -> nat
    decreases s.len(),
{
    if s.len() == 0 {
        0
    } else {
        count_of(s.drop_last(), c) + if s.last() == c {
            1nat
        } else {
            0nat
        }
    }
}

proof fn lemma_count_concat(a: Seq<char>, b: Seq<char>, c: char)
    ensures
        count_of(a + b, c) == count_of(a, c) + count_of(b, c),
    decreases b.len(),
{
    if b.len() == 0 {
        assert(a + b =~= a);
    } else {
        lemma_count_concat(a, b.drop_last(), c);
        assert((a + b).drop_last() =~= a + b.drop_last());
    }
}

proof fn lemma_count_free(s: Seq<char>, c: char)
    requires
        free_of(s, c),
    ensures
        count_of(s, c) == 0,
    decreases s.len(),
{
    if s.len() > 0 {
        lemma_count_free(s.drop_last(), c);
    }
}

/// Where no ticker, status or written amount holds a line end, the CSV text
/// has exactly one line end per trade and ends with one (when there is any
/// trade); with no trades it is empty.
pub proof fn law_export_one_line_per_trade(es: Seq<EntryView>, cs: Seq<AmountCells>, order: Seq<usize>)
    requires
        cs.len() == es.len(),
        is_index_permutation(order, es.len()),
        entries_dated(es),
        forall|i: int| 0 <= i < es.len() ==> free_of((#[trigger] es[i]).ticker, '\n') && free_of(
            es[i].status,
            '\n',
        ),
        forall|i: int| 0 <= i < cs.len() ==> free_of((#[trigger] cs[i]).price@, '\n') && free_of(
            cs[i].strike@,
            '\n',
        ),
    ensures
        count_of(ordered_text(es, cs, order), '\n') == es.len(),
        es.len() > 0 ==> ordered_text(es, cs, order).last() == '\n',
        es.len() == 0 ==> ordered_text(es, cs, order) == Seq::<char>::empty(),
{
    lemma_ordered_count(es, cs, order);
}

proof fn lemma_ordered_count(es: Seq<EntryView>, cs: Seq<AmountCells>, order: Seq<usize>)
    requires
        cs.len() == es.len(),
        forall|i: int| 0 <= i < order.len() ==> (#[trigger] order[i]) < es.len(),
        forall|i: int| 0 <= i < es.len() ==> free_of((#[trigger] es[i]).ticker, '\n') && free_of(
            es[i].status,
            '\n',
        ),
        forall|i: int| 0 <= i < cs.len() ==> free_of((#[trigger] cs[i]).price@, '\n') && free_of(
            cs[i].strike@,
            '\n',
        ),
    ensures
        count_of(ordered_text(es, cs, order), '\n') == order.len(),
        order.len() > 0 ==> ordered_text(es, cs, order).last() == '\n',
        order.len() == 0 ==> ordered_text(es, cs, order) == Seq::<char>::empty(),
    decreases order.len(),
{
    if order.len() > 0 {
        let init = order.drop_last();
        assert forall|i: int| 0 <= i < init.len() implies (#[trigger] init[i]) < es.len() by {
            assert(init[i] == order[i]);
        }
        lemma_ordered_count(es, cs, init);
        let j = order.last() as int;
        assert(order[order.len() - 1] < es.len());
        let e = es[j];
        let c = cs[j];
        assert(free_of(e.ticker, '\n') && free_of(e.status, '\n'));
        assert(free_of(c.price@, '\n') && free_of(c.strike@, '\n'));
        let body = line_text(
            day_of(e.date)->0,
            e.ticker,
            c.price@,
            e.contract_type,
            c.strike@,
            day_of(e.expiry)->0,
            e.status,
            e.quantity,
            c.premium_cents,
        );
        lemma_line_newline_free(
            day_of(e.date)->0,
            e.ticker,
            c.price@,
            e.contract_type,
            c.strike@,
            day_of(e.expiry)->0,
            e.status,
            e.quantity,
            c.premium_cents,
        );
        lemma_count_free(body, '\n');
        let nl = seq!['\n'];
        assert(nl.drop_last() =~= Seq::<char>::empty());
        assert(count_of(Seq::<char>::empty(), '\n') == 0);
        assert(nl.last() == '\n');
        assert(count_of(nl, '\n') == 1);
        lemma_count_concat(body, nl, '\n');
        lemma_count_concat(ordered_text(es, cs, init), body + nl, '\n');
    }
}

/// A trade's line splits on commas into its nine fields where its ticker,
/// price, strike and status hold no comma.
proof fn lemma_line_split_fields(
    date: Simpledate,
    ticker: Seq<char>,
    price: Seq<char>,
    contract_type: Seq<char>,
    strike: Seq<char>,
    expiry: Simpledate,
    status: Seq<char>,
    quantity: u16,
    premium_cents: i64,
)
    requires
        free_of(ticker, ','),
        free_of(price, ','),
        free_of(strike, ','),
        free_of(status, ','),
    ensures
        split_on(
            line_text(date, ticker, price, contract_type, strike, expiry, status, quantity, premium_cents),
            ',',
        ) == line_fields(date, ticker, price, contract_type, strike, expiry, status, quantity, premium_cents),
{
    let f = line_fields(date, ticker, price, contract_type, strike, expiry, status, quantity, premium_cents);
    lemma_line_is_join(date, ticker, price, contract_type, strike, expiry, status, quantity, premium_cents);
    lemma_date_cell_free(date, ',');
    lemma_date_cell_free(expiry, ',');
    lemma_labels_free(status, contract_type, ',');
    lemma_decimal_free(quantity as nat, ',');
    lemma_numbers_free(premium_cents as int, 0, ',');
    assert forall|i: int| 0 <= i < f.len() implies free_of(#[trigger] f[i], ',') by {}
    lemma_split_join(f, ',');
}

/// The text of the trades in `order`, split at line ends: each trade's line
/// without its line end, then the empty rest after the last line end.
proof fn lemma_ordered_lines(es: Seq<EntryView>, cs: Seq<AmountCells>, order: Seq<usize>)
    requires
        cs.len() == es.len(),
        forall|i: int| 0 <= i < order.len() ==> (#[trigger] order[i]) < es.len(),
        forall|i: int| 0 <= i < es.len() ==> free_of((#[trigger] es[i]).ticker, '\n') && free_of(
            es[i].status,
            '\n',
        ),
        forall|i: int| 0 <= i < cs.len() ==> free_of((#[trigger] cs[i]).price@, '\n') && free_of(
            cs[i].strike@,
            '\n',
        ),
    ensures
        split_on(ordered_text(es, cs, order), '\n') == Seq::new(
            order.len(),
            |k: int| entry_line(es[order[k] as int], cs[order[k] as int]).drop_last(),
        ).push(Seq::<char>::empty()),
    decreases order.len(),
{
    let lines = Seq::new(
        order.len(),
        |k: int| entry_line(es[order[k] as int], cs[order[k] as int]).drop_last(),
    );
    if order.len() == 0 {
        assert(split_on(Seq::<char>::empty(), '\n') =~= lines.push(Seq::<char>::empty()));
    } else {
        let init = order.drop_last();
        assert forall|i: int| 0 <= i < init.len() implies (#[trigger] init[i]) < es.len() by {
            assert(init[i] == order[i]);
        }
        lemma_ordered_lines(es, cs, init);
        let t0 = ordered_text(es, cs, init);
        let l0 = Seq::new(
            init.len(),
            |k: int| entry_line(es[init[k] as int], cs[init[k] as int]).drop_last(),
        );
        let j = order.last() as int;
        assert(order[order.len() - 1] < es.len());
        let e = es[j];
        let c = cs[j];
        let body = line_text(
            day_of(e.date)->0,
            e.ticker,
            c.price@,
            e.contract_type,
            c.strike@,
            day_of(e.expiry)->0,
            e.status,
            e.quantity,
            c.premium_cents,
        );
        lemma_line_newline_free(
            day_of(e.date)->0,
            e.ticker,
            c.price@,
            e.contract_type,
            c.strike@,
            day_of(e.expiry)->0,
            e.status,
            e.quantity,
            c.premium_cents,
        );
        assert(entry_line(e, c).drop_last() =~= body);
        let text = ordered_text(es, cs, order);
        assert(text =~= (t0 + body).push('\n'));
        assert((t0 + body).push('\n').drop_last() =~= t0 + body);
        lemma_split_on_suffix(t0, body, '\n');
        let s0 = split_on(t0, '\n');
        assert(s0 == l0.push(Seq::<char>::empty()));
        assert(s0.last() + body =~= body);
        assert(split_on(t0 + body, '\n') =~= l0.push(body));
        assert(split_on(text, '\n') == l0.push(body).push(Seq::<char>::empty()));
        assert(l0.push(body) =~= lines);
    }
}

/// Each line of the CSV text holds the trade in its place in the order, field
/// by field: the trade's UTC day as `MM/DD/YYYY`, its ticker, the written
/// price, the type label, the written strike, the UTC day of the contract's
/// expiry as `MM/DD/YYYY`, the status label, the quantity and the premium in
/// cents. After the last line end nothing follows. This holds where no
/// ticker, status or written amount holds a comma or a line end.
pub proof fn law_export_lines_hold_their_trades(
    es: Seq<EntryView>,
    cs: Seq<AmountCells>,
    order: Seq<usize>,
)
    requires
        cs.len() == es.len(),
        forall|i: int| 0 <= i < order.len() ==> (#[trigger] order[i]) < es.len(),
        forall|i: int|
            0 <= i < es.len() ==> free_of((#[trigger] es[i]).ticker, '\n') && free_of(es[i].status, '\n')
                && free_of(es[i].ticker, ',') && free_of(es[i].status, ','),
        forall|i: int|
            0 <= i < cs.len() ==> free_of((#[trigger] cs[i]).price@, '\n') && free_of(cs[i].strike@, '\n')
                && free_of(cs[i].price@, ',') && free_of(cs[i].strike@, ','),
    ensures
        split_on(ordered_text(es, cs, order), '\n').len() == order.len() + 1,
        split_on(ordered_text(es, cs, order), '\n').last() == Seq::<char>::empty(),
        forall|k: int|
            0 <= k < order.len() ==> {
                let e = es[order[k] as int];
                let c = cs[order[k] as int];
                let f = split_on(#[trigger] split_on(ordered_text(es, cs, order), '\n')[k], ',');
                &&& f.len() == 9
                &&& f[0] == date_cell(day_of(e.date)->0)
                &&& f[1] == e.ticker
                &&& f[2] == c.price@
                &&& f[3] == contract_type_label_text(e.contract_type)
                &&& f[4] == c.strike@
                &&& f[5] == date_cell(day_of(e.expiry)->0)
                &&& f[6] == status_label_text(e.status)
                &&& f[7] == decimal(e.quantity as nat)
                &&& f[8] == signed_decimal(c.premium_cents as int)
            },
{
    lemma_ordered_lines(es, cs, order);
    let lines = split_on(ordered_text(es, cs, order), '\n');
    assert forall|k: int| 0 <= k < order.len() implies {
        let e = es[order[k] as int];
        let c = cs[order[k] as int];
        let f = split_on(#[trigger] lines[k], ',');
        &&& f.len() == 9
        &&& f[0] == date_cell(day_of(e.date)->0)
        &&& f[1] == e.ticker
        &&& f[2] == c.price@
        &&& f[3] == contract_type_label_text(e.contract_type)
        &&& f[4] == c.strike@
        &&& f[5] == date_cell(day_of(e.expiry)->0)
        &&& f[6] == status_label_text(e.status)
        &&& f[7] == decimal(e.quantity as nat)
        &&& f[8] == signed_decimal(c.premium_cents as int)
    } by {
        let j = order[k] as int;
        let e = es[j];
        let c = cs[j];
        assert(free_of(e.ticker, ',') && free_of(e.status, ','));
        assert(free_of(c.price@, ',') && free_of(c.strike@, ','));
        let body = line_text(
            day_of(e.date)->0,
            e.ticker,
            c.price@,
            e.contract_type,
            c.strike@,
            day_of(e.expiry)->0,
            e.status,
            e.quantity,
            c.premium_cents,
        );
        assert(entry_line(e, c).drop_last() =~= body);
        assert(lines[k] == body);
        lemma_line_split_fields(
            day_of(e.date)->0,
            e.ticker,
            c.price@,
            e.contract_type,
            c.strike@,
            day_of(e.expiry)->0,
            e.status,
            e.quantity,
            c.premium_cents,
        );
    }
}

} // verus!
