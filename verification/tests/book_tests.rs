use optionsbot::book::{
    add_position, clear_selection, get_options_db_path, get_selected_position, new_book,
    position_list_replace, select_position, OptionsBook,
};
use optionsbot::commands::{
    all_positions_readable, apply_close, apply_date, apply_edit, apply_expire, apply_roll,
    apply_split, RollTerms, SplitFailure,
};
use optionsbot::position::{Amount, Contract, ContractEdits, OptionOpen, Position};
use optionsbot::text::IntParseError;
use optionsbot::time::{DateEditError, Moment};

fn amount(x: f64) -> Amount {
    Amount { bits: x.to_bits() }
}

fn position(ticker: &str, quantity: u16) -> Position {
    Position {
        contracts: vec![Contract {
            open: OptionOpen {
                date: Moment { secs: 1709658000, nanos: 0 },
                open_type: "call".to_string(),
                ticker: ticker.to_string(),
                strike: amount(10.0),
                expiry: Moment { secs: 1710532800, nanos: 0 },
                premium: amount(0.5),
                quantity,
                status: "open".to_string(),
            },
            close: None,
        }],
    }
}

fn book(edit_id: Option<i32>) -> OptionsBook {
    OptionsBook {
        edit_id,
        positions: vec![Some(position("AAA", 1)), Some(position("BBB", 4)), None],
    }
}

fn err_of(b: &OptionsBook) -> String {
    match get_selected_position(b) {
        Ok(_) => panic!("expected an error"),
        Err(e) => e,
    }
}

#[test]
fn selection_errors() {
    assert_eq!(err_of(&book(None)), "Failed to retrieve edit_id");
    assert_eq!(err_of(&book(Some(-1))), "No open position selected");
    assert_eq!(err_of(&book(Some(3))), "Invalid selection");
    assert_eq!(err_of(&book(Some(7))), "Invalid selection");
    assert_eq!(err_of(&book(Some(2))), "Failed to retrieve position");
    assert_eq!(err_of(&book(Some(-2))), "Failed to retrieve position");
}

#[test]
fn selection_reads_the_indexed_position() {
    let b = book(Some(1));
    let sel = get_selected_position(&b).ok().unwrap();
    assert_eq!(sel.index, 1);
    assert_eq!(sel.position.contracts[0].open.ticker, "BBB");
}

#[test]
fn replace_then_select_reads_what_was_written() {
    let mut b = OptionsBook { edit_id: Some(0), positions: vec![Some(position("AAA", 1)), Some(position("BBB", 2))] };
    position_list_replace(&mut b, 0, position("ZZZ", 9));
    let sel = get_selected_position(&b).ok().unwrap();
    assert_eq!(sel.position.contracts[0].open.ticker, "ZZZ");
    assert_eq!(sel.index, 0);
    assert_eq!(b.positions[1].as_ref().unwrap().contracts[0].open.ticker, "BBB");
}

#[test]
fn clearing_selects_nothing() {
    let mut b = book(Some(1));
    clear_selection(&mut b);
    assert_eq!(b.edit_id, Some(-1));
    assert_eq!(err_of(&b), "No open position selected");
    select_position(&mut b, 0);
    assert_eq!(get_selected_position(&b).ok().unwrap().index, 0);
}

#[test]
fn new_book_is_empty_and_unselected() {
    let mut b = new_book();
    assert_eq!(b.edit_id, Some(-1));
    assert!(b.positions.is_empty());
    add_position(&mut b, position("AAA", 1));
    assert_eq!(b.positions.len(), 1);
}

#[test]
fn db_path() {
    assert_eq!(get_options_db_path("data", "1234"), "data/options1234.db");
}

#[test]
fn readability() {
    assert!(!all_positions_readable(&book(None)));
    let b = OptionsBook { edit_id: None, positions: vec![Some(position("A", 1))] };
    assert!(all_positions_readable(&b));
}

fn readable(edit_id: i32) -> OptionsBook {
    OptionsBook {
        edit_id: Some(edit_id),
        positions: vec![Some(position("AAA", 1)), Some(position("BBB", 4))],
    }
}

#[test]
fn apply_split_writes_back_and_adds() {
    let mut b = readable(1);
    let sel = get_selected_position(&b).ok().unwrap();
    let reply = apply_split(&mut b, sel, "1").ok().unwrap();
    assert_eq!(reply, "Position split successfully. Original quantity: 3, Split quantity: 1");
    assert_eq!(b.positions.len(), 3);
    assert_eq!(b.positions[1].as_ref().unwrap().contracts[0].open.quantity, 3);
    assert_eq!(b.positions[2].as_ref().unwrap().contracts[0].open.quantity, 1);
    assert_eq!(b.positions[2].as_ref().unwrap().contracts[0].open.ticker, "BBB");
}

#[test]
fn apply_split_refusals_leave_the_book() {
    let mut b = readable(1);
    let sel = get_selected_position(&b).ok().unwrap();
    assert_eq!(apply_split(&mut b, sel, "x").err(), Some(SplitFailure::NotANumber(IntParseError::InvalidDigit)));
    let sel = get_selected_position(&b).ok().unwrap();
    assert_eq!(apply_split(&mut b, sel, "4").err(), Some(SplitFailure::OutOfRange));
    let sel = get_selected_position(&b).ok().unwrap();
    assert_eq!(apply_split(&mut b, sel, "0").err(), Some(SplitFailure::OutOfRange));
    assert_eq!(b.positions.len(), 2);
    assert_eq!(b.positions[1].as_ref().unwrap().contracts[0].open.quantity, 4);
}

#[test]
fn apply_close_expire_roll_edit() {
    let mut b = readable(0);
    let sel = get_selected_position(&b).ok().unwrap();
    apply_close(&mut b, sel, Moment { secs: 5, nanos: 0 }, amount(0.1));
    assert_eq!(b.positions[0].as_ref().unwrap().contracts[0].open.status, "closed");
    assert_eq!(b.edit_id, Some(-1));
    select_position(&mut b, 0);

    let sel = get_selected_position(&b).ok().unwrap();
    apply_expire(&mut b, sel);
    assert_eq!(b.positions[0].as_ref().unwrap().contracts[0].open.status, "expired");
    assert_eq!(b.edit_id, Some(-1));
    select_position(&mut b, 0);

    let sel = get_selected_position(&b).ok().unwrap();
    let terms = RollTerms {
        closed_at: Moment { secs: 6, nanos: 0 },
        opened_at: Moment { secs: 7, nanos: 0 },
        expiry: Moment { secs: 8, nanos: 0 },
        premium_loss: amount(0.2),
        premium_gain: amount(0.3),
        strike: None,
    };
    apply_roll(&mut b, sel, terms);
    assert_eq!(b.positions[0].as_ref().unwrap().contracts.len(), 2);
    assert_eq!(b.edit_id, Some(0));

    let sel = get_selected_position(&b).ok().unwrap();
    let edits = ContractEdits { ticker: None, strike: None, expiry: None, premium: None, quantity: Some(9) };
    apply_edit(&mut b, sel, edits);
    assert_eq!(b.edit_id, Some(-1));
    assert_eq!(b.positions[0].as_ref().unwrap().contracts[1].open.quantity, 9);
    assert_eq!(b.positions[0].as_ref().unwrap().contracts[0].open.quantity, 1);
}

#[test]
fn apply_date_writes_back_on_success_only() {
    let mut b = readable(1);
    let sel = get_selected_position(&b).ok().unwrap();
    assert_eq!(apply_date(&mut b, sel, Some("2025".to_string()), None, None), Ok(()));
    let secs = b.positions[1].as_ref().unwrap().contracts[0].open.date.secs;
    assert_eq!(secs, 1741194000);
    assert_eq!(b.edit_id, Some(-1));
    select_position(&mut b, 1);
    let sel = get_selected_position(&b).ok().unwrap();
    assert_eq!(apply_date(&mut b, sel, None, Some("13".to_string()), None), Err(DateEditError::InvalidDate));
    assert_eq!(b.positions[1].as_ref().unwrap().contracts[0].open.date.secs, 1741194000);
    assert_eq!(b.edit_id, Some(1));
}

#[test]
fn failed_date_edit_needs_no_readable_list() {
    let mut b = book(Some(1));
    let sel = get_selected_position(&b).ok().unwrap();
    assert_eq!(apply_date(&mut b, sel, None, Some("2".to_string()), Some("30".to_string())), Err(DateEditError::InvalidDate));
    assert_eq!(b.edit_id, Some(1));
    assert!(b.positions[2].is_none());
}

#[test]
fn empty_edit_and_empty_date_leave_the_book() {
    let mut b = readable(1);
    let sel = get_selected_position(&b).ok().unwrap();
    let none = ContractEdits { ticker: None, strike: None, expiry: None, premium: None, quantity: None };
    apply_edit(&mut b, sel, none);
    let p = b.positions[1].as_ref().unwrap();
    assert_eq!(p.contracts[0].open.quantity, 4);
    assert_eq!(p.contracts[0].open.ticker, "BBB");
    assert_eq!(err_of(&b), "No open position selected");
    select_position(&mut b, 1);
    let sel = get_selected_position(&b).ok().unwrap();
    assert_eq!(apply_date(&mut b, sel, None, None, None), Ok(()));
    assert_eq!(b.positions[1].as_ref().unwrap().contracts[0].open.date.secs, 1709658000);
    assert_eq!(err_of(&b), "No open position selected");
}
