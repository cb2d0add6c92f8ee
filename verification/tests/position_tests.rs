use optionsbot::position::{
    change_open_date, close_contract, edit_contract, expire_contract, roll_contract,
    split_position, split_reply, Amount, Contract, ContractEdits, OptionClose, OptionOpen,
    Position, SplitError,
};
use optionsbot::text::IntParseError;
use optionsbot::time::{calendar_of, utc_at, DateEditError, Moment};

fn amount(x: f64) -> Amount {
    Amount { bits: x.to_bits() }
}

fn at(secs: i64) -> Moment {
    Moment { secs, nanos: 0 }
}

fn open_contract(quantity: u16, status: &str) -> Contract {
    Contract {
        open: OptionOpen {
            date: utc_at(2024, 3, 5, 17, 0, 0).unwrap(),
            open_type: "put".to_string(),
            ticker: "AMZN".to_string(),
            strike: amount(180.0),
            expiry: utc_at(2024, 3, 15, 20, 0, 0).unwrap(),
            premium: amount(1.5),
            quantity,
            status: status.to_string(),
        },
        close: None,
    }
}

fn position(quantities: &[u16]) -> Position {
    let n = quantities.len();
    let contracts = quantities
        .iter()
        .enumerate()
        .map(|(i, q)| open_contract(*q, if i + 1 == n { "open" } else { "rolled" }))
        .collect();
    Position { contracts }
}

#[test]
fn close_marks_current_contract() {
    let mut p = position(&[3, 2]);
    close_contract(&mut p, at(1000), amount(0.1));
    let last = &p.contracts[1];
    assert_eq!(last.open.status, "closed");
    let close: &OptionClose = last.close.as_ref().unwrap();
    assert_eq!(close.close_type, "close");
    assert_eq!(close.date, at(1000));
    assert_eq!(close.premium, amount(0.1));
    assert_eq!(p.contracts[0].open.status, "rolled");
    assert!(p.contracts[0].close.is_none());
    assert_eq!(p.contracts.len(), 2);
}

#[test]
fn expire_marks_current_contract() {
    let mut p = position(&[1]);
    expire_contract(&mut p);
    assert_eq!(p.contracts[0].open.status, "expired");
    assert!(p.contracts[0].close.is_none());
}

#[test]
fn roll_appends_an_open_contract() {
    let mut p = position(&[4]);
    let expiry = utc_at(2024, 4, 19, 20, 0, 0).unwrap();
    roll_contract(&mut p, at(10), at(11), expiry, amount(0.8), amount(0.85), None);
    assert_eq!(p.contracts.len(), 2);
    assert_eq!(p.contracts[0].open.status, "rolled");
    let c = p.contracts[0].close.as_ref().unwrap();
    assert_eq!(c.close_type, "roll");
    assert_eq!(c.premium, amount(0.8));
    assert_eq!(c.date, at(10));
    let n = &p.contracts[1].open;
    assert_eq!(n.status, "open");
    assert_eq!(n.date, at(11));
    assert_eq!(n.expiry, expiry);
    assert_eq!(n.premium, amount(0.85));
    assert_eq!(n.strike, amount(180.0));
    assert_eq!(n.quantity, 4);
    assert_eq!(n.ticker, "AMZN");
    assert_eq!(n.open_type, "put");
    assert!(p.contracts[1].close.is_none());
}

#[test]
fn roll_with_new_strike() {
    let mut p = position(&[1]);
    roll_contract(&mut p, at(1), at(2), at(3), amount(0.5), amount(0.6), Some(amount(15.0)));
    assert_eq!(p.contracts[1].open.strike, amount(15.0));
}

#[test]
fn edit_replaces_only_given_fields() {
    let mut p = position(&[2]);
    edit_contract(
        &mut p,
        ContractEdits {
            ticker: Some("TSLA".to_string()),
            strike: None,
            expiry: None,
            premium: Some(amount(2.25)),
            quantity: Some(7),
        },
    );
    let o = &p.contracts[0].open;
    assert_eq!(o.ticker, "TSLA");
    assert_eq!(o.strike, amount(180.0));
    assert_eq!(o.premium, amount(2.25));
    assert_eq!(o.quantity, 7);
    assert_eq!(o.status, "open");
}

#[test]
fn change_open_date_keeps_unset_fields() {
    let mut p = position(&[1]);
    assert_eq!(change_open_date(&mut p, None, Some("12".to_string()), None), Ok(()));
    assert_eq!(p.contracts[0].open.date, utc_at(2024, 12, 5, 17, 0, 0).unwrap());
    assert_eq!(calendar_of(p.contracts[0].open.date), Some((2024, 12, 5)));
}

#[test]
fn change_open_date_without_fields_changes_nothing() {
    let mut p = position(&[1]);
    let before = p.contracts[0].open.date;
    assert_eq!(change_open_date(&mut p, None, None, None), Ok(()));
    assert_eq!(p.contracts[0].open.date, before);
}

#[test]
fn change_open_date_refuses_bad_input() {
    let mut p = position(&[1]);
    let before = p.contracts[0].open.date;
    assert_eq!(change_open_date(&mut p, Some("20x5".to_string()), None, None), Err(DateEditError::InvalidNumber(IntParseError::InvalidDigit)));
    assert_eq!(change_open_date(&mut p, None, Some("2".to_string()), Some("30".to_string())), Err(DateEditError::InvalidDate));
    assert_eq!(p.contracts[0].open.date, before);
}

#[test]
fn split_moves_quantity_to_a_copy() {
    let p = position(&[5, 3]);
    let (kept, taken) = split_position(&p, 2).ok().unwrap();
    assert_eq!(kept.contracts[0].open.quantity, 3);
    assert_eq!(kept.contracts[1].open.quantity, 1);
    assert_eq!(taken.contracts[0].open.quantity, 2);
    assert_eq!(taken.contracts[1].open.quantity, 2);
    assert_eq!(kept.contracts[1].open.quantity + taken.contracts[1].open.quantity, 3);
    assert_eq!(taken.contracts[1].open.ticker, "AMZN");
    assert_eq!(kept.contracts[0].open.status, "rolled");
}

#[test]
fn split_saturates_earlier_contracts() {
    let p = position(&[1, 5]);
    let (kept, taken) = split_position(&p, 3).ok().unwrap();
    assert_eq!(kept.contracts[0].open.quantity, 0);
    assert_eq!(kept.contracts[1].open.quantity, 2);
    assert_eq!(taken.contracts[0].open.quantity, 3);
}

#[test]
fn split_quantity_must_be_strictly_inside() {
    let p = position(&[3]);
    assert_eq!(split_position(&p, 0).err(), Some(SplitError::QuantityOutOfRange));
    assert_eq!(split_position(&p, 3).err(), Some(SplitError::QuantityOutOfRange));
    assert_eq!(split_position(&p, 4).err(), Some(SplitError::QuantityOutOfRange));
    assert!(split_position(&p, 1).is_ok());
}

#[test]
fn split_reply_text() {
    assert_eq!(split_reply(5, 2), "Position split successfully. Original quantity: 3, Split quantity: 2");
}

#[test]
fn duplicate_and_final_contract() {
    let p = position(&[1, 2]);
    let q = p.duplicate();
    assert_eq!(q.get_final_contract().open.quantity, 2);
    assert_eq!(q.contracts.len(), 2);
}
