use optionsbot::date::Simpledate;
use optionsbot::export::{contract_type_label, date_order, row_line, status_label, ExportRow};

fn d(year: i32, month: u32, day: u32) -> Simpledate {
    Simpledate { year, month, day }
}

#[test]
fn date_order_sorts_and_keeps_ties_in_place() {
    let dates = vec![d(2024, 3, 1), d(2023, 5, 5), d(2024, 3, 1), d(2022, 1, 1), d(2024, 2, 29)];
    assert_eq!(date_order(&dates), vec![3, 1, 4, 0, 2]);
}

#[test]
fn date_order_matches_std_stable_sort() {
    let dates = vec![
        d(2024, 1, 2), d(2024, 1, 1), d(2023, 12, 31), d(2024, 1, 1), d(2024, 1, 2), d(-5, 1, 1),
        d(2024, 2, 1), d(2024, 1, 30),
    ];
    let mut expected: Vec<usize> = (0..dates.len()).collect();
    expected.sort_by(|a, b| {
        (dates[*a].year, dates[*a].month, dates[*a].day)
            .cmp(&(dates[*b].year, dates[*b].month, dates[*b].day))
    });
    assert_eq!(date_order(&dates), expected);
}

#[test]
fn date_order_of_nothing() {
    assert_eq!(date_order(&Vec::new()), Vec::<usize>::new());
}

#[test]
fn status_labels() {
    assert_eq!(status_label("open"), "Open");
    assert_eq!(status_label("closed"), "Closed");
    assert_eq!(status_label("expired"), "Expired");
    assert_eq!(status_label("assigned"), "Exercised");
    assert_eq!(status_label("rolled"), "Rolled");
    assert_eq!(status_label("close"), "BTC");
    assert_eq!(status_label("roll"), "Rolled");
    assert_eq!(status_label("Open"), "Unknown: Open");
    assert_eq!(status_label(""), "Unknown: ");
}

#[test]
fn contract_type_labels() {
    assert_eq!(contract_type_label("put"), "CSP");
    assert_eq!(contract_type_label("call"), "CC");
    assert_eq!(contract_type_label("Put"), "Unknown");
}

fn row() -> ExportRow {
    ExportRow {
        date: d(2024, 3, 5),
        ticker: "AMZN".to_string(),
        price: "".to_string(),
        contract_type: "put".to_string(),
        strike: "180".to_string(),
        expiry_date: d(2024, 3, 15),
        status: "open".to_string(),
        quantity: 2,
        premium_cents: 150,
    }
}

#[test]
fn row_line_layout() {
    assert_eq!(row_line(&row()), "03/05/2024,AMZN,,CSP,180,03/15/2024,Open,2,150");
}

#[test]
fn row_line_pads_and_signs() {
    let mut r = row();
    r.date = d(5, 11, 9);
    r.expiry_date = d(-3, 1, 10);
    r.premium_cents = -75;
    r.price = "12.50".to_string();
    r.status = "roll".to_string();
    r.contract_type = "call".to_string();
    assert_eq!(row_line(&r), "11/09/0005,AMZN,12.50,CC,180,01/10/-003,Rolled,2,-75");
    let expected = format!(
        "{:02}/{:02}/{:04},{},{},{},{},{:02}/{:02}/{:04},{},{},{}",
        11, 9, 5, "AMZN", "12.50", "CC", "180", 1, 10, -3, "Rolled", 2, -75
    );
    assert_eq!(row_line(&r), expected);
}

use optionsbot::export::export_entries;
use optionsbot::position::{Amount, Contract, OptionClose, OptionOpen, Position};
use optionsbot::time::Moment;

fn contract(ticker: &str, opened: i64, closed: Option<i64>) -> Contract {
    Contract {
        open: OptionOpen {
            date: Moment { secs: opened, nanos: 0 },
            open_type: "put".to_string(),
            ticker: ticker.to_string(),
            strike: Amount { bits: 10.0f64.to_bits() },
            expiry: Moment { secs: opened + 100, nanos: 0 },
            premium: Amount { bits: 0.5f64.to_bits() },
            quantity: 3,
            status: if closed.is_some() { "rolled".to_string() } else { "open".to_string() },
        },
        close: closed.map(|t| OptionClose {
            date: Moment { secs: t, nanos: 0 },
            close_type: "roll".to_string(),
            premium: Amount { bits: 0.2f64.to_bits() },
        }),
    }
}

#[test]
fn export_entries_list_openings_then_closings() {
    let positions = vec![
        Position { contracts: vec![contract("AAA", 1, Some(2)), contract("AAA", 3, None)] },
        Position { contracts: vec![] },
        Position { contracts: vec![contract("BBB", 5, None)] },
    ];
    let e = export_entries(&positions);
    assert_eq!(e.len(), 4);
    assert_eq!((e[0].date.secs, e[0].closing, e[0].status.as_str()), (1, false, "rolled"));
    assert_eq!((e[1].date.secs, e[1].closing, e[1].status.as_str()), (2, true, "roll"));
    assert_eq!(e[1].premium, Amount { bits: 0.2f64.to_bits() });
    assert_eq!(e[1].expiry.secs, 101);
    assert_eq!(e[1].quantity, 3);
    assert_eq!((e[2].date.secs, e[2].closing), (3, false));
    assert_eq!((e[3].ticker.as_str(), e[3].date.secs), ("BBB", 5));
    assert_eq!(e[3].premium, Amount { bits: 0.5f64.to_bits() });
}

#[test]
fn row_line_splits_into_nine_fields() {
    let r = row();
    let line = row_line(&r);
    let fields: Vec<&str> = line.split(',').collect();
    assert_eq!(fields, vec!["03/05/2024", "AMZN", "", "CSP", "180", "03/15/2024", "Open", "2", "150"]);
    assert!(!line.contains('\n'));
}

use optionsbot::export::{export_csv, AmountCells};

fn cells(n: usize) -> Vec<AmountCells> {
    (0..n)
        .map(|i| AmountCells { price: "".to_string(), strike: "10".to_string(), premium_cents: i as i64 })
        .collect()
}

#[test]
fn export_csv_sorts_lines_by_day_stably() {
    // 2024-03-05 17:00 UTC, 2024-03-01 00:00 UTC, 2024-03-05 23:00 UTC.
    let positions = vec![
        Position { contracts: vec![contract("AAA", 1709658000, Some(1709251200))] },
        Position { contracts: vec![contract("BBB", 1709679600, None)] },
    ];
    let entries = export_entries(&positions);
    let text = export_csv(&entries, &cells(3)).unwrap();
    let lines: Vec<&str> = text.lines().collect();
    assert_eq!(lines.len(), 3);
    assert!(lines[0].starts_with("03/01/2024,AAA,,CSP,10,"));
    assert!(lines[0].ends_with(",Rolled,3,1"));
    assert!(lines[1].starts_with("03/05/2024,AAA,"));
    assert!(lines[1].ends_with(",0"));
    assert!(lines[2].starts_with("03/05/2024,BBB,"));
    assert!(text.ends_with('\n'));
    assert_eq!(text.matches('\n').count(), 3);
}

#[test]
fn export_csv_of_nothing_is_empty() {
    assert_eq!(export_csv(&Vec::new(), &Vec::new()), Some(String::new()));
}

#[test]
fn export_csv_refuses_moments_without_a_day() {
    let positions = vec![Position { contracts: vec![contract("AAA", i64::MAX / 2, None)] }];
    let entries = export_entries(&positions);
    assert_eq!(export_csv(&entries, &cells(1)), None);
}
