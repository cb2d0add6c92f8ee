use optionsbot::chat::{label_display, reply_for, message, startup_message};

#[test]
fn money_mouth_is_answered_in_any_case() {
    assert_eq!(message(false, "money mouth"), Some("I'm moneying my mouth".to_string()));
    assert_eq!(message(false, "Money MOUTH"), Some("I'm moneying my mouth".to_string()));
    assert_eq!(message(false, "money mouth!"), None);
    assert_eq!(message(false, " money mouth"), None);
}

#[test]
fn bots_get_no_reply() {
    assert_eq!(message(true, "money mouth"), None);
    assert_eq!(reply_for(true, "money mouth"), None);
}

#[test]
fn reply_for_takes_lowered_text() {
    assert_eq!(reply_for(false, "money mouth"), Some("I'm moneying my mouth".to_string()));
    assert_eq!(reply_for(false, "Money mouth"), None);
}

#[test]
fn startup_messages() {
    assert_eq!(startup_message(2), "Fiddlesticks Dockerically :face_with_monocle:");
    assert_eq!(startup_message(1), "Fiddlesticks Laptopically :money_mouth:");
    assert_eq!(startup_message(0), "Fiddlesticks :money_mouth:");
    assert_eq!(startup_message(-1), "Fiddlesticks :money_mouth:");
}

#[test]
fn label_display_counts_from_one() {
    assert_eq!(label_display(0, 3, &"hi".to_string()), "-# 1/3\nhi");
    assert_eq!(label_display(41, 100, &"".to_string()), "-# 42/100\n");
}
