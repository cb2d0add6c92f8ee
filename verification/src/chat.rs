//! What the bot says: replies to chat messages, its greeting, list labels.
use vstd::prelude::*;
use vstd::string::*;

use crate::text::{decimal, push_char, push_decimal, push_str, same_text};

verus! {

/// The lowercase form of `text` that std's `str::to_lowercase` gives
/// (Unicode's `Lowercase` mapping).
pub uninterp spec fn lowercase_of(text: Seq<char>) -> Seq<char>;

/// An ASCII character in lowercase.
pub open spec fn ascii_lower_char(c: char) -> char {
    if 'A' <= c && c <= 'Z' {
        ((c as int) + 32) as char
    } else {
        c
    }
}

/// Every character is ASCII.
pub open spec fn all_ascii(s: Seq<char>) -> bool {
    forall|i: int| 0 <= i < s.len() ==> (#[trigger] s[i]) as int <= 127
}

/// std's `str::to_lowercase`. On ASCII text it lowers `A`..=`Z` and keeps
/// every other character; on other text it follows Unicode, which this
/// contract does not spell out (the result is named `lowercase_of`).
#[verifier::external_body]
pub fn to_lowercase(text: &str) -> (r: String)
    ensures
        r@ == lowercase_of(text@),
        all_ascii(text@) ==> r@ == text@.map_values(|c: char| ascii_lower_char(c)),
{
    text.to_lowercase()
}

/// The reply to a message whose lowercased text is `lowered`: bots get none;
/// "money mouth" gets "I'm moneying my mouth".
pub open spec fn spec_reply(from_bot: bool, lowered: Seq<char>) -> Option<Seq<char>> {
    if from_bot {
        None
    } else if lowered == "money mouth"@ {
        Some("I'm moneying my mouth"@)
    } else {
        None
    }
}

/// The reply to a message whose text, lowercased, is `lowered`.
pub fn reply_for(from_bot: bool, lowered: &str) -> (r: Option<String>)
    ensures
        match (r, spec_reply(from_bot, lowered@)) {
            (Some(t), Some(u)) => t@ == u,
            (None, None) => true,
            _ => false,
        },
{
    if from_bot {
        return None;
    }
    if same_text(lowered, "money mouth") {
        Some(String::from_str("I'm moneying my mouth"))
    } else {
        None
    }
}

/// The reply to a chat message, matched without regard to case.
pub fn message(from_bot: bool, content: &str) -> (r: Option<String>)
    ensures
        match (r, spec_reply(from_bot, lowercase_of(content@))) {
            (Some(t), Some(u)) => t@ == u,
            (None, None) => true,
            _ => false,
        },
{
    if from_bot {
        return None;
    }
    let lowered = to_lowercase(content);
    reply_for(from_bot, lowered.as_str())
}

/// The greeting the bot posts when it starts, by where it runs: 2 in a
/// container, 1 on a laptop, anywhere else the plain greeting.
pub open spec fn startup_text(laptop: i32) -> Seq<char> {
    if laptop == 2 {
        "Fiddlesticks Dockerically :face_with_monocle:"@
    } else if laptop == 1 {
        "Fiddlesticks Laptopically :money_mouth:"@
    } else {
        "Fiddlesticks :money_mouth:"@
    }
}

/// The greeting for the host kind `laptop`.
pub fn startup_message(laptop: i32) -> (r: String)
    ensures
        r@ == startup_text(laptop),
{
    if laptop == 2 {
        String::from_str("Fiddlesticks Dockerically :face_with_monocle:")
    } else if laptop == 1 {
        String::from_str("Fiddlesticks Laptopically :money_mouth:")
    } else {
        String::from_str("Fiddlesticks :money_mouth:")
    }
}

/// An item of a paged list: a small header `-# k/n` (counting from 1) over the text.
pub open spec fn label_text(index: u32, length: u32, s: Seq<char>) -> Seq<char> {
    seq!['-', '#', ' '] + decimal((index + 1) as nat) + seq!['/'] + decimal(length as nat) + seq![
        '\n',
    ] + s
}

/// Labels the item at `index` of `length` items.
pub fn label_display(index: u32, length: u32, string: &String) -> (r: String)
    requires
        index < u32::MAX,
    ensures
        r@ == label_text(index, length, string@),
{
    let mut r = String::new();
    push_char(&mut r, '-');
    push_char(&mut r, '#');
    push_char(&mut r, ' ');
    push_decimal(&mut r, (index + 1) as u64);
    push_char(&mut r, '/');
    push_decimal(&mut r, length as u64);
    push_char(&mut r, '\n');
    push_str(&mut r, string.as_str());
    assert(r@ =~= label_text(index, length, string@));
    r
}

} // verus!
