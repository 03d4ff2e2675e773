//! The text and buttons of a question to confirm.
use super::app::{stone_under, Confirm};
use crate::game::{Player, Stone};
use crate::protocol::{GameOptions, Request};
use vstd::prelude::*;
use vstd::string::StringExecFns;

verus! {

/// The text and buttons of a question to confirm.
#[derive(Debug)]
pub struct ConfirmTexts {
    /// The title, if any.
    pub title: Option<String>,
    /// The question or notice.
    pub message: String,
    /// The button that confirms.
    pub confirm: String,
    /// The button that dismisses, if any.
    pub cancel: Option<String>,
    /// The button that confirms the other choice, if any.
    pub alt_confirm: Option<String>,
}

/// The characters of an optional string.
pub open spec fn opt_chars(s: Option<String>) -> Option<Seq<char>> {
    match s {
        Some(t) => Some(t@),
        None => None,
    }
}

/// The name of a stone.
pub open spec fn stone_name(s: Stone) -> Seq<char> {
    match s {
        Stone::Black => "Black"@,
        Stone::White => "White"@,
    }
}

/// The notice of the opponent's request to reset to `new` options, told
/// to `player` who plays under `old`.
pub open spec fn reset_notice(player: Player, old: GameOptions, new: GameOptions) -> Seq<char> {
    "The opponent requests to reset the game. Your stone will "@ + (if new.swapped == old.swapped {
        "remain"@
    } else {
        "switch to"@
    }) + " "@ + stone_name(stone_under(new, player)) + "."@
}

/// The title, message, confirming, dismissing and other buttons of a
/// question, `options` being the game options (known when the opponent
/// requests a reset).
pub open spec fn confirm_spec(c: Confirm, options: Option<GameOptions>) -> (
    Option<Seq<char>>,
    Seq<char>,
    Seq<char>,
    Option<Seq<char>>,
    Option<Seq<char>>,
) {
    let plain = |m: Seq<char>| (None::<Seq<char>>, m, "Confirm"@, Some("Cancel"@), None::<Seq<char>>);
    let noted = |m: Seq<char>| (None::<Seq<char>>, m, "Noted"@, None::<Seq<char>>, None::<Seq<char>>);
    match c {
        Confirm::MainMenu => plain("Back to main menu?"@),
        Confirm::Submit(_, None) => plain("Place one stone?"@),
        Confirm::Submit(_, Some(_)) => plain("Place two stones?"@),
        Confirm::Pass(None) => plain("Place no stone and pass?"@),
        Confirm::Pass(Some(_)) => plain("Place one stone and pass?"@),
        Confirm::BeginClaim => noted(
            "To claim a win, click on one end of a six-in-a-row and then on the other end."@,
        ),
        Confirm::Claim(t, _, _) => plain(
            if t@.len() == 0 {
                "Claim a win?"@
            } else if t@.len() == 1 {
                "Place one stone and claim a win?"@
            } else {
                "Place two stones and claim a win?"@
            },
        ),
        Confirm::RequestDraw => plain("Offer a draw?"@),
        Confirm::RequestRetract => plain("Request to retract the previous move?"@),
        Confirm::Requested(player, req) => (
            None,
            match req {
                Request::Draw => "The opponent offers a draw."@,
                Request::Retract => "The opponent requests to retract the previous move."@,
                Request::Reset(new) => reset_notice(player, options.unwrap(), new),
            },
            "Accept"@,
            Some("Ignore"@),
            Some("Decline"@),
        ),
        Confirm::RequestAccepted => noted("The opponent accepted your request."@),
        Confirm::RequestDeclined => noted("The opponent declined your request."@),
        Confirm::Resign { online } => if online {
            plain("Resign the game?"@)
        } else {
            (None, "Resign for which stone?"@, "White"@, Some("Cancel"@), Some("Black"@))
        },
        Confirm::ConnClosed(reason) => (
            Some("Connection Closed"@),
            reason@,
            "Retry"@,
            Some("Menu"@),
            None,
        ),
        Confirm::Error(message) => (Some("Error"@), message@, "Main Menu"@, None, None),
    }
}

/// The name of a stone.
fn stone_text(s: Stone) -> (r: String)
    ensures
        r@ == stone_name(s),
{
    match s {
        Stone::Black => "Black".to_owned(),
        Stone::White => "White".to_owned(),
    }
}

/// Texts with the default buttons: confirm and cancel.
fn plain_texts(message: &str) -> (r: ConfirmTexts)
    ensures
        r.title is None,
        r.message@ == message@,
        r.confirm@ == "Confirm"@,
        opt_chars(r.cancel) == Some("Cancel"@),
        r.alt_confirm is None,
{
    ConfirmTexts {
        title: None,
        message: message.to_owned(),
        confirm: "Confirm".to_owned(),
        cancel: Some("Cancel".to_owned()),
        alt_confirm: None,
    }
}

/// Texts of a notice, with one button.
fn noted_texts(message: &str) -> (r: ConfirmTexts)
    ensures
        r.title is None,
        r.message@ == message@,
        r.confirm@ == "Noted"@,
        r.cancel is None,
        r.alt_confirm is None,
{
    ConfirmTexts {
        title: None,
        message: message.to_owned(),
        confirm: "Noted".to_owned(),
        cancel: None,
        alt_confirm: None,
    }
}

/// The text and buttons of the question `c`; `options` are the game
/// options, which a reset the opponent requests is told against.
pub fn confirm_texts(c: &Confirm, options: Option<GameOptions>) -> (r: ConfirmTexts)
    requires
        c matches Confirm::Requested(_, Request::Reset(_)) ==> options is Some,
    ensures
        (opt_chars(r.title), r.message@, r.confirm@, opt_chars(r.cancel), opt_chars(r.alt_confirm))
            == confirm_spec(*c, options),
{
    match c {
        Confirm::MainMenu => plain_texts("Back to main menu?"),
        Confirm::Submit(_, None) => plain_texts("Place one stone?"),
        Confirm::Submit(_, Some(_)) => plain_texts("Place two stones?"),
        Confirm::Pass(None) => plain_texts("Place no stone and pass?"),
        Confirm::Pass(Some(_)) => plain_texts("Place one stone and pass?"),
        Confirm::BeginClaim => noted_texts(
            "To claim a win, click on one end of a six-in-a-row and then on the other end.",
        ),
        Confirm::Claim(t, _, _) => {
            if t.len() == 0 {
                plain_texts("Claim a win?")
            } else if t.len() == 1 {
                plain_texts("Place one stone and claim a win?")
            } else {
                plain_texts("Place two stones and claim a win?")
            }
        },
        Confirm::RequestDraw => plain_texts("Offer a draw?"),
        Confirm::RequestRetract => plain_texts("Request to retract the previous move?"),
        Confirm::Requested(player, req) => {
            let message = match req {
                Request::Draw => "The opponent offers a draw.".to_owned(),
                Request::Retract => "The opponent requests to retract the previous move.".to_owned(),
                Request::Reset(new) => {
                    let old = match options {
                        Some(o) => o,
                        None => GameOptions { swapped: false },
                    };
                    let mut m = "The opponent requests to reset the game. Your stone will ".to_owned();
                    if new.swapped == old.swapped {
                        m.append("remain");
                    } else {
                        m.append("switch to");
                    }
                    m.append(" ");
                    let name = stone_text(new.stone_of(*player));
                    m.append(name.as_str());
                    m.append(".");
                    m
                },
            };
            ConfirmTexts {
                title: None,
                message,
                confirm: "Accept".to_owned(),
                cancel: Some("Ignore".to_owned()),
                alt_confirm: Some("Decline".to_owned()),
            }
        },
        Confirm::RequestAccepted => noted_texts("The opponent accepted your request."),
        Confirm::RequestDeclined => noted_texts("The opponent declined your request."),
        Confirm::Resign { online } => {
            if *online {
                plain_texts("Resign the game?")
            } else {
                ConfirmTexts {
                    title: None,
                    message: "Resign for which stone?".to_owned(),
                    confirm: "White".to_owned(),
                    cancel: Some("Cancel".to_owned()),
                    alt_confirm: Some("Black".to_owned()),
                }
            }
        },
        Confirm::ConnClosed(reason) => ConfirmTexts {
            title: Some("Connection Closed".to_owned()),
            message: reason.clone(),
            confirm: "Retry".to_owned(),
            cancel: Some("Menu".to_owned()),
            alt_confirm: None,
        },
        Confirm::Error(message) => ConfirmTexts {
            title: Some("Error".to_owned()),
            message: message.clone(),
            confirm: "Main Menu".to_owned(),
            cancel: None,
            alt_confirm: None,
        },
    }
}

/// Whether the question is shown see-through, leaving the board in view:
/// so are the questions on submitting a move or claiming a win.
pub fn is_transparent(c: &Confirm) -> (r: bool)
    ensures
        r == (c is Submit || c is Pass || c is Claim),
{
    match c {
        Confirm::Submit(..) | Confirm::Pass(_) | Confirm::Claim(..) => true,
        _ => false,
    }
}

} // verus!
