use vstd::prelude::*;
use vstd::string::StringExecFns;

use crate::fraction::{percent_of, Fraction};

verus! {

/// The name the daemon gives itself to the notification service.
pub const APP_NAME: &'static str = "Blight notify";

/// The identity of every notification, so that each one replaces the last.
pub const NOTIFICATION_ID: u32 = 696969;

pub open spec fn digit_char(d: nat) -> char {
    if d == 0 {
        '0'
    } else if d == 1 {
        '1'
    } else if d == 2 {
        '2'
    } else if d == 3 {
        '3'
    } else if d == 4 {
        '4'
    } else if d == 5 {
        '5'
    } else if d == 6 {
        '6'
    } else if d == 7 {
        '7'
    } else if d == 8 {
        '8'
    } else {
        '9'
    }
}

/// The decimal digits of `n`, most significant first.
pub open spec fn decimal(n: nat) -> Seq<char>
    decreases n,
{
    if n < 10 {
        seq![digit_char(n)]
    } else {
        decimal(n / 10).push(digit_char(n % 10))
    }
}

/// The body of the notification for a reading: the message, a space, and
/// the percentage followed by a percent sign.
pub open spec fn body_of(message: Seq<char>, level: Fraction) -> Seq<char> {
    message + seq![' '] + decimal(percent_of(level.current as nat, level.maximum as nat)) + seq![
        '%',
    ]
}

fn digit_str(d: u8) -> (r: &'static str)
    requires
        d < 10,
    ensures
        r@ == seq![digit_char(d as nat)],
{
    proof {
        reveal_strlit("0");
        reveal_strlit("1");
        reveal_strlit("2");
        reveal_strlit("3");
        reveal_strlit("4");
        reveal_strlit("5");
        reveal_strlit("6");
        reveal_strlit("7");
        reveal_strlit("8");
        reveal_strlit("9");
    }
    match d {
        0 => "0",
        1 => "1",
        2 => "2",
        3 => "3",
        4 => "4",
        5 => "5",
        6 => "6",
        7 => "7",
        8 => "8",
        _ => "9",
    }
}

fn push_decimal(s: &mut String, n: u8)
    ensures
        final(s)@ == old(s)@ + decimal(n as nat),
    decreases n,
{
    if n >= 10 {
        push_decimal(s, n / 10);
    }
    s.append(digit_str(n % 10));
    proof {
        if n >= 10 {
            assert(old(s)@ + decimal(n as nat) =~= old(s)@ + decimal((n / 10) as nat) + seq![
                digit_char((n % 10) as nat),
            ]);
        } else {
            assert(old(s)@ + decimal(n as nat) =~= old(s)@ + seq![digit_char(n as nat)]);
        }
    }
}

/// The body of the notification that shows `level`.
pub fn notification_body(message: &str, level: Fraction) -> (r: String)
    requires
        level.wf(),
    ensures
        r@ == body_of(message@, level),
{
    let mut s = String::from_str(message);
    proof {
        reveal_strlit(" ");
        reveal_strlit("%");
    }
    s.append(" ");
    push_decimal(&mut s, level.percent());
    s.append("%");
    s
}

/// How long a notification stays on screen.
#[derive(Clone, Copy, Debug, PartialEq, Eq, Structural)]
pub enum Expiry {
    /// As long as the notification service chooses.
    Default,
    /// Until it is dismissed.
    Never,
    /// This many milliseconds.
    Milliseconds(u32),
}

/// Which icon a notification carries.
#[derive(Clone, Debug, PartialEq, Eq)]
pub enum Icon {
    /// The one the notification service picks.
    Auto,
    /// A named icon, or the path of an image.
    Named(String),
}

/// What the user chose for the notifications.
#[derive(Clone, Debug)]
pub struct Settings {
    pub title: String,
    pub message: String,
    pub icon: Option<String>,
    pub expiry: Expiry,
}

/// A notification ready to be handed to the notification service; its
/// urgency is always low.
#[derive(Clone, Debug)]
pub struct Request {
    pub app_name: String,
    pub id: u32,
    pub summary: String,
    pub body: String,
    pub icon: Icon,
    pub expiry: Expiry,
}

/// The notification that shows a settled reading under `settings`.
pub fn notification_for(settings: &Settings, level: Fraction) -> (r: Request)
    requires
        level.wf(),
    ensures
        r.app_name@ == APP_NAME@,
        r.id == NOTIFICATION_ID,
        r.summary@ == settings.title@,
        r.body@ == body_of(settings.message@, level),
        r.expiry == settings.expiry,
        match settings.icon {
            Some(name) => r.icon matches Icon::Named(n) && n@ == name@,
            None => r.icon is Auto,
        },
{
    let icon = match &settings.icon {
        Some(name) => Icon::Named(name.clone()),
        None => Icon::Auto,
    };
    Request {
        app_name: String::from_str(APP_NAME),
        id: NOTIFICATION_ID,
        summary: settings.title.clone(),
        body: notification_body(settings.message.as_str(), level),
        icon,
        expiry: settings.expiry,
    }
}

} // verus!
