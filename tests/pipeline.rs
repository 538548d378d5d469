use blight_notify::coalesce::{ChannelClosed, Coalescer, Event, Wait, DRAIN_SLOTS};
use blight_notify::fraction::{read_fraction, Fraction, ReadError};
use blight_notify::level::{parse_level, LevelError};
use blight_notify::notice::{
    notification_body, notification_for, Expiry, Icon, Settings, APP_NAME, NOTIFICATION_ID,
};

fn f(current: u64, maximum: u64) -> Fraction {
    Fraction::new(current, maximum).unwrap()
}

/// Feeds the events one by one; returns what was settled, in order.
fn feed(c: &mut Coalescer, events: &[Event]) -> Vec<Fraction> {
    let mut shown = Vec::new();
    for e in events {
        if let Some(v) = c.on_event(*e).unwrap() {
            shown.push(v);
        }
    }
    shown
}

#[test]
fn level_is_trimmed_and_read() {
    assert_eq!(parse_level(b"255\n"), Ok(255));
    assert_eq!(parse_level(b"  \t937 \r\n"), Ok(937));
    assert_eq!(parse_level(b"0"), Ok(0));
    assert_eq!(parse_level(b"18446744073709551615"), Ok(u64::MAX));
}

#[test]
fn level_errors() {
    assert_eq!(parse_level(b""), Err(LevelError::Empty));
    assert_eq!(parse_level(b" \n"), Err(LevelError::Empty));
    assert_eq!(parse_level(b"12a"), Err(LevelError::NotANumber));
    assert_eq!(parse_level(b"1 2"), Err(LevelError::NotANumber));
    assert_eq!(parse_level(b"-3"), Err(LevelError::NotANumber));
    assert_eq!(parse_level(b"18446744073709551616"), Err(LevelError::TooLarge));
    assert_eq!(parse_level(b"99999999999999999999x"), Err(LevelError::NotANumber));
}

#[test]
fn fraction_from_files() {
    assert_eq!(read_fraction(b"78\n", b"100\n"), Ok(f(78, 100)));
    assert_eq!(
        read_fraction(b"x", b"100"),
        Err(ReadError::Current(LevelError::NotANumber))
    );
    assert_eq!(
        read_fraction(b"5", b""),
        Err(ReadError::Maximum(LevelError::Empty))
    );
    assert_eq!(read_fraction(b"5", b"0\n"), Err(ReadError::ZeroMaximum));
    assert!(Fraction::new(5, 0).is_none());
}

#[test]
fn percent_rounds_toward_zero() {
    assert_eq!(f(78, 100).percent(), 78);
    assert_eq!(f(29, 100).percent(), 29);
    assert_eq!(f(1, 3).percent(), 33);
    assert_eq!(f(2, 3).percent(), 66);
    assert_eq!(f(0, 937).percent(), 0);
    assert_eq!(f(937, 937).percent(), 100);
    assert_eq!(f(u64::MAX, u64::MAX).percent(), 100);
}

#[test]
fn percent_of_reading_over_maximum_is_not_clamped() {
    assert_eq!(f(150, 100).percent(), 150);
    assert_eq!(f(1000, 100).percent(), 255);
}

#[test]
fn body_shows_message_and_percent() {
    assert_eq!(
        notification_body("Brightness adjusted:", f(78, 100)),
        "Brightness adjusted: 78%"
    );
    assert_eq!(notification_body("B", f(0, 10)), "B 0%");
    assert_eq!(notification_body("B", f(10, 10)), "B 100%");
    assert_eq!(notification_body("", f(5, 100)), " 5%");
}

#[test]
fn request_carries_settings() {
    let settings = Settings {
        title: String::from("Blight"),
        message: String::from("Brightness adjusted:"),
        icon: None,
        expiry: Expiry::Milliseconds(1000),
    };
    let r = notification_for(&settings, f(42, 100));
    assert_eq!(r.app_name, APP_NAME);
    assert_eq!(r.app_name, "Blight notify");
    assert_eq!(r.id, NOTIFICATION_ID);
    assert_eq!(r.summary, "Blight");
    assert_eq!(r.body, "Brightness adjusted: 42%");
    assert_eq!(r.icon, Icon::Auto);
    assert_eq!(r.expiry, Expiry::Milliseconds(1000));

    let named = Settings {
        icon: Some(String::from("display-brightness")),
        expiry: Expiry::Never,
        ..settings
    };
    let r = notification_for(&named, f(1, 2));
    assert_eq!(r.icon, Icon::Named(String::from("display-brightness")));
    assert_eq!(r.expiry, Expiry::Never);
    assert_eq!(r.body, "Brightness adjusted: 50%");
}

#[test]
fn isolated_value_is_shown_at_once() {
    let mut c = Coalescer::new();
    assert_eq!(c.next_wait(), Wait::Block);
    assert_eq!(c.on_event(Event::Arrived(f(42, 100))), Ok(None));
    assert_eq!(c.next_wait(), Wait::Poll);
    assert_eq!(c.on_event(Event::Empty), Ok(Some(f(42, 100))));
    assert_eq!(c.next_wait(), Wait::Block);
}

#[test]
fn burst_settles_on_last_value_once() {
    let mut c = Coalescer::new();
    let mut events = vec![
        Event::Arrived(f(10, 100)),
        Event::Arrived(f(32, 100)),
        Event::Arrived(f(55, 100)),
        Event::Arrived(f(78, 100)),
    ];
    while events.len() < 2 + DRAIN_SLOTS as usize {
        events.push(Event::Empty);
    }
    let shown = feed(&mut c, &events);
    assert_eq!(shown, vec![f(78, 100)]);
    assert_eq!(c.next_wait(), Wait::Block);
    let body = notification_body("Brightness adjusted:", shown[0]);
    assert_eq!(body, "Brightness adjusted: 78%");
}

#[test]
fn burst_waits_every_slot() {
    let mut c = Coalescer::new();
    feed(&mut c, &[Event::Arrived(f(1, 10)), Event::Arrived(f(2, 10))]);
    for _ in 0..DRAIN_SLOTS - 1 {
        assert_eq!(c.next_wait(), Wait::SleepThenPoll);
        assert_eq!(c.on_event(Event::Empty), Ok(None));
    }
    assert_eq!(c.next_wait(), Wait::SleepThenPoll);
    assert_eq!(c.on_event(Event::Empty), Ok(Some(f(2, 10))));
}

#[test]
fn long_burst_shows_intermediate_value_and_restarts() {
    let mut c = Coalescer::new();
    let mut events = Vec::new();
    for i in 0..20u64 {
        events.push(Event::Arrived(f(i, 100)));
    }
    events.push(Event::Empty);
    let shown = feed(&mut c, &events);
    // twelve reads settle the first cycle on its last value; the rest starts
    // afresh: 12 and 13, then slots that read 14..19 and four empty ones
    let mut tail = Vec::new();
    for _ in 0..DRAIN_SLOTS - 7 {
        tail.push(Event::Empty);
    }
    let more = feed(&mut c, &tail);
    assert_eq!(shown, vec![f(11, 100)]);
    assert_eq!(more, vec![f(19, 100)]);
    assert_eq!(c.next_wait(), Wait::Block);
}

#[test]
fn devices_share_one_stream() {
    // readings of two devices with different maxima, interleaved in one burst
    let mut c = Coalescer::new();
    let mut events = vec![
        Event::Arrived(f(100, 1000)),
        Event::Arrived(f(3, 10)),
        Event::Arrived(f(400, 1000)),
        Event::Arrived(f(7, 10)),
    ];
    while events.len() < 2 + DRAIN_SLOTS as usize {
        events.push(Event::Empty);
    }
    assert_eq!(feed(&mut c, &events), vec![f(7, 10)]);
}

#[test]
fn closed_channel_ends_only_a_blocking_read() {
    let mut c = Coalescer::new();
    assert_eq!(c.on_event(Event::Closed), Err(ChannelClosed));
    assert_eq!(c.on_event(Event::Arrived(f(3, 4))), Ok(None));
    assert_eq!(c.on_event(Event::Closed), Ok(Some(f(3, 4))));
    assert_eq!(c.on_event(Event::Closed), Err(ChannelClosed));
}

#[test]
fn idle_empty_read_changes_nothing() {
    let mut c = Coalescer::new();
    assert_eq!(c.on_event(Event::Empty), Ok(None));
    assert_eq!(c.next_wait(), Wait::Block);
}
