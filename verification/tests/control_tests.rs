use apex_oled::cava::{cava_step, CavaStep};
use apex_oled::control::{
    minute_now, minutes_of, orbit, page_named, preview_pacing, until_next_second,
    until_next_second_after, Event, Screen, PAGES, SPECTRUM,
};
use apex_oled::frame::Frame;
use apex_oled::pages::BARS;
use apex_oled::weather::Forecast;

const USR1: i32 = 10;
const SEC: u64 = 1_000_000_000;

fn forecast() -> Forecast {
    Forecast {
        code: 0,
        day: true,
        temp: "17".to_string(),
        high: "22".to_string(),
        low: "12".to_string(),
        graph: vec![10, 12],
        rain: vec![0, 3],
    }
}

#[test]
fn next_page_signal_cycles_through_the_pages() {
    let mut s = Screen::new(USR1);
    let mut seen = vec![];
    for _ in 0..PAGES {
        assert!(!s.handle(Some(Event::Signal(USR1)), 0));
        seen.push(s.page);
    }
    assert_eq!(seen, vec![1, 2, 3, 0]);
}

#[test]
fn other_signals_quit_without_changing_anything() {
    let mut s = Screen::new(USR1);
    assert!(s.handle(Some(Event::Signal(15)), 5));
    assert_eq!(s.page, 0);
    assert!(s.handle(Some(Event::Signal(2)), 5));
}

#[test]
fn events_update_what_the_pages_draw_from() {
    let mut s = Screen::new(USR1);
    assert!(!s.handle(Some(Event::Weather(forecast())), 1));
    assert!(s.forecast.is_some());
    assert!(!s.handle(Some(Event::Idle(true)), 1));
    assert!(s.idle);
    assert!(!s.handle(None, 2));
    let mut bars = [0u8; BARS];
    assert!(!s.handle(Some(Event::Spectrum(bars)), 7));
    assert_eq!((s.bars_at, s.sound_at), (Some(7), None));
    bars[3] = 1;
    assert!(!s.handle(Some(Event::Spectrum(bars)), 9));
    assert_eq!((s.bars_at, s.sound_at), (Some(9), Some(9)));
}

#[test]
fn idle_blanks_unless_music_plays_on_the_spectrum_page() {
    let mut s = Screen::new(USR1);
    assert!(!s.blanked(0));
    s.handle(Some(Event::Idle(true)), 0);
    assert!(s.blanked(0));
    assert!(s.waits_for_event());
    for _ in 0..SPECTRUM {
        s.handle(Some(Event::Signal(USR1)), 0);
    }
    assert!(s.wants_spectrum());
    assert!(!s.waits_for_event());
    let mut bars = [0u8; BARS];
    bars[0] = 200;
    s.handle(Some(Event::Spectrum(bars)), 10 * SEC);
    assert!(!s.blanked(12 * SEC));
    assert!(s.blanked(13 * SEC));
}

#[test]
fn heard_within_is_strict_and_saturates() {
    assert!(Screen::heard_within(Some(5 * SEC), 1, 5 * SEC + SEC - 1));
    assert!(!Screen::heard_within(Some(5 * SEC), 1, 6 * SEC));
    assert!(Screen::heard_within(Some(5 * SEC), 1, 0));
    assert!(!Screen::heard_within(None, 3, 0));
}

#[test]
fn stale_bars_fall_back_to_the_flat_line() {
    let mut s = Screen::new(USR1);
    s.handle(Some(Event::Spectrum([9u8; BARS])), 100);
    assert_eq!(s.spectrum_bars(100 + SEC / 2), [9u8; BARS]);
    assert_eq!(s.spectrum_bars(100 + SEC), [0u8; BARS]);
}

#[test]
fn only_changed_frames_are_sent() {
    let mut s = Screen::new(USR1);
    let a = Frame::new();
    assert!(s.present(&a));
    assert!(!s.present(&a));
    let mut b = Frame::new();
    b.set(3, 3, true);
    assert!(s.present(&b));
    assert!(!s.present(&b));
    assert!(s.present(&a));
}

#[test]
fn page_frame_draws_the_spectrum_page() {
    let mut s = Screen::new(USR1);
    for _ in 0..SPECTRUM {
        s.handle(Some(Event::Signal(USR1)), 0);
    }
    s.handle(Some(Event::Spectrum([255u8; BARS])), 0);
    let f = s.page_frame(0, None, None);
    // every even column is lit from row 0 to row 38
    assert_eq!(f.0[1], 0xaa);
    assert_eq!(f.0[1 + 38 * 16], 0xaa);
    assert_eq!(f.0[1 + 39 * 16], 0);
}

#[test]
fn orbit_walks_a_square_every_four_minutes() {
    assert_eq!(
        [orbit(0), orbit(1), orbit(2), orbit(3), orbit(4)],
        [(false, false), (true, false), (true, true), (false, true), (false, false)]
    );
}

#[test]
fn sleeps_to_just_past_the_next_second() {
    assert_eq!(until_next_second_after(0), 1_002_000_000);
    assert_eq!(until_next_second_after(999_999_999), 2_000_001);
    let n = until_next_second();
    assert!(n > 2_000_000 && n <= 1_002_000_000);
}

#[test]
fn preview_pages_by_name() {
    assert_eq!(page_named("clock"), 0);
    assert_eq!(page_named("weather"), 1);
    assert_eq!(page_named("system"), 2);
    assert_eq!(page_named("spectrum"), 3);
    assert_eq!(page_named("anything"), 0);
    assert_eq!(preview_pacing(3), (3000, 33));
    assert_eq!(preview_pacing(1), (1000, 1000));
}

#[test]
fn cava_runs_exactly_while_wanted() {
    assert!(matches!(cava_step(None, true), CavaStep::Start));
    assert!(matches!(cava_step(None, false), CavaStep::Keep));
    assert!(matches!(cava_step(Some(true), true), CavaStep::Keep));
    assert!(matches!(cava_step(Some(true), false), CavaStep::Stop));
    assert!(matches!(cava_step(Some(false), true), CavaStep::Start));
    assert!(matches!(cava_step(Some(false), false), CavaStep::Forget));
}

#[test]
fn render_moves_the_page_along_the_orbit() {
    let mut s = Screen::new(USR1);
    for _ in 0..SPECTRUM {
        s.handle(Some(Event::Signal(USR1)), 0);
    }
    s.handle(Some(Event::Spectrum([255u8; BARS])), 0);
    let still = s.render(0, None, None, None);
    assert!(still.same_as(&s.page_frame(0, None, None)));
    // minute 2: one step right and one down; even columns become odd, row 0 goes dark
    let moved = s.render(0, None, None, Some(2));
    assert_eq!(moved.0[1], 0);
    assert_eq!(moved.0[1 + 16], 0x55);
    assert_eq!(moved.0[1 + 39 * 16], 0x55);
    // minute 4 is back where minute 0 was
    assert!(s.render(0, None, None, Some(4)).same_as(&s.render(0, None, None, Some(0))));
    assert!(s.render(0, None, None, Some(0)).same_as(&still));
}

#[test]
fn minutes_are_whole_minutes_of_the_seconds() {
    assert_eq!(minutes_of(0), 0);
    assert_eq!(minutes_of(59), 0);
    assert_eq!(minutes_of(125), 2);
    assert_eq!(minutes_of(u64::MAX), u64::MAX / 60);
    // the wall clock is past 2020
    assert!(minute_now() > 26_000_000);
}

#[test]
fn a_blanked_screen_is_offered_the_dark_frame() {
    let mut s = Screen::new(USR1);
    s.handle(Some(Event::Idle(true)), 0);
    // the clock page is up, but nothing it needs is asked for while blanked
    let f = s.frame_to_offer(0, None, None, Some(1));
    assert_eq!(f.0, Frame::new().0);
    // music on the spectrum page keeps it lit
    for _ in 0..SPECTRUM {
        s.handle(Some(Event::Signal(USR1)), 0);
    }
    s.handle(Some(Event::Spectrum([255u8; BARS])), 0);
    let f = s.frame_to_offer(SEC, None, None, Some(1));
    assert!(f.same_as(&s.render(SEC, None, None, Some(1))));
    assert_ne!(f.0, Frame::new().0);
    // three seconds of silence later it goes dark again
    assert_eq!(s.frame_to_offer(4 * SEC, None, None, Some(1)).0, Frame::new().0);
}
