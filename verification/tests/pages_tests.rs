use apex_oled::pages::{clock, spectrum, system, weather, SystemView, Time, BARS};
use apex_oled::weather::{describe, Forecast};

fn lit(f: &apex_oled::frame::Frame, x: usize, y: usize) -> bool {
    f.0[1 + y * 16 + x / 8] & (0x80 >> (x % 8)) != 0
}

fn count(f: &apex_oled::frame::Frame, x0: usize, x1: usize, y0: usize, y1: usize) -> usize {
    let mut n = 0;
    for y in y0..y1 {
        for x in x0..x1 {
            if lit(f, x, y) {
                n += 1;
            }
        }
    }
    n
}

fn time(sec: i32) -> Time {
    Time { sec, min: 7, hour: 9, mday: 25, mon: 8, wday: 4 }
}

fn forecast() -> Forecast {
    Forecast {
        code: 61,
        day: false,
        temp: "17".to_string(),
        high: "22".to_string(),
        low: "12".to_string(),
        graph: vec![1, 19, 10],
        rain: vec![0, 10, 3],
    }
}

#[test]
fn spectrum_bars_are_mirrored_around_the_middle_row() {
    let mut bars = [0u8; BARS];
    bars[1] = 255;
    bars[2] = 134;
    let f = spectrum(&bars);
    // silence is a single dot on the middle row
    assert!(lit(&f, 0, 19) && !lit(&f, 0, 18) && !lit(&f, 0, 20));
    assert_eq!(count(&f, 2, 3, 0, 40), 39);
    assert_eq!(count(&f, 4, 5, 0, 40), 2 * (134 * 19 / 255) + 1);
    assert_eq!(count(&f, 1, 2, 0, 40), 0);
    assert_eq!(count(&f, 127, 128, 0, 40) + count(&f, 0, 128, 39, 40), 0);
}

#[test]
fn clock_line_fills_across_the_minute() {
    let f = clock(&time(0), None);
    assert_eq!(count(&f, 0, 128, 38, 39), 1);
    let f = clock(&time(59), None);
    assert_eq!(count(&f, 0, 128, 38, 39), 90);
    // the digits are drawn
    assert!(count(&f, 0, 90, 0, 35) > 50);
    // date in the right column
    assert!(count(&f, 100, 127, 0, 37) > 10);
}

#[test]
fn clock_with_a_forecast_shows_the_weather_icon() {
    let w = forecast();
    let with = clock(&time(30), Some(&w));
    let without = clock(&time(30), None);
    assert!(!with.same_as(&without));
    assert!(count(&with, 110, 127, 11, 27) > 5);
}

#[test]
fn weather_page_waits_for_a_forecast() {
    let f = weather(None);
    assert!(count(&f, 0, 128, 14, 24) > 20);
    assert_eq!(count(&f, 0, 128, 30, 40), 0);
}

#[test]
fn weather_page_draws_graph_rain_and_baseline() {
    let f = weather(Some(&forecast()));
    // baseline under the rain bars
    assert_eq!(count(&f, 78, 125, 38, 39), 47);
    // rain bar of hour 1 is 10 high, of hour 0 empty
    assert_eq!(count(&f, 80, 81, 29, 38), 9);
    assert_eq!(count(&f, 78, 79, 29, 38), 0);
    // the temperature line runs from (78, 1) down to (80, 19)
    assert!(lit(&f, 78, 1) && lit(&f, 80, 19));
    // icon and text on the left
    assert!(count(&f, 0, 34, 3, 35) > 20);
}

#[test]
fn system_page_draws_one_bar_per_thread() {
    let s = SystemView {
        threads: vec![21, 1, 11, 5],
        cpu: "CPU  12% 48\u{b0}".to_string(),
        gpu: Some((51, 7)),
        ram: "RAM 9.5/31G".to_string(),
        ram_fill: 13,
    };
    let f = system(&s);
    // 32 px slots, 31 px wide bars growing up from row 20
    assert_eq!(count(&f, 0, 31, 0, 21), 31 * 21);
    assert_eq!(count(&f, 31, 32, 0, 21), 0);
    assert_eq!(count(&f, 32, 63, 0, 21), 31);
    assert_eq!(count(&f, 64, 95, 0, 21), 31 * 11);
    // memory gauge: border plus 13 x 3 fill
    assert_eq!(count(&f, 79, 127, 32, 39), 2 * 48 + 2 * 5 + 13 * 3);
    // CPU and GPU text on row 29
    assert!(count(&f, 0, 60, 22, 30) > 10);
    assert!(count(&f, 70, 127, 22, 30) > 10);
}

#[test]
fn describe_groups_weather_codes() {
    assert_eq!(describe(2, false), ('B', "Partly"));
    assert_eq!(describe(0, true), ('E', "Clear"));
    assert_eq!(describe(0, false), ('B', "Clear"));
    assert_eq!(describe(1, true), ('A', "Partly"));
    assert_eq!(describe(48, true), ('@', "Fog"));
    assert_eq!(describe(55, true), ('C', "Drizzle"));
    assert_eq!(describe(61, true), ('C', "Drizzle"));
    assert_eq!(describe(81, false), ('C', "Rain"));
    assert_eq!(describe(86, true), ('@', "Snow"));
    assert_eq!(describe(96, true), ('C', "Storm"));
    assert_eq!(describe(3, true), ('@', "Cloudy"));
}

#[test]
fn weather_page_rings_the_temperature() {
    let f = weather(Some(&forecast()));
    // a column with pixels near the top but none lower down is the ring, not a digit
    let ring = (35..78).any(|x| count(&f, x, x + 1, 0, 8) > 0 && count(&f, x, x + 1, 8, 24) == 0);
    assert!(ring);
}

#[test]
fn thirty_two_threads_get_four_pixel_slots() {
    let s = SystemView { threads: vec![1; 32], cpu: String::new(), gpu: None, ram: String::new(), ram_fill: 0 };
    let f = system(&s);
    // each idle thread shows a 3 px wide, 1 px high bar on row 20, then a 1 px gap
    assert_eq!(count(&f, 0, 128, 20, 21), 32 * 3);
    assert!(lit(&f, 124, 20) && lit(&f, 126, 20) && !lit(&f, 127, 20) && !lit(&f, 3, 20));
}

#[test]
fn many_threads_leave_the_last_column_free() {
    let s = SystemView { threads: vec![1; 200], cpu: String::new(), gpu: None, ram: String::new(), ram_fill: 0 };
    let f = system(&s);
    // one pixel per thread in columns 0..=126; threads that find no room are not drawn
    assert_eq!(count(&f, 0, 128, 20, 21), 127);
    assert!(lit(&f, 126, 20) && !lit(&f, 127, 20));
    let s = SystemView { threads: vec![1; 128], cpu: String::new(), gpu: None, ram: String::new(), ram_fill: 0 };
    assert!(!lit(&system(&s), 127, 20));
}

#[test]
fn memory_gauge_fills_at_most_its_width() {
    let full = SystemView { threads: vec![], cpu: String::new(), gpu: None, ram: String::new(), ram_fill: 44 };
    let over = SystemView { threads: vec![], cpu: String::new(), gpu: None, ram: String::new(), ram_fill: 500 };
    let a = system(&full);
    let b = system(&over);
    assert!(a.same_as(&b));
    assert!(lit(&a, 124, 35) && !lit(&a, 125, 35) && lit(&a, 126, 35));
}

#[test]
fn hours_past_the_last_column_are_not_drawn() {
    let mut long = forecast();
    long.graph = vec![10; 200];
    long.rain = vec![5; 200];
    let mut short = forecast();
    short.graph = vec![10; 26];
    short.rain = vec![5; 25];
    let a = weather(Some(&long));
    let b = weather(Some(&short));
    assert!(a.same_as(&b));
    // the last rain bar stands in column 126
    assert!(lit(&a, 126, 34) && !lit(&a, 127, 34));
}
