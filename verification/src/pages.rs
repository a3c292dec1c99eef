//! The four pages. Pages draw inside x 0..=126, y 0..=38: the last column and row stay
//! free for the burn-in shift.
use vstd::prelude::*;
use crate::draw::{
    aligned_text_raster, circle, circle_raster, clear_of_margin, fill_rect, glyphs, glyphs_raster, in_rect, line,
    line_raster, on_border, stroke_rect, text, within_reach, Align, GlyphFont, TextFont, MAX_TEXT,
    REACH,
};
use crate::frame::{on_screen, raster_lit, Frame, H, W};
use crate::text::{chars_of, dec, dec02, dec4, lemma_dec_short, push_dec, push_dec02, push_dec4};
use crate::weather::{describe, glyph_for, label_for, lemma_label_short, Forecast};

verus! {

/// The rightmost column pages draw in.
pub const RIGHT: i32 = 126;

/// The bottom row pages draw in.
pub const BOTTOM: i32 = 38;

/// Bars on the spectrum page, one per band that cava reports.
pub const BARS: usize = 64;

/// The row the spectrum's bars are mirrored around.
pub open spec fn spectrum_mid() -> int {
    BOTTOM / 2
}

/// How far a spectrum bar of level `v` (0 to 255) reaches above and below the middle row.
pub open spec fn bar_reach(v: u8) -> int {
    v * spectrum_mid() / 255
}

/// Which pixels the spectrum page lights for the given levels.
pub open spec fn spectrum_lit(bars: Seq<u8>, x: int, y: int) -> bool {
    x % 2 == 0 && spectrum_mid() - bar_reach(bars[x / 2]) <= y <= spectrum_mid() + bar_reach(
        bars[x / 2],
    )
}

/// The spectrum page lights nothing in the last column or the last row, which the burn-in
/// shift needs free.
pub proof fn lemma_spectrum_in_margin(bars: Seq<u8>, x: int, y: int)
    requires
        on_screen(x, y),
        spectrum_lit(bars, x, y),
    ensures
        x < W - 1,
        y < BOTTOM + 1,
{
    let v = bars[x / 2];
    assert(v * 19 / 255 <= 19) by (nonlinear_arith)
        requires
            v <= 255,
    ;
}

/// Silence leaves a dotted centre line: with every level at zero, exactly the even columns
/// of the middle row are lit.
pub proof fn lemma_silence_is_a_dotted_line(x: int, y: int)
    requires
        on_screen(x, y),
    ensures
        spectrum_lit(Seq::new(BARS as nat, |i: int| 0u8), x, y) == (x % 2 == 0 && y == spectrum_mid()),
{
}

/// 64 one-pixel bars mirrored around the middle row, bass in the centre (cava stereo).
/// Silence leaves a dotted centre line: column `2i` is lit from `19 - h` to `19 + h` for
/// bar `i` of reach `h`, and every odd column stays dark.
pub fn spectrum(bars: &[u8; BARS]) -> (f: Frame)
    ensures
        f.framed(),
        forall|x: int, y: int|
            on_screen(x, y) ==> #[trigger] f.lit(x, y) == spectrum_lit(bars@, x, y),
{
    let mut f = Frame::new();
    let mid: i32 = BOTTOM / 2;
    let mut i: usize = 0;
    while i < BARS
        invariant
            0 <= i <= BARS,
            mid == spectrum_mid(),
            f.framed(),
            forall|x: int, y: int|
                on_screen(x, y) ==> #[trigger] f.lit(x, y) == (x % 2 == 0 && x / 2 < i
                    && spectrum_mid() - bar_reach(bars@[x / 2]) <= y <= spectrum_mid() + bar_reach(
                    bars@[x / 2],
                )),
        decreases BARS - i,
    {
        let v = bars[i];
        let h: i32 = v as i32 * mid / 255;
        assert(0 <= h <= mid) by (nonlinear_arith)
            requires
                h == v * mid / 255,
                mid == 19,
                v <= 255,
        ;
        fill_rect(&mut f, 2 * i as i32, mid - h, 1, 2 * h as u32 + 1);
        i = i + 1;
    }
    f
}

/// What the system page shows, with the numbers that need floating point to work out
/// already worked out.
pub struct SystemView {
    /// The height in pixels (1 to 21) of each CPU thread's load bar.
    pub threads: Vec<u8>,
    /// The CPU line: total load, and the temperature where there is a sensor.
    pub cpu: String,
    /// The GPU's (temperature in °C, load in %), where NVIDIA's library answers.
    pub gpu: Option<(u32, u32)>,
    /// The memory line: used and total GiB.
    pub ram: String,
    /// How many of the memory gauge's 44 pixels are filled (more fills them all).
    pub ram_fill: u32,
}

/// The pixels of the memory gauge.
pub const GAUGE: u32 = 44;

/// The width of each thread's slot: the screen split evenly, at least one pixel.
pub open spec fn slot_width(n: int) -> int {
    if (W as int) / n >= 1 {
        (W as int) / n
    } else {
        1
    }
}

/// The width of a thread's bar: its slot less a one pixel gap, at least one pixel.
pub open spec fn bar_width(w: int) -> int {
    if w - 1 >= 1 {
        w - 1
    } else {
        1
    }
}

/// Whether `(x, y)` lies in the load bar of thread `i`. Bars go no further right than
/// column 126: with more threads than that, the last ones find no room.
pub open spec fn in_thread_bar(threads: Seq<u8>, i: int, x: int, y: int) -> bool {
    let w = slot_width(threads.len() as int);
    &&& x <= RIGHT
    &&& in_rect(x, y, i * w, 21 - threads[i], bar_width(w), threads[i] as int)
}

/// The filled width of the memory gauge: `fill`, at most the whole gauge.
pub open spec fn gauge_fill(fill: u32) -> int {
    if fill <= GAUGE {
        fill as int
    } else {
        GAUGE as int
    }
}

/// The system page's lines are short enough to render.
pub open spec fn system_fits(s: SystemView) -> bool {
    s.cpu@.len() <= MAX_TEXT && s.ram@.len() <= MAX_TEXT
}

/// The GPU line: `GPU{load:4}% {temp}°`.
pub open spec fn gpu_line(temp: u32, load: u32) -> Seq<char> {
    "GPU"@ + dec4(load as int) + seq!['%', ' '] + dec(temp as int) + seq!['\u{b0}']
}

/// Which pixels the system page lights.
pub open spec fn system_lit(s: SystemView, x: int, y: int) -> bool {
    ||| (exists|i: int| 0 <= i < s.threads@.len() && #[trigger] in_thread_bar(s.threads@, i, x, y))
    ||| raster_lit(aligned_text_raster(TextFont::Small, s.cpu@, 0, 29, Align::Left), x, y)
    ||| (match s.gpu {
        Some((temp, load)) => raster_lit(
            aligned_text_raster(TextFont::Small, gpu_line(temp, load), RIGHT as int, 29, Align::Right),
            x,
            y,
        ),
        None => false,
    })
    ||| raster_lit(aligned_text_raster(TextFont::Small, s.ram@, 0, BOTTOM as int, Align::Left), x, y)
    ||| on_border(x, y, RIGHT - 47, 32, 48, 7)
    ||| in_rect(x, y, RIGHT - 45, 34, gauge_fill(s.ram_fill), 3)
}

/// A bar that starts no further right than column 126 ends there too.
proof fn lemma_bar_fits(n: int, i: int)
    requires
        0 <= i < n,
        i <= (RIGHT as int) / slot_width(n),
    ensures
        0 <= i * slot_width(n) <= RIGHT,
        i * slot_width(n) + bar_width(slot_width(n)) - 1 <= RIGHT,
{
    let w = slot_width(n);
    assert(1 <= w <= 128) by (nonlinear_arith)
        requires
            n > 0,
            w == slot_width(n),
    ;
    assert(0 <= i * w <= 126) by (nonlinear_arith)
        requires
            0 <= i <= 126int / w,
            w >= 1,
    ;
    if w >= 2 {
        assert(i * w + w <= 128) by (nonlinear_arith)
            requires
                0 <= i < n,
                w == 128int / n,
                n > 0,
        ;
    }
}

/// A bar that starts past column 126 lights nothing the page shows.
proof fn lemma_bar_past_margin(n: int, j: int)
    requires
        n > 0,
        j >= (RIGHT as int) / slot_width(n) + 1,
    ensures
        j * slot_width(n) > RIGHT,
{
    let w = slot_width(n);
    assert(j * w > 126) by (nonlinear_arith)
        requires
            j >= 126int / w + 1,
            w >= 1,
    ;
}

/// One bar per CPU thread (4 px each on 32 threads), then CPU/GPU and RAM rows.
pub fn system(s: &SystemView) -> (f: Frame)
    requires
        system_fits(*s),
    ensures
        f.framed(),
        forall|x: int, y: int| on_screen(x, y) ==> #[trigger] f.lit(x, y) == system_lit(*s, x, y),
{
    let mut f = Frame::new();
    let n = s.threads.len();
    if n > 0 {
        let w: usize = if W / n >= 1 {
            W / n
        } else {
            1
        };
        let bw: usize = if w >= 2 {
            w - 1
        } else {
            1
        };
        proof {
            assert(1 <= w <= 128) by (nonlinear_arith)
                requires
                    n > 0,
                    w == slot_width(n as int),
            ;
        }
        // Bars start at multiples of the slot width; those past column 126 have no room.
        let room: usize = 126 / w + 1;
        let shown: usize = if n < room {
            n
        } else {
            room
        };
        let mut i: usize = 0;
        while i < shown
            invariant
                0 <= i <= shown <= n,
                shown <= 126int / (w as int) + 1,
                n == s.threads@.len(),
                w == slot_width(n as int),
                bw == bar_width(w as int),
                1 <= w <= 128,
                f.framed(),
                forall|x: int, y: int|
                    on_screen(x, y) ==> #[trigger] f.lit(x, y) == exists|j: int|
                        0 <= j < i && #[trigger] in_thread_bar(s.threads@, j, x, y),
            decreases shown - i,
        {
            let h = s.threads[i];
            proof {
                lemma_bar_fits(n as int, i as int);
            }
            let x0 = (i * w) as i32;
            let ghost before = f;
            fill_rect(&mut f, x0, 21 - h as i32, bw as u32, h as u32);
            proof {
                assert forall|x: int, y: int| on_screen(x, y) implies #[trigger] f.lit(x, y) == exists|
                    j: int,
                | 0 <= j < i + 1 && #[trigger] in_thread_bar(s.threads@, j, x, y) by {
                    if in_thread_bar(s.threads@, i as int, x, y) {
                    } else if before.lit(x, y) {
                        let j = choose|j: int| 0 <= j < i && #[trigger] in_thread_bar(s.threads@, j, x, y);
                        assert(0 <= j < i + 1 && in_thread_bar(s.threads@, j, x, y));
                    }
                }
            }
            i = i + 1;
        }
        proof {
            assert forall|x: int, y: int| on_screen(x, y) implies #[trigger] f.lit(x, y) == exists|
                j: int,
            | 0 <= j < n && #[trigger] in_thread_bar(s.threads@, j, x, y) by {
                if exists|j: int| 0 <= j < n && #[trigger] in_thread_bar(s.threads@, j, x, y) {
                    let j = choose|j: int| 0 <= j < n && #[trigger] in_thread_bar(s.threads@, j, x, y);
                    if j >= shown {
                        lemma_bar_past_margin(n as int, j);
                    }
                    assert(0 <= j < i && in_thread_bar(s.threads@, j, x, y));
                }
            }
        }
    }
    let cpu = chars_of(s.cpu.as_str());
    text(&mut f, TextFont::Small, cpu.as_slice(), 0, 29, Align::Left);
    match s.gpu {
        Some((temp, load)) => {
            let mut g = chars_of("GPU");
            push_dec4(&mut g, load);
            g.push('%');
            g.push(' ');
            push_dec(&mut g, temp as i64);
            g.push('\u{b0}');
            assert(g@ =~= gpu_line(temp, load));
            proof {
                reveal_strlit("GPU");
                lemma_dec_short(load as int);
                lemma_dec_short(temp as int);
            }
            text(&mut f, TextFont::Small, g.as_slice(), RIGHT, 29, Align::Right);
        },
        None => {},
    }
    let ram = chars_of(s.ram.as_str());
    text(&mut f, TextFont::Small, ram.as_slice(), 0, BOTTOM, Align::Left);
    stroke_rect(&mut f, RIGHT - 47, 32, 48, 7);
    let fill = if s.ram_fill <= GAUGE {
        s.ram_fill
    } else {
        GAUGE
    };
    fill_rect(&mut f, RIGHT - 45, 34, fill, 3);
    f
}

/// The system page's bars and memory gauge stay inside columns 0..=126 and rows 0..=38,
/// clear of the column and row that the burn-in shift pushes out.
pub proof fn lemma_system_shapes_in_margin(s: SystemView, x: int, y: int)
    requires
        on_screen(x, y),
        (exists|i: int| 0 <= i < s.threads@.len() && #[trigger] in_thread_bar(s.threads@, i, x, y))
            || on_border(x, y, RIGHT - 47, 32, 48, 7)
            || in_rect(x, y, RIGHT - 45, 34, gauge_fill(s.ram_fill), 3),
    ensures
        x <= RIGHT,
        y <= BOTTOM,
{
}

/// The fields of the local time that the clock reads, as `localtime` fills them in.
pub struct Time {
    /// Seconds after the minute, 0 to 60.
    pub sec: i32,
    /// Minutes after the hour, 0 to 59.
    pub min: i32,
    /// Hours since midnight, 0 to 23.
    pub hour: i32,
    /// Day of the month, 1 to 31.
    pub mday: i32,
    /// Months since January, 0 to 11.
    pub mon: i32,
    /// Days since Sunday, 0 to 6.
    pub wday: i32,
}

/// Three-letter day names, Sunday first.
pub open spec fn day_name(i: int) -> Seq<char> {
    if i == 0 {
        "SUN"@
    } else if i == 1 {
        "MON"@
    } else if i == 2 {
        "TUE"@
    } else if i == 3 {
        "WED"@
    } else if i == 4 {
        "THU"@
    } else if i == 5 {
        "FRI"@
    } else {
        "SAT"@
    }
}

/// Three-letter month names, January first.
pub open spec fn month_name(i: int) -> Seq<char> {
    if i == 0 {
        "JAN"@
    } else if i == 1 {
        "FEB"@
    } else if i == 2 {
        "MAR"@
    } else if i == 3 {
        "APR"@
    } else if i == 4 {
        "MAY"@
    } else if i == 5 {
        "JUN"@
    } else if i == 6 {
        "JUL"@
    } else if i == 7 {
        "AUG"@
    } else if i == 8 {
        "SEP"@
    } else if i == 9 {
        "OCT"@
    } else if i == 10 {
        "NOV"@
    } else {
        "DEC"@
    }
}

fn day_str(i: usize) -> (s: &'static str)
    requires
        i < 7,
    ensures
        s@ == day_name(i as int),
        s@.len() == 3,
{
    proof {
        reveal_strlit("SUN");
        reveal_strlit("MON");
        reveal_strlit("TUE");
        reveal_strlit("WED");
        reveal_strlit("THU");
        reveal_strlit("FRI");
        reveal_strlit("SAT");
    }
    if i == 0 {
        "SUN"
    } else if i == 1 {
        "MON"
    } else if i == 2 {
        "TUE"
    } else if i == 3 {
        "WED"
    } else if i == 4 {
        "THU"
    } else if i == 5 {
        "FRI"
    } else {
        "SAT"
    }
}

fn month_str(i: usize) -> (s: &'static str)
    requires
        i < 12,
    ensures
        s@ == month_name(i as int),
        s@.len() == 3,
{
    proof {
        reveal_strlit("JAN");
        reveal_strlit("FEB");
        reveal_strlit("MAR");
        reveal_strlit("APR");
        reveal_strlit("MAY");
        reveal_strlit("JUN");
        reveal_strlit("JUL");
        reveal_strlit("AUG");
        reveal_strlit("SEP");
        reveal_strlit("OCT");
        reveal_strlit("NOV");
        reveal_strlit("DEC");
    }
    if i == 0 {
        "JAN"
    } else if i == 1 {
        "FEB"
    } else if i == 2 {
        "MAR"
    } else if i == 3 {
        "APR"
    } else if i == 4 {
        "MAY"
    } else if i == 5 {
        "JUN"
    } else if i == 6 {
        "JUL"
    } else if i == 7 {
        "AUG"
    } else if i == 8 {
        "SEP"
    } else if i == 9 {
        "OCT"
    } else if i == 10 {
        "NOV"
    } else {
        "DEC"
    }
}

/// `HH:MM`, each zero-padded to two digits.
pub open spec fn clock_digits(t: Time) -> Seq<char> {
    dec02(t.hour as int) + seq![':'] + dec02(t.min as int)
}

/// The day's name.
pub open spec fn weekday(t: Time) -> Seq<char> {
    day_name(((t.wday as usize) % 7) as int)
}

/// The month's name.
pub open spec fn month(t: Time) -> Seq<char> {
    month_name(((t.mon as usize) % 12) as int)
}

/// How many pixels of the line under the digits are lit: 90 across the minute.
pub open spec fn minute_line(t: Time) -> int {
    (t.sec + 1) * 90 / 60
}

/// The seconds can be worked into the minute line without overflowing 32 bits.
pub open spec fn clock_time_ok(t: Time) -> bool {
    0 <= t.sec && (t.sec + 1) * 90 <= u32::MAX
}

/// Which pixels the clock page lights.
pub open spec fn clock_lit(t: Time, w: Option<&Forecast>, x: int, y: int) -> bool {
    ||| raster_lit(aligned_text_raster(TextFont::Big, clock_digits(t), 0, 34, Align::Left), x, y)
    ||| (match w {
        Some(w) => {
            ||| raster_lit(
                aligned_text_raster(
                    TextFont::Small,
                    weekday(t) + seq![' '] + dec(t.mday as int),
                    RIGHT as int,
                    6,
                    Align::Right,
                ),
                x,
                y,
            )
            ||| raster_lit(
                glyphs_raster(GlyphFont::Icon, seq![glyph_for(w.code, w.day)], RIGHT - 16, 11).0,
                x,
                y,
            )
            ||| raster_lit(
                aligned_text_raster(
                    TextFont::Small,
                    w.temp@ + seq!['\u{b0}'],
                    RIGHT as int,
                    36,
                    Align::Right,
                ),
                x,
                y,
            )
        },
        None => {
            ||| raster_lit(
                aligned_text_raster(TextFont::Small, weekday(t), RIGHT as int, 7, Align::Right),
                x,
                y,
            )
            ||| raster_lit(
                aligned_text_raster(TextFont::Mid, dec(t.mday as int), RIGHT as int, 27, Align::Right),
                x,
                y,
            )
            ||| raster_lit(
                aligned_text_raster(TextFont::Small, month(t), RIGHT as int, 36, Align::Right),
                x,
                y,
            )
        },
    })
    ||| in_rect(x, y, 0, BOTTOM as int, minute_line(t), 1)
}

/// Big HH:MM with a line under it that fills across the minute; right column: day and
/// date, weather icon, temperature (day, date and month until the first forecast arrives).
pub fn clock(t: &Time, w: Option<&Forecast>) -> (f: Frame)
    requires
        clock_time_ok(*t),
        w matches Some(w) ==> temp_fits(w),
    ensures
        f.framed(),
        forall|x: int, y: int| on_screen(x, y) ==> #[trigger] f.lit(x, y) == clock_lit(*t, w, x, y),
{
    let mut f = Frame::new();
    let mut hm: Vec<char> = Vec::new();
    push_dec02(&mut hm, t.hour as i64);
    hm.push(':');
    push_dec02(&mut hm, t.min as i64);
    assert(hm@ =~= clock_digits(*t));
    proof {
        lemma_dec_short(t.hour as int);
        lemma_dec_short(t.min as int);
        lemma_dec_short(t.mday as int);
    }
    text(&mut f, TextFont::Big, hm.as_slice(), 0, 34, Align::Left);
    let day = chars_of(day_str((#[verifier::truncate] (t.wday as usize)) % 7));
    match w {
        Some(w) => {
            let mut dd = day;
            dd.push(' ');
            push_dec(&mut dd, t.mday as i64);
            assert(dd@ =~= weekday(*t) + seq![' '] + dec(t.mday as int));

            text(&mut f, TextFont::Small, dd.as_slice(), RIGHT, 6, Align::Right);
            let (glyph, _) = describe(w.code, w.day);
            let g = vec![glyph];
            assert(g@ =~= seq![glyph_for(w.code, w.day)]);
            glyphs(&mut f, GlyphFont::Icon, g.as_slice(), RIGHT - 16, 11);
            let mut temp = chars_of(w.temp.as_str());
            temp.push('\u{b0}');
            assert(temp@ =~= w.temp@ + seq!['\u{b0}']);
            text(&mut f, TextFont::Small, temp.as_slice(), RIGHT, 36, Align::Right);
        },
        None => {
            text(&mut f, TextFont::Small, day.as_slice(), RIGHT, 7, Align::Right);
            let mut date: Vec<char> = Vec::new();
            push_dec(&mut date, t.mday as i64);
            text(&mut f, TextFont::Mid, date.as_slice(), RIGHT, 27, Align::Right);
            let mon = chars_of(month_str((#[verifier::truncate] (t.mon as usize)) % 12));
            text(&mut f, TextFont::Small, mon.as_slice(), RIGHT, 36, Align::Right);
        },
    }
    let width = (t.sec as u32 + 1) * 90 / 60;
    assert(width == minute_line(*t));
    fill_rect(&mut f, 0, BOTTOM, width, 1);
    f
}

/// The clock's minute line lies under the digits, inside the margin: at most 91 pixels
/// long, in row 38.
pub proof fn lemma_minute_line_in_margin(t: Time, x: int, y: int)
    requires
        0 <= t.sec <= 60,
        in_rect(x, y, 0, BOTTOM as int, minute_line(t), 1),
    ensures
        0 <= x <= 90,
        y == BOTTOM,
{
    assert((t.sec + 1) * 90 / 60 <= 91) by (nonlinear_arith)
        requires
            0 <= t.sec <= 60,
    ;
}

/// `H{high} L{low}`.
pub open spec fn high_low(w: &Forecast) -> Seq<char> {
    seq!['H'] + w.high@ + seq![' ', 'L'] + w.low@
}

/// Where the ring that stands for the degree sign goes: two pixels right of the
/// temperature's bounding box, level with its top.
pub open spec fn ring_left(bb: (i32, i32, u32, u32)) -> int {
    bb.0 + bb.2 + 2
}

/// Whether the ring lands where the renderer can draw it. A ring that would land further
/// off the screen than that is left out.
pub open spec fn ring_fits(bb: (i32, i32, u32, u32)) -> bool {
    within_reach(ring_left(bb), bb.1 as int)
}

/// Whether `(x, y)` is on the graph segment from hour `i` to hour `i + 1`.
pub open spec fn on_graph_segment(graph: Seq<i32>, i: int, x: int, y: int) -> bool {
    raster_lit(line_raster(78 + 2 * i, graph[i] as int, 80 + 2 * i, graph[i + 1] as int), x, y)
}

/// Whether `(x, y)` is in the rain bar of hour `i`.
pub open spec fn in_rain_bar(rain: Seq<u8>, i: int, x: int, y: int) -> bool {
    in_rect(x, y, 78 + 2 * i, BOTTOM + 1 - rain[i], 1, rain[i] as int)
}

/// How far above or below row 0 a point of the temperature graph may lie.
pub const GRAPH_ROWS: i32 = 0x1000;

/// The temperature is short enough to render, with a degree sign after it.
pub open spec fn temp_fits(w: &Forecast) -> bool {
    w.temp@.len() < MAX_TEXT
}

/// The forecast can be drawn without overflow: its text short enough to render and the
/// graph's points within `GRAPH_ROWS` of row 0.
pub open spec fn forecast_fits(w: &Forecast) -> bool {
    &&& temp_fits(w)
    &&& w.high@.len() + w.low@.len() + 3 <= MAX_TEXT
    &&& forall|i: int| 0 <= i < w.graph@.len() ==> -GRAPH_ROWS <= #[trigger] w.graph@[i] <= GRAPH_ROWS
}

/// The hours whose column, `78 + 2i`, lies on the screen. Later hours are not drawn:
/// their graph segments and rain bars would start right of the last column.
pub const HOURS_ON_SCREEN: usize = 25;

/// Which pixels the weather page lights.
pub open spec fn weather_lit(w: Option<&Forecast>, x: int, y: int) -> bool {
    match w {
        None => raster_lit(
            aligned_text_raster(TextFont::Small, "waiting for weather"@, 63, 22, Align::Center),
            x,
            y,
        ),
        Some(w) => {
            ||| raster_lit(glyphs_raster(GlyphFont::IconBig, seq![glyph_for(w.code, w.day)], 0, 3).0, x, y)
            ||| raster_lit(glyphs_raster(GlyphFont::Temp, w.temp@, 35, 23).0, x, y)
            ||| (match glyphs_raster(GlyphFont::Temp, w.temp@, 35, 23).1 {
                Some(bb) => ring_fits(bb) && raster_lit(circle_raster(ring_left(bb), bb.1 as int, 6), x, y),
                None => false,
            })
            ||| raster_lit(aligned_text_raster(TextFont::Small, label_for(w.code), 35, 31, Align::Left), x, y)
            ||| raster_lit(aligned_text_raster(TextFont::Small, high_low(w), 35, BOTTOM as int, Align::Left), x, y)
            ||| (exists|i: int|
                0 <= i < w.graph@.len() - 1 && i < HOURS_ON_SCREEN && #[trigger] on_graph_segment(
                    w.graph@,
                    i,
                    x,
                    y,
                ))
            ||| (exists|i: int| 0 <= i < w.rain@.len() && #[trigger] in_rain_bar(w.rain@, i, x, y))
            ||| in_rect(x, y, 78, BOTTOM as int, 47, 1)
        },
    }
}

/// Icon, temperature, condition and today's range on the left; the next 24 h on the
/// right: temperature line above, chance-of-rain bars below.
pub fn weather(w: Option<&Forecast>) -> (f: Frame)
    requires
        w matches Some(w) ==> forecast_fits(w),
    ensures
        f.framed(),
        forall|x: int, y: int| on_screen(x, y) ==> #[trigger] f.lit(x, y) == weather_lit(w, x, y),
{
    let mut f = Frame::new();
    match w {
        None => {
            let msg = chars_of("waiting for weather");
            proof {
                reveal_strlit("waiting for weather");
            }
            text(&mut f, TextFont::Small, msg.as_slice(), 63, 22, Align::Center);
            f
        },
        Some(w) => forecast_page(w),
    }
}

/// The characters of `H{high} L{low}`.
fn high_low_chars(w: &Forecast) -> (hl: Vec<char>)
    ensures
        hl@ == high_low(w),
{
    let mut hl: Vec<char> = vec!['H'];
    let high = chars_of(w.high.as_str());
    let low = chars_of(w.low.as_str());
    let mut k: usize = 0;
    while k < high.len()
        invariant
            0 <= k <= high@.len(),
            hl@ == seq!['H'] + high@.take(k as int),
        decreases high@.len() - k,
    {
        hl.push(high[k]);
        k = k + 1;
        assert(hl@ =~= seq!['H'] + high@.take(k as int));
    }
    hl.push(' ');
    hl.push('L');
    let ghost mid = hl@;
    let mut k: usize = 0;
    while k < low.len()
        invariant
            0 <= k <= low@.len(),
            hl@ == mid + low@.take(k as int),
        decreases low@.len() - k,
    {
        hl.push(low[k]);
        k = k + 1;
        assert(hl@ =~= mid + low@.take(k as int));
    }
    assert(hl@ =~= high_low(w));
    hl
}

/// The weather page once a forecast has come.
fn forecast_page(w: &Forecast) -> (f: Frame)
    requires
        forecast_fits(w),
    ensures
        f.framed(),
        forall|x: int, y: int| on_screen(x, y) ==> #[trigger] f.lit(x, y) == weather_lit(Some(w), x, y),
{
    let mut f = Frame::new();
    let (glyph, label) = describe(w.code, w.day);
    let g = vec![glyph];
    assert(g@ =~= seq![glyph_for(w.code, w.day)]);
    glyphs(&mut f, GlyphFont::IconBig, g.as_slice(), 0, 3);
    let temp = chars_of(w.temp.as_str());
    // The font's own ° sits above the digits and off the top of the screen, so draw a ring.
    let digits = glyphs(&mut f, GlyphFont::Temp, temp.as_slice(), 35, 23);
    match digits {
        Some(bb) => {
            let x: i64 = bb.0 as i64 + bb.2 as i64 + 2;
            if -REACH as i64 <= x && x <= REACH as i64 && -REACH <= bb.1 && bb.1 <= REACH {
                circle(&mut f, x as i32, bb.1, 6);
            }
        },
        None => {},
    }
    let label = chars_of(label);
    proof {
        lemma_label_short(w.code);
    }
    text(&mut f, TextFont::Small, label.as_slice(), 35, 31, Align::Left);
    let hl = high_low_chars(w);
    text(&mut f, TextFont::Small, hl.as_slice(), 35, BOTTOM, Align::Left);
    let ghost base = f;
    let n = w.graph.len();
    let segments: usize = if n == 0 {
        0
    } else if n - 1 < HOURS_ON_SCREEN {
        n - 1
    } else {
        HOURS_ON_SCREEN
    };
    let mut i: usize = 0;
    while i < segments
        invariant
            n == w.graph@.len(),
            forecast_fits(w),
            segments <= HOURS_ON_SCREEN,
            segments == (if n == 0 { 0 } else if n - 1 < HOURS_ON_SCREEN { n - 1 } else { HOURS_ON_SCREEN as int }),
            0 <= i <= segments,
            f.framed(),
            forall|x: int, y: int|
                on_screen(x, y) ==> #[trigger] f.lit(x, y) == (base.lit(x, y) || exists|j: int|
                    0 <= j < i && #[trigger] on_graph_segment(w.graph@, j, x, y)),
        decreases segments - i,
    {
        let ghost before = f;
        let xi = 78 + 2 * i as i32;
        assert(-GRAPH_ROWS <= w.graph@[i as int] <= GRAPH_ROWS);
        assert(-GRAPH_ROWS <= w.graph@[i + 1] <= GRAPH_ROWS);
        line(&mut f, xi, w.graph[i], xi + 2, w.graph[i + 1]);
        proof {
            assert forall|x: int, y: int| on_screen(x, y) implies #[trigger] f.lit(x, y) == (
            base.lit(x, y) || exists|j: int|
                0 <= j < i + 1 && #[trigger] on_graph_segment(w.graph@, j, x, y)) by {
                if on_graph_segment(w.graph@, i as int, x, y) {
                } else if before.lit(x, y) && !base.lit(x, y) {
                    let j = choose|j: int|
                        0 <= j < i && #[trigger] on_graph_segment(w.graph@, j, x, y);
                    assert(0 <= j < i + 1 && on_graph_segment(w.graph@, j, x, y));
                }
            }
        }
        i = i + 1;
    }
    proof {
        assert forall|x: int, y: int| on_screen(x, y) implies #[trigger] f.lit(x, y) == (base.lit(
            x,
            y,
        ) || exists|j: int|
            0 <= j < w.graph@.len() - 1 && j < HOURS_ON_SCREEN && #[trigger] on_graph_segment(
                w.graph@,
                j,
                x,
                y,
            )) by {
            if exists|j: int| 0 <= j < i && #[trigger] on_graph_segment(w.graph@, j, x, y) {
                let j = choose|j: int| 0 <= j < i && #[trigger] on_graph_segment(w.graph@, j, x, y);
                assert(0 <= j < w.graph@.len() - 1 && j < HOURS_ON_SCREEN && on_graph_segment(
                    w.graph@,
                    j,
                    x,
                    y,
                ));
            }
            if exists|j: int|
                0 <= j < w.graph@.len() - 1 && j < HOURS_ON_SCREEN && #[trigger] on_graph_segment(
                    w.graph@,
                    j,
                    x,
                    y,
                ) {
                let j = choose|j: int|
                    0 <= j < w.graph@.len() - 1 && j < HOURS_ON_SCREEN && #[trigger] on_graph_segment(
                        w.graph@,
                        j,
                        x,
                        y,
                    );
                assert(0 <= j < i && on_graph_segment(w.graph@, j, x, y));
            }
        }
    }
    let ghost mid2 = f;
    let m = w.rain.len();
    let bars: usize = if m < HOURS_ON_SCREEN {
        m
    } else {
        HOURS_ON_SCREEN
    };
    let mut i: usize = 0;
    while i < bars
        invariant
            m == w.rain@.len(),
            bars == (if m < HOURS_ON_SCREEN { m as int } else { HOURS_ON_SCREEN as int }),
            0 <= i <= bars,
            f.framed(),
            forall|x: int, y: int|
                on_screen(x, y) ==> #[trigger] f.lit(x, y) == (mid2.lit(x, y) || exists|j: int|
                    0 <= j < i && #[trigger] in_rain_bar(w.rain@, j, x, y)),
        decreases bars - i,
    {
        let ghost before = f;
        let bar = w.rain[i];
        fill_rect(&mut f, 78 + 2 * i as i32, BOTTOM + 1 - bar as i32, 1, bar as u32);
        proof {
            assert forall|x: int, y: int| on_screen(x, y) implies #[trigger] f.lit(x, y) == (
            mid2.lit(x, y) || exists|j: int|
                0 <= j < i + 1 && #[trigger] in_rain_bar(w.rain@, j, x, y)) by {
                if in_rain_bar(w.rain@, i as int, x, y) {
                } else if before.lit(x, y) && !mid2.lit(x, y) {
                    let j = choose|j: int| 0 <= j < i && #[trigger] in_rain_bar(w.rain@, j, x, y);
                    assert(0 <= j < i + 1 && in_rain_bar(w.rain@, j, x, y));
                }
            }
        }
        i = i + 1;
    }
    proof {
        // Bars of later hours start right of the last column.
        assert forall|x: int, y: int| on_screen(x, y) implies #[trigger] f.lit(x, y) == (mid2.lit(
            x,
            y,
        ) || exists|j: int| 0 <= j < m && #[trigger] in_rain_bar(w.rain@, j, x, y)) by {
            if exists|j: int| 0 <= j < m && #[trigger] in_rain_bar(w.rain@, j, x, y) {
                let j = choose|j: int| 0 <= j < m && #[trigger] in_rain_bar(w.rain@, j, x, y);
                assert(0 <= j < i && in_rain_bar(w.rain@, j, x, y));
            }
        }
    }
    // The rain baseline, so 0% still reads as "no rain".
    fill_rect(&mut f, 78, BOTTOM, 47, 1);
    f
}

/// The rain bars and their baseline stay inside the margin: bars stand in even columns
/// on row 38, so on screen they never reach column 127 or row 39.
pub proof fn lemma_rain_in_margin(rain: Seq<u8>, x: int, y: int)
    requires
        on_screen(x, y),
        (exists|i: int| 0 <= i < rain.len() && #[trigger] in_rain_bar(rain, i, x, y))
            || in_rect(x, y, 78, BOTTOM as int, 47, 1),
    ensures
        x <= RIGHT,
        y <= BOTTOM,
{
}

/// The system page keeps the last column and row free whenever the text that the font
/// renderer draws on it does.
pub proof fn lemma_system_in_margin(s: SystemView)
    requires
        clear_of_margin(aligned_text_raster(TextFont::Small, s.cpu@, 0, 29, Align::Left)),
        clear_of_margin(aligned_text_raster(TextFont::Small, s.ram@, 0, BOTTOM as int, Align::Left)),
        s.gpu matches Some((temp, load)) ==> clear_of_margin(
            aligned_text_raster(TextFont::Small, gpu_line(temp, load), RIGHT as int, 29, Align::Right),
        ),
    ensures
        forall|y: int| 0 <= y < H ==> !#[trigger] system_lit(s, W - 1, y),
        forall|x: int| 0 <= x < W ==> !#[trigger] system_lit(s, x, H - 1),
{
}

/// The clock page keeps the last column and row free whenever the text and icon that the
/// font renderer draws on it do.
pub proof fn lemma_clock_in_margin(t: Time, w: Option<&Forecast>)
    requires
        0 <= t.sec <= 60,
        clear_of_margin(aligned_text_raster(TextFont::Big, clock_digits(t), 0, 34, Align::Left)),
        w matches Some(w) ==> {
            &&& clear_of_margin(
                aligned_text_raster(
                    TextFont::Small,
                    weekday(t) + seq![' '] + dec(t.mday as int),
                    RIGHT as int,
                    6,
                    Align::Right,
                ),
            )
            &&& clear_of_margin(
                glyphs_raster(GlyphFont::Icon, seq![glyph_for(w.code, w.day)], RIGHT - 16, 11).0,
            )
            &&& clear_of_margin(
                aligned_text_raster(
                    TextFont::Small,
                    w.temp@ + seq!['\u{b0}'],
                    RIGHT as int,
                    36,
                    Align::Right,
                ),
            )
        },
        w is None ==> {
            &&& clear_of_margin(aligned_text_raster(TextFont::Small, weekday(t), RIGHT as int, 7, Align::Right))
            &&& clear_of_margin(aligned_text_raster(TextFont::Mid, dec(t.mday as int), RIGHT as int, 27, Align::Right))
            &&& clear_of_margin(aligned_text_raster(TextFont::Small, month(t), RIGHT as int, 36, Align::Right))
        },
    ensures
        forall|y: int| 0 <= y < H ==> !#[trigger] clock_lit(t, w, W - 1, y),
        forall|x: int| 0 <= x < W ==> !#[trigger] clock_lit(t, w, x, H - 1),
{
    assert((t.sec + 1) * 90 / 60 <= 91) by (nonlinear_arith)
        requires
            0 <= t.sec <= 60,
    ;
}

/// The weather page keeps the last column and row free whenever the text, icon, ring and
/// graph segments that the renderers draw on it do.
pub proof fn lemma_weather_in_margin(w: Option<&Forecast>)
    requires
        w is None ==> clear_of_margin(
            aligned_text_raster(TextFont::Small, "waiting for weather"@, 63, 22, Align::Center),
        ),
        w matches Some(w) ==> {
            &&& clear_of_margin(glyphs_raster(GlyphFont::IconBig, seq![glyph_for(w.code, w.day)], 0, 3).0)
            &&& clear_of_margin(glyphs_raster(GlyphFont::Temp, w.temp@, 35, 23).0)
            &&& (glyphs_raster(GlyphFont::Temp, w.temp@, 35, 23).1 matches Some(bb) ==> (ring_fits(bb)
                ==> clear_of_margin(circle_raster(ring_left(bb), bb.1 as int, 6))))
            &&& clear_of_margin(aligned_text_raster(TextFont::Small, label_for(w.code), 35, 31, Align::Left))
            &&& clear_of_margin(aligned_text_raster(TextFont::Small, high_low(w), 35, BOTTOM as int, Align::Left))
            &&& forall|i: int|
                0 <= i < w.graph@.len() - 1 && i < HOURS_ON_SCREEN ==> clear_of_margin(
                    #[trigger] line_raster(78 + 2 * i, w.graph@[i] as int, 80 + 2 * i, w.graph@[i + 1] as int),
                )
        },
    ensures
        forall|y: int| 0 <= y < H ==> !#[trigger] weather_lit(w, W - 1, y),
        forall|x: int| 0 <= x < W ==> !#[trigger] weather_lit(w, x, H - 1),
{
    match w {
        None => {},
        Some(w) => {
            assert forall|y: int| 0 <= y < H implies !#[trigger] weather_lit(Some(w), W - 1, y) by {
                if exists|i: int|
                    0 <= i < w.graph@.len() - 1 && i < HOURS_ON_SCREEN && #[trigger] on_graph_segment(
                        w.graph@,
                        i,
                        W - 1,
                        y,
                    ) {
                    let i = choose|i: int|
                        0 <= i < w.graph@.len() - 1 && i < HOURS_ON_SCREEN && #[trigger] on_graph_segment(
                            w.graph@,
                            i,
                            W - 1,
                            y,
                        );
                    assert(clear_of_margin(line_raster(78 + 2 * i, w.graph@[i] as int, 80 + 2 * i, w.graph@[i + 1] as int)));
                }
            }
            assert forall|x: int| 0 <= x < W implies !#[trigger] weather_lit(Some(w), x, H - 1) by {
                if exists|i: int|
                    0 <= i < w.graph@.len() - 1 && i < HOURS_ON_SCREEN && #[trigger] on_graph_segment(
                        w.graph@,
                        i,
                        x,
                        H - 1,
                    ) {
                    let i = choose|i: int|
                        0 <= i < w.graph@.len() - 1 && i < HOURS_ON_SCREEN && #[trigger] on_graph_segment(
                            w.graph@,
                            i,
                            x,
                            H - 1,
                        );
                    assert(clear_of_margin(line_raster(78 + 2 * i, w.graph@[i] as int, 80 + 2 * i, w.graph@[i + 1] as int)));
                }
            }
        },
    }
}

/// The GPU line is laid out as "GPU", then the load right-aligned in a four-wide field,
/// then "% ", then the temperature, then a degree sign: the load stands right after
/// "GPU" and the temperature right before the degree sign.
pub proof fn lemma_gpu_line_layout(temp: u32, load: u32)
    ensures
        ({
            let g = gpu_line(temp, load);
            let l = dec4(load as int);
            let n = l.len() as int;
            let t = dec(temp as int);
            &&& l.len() >= 4
            &&& g.len() == n + t.len() + 6
            &&& g.take(3) == "GPU"@
            &&& g.subrange(3, 3 + n) == l
            &&& g[3 + n] == '%'
            &&& g[4 + n] == ' '
            &&& g.subrange(5 + n, g.len() - 1) == t
            &&& g[g.len() - 1] == '\u{b0}'
        }),
{
    reveal_strlit("GPU");
    let g = gpu_line(temp, load);
    let l = dec4(load as int);
    let n = l.len() as int;
    let t = dec(temp as int);
    assert(g.take(3) =~= "GPU"@);
    assert(g.subrange(3, 3 + n) =~= l);
    assert(g.subrange(5 + n, g.len() - 1) =~= t);
}

/// The range line is 'H', today's high, " L", today's low: the high comes first.
pub proof fn lemma_high_low_layout(w: &Forecast)
    ensures
        ({
            let r = high_low(w);
            let h = w.high@.len() as int;
            &&& r.len() == h + w.low@.len() + 3
            &&& r[0] == 'H'
            &&& r.subrange(1, 1 + h) == w.high@
            &&& r[1 + h] == ' '
            &&& r[2 + h] == 'L'
            &&& r.subrange(3 + h, r.len() as int) == w.low@
        }),
{
    let r = high_low(w);
    let h = w.high@.len() as int;
    assert(r.subrange(1, 1 + h) =~= w.high@);
    assert(r.subrange(3 + h, r.len() as int) =~= w.low@);
}

/// The month shown for `tm_mon` counted from January: 0 is JAN, 4 is MAY, 11 is DEC.
pub proof fn lemma_month_names(t: Time)
    requires
        0 <= t.mon < 12,
    ensures
        month(t) == seq![
            "JAN"@, "FEB"@, "MAR"@, "APR"@, "MAY"@, "JUN"@,
            "JUL"@, "AUG"@, "SEP"@, "OCT"@, "NOV"@, "DEC"@,
        ][t.mon as int],
{
}

/// The day shown for `tm_wday` counted from Sunday: 0 is SUN, 1 is MON, 6 is SAT.
pub proof fn lemma_day_names(t: Time)
    requires
        0 <= t.wday < 7,
    ensures
        weekday(t) == seq!["SUN"@, "MON"@, "TUE"@, "WED"@, "THU"@, "FRI"@, "SAT"@][t.wday as int],
{
}

} // verus!
