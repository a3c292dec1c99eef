//! The forecast as the pages read it, and what a WMO weather code looks like on screen.
use vstd::prelude::*;

verus! {

/// The icon glyph (in u8g2's open_iconic_weather font) for a WMO weather code.
/// Glyphs: '@' cloud, 'A' sun behind cloud, 'B' moon, 'C' rain, 'E' sun.
pub open spec fn glyph_for(code: u64, day: bool) -> char {
    if code == 0 {
        if day {
            'E'
        } else {
            'B'
        }
    } else if code == 1 || code == 2 {
        if day {
            'A'
        } else {
            'B'
        }
    } else if code == 45 || code == 48 {
        '@'
    } else if (51 <= code <= 57) || code == 61 {
        'C'
    } else if (63 <= code <= 67) || (80 <= code <= 82) {
        'C'
    } else if (71 <= code <= 77) || code == 85 || code == 86 {
        '@'
    } else if 95 <= code <= 99 {
        'C'
    } else {
        '@'
    }
}

/// The label for a WMO weather code, grouped like the bar's widget.
pub open spec fn label_for(code: u64) -> Seq<char> {
    if code == 0 {
        "Clear"@
    } else if code == 1 || code == 2 {
        "Partly"@
    } else if code == 45 || code == 48 {
        "Fog"@
    } else if (51 <= code <= 57) || code == 61 {
        "Drizzle"@
    } else if (63 <= code <= 67) || (80 <= code <= 82) {
        "Rain"@
    } else if (71 <= code <= 77) || code == 85 || code == 86 {
        "Snow"@
    } else if 95 <= code <= 99 {
        "Storm"@
    } else {
        "Cloudy"@
    }
}

/// Every label is a short word, at most seven letters.
pub proof fn lemma_label_short(code: u64)
    ensures
        label_for(code).len() <= 7,
{
    reveal_strlit("Clear");
    reveal_strlit("Partly");
    reveal_strlit("Fog");
    reveal_strlit("Drizzle");
    reveal_strlit("Rain");
    reveal_strlit("Snow");
    reveal_strlit("Storm");
    reveal_strlit("Cloudy");
}

/// WMO code -> (open_iconic_weather glyph, label), grouped like the bar's widget.
/// The font has no snow/fog/storm icons, so those borrow the nearest one and rely on the label.
pub fn describe(code: u64, day: bool) -> (d: (char, &'static str))
    ensures
        d.0 == glyph_for(code, day),
        d.1@ == label_for(code),
{
    if code == 0 {
        (if day {
            'E'
        } else {
            'B'
        }, "Clear")
    } else if code == 1 || code == 2 {
        (if day {
            'A'
        } else {
            'B'
        }, "Partly")
    } else if code == 45 || code == 48 {
        ('@', "Fog")
    } else if (51 <= code && code <= 57) || code == 61 {
        ('C', "Drizzle")
    } else if (63 <= code && code <= 67) || (80 <= code && code <= 82) {
        ('C', "Rain")
    } else if (71 <= code && code <= 77) || code == 85 || code == 86 {
        ('@', "Snow")
    } else if 95 <= code && code <= 99 {
        ('C', "Storm")
    } else {
        ('@', "Cloudy")
    }
}

/// The forecast as the pages draw it. The numbers that need floating point to work out
/// come already worked out: the temperatures as the text they are shown as, the next 24
/// hours' temperatures as the rows of the graph's points, and the chances of rain as the
/// heights of their bars.
pub struct Forecast {
    /// WMO weather code now.
    pub code: u64,
    /// Whether it is day now.
    pub day: bool,
    /// The temperature now, rounded to a whole degree.
    pub temp: String,
    /// Today's high, rounded to a whole degree.
    pub high: String,
    /// Today's low, rounded to a whole degree.
    pub low: String,
    /// For each of the next hours, the row of the temperature graph's point.
    pub graph: Vec<i32>,
    /// For each of the next hours, the height in pixels of the chance-of-rain bar (0 to 10).
    pub rain: Vec<u8>,
}

/// Day and night look alike except for clear and partly cloudy skies, where the sun
/// gives way to the moon.
pub proof fn lemma_night_changes_only_clear_skies(code: u64)
    ensures
        (glyph_for(code, true) != glyph_for(code, false)) <==> (code == 0 || code == 1 || code == 2),
        glyph_for(code, false) == 'B' <==> (code == 0 || code == 1 || code == 2),
{
}

/// Seconds until the next fetch: every 30 min, 5 min after a failure.
pub fn refresh_delay(fetched: bool) -> (secs: u64)
    ensures
        secs == refresh_delay_spec(fetched),
{
    if fetched {
        1800
    } else {
        300
    }
}

/// Seconds from one fetch to the next.
pub open spec fn refresh_delay_spec(fetched: bool) -> u64 {
    if fetched {
        1800
    } else {
        300
    }
}

/// When the next fetch is due after one that ended at `end`, in seconds on the wall
/// clock; `None` when that lies past the last second a 64-bit count can hold, so that no
/// reading of the clock reaches it.
pub open spec fn next_due_spec(end: u64, fetched: bool) -> Option<u64> {
    if end + refresh_delay_spec(fetched) <= u64::MAX {
        Some((end + refresh_delay_spec(fetched)) as u64)
    } else {
        None
    }
}

/// Whether a fetch is due at `now` when the next one was set for `due`.
pub open spec fn fetch_due_spec(now: u64, due: Option<u64>) -> bool {
    match due {
        Some(d) => now >= d,
        None => false,
    }
}

/// How often, in seconds, the forecast thread looks at the wall clock to see whether a
/// fetch is due: often enough that a resume from suspend refreshes within a minute.
pub const POLL_SECS: u64 = 60;

/// Whether a fetch is due at `now` when the next one was set for `due` (seconds on the
/// wall clock). The first fetch is due at once, when `due` is the moment the thread
/// started.
pub fn fetch_due(now: u64, due: Option<u64>) -> (go: bool)
    ensures
        go == fetch_due_spec(now, due),
{
    match due {
        Some(d) => now >= d,
        None => false,
    }
}

/// When the next fetch is due after one that ended at `now`: 30 minutes later after a
/// forecast came, 5 minutes after a failure.
pub fn next_due(now: u64, fetched: bool) -> (due: Option<u64>)
    ensures
        due == next_due_spec(now, fetched),
{
    now.checked_add(refresh_delay(fetched))
}

/// The fetch schedule: after a fetch that ended at `end`, a fetch is due at `now` exactly
/// when the refresh delay has passed: 30 minutes after a forecast came, 5 after a failure.
pub proof fn lemma_refresh_schedule(end: u64, fetched: bool, now: u64)
    ensures
        fetch_due_spec(now, next_due_spec(end, fetched)) <==> now >= end + refresh_delay_spec(
            fetched,
        ),
{
}

/// Whether it is day by the forecast's `is_day` reading: anything but a reading of 0,
/// a missing one included.
pub fn is_daytime(is_day: Option<u64>) -> (day: bool)
    ensures
        day == !(is_day == Some(0u64)),
{
    match is_day {
        Some(v) => v != 0,
        None => true,
    }
}

/// What each WMO code looks like, group by group: clear skies show the sun by day and
/// the moon by night; mainly clear and partly cloudy the sun behind a cloud by day and the
/// moon by night; fog, snow and every code not listed a cloud; drizzle, rain and
/// thunderstorms rain.
pub proof fn lemma_weather_groups(code: u64, day: bool)
    ensures
        code == 0 ==> glyph_for(code, day) == (if day { 'E' } else { 'B' }) && label_for(code)
            == "Clear"@,
        (code == 1 || code == 2) ==> glyph_for(code, day) == (if day { 'A' } else { 'B' })
            && label_for(code) == "Partly"@,
        (code == 45 || code == 48) ==> glyph_for(code, day) == '@' && label_for(code) == "Fog"@,
        (51 <= code <= 57 || code == 61) ==> glyph_for(code, day) == 'C' && label_for(code)
            == "Drizzle"@,
        (63 <= code <= 67 || 80 <= code <= 82) ==> glyph_for(code, day) == 'C' && label_for(code)
            == "Rain"@,
        (71 <= code <= 77 || code == 85 || code == 86) ==> glyph_for(code, day) == '@'
            && label_for(code) == "Snow"@,
        95 <= code <= 99 ==> glyph_for(code, day) == 'C' && label_for(code) == "Storm"@,
        !(code <= 2 || code == 45 || code == 48 || 51 <= code <= 57 || code == 61 || 63 <= code
            <= 67 || 80 <= code <= 82 || 71 <= code <= 77 || code == 85 || code == 86 || 95 <= code
            <= 99) ==> glyph_for(code, day) == '@' && label_for(code) == "Cloudy"@,
{
}

} // verus!
