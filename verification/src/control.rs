//! The decisions of the render loop: which page is up, when the screen blanks, which
//! frame goes out and when, and how the image orbits against burn-in.
use vstd::prelude::*;
use crate::frame::{on_screen, Frame};
use crate::pages::{
    clock, clock_lit, clock_time_ok, forecast_fits, spectrum, spectrum_lit, system, system_fits,
    system_lit, temp_fits, weather, weather_lit, SystemView, Time, BARS,
};
use crate::weather::Forecast;
use std::time::{Duration, SystemTime, UNIX_EPOCH};

verus! {

/// How many pages there are: clock, weather, system, spectrum.
pub const PAGES: usize = 4;

/// The spectrum page.
pub const SPECTRUM: usize = 3;

/// Nanoseconds in a second.
pub const NANOS_PER_SEC: u64 = 1_000_000_000;

/// What the render loop is woken by.
pub enum Event {
    /// A signal: the one that steps to the next page, or one that ends the program.
    Signal(i32),
    /// A new forecast.
    Weather(Forecast),
    /// The compositor's idle state changed: `true` when idle.
    Idle(bool),
    /// A frame of levels from cava, one per band.
    Spectrum([u8; BARS]),
}

/// The weather page's pixels for a forecast held by value.
pub open spec fn weather_page_lit(w: Option<Forecast>, x: int, y: int) -> bool {
    match w {
        Some(f) => weather_lit(Some(&f), x, y),
        None => weather_lit(None, x, y),
    }
}

/// What the render loop keeps between wake-ups: the page on screen, whether the user is
/// idle, what the pages draw from besides the clock, and the last frame sent.
/// Times are nanoseconds on a monotonic clock.
pub struct Screen {
    /// The page on screen, 0 to 3.
    pub page: usize,
    /// Whether the compositor reports the user idle.
    pub idle: bool,
    /// The latest forecast, once one has come.
    pub forecast: Option<Forecast>,
    /// The latest levels from cava.
    pub bars: [u8; BARS],
    /// When the latest levels came.
    pub bars_at: Option<u64>,
    /// When the latest levels that were not all silence came.
    pub sound_at: Option<u64>,
    /// The last frame sent to the keyboard.
    pub last: Option<Frame>,
    /// The signal that steps to the next page; any other signal ends the program.
    pub next_page_signal: i32,
}

/// Whether any band has a level above zero.
pub open spec fn any_sound(bars: [u8; BARS]) -> bool {
    exists|i: int| 0 <= i < BARS && #[trigger] bars@[i] > 0
}

/// The state after an event arrives at `now`.
pub open spec fn after_event(s: Screen, event: Option<Event>, now: u64) -> Screen {
    match event {
        Some(Event::Signal(sig)) => if sig == s.next_page_signal {
            Screen { page: ((s.page + 1) % (PAGES as int)) as usize, ..s }
        } else {
            s
        },
        Some(Event::Weather(w)) => Screen { forecast: Some(w), ..s },
        Some(Event::Idle(i)) => Screen { idle: i, ..s },
        Some(Event::Spectrum(b)) => Screen {
            bars: b,
            bars_at: Some(now),
            sound_at: if any_sound(b) {
                Some(now)
            } else {
                s.sound_at
            },
            ..s
        },
        None => s,
    }
}

/// Whether something was heard within `secs` seconds before `now` (time running backwards
/// counts as none passed).
pub open spec fn within(at: Option<u64>, secs: u64, now: u64) -> bool {
    match at {
        Some(t) => (if now >= t {
            now - t
        } else {
            0
        }) < secs * NANOS_PER_SEC,
        None => false,
    }
}

impl Screen {
    /// The page index is one of the pages.
    pub open spec fn wf(&self) -> bool {
        self.page < PAGES
    }

    /// The clock page, no forecast, no sound yet, nothing sent.
    pub fn new(next_page_signal: i32) -> (s: Self)
        ensures
            s.wf(),
            s.page == 0,
            !s.idle,
            s.forecast is None,
            s.bars@ == Seq::new(BARS as nat, |i: int| 0u8),
            s.bars_at is None,
            s.sound_at is None,
            s.last is None,
            s.next_page_signal == next_page_signal,
    {
        let s = Screen {
            page: 0,
            idle: false,
            forecast: None,
            bars: [0u8; BARS],
            bars_at: None,
            sound_at: None,
            last: None,
            next_page_signal,
        };
        assert(s.bars@ =~= Seq::new(BARS as nat, |i: int| 0u8));
        s
    }

    /// Takes in what woke the loop at `now` (`None` when it woke on its own). Returns
    /// whether the program is to end: on any signal but the one that steps the page.
    pub fn handle(&mut self, event: Option<Event>, now: u64) -> (quit: bool)
        requires
            old(self).wf(),
        ensures
            final(self).wf(),
            quit == (event matches Some(Event::Signal(sig)) && sig != old(self).next_page_signal),
            *final(self) == after_event(*old(self), event, now),
            event matches Some(Event::Idle(i)) ==> final(self).idle == i,
            !(event matches Some(Event::Idle(_))) ==> final(self).idle == old(self).idle,
            event matches Some(Event::Weather(w)) ==> final(self).forecast == Some(w),
            event matches Some(Event::Signal(sig)) ==> final(self).page == (if sig
                == old(self).next_page_signal {
                (old(self).page + 1) % 4
            } else {
                old(self).page as int
            }),
            final(self).next_page_signal == old(self).next_page_signal,
    {
        match event {
            Some(Event::Signal(sig)) => {
                if sig == self.next_page_signal {
                    self.page = (self.page + 1) % PAGES;
                    false
                } else {
                    true
                }
            },
            Some(Event::Weather(w)) => {
                self.forecast = Some(w);
                false
            },
            Some(Event::Idle(i)) => {
                self.idle = i;
                false
            },
            Some(Event::Spectrum(b)) => {
                self.bars = b;
                self.bars_at = Some(now);
                let mut k: usize = 0;
                let mut heard = false;
                while k < BARS
                    invariant
                        0 <= k <= BARS,
                        heard == exists|j: int| 0 <= j < k && #[trigger] b@[j] > 0,
                    decreases BARS - k,
                {
                    if b[k] > 0 {
                        heard = true;
                    }
                    k = k + 1;
                }
                if heard {
                    self.sound_at = Some(now);
                }
                false
            },
            None => false,
        }
    }

    /// Whether the loop sleeps until an event instead of waking on the next second:
    /// when idle, except on the spectrum page, which keeps its tick so it can go dark a few
    /// seconds after the music stops.
    pub fn waits_for_event(&self) -> (w: bool)
        ensures
            w == (self.idle && self.page != SPECTRUM),
    {
        self.idle && self.page != SPECTRUM
    }

    /// Whether cava should be running: only while the spectrum page is up.
    pub fn wants_spectrum(&self) -> (w: bool)
        ensures
            w == (self.page == SPECTRUM),
    {
        self.page == SPECTRUM
    }

    /// Whether `at` lies less than `secs` seconds before `now`.
    pub fn heard_within(at: Option<u64>, secs: u64, now: u64) -> (h: bool)
        ensures
            h == within(at, secs, now),
    {
        match at {
            Some(t) => {
                let elapsed: u64 = if now >= t {
                    now - t
                } else {
                    0
                };
                assert((secs as u128) * (NANOS_PER_SEC as u128) <= u128::MAX) by (nonlinear_arith)
                    requires
                        secs <= u64::MAX,
                        NANOS_PER_SEC == 1_000_000_000,
                ;
                (elapsed as u128) < (secs as u128) * (NANOS_PER_SEC as u128)
            },
            None => false,
        }
    }

    /// Whether music is playing on the spectrum page: sound within the last 3 s.
    pub open spec fn playing(&self, now: u64) -> bool {
        self.page == SPECTRUM && within(self.sound_at, 3, now)
    }

    /// Whether the screen goes dark: when idle, unless a playing visualiser is up (it is
    /// moving, so it may stay lit while you're away from the keyboard).
    pub fn blanked(&self, now: u64) -> (b: bool)
        ensures
            b == (self.idle && !self.playing(now)),
    {
        let playing = self.page == SPECTRUM && Self::heard_within(self.sound_at, 3, now);
        self.idle && !playing
    }

    /// The levels the spectrum page draws: the latest, or silence once they are over a
    /// second old (cava sends nothing while asleep, so stale bars fall back to the flat line).
    pub open spec fn shown_bars(&self, now: u64) -> [u8; BARS] {
        if within(self.bars_at, 1, now) {
            self.bars
        } else {
            [0u8; BARS]
        }
    }

    /// The levels the spectrum page draws.
    pub fn spectrum_bars(&self, now: u64) -> (b: [u8; BARS])
        ensures
            b@ == self.shown_bars(now)@,
    {
        if Self::heard_within(self.bars_at, 1, now) {
            self.bars
        } else {
            [0u8; BARS]
        }
    }

    /// What the page on screen needs to be drawn: the local time for the clock (with
    /// seconds in range), a fresh sample for the system page, and text and a graph that
    /// the renderers can take.
    pub open spec fn ready(&self, time: Option<&Time>, stats: Option<&SystemView>) -> bool {
        &&& self.page == 0 ==> (time matches Some(t) && clock_time_ok(*t))
        &&& self.page == 0 ==> (self.forecast matches Some(w) ==> temp_fits(&w))
        &&& self.page == 1 ==> (self.forecast matches Some(w) ==> forecast_fits(&w))
        &&& self.page == 2 ==> (stats matches Some(s) && system_fits(*s))
    }

    /// Which pixels the page on screen lights.
    pub open spec fn page_lit(
        &self,
        now: u64,
        time: Option<&Time>,
        stats: Option<&SystemView>,
        x: int,
        y: int,
    ) -> bool {
        if self.page == 0 {
            clock_lit(*time.unwrap(), match &self.forecast { Some(w) => Some(w), None => None }, x, y)
        } else if self.page == 1 {
            weather_page_lit(self.forecast, x, y)
        } else if self.page == 2 {
            system_lit(*stats.unwrap(), x, y)
        } else {
            spectrum_lit(self.shown_bars(now)@, x, y)
        }
    }

    /// Which pixels are lit once the page is moved along the burn-in orbit for `minute`,
    /// when one is given: each lit pixel goes one step right and/or down.
    pub open spec fn shown_lit(
        &self,
        now: u64,
        time: Option<&Time>,
        stats: Option<&SystemView>,
        minute: Option<u64>,
        x: int,
        y: int,
    ) -> bool {
        match minute {
            None => self.page_lit(now, time, stats, x, y),
            Some(m) => {
                let dx: int = if orbit_step(m).0 {
                    1
                } else {
                    0
                };
                let dy: int = if orbit_step(m).1 {
                    1
                } else {
                    0
                };
                x >= dx && y >= dy && self.page_lit(now, time, stats, x - dx, y - dy)
            },
        }
    }

    /// Draws the page on screen. The clock page needs the local time and the system page
    /// needs a fresh sample; the other pages draw from what the screen keeps.
    pub fn page_frame(&self, now: u64, time: Option<&Time>, stats: Option<&SystemView>) -> (f:
        Frame)
        requires
            self.wf(),
            self.ready(time, stats),
        ensures
            f.framed(),
            forall|x: int, y: int|
                on_screen(x, y) ==> #[trigger] f.lit(x, y) == self.page_lit(now, time, stats, x, y),
    {
        if self.page == 0 {
            match time {
                Some(t) => clock(t, self.forecast.as_ref()),
                None => Frame::new(),
            }
        } else if self.page == 1 {
            weather(self.forecast.as_ref())
        } else if self.page == 2 {
            match stats {
                Some(s) => system(s),
                None => Frame::new(),
            }
        } else {
            let b = self.spectrum_bars(now);
            spectrum(&b)
        }
    }

    /// The frame for the page on screen, moved along the burn-in orbit for `minute`
    /// (minutes since the Unix epoch) when one is given; a preview gives none.
    pub fn render(
        &self,
        now: u64,
        time: Option<&Time>,
        stats: Option<&SystemView>,
        minute: Option<u64>,
    ) -> (f: Frame)
        requires
            self.wf(),
            self.ready(time, stats),
        ensures
            f.framed(),
            forall|x: int, y: int|
                on_screen(x, y) ==> #[trigger] f.lit(x, y) == self.shown_lit(
                    now,
                    time,
                    stats,
                    minute,
                    x,
                    y,
                ),
    {
        let mut f = self.page_frame(now, time, stats);
        match minute {
            Some(m) => {
                let (right, down) = orbit(m);
                let ghost before = f;
                f.shift(right, down);
                proof {
                    assert forall|x: int, y: int| on_screen(x, y) implies #[trigger] f.lit(x, y)
                        == self.shown_lit(now, time, stats, minute, x, y) by {
                        let dx: int = if right {
                            1
                        } else {
                            0
                        };
                        let dy: int = if down {
                            1
                        } else {
                            0
                        };
                        if x >= dx && y >= dy {
                            assert(on_screen(x - dx, y - dy));
                            assert(before.lit(x - dx, y - dy) == self.page_lit(
                                now,
                                time,
                                stats,
                                x - dx,
                                y - dy,
                            ));
                        }
                    }
                }
            },
            None => {},
        }
        f
    }

    /// The frame the loop offers at `now`: a dark screen while blanked, so no frame is left
    /// burning in while the user is away; else the page on screen, moved along the burn-in
    /// orbit for `minute` when one is given. What the page needs is only asked for when it
    /// is drawn.
    pub fn frame_to_offer(
        &self,
        now: u64,
        time: Option<&Time>,
        stats: Option<&SystemView>,
        minute: Option<u64>,
    ) -> (f: Frame)
        requires
            self.wf(),
            !(self.idle && !self.playing(now)) ==> self.ready(time, stats),
        ensures
            f.framed(),
            self.idle && !self.playing(now) ==> f.bytes() == Frame::blank_bytes(),
            !(self.idle && !self.playing(now)) ==> forall|x: int, y: int|
                on_screen(x, y) ==> #[trigger] f.lit(x, y) == self.shown_lit(
                    now,
                    time,
                    stats,
                    minute,
                    x,
                    y,
                ),
    {
        if self.blanked(now) {
            Frame::new()
        } else {
            self.render(now, time, stats, minute)
        }
    }

    /// Records the frame about to be shown. Returns whether it differs from the last one
    /// sent, and so must be sent; only then does it become the last one.
    pub fn present(&mut self, frame: &Frame) -> (send: bool)
        ensures
            send == sends(old(self).last, *frame),
            final(self).last == kept(old(self).last, *frame),
            final(self).page == old(self).page,
            final(self).idle == old(self).idle,
            final(self).forecast == old(self).forecast,
            final(self).bars == old(self).bars,
            final(self).bars_at == old(self).bars_at,
            final(self).sound_at == old(self).sound_at,
            final(self).next_page_signal == old(self).next_page_signal,
    {
        let same = match &self.last {
            Some(l) => l.same_as(frame),
            None => false,
        };
        if !same {
            self.last = Some(*frame);
        }
        !same
    }
}

/// A 2x2 orbit, one step a minute, so no pixel stays lit in exactly one place for long:
/// (right, down) for the minute.
pub open spec fn orbit_step(minute: u64) -> (bool, bool) {
    let k = minute % 4;
    if k == 0 {
        (false, false)
    } else if k == 1 {
        (true, false)
    } else if k == 2 {
        (true, true)
    } else {
        (false, true)
    }
}

/// Which way the image is shifted during `minute` (minutes since the Unix epoch).
pub fn orbit(minute: u64) -> (o: (bool, bool))
    ensures
        o == orbit_step(minute),
{
    let k = minute % 4;
    if k == 0 {
        (false, false)
    } else if k == 1 {
        (true, false)
    } else if k == 2 {
        (true, true)
    } else {
        (false, true)
    }
}

#[verifier::external_type_specification]
#[verifier::external_body]
pub struct ExSystemTime(SystemTime);

/// std's `SystemTime::now`: the wall clock. Nothing is claimed of what it reads.
pub assume_specification[ SystemTime::now ]() -> SystemTime;

/// std's `Duration::subsec_nanos`: claimed, as std documents, to be the fractional part of
/// a second, less than one billion.
pub assume_specification[ Duration::subsec_nanos ](d: &Duration) -> (n: u32)
    ensures
        n < 1_000_000_000,
;

/// std's `Duration::as_secs`. Nothing is claimed of it.
pub assume_specification[ Duration::as_secs ](d: &Duration) -> u64;

/// The time from the Unix epoch to `t` by std's `SystemTime::duration_since`, zero when `t`
/// lies before the epoch. Nothing is claimed of the result.
#[verifier::external_body]
fn since_epoch(t: &SystemTime) -> Duration {
    match t.duration_since(UNIX_EPOCH) {
        Ok(d) => d,
        Err(_) => Duration::ZERO,
    }
}

/// Nanoseconds to sleep when `into` nanoseconds of the current second have passed: to the
/// next second boundary, plus 2 ms so the wake-up lands inside the new second.
pub fn until_next_second_after(into: u32) -> (n: u64)
    requires
        into < NANOS_PER_SEC,
    ensures
        n == NANOS_PER_SEC - into + 2_000_000,
{
    NANOS_PER_SEC - into as u64 + 2_000_000
}

/// Nanoseconds from now to 2 ms past the next second of the wall clock.
pub fn until_next_second() -> (n: u64)
    ensures
        2_000_000 < n <= NANOS_PER_SEC + 2_000_000,
{
    let into = since_epoch(&SystemTime::now()).subsec_nanos();
    until_next_second_after(into)
}

/// The whole minutes in a count of seconds.
pub open spec fn whole_minutes(secs: u64) -> int {
    secs as int / 60
}

/// The whole minutes in a count of seconds.
pub fn minutes_of(secs: u64) -> (m: u64)
    ensures
        m == whole_minutes(secs),
{
    secs / 60
}

/// Minutes since the Unix epoch by the wall clock (0 for a clock set before it): the whole
/// minutes in the clock's count of seconds, whatever the clock reads.
pub fn minute_now() -> (m: u64)
    ensures
        exists|secs: u64| m == #[trigger] whole_minutes(secs),
{
    let secs = since_epoch(&SystemTime::now()).as_secs();
    minutes_of(secs)
}

/// The page a preview asks for by name: `weather`, `system` or `spectrum`, else the clock.
pub open spec fn page_named_spec(name: Seq<char>) -> usize {
    if name == "weather"@ {
        1
    } else if name == "system"@ {
        2
    } else if name == "spectrum"@ {
        3
    } else {
        0
    }
}

/// The page a preview asks for by name.
pub fn page_named(name: &str) -> (page: usize)
    ensures
        page == page_named_spec(name@),
        page < PAGES,
{
    let n = crate::text::chars_of(name);
    let weather = crate::text::chars_of("weather");
    let system = crate::text::chars_of("system");
    let spectrum = crate::text::chars_of("spectrum");
    if crate::text::same_chars(n.as_slice(), weather.as_slice()) {
        1
    } else if crate::text::same_chars(n.as_slice(), system.as_slice()) {
        2
    } else if crate::text::same_chars(n.as_slice(), spectrum.as_slice()) {
        3
    } else {
        0
    }
}

/// How a preview paces its frames, in milliseconds: (wait before the first frame, time
/// between frames). The first frame waits for a CPU-load delta, or for cava's autosens to
/// settle; the spectrum goes 30 a second, the other pages one a second.
pub fn preview_pacing(page: usize) -> (p: (u64, u64))
    ensures
        p == if page == SPECTRUM {
            (3000u64, 33u64)
        } else {
            (1000u64, 1000u64)
        },
{
    if page == SPECTRUM {
        (3000, 33)
    } else {
        (1000, 1000)
    }
}

/// Stepping the page four times comes back to the same page, and every step stays on one
/// of the pages.
pub proof fn lemma_page_cycle(s: Screen, now: u64)
    requires
        s.wf(),
    ensures
        ({
            let e = Some(Event::Signal(s.next_page_signal));
            let s1 = after_event(s, e, now);
            let s2 = after_event(s1, e, now);
            let s3 = after_event(s2, e, now);
            let s4 = after_event(s3, e, now);
            &&& s1.wf() && s2.wf() && s3.wf() && s4.wf()
            &&& s1.page != s.page
            &&& s4 == s
        }),
{
    let e = Some(Event::Signal(s.next_page_signal));
    let s4 = after_event(after_event(after_event(after_event(s, e, now), e, now), e, now), e, now);
    assert(s4 == s);
}

/// A signal other than the page step changes nothing: the program ends on the state it had.
pub proof fn lemma_quit_keeps_state(s: Screen, sig: i32, now: u64)
    requires
        sig != s.next_page_signal,
    ensures
        after_event(s, Some(Event::Signal(sig)), now) == s,
{
}

/// The orbit repeats every four minutes and visits all four offsets in any four
/// consecutive minutes.
pub proof fn lemma_orbit_cycle(m: u64)
    requires
        m <= u64::MAX - 4,
    ensures
        orbit_step((m + 4) as u64) == orbit_step(m),
        orbit_step(m) != orbit_step((m + 1) as u64),
        orbit_step(m) != orbit_step((m + 2) as u64),
        orbit_step(m) != orbit_step((m + 3) as u64),
        orbit_step((m + 1) as u64) != orbit_step((m + 2) as u64),
        orbit_step((m + 1) as u64) != orbit_step((m + 3) as u64),
        orbit_step((m + 2) as u64) != orbit_step((m + 3) as u64),
{
}

/// Whether a frame must be sent: it differs from the last one sent, or none was.
pub open spec fn sends(last: Option<Frame>, frame: Frame) -> bool {
    !(last matches Some(l) && l.bytes() == frame.bytes())
}

/// The last frame sent once `frame` has been offered.
pub open spec fn kept(last: Option<Frame>, frame: Frame) -> Option<Frame> {
    if sends(last, frame) {
        Some(frame)
    } else {
        last
    }
}

/// Only frames that changed are written: offering the same frame twice in a row sends it at
/// most once, and the second offer leaves the last frame as it was.
pub proof fn lemma_present_twice(last: Option<Frame>, frame: Frame)
    ensures
        !sends(kept(last, frame), frame),
        kept(kept(last, frame), frame) == kept(last, frame),
{
}

/// What each event does to the screen, field by field: a page-step signal moves to the
/// next of the four pages and wraps after the last, any other signal changes nothing, a
/// forecast replaces the one kept, an idle report sets the idle flag to what it reports
/// (so coming back clears it), and a frame of levels is kept with its time, which also
/// becomes the time of the last sound when any level is above zero. Nothing else changes.
pub proof fn lemma_event_effects(s: Screen, event: Event, now: u64)
    requires
        s.wf(),
    ensures
        ({
            let t = after_event(s, Some(event), now);
            &&& t.next_page_signal == s.next_page_signal
            &&& t.last == s.last
            &&& (event matches Event::Signal(sig) ==> {
                &&& sig == s.next_page_signal ==> t.page == (if s.page == 3 { 0 } else { s.page + 1 })
                &&& sig != s.next_page_signal ==> t == s
                &&& t.idle == s.idle && t.forecast == s.forecast && t.bars == s.bars
                &&& t.bars_at == s.bars_at && t.sound_at == s.sound_at
            })
            &&& (event matches Event::Weather(w) ==> {
                &&& t.forecast == Some(w)
                &&& t.page == s.page && t.idle == s.idle && t.bars == s.bars
                &&& t.bars_at == s.bars_at && t.sound_at == s.sound_at
            })
            &&& (event matches Event::Idle(i) ==> {
                &&& t.idle == i
                &&& t.page == s.page && t.forecast == s.forecast && t.bars == s.bars
                &&& t.bars_at == s.bars_at && t.sound_at == s.sound_at
            })
            &&& (event matches Event::Spectrum(b) ==> {
                &&& t.bars == b
                &&& t.bars_at == Some(now)
                &&& (exists|k: int| 0 <= k < BARS && b@[k] > 0) ==> t.sound_at == Some(now)
                &&& (forall|k: int| 0 <= k < BARS ==> b@[k] == 0) ==> t.sound_at == s.sound_at
                &&& t.page == s.page && t.idle == s.idle && t.forecast == s.forecast
            })
        }),
{
}

/// The user coming back lights the screen again: whatever the state, once an idle report
/// of `false` has come, the screen is not blanked, and it is blanked after a report of
/// `true` exactly when no music is playing.
pub proof fn lemma_return_unblanks(s: Screen, now: u64, later: u64)
    ensures
        !after_event(s, Some(Event::Idle(false)), now).idle,
        !(after_event(s, Some(Event::Idle(false)), now).idle && !after_event(
            s,
            Some(Event::Idle(false)),
            now,
        ).playing(later)),
        after_event(after_event(s, Some(Event::Idle(true)), now), Some(Event::Idle(false)), now).idle
            == false,
        after_event(s, Some(Event::Idle(true)), now).idle,
{
}

} // verus!
