//! Idle detection from the compositor (ext-idle-notify-v1): which globals to bind, what
//! to ask for, which Wayland socket to use, and how long to wait before blanking.
use vstd::prelude::*;
use crate::text::{
    chars_of, ends_with, parse_u64, parse_u64_spec, same_chars, starts_with, trim, trim_chars,
};

verus! {

/// What to do with a global that the compositor's registry announces.
pub enum Bind {
    /// Bind the seat, at version 1.
    Seat,
    /// Bind the idle notifier at this version.
    Notifier(u32),
    /// Leave it.
    Skip,
}

/// The first seat is bound; the idle notifier is bound at its version, at most 2.
pub open spec fn bind_for(interface: Seq<char>, have_seat: bool, version: u32) -> Bind {
    if interface == "wl_seat"@ && !have_seat {
        Bind::Seat
    } else if interface == "ext_idle_notifier_v1"@ {
        Bind::Notifier(if version < 2 {
            version
        } else {
            2
        })
    } else {
        Bind::Skip
    }
}

/// Decides what to do with an announced global.
pub fn on_global(interface: &str, have_seat: bool, version: u32) -> (b: Bind)
    ensures
        b == bind_for(interface@, have_seat, version),
{
    let name = chars_of(interface);
    let seat = chars_of("wl_seat");
    let notifier = chars_of("ext_idle_notifier_v1");
    if same_chars(name.as_slice(), seat.as_slice()) && !have_seat {
        Bind::Seat
    } else if same_chars(name.as_slice(), notifier.as_slice()) {
        Bind::Notifier(
            if version < 2 {
                version
            } else {
                2
            },
        )
    } else {
        Bind::Skip
    }
}

/// What to ask the idle notifier for: whether to use version 2's input idle, which ignores
/// inhibitors (a video keeping the monitor awake is no reason to keep the keyboard lit), and
/// the timeout in milliseconds (wrapping at 32 bits as the protocol's argument does).
pub fn idle_request(version: u32, timeout_secs: u64) -> (r: (bool, u32))
    ensures
        r.0 == (version >= 2),
        r.1 == (timeout_secs * 1000) % 0x1_0000_0000,
{
    let ms: u128 = timeout_secs as u128 * 1000;
    ((version >= 2), (ms % 0x1_0000_0000) as u32)
}

/// Whether a file name in the runtime directory is a Wayland socket: `wayland-*` but not
/// its `.lock`.
pub open spec fn is_socket_name(name: Seq<char>) -> bool {
    starts_with(name, "wayland-"@) && !ends_with(name, ".lock"@)
}

/// Lexicographic order of names by character (the order of their UTF-8 bytes).
pub open spec fn name_lt(a: Seq<char>, b: Seq<char>) -> bool
    decreases a.len(),
{
    if a.len() == 0 {
        b.len() > 0
    } else if b.len() == 0 {
        false
    } else if a[0] < b[0] {
        true
    } else if a[0] == b[0] {
        name_lt(a.drop_first(), b.drop_first())
    } else {
        false
    }
}

proof fn lemma_name_lt_skip(a: Seq<char>, b: Seq<char>, i: int)
    requires
        0 <= i <= a.len(),
        i <= b.len(),
        forall|k: int| 0 <= k < i ==> a[k] == b[k],
    ensures
        name_lt(a, b) == name_lt(a.skip(i), b.skip(i)),
    decreases i,
{
    if i > 0 {
        lemma_name_lt_skip(a.drop_first(), b.drop_first(), i - 1);
        assert(a.drop_first().skip(i - 1) =~= a.skip(i));
        assert(b.drop_first().skip(i - 1) =~= b.skip(i));
    } else {
        assert(a.skip(0) =~= a);
        assert(b.skip(0) =~= b);
    }
}

/// No name comes before itself.
pub proof fn lemma_name_lt_irreflexive(a: Seq<char>)
    ensures
        !name_lt(a, a),
    decreases a.len(),
{
    if a.len() > 0 {
        lemma_name_lt_irreflexive(a.drop_first());
    }
}

/// The order of names is transitive.
pub proof fn lemma_name_lt_transitive(a: Seq<char>, b: Seq<char>, c: Seq<char>)
    requires
        name_lt(a, b),
        name_lt(b, c),
    ensures
        name_lt(a, c),
    decreases a.len(),
{
    if a.len() > 0 && b.len() > 0 && c.len() > 0 && a[0] == b[0] && b[0] == c[0] {
        lemma_name_lt_transitive(a.drop_first(), b.drop_first(), c.drop_first());
    }
}

/// Of two different names, one comes before the other.
pub proof fn lemma_name_lt_total(a: Seq<char>, b: Seq<char>)
    requires
        a != b,
    ensures
        name_lt(a, b) || name_lt(b, a),
    decreases a.len(),
{
    if a.len() > 0 && b.len() > 0 && a[0] == b[0] {
        if a.drop_first() == b.drop_first() {
            assert(a =~= seq![a[0]] + a.drop_first());
            assert(b =~= seq![b[0]] + b.drop_first());
        }
        lemma_name_lt_total(a.drop_first(), b.drop_first());
    } else if a.len() == 0 && b.len() == 0 {
        assert(a =~= b);
    }
}

/// Whether name `a` comes before name `b`.
pub fn name_before(a: &[char], b: &[char]) -> (lt: bool)
    ensures
        lt == name_lt(a@, b@),
{
    let mut i: usize = 0;
    while i < a.len() && i < b.len() && a[i] == b[i]
        invariant
            0 <= i <= a.len(),
            i <= b.len(),
            forall|k: int| 0 <= k < i ==> a@[k] == b@[k],
        decreases a.len() - i,
    {
        i = i + 1;
    }
    proof {
        lemma_name_lt_skip(a@, b@, i as int);
    }
    if i == a.len() {
        i < b.len()
    } else if i == b.len() {
        false
    } else {
        proof {
            assert(a@.skip(i as int)[0] == a@[i as int]);
            assert(b@.skip(i as int)[0] == b@[i as int]);
        }
        a[i] < b[i]
    }
}

/// Whether a socket name qualifies.
pub fn is_socket(name: &[char]) -> (b: bool)
    ensures
        b == is_socket_name(name@),
{
    let prefix = chars_of("wayland-");
    let suffix = chars_of(".lock");
    let starts = crate::text::has_prefix(name, prefix.as_slice());
    let ends = if suffix.len() <= name.len() {
        let mut tail: Vec<char> = Vec::new();
        let mut i: usize = name.len() - suffix.len();
        while i < name.len()
            invariant
                suffix@.len() <= name@.len(),
                name@.len() - suffix@.len() <= i <= name@.len(),
                tail@ == name@.subrange(name@.len() - suffix@.len(), i as int),
            decreases name.len() - i,
        {
            tail.push(name[i]);
            i = i + 1;
            assert(tail@ =~= name@.subrange(name@.len() - suffix@.len(), i as int));
        }
        assert(tail@ =~= name@.skip(name@.len() - suffix@.len()));
        same_chars(tail.as_slice(), suffix.as_slice())
    } else {
        false
    };
    starts && !ends
}

/// The Wayland socket to use when $WAYLAND_DISPLAY is not inherited: the first, in order
/// of name, of the runtime directory's files that are sockets. `None` when there is none;
/// otherwise its index, the first if names repeat.
pub fn pick_socket(names: &Vec<String>) -> (pick: Option<usize>)
    ensures
        match pick {
            None => forall|j: int| 0 <= j < names@.len() ==> !is_socket_name(#[trigger] names@[j]@),
            Some(i) => {
                &&& i < names@.len()
                &&& is_socket_name(names@[i as int]@)
                &&& forall|j: int|
                    0 <= j < names@.len() && is_socket_name(#[trigger] names@[j]@) ==> (j < i
                        ==> name_lt(names@[i as int]@, names@[j]@)) && !name_lt(
                        names@[j]@,
                        names@[i as int]@,
                    )
            },
        },
{
    let mut best: Option<usize> = None;
    let mut best_chars: Vec<char> = Vec::new();
    let mut j: usize = 0;
    while j < names.len()
        invariant
            0 <= j <= names@.len(),
            match best {
                None => forall|k: int| 0 <= k < j ==> !is_socket_name(#[trigger] names@[k]@),
                Some(i) => {
                    &&& i < j
                    &&& best_chars@ == names@[i as int]@
                    &&& is_socket_name(names@[i as int]@)
                    &&& forall|k: int|
                        0 <= k < j && is_socket_name(#[trigger] names@[k]@) ==> (k < i ==> name_lt(
                            names@[i as int]@,
                            names@[k]@,
                        )) && !name_lt(names@[k]@, names@[i as int]@)
                },
            },
        decreases names@.len() - j,
    {
        let cand = chars_of(names[j].as_str());
        if is_socket(cand.as_slice()) {
            match best {
                None => {
                    proof {
                        lemma_name_lt_irreflexive(cand@);
                    }
                    best = Some(j);
                    best_chars = cand;
                },
                Some(i) => {
                    if name_before(cand.as_slice(), best_chars.as_slice()) {
                        proof {
                            lemma_name_lt_irreflexive(cand@);
                            assert forall|k: int|
                                0 <= k < j + 1 && is_socket_name(#[trigger] names@[k]@) implies (k
                                < j ==> name_lt(cand@, names@[k]@)) && !name_lt(names@[k]@, cand@) by {
                                if k < j {
                                    if names@[k]@ != names@[i as int]@ && !name_lt(
                                        names@[i as int]@,
                                        names@[k]@,
                                    ) {
                                        lemma_name_lt_total(names@[i as int]@, names@[k]@);
                                    }
                                    if name_lt(names@[i as int]@, names@[k]@) {
                                        lemma_name_lt_transitive(cand@, names@[i as int]@, names@[k]@);
                                    }
                                    if name_lt(names@[k]@, cand@) {
                                        lemma_name_lt_transitive(names@[k]@, cand@, names@[i as int]@);
                                        if k == i {
                                            lemma_name_lt_irreflexive(names@[i as int]@);
                                        }
                                    }
                                }
                            }
                        }
                        best = Some(j);
                        best_chars = cand;
                    } else {
                        proof {
                            assert forall|k: int|
                                0 <= k < j + 1 && is_socket_name(#[trigger] names@[k]@) implies (k
                                < i ==> name_lt(names@[i as int]@, names@[k]@)) && !name_lt(
                                names@[k]@,
                                names@[i as int]@,
                            ) by {
                                if k == j {
                                    assert(names@[k]@ == cand@);
                                }
                            }
                        }
                    }
                },
            }
        }
        j = j + 1;
    }
    best
}

/// Seconds of idleness before the screen blanks, from the APEX_OLED_IDLE variable when it is
/// set (0 = never blank, as does anything that is not a number), else from the screensaver
/// delay in the desktop shell's settings (`idle.screensaver` of its JSON), else 5 minutes.
pub open spec fn idle_secs_spec(env: Option<Seq<char>>, shell: Option<Seq<char>>) -> Option<u64> {
    match env {
        Some(v) => match parse_u64_spec(trim(v)) {
            Some(s) => if s > 0 {
                Some(s)
            } else {
                None
            },
            None => None,
        },
        None => Some(
            match shell {
                Some(j) => screensaver_delay(json_u64_at(j, "idle"@, "screensaver"@)),
                None => 300,
            },
        ),
    }
}

/// The screensaver delay that the shell's settings give, read as a number of seconds:
/// that number when it is above zero, else 5 minutes.
pub open spec fn screensaver_delay(read: Option<u64>) -> u64 {
    match read {
        Some(s) => if s > 0 {
            s
        } else {
            300
        },
        None => 300,
    }
}

/// Seconds of idleness before the screen blanks, from what was read at `idle.screensaver`
/// in the shell's settings.
pub fn screensaver_secs(read: Option<u64>) -> (secs: u64)
    ensures
        secs == screensaver_delay(read),
        secs > 0,
{
    match read {
        Some(s) => if s > 0 {
            s
        } else {
            300
        },
        None => 300,
    }
}

/// What serde_json reads as a `u64` at `document[outer][inner]`.
pub uninterp spec fn json_u64_at(document: Seq<char>, outer: Seq<char>, inner: Seq<char>) -> Option<
    u64,
>;

/// Parses `document` with serde_json's `from_str` into a `Value` and reads
/// `value[outer][inner].as_u64()`; `None` when the text is not JSON. The contract names the
/// result and claims nothing more of it.
#[verifier::external_body]
fn read_json_u64(document: &str, outer: &str, inner: &str) -> (r: Option<u64>)
    ensures
        r == json_u64_at(document@, outer@, inner@),
{
    match serde_json::from_str::<serde_json::Value>(document) {
        Ok(v) => v[outer][inner].as_u64(),
        Err(_) => None,
    }
}

/// Seconds of idleness before the screen blanks (`None` = never), from the environment
/// variable's value if it is set and, if not, the shell settings file's text if it could
/// be read.
pub fn idle_secs(env: Option<&str>, shell: Option<&str>) -> (secs: Option<u64>)
    ensures
        secs == idle_secs_spec(
            match env {
                Some(v) => Some(v@),
                None => None,
            },
            match shell {
                Some(j) => Some(j@),
                None => None,
            },
        ),
{
    match env {
        Some(v) => {
            let chars = chars_of(v);
            let t = trim_chars(chars.as_slice());
            match parse_u64(t.as_slice()) {
                Some(s) => if s > 0 {
                    Some(s)
                } else {
                    None
                },
                None => None,
            }
        },
        None => Some(
            match shell {
                Some(j) => screensaver_secs(read_json_u64(j, "idle", "screensaver")),
                None => 300,
            },
        ),
    }
}

} // verus!
