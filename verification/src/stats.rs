//! What the system page reads from the kernel: CPU time counters from /proc/stat, fields
//! of /proc/meminfo, and which hwmon sensor is the CPU's.
use vstd::prelude::*;
use crate::text::{
    chars_of, has_prefix, is_white, lines, parse_u64, parse_u64_spec, same_chars, split_lines,
    split_words, starts_with, texts, trim, trim_chars, words,
};

verus! {

/// 2^64, the modulus of `u64` arithmetic.
pub open spec fn two_64() -> int {
    0x1_0000_0000_0000_0000
}

/// The numbers after the label of a `cpu` line: at most eight, each read as a `u64`,
/// or 0 where that fails.
pub open spec fn cpu_fields(line: Seq<char>) -> Seq<u64> {
    let w = words(line);
    let rest = if w.len() > 0 {
        w.drop_first()
    } else {
        w
    };
    let f = if rest.len() > 8 {
        rest.take(8)
    } else {
        rest
    };
    f.map_values(|t: Seq<char>| field_value(t))
}

/// A field's value, 0 where it does not read as a `u64`.
pub open spec fn field_value(t: Seq<char>) -> u64 {
    match parse_u64_spec(t) {
        Some(v) => v,
        None => 0,
    }
}

/// The sum of some counters.
pub open spec fn sum(v: Seq<u64>) -> int
    decreases v.len(),
{
    if v.len() == 0 {
        0
    } else {
        sum(v.drop_last()) + v.last()
    }
}

/// Field `i` of a line, 0 where the line has fewer.
pub open spec fn field_at(v: Seq<u64>, i: int) -> int {
    if 0 <= i < v.len() {
        v[i] as int
    } else {
        0
    }
}

/// (busy, total) jiffies of one `cpu` line: total is the sum of the first eight fields,
/// busy leaves out idle (the fourth) and iowait (the fifth); both wrap around at 2^64 as
/// `u64` arithmetic does.
pub open spec fn cpu_line_times(line: Seq<char>) -> (u64, u64) {
    let v = cpu_fields(line);
    (
        ((sum(v) - field_at(v, 3) - field_at(v, 4)) % two_64()) as u64,
        (sum(v) % two_64()) as u64,
    )
}

/// A line of /proc/stat about a CPU (`cpu` for all of them, `cpuN` for one).
pub open spec fn is_cpu_line(line: Seq<char>) -> bool {
    starts_with(line, seq!['c', 'p', 'u'])
}

proof fn lemma_sum_bounds(v: Seq<u64>)
    ensures
        0 <= sum(v) <= v.len() * u64::MAX,
        forall|i: int| 0 <= i < v.len() ==> sum(v) >= #[trigger] v[i],
    decreases v.len(),
{
    if v.len() > 0 {
        lemma_sum_bounds(v.drop_last());
        assert forall|i: int| 0 <= i < v.len() implies sum(v) >= #[trigger] v[i] by {
            if i < v.len() - 1 {
                assert(v.drop_last()[i] == v[i]);
            }
        }
    }
}

proof fn lemma_sum_two(v: Seq<u64>)
    requires
        v.len() > 4,
    ensures
        sum(v) >= v[3] + v[4],
    decreases v.len(),
{
    if v.len() > 5 {
        lemma_sum_two(v.drop_last());
    } else {
        let w = v.drop_last();
        lemma_sum_bounds(w);
        assert(w[3] == v[3]);
    }
}

/// Reads (busy, total) from one line.
fn line_times(line: &Vec<char>) -> (t: (u64, u64))
    ensures
        t == cpu_line_times(line@),
{
    let w = split_words(line);
    let ghost ws = texts(w@);
    let ghost f = cpu_fields(line@);
    let n: usize = if w.len() > 9 {
        8
    } else if w.len() > 0 {
        w.len() - 1
    } else {
        0
    };
    assert(f.len() == n);
    let mut total: u128 = 0;
    let mut idle: u128 = 0;
    let mut j: usize = 0;
    while j < n
        invariant
            0 <= j <= n,
            n <= 8,
            n == f.len(),
            n + 1 <= w@.len() || n == 0,
            ws == texts(w@),
            ws == words(line@),
            f == cpu_fields(line@),
            total == sum(f.take(j as int)),
            idle == field_at(f.take(j as int), 3) + field_at(f.take(j as int), 4),
            total <= j * u64::MAX,
        decreases n - j,
    {
        let v = match parse_u64(w[j + 1].as_slice()) {
            Some(v) => v,
            None => 0,
        };
        proof {
            assert(ws[j + 1] == w@[j + 1]@);
            assert(f[j as int] == v);
            assert(f.take(j + 1).drop_last() =~= f.take(j as int));
        }
        total = total + v as u128;
        if j == 3 || j == 4 {
            idle = idle + v as u128;
        }
        j = j + 1;
    }
    proof {
        assert(f.take(n as int) =~= f);
        if f.len() > 4 {
            lemma_sum_two(f);
        } else if f.len() > 3 {
            lemma_sum_bounds(f);
        }
    }
    let busy = ((total - idle) % 0x1_0000_0000_0000_0000u128) as u64;
    let all = (total % 0x1_0000_0000_0000_0000u128) as u64;
    (busy, all)
}

/// (busy, total) per `cpu` line of /proc/stat; iowait counts as idle. Reading stops at the
/// first line that is not about a CPU.
pub fn cpu_times(stat: &str) -> (times: Vec<(u64, u64)>)
    ensures
        times@.len() <= lines(stat@).len(),
        forall|i: int| 0 <= i < times@.len() ==> is_cpu_line(#[trigger] lines(stat@)[i]),
        forall|i: int|
            0 <= i < times@.len() ==> #[trigger] times@[i] == cpu_line_times(lines(stat@)[i]),
        times@.len() == lines(stat@).len() || !is_cpu_line(lines(stat@)[times@.len() as int]),
{
    let chars = chars_of(stat);
    let ls = split_lines(&chars);
    let ghost lv = texts(ls@);
    let cpu = ['c', 'p', 'u'];
    assert(cpu@ =~= seq!['c', 'p', 'u']);
    let mut times: Vec<(u64, u64)> = Vec::new();
    let mut i: usize = 0;
    while i < ls.len()
        invariant
            0 <= i <= ls.len(),
            lv == texts(ls@),
            lv == lines(stat@),
            cpu@ == seq!['c', 'p', 'u'],
            times@.len() == i,
            forall|k: int| 0 <= k < i ==> is_cpu_line(#[trigger] lv[k]),
            forall|k: int| 0 <= k < i ==> #[trigger] times@[k] == cpu_line_times(lv[k]),
        decreases ls.len() - i,
    {
        if !has_prefix(ls[i].as_slice(), cpu.as_slice()) {
            assert(lv[i as int] == ls@[i as int]@);
            assert(!is_cpu_line(lv[i as int]));
            return times;
        }
        proof {
            assert(lv[i as int] == ls@[i as int]@);
        }
        let t = line_times(&ls[i]);
        let ghost before = times@;
        times.push(t);
        proof {
            assert forall|k: int| 0 <= k < i + 1 implies #[trigger] times@[k] == cpu_line_times(
                lv[k],
            ) by {
                if k < i {
                    assert(times@[k] == before[k]);
                }
            }
        }
        i = i + 1;
    }
    times
}

/// (busy, total) jiffies that passed between two samples of one CPU line: none when the
/// total did not grow; otherwise the busy count wraps around as `u64` subtraction does.
pub open spec fn delta(now: (u64, u64), prev: (u64, u64)) -> (u64, u64) {
    if now.1 > prev.1 {
        ((if now.0 >= prev.0 {
            now.0 - prev.0
        } else {
            now.0 - prev.0 + two_64()
        }) as u64, (now.1 - prev.1) as u64)
    } else {
        (0, 0)
    }
}

/// CPU load between consecutive reads of /proc/stat. Only sampled while the system page
/// is on screen.
pub struct CpuLoad {
    /// (busy, total) of the previous sample: `[0]` = all CPUs, `[1..]` = each thread.
    pub prev: Vec<(u64, u64)>,
}

impl CpuLoad {
    /// No sample yet.
    pub fn new() -> (c: Self)
        ensures
            c.prev@.len() == 0,
    {
        CpuLoad { prev: Vec::new() }
    }

    /// Takes a new sample. Returns the (busy, total) jiffies since the previous sample per
    /// line, same layout, when both samples have the same lines; `None` (keep the old load)
    /// otherwise. A load is busy / total, 0 where total is 0.
    pub fn sample(&mut self, stat: &str) -> (load: Option<Vec<(u64, u64)>>)
        ensures
            final(self).prev@ == cpu_times_of(stat@),
            match load {
                Some(d) => {
                    &&& old(self).prev@.len() == final(self).prev@.len()
                    &&& d@.len() == final(self).prev@.len()
                    &&& forall|i: int|
                        0 <= i < d@.len() ==> #[trigger] d@[i] == delta(
                            final(self).prev@[i],
                            old(self).prev@[i],
                        )
                },
                None => old(self).prev@.len() != final(self).prev@.len(),
            },
    {
        let now = cpu_times(stat);
        proof {
            lemma_cpu_times_unique(stat@, now@);
        }
        let mut load: Option<Vec<(u64, u64)>> = None;
        if now.len() == self.prev.len() {
            let mut d: Vec<(u64, u64)> = Vec::new();
            let mut i: usize = 0;
            while i < now.len()
                invariant
                    0 <= i <= now.len(),
                    now.len() == self.prev.len(),
                    d@.len() == i,
                    forall|k: int|
                        0 <= k < i ==> #[trigger] d@[k] == delta(now@[k], self.prev@[k]),
                decreases now.len() - i,
            {
                let (b, t) = now[i];
                let (pb, pt) = self.prev[i];
                if t > pt {
                    d.push((b.wrapping_sub(pb), t - pt));
                } else {
                    d.push((0, 0));
                }
                i = i + 1;
            }
            load = Some(d);
        }
        self.prev = now;
        load
    }
}

/// The (busy, total) list that /proc/stat text `s` gives, as `cpu_times` states it.
pub open spec fn cpu_times_of(s: Seq<char>) -> Seq<(u64, u64)> {
    let ls = lines(s);
    let n = choose|n: int| cpu_prefix_len(ls, n);
    Seq::new(n as nat, |i: int| cpu_line_times(ls[i]))
}

/// The first `n` lines are about CPUs and line `n`, if there is one, is not.
pub open spec fn cpu_prefix_len(ls: Seq<Seq<char>>, n: int) -> bool {
    &&& 0 <= n <= ls.len()
    &&& forall|i: int| 0 <= i < n ==> is_cpu_line(#[trigger] ls[i])
    &&& n == ls.len() || !is_cpu_line(ls[n])
}

proof fn lemma_cpu_times_unique(s: Seq<char>, t: Seq<(u64, u64)>)
    requires
        t.len() <= lines(s).len(),
        forall|i: int| 0 <= i < t.len() ==> is_cpu_line(#[trigger] lines(s)[i]),
        forall|i: int| 0 <= i < t.len() ==> #[trigger] t[i] == cpu_line_times(lines(s)[i]),
        t.len() == lines(s).len() || !is_cpu_line(lines(s)[t.len() as int]),
    ensures
        t == cpu_times_of(s),
{
    let ls = lines(s);
    let m = t.len() as int;
    assert(cpu_prefix_len(ls, m));
    let n = choose|n: int| cpu_prefix_len(ls, n);
    if n < m {
        assert(is_cpu_line(ls[n]));
    } else if m < n {
        assert(is_cpu_line(ls[m]));
    }
    assert(t =~= cpu_times_of(s));
}

/// The second word of the first line that begins with `key`, if that line has one.
pub open spec fn field_after(ls: Seq<Seq<char>>, key: Seq<char>) -> Option<Seq<char>>
    decreases ls.len(),
{
    if ls.len() == 0 {
        None
    } else if starts_with(ls[0], key) {
        let w = words(ls[0]);
        if w.len() > 1 {
            Some(w[1])
        } else {
            None
        }
    } else {
        field_after(ls.drop_first(), key)
    }
}

/// The value field of the first line of /proc/meminfo that begins with `key`
/// (such as `MemTotal:`), as text; `None` when there is no such line or it has no value.
pub fn meminfo_field(meminfo: &str, key: &str) -> (f: Option<Vec<char>>)
    ensures
        match f {
            Some(v) => field_after(lines(meminfo@), key@) == Some(v@),
            None => field_after(lines(meminfo@), key@) is None,
        },
{
    let chars = chars_of(meminfo);
    let k = chars_of(key);
    let ls = split_lines(&chars);
    let ghost lv = texts(ls@);
    assert(lv.skip(0) =~= lv);
    let mut i: usize = 0;
    while i < ls.len()
        invariant
            0 <= i <= ls.len(),
            lv == texts(ls@),
            lv == lines(meminfo@),
            k@ == key@,
            field_after(lv, key@) == field_after(lv.skip(i as int), key@),
        decreases ls.len() - i,
    {
        proof {
            assert(lv.skip(i as int)[0] == ls@[i as int]@);
            assert(lv.skip(i as int).drop_first() =~= lv.skip(i + 1));
        }
        if has_prefix(ls[i].as_slice(), k.as_slice()) {
            let w = split_words(&ls[i]);
            if w.len() > 1 {
                let v = w[1].clone();
                proof {
                    assert(texts(w@)[1] == w@[1]@);
                }
                return Some(v);
            }
            return None;
        }
        i = i + 1;
    }
    None
}

/// The hwmon drivers that report the CPU's temperature.
pub open spec fn is_cpu_sensor_name(name: Seq<char>) -> bool {
    let t = trim(name);
    t == "k10temp"@ || t == "zenpower"@ || t == "coretemp"@
}

/// Whether an hwmon device's `name` file (with its trailing newline) names a CPU sensor.
pub fn is_cpu_sensor(name: &str) -> (b: bool)
    ensures
        b == is_cpu_sensor_name(name@),
{
    let chars = chars_of(name);
    let t = trim_chars(chars.as_slice());
    let a = chars_of("k10temp");
    let b = chars_of("zenpower");
    let c = chars_of("coretemp");
    same_chars(t.as_slice(), a.as_slice()) || same_chars(t.as_slice(), b.as_slice()) || same_chars(
        t.as_slice(),
        c.as_slice(),
    )
}

} // verus!
