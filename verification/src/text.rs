//! Reading text the way `str`'s own methods do: lines, whitespace-separated words,
//! trimming and unsigned integers.
use vstd::prelude::*;

verus! {

/// The characters of a string slice, in order.
pub fn chars_of(s: &str) -> (v: Vec<char>)
    ensures
        v@ == s@,
{
    let mut v: Vec<char> = Vec::new();
    for c in it: s.chars()
        invariant
            v@ == it.seq().take(it.index() as int),
    {
        v.push(c);
    }
    v
}

/// Unicode's White_Space property, which `char::is_whitespace` tests.
pub open spec fn is_white(c: char) -> bool {
    let u = c as u32;
    ||| 0x09 <= u <= 0x0d
    ||| u == 0x20
    ||| u == 0x85
    ||| u == 0xa0
    ||| u == 0x1680
    ||| 0x2000 <= u <= 0x200a
    ||| u == 0x2028
    ||| u == 0x2029
    ||| u == 0x202f
    ||| u == 0x205f
    ||| u == 0x3000
}

/// Whether `c` is whitespace in Unicode's sense.
pub fn is_whitespace(c: char) -> (w: bool)
    ensures
        w == is_white(c),
{
    let u = c as u32;
    (0x09 <= u && u <= 0x0d) || u == 0x20 || u == 0x85 || u == 0xa0 || u == 0x1680 || (0x2000 <= u
        && u <= 0x200a) || u == 0x2028 || u == 0x2029 || u == 0x202f || u == 0x205f || u == 0x3000
}

/// `s` begins with `prefix`.
pub open spec fn starts_with(s: Seq<char>, prefix: Seq<char>) -> bool {
    prefix.len() <= s.len() && s.take(prefix.len() as int) == prefix
}

/// `s` ends with `suffix`.
pub open spec fn ends_with(s: Seq<char>, suffix: Seq<char>) -> bool {
    suffix.len() <= s.len() && s.skip(s.len() - suffix.len()) == suffix
}

/// Whitespace-separated words, read left to right: the words finished so far and the
/// word under way.
pub open spec fn words_state(s: Seq<char>) -> (Seq<Seq<char>>, Seq<char>)
    decreases s.len(),
{
    if s.len() == 0 {
        (seq![], seq![])
    } else {
        let (done, cur) = words_state(s.drop_last());
        if is_white(s.last()) {
            if cur.len() > 0 {
                (done.push(cur), seq![])
            } else {
                (done, cur)
            }
        } else {
            (done, cur.push(s.last()))
        }
    }
}

/// The contents of each vector of characters in a sequence of them.
pub open spec fn texts(v: Seq<Vec<char>>) -> Seq<Seq<char>> {
    v.map_values(|w: Vec<char>| w@)
}

/// The maximal runs of non-whitespace characters of `s`, in order, as `str::split_whitespace`
/// yields them.
pub open spec fn words(s: Seq<char>) -> Seq<Seq<char>> {
    let (done, cur) = words_state(s);
    if cur.len() > 0 {
        done.push(cur)
    } else {
        done
    }
}

/// Splits a run of characters at whitespace, dropping the whitespace.
pub fn split_words(s: &Vec<char>) -> (out: Vec<Vec<char>>)
    ensures
        texts(out@) == words(s@),
{
    let mut done: Vec<Vec<char>> = Vec::new();
    let mut cur: Vec<char> = Vec::new();
    let mut i: usize = 0;
    while i < s.len()
        invariant
            0 <= i <= s.len(),
            (texts(done@), cur@) == words_state(s@.take(i as int)),
        decreases s.len() - i,
    {
        let c = s[i];
        proof {
            assert(s@.take(i + 1).drop_last() =~= s@.take(i as int));
        }
        if is_whitespace(c) {
            if cur.len() > 0 {
                let ghost d = texts(done@);
                let word = cur;
                done.push(word);
                cur = Vec::new();
                proof {
                    assert(texts(done@) =~= d.push(word@));
                }
            }
        } else {
            cur.push(c);
        }
        i = i + 1;
    }
    proof {
        assert(s@.take(s.len() as int) =~= s@);
    }
    if cur.len() > 0 {
        let ghost d = texts(done@);
        let ghost w = cur@;
        done.push(cur);
        proof {
            assert(texts(done@) =~= d.push(w));
        }
    }
    done
}

/// A line without its `\r` ending, if it has one.
pub open spec fn strip_cr(line: Seq<char>) -> Seq<char> {
    if line.len() > 0 && line.last() == '\r' {
        line.drop_last()
    } else {
        line
    }
}

/// Lines, read left to right: the lines finished so far and the line under way.
pub open spec fn lines_state(s: Seq<char>) -> (Seq<Seq<char>>, Seq<char>)
    decreases s.len(),
{
    if s.len() == 0 {
        (seq![], seq![])
    } else {
        let (done, cur) = lines_state(s.drop_last());
        if s.last() == '\n' {
            (done.push(strip_cr(cur)), seq![])
        } else {
            (done, cur.push(s.last()))
        }
    }
}

/// The lines of `s` as `str::lines` yields them: split after each `\n`, a `\r\n` ending
/// dropped whole, and no empty line after a final `\n`.
pub open spec fn lines(s: Seq<char>) -> Seq<Seq<char>> {
    let (done, cur) = lines_state(s);
    if cur.len() > 0 {
        done.push(cur)
    } else {
        done
    }
}

/// Splits text into its lines.
pub fn split_lines(s: &Vec<char>) -> (out: Vec<Vec<char>>)
    ensures
        texts(out@) == lines(s@),
{
    let mut done: Vec<Vec<char>> = Vec::new();
    let mut cur: Vec<char> = Vec::new();
    let mut i: usize = 0;
    while i < s.len()
        invariant
            0 <= i <= s.len(),
            (texts(done@), cur@) == lines_state(s@.take(i as int)),
        decreases s.len() - i,
    {
        let c = s[i];
        proof {
            assert(s@.take(i + 1).drop_last() =~= s@.take(i as int));
        }
        if c == '\n' {
            let ghost d = texts(done@);
            let ghost w = cur@;
            if cur.len() > 0 && cur[cur.len() - 1] == '\r' {
                cur.pop();
            }
            proof {
                assert(cur@ =~= strip_cr(w));
            }
            done.push(cur);
            cur = Vec::new();
            proof {
                assert(texts(done@) =~= d.push(strip_cr(w)));
            }
        } else {
            cur.push(c);
        }
        i = i + 1;
    }
    proof {
        assert(s@.take(s.len() as int) =~= s@);
    }
    if cur.len() > 0 {
        let ghost d = texts(done@);
        let ghost w = cur@;
        done.push(cur);
        proof {
            assert(texts(done@) =~= d.push(w));
        }
    }
    done
}

/// Whether `c` is an ASCII decimal digit.
pub open spec fn is_digit(c: char) -> bool {
    '0' <= c <= '9'
}

/// The value of a run of decimal digits.
pub open spec fn digits_value(d: Seq<char>) -> nat
    decreases d.len(),
{
    if d.len() == 0 {
        0
    } else {
        digits_value(d.drop_last()) * 10 + ((d.last() as u32) - ('0' as u32)) as nat
    }
}

/// Every character of `d` is a decimal digit.
pub open spec fn all_digits(d: Seq<char>) -> bool {
    forall|i: int| 0 <= i < d.len() ==> is_digit(#[trigger] d[i])
}

/// A token without the `+` it may begin with.
pub open spec fn unsigned_digits(t: Seq<char>) -> Seq<char> {
    if t.len() > 0 && t[0] == '+' {
        t.skip(1)
    } else {
        t
    }
}

/// What `u64::from_str` makes of a token: an optional `+`, then one or more decimal
/// digits whose value fits in 64 bits.
pub open spec fn parse_u64_spec(t: Seq<char>) -> Option<u64> {
    let d = unsigned_digits(t);
    if d.len() > 0 && all_digits(d) && digits_value(d) <= u64::MAX {
        Some(digits_value(d) as u64)
    } else {
        None
    }
}

proof fn lemma_digits_value_grows(d: Seq<char>, j: int)
    requires
        0 <= j <= d.len(),
        forall|i: int| 0 <= i < d.len() ==> is_digit(#[trigger] d[i]),
    ensures
        digits_value(d.take(j)) <= digits_value(d),
    decreases d.len() - j,
{
    if j < d.len() {
        lemma_digits_value_grows(d, j + 1);
        assert(d.take(j + 1).drop_last() =~= d.take(j));
    } else {
        assert(d.take(j) =~= d);
    }
}

/// Parses an unsigned decimal integer as `u64::from_str` does.
pub fn parse_u64(t: &[char]) -> (r: Option<u64>)
    ensures
        r == parse_u64_spec(t@),
{
    let start: usize = if t.len() > 0 && t[0] == '+' {
        1
    } else {
        0
    };
    let ghost d = unsigned_digits(t@);
    assert(d =~= t@.skip(start as int));
    if start >= t.len() {
        return None;
    }
    let mut v: u64 = 0;
    let mut i: usize = start;
    while i < t.len()
        invariant
            start <= i <= t.len(),
            d == t@.skip(start as int),
            d == unsigned_digits(t@),
            forall|k: int| 0 <= k < i - start ==> is_digit(#[trigger] d[k]),
            v == digits_value(d.take(i - start)),
        decreases t.len() - i,
    {
        let c = t[i];
        if !('0' <= c && c <= '9') {
            proof {
                assert(!is_digit(d[i - start]));
            }
            return None;
        }
        let digit = (c as u32 - '0' as u32) as u64;
        proof {
            assert(d.take(i - start + 1).drop_last() =~= d.take(i - start));
        }
        if v > (u64::MAX - digit) / 10 {
            proof {
                let m = (u64::MAX - digit) / 10;
                assert(v * 10 + digit > u64::MAX) by (nonlinear_arith)
                    requires
                        v > m,
                        m == (u64::MAX - digit) / 10,
                        digit <= 9,
                ;
                assert(digits_value(d.take(i - start + 1)) > u64::MAX);
                if all_digits(d) {
                    lemma_digits_value_grows(d, i - start + 1);
                }
                assert(parse_u64_spec(t@) is None);
            }
            return None;
        }
        v = v * 10 + digit;
        i = i + 1;
    }
    assert(d.take(i - start) =~= d);
    Some(v)
}

/// How many characters of whitespace `s` begins with.
pub open spec fn leading_white(s: Seq<char>) -> int
    decreases s.len(),
{
    if s.len() > 0 && is_white(s[0]) {
        1 + leading_white(s.drop_first())
    } else {
        0
    }
}

/// How many characters of whitespace `s` ends with.
pub open spec fn trailing_white(s: Seq<char>) -> int
    decreases s.len(),
{
    if s.len() > 0 && is_white(s.last()) {
        1 + trailing_white(s.drop_last())
    } else {
        0
    }
}

/// `s` without leading and trailing whitespace, as `str::trim` leaves it.
pub open spec fn trim(s: Seq<char>) -> Seq<char> {
    let a = leading_white(s);
    if a == s.len() {
        seq![]
    } else {
        s.subrange(a, s.len() - trailing_white(s))
    }
}

} // verus!
verus! {

/// Whether `s` begins with `prefix`.
pub fn has_prefix(s: &[char], prefix: &[char]) -> (b: bool)
    ensures
        b == starts_with(s@, prefix@),
{
    if prefix.len() > s.len() {
        return false;
    }
    let mut i: usize = 0;
    while i < prefix.len()
        invariant
            0 <= i <= prefix.len() <= s.len(),
            forall|k: int| 0 <= k < i ==> s@[k] == prefix@[k],
        decreases prefix.len() - i,
    {
        if s[i] != prefix[i] {
            assert(s@.take(prefix@.len() as int)[i as int] != prefix@[i as int]);
            return false;
        }
        i = i + 1;
    }
    assert(s@.take(prefix@.len() as int) =~= prefix@);
    true
}

/// Whether two runs of characters are equal.
pub fn same_chars(a: &[char], b: &[char]) -> (same: bool)
    ensures
        same == (a@ == b@),
{
    if a.len() != b.len() {
        return false;
    }
    let same = has_prefix(a, b);
    assert(a@.take(b@.len() as int) =~= a@);
    same
}

proof fn lemma_leading_white_skip(s: Seq<char>, i: int)
    requires
        0 <= i < s.len(),
        forall|k: int| 0 <= k <= i ==> is_white(#[trigger] s[k]),
    ensures
        leading_white(s) == i + 1 + leading_white(s.skip(i + 1)),
    decreases i,
{
    if i > 0 {
        lemma_leading_white_skip(s.drop_first(), i - 1);
        assert(s.drop_first().skip(i) =~= s.skip(i + 1));
    } else {
        assert(s.drop_first() =~= s.skip(1));
    }
}

proof fn lemma_trailing_white_take(s: Seq<char>, j: int)
    requires
        0 < j <= s.len(),
        forall|k: int| j - 1 <= k < s.len() ==> is_white(#[trigger] s[k]),
    ensures
        trailing_white(s) == s.len() - j + 1 + trailing_white(s.take(j - 1)),
    decreases s.len() - j,
{
    if j < s.len() {
        lemma_trailing_white_take(s.drop_last(), j);
        assert(s.drop_last().take(j - 1) =~= s.take(j - 1));
    } else {
        assert(s.drop_last() =~= s.take(j - 1));
    }
}

proof fn lemma_trailing_white_bound(s: Seq<char>)
    ensures
        0 <= trailing_white(s) <= s.len(),
    decreases s.len(),
{
    if s.len() > 0 {
        lemma_trailing_white_bound(s.drop_last());
    }
}

proof fn lemma_leading_white_bound(s: Seq<char>)
    ensures
        0 <= leading_white(s) <= s.len(),
        leading_white(s) < s.len() ==> !is_white(s[leading_white(s)]),
    decreases s.len(),
{
    if s.len() > 0 && is_white(s[0]) {
        lemma_leading_white_bound(s.drop_first());
    }
}

/// `s` without the whitespace at either end.
pub fn trim_chars(s: &[char]) -> (t: Vec<char>)
    ensures
        t@ == trim(s@),
{
    let mut a: usize = 0;
    while a < s.len() && is_whitespace(s[a])
        invariant
            0 <= a <= s.len(),
            forall|k: int| 0 <= k < a ==> is_white(#[trigger] s@[k]),
            a == 0 || leading_white(s@) == a + leading_white(s@.skip(a as int)),
        decreases s.len() - a,
    {
        proof {
            lemma_leading_white_skip(s@, a as int);
        }
        a = a + 1;
    }
    proof {
        if a == 0 {
            if s@.len() > 0 {
                assert(!is_white(s@[0]));
            }
        } else if a < s.len() {
            assert(!is_white(s@.skip(a as int)[0]));
        } else {
            assert(s@.skip(a as int).len() == 0);
        }
        assert(leading_white(s@) == a);
    }
    let mut out: Vec<char> = Vec::new();
    if a == s.len() {
        return out;
    }
    let mut b: usize = s.len();
    while b > a && is_whitespace(s[b - 1])
        invariant
            a < s.len(),
            a <= b <= s.len(),
            !is_white(s@[a as int]),
            forall|k: int| b <= k < s.len() ==> is_white(#[trigger] s@[k]),
            b == s.len() || trailing_white(s@) == s.len() - b + trailing_white(s@.take(b as int)),
        decreases b,
    {
        proof {
            lemma_trailing_white_take(s@, b as int);
        }
        b = b - 1;
    }
    proof {
        if b == s.len() {
            assert(s@.take(b as int) =~= s@);
            assert(!is_white(s@.last()));
        } else {
            assert(!is_white(s@.take(b as int).last()));
        }
        assert(trailing_white(s@) == s.len() - b);
    }
    let mut i: usize = a;
    while i < b
        invariant
            a <= i <= b <= s.len(),
            out@ == s@.subrange(a as int, i as int),
        decreases b - i,
    {
        out.push(s[i]);
        proof {
            assert(s@.subrange(a as int, i + 1) =~= s@.subrange(a as int, i as int).push(s@[i as int]));
        }
        i = i + 1;
    }
    out
}

} // verus!
verus! {

/// The character of a decimal digit.
pub open spec fn digit_char(d: int) -> char {
    if d == 0 {
        '0'
    } else if d == 1 {
        '1'
    } else if d == 2 {
        '2'
    } else if d == 3 {
        '3'
    } else if d == 4 {
        '4'
    } else if d == 5 {
        '5'
    } else if d == 6 {
        '6'
    } else if d == 7 {
        '7'
    } else if d == 8 {
        '8'
    } else {
        '9'
    }
}

/// The decimal digits of a natural number, most significant first, without leading zeros.
pub open spec fn digits_of(n: nat) -> Seq<char>
    decreases n,
{
    if n < 10 {
        seq![digit_char(n as int)]
    } else {
        digits_of(n / 10).push(digit_char((n % 10) as int))
    }
}

/// An integer as `{}` formats it: a `-` for negative numbers, then its digits.
pub open spec fn dec(n: int) -> Seq<char> {
    if n < 0 {
        seq!['-'] + digits_of((-n) as nat)
    } else {
        digits_of(n as nat)
    }
}

/// An integer as `{:02}` formats it: zero-padded to two characters.
pub open spec fn dec02(n: int) -> Seq<char> {
    if 0 <= n < 10 {
        seq!['0'] + dec(n)
    } else {
        dec(n)
    }
}

/// `width - len` spaces, none if `len` is not less.
pub open spec fn spaces(width: int, len: int) -> Seq<char> {
    Seq::new(if len < width { (width - len) as nat } else { 0 }, |i: int| ' ')
}

/// An integer as `{:4}` formats it: right-aligned in four characters.
pub open spec fn dec4(n: int) -> Seq<char> {
    spaces(4, dec(n).len() as int) + dec(n)
}

fn digit(d: u64) -> (c: char)
    requires
        d < 10,
    ensures
        c == digit_char(d as int),
{
    if d == 0 {
        '0'
    } else if d == 1 {
        '1'
    } else if d == 2 {
        '2'
    } else if d == 3 {
        '3'
    } else if d == 4 {
        '4'
    } else if d == 5 {
        '5'
    } else if d == 6 {
        '6'
    } else if d == 7 {
        '7'
    } else if d == 8 {
        '8'
    } else {
        '9'
    }
}

/// Appends the decimal digits of `n`.
pub fn push_digits(v: &mut Vec<char>, n: u64)
    ensures
        final(v)@ == old(v)@ + digits_of(n as nat),
    decreases n,
{
    if n >= 10 {
        push_digits(v, n / 10);
        v.push(digit(n % 10));
        assert(old(v)@ + digits_of(n as nat) =~= old(v)@ + digits_of((n / 10) as nat) + seq![
            digit_char((n % 10) as int),
        ]);
    } else {
        v.push(digit(n));
        assert(old(v)@ + digits_of(n as nat) =~= old(v)@.push(digit_char(n as int)));
    }
}

/// Appends `n` as `{}` formats it.
pub fn push_dec(v: &mut Vec<char>, n: i64)
    ensures
        final(v)@ == old(v)@ + dec(n as int),
{
    if n < 0 {
        v.push('-');
        let m: u64 = if n == i64::MIN {
            0x8000_0000_0000_0000u64
        } else {
            (-n) as u64
        };
        push_digits(v, m);
        assert(old(v)@ + dec(n as int) =~= old(v)@.push('-') + digits_of(m as nat));
    } else {
        push_digits(v, n as u64);
    }
}

proof fn lemma_digits_len(n: nat)
    ensures
        digits_of(n).len() >= 1,
        n >= 10 ==> digits_of(n).len() >= 2,
        n < 10 ==> digits_of(n).len() == 1,
    decreases n,
{
    if n >= 10 {
        lemma_digits_len(n / 10);
    }
}

/// Appends `n` as `{:02}` formats it.
pub fn push_dec02(v: &mut Vec<char>, n: i64)
    ensures
        final(v)@ == old(v)@ + dec02(n as int),
{
    if 0 <= n && n < 10 {
        v.push('0');
        push_dec(v, n);
        assert(old(v)@ + dec02(n as int) =~= old(v)@.push('0') + dec(n as int));
    } else {
        push_dec(v, n);
    }
}

/// Appends `n` as `{:4}` formats it.
pub fn push_dec4(v: &mut Vec<char>, n: u32)
    ensures
        final(v)@ == old(v)@ + dec4(n as int),
{
    proof {
        lemma_digits_len(n as nat);
    }
    let len: u32 = if n < 10 {
        1
    } else if n < 100 {
        2
    } else if n < 1000 {
        3
    } else {
        4
    };
    proof {
        lemma_digits_len_exact(n as nat);
    }
    let mut k: u32 = len;
    let ghost start = v@;
    while k < 4
        invariant
            len <= k <= 4,
            v@ == start + Seq::new((k - len) as nat, |i: int| ' '),
        decreases 4 - k,
    {
        v.push(' ');
        k = k + 1;
        assert(v@ =~= start + Seq::new((k - len) as nat, |i: int| ' '));
    }
    let ghost mid = v@;
    push_dec(v, n as i64);
    assert(spaces(4, dec(n as int).len() as int) =~= Seq::new((4 - len) as nat, |i: int| ' '));
    assert(v@ =~= old(v)@ + dec4(n as int));
}

proof fn lemma_digits_len_exact(n: nat)
    ensures
        n < 10 ==> digits_of(n).len() == 1,
        10 <= n < 100 ==> digits_of(n).len() == 2,
        100 <= n < 1000 ==> digits_of(n).len() == 3,
        1000 <= n ==> digits_of(n).len() >= 4,
    decreases n,
{
    if n >= 10 {
        lemma_digits_len_exact(n / 10);
    }
}

/// `10` to the power `k`.
pub open spec fn ten_pow(k: nat) -> nat
    decreases k,
{
    if k == 0 {
        1
    } else {
        10 * ten_pow((k - 1) as nat)
    }
}

proof fn lemma_digits_fit(n: nat, k: nat)
    requires
        1 <= k,
        n < ten_pow(k),
    ensures
        digits_of(n).len() <= k,
    decreases k,
{
    if n >= 10 {
        if k == 1 {
            assert(ten_pow(1) == 10) by {
                reveal_with_fuel(ten_pow, 2);
            }
        } else {
            assert(n / 10 < ten_pow((k - 1) as nat));
            lemma_digits_fit(n / 10, (k - 1) as nat);
        }
    }
}

/// A 32-bit number, signed or not, takes at most eleven characters in decimal.
pub proof fn lemma_dec_short(n: int)
    requires
        -0x1_0000_0000 < n < 0x1_0000_0000,
    ensures
        dec(n).len() <= 11,
{
    assert(ten_pow(10) == 10_000_000_000) by {
        reveal_with_fuel(ten_pow, 11);
    }
    if n < 0 {
        lemma_digits_fit((-n) as nat, 10);
    } else {
        lemma_digits_fit(n as nat, 10);
    }
}

} // verus!
