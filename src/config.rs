//! Configuration values: key scancodes and the volume step, parsed from the
//! raw text of their environment variables.
use vstd::prelude::*;

verus! {

/// Scancode bound to "volume up" when none is configured.
pub const DEFAULT_UP_KEY: u32 = 0x82;

/// Scancode bound to "volume down" when none is configured.
pub const DEFAULT_DOWN_KEY: u32 = 0x81;

/// Volume step, in percent, when none is configured.
pub const DEFAULT_INCREMENT: u8 = 5;

/// Value of one digit in the given radix (at most 16), if `c` is one.
pub open spec fn digit_value(c: char, radix: nat) -> Option<nat> {
    let code = c as u32 as nat;
    let d: Option<nat> = if 48 <= code <= 57 {
        Some((code - 48) as nat)
    } else if 97 <= code <= 102 {
        Some((code - 87) as nat)
    } else if 65 <= code <= 70 {
        Some((code - 55) as nat)
    } else {
        None
    };
    match d {
        Some(v) => if v < radix { Some(v) } else { None },
        None => None,
    }
}

/// Value of a non-empty run of digits in the given radix; `None` if the run
/// is empty or holds anything that is not such a digit.
pub open spec fn digits_value(s: Seq<char>, radix: nat) -> Option<nat>
    decreases s.len(),
{
    if s.len() == 0 {
        None
    } else if s.len() == 1 {
        digit_value(s[0], radix)
    } else {
        match (digits_value(s.drop_last(), radix), digit_value(s.last(), radix)) {
            (Some(h), Some(d)) => Some(h * radix + d),
            _ => None,
        }
    }
}

/// Value of an unsigned number in the given radix: an optional `+`, then
/// digits.
pub open spec fn unsigned_value(s: Seq<char>, radix: nat) -> Option<nat> {
    if s.len() > 0 && s[0] == '+' {
        digits_value(s.drop_first(), radix)
    } else {
        digits_value(s, radix)
    }
}

/// A scancode as text: `0x` followed by a hexadecimal number, or a decimal
/// number; either may start with `+`.
pub open spec fn key_digits(s: Seq<char>) -> Option<nat> {
    if s.len() >= 2 && s[0] == '0' && s[1] == 'x' {
        unsigned_value(s.skip(2), 16)
    } else {
        unsigned_value(s, 10)
    }
}

/// The scancode that `s` denotes, if it is well formed and fits in a `u32`.
pub open spec fn key_value(s: Seq<char>) -> Option<u32> {
    match key_digits(s) {
        Some(v) => if v <= u32::MAX { Some(v as u32) } else { None },
        None => None,
    }
}

/// The text of an optional string.
pub open spec fn text_of(raw: Option<&str>) -> Option<Seq<char>> {
    match raw {
        Some(s) => Some(s@),
        None => None,
    }
}

/// A configured scancode: the parsed value, else `default` when the variable
/// is missing or malformed.
pub open spec fn configured_key(raw: Option<Seq<char>>, default: u32) -> u32 {
    match raw {
        Some(s) => match key_value(s) {
            Some(k) => k,
            None => default,
        },
        None => default,
    }
}

/// A configured volume step: a decimal number that fits in a byte, clamped
/// to `1..=100`; else the default step when the variable is missing or
/// malformed (a number above 255 is malformed).
pub open spec fn configured_increment(raw: Option<Seq<char>>) -> u8 {
    match raw {
        Some(s) => match unsigned_value(s, 10) {
            Some(v) => if v > 255 {
                DEFAULT_INCREMENT
            } else if v < 1 {
                1
            } else if v > 100 {
                100
            } else {
                v as u8
            },
            None => DEFAULT_INCREMENT,
        },
        None => DEFAULT_INCREMENT,
    }
}

/// `x` capped at `cap`.
pub open spec fn capped(x: Option<nat>, cap: nat) -> Option<nat> {
    match x {
        Some(v) => Some(if v > cap { cap } else { v }),
        None => None,
    }
}

proof fn lemma_digits_step(s: Seq<char>, i: int, radix: nat)
    requires
        1 <= i < s.len(),
    ensures
        digits_value(s.take(i + 1), radix) == match (
            digits_value(s.take(i), radix),
            digit_value(s[i], radix),
        ) {
            (Some(h), Some(d)) => Some(h * radix + d),
            _ => None,
        },
{
    assert(s.take(i + 1).drop_last() =~= s.take(i));
}

proof fn lemma_cap_step(h: nat, d: nat, radix: nat, cap: nat)
    requires
        1 <= radix,
    ensures
        (if (if h > cap { cap } else { h }) * radix + d > cap { cap } else {
            (if h > cap { cap } else { h }) * radix + d
        }) == (if h * radix + d > cap { cap } else { h * radix + d }),
{
    if h > cap {
        assert(h * radix >= h) by (nonlinear_arith)
            requires
                1 <= radix,
        ;
        assert(cap * radix >= cap) by (nonlinear_arith)
            requires
                1 <= radix,
        ;
    }
}

/// Reads the digits of `s` from index `start` on, in the given radix, with the
/// value capped at `cap`.
fn parse_digits(s: &str, start: usize, radix: u32, cap: u64) -> (r: Option<u64>)
    requires
        2 <= radix <= 16,
        start <= s@.len(),
        cap <= u32::MAX as u64 + 1,
    ensures
        match (r, capped(digits_value(s@.skip(start as int), radix as nat), cap as nat)) {
            (Some(a), Some(b)) => a as nat == b,
            (None, None) => true,
            _ => false,
        },
{
    let n = s.unicode_len();
    let ghost t = s@.skip(start as int);
    if start >= n {
        return None;
    }
    let mut acc: u64 = 0;
    let mut i: usize = start;
    while i < n
        invariant
            t == s@.skip(start as int),
            n == s@.len(),
            start < n,
            start <= i <= n,
            2 <= radix <= 16,
            cap <= u32::MAX as u64 + 1,
            acc <= cap,
            i > start ==> capped(digits_value(t.take(i - start), radix as nat), cap as nat)
                == Some(acc as nat),
        decreases n - i,
    {
        let c = s.get_char(i);
        let code = c as u32;
        let d: u32 = if 48 <= code && code <= 57 {
            code - 48
        } else if 97 <= code && code <= 102 {
            code - 87
        } else if 65 <= code && code <= 70 {
            code - 55
        } else {
            radix
        };
        assert(t[i - start] == c);
        if d >= radix {
            proof {
                if i > start {
                    lemma_digits_step(t, i - start, radix as nat);
                    lemma_digits_none_extends(t, i - start + 1, radix as nat);
                } else {
                    assert(t.take(1).drop_last() =~= t.take(0));
                    lemma_digits_none_extends(t, 1, radix as nat);
                }
                assert(t.take(t.len() as int) =~= t);
            }
            return None;
        }
        let next: u64 = if i == start {
            d as u64
        } else {
            assert(acc * (radix as u64) <= (u32::MAX as u64 + 1) * 16) by (nonlinear_arith)
                requires
                    acc <= u32::MAX as u64 + 1,
                    radix <= 16,
            ;
            acc * (radix as u64) + d as u64
        };
        proof {
            if i > start {
                lemma_digits_step(t, i - start, radix as nat);
                let h = digits_value(t.take(i - start), radix as nat)->0;
                lemma_cap_step(h, d as nat, radix as nat, cap as nat);
            } else {
                assert(t.take(1).len() == 1);
            }
        }
        acc = if next > cap { cap } else { next };
        i = i + 1;
    }
    assert(t.take(t.len() as int) =~= t);
    Some(acc)
}

/// Reads an optional `+` and digits of `s` from index `start` on, in the
/// given radix, with the value capped at `cap`.
fn parse_unsigned(s: &str, start: usize, radix: u32, cap: u64) -> (r: Option<u64>)
    requires
        2 <= radix <= 16,
        start <= s@.len(),
        cap <= u32::MAX as u64 + 1,
    ensures
        match (r, capped(unsigned_value(s@.skip(start as int), radix as nat), cap as nat)) {
            (Some(a), Some(b)) => a as nat == b,
            (None, None) => true,
            _ => false,
        },
{
    let n = s.unicode_len();
    if start < n && s.get_char(start) == '+' {
        assert(s@.skip(start as int).drop_first() =~= s@.skip(start + 1));
        parse_digits(s, start + 1, radix, cap)
    } else {
        parse_digits(s, start, radix, cap)
    }
}

/// Parses a scancode written in decimal or as `0x`-prefixed hexadecimal.
pub fn parse_key(s: &str) -> (r: Option<u32>)
    ensures
        r == key_value(s@),
{
    let n = s.unicode_len();
    let hex = n >= 2 && s.get_char(0) == '0' && s.get_char(1) == 'x';
    let parsed = if hex {
        parse_unsigned(s, 2, 16, u32::MAX as u64 + 1)
    } else {
        parse_unsigned(s, 0, 10, u32::MAX as u64 + 1)
    };
    assert(s@.skip(0) =~= s@);
    match parsed {
        Some(v) => if v <= u32::MAX as u64 { Some(v as u32) } else { None },
        None => None,
    }
}

/// The scancode bound to "volume up", from the raw text of its variable.
pub fn get_volume_up_key(raw: Option<&str>) -> (r: u32)
    ensures
        r == configured_key(text_of(raw), DEFAULT_UP_KEY),
{
    key_or(raw, DEFAULT_UP_KEY)
}

/// The scancode bound to "volume down", from the raw text of its variable.
pub fn get_volume_down_key(raw: Option<&str>) -> (r: u32)
    ensures
        r == configured_key(text_of(raw), DEFAULT_DOWN_KEY),
{
    key_or(raw, DEFAULT_DOWN_KEY)
}

fn key_or(raw: Option<&str>, default: u32) -> (r: u32)
    ensures
        r == configured_key(text_of(raw), default),
{
    match raw {
        Some(s) => match parse_key(s) {
            Some(k) => k,
            None => default,
        },
        None => default,
    }
}

/// The volume step in percent, from the raw text of its variable.
pub fn get_volume_increment(raw: Option<&str>) -> (r: u8)
    ensures
        r == configured_increment(text_of(raw)),
        1 <= r <= 100,
{
    match raw {
        Some(s) => {
            let parsed = parse_unsigned(s, 0, 10, 256);
            assert(s@.skip(0) =~= s@);
            match parsed {
                Some(v) => if v > 255 {
                    DEFAULT_INCREMENT
                } else if v < 1 {
                    1
                } else if v > 100 {
                    100
                } else {
                    v as u8
                },
                None => DEFAULT_INCREMENT,
            }
        },
        None => DEFAULT_INCREMENT,
    }
}

/// Snapshot of the key bindings and volume step.
#[derive(Clone, Copy, Debug, PartialEq, Eq)]
pub struct Config {
    pub up_key: u32,
    pub down_key: u32,
    pub increment: u8,
}

impl Config {
    /// The two directions are bound to different keys.
    pub open spec fn wf(&self) -> bool {
        self.up_key != self.down_key
    }

    /// Reads the configuration from the raw text of its three variables.
    pub fn from_vars(up: Option<&str>, down: Option<&str>, increment: Option<&str>) -> (r: Config)
        ensures
            r.up_key == configured_key(text_of(up), DEFAULT_UP_KEY),
            r.down_key == configured_key(text_of(down), DEFAULT_DOWN_KEY),
            r.increment == configured_increment(text_of(increment)),
    {
        Config {
            up_key: get_volume_up_key(up),
            down_key: get_volume_down_key(down),
            increment: get_volume_increment(increment),
        }
    }
}

proof fn lemma_digits_none_extends(t: Seq<char>, k: int, radix: nat)
    requires
        1 <= k <= t.len(),
        digits_value(t.take(k), radix) is None,
    ensures
        digits_value(t, radix) is None,
    decreases t.len() - k,
{
    if k < t.len() {
        lemma_digits_step(t, k, radix);
        lemma_digits_none_extends(t, k + 1, radix);
    } else {
        assert(t.take(k) =~= t);
    }
}

/// The digit character of value `d`, lower case for `10..=15`.
pub open spec fn digit_char(d: nat) -> char {
    if d == 0 { '0' } else if d == 1 { '1' } else if d == 2 { '2' } else if d == 3 { '3' }
    else if d == 4 { '4' } else if d == 5 { '5' } else if d == 6 { '6' } else if d == 7 { '7' }
    else if d == 8 { '8' } else if d == 9 { '9' } else if d == 10 { 'a' } else if d == 11 { 'b' }
    else if d == 12 { 'c' } else if d == 13 { 'd' } else if d == 14 { 'e' } else { 'f' }
}

/// `n` written in decimal, without leading zeros.
pub open spec fn decimal(n: nat) -> Seq<char>
    decreases n,
{
    if n < 10 { seq![digit_char(n)] } else { decimal(n / 10).push(digit_char(n % 10)) }
}

/// `n` written in hexadecimal, without leading zeros.
pub open spec fn hexadecimal(n: nat) -> Seq<char>
    decreases n,
{
    if n < 16 { seq![digit_char(n)] } else { hexadecimal(n / 16).push(digit_char(n % 16)) }
}

proof fn lemma_digit_char(d: nat, radix: nat)
    requires
        d < radix <= 16,
    ensures
        digit_value(digit_char(d), radix) == Some(d),
        digit_char(d) != '+',
        digit_char(d) != 'x',
{
}

proof fn lemma_decimal_value(n: nat)
    ensures
        digits_value(decimal(n), 10) == Some(n),
        decimal(n).len() >= 1,
        forall|i: int| 0 <= i < decimal(n).len() ==> #[trigger] decimal(n)[i] != '+' && decimal(n)[i] != 'x',
    decreases n,
{
    lemma_digit_char(n % 10, 10);
    if n >= 10 {
        lemma_decimal_value(n / 10);
        let s = decimal(n);
        assert(s.drop_last() =~= decimal(n / 10));
        assert forall|i: int| 0 <= i < s.len() implies #[trigger] s[i] != '+' && s[i] != 'x' by {
            if i < s.len() - 1 {
                assert(s[i] == decimal(n / 10)[i]);
            }
        }
    } else {
        lemma_digit_char(n, 10);
    }
}

proof fn lemma_hexadecimal_value(n: nat)
    ensures
        digits_value(hexadecimal(n), 16) == Some(n),
        hexadecimal(n).len() >= 1,
        hexadecimal(n)[0] != '+',
    decreases n,
{
    lemma_digit_char(n % 16, 16);
    if n >= 16 {
        lemma_hexadecimal_value(n / 16);
        let s = hexadecimal(n);
        assert(s.drop_last() =~= hexadecimal(n / 16));
        assert(s[0] == hexadecimal(n / 16)[0]);
    } else {
        lemma_digit_char(n, 16);
    }
}

/// The decimal and the `0x` hexadecimal spelling of a scancode both parse
/// to that scancode.
pub proof fn lemma_key_spellings_agree(n: u32)
    ensures
        key_value(decimal(n as nat)) == Some(n),
        key_value(seq!['0', 'x'] + hexadecimal(n as nat)) == Some(n),
{
    lemma_decimal_value(n as nat);
    let d = decimal(n as nat);
    if d.len() >= 2 {
        assert(d[1] != 'x');
    }
    assert(d[0] != '+');
    lemma_hexadecimal_value(n as nat);
    let h = seq!['0', 'x'] + hexadecimal(n as nat);
    assert(h.skip(2) =~= hexadecimal(n as nat));
    assert(h[0] == '0' && h[1] == 'x');
}

} // verus!
