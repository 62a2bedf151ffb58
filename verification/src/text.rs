//! Characters, numbers and UTF-16: the small pieces of text handling that the
//! configuration file, the menu and the log lines are made of.

use vstd::prelude::*;
use vstd::slice::slice_subrange;

verus! {

/// `String::push` appends the character to the end of the string.
pub assume_specification[ String::push ](s: &mut String, c: char)
    ensures
        final(s)@ == old(s)@.push(c),
;

// ---------------------------------------------------------------------------
// Characters
// ---------------------------------------------------------------------------

/// The characters of `s`, in order.
pub fn chars_of(s: &str) -> (v: Vec<char>)
    ensures
        v@ == s@,
{
    let mut v: Vec<char> = Vec::new();
    for c in it: s.chars()
        invariant
            it.seq() == s@,
            v@ == s@.take(it.index()),
    {
        v.push(c);
    }
    v
}

/// The string made of the characters `v`.
pub fn string_of(v: &[char]) -> (s: String)
    ensures
        s@ == v@,
{
    let mut s = String::new();
    let mut i: usize = 0;
    while i < v.len()
        invariant
            i <= v@.len(),
            s@ == v@.take(i as int),
        decreases v@.len() - i,
    {
        s.push(v[i]);
        i += 1;
        assert(v@.take(i as int) =~= v@.take(i - 1).push(v@[i - 1]));
    }
    assert(v@.take(i as int) =~= v@);
    s
}

/// Whether the characters `v` spell `s`.
pub fn spells(v: &[char], s: &str) -> (b: bool)
    ensures
        b == (v@ == s@),
{
    let w = chars_of(s);
    if v.len() != w.len() {
        return false;
    }
    let mut i: usize = 0;
    while i < v.len()
        invariant
            i <= v@.len(),
            v@.len() == w@.len(),
            w@ == s@,
            forall|j: int| 0 <= j < i ==> v@[j] == w@[j],
        decreases v@.len() - i,
    {
        if v[i] != w[i] {
            assert(v@[i as int] != s@[i as int]);
            return false;
        }
        i += 1;
    }
    assert(v@ =~= s@);
    true
}

/// Whether two strings hold the same characters.
pub fn same_text(a: &str, b: &str) -> (same: bool)
    ensures
        same == (a@ == b@),
{
    let v = chars_of(a);
    spells(v.as_slice(), b)
}

/// The characters with the Unicode property White_Space.
pub open spec fn is_white(c: char) -> bool {
    let n = c as u32;
    ||| 0x09 <= n <= 0x0D
    ||| n == 0x20
    ||| n == 0x85
    ||| n == 0xA0
    ||| n == 0x1680
    ||| 0x2000 <= n <= 0x200A
    ||| n == 0x2028
    ||| n == 0x2029
    ||| n == 0x202F
    ||| n == 0x205F
    ||| n == 0x3000
}

/// Whether `c` is white space.
pub fn white(c: char) -> (b: bool)
    ensures
        b == is_white(c),
{
    let n: u32 = c as u32;
    (0x09 <= n && n <= 0x0D) || n == 0x20 || n == 0x85 || n == 0xA0 || n == 0x1680 || (0x2000 <= n
        && n <= 0x200A) || n == 0x2028 || n == 0x2029 || n == 0x202F || n == 0x205F || n == 0x3000
}

/// `s` without the white space it starts with.
pub open spec fn trim_start(s: Seq<char>) -> Seq<char>
    decreases s.len(),
{
    if s.len() > 0 && is_white(s[0]) {
        trim_start(s.skip(1))
    } else {
        s
    }
}

/// `s` without the white space it ends with.
pub open spec fn trim_end(s: Seq<char>) -> Seq<char>
    decreases s.len(),
{
    if s.len() > 0 && is_white(s.last()) {
        trim_end(s.drop_last())
    } else {
        s
    }
}

/// `s` without the white space around it.
pub open spec fn trimmed(s: Seq<char>) -> Seq<char> {
    trim_end(trim_start(s))
}

/// Text that neither starts nor ends with white space is its own trimmed form.
pub proof fn lemma_trimmed_fixed(s: Seq<char>)
    requires
        s.len() > 0 ==> !is_white(s[0]) && !is_white(s.last()),
    ensures
        trimmed(s) == s,
{
}

/// `s` without the white space around it.
pub fn trim(s: &[char]) -> (t: &[char])
    ensures
        t@ == trimmed(s@),
{
    let mut lo: usize = 0;
    assert(s@.skip(0) =~= s@);
    while lo < s.len() && white(s[lo])
        invariant
            lo <= s@.len(),
            trim_start(s@) == trim_start(s@.skip(lo as int)),
        decreases s@.len() - lo,
    {
        assert(s@.skip(lo as int).skip(1) =~= s@.skip(lo + 1));
        lo += 1;
    }
    let mut hi: usize = s.len();
    assert(s@.subrange(lo as int, hi as int) =~= s@.skip(lo as int));
    while hi > lo && white(s[hi - 1])
        invariant
            lo <= hi <= s@.len(),
            trimmed(s@) == trim_end(s@.subrange(lo as int, hi as int)),
        decreases hi - lo,
    {
        assert(s@.subrange(lo as int, hi as int).drop_last() =~= s@.subrange(
            lo as int,
            hi - 1,
        ));
        hi -= 1;
    }
    slice_subrange(s, lo, hi)
}

/// The position of the first `c` in `s`, or the length of `s` if there is none.
pub open spec fn first_index(s: Seq<char>, c: char) -> int
    decreases s.len(),
{
    if s.len() == 0 || s[0] == c {
        0
    } else {
        1 + first_index(s.skip(1), c)
    }
}

/// `first_index` is the one position that `c` stands at with no `c` before it.
pub proof fn lemma_first_index(s: Seq<char>, c: char, k: int)
    requires
        0 <= k <= s.len(),
        forall|j: int| 0 <= j < k ==> s[j] != c,
        k < s.len() ==> s[k] == c,
    ensures
        first_index(s, c) == k,
    decreases s.len(),
{
    if k > 0 {
        let t = s.skip(1);
        assert forall|j: int| 0 <= j < k - 1 implies t[j] != c by {
            assert(t[j] == s[j + 1]);
        }
        if k < s.len() {
            assert(t[k - 1] == s[k]);
        }
        lemma_first_index(t, c, k - 1);
    }
}

/// The position of the first `c` in `s`, or the length of `s` if there is none.
pub fn find_char(s: &[char], c: char) -> (k: usize)
    ensures
        k <= s@.len(),
        k == first_index(s@, c),
        k < s@.len() ==> s@[k as int] == c,
        forall|j: int| 0 <= j < k ==> s@[j] != c,
{
    let mut k: usize = 0;
    while k < s.len() && s[k] != c
        invariant
            k <= s@.len(),
            forall|j: int| 0 <= j < k ==> s@[j] != c,
        decreases s@.len() - k,
    {
        k += 1;
    }
    proof {
        lemma_first_index(s@, c, k as int);
    }
    k
}

// ---------------------------------------------------------------------------
// Numbers
// ---------------------------------------------------------------------------

/// The character of the digit `d`, upper case above nine.
pub open spec fn digit_char(d: nat) -> char {
    if d < 10 {
        (('0' as u32) + d) as char
    } else {
        (('A' as u32) + (d - 10)) as char
    }
}

/// The numeral of `n` in base `base`, without leading zeros.
pub open spec fn numeral(n: nat, base: nat) -> Seq<char>
    decreases n,
{
    if base < 2 || n < base {
        seq![digit_char(n)]
    } else {
        proof {
            vstd::arithmetic::div_mod::lemma_div_decreases(n as int, base as int);
        }
        numeral(n / base, base).push(digit_char(n % base))
    }
}

/// The decimal numeral of `n`.
pub open spec fn decimal(n: nat) -> Seq<char> {
    numeral(n, 10)
}

/// `s` with zeros put in front of it up to `width` characters.
pub open spec fn zero_padded(s: Seq<char>, width: nat) -> Seq<char> {
    if s.len() < width {
        Seq::new((width - s.len()) as nat, |i: int| '0') + s
    } else {
        s
    }
}

/// The decimal numeral of `n` on at least `width` digits.
pub open spec fn padded(n: nat, width: nat) -> Seq<char> {
    zero_padded(decimal(n), width)
}

/// The character of the digit `d`.
fn digit(d: u64) -> (c: char)
    requires
        d < 16,
    ensures
        c == digit_char(d as nat),
{
    if d < 10 {
        (48u8 + d as u8) as char
    } else {
        (65u8 + (d as u8 - 10)) as char
    }
}

/// Appends the numeral of `n` in base `base`.
pub fn push_numeral(out: &mut String, n: u64, base: u64)
    requires
        2 <= base <= 16,
    ensures
        final(out)@ == old(out)@ + numeral(n as nat, base as nat),
    decreases n,
{
    if n >= base {
        proof {
            vstd::arithmetic::div_mod::lemma_div_decreases(n as int, base as int);
        }
        push_numeral(out, n / base, base);
        out.push(digit(n % base));
        assert(out@ =~= old(out)@ + numeral(n as nat, base as nat));
    } else {
        out.push(digit(n));
        assert(out@ =~= old(out)@ + numeral(n as nat, base as nat));
    }
}

/// Appends the decimal numeral of `n`.
pub fn push_decimal(out: &mut String, n: u64)
    ensures
        final(out)@ == old(out)@ + decimal(n as nat),
{
    push_numeral(out, n, 10);
}

/// Appends the numeral of `n` in base `base` on at least `width` digits.
pub fn push_padded(out: &mut String, n: u64, base: u64, width: usize)
    requires
        2 <= base <= 16,
    ensures
        final(out)@ == old(out)@ + zero_padded(numeral(n as nat, base as nat), width as nat),
{
    let mut body = String::new();
    push_numeral(&mut body, n, base);
    let digits = chars_of(body.as_str());
    assert(body@ =~= numeral(n as nat, base as nat));
    let mut k: usize = digits.len();
    let ghost start = out@;
    while k < width
        invariant
            digits@.len() <= k,
            k <= width || k == digits@.len(),
            out@ == start + Seq::new((k - digits@.len()) as nat, |i: int| '0'),
        decreases width - k,
    {
        out.push('0');
        k += 1;
        assert(Seq::new((k - digits@.len()) as nat, |i: int| '0') =~= Seq::new(
            (k - 1 - digits@.len()) as nat,
            |i: int| '0',
        ).push('0'));
    }
    out.append(body.as_str());
    assert(out@ =~= start + zero_padded(numeral(n as nat, base as nat), width as nat));
}

/// Whether `c` is a decimal digit.
pub open spec fn is_digit(c: char) -> bool {
    '0' <= c <= '9'
}

/// Whether `s` holds nothing but decimal digits.
pub open spec fn all_digits(s: Seq<char>) -> bool {
    forall|i: int| 0 <= i < s.len() ==> is_digit(#[trigger] s[i])
}

/// The number that the decimal digits `s` write.
pub open spec fn digits_value(s: Seq<char>) -> nat
    decreases s.len(),
{
    if s.len() == 0 {
        0
    } else {
        digits_value(s.drop_last()) * 10 + (s.last() as u32 - '0' as u32) as nat
    }
}

/// The number not above `max` that `s` writes in decimal, with or without a
/// plus sign in front, if it writes one.
pub open spec fn parsed_number(s: Seq<char>, max: nat) -> Option<nat> {
    let body = if s.len() > 0 && s[0] == '+' {
        s.skip(1)
    } else {
        s
    };
    if body.len() > 0 && all_digits(body) && digits_value(body) <= max {
        Some(digits_value(body))
    } else {
        None
    }
}

/// A number is not below what its leading digits write.
proof fn lemma_digits_value_grows(s: Seq<char>, k: int)
    requires
        all_digits(s),
        0 <= k <= s.len(),
    ensures
        digits_value(s.take(k)) <= digits_value(s),
    decreases s.len() - k,
{
    if k < s.len() {
        lemma_digits_value_grows(s, k + 1);
        assert(s.take(k + 1).drop_last() =~= s.take(k));
        assert(is_digit(s[k]));
    } else {
        assert(s.take(k) =~= s);
    }
}

/// The number not above `max` that `s` writes in decimal, with or without a
/// plus sign in front; `None` where it writes none.
pub fn parse_number(s: &[char], max: u64) -> (r: Option<u64>)
    ensures
        r is Some <==> parsed_number(s@, max as nat) is Some,
        r matches Some(n) ==> parsed_number(s@, max as nat) == Some(n as nat),
{
    let lo: usize = if s.len() > 0 && s[0] == '+' { 1 } else { 0 };
    let ghost body = s@.skip(lo as int);
    assert(s@.skip(0) =~= s@);
    if s.len() == lo {
        return None;
    }
    let mut i: usize = lo;
    let mut acc: u64 = 0;
    while i < s.len()
        invariant
            lo <= i <= s@.len(),
            body == s@.skip(lo as int),
            all_digits(body.take(i - lo)),
            acc == digits_value(body.take(i - lo)),
            acc <= max,
            parsed_number(s@, max as nat) == (if body.len() > 0 && all_digits(body)
                && digits_value(body) <= max {
                Some(digits_value(body))
            } else {
                None::<nat>
            }),
        decreases s@.len() - i,
    {
        let c = s[i];
        assert(body[i - lo] == c);
        if c < '0' || '9' < c {
            assert(!is_digit(body[i - lo]));
            return None;
        }
        let d: u64 = c as u64 - 48;
        let ghost next = body.take(i - lo + 1);
        assert(next.drop_last() =~= body.take(i - lo));
        assert(digits_value(next) == acc * 10 + d);
        assert forall|j: int| 0 <= j < next.len() implies is_digit(#[trigger] next[j]) by {
            if j < i - lo {
                assert(next[j] == body.take(i - lo)[j]);
            }
        }
        let wide_acc: u128 = acc as u128 * 10 + d as u128;
        if wide_acc > max as u128 {
            proof {
                if all_digits(body) {
                    lemma_digits_value_grows(body, i - lo + 1);
                }
            }
            return None;
        }
        acc = wide_acc as u64;
        i += 1;
    }
    assert(body.take(i - lo) =~= body);
    Some(acc)
}

/// A decimal numeral is made of digits, and they write its number.
pub proof fn lemma_decimal_digits(n: nat)
    ensures
        decimal(n).len() > 0,
        all_digits(decimal(n)),
        digits_value(decimal(n)) == n,
    decreases n,
{
    if n < 10 {
        let s = decimal(n);
        assert(s =~= seq![digit_char(n)]);
        assert(s.drop_last() =~= Seq::<char>::empty());
        assert(digits_value(s.drop_last()) == 0);
    } else {
        lemma_decimal_digits(n / 10);
        let s = decimal(n);
        assert(s.drop_last() =~= decimal(n / 10));
        assert forall|i: int| 0 <= i < s.len() implies is_digit(#[trigger] s[i]) by {
            if i < s.len() - 1 {
                assert(s[i] == decimal(n / 10)[i]);
            }
        }
    }
}

/// Reading a decimal numeral back gives the number it was written from.
pub proof fn lemma_decimal_parses(n: nat, max: nat)
    requires
        n <= max,
    ensures
        parsed_number(decimal(n), max) == Some(n),
{
    lemma_decimal_digits(n);
    assert(is_digit(decimal(n)[0]));
}

// ---------------------------------------------------------------------------
// UTF-16
// ---------------------------------------------------------------------------

/// The UTF-16 code units of one character.
pub open spec fn utf16_units(c: char) -> Seq<u16> {
    let n = c as u32;
    if n < 0x10000 {
        seq![n as u16]
    } else {
        seq![(0xD800 + (n - 0x10000) / 0x400) as u16, (0xDC00 + (n - 0x10000) % 0x400) as u16]
    }
}

/// The UTF-16 code units of a text.
pub open spec fn utf16(s: Seq<char>) -> Seq<u16>
    decreases s.len(),
{
    if s.len() == 0 {
        Seq::empty()
    } else {
        utf16(s.drop_last()) + utf16_units(s.last())
    }
}

/// The UTF-16 code units of `s`.
pub fn encode_utf16(s: &str) -> (v: Vec<u16>)
    ensures
        v@ == utf16(s@),
{
    let mut v: Vec<u16> = Vec::new();
    let chars = chars_of(s);
    let mut i: usize = 0;
    while i < chars.len()
        invariant
            i <= chars@.len(),
            chars@ == s@,
            v@ == utf16(s@.take(i as int)),
        decreases chars@.len() - i,
    {
        let n: u32 = chars[i] as u32;
        let ghost head = s@.take(i as int);
        assert(s@.take(i + 1).drop_last() =~= head);
        if n < 0x10000 {
            v.push(n as u16);
        } else {
            let m: u32 = n - 0x10000;
            v.push((0xD800 + m / 0x400) as u16);
            v.push((0xDC00 + m % 0x400) as u16);
        }
        assert(v@ =~= utf16(head) + utf16_units(s@[i as int]));
        i += 1;
    }
    assert(s@.take(i as int) =~= s@);
    v
}

/// `s` in UTF-16 with a terminating zero.
pub fn wide(s: &str) -> (v: Vec<u16>)
    ensures
        v@ == utf16(s@).push(0),
{
    let mut v = encode_utf16(s);
    v.push(0);
    v
}

/// What a zero-terminated buffer holds once `units` were copied into it: as
/// many of them as leave room for the terminator, the terminator, and behind it
/// what was there before.
pub open spec fn copied(old_buf: Seq<u16>, units: Seq<u16>) -> Seq<u16> {
    let n = if units.len() < old_buf.len() {
        units.len() as int
    } else {
        old_buf.len() - 1
    };
    Seq::new(
        old_buf.len(),
        |i: int|
            if i < n {
                units[i]
            } else if i == n {
                0
            } else {
                old_buf[i]
            },
    )
}

/// Copies `s` into a zero-terminated UTF-16 buffer, cut to what fits.
pub fn copy_wstr(dst: &mut [u16], s: &str)
    requires
        old(dst)@.len() > 0,
    ensures
        final(dst)@ == copied(old(dst)@, utf16(s@)),
{
    let units = encode_utf16(s);
    let ghost before = dst@;
    let mut n: usize = 0;
    while n < units.len() && n < dst.len() - 1
        invariant
            units@ == utf16(s@),
            dst@.len() == before.len(),
            before.len() > 0,
            n <= units@.len(),
            n <= before.len() - 1,
            forall|i: int| 0 <= i < n ==> dst@[i] == units@[i],
            forall|i: int| n <= i < before.len() ==> dst@[i] == before[i],
        decreases units@.len() - n,
    {
        dst[n] = units[n];
        n += 1;
    }
    dst[n] = 0;
    assert(dst@ =~= copied(before, units@));
}

// ---------------------------------------------------------------------------
// Laws
// ---------------------------------------------------------------------------

/// Law: trimming cuts white space off both ends, all of it, and nothing else: what
/// is left is the stretch from `lo` to `hi`.
pub proof fn law_trimming_cuts_white_space(s: Seq<char>) -> (r: (int, int))
    ensures
        0 <= r.0 <= r.1 <= s.len(),
        trimmed(s) == s.subrange(r.0, r.1),
        forall|i: int| 0 <= i < r.0 ==> is_white(#[trigger] s[i]),
        forall|i: int| r.1 <= i < s.len() ==> is_white(#[trigger] s[i]),
        r.0 < r.1 ==> !is_white(s[r.0]) && !is_white(s[r.1 - 1]),
{
    let lo = lemma_trim_start_at(s);
    let t = s.skip(lo);
    let n = lemma_trim_end_at(t);
    assert(t.take(n) =~= s.subrange(lo, lo + n));
    assert forall|i: int| lo + n <= i < s.len() implies is_white(#[trigger] s[i]) by {
        assert(t[i - lo] == s[i]);
    }
    if n > 0 {
        assert(t[0] == s[lo]);
        assert(t[n - 1] == s[lo + n - 1]);
    }
    (lo, lo + n)
}

proof fn lemma_trim_start_at(s: Seq<char>) -> (lo: int)
    ensures
        0 <= lo <= s.len(),
        trim_start(s) == s.skip(lo),
        forall|i: int| 0 <= i < lo ==> is_white(#[trigger] s[i]),
        lo < s.len() ==> !is_white(s[lo]),
    decreases s.len(),
{
    if s.len() > 0 && is_white(s[0]) {
        let rest = s.skip(1);
        let lo = lemma_trim_start_at(rest);
        assert(rest.skip(lo) =~= s.skip(lo + 1));
        assert forall|i: int| 0 <= i < lo + 1 implies is_white(#[trigger] s[i]) by {
            if i > 0 {
                assert(rest[i - 1] == s[i]);
            }
        }
        lo + 1
    } else {
        assert(s.skip(0) =~= s);
        0
    }
}

proof fn lemma_trim_end_at(s: Seq<char>) -> (n: int)
    ensures
        0 <= n <= s.len(),
        trim_end(s) == s.take(n),
        forall|i: int| n <= i < s.len() ==> is_white(#[trigger] s[i]),
        n > 0 ==> !is_white(s[n - 1]),
    decreases s.len(),
{
    if s.len() > 0 && is_white(s.last()) {
        let rest = s.drop_last();
        let n = lemma_trim_end_at(rest);
        assert(rest.take(n) =~= s.take(n));
        assert forall|i: int| n <= i < s.len() implies is_white(#[trigger] s[i]) by {
            if i < s.len() - 1 {
                assert(rest[i] == s[i]);
            }
        }
        n
    } else {
        assert(s.take(s.len() as int) =~= s);
        s.len() as int
    }
}

/// Law: the first index of a character is where it stands with none before it, or
/// the length of a text without it.
pub proof fn law_first_index(s: Seq<char>, c: char)
    ensures
        0 <= first_index(s, c) <= s.len(),
        first_index(s, c) < s.len() ==> s[first_index(s, c)] == c,
        forall|j: int| 0 <= j < first_index(s, c) ==> s[j] != c,
    decreases s.len(),
{
    if s.len() > 0 && s[0] != c {
        law_first_index(s.skip(1), c);
        let k = first_index(s.skip(1), c);
        assert forall|j: int| 0 <= j < k + 1 implies s[j] != c by {
            if j > 0 {
                assert(s.skip(1)[j - 1] == s[j]);
            }
        }
    }
}

/// Law: how numerals are written. A number below the base is one digit: `0` to `9`
/// and then `A` to `F`. One more digit behind a numeral stands for the base times
/// its number plus the digit.
pub proof fn law_numerals_are_positional(n: nat, d: nat, base: nat)
    requires
        2 <= base <= 16,
        d < base,
    ensures
        numeral(d, base).len() == 1,
        d < 10 ==> numeral(d, base)[0] as u32 == 48 + d,
        d >= 10 ==> numeral(d, base)[0] as u32 == 55 + d,
        n > 0 ==> numeral(n * base + d, base) == numeral(n, base) + numeral(d, base),
{
    if n > 0 {
        assert(n * base >= base) by (nonlinear_arith)
            requires
                n >= 1,
                base >= 2,
        ;
        vstd::arithmetic::div_mod::lemma_fundamental_div_mod_converse(
            (n * base + d) as int,
            base as int,
            n as int,
            d as int,
        );
        assert(numeral(n * base + d, base) =~= numeral(n, base) + numeral(d, base));
    }
}

/// Law: padding puts zeros in front of a numeral up to the width, and changes
/// nothing of a longer one.
pub proof fn law_padding_puts_zeros_in_front(s: Seq<char>, width: nat)
    ensures
        zero_padded(s, width).len() == if s.len() < width {
            width
        } else {
            s.len()
        },
        zero_padded(s, width).skip(zero_padded(s, width).len() - s.len()) == s,
        forall|i: int|
            0 <= i < zero_padded(s, width).len() - s.len() ==> #[trigger] zero_padded(s, width)[i]
                == '0',
{
    assert(zero_padded(s, width).skip(zero_padded(s, width).len() - s.len()) =~= s);
}

/// Law: a number of two digits, padded to two, is its tens and its ones.
pub proof fn law_two_digits(n: nat)
    requires
        n < 100,
    ensures
        padded(n, 2).len() == 2,
        padded(n, 2)[0] as u32 == 48 + n / 10,
        padded(n, 2)[1] as u32 == 48 + n % 10,
{
    reveal_with_fuel(numeral, 3);
}

/// Law: a number of three digits, padded to three, is its digits.
pub proof fn law_three_digits(n: nat)
    requires
        n < 1000,
    ensures
        padded(n, 3).len() == 3,
        padded(n, 3)[0] as u32 == 48 + n / 100,
        padded(n, 3)[1] as u32 == 48 + n / 10 % 10,
        padded(n, 3)[2] as u32 == 48 + n % 10,
{
    reveal_with_fuel(numeral, 4);
}

/// Law: a number of four digits, padded to four, is its digits.
pub proof fn law_four_digits(n: nat)
    requires
        n < 10_000,
    ensures
        padded(n, 4).len() == 4,
        padded(n, 4)[0] as u32 == 48 + n / 1000,
        padded(n, 4)[1] as u32 == 48 + n / 100 % 10,
        padded(n, 4)[2] as u32 == 48 + n / 10 % 10,
        padded(n, 4)[3] as u32 == 48 + n % 10,
{
    reveal_with_fuel(numeral, 5);
}

/// Law: a decimal numeral is read back as its number, unless it is above what may
/// be; a plus sign in front of it and zeros before it make no difference.
pub proof fn law_numbers_are_read(n: nat, zeros: nat, max: nat)
    ensures
        ({
            let s = Seq::new(zeros, |i: int| '0') + decimal(n);
            &&& n <= max ==> parsed_number(s, max) == Some(n)
            &&& n > max ==> parsed_number(s, max) is None
            &&& n <= max ==> parsed_number(seq!['+'] + s, max) == Some(n)
            &&& n > max ==> parsed_number(seq!['+'] + s, max) is None
        }),
{
    lemma_decimal_digits(n);
    let head = Seq::new(zeros, |i: int| '0');
    let s = head + decimal(n);
    lemma_zeros_in_front(zeros, decimal(n));
    assert(is_digit(s[0]));
    assert((seq!['+'] + s).skip(1) =~= s);
}

proof fn lemma_zeros_in_front(zeros: nat, s: Seq<char>)
    requires
        all_digits(s),
    ensures
        all_digits(Seq::new(zeros, |i: int| '0') + s),
        digits_value(Seq::new(zeros, |i: int| '0') + s) == digits_value(s),
    decreases zeros + s.len(),
{
    let head = Seq::new(zeros, |i: int| '0');
    let all = head + s;
    assert forall|i: int| 0 <= i < all.len() implies is_digit(#[trigger] all[i]) by {
        if i >= zeros {
            assert(all[i] == s[i - zeros]);
        }
    }
    if s.len() > 0 {
        let t = s.drop_last();
        assert forall|i: int| 0 <= i < t.len() implies is_digit(#[trigger] t[i]) by {
            assert(t[i] == s[i]);
        }
        lemma_zeros_in_front(zeros, t);
        assert(all.drop_last() =~= head + t);
        assert(all.last() == s.last());
    } else if zeros > 0 {
        lemma_zeros_in_front((zeros - 1) as nat, s);
        assert(all.drop_last() =~= Seq::new((zeros - 1) as nat, |i: int| '0') + s);
        assert(all.last() == '0');
    } else {
        assert(all =~= s);
    }
}

/// Law: only digits are a number: a text that is read as one has at least one
/// character behind an optional plus sign, and nothing there but `0` to `9`.
pub proof fn law_only_digits_are_a_number(s: Seq<char>, max: nat)
    requires
        parsed_number(s, max) is Some,
    ensures
        s.len() > 0,
        s[0] == '+' ==> s.len() > 1,
        s[0] == '+' || 48 <= s[0] as u32 <= 57,
        forall|i: int| 1 <= i < s.len() ==> 48 <= (#[trigger] s[i]) as u32 <= 57,
        parsed_number(s, max)->0 <= max,
{
    if s.len() > 0 && s[0] == '+' {
        let body = s.skip(1);
        assert forall|i: int| 1 <= i < s.len() implies 48 <= (#[trigger] s[i]) as u32 <= 57 by {
            assert(is_digit(body[i - 1]));
        }
    } else {
        assert forall|i: int| 0 <= i < s.len() implies 48 <= (#[trigger] s[i]) as u32 <= 57 by {
            assert(is_digit(s[i]));
        }
    }
}

/// Law: UTF-16 goes character by character. A character below 0x10000 is one unit,
/// its number; any other is a pair that gives its number back.
pub proof fn law_utf16_tells_characters(s: Seq<char>, c: char)
    ensures
        utf16(Seq::empty()).len() == 0,
        (c as u32) < 0x10000 ==> utf16(s.push(c)) == utf16(s).push(c as u32 as u16) && utf16(
            s.push(c),
        ).last() == c as u32,
        (c as u32) >= 0x10000 ==> {
            let all = utf16(s.push(c));
            let n = utf16(s).len() as int;
            &&& all.len() == n + 2
            &&& all.take(n) == utf16(s)
            &&& 0xD800 <= all[n] < 0xDC00
            &&& 0xDC00 <= all[n + 1] < 0xE000
            &&& (all[n] - 0xD800) * 0x400 + (all[n + 1] - 0xDC00) + 0x10000 == c as u32
        },
{
    assert(s.push(c).drop_last() =~= s);
    let all = utf16(s.push(c));
    if (c as u32) < 0x10000 {
        assert(all =~= utf16(s).push(c as u32 as u16));
    } else {
        let n = utf16(s).len() as int;
        assert(all.take(n) =~= utf16(s));
        assert(all[n] == utf16_units(c)[0]);
        assert(all[n + 1] == utf16_units(c)[1]);
    }
}

/// Law: a copy into a buffer is cut to leave room for the zero behind it; what is
/// behind the zero stays.
pub proof fn law_copies_end_in_a_zero(buf: Seq<u16>, units: Seq<u16>)
    requires
        buf.len() > 0,
    ensures
        ({
            let out = copied(buf, units);
            let n = if units.len() <= buf.len() - 1 {
                units.len() as int
            } else {
                buf.len() - 1
            };
            &&& out.len() == buf.len()
            &&& out.take(n) == units.take(n)
            &&& out[n] == 0
            &&& out.skip(n + 1) == buf.skip(n + 1)
        }),
{
    let out = copied(buf, units);
    let n = if units.len() <= buf.len() - 1 {
        units.len() as int
    } else {
        buf.len() - 1
    };
    assert(out.take(n) =~= units.take(n));
    assert(out.skip(n + 1) =~= buf.skip(n + 1));
}

/// Law: which characters are white space: below 256 the six controls from tab to
/// carriage return and next line, the space and the no-break space; above it the
/// spaces of Unicode and its two separators.
pub proof fn law_white_space(c: char)
    ensures
        c == ' ' || c == '\t' || c == '\n' || c == '\r' ==> is_white(c),
        (c as u32) < 256 ==> (is_white(c) <==> 9 <= c as u32 <= 13 || c as u32 == 32 || c as u32
            == 133 || c as u32 == 160),
        (c as u32) >= 256 ==> (is_white(c) <==> c as u32 == 5760 || 8192 <= c as u32 <= 8202
            || c as u32 == 8232 || c as u32 == 8233 || c as u32 == 8239 || c as u32 == 8287
            || c as u32 == 12288),
{
}

} // verus!
