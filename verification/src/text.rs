//! Characters and runs of characters that dump lines are made of.

use vstd::prelude::*;
use vstd::string::StrSliceExecFns;

verus! {

/// The lowercase hexadecimal digit of a value below 16.
pub open spec fn hex_digit(n: int) -> char {
    if n < 10 {
        ('0' as int + n) as char
    } else {
        ('a' as int + n - 10) as char
    }
}

/// The value of a lowercase hexadecimal digit; the inverse of [`hex_digit`].
pub open spec fn hex_value(c: char) -> int {
    if '0' <= c <= '9' {
        c as int - '0' as int
    } else {
        c as int - 'a' as int + 10
    }
}

/// The two digits of a byte, high nibble first.
pub open spec fn hex_pair(b: u8) -> Seq<char> {
    seq![hex_digit(b as int / 16), hex_digit(b as int % 16)]
}

/// Whether a byte is shown as itself in the ASCII column.
pub open spec fn printable(b: u8) -> bool {
    32 <= b < 127
}

/// The character that stands for a byte in the ASCII column.
pub open spec fn shown(b: u8, none: char) -> char {
    if printable(b) {
        b as char
    } else {
        none
    }
}

/// `n` spaces.
pub open spec fn spaces(n: nat) -> Seq<char> {
    Seq::new(n, |i: int| ' ')
}

/// `n` zero digits.
pub open spec fn zeros(n: nat) -> Seq<char> {
    Seq::new(n, |i: int| '0')
}

/// A number in lowercase hexadecimal, without leading zeros.
pub open spec fn lower_hex(n: nat) -> Seq<char>
    decreases n,
{
    if n < 16 {
        seq![hex_digit(n as int)]
    } else {
        lower_hex(n / 16).push(hex_digit((n % 16) as int))
    }
}

/// A number in lowercase hexadecimal, with zeros in front up to `width` digits.
pub open spec fn zero_padded_hex(n: nat, width: nat) -> Seq<char> {
    let digits = lower_hex(n);
    if digits.len() >= width {
        digits
    } else {
        zeros((width - digits.len()) as nat) + digits
    }
}

/// A text followed by spaces up to `width` characters; a longer text is kept whole.
pub open spec fn pad_right(s: Seq<char>, width: nat) -> Seq<char> {
    if s.len() >= width {
        s
    } else {
        s + spaces((width - s.len()) as nat)
    }
}

/// The characters with the Unicode property `White_Space`.
pub open spec fn is_whitespace(c: char) -> bool {
    let n = c as int;
    ||| 0x09 <= n <= 0x0d
    ||| n == 0x20
    ||| n == 0x85
    ||| n == 0xa0
    ||| n == 0x1680
    ||| 0x2000 <= n <= 0x200a
    ||| n == 0x2028
    ||| n == 0x2029
    ||| n == 0x202f
    ||| n == 0x205f
    ||| n == 0x3000
}

/// A text without the whitespace it begins with.
pub open spec fn trim_start(s: Seq<char>) -> Seq<char>
    decreases s.len(),
{
    if s.len() > 0 && is_whitespace(s.first()) {
        trim_start(s.drop_first())
    } else {
        s
    }
}

/// A text without the whitespace it ends with.
pub open spec fn trim_end(s: Seq<char>) -> Seq<char>
    decreases s.len(),
{
    if s.len() > 0 && is_whitespace(s.last()) {
        trim_end(s.drop_last())
    } else {
        s
    }
}

/// A text without the whitespace at either end.
pub open spec fn trim(s: Seq<char>) -> Seq<char> {
    trim_start(trim_end(s))
}

/// `String::push` of std: the string afterwards is the string before with `c` at
/// its end.
#[verifier::external_body]
pub(crate) fn push_char(s: &mut String, c: char)
    ensures
        final(s)@ == old(s)@.push(c),
{
    s.push(c);
}

/// The digit of a nibble.
pub fn hex_digit_of(n: u8) -> (c: char)
    requires
        n < 16,
    ensures
        c == hex_digit(n as int),
{
    if n < 10 {
        (n + 48) as char
    } else {
        (n + 87) as char
    }
}

/// Appends the two hexadecimal digits of `b`.
pub fn push_hex_pair(s: &mut String, b: u8)
    ensures
        final(s)@ == old(s)@ + hex_pair(b),
{
    push_char(s, hex_digit_of(b / 16));
    push_char(s, hex_digit_of(b % 16));
}

/// Appends the character that stands for `b` in the ASCII column.
pub fn push_shown(s: &mut String, b: u8, none: char)
    ensures
        final(s)@ == old(s)@.push(shown(b, none)),
{
    if 32 <= b && b < 127 {
        push_char(s, b as char);
    } else {
        push_char(s, none);
    }
}

/// Appends `n` spaces.
pub fn push_spaces(s: &mut String, n: usize)
    ensures
        final(s)@ == old(s)@ + spaces(n as nat),
{
    let mut i: usize = 0;
    while i < n
        invariant
            i <= n,
            s@ == old(s)@ + spaces(i as nat),
        decreases n - i,
    {
        push_char(s, ' ');
        i = i + 1;
    }
}

/// Appends `n` zero digits.
pub fn push_zeros(s: &mut String, n: usize)
    ensures
        final(s)@ == old(s)@ + zeros(n as nat),
{
    let mut i: usize = 0;
    while i < n
        invariant
            i <= n,
            s@ == old(s)@ + zeros(i as nat),
        decreases n - i,
    {
        push_char(s, '0');
        i = i + 1;
    }
}

/// The digits of a number that are still to be written once `rest` is what is
/// left of it above the digits already taken.
spec fn leading_digits(rest: nat) -> Seq<char> {
    if rest == 0 {
        Seq::empty()
    } else {
        lower_hex(rest)
    }
}

/// Appends `n` in lowercase hexadecimal, with zeros in front up to `width` digits.
pub fn push_hex_number(s: &mut String, n: usize, width: usize)
    ensures
        final(s)@ == old(s)@ + zero_padded_hex(n as nat, width as nat),
{
    // The digits, lowest first.
    let mut digits: Vec<char> = Vec::new();
    digits.push(hex_digit_of((n % 16) as u8));
    let mut rest: usize = n / 16;
    while rest > 0
        invariant
            lower_hex(n as nat) == leading_digits(rest as nat) + digits@.reverse(),
        decreases rest,
    {
        let ghost before = digits@;
        digits.push(hex_digit_of((rest % 16) as u8));
        assert(digits@.reverse() == seq![digits@.last()] + before.reverse());
        rest = rest / 16;
    }
    assert(lower_hex(n as nat) == digits@.reverse());
    if digits.len() < width {
        push_zeros(s, width - digits.len());
    }
    let ghost head = s@;
    let mut i: usize = digits.len();
    while i > 0
        invariant
            i <= digits.len(),
            s@ == head + digits@.reverse().take(digits.len() - i),
        decreases i,
    {
        i = i - 1;
        push_char(s, digits[i]);
    }
    assert(digits@.reverse().take(digits.len() as int) == digits@.reverse());
}

/// Whether a character is whitespace.
pub fn is_whitespace_char(c: char) -> (r: bool)
    ensures
        r == is_whitespace(c),
{
    let n: u32 = c as u32;
    (0x09 <= n && n <= 0x0d) || n == 0x20 || n == 0x85 || n == 0xa0 || n == 0x1680 || (0x2000 <= n
        && n <= 0x200a) || n == 0x2028 || n == 0x2029 || n == 0x202f || n == 0x205f || n == 0x3000
}

/// `trim_start` leaves what follows the first `k` characters when these are
/// whitespace and the next one is not.
pub proof fn lemma_trim_start_at(s: Seq<char>, k: int)
    requires
        0 <= k <= s.len(),
        forall|j: int| 0 <= j < k ==> is_whitespace(#[trigger] s[j]),
        k < s.len() ==> !is_whitespace(s[k]),
    ensures
        trim_start(s) == s.skip(k),
    decreases k,
{
    if k == 0 {
        assert(s.skip(0) == s);
    } else {
        let rest = s.drop_first();
        assert forall|j: int| 0 <= j < k - 1 implies is_whitespace(#[trigger] rest[j]) by {
            assert(rest[j] == s[j + 1]);
        }
        lemma_trim_start_at(rest, k - 1);
        assert(rest.skip(k - 1) == s.skip(k));
    }
}

/// `trim_end` leaves the first `k` characters when all after them are whitespace
/// and the last of them is not.
pub proof fn lemma_trim_end_at(s: Seq<char>, k: int)
    requires
        0 <= k <= s.len(),
        forall|j: int| k <= j < s.len() ==> is_whitespace(#[trigger] s[j]),
        k > 0 ==> !is_whitespace(s[k - 1]),
    ensures
        trim_end(s) == s.take(k),
    decreases s.len() - k,
{
    if k == s.len() {
        assert(s.take(k) == s);
    } else {
        let rest = s.drop_last();
        lemma_trim_end_at(rest, k);
        assert(rest.take(k) == s.take(k));
    }
}

/// The text without the whitespace at either end.
pub fn trimmed(s: &str) -> (r: &str)
    ensures
        r@ == trim(s@),
{
    let len = s.unicode_len();
    let mut start: usize = 0;
    let mut found: bool = false;
    let mut end: usize = 0;
    let mut i: usize = 0;
    let chars = s.chars();
    for c in it: chars
        invariant
            it.seq() == s@,
            i == it.index(),
            len == s@.len(),
            i <= len,
            end <= i,
            forall|j: int| end <= j < i ==> is_whitespace(#[trigger] s@[j]),
            end > 0 ==> !is_whitespace(s@[end - 1]),
            forall|j: int| 0 <= j < start ==> is_whitespace(#[trigger] s@[j]),
            found ==> start < end && !is_whitespace(s@[start as int]),
            !found ==> start == i && end == 0,
    {
        if is_whitespace_char(c) {
            if !found {
                start = i + 1;
            }
        } else {
            found = true;
            end = i + 1;
        }
        i = i + 1;
    }
    proof {
        lemma_trim_end_at(s@, end as int);
        let kept = s@.take(end as int);
        if found {
            lemma_trim_start_at(kept, start as int);
            assert(kept.skip(start as int) == s@.subrange(start as int, end as int));
        } else {
            assert(trim_start(kept) == kept);
            assert(kept == s@.subrange(0, 0));
        }
    }
    if found {
        s.substring_char(start, end)
    } else {
        s.substring_char(0, 0)
    }
}

} // verus!
