//! The lines of a dump, as values and as what they say.

use crate::format::{hex_width, separators, FormatView};
use crate::text::{
    hex_digit, hex_pair, hex_value, is_whitespace, lemma_trim_end_at, lemma_trim_start_at,
    pad_right, shown, spaces, trim, zero_padded_hex,
};
use vstd::arithmetic::div_mod::{
    lemma_div_is_ordered, lemma_fundamental_div_mod, lemma_fundamental_div_mod_converse,
    lemma_mod_pos_bound,
};
use vstd::arithmetic::mul::lemma_mul_inequality;
use vstd::prelude::*;

verus! {

/// A line of a dump: the offset of its first byte, its bytes in hexadecimal, and
/// its bytes as text where the configuration asks for them.
pub type Line = (usize, String, Option<String>);

/// What a line says.
pub struct LineText {
    /// The offset of the line's first byte.
    pub offset: nat,
    /// The hex column, not yet trimmed or padded.
    pub hex: Seq<char>,
    /// The ASCII column, where there is one.
    pub ascii: Option<Seq<char>>,
}

/// The text of an optional string.
pub open spec fn optional_text(s: Option<String>) -> Option<Seq<char>> {
    match s {
        Some(t) => Some(t@),
        None => None,
    }
}

/// What a line record says.
pub open spec fn line_text(line: Line) -> LineText {
    LineText { offset: line.0 as nat, hex: line.1@, ascii: optional_text(line.2) }
}

/// What an optional line record says.
pub open spec fn optional_line(line: Option<Line>) -> Option<LineText> {
    match line {
        Some(l) => Some(line_text(l)),
        None => None,
    }
}

/// How many grouping periods of `pack` end a group with the `count`-th byte of a
/// line: the non-zero periods that divide `count`.
pub open spec fn separators_at(pack: Seq<usize>, count: nat) -> nat
    decreases pack.len(),
{
    if pack.len() == 0 {
        0
    } else {
        let period = pack.last() as nat;
        separators_at(pack.drop_last(), count) + if period != 0 && count % period == 0 {
            1nat
        } else {
            0nat
        }
    }
}

/// The hex text of the bytes of one line: for each byte its two digits, and then
/// one space for each period that ends a group there.
pub open spec fn hex_text(pack: Seq<usize>, bytes: Seq<u8>) -> Seq<char>
    decreases bytes.len(),
{
    if bytes.len() == 0 {
        Seq::empty()
    } else {
        hex_text(pack, bytes.drop_last()) + hex_pair(bytes.last()) + spaces(
            separators_at(pack, bytes.len()),
        )
    }
}

/// The ASCII text of the bytes of one line.
pub open spec fn ascii_text(bytes: Seq<u8>, none: char) -> Seq<char> {
    Seq::new(bytes.len(), |i: int| shown(bytes[i], none))
}

/// How many lines a source of `len` bytes has, `size` bytes to a line.
pub open spec fn line_count(size: nat, len: nat) -> nat {
    if size == 0 {
        0
    } else {
        ((len + size - 1) / (size as int)) as nat
    }
}

/// The bytes of line `k` of a source: `size` of them, or what is left.
pub open spec fn chunk(data: Seq<u8>, size: nat, k: nat) -> Seq<u8> {
    let start: int = (k * size) as int;
    let end: int = if start + size <= data.len() {
        start + size
    } else {
        data.len() as int
    };
    data.subrange(start, end)
}

/// Line `k` of the dump of a source, for `k` below the number of lines.
pub open spec fn line_at(f: FormatView, data: Seq<u8>, k: nat) -> LineText {
    let bytes = chunk(data, f.size, k);
    LineText {
        offset: k * f.size,
        hex: hex_text(f.pack, bytes),
        ascii: if f.ascii {
            Some(ascii_text(bytes, f.ascii_none))
        } else {
            None
        },
    }
}

/// A text without its spaces.
pub open spec fn without_spaces(s: Seq<char>) -> Seq<char>
    decreases s.len(),
{
    if s.len() == 0 {
        Seq::empty()
    } else if s.last() == ' ' {
        without_spaces(s.drop_last())
    } else {
        without_spaces(s.drop_last()).push(s.last())
    }
}

/// The bytes that a run of hexadecimal digits stands for, two digits to a byte.
pub open spec fn decode_hex(s: Seq<char>) -> Seq<u8>
    decreases s.len(),
{
    if s.len() < 2 {
        Seq::empty()
    } else {
        decode_hex(s.take(s.len() - 2)).push(
            (hex_value(s[s.len() - 2]) * 16 + hex_value(s[s.len() - 1])) as u8,
        )
    }
}

/// Taking the spaces out of two texts in a row is taking them out of each.
pub proof fn lemma_without_spaces_add(a: Seq<char>, b: Seq<char>)
    ensures
        without_spaces(a + b) == without_spaces(a) + without_spaces(b),
    decreases b.len(),
{
    if b.len() == 0 {
        assert(a + b == a);
    } else {
        lemma_without_spaces_add(a, b.drop_last());
        assert((a + b).drop_last() == a + b.drop_last());
    }
}

/// A run of spaces is nothing without its spaces.
pub proof fn lemma_without_spaces_of_spaces(n: nat)
    ensures
        without_spaces(spaces(n)) == Seq::<char>::empty(),
    decreases n,
{
    if n > 0 {
        lemma_without_spaces_of_spaces((n - 1) as nat);
        assert(spaces(n).drop_last() == spaces((n - 1) as nat));
    }
}

/// The digits of a byte are no whitespace, and give the byte back.
pub proof fn lemma_hex_pair(b: u8)
    ensures
        hex_pair(b).len() == 2,
        !is_whitespace(hex_pair(b)[0]),
        !is_whitespace(hex_pair(b)[1]),
        without_spaces(hex_pair(b)) == hex_pair(b),
        decode_hex(hex_pair(b)) == seq![b],
{
    let pair = hex_pair(b);
    let hi = b as int / 16;
    let lo = b as int % 16;
    assert(hex_value(hex_digit(hi)) == hi);
    assert(hex_value(hex_digit(lo)) == lo);
    assert(pair.drop_last() == seq![pair[0]]);
    assert(pair.drop_last().drop_last() == Seq::<char>::empty());
    reveal_with_fuel(without_spaces, 3);
    assert(without_spaces(pair) == pair);
    assert(pair.take(0) == Seq::<char>::empty());
    assert(hi * 16 + lo == b as int);
    assert(decode_hex(Seq::<char>::empty()) == Seq::<u8>::empty());
    assert(decode_hex(pair) == Seq::<u8>::empty().push(b));
}

/// Round trip: the hex text of a line, with its separating spaces taken out,
/// decodes to the bytes of the line, in order.
pub proof fn lemma_hex_text_round_trip(pack: Seq<usize>, bytes: Seq<u8>)
    ensures
        decode_hex(without_spaces(hex_text(pack, bytes))) == bytes,
    decreases bytes.len(),
{
    lemma_digits_of_hex_text(pack, bytes);
    if bytes.len() > 0 {
        let rest = bytes.drop_last();
        let pair = hex_pair(bytes.last());
        lemma_hex_text_round_trip(pack, rest);
        lemma_digits_of_hex_text(pack, rest);
        lemma_hex_pair(bytes.last());
        let digits = without_spaces(hex_text(pack, rest));
        assert((digits + pair).take((digits + pair).len() - 2) == digits);
        assert(rest.push(bytes.last()) == bytes);
    }
}

/// The hex text of a line without its spaces is the digits of its bytes.
proof fn lemma_digits_of_hex_text(pack: Seq<usize>, bytes: Seq<u8>)
    ensures
        bytes.len() > 0 ==> without_spaces(hex_text(pack, bytes)) == without_spaces(
            hex_text(pack, bytes.drop_last()),
        ) + hex_pair(bytes.last()),
        bytes.len() == 0 ==> without_spaces(hex_text(pack, bytes)) == Seq::<char>::empty(),
{
    if bytes.len() > 0 {
        let head = hex_text(pack, bytes.drop_last());
        let pair = hex_pair(bytes.last());
        let gap = spaces(separators_at(pack, bytes.len()));
        lemma_without_spaces_add(head + pair, gap);
        lemma_without_spaces_add(head, pair);
        lemma_without_spaces_of_spaces(separators_at(pack, bytes.len()));
        lemma_hex_pair(bytes.last());
        assert(without_spaces(head) + pair + Seq::<char>::empty() == without_spaces(head) + pair);
    }
}

/// Counting one byte more: the remainder by a period goes up by one or falls
/// back to zero, and the quotient goes up where it falls back.
pub proof fn lemma_count_step(count: nat, period: nat)
    requires
        period > 0,
    ensures
        count % period < period,
        (count + 1) % period == if count % period + 1 == period {
            0
        } else {
            count % period + 1
        },
        (count + 1) / period == count / period + if (count + 1) % period == 0 {
            1nat
        } else {
            0nat
        },
{
    let c = count as int;
    let p = period as int;
    let q = c / p;
    let r = c % p;
    lemma_fundamental_div_mod(c, p);
    lemma_mod_pos_bound(c, p);
    assert(p * q == q * p) by (nonlinear_arith);
    if r + 1 == p {
        assert((q + 1) * p == q * p + p) by (nonlinear_arith);
        lemma_fundamental_div_mod_converse(c + 1, p, q + 1, 0);
    } else {
        lemma_fundamental_div_mod_converse(c + 1, p, q, r + 1);
    }
}

/// The separators after `count` bytes are those after one byte less and those
/// that the last byte brings.
pub proof fn lemma_separators_step(pack: Seq<usize>, count: nat)
    requires
        count > 0,
    ensures
        separators(pack, count) == separators(pack, (count - 1) as nat) + separators_at(
            pack,
            count,
        ),
    decreases pack.len(),
{
    if pack.len() > 0 {
        lemma_separators_step(pack.drop_last(), count);
        if pack.last() != 0 {
            lemma_count_step((count - 1) as nat, pack.last() as nat);
        }
    }
}

/// More bytes have no fewer separators.
pub proof fn lemma_separators_grow(pack: Seq<usize>, a: nat, b: nat)
    requires
        a <= b,
    ensures
        separators(pack, a) <= separators(pack, b),
    decreases pack.len(),
{
    if pack.len() > 0 {
        lemma_separators_grow(pack.drop_last(), a, b);
        if pack.last() != 0 {
            lemma_div_is_ordered(a as int, b as int, pack.last() as int);
        }
    }
}

/// The hex text of a line is as long as the digits of its bytes and the
/// separators after them.
pub proof fn lemma_hex_text_len(pack: Seq<usize>, bytes: Seq<u8>)
    ensures
        hex_text(pack, bytes).len() == 2 * bytes.len() + separators(pack, bytes.len()),
    decreases bytes.len(),
{
    if bytes.len() > 0 {
        lemma_hex_text_len(pack, bytes.drop_last());
        lemma_separators_step(pack, bytes.len());
    } else {
        lemma_no_separators(pack);
    }
}

/// Before the first byte of a line there is no separator.
proof fn lemma_no_separators(pack: Seq<usize>)
    ensures
        separators(pack, 0) == 0,
    decreases pack.len(),
{
    if pack.len() > 0 {
        lemma_no_separators(pack.drop_last());
        if pack.last() != 0 {
            lemma_fundamental_div_mod_converse(0, pack.last() as int, 0, 0);
        }
    }
}

/// The hex text of a line begins with a digit.
proof fn lemma_hex_text_begins(pack: Seq<usize>, bytes: Seq<u8>)
    requires
        bytes.len() > 0,
    ensures
        hex_text(pack, bytes).len() >= 2,
        !is_whitespace(hex_text(pack, bytes)[0]),
    decreases bytes.len(),
{
    lemma_hex_pair(bytes.last());
    if bytes.len() > 1 {
        lemma_hex_text_begins(pack, bytes.drop_last());
    } else {
        assert(hex_text(pack, bytes.drop_last()) == Seq::<char>::empty());
    }
}

/// Trimmed, the hex text of a line ends with the digits of its last byte: what
/// goes is the separators after it.
pub proof fn lemma_trimmed_hex_text(pack: Seq<usize>, bytes: Seq<u8>)
    requires
        bytes.len() > 0,
    ensures
        trim(hex_text(pack, bytes)) == hex_text(pack, bytes.drop_last()) + hex_pair(bytes.last()),
{
    let head = hex_text(pack, bytes.drop_last());
    let pair = hex_pair(bytes.last());
    let all = hex_text(pack, bytes);
    let kept = head + pair;
    lemma_hex_pair(bytes.last());
    lemma_hex_text_begins(pack, bytes);
    lemma_trim_end_at(all, kept.len() as int);
    assert(all.take(kept.len() as int) == kept);
    assert(kept[0] == all[0]);
    lemma_trim_start_at(kept, 0);
    assert(kept.skip(0) == kept);
}

/// In the text of every line, a short last one too, the hex column has the full
/// width of the configuration: the trimmed hex text of up to `size` bytes is no
/// longer than the column, and a line of `size` bytes fills it.
pub proof fn lemma_hex_column_width(f: FormatView, bytes: Seq<u8>)
    requires
        f.valid(),
        0 < bytes.len() <= f.size,
    ensures
        trim(hex_text(f.pack, bytes)).len() == 2 * bytes.len() + separators(
            f.pack,
            (bytes.len() - 1) as nat,
        ),
        trim(hex_text(f.pack, bytes)).len() <= hex_width(f.size, f.pack),
        bytes.len() == f.size ==> trim(hex_text(f.pack, bytes)).len() == hex_width(f.size, f.pack),
        pad_right(trim(hex_text(f.pack, bytes)), hex_width(f.size, f.pack)).len() == hex_width(
            f.size,
            f.pack,
        ),
{
    lemma_trimmed_hex_text(f.pack, bytes);
    lemma_hex_text_len(f.pack, bytes.drop_last());
    lemma_hex_pair(bytes.last());
    lemma_separators_grow(f.pack, (bytes.len() - 1) as nat, (f.size - 1) as nat);
}

/// Each line of a dump but the first has the offset of the line before it and
/// the configured size more.
pub proof fn lemma_offsets_step(f: FormatView, data: Seq<u8>, k: nat)
    requires
        f.valid(),
        k + 1 < line_count(f.size, data.len()),
    ensures
        line_at(f, data, k + 1).offset == line_at(f, data, k).offset + f.size,
{
    assert((k + 1) * f.size == k * f.size + f.size) by (nonlinear_arith);
}

/// A source that is `lines` whole lines and `over` bytes more, fewer than a
/// line, has `lines` lines, and one more where `over` is not zero.
pub proof fn lemma_line_count_of(size: nat, lines: nat, over: nat)
    requires
        size > 0,
        over < size,
    ensures
        line_count(size, lines * size + over) == if over == 0 {
            lines
        } else {
            lines + 1
        },
        (lines * size) % size == 0,
{
    let s = size as int;
    let q = lines as int;
    let r = over as int;
    lemma_fundamental_div_mod_converse(q * s, s, q, 0);
    if over == 0 {
        lemma_fundamental_div_mod_converse(q * s + r + s - 1, s, q, s - 1);
    } else {
        assert((q + 1) * s == q * s + s) by (nonlinear_arith);
        lemma_fundamental_div_mod_converse(q * s + r + s - 1, s, q + 1, r - 1);
    }
}

/// Whole lines hold as many bytes as they count lines of `size`.
pub proof fn lemma_whole_lines(size: nat, pos: nat)
    requires
        size > 0,
        pos % size == 0,
    ensures
        line_count(size, pos) * size == pos,
        pos == 0 ==> line_count(size, pos) == 0,
{
    let q = pos / size;
    lemma_fundamental_div_mod(pos as int, size as int);
    assert(q * size == size * q) by (nonlinear_arith);
    lemma_line_count_of(size, q, 0);
    if pos == 0 && q != 0 {
        assert(q * size >= size) by (nonlinear_arith)
            requires
                q >= 1,
                size > 0,
        ;
    }
}

/// After whole lines, up to `size` bytes more make one line more.
pub proof fn lemma_one_more_line(size: nat, pos: nat, end: nat)
    requires
        size > 0,
        pos % size == 0,
        pos < end <= pos + size,
    ensures
        line_count(size, end) == line_count(size, pos) + 1,
        (pos + size) % size == 0,
{
    let q = pos / size;
    lemma_fundamental_div_mod(pos as int, size as int);
    assert(q * size == size * q) by (nonlinear_arith);
    assert((q + 1) * size == q * size + size) by (nonlinear_arith);
    lemma_line_count_of(size, q, 0);
    lemma_line_count_of(size, q + 1, 0);
    if end < pos + size {
        lemma_line_count_of(size, q, (end - pos) as nat);
    }
}

/// A longer source has no fewer lines.
pub proof fn lemma_line_count_grows(size: nat, a: nat, b: nat)
    requires
        size > 0,
        a <= b,
    ensures
        line_count(size, a) <= line_count(size, b),
{
    lemma_div_is_ordered(a + size - 1, b + size - 1, size as int);
}

/// Each line of a dump holds at least one byte and at most `size` of them, and
/// only the last line can hold fewer.
pub proof fn lemma_chunk_len(data: Seq<u8>, size: nat, k: nat)
    requires
        size > 0,
        k < line_count(size, data.len()),
    ensures
        0 < chunk(data, size, k).len() <= size,
        k + 1 < line_count(size, data.len()) ==> chunk(data, size, k).len() == size,
{
    let s = size as int;
    let n = data.len() as int;
    let i = k as int;
    let lines = (n + s - 1) / s;
    lemma_fundamental_div_mod(n + s - 1, s);
    lemma_mod_pos_bound(n + s - 1, s);
    assert(s * lines == lines * s) by (nonlinear_arith);
    lemma_mul_inequality(i + 1, lines, s);
    assert((i + 1) * s == i * s + s) by (nonlinear_arith);
    if i + 1 < lines {
        lemma_mul_inequality(i + 2, lines, s);
        assert((i + 2) * s == i * s + s + s) by (nonlinear_arith);
    }
}

/// In the text of each line of a dump, the last one too, the hex column is as
/// wide as the configuration says.
pub proof fn lemma_line_hex_column(f: FormatView, data: Seq<u8>, k: nat)
    requires
        f.valid(),
        k < line_count(f.size, data.len()),
    ensures
        pad_right(trim(line_at(f, data, k).hex), f.formatter().hex_size as nat).len() == hex_width(
            f.size,
            f.pack,
        ),
{
    lemma_chunk_len(data, f.size, k);
    lemma_hex_column_width(f, chunk(data, f.size, k));
}

/// Without an ASCII column in the configuration, the lines of a dump have no
/// ASCII text, and their text ends with the hex column.
pub proof fn lemma_without_ascii(f: FormatView, data: Seq<u8>, k: nat)
    requires
        !f.ascii,
    ensures
        line_at(f, data, k).ascii is None,
        f.formatter().text(line_at(f, data, k)) == zero_padded_hex(line_at(f, data, k).offset, 6)
            + seq![':'] + spaces(f.gaps.0 as nat) + pad_right(
            trim(line_at(f, data, k).hex),
            f.formatter().hex_size as nat,
        ),
{
    let line = line_at(f, data, k);
    let head = zero_padded_hex(line.offset, 6) + seq![':'] + spaces(f.gaps.0 as nat) + pad_right(
        trim(line.hex),
        f.formatter().hex_size as nat,
    );
    assert(head + Seq::<char>::empty() == head);
}

} // verus!
