//! The configuration of a dump and the formatter of its lines.

use crate::line::{line_text, Line, LineText};
use crate::text::{
    pad_right, push_char, push_hex_number, push_spaces, spaces, trim, trimmed, zero_padded_hex,
};
use vstd::prelude::*;
use vstd::string::{StrSliceExecFns, StringExecFns};

verus! {

/// How many separating spaces the grouping periods of `pack` have called for once
/// `count` bytes of a line are written: each non-zero period one for every full
/// group of its own.
pub open spec fn separators(pack: Seq<usize>, count: nat) -> nat
    decreases pack.len(),
{
    if pack.len() == 0 {
        0
    } else {
        let period = pack.last() as nat;
        separators(pack.drop_last(), count) + if period == 0 {
            0nat
        } else {
            count / period
        }
    }
}

/// The width of the hex column of a line of `size` bytes: two digits for each
/// byte and the separators that stand between bytes.
pub open spec fn hex_width(size: nat, pack: Seq<usize>) -> nat {
    if size == 0 {
        0
    } else {
        size * 2 + separators(pack, (size - 1) as nat)
    }
}

/// Why a configuration is refused.
#[derive(Debug, Clone, Copy, PartialEq, Eq, Structural)]
pub enum InvalidConfig {
    /// A line would hold no byte.
    ZeroSize,
    /// The width of the hex column is more than the machine can count.
    TooWide,
}

/// The configuration of a dump.
pub struct Format {
    size: usize,
    pack: Vec<usize>,
    ascii_none: char,
    ascii: bool,
    gaps: (usize, usize),
    hex_size: usize,
}

/// What a configuration says.
pub struct FormatView {
    /// How many bytes a line holds.
    pub size: nat,
    /// The grouping periods: each non-zero one puts a space after each of its
    /// multiples of bytes.
    pub pack: Seq<usize>,
    /// The character shown for a byte that is not printable.
    pub ascii_none: char,
    /// Whether lines have an ASCII column.
    pub ascii: bool,
    /// The spaces between offset and hex column, and between hex and ASCII column.
    pub gaps: (usize, usize),
}

impl FormatView {
    /// What every configuration meets.
    pub open spec fn valid(self) -> bool {
        &&& self.size > 0
        &&& hex_width(self.size, self.pack) <= usize::MAX
    }

    /// The configuration used where none is given.
    pub open spec fn standard() -> FormatView {
        FormatView {
            size: 16,
            pack: seq![2usize, 4usize, 8usize],
            ascii_none: '.',
            ascii: true,
            gaps: (2, 2),
        }
    }

    /// The formatter of the lines of a dump with this configuration.
    pub open spec fn formatter(self) -> LineFormatter {
        LineFormatter {
            hex_size: hex_width(self.size, self.pack) as usize,
            gap0: self.gaps.0,
            gap1: self.gaps.1,
        }
    }
}

/// Turns line records into the lines of text of a dump. It holds the widths of a
/// configuration and nothing else.
#[derive(Debug, Clone, Copy, PartialEq, Eq, Structural)]
pub struct LineFormatter {
    /// The width that the hex column is padded to.
    pub hex_size: usize,
    /// The spaces between the offset and the hex column.
    pub gap0: usize,
    /// The spaces between the hex column and the ASCII column.
    pub gap1: usize,
}

impl LineFormatter {
    /// The text of a line: the offset in at least six hexadecimal digits, a colon,
    /// the first gap, the hex text without the whitespace at its ends and padded
    /// to the column's width, and, where the line has an ASCII text, the second
    /// gap and that text.
    pub open spec fn text(self, line: LineText) -> Seq<char> {
        zero_padded_hex(line.offset, 6) + seq![':'] + spaces(self.gap0 as nat) + pad_right(
            trim(line.hex),
            self.hex_size as nat,
        ) + match line.ascii {
            Some(t) => spaces(self.gap1 as nat) + t,
            None => Seq::empty(),
        }
    }

    /// The text of a line record.
    pub fn format(&self, line: Line) -> (s: String)
        ensures
            s@ == self.text(line_text(line)),
    {
        let (offset, hex, ascii) = line;
        let mut out = String::new();
        push_hex_number(&mut out, offset, 6);
        push_char(&mut out, ':');
        push_spaces(&mut out, self.gap0);
        let column = trimmed(hex.as_str());
        out.append(column);
        let used = column.unicode_len();
        if used < self.hex_size {
            push_spaces(&mut out, self.hex_size - used);
        }
        match ascii {
            Some(t) => {
                push_spaces(&mut out, self.gap1);
                out.append(t.as_str());
            },
            None => {},
        }
        out
    }
}

impl View for Format {
    type V = FormatView;

    closed spec fn view(&self) -> FormatView {
        FormatView {
            size: self.size as nat,
            pack: self.pack@,
            ascii_none: self.ascii_none,
            ascii: self.ascii,
            gaps: self.gaps,
        }
    }
}

/// The separators of a part of the periods are no more than those of all.
proof fn lemma_separators_of_part(pack: Seq<usize>, i: int, count: nat)
    requires
        0 <= i <= pack.len(),
    ensures
        separators(pack.take(i), count) <= separators(pack, count),
    decreases pack.len(),
{
    if i == pack.len() {
        assert(pack.take(i) == pack);
    } else {
        lemma_separators_of_part(pack.drop_last(), i, count);
        assert(pack.drop_last().take(i) == pack.take(i));
    }
}

impl Format {
    #[verifier::type_invariant]
    spec fn well_formed(&self) -> bool {
        &&& self.size > 0
        &&& self.hex_size == hex_width(self.size as nat, self.pack@)
    }

    /// A configuration with the given fields. It is refused where `size` is zero,
    /// and where the hex column would be wider than `usize` can say.
    pub fn new(
        size: usize,
        pack: Vec<usize>,
        ascii_none: char,
        ascii: bool,
        gaps: (usize, usize),
    ) -> (r: Result<Format, InvalidConfig>)
        ensures
            match r {
                Ok(f) => {
                    &&& f@ == (FormatView {
                        size: size as nat,
                        pack: pack@,
                        ascii_none,
                        ascii,
                        gaps,
                    })
                    &&& f@.valid()
                },
                Err(InvalidConfig::ZeroSize) => size == 0,
                Err(InvalidConfig::TooWide) => size > 0 && hex_width(size as nat, pack@)
                    > usize::MAX,
            },
    {
        if size == 0 {
            return Err(InvalidConfig::ZeroSize);
        }
        if size > usize::MAX / 2 {
            return Err(InvalidConfig::TooWide);
        }
        let mut width: usize = size * 2;
        let mut i: usize = 0;
        while i < pack.len()
            invariant
                size > 0,
                i <= pack.len(),
                width == size * 2 + separators(pack@.take(i as int), (size - 1) as nat),
            decreases pack.len() - i,
        {
            let period = pack[i];
            proof {
                assert(pack@.take(i + 1).drop_last() == pack@.take(i as int));
                lemma_separators_of_part(pack@, i + 1, (size - 1) as nat);
            }
            if period != 0 {
                let groups = (size - 1) / period;
                if groups > usize::MAX - width {
                    return Err(InvalidConfig::TooWide);
                }
                width = width + groups;
            }
            i = i + 1;
        }
        assert(pack@.take(i as int) == pack@);
        Ok(Format { size, pack, ascii_none, ascii, gaps, hex_size: width })
    }

    /// The default configuration: 16 bytes a line, grouped by 2, 4 and 8, with an
    /// ASCII column that shows `.` for what is not printable, and gaps of two
    /// spaces.
    pub fn default() -> (r: Option<Format>)
        ensures
            r matches Some(f) && f@ == FormatView::standard(),
    {
        let mut pack: Vec<usize> = Vec::new();
        pack.push(2);
        pack.push(4);
        pack.push(8);
        proof {
            assert(pack@ == FormatView::standard().pack);
            lemma_standard_valid();
        }
        Some(Format { size: 16, pack, ascii_none: '.', ascii: true, gaps: (2, 2), hex_size: 43 })
    }

    /// The given configuration, or the default one where none is given.
    pub fn or_default(format: Option<Format>) -> (r: Format)
        ensures
            match format {
                Some(f) => r == f,
                None => r@ == FormatView::standard(),
            },
    {
        match format {
            Some(o) => o,
            None => Format::default().unwrap(),
        }
    }

    /// The formatter of the lines of a dump with this configuration.
    pub fn formatter(&self) -> (r: LineFormatter)
        ensures
            r == self@.formatter(),
    {
        LineFormatter { hex_size: self.get_hex_size(), gap0: self.gaps.0, gap1: self.gaps.1 }
    }

    /// The width of the hex column.
    pub fn get_hex_size(&self) -> (r: usize)
        ensures
            r == hex_width(self@.size, self@.pack),
            self@.valid(),
    {
        proof {
            use_type_invariant(self);
        }
        self.hex_size
    }

    /// How many bytes a line holds.
    pub fn size(&self) -> (r: usize)
        ensures
            r == self@.size,
            r > 0,
    {
        proof {
            use_type_invariant(self);
        }
        self.size
    }

    /// The grouping periods.
    pub fn pack(&self) -> (r: &Vec<usize>)
        ensures
            r@ == self@.pack,
    {
        &self.pack
    }

    /// The character shown for a byte that is not printable.
    pub fn ascii_none(&self) -> (r: char)
        ensures
            r == self@.ascii_none,
    {
        self.ascii_none
    }

    /// Whether lines have an ASCII column.
    pub fn ascii(&self) -> (r: bool)
        ensures
            r == self@.ascii,
    {
        self.ascii
    }

    /// The spaces between offset and hex column, and between hex and ASCII column.
    pub fn gaps(&self) -> (r: (usize, usize))
        ensures
            r == self@.gaps,
    {
        self.gaps
    }
}

/// The default configuration is a valid one, with a hex column of 43 characters.
pub proof fn lemma_standard_valid()
    ensures
        FormatView::standard().valid(),
        hex_width(16, FormatView::standard().pack) == 43,
{
    let pack = seq![2usize, 4usize, 8usize];
    reveal_with_fuel(separators, 4);
    assert(pack.drop_last() == seq![2usize, 4usize]);
    assert(pack.drop_last().drop_last() == seq![2usize]);
    assert(pack.drop_last().drop_last().drop_last() == Seq::<usize>::empty());
}

} // verus!
