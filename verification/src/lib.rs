//! Renders bytes as a hex dump: lines of offset, grouped hexadecimal bytes and an
//! optional ASCII column.

pub mod format;
pub mod line;
pub mod text;
pub mod xhex;

pub use format::Format;
use format::FormatView;
use line::{
    ascii_text, chunk, hex_text, lemma_chunk_len, lemma_count_step, lemma_line_count_grows,
    lemma_offsets_step, lemma_one_more_line, lemma_whole_lines, line_at, line_count, optional_line,
    optional_text, separators_at, Line, LineText,
};
use text::{hex_pair, push_char, push_hex_pair, push_shown, spaces};
use vstd::arithmetic::div_mod::lemma_mod_decreases;
use vstd::prelude::*;
use vstd::string::StringExecFns;

verus! {

/// What the counter of a grouping period stands at after `count` bytes of a line:
/// the bytes since the period's last full group.
spec fn counter_at(period: usize, count: nat) -> nat {
    if period == 0 {
        count
    } else {
        count % (period as nat)
    }
}

/// The counter of a period after one more byte.
proof fn lemma_counter_step(period: usize, count: nat)
    ensures
        counter_at(period, count + 1) == if counter_at(period, count) + 1 == period {
            0
        } else {
            counter_at(period, count) + 1
        },
        period != 0 ==> counter_at(period, count) < period,
        counter_at(period, count) <= count,
        (period != 0 && (count + 1) % (period as nat) == 0) <==> counter_at(period, count) + 1
            == period,
{
    if period != 0 {
        lemma_count_step(count, period as nat);
        lemma_mod_decreases(count, period as nat);
    }
}

/// The lines of a dump, one at a time.
pub struct XxdLines<'a> {
    data: &'a [u8],
    format: Format,
    position: usize,
}

/// What a producer of lines stands for.
pub struct XxdLinesView {
    /// The configuration of the dump.
    pub format: FormatView,
    /// All the bytes of the source.
    pub source: Seq<u8>,
    /// How many lines were given out.
    pub emitted: nat,
}

impl<'a> View for XxdLines<'a> {
    type V = XxdLinesView;

    closed spec fn view(&self) -> XxdLinesView {
        XxdLinesView {
            format: self.format@,
            source: self.data@,
            emitted: line_count(self.format@.size, self.position as nat),
        }
    }
}

impl XxdLinesView {
    /// The offset of the next line.
    pub open spec fn offset(self) -> nat {
        self.emitted * self.format.size
    }

    /// How many lines the dump has.
    pub open spec fn lines(self) -> nat {
        line_count(self.format.size, self.source.len())
    }

    /// The line that comes next, if the dump has one left.
    pub open spec fn next_line(self) -> Option<LineText> {
        if self.emitted < self.lines() {
            Some(line_at(self.format, self.source, self.emitted))
        } else {
            None
        }
    }

    /// The producer once the next line is given out; at the end it stays as it
    /// is.
    pub open spec fn after_next(self) -> XxdLinesView {
        if self.emitted < self.lines() {
            XxdLinesView { emitted: self.emitted + 1, ..self }
        } else {
            self
        }
    }
}

impl<'a> XxdLines<'a> {
    #[verifier::type_invariant]
    spec fn well_formed(&self) -> bool {
        &&& self.position <= self.data@.len()
        &&& self.position < self.data@.len() ==> self.position as nat % self.format@.size == 0
    }

    /// The next line of the dump, if the source has bytes left: its offset is the
    /// line's number times the configured size, whatever the lines before it held.
    pub fn next(&mut self) -> (r: Option<Line>)
        ensures
            optional_line(r) == old(self)@.next_line(),
            final(self)@ == old(self)@.after_next(),
    {
        proof {
            use_type_invariant(&*self);
        }
        let data = self.data;
        let len = data.len();
        let size = self.format.size();
        let start = self.position;
        proof {
            if start < len {
                lemma_whole_lines(size as nat, start as nat);
                lemma_one_more_line(size as nat, start as nat, (start + 1) as nat);
                lemma_line_count_grows(size as nat, (start + 1) as nat, len as nat);
            }
        }
        if start >= len {
            return None;
        }
        let end = if len - start > size {
            start + size
        } else {
            len
        };
        let ghost f = self.format@;
        let ghost bytes = data@.subrange(start as int, end as int);
        assert(bytes == chunk(data@, f.size, self@.emitted)) by {
            lemma_whole_lines(size as nat, start as nat);
        }
        let pack = self.format.pack();
        let none = self.format.ascii_none();
        let mut hexed = String::new();
        let mut ascii = if self.format.ascii() {
            Some(String::new())
        } else {
            None
        };
        let mut counters: Vec<usize> = Vec::new();
        while counters.len() < pack.len()
            invariant
                counters.len() <= pack.len(),
                forall|j: int| 0 <= j < counters.len() ==> counters[j] == 0,
            decreases pack.len() - counters.len(),
        {
            counters.push(0);
        }
        let mut i = start;
        while i < end
            invariant
                start <= i <= end <= len,
                len == data@.len(),
                pack@ == f.pack,
                hexed@ == hex_text(pack@, data@.subrange(start as int, i as int)),
                optional_text(ascii) == if f.ascii {
                    Some(ascii_text(data@.subrange(start as int, i as int), none))
                } else {
                    None
                },
                counters.len() == pack.len(),
                forall|j: int|
                    0 <= j < pack.len() ==> #[trigger] counters[j] == counter_at(
                        pack[j],
                        (i - start) as nat,
                    ),
            decreases end - i,
        {
            let c = data[i];
            let ghost before = data@.subrange(start as int, i as int);
            let ghost now = data@.subrange(start as int, i + 1);
            let ghost count = (i - start + 1) as nat;
            assert(now.drop_last() == before && now.last() == c);
            push_hex_pair(&mut hexed, c);
            let mut k: usize = 0;
            while k < counters.len()
                invariant
                    k <= counters.len(),
                    counters.len() == pack.len(),
                    start <= i < len,
                    count == i - start + 1,
                    hexed@ == hex_text(pack@, before) + hex_pair(c) + spaces(
                        separators_at(pack@.take(k as int), count),
                    ),
                    forall|j: int|
                        0 <= j < k ==> #[trigger] counters[j] == counter_at(pack[j], count),
                    forall|j: int|
                        k <= j < pack.len() ==> #[trigger] counters[j] == counter_at(
                            pack[j],
                            (count - 1) as nat,
                        ),
                decreases counters.len() - k,
            {
                proof {
                    lemma_counter_step(pack[k as int], (count - 1) as nat);
                    assert(pack@.take(k + 1).drop_last() == pack@.take(k as int));
                }
                assert(counters[k as int] == counter_at(pack[k as int], (count - 1) as nat));
                let stepped = counters[k] + 1;
                if stepped == pack[k] {
                    push_char(&mut hexed, ' ');
                    counters.set(k, 0);
                    assert(hexed@ == hex_text(pack@, before) + hex_pair(c) + spaces(
                        separators_at(pack@.take(k + 1), count),
                    ));
                } else {
                    counters.set(k, stepped);
                }
                k = k + 1;
            }
            assert(pack@.take(k as int) == pack@);
            match &mut ascii {
                Some(text) => {
                    push_shown(text, c, none);
                    assert(text@ == ascii_text(now, none));
                },
                None => {},
            }
            i = i + 1;
        }
        proof {
            lemma_one_more_line(size as nat, start as nat, end as nat);
        }
        self.position = end;
        Some((start, hexed, ascii))
    }
}

/// The lines of the dump of `data`, with the given configuration or the default
/// one.
pub fn xxd<'a>(data: &'a [u8], format: Option<Format>) -> (r: XxdLines<'a>)
    ensures
        r@ == (XxdLinesView {
            format: match format {
                Some(f) => f@,
                None => FormatView::standard(),
            },
            source: data@,
            emitted: 0,
        }),
{
    let format = Format::or_default(format);
    let size = format.size();
    proof {
        lemma_whole_lines(size as nat, 0);
    }
    XxdLines { data, format, position: 0 }
}

/// The first `n` lines of a dump as text, each closed by a line feed.
pub open spec fn dump_lines(f: FormatView, data: Seq<u8>, n: nat) -> Seq<char>
    decreases n,
{
    if n == 0 {
        Seq::empty()
    } else {
        dump_lines(f, data, (n - 1) as nat) + f.formatter().text(line_at(f, data, (n - 1) as nat))
            + seq!['\n']
    }
}

/// The whole dump of a source as text.
pub open spec fn dump(f: FormatView, data: Seq<u8>) -> Seq<char> {
    dump_lines(f, data, line_count(f.size, data.len()))
}

/// A source without bytes has no lines: a producer of its lines gives none, and
/// its dump is the empty text.
pub proof fn lemma_empty_source(s: XxdLinesView)
    requires
        s.format.valid(),
        s.source.len() == 0,
    ensures
        s.lines() == 0,
        s.next_line() is None,
        dump(s.format, s.source) == Seq::<char>::empty(),
{
    lemma_whole_lines(s.format.size, 0);
}

/// Two lines that a producer gives one after the other have offsets that differ
/// by the configured size, however many bytes the lines hold.
pub proof fn lemma_offsets_differ_by_size(s: XxdLinesView)
    requires
        s.format.valid(),
        s.next_line() is Some,
        s.after_next().next_line() is Some,
    ensures
        s.after_next().next_line()->0.offset == s.next_line()->0.offset + s.format.size,
        s.next_line()->0.offset == s.offset(),
        s.after_next().offset() == s.offset() + s.format.size,
{
    lemma_offsets_step(s.format, s.source, s.emitted);
}

/// A producer that has no line left stays as it is, and has none later.
pub proof fn lemma_exhausted_for_good(s: XxdLinesView)
    requires
        s.next_line() is None,
    ensures
        s.after_next() == s,
        s.after_next().next_line() is None,
{
}

/// Each line that a producer gives holds at least one byte of the source and at
/// most as many as the configured size.
pub proof fn lemma_lines_hold_bytes(s: XxdLinesView)
    requires
        s.format.valid(),
        s.next_line() is Some,
    ensures
        0 < chunk(s.source, s.format.size, s.emitted).len() <= s.format.size,
{
    lemma_chunk_len(s.source, s.format.size, s.emitted);
}

/// The whole dump of `data` as one text, with the given configuration or the
/// default one.
pub fn xxd_str(data: &[u8], format: Option<Format>) -> (r: String)
    ensures
        match format {
            Some(f) => r@ == dump(f@, data@),
            None => r@ == dump(FormatView::standard(), data@),
        },
{
    let format = Format::or_default(format);
    let fmt = format.formatter();
    let ghost f = format@;
    let mut lines = xxd(data, Some(format));
    let mut out = String::new();
    loop
        invariant
            lines@.format == f,
            lines@.source == data@,
            lines@.emitted <= lines@.lines(),
            fmt == f.formatter(),
            out@ == dump_lines(f, data@, lines@.emitted),
        ensures
            out@ == dump(f, data@),
        decreases lines@.lines() - lines@.emitted,
    {
        match lines.next() {
            Some(line) => {
                let text = fmt.format(line);
                out.append(text.as_str());
                push_char(&mut out, '\n');
            },
            None => {
                break ;
            },
        }
    }
    out
}

} // verus!
