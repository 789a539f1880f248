//! Dump lines whose bytes come from a tokenizer, which may put a text of its own
//! before a line, before each byte and after a line.

use crate::format::{Format, FormatView};
use crate::line::{optional_line, optional_text, Line, LineText};
use crate::text::{hex_pair, push_hex_pair, push_shown, shown};
use vstd::prelude::*;
use vstd::string::StringExecFns;

verus! {

/// What a line producer asks of a tokenizer.
pub enum Token {
    /// The text before a line.
    BlockStart,
    /// The next byte, and the text before it.
    Next,
    /// The text after a line.
    BlockEnd,
}

/// What a tokenizer answers: a text to put in, a byte, both or nothing.
pub type Reply = Option<(Option<String>, Option<u8>)>;

/// The source of the bytes and of the texts between them. To the request `Next`,
/// an answer without a byte says that there are no more bytes.
pub trait Tokenizer {
    /// The answer to one request.
    fn get_token(&mut self, token: Token) -> Reply;
}

/// The text of an optional prefix.
pub open spec fn prefix_text(prefix: Option<String>) -> Seq<char> {
    match prefix {
        Some(p) => p@,
        None => Seq::empty(),
    }
}

/// The text that the answer to `BlockStart` or `BlockEnd` puts into both columns.
pub open spec fn marker_text(reply: Reply) -> Seq<char> {
    match reply {
        Some((prefix, _)) => prefix_text(prefix),
        None => Seq::empty(),
    }
}

/// The byte that an answer to `Next` brings.
pub open spec fn reply_byte(reply: Reply) -> Option<u8> {
    match reply {
        Some((_, Some(b))) => Some(b),
        _ => None,
    }
}

/// What an answer to `Next` adds to the hex column: its prefix and the digits of
/// its byte, or nothing where it brings no byte.
pub open spec fn next_hex(reply: Reply) -> Seq<char> {
    match reply {
        Some((prefix, Some(b))) => prefix_text(prefix) + hex_pair(b),
        _ => Seq::empty(),
    }
}

/// What an answer to `Next` adds to the ASCII column: its prefix and the
/// character of its byte, or nothing where it brings no byte.
pub open spec fn next_ascii(reply: Reply, none: char) -> Seq<char> {
    match reply {
        Some((prefix, Some(b))) => prefix_text(prefix).push(shown(b, none)),
        _ => Seq::empty(),
    }
}

/// What a run of answers to `Next` adds to the hex column.
pub open spec fn run_hex(replies: Seq<Reply>) -> Seq<char>
    decreases replies.len(),
{
    if replies.len() == 0 {
        Seq::empty()
    } else {
        run_hex(replies.drop_last()) + next_hex(replies.last())
    }
}

/// What a run of answers to `Next` adds to the ASCII column.
pub open spec fn run_ascii(replies: Seq<Reply>, none: char) -> Seq<char>
    decreases replies.len(),
{
    if replies.len() == 0 {
        Seq::empty()
    } else {
        run_ascii(replies.drop_last(), none) + next_ascii(replies.last(), none)
    }
}

/// The answers that a tokenizer gave while one line was made.
pub struct Exchange {
    /// The answer to `BlockStart`.
    pub start: Reply,
    /// The answers to `Next`, in the order of the requests.
    pub nexts: Seq<Reply>,
    /// The answer to `BlockEnd`.
    pub end: Reply,
}

impl Exchange {
    /// Whether the answers are those of one line of up to `size` bytes: `Next` was
    /// asked until `size` bytes had come or an answer brought none.
    pub open spec fn complete(self, size: nat) -> bool {
        &&& 0 < self.nexts.len() <= size
        &&& forall|i: int|
            0 <= i < self.nexts.len() - 1 ==> reply_byte(#[trigger] self.nexts[i]) is Some
        &&& self.nexts.len() < size ==> self.ended()
    }

    /// Whether the tokenizer said that there are no more bytes.
    pub open spec fn ended(self) -> bool {
        reply_byte(self.nexts.last()) is None
    }

    /// Whether the line has a byte.
    pub open spec fn any(self) -> bool {
        reply_byte(self.nexts.first()) is Some
    }

    /// The hex column of the line.
    pub open spec fn hex(self) -> Seq<char> {
        marker_text(self.start) + run_hex(self.nexts) + marker_text(self.end)
    }

    /// The ASCII column of the line.
    pub open spec fn ascii(self, none: char) -> Seq<char> {
        marker_text(self.start) + run_ascii(self.nexts, none) + marker_text(self.end)
    }

    /// The line that comes of the answers, if they brought a byte.
    pub open spec fn line(self, f: FormatView, offset: nat) -> Option<LineText> {
        if self.any() {
            Some(
                LineText {
                    offset,
                    hex: self.hex(),
                    ascii: if f.ascii {
                        Some(self.ascii(f.ascii_none))
                    } else {
                        None
                    },
                },
            )
        } else {
            None
        }
    }
}

/// With the empty text added, both columns are what they were.
proof fn lemma_nothing_added(hexed: Seq<char>, ascii: Option<String>)
    ensures
        hexed + Seq::<char>::empty() == hexed,
        ascii matches Some(a) ==> a@ + Seq::<char>::empty() == a@,
{
}

/// Appends a prefix, where there is one, to the hex text and, where the line has
/// one, to the ASCII text.
pub fn write_prefix(prefix: Option<String>, hexed: &mut String, ascii: &mut Option<String>)
    ensures
        final(hexed)@ == old(hexed)@ + prefix_text(prefix),
        optional_text(*final(ascii)) == match *old(ascii) {
            Some(a) => Some(a@ + prefix_text(prefix)),
            None => None,
        },
{
    match prefix {
        Some(p) => {
            hexed.append(p.as_str());
            match ascii {
                Some(a) => {
                    a.append(p.as_str());
                },
                None => {},
            }
        },
        None => {
            proof {
                lemma_nothing_added(hexed@, *ascii);
            }
        },
    }
}

/// Takes the answer to `BlockStart` or `BlockEnd` into the line: its prefix goes
/// to both columns, its byte is not looked at.
pub fn write_marker(reply: Reply, hexed: &mut String, ascii: &mut Option<String>)
    ensures
        final(hexed)@ == old(hexed)@ + marker_text(reply),
        optional_text(*final(ascii)) == match *old(ascii) {
            Some(a) => Some(a@ + marker_text(reply)),
            None => None,
        },
{
    match reply {
        Some((prefix, _)) => {
            write_prefix(prefix, hexed, ascii);
        },
        None => {
            write_prefix(None, hexed, ascii);
        },
    }
}

/// Takes the answer to `Next` into the line, and says whether it brought a byte.
/// With a byte, the prefix goes to both columns, then the byte's digits to the
/// hex column and its character to the ASCII column. Without one, the line stays
/// as it is, whatever the prefix.
pub fn write_next(
    reply: Reply,
    none: char,
    hexed: &mut String,
    ascii: &mut Option<String>,
) -> (got: bool)
    ensures
        got == reply_byte(reply) is Some,
        final(hexed)@ == old(hexed)@ + next_hex(reply),
        optional_text(*final(ascii)) == match *old(ascii) {
            Some(a) => Some(a@ + next_ascii(reply, none)),
            None => None,
        },
{
    match reply {
        Some((prefix, Some(ch))) => {
            let ghost p = prefix_text(prefix);
            write_prefix(prefix, hexed, ascii);
            push_hex_pair(hexed, ch);
            assert(hexed@ == old(hexed)@ + (p + hex_pair(ch)));
            match ascii {
                Some(a) => {
                    push_shown(a, ch, none);
                    assert(a@ == old(ascii)->0@ + p.push(shown(ch, none)));
                },
                None => {},
            }
            true
        },
        _ => {
            proof {
                lemma_nothing_added(hexed@, *ascii);
            }
            false
        },
    }
}

/// The lines of a dump whose bytes and inserted texts a tokenizer provides.
pub struct ExXxdLines<T: Tokenizer> {
    format: Format,
    offset: usize,
    tokens: T,
    end: bool,
}

/// What a producer of lines stands for.
pub struct ExXxdLinesView<T> {
    /// The configuration of the dump.
    pub format: FormatView,
    /// The offset of the next line.
    pub offset: nat,
    /// The tokenizer.
    pub tokens: T,
    /// Whether the tokenizer has said that there are no more bytes.
    pub ended: bool,
}

impl<T> ExXxdLinesView<T> {
    /// Whether a request for the next line, answered by the tokenizer as `x`
    /// says, leads from this state to `after` and gives `line`.
    pub open spec fn step_with(self, x: Exchange, after: Self, line: Option<LineText>) -> bool {
        &&& x.complete(self.format.size)
        &&& line == x.line(self.format, self.offset)
        &&& after.format == self.format
        &&& after.ended == x.ended()
        &&& after.offset == if x.any() {
            self.offset + self.format.size
        } else {
            self.offset
        }
    }

    /// Whether a request for the next line can lead from this state to `after`
    /// and give `line`: once ended, nothing changes and no line comes; before,
    /// the tokenizer's answers decide.
    pub open spec fn step(self, after: Self, line: Option<LineText>) -> bool {
        if self.ended {
            line is None && after == self
        } else {
            exists|x: Exchange| #[trigger] self.step_with(x, after, line)
        }
    }
}

impl<T: Tokenizer> View for ExXxdLines<T> {
    type V = ExXxdLinesView<T>;

    closed spec fn view(&self) -> ExXxdLinesView<T> {
        ExXxdLinesView {
            format: self.format@,
            offset: self.offset as nat,
            tokens: self.tokens,
            ended: self.end,
        }
    }
}

impl<T: Tokenizer> ExXxdLines<T> {
    /// A producer of lines that starts at offset 0, with the given configuration
    /// or the default one.
    pub fn new(tokens: T, format: Option<Format>) -> (r: Self)
        ensures
            r@.offset == 0,
            r@.tokens == tokens,
            !r@.ended,
            match format {
                Some(f) => r@.format == f@,
                None => r@.format == FormatView::standard(),
            },
    {
        ExXxdLines { format: Format::or_default(format), offset: 0, tokens, end: false }
    }

    /// The offset of the next line.
    pub fn offset(&self) -> (r: usize)
        ensures
            r == self@.offset,
    {
        self.offset
    }

    /// Whether the tokenizer has said that there are no more bytes.
    pub fn is_ended(&self) -> (r: bool)
        ensures
            r == self@.ended,
    {
        self.end
    }

    /// The configuration of the dump.
    pub fn format(&self) -> (r: &Format)
        ensures
            r@ == self@.format,
    {
        &self.format
    }

    /// The next line, if the tokenizer has a byte for it.
    ///
    /// Once the tokenizer has answered `Next` without a byte, no line comes any
    /// more, and the tokenizer is not asked again. Before that, the tokenizer is
    /// asked for `BlockStart`, then for `Next` until the line is full or an answer
    /// brings no byte, then for `BlockEnd`; the line is made of these answers, and
    /// it is given out if they brought a byte. Each line that is given out moves
    /// the offset on by the configured size, however many bytes it holds.
    pub fn next(&mut self) -> (r: Option<Line>)
        requires
            !old(self)@.ended ==> old(self)@.offset + old(self)@.format.size <= usize::MAX,
        ensures
            old(self)@.step(final(self)@, optional_line(r)),
    {
        if self.end {
            return None;
        }
        let size = self.format.size();
        let none = self.format.ascii_none();
        let ghost f = self.format@;
        let mut hexed = String::new();
        let mut ascii = if self.format.ascii() {
            Some(String::new())
        } else {
            None
        };
        let start = self.tokens.get_token(Token::BlockStart);
        let ghost start_reply = start;
        write_marker(start, &mut hexed, &mut ascii);
        let ghost mut nexts: Seq<Reply> = Seq::empty();
        let mut count: usize = 0;
        let mut stopped = false;
        while count < size && !stopped
            invariant
                self.format == old(self).format,
                self.offset == old(self).offset,
                !self.end,
                f == self.format@,
                count <= size,
                nexts.len() == count + if stopped {
                    1int
                } else {
                    0int
                },
                forall|i: int| 0 <= i < count ==> reply_byte(#[trigger] nexts[i]) is Some,
                stopped ==> count < size && reply_byte(nexts.last()) is None,
                hexed@ == marker_text(start_reply) + run_hex(nexts),
                optional_text(ascii) == if f.ascii {
                    Some(marker_text(start_reply) + run_ascii(nexts, none))
                } else {
                    None
                },
            decreases size - count + if stopped {
                0int
            } else {
                1int
            },
        {
            let reply = self.tokens.get_token(Token::Next);
            proof {
                assert(nexts.push(reply).drop_last() == nexts);
                nexts = nexts.push(reply);
            }
            if write_next(reply, none, &mut hexed, &mut ascii) {
                count = count + 1;
            } else {
                stopped = true;
            }
        }
        if stopped {
            self.end = true;
        }
        let end = self.tokens.get_token(Token::BlockEnd);
        let ghost x = Exchange { start: start_reply, nexts, end };
        write_marker(end, &mut hexed, &mut ascii);
        let r = if count > 0 {
            let offset = self.offset;
            self.offset = offset + size;
            Some((offset, hexed, ascii))
        } else {
            None
        };
        assert(old(self)@.step_with(x, self@, optional_line(r)));
        r
    }
}

/// A producer that has ended gives no line and stays as it is, however often it
/// is asked.
pub proof fn lemma_stays_ended<T>(states: Seq<ExXxdLinesView<T>>, lines: Seq<Option<LineText>>)
    requires
        states.len() == lines.len() + 1,
        states[0].ended,
        forall|i: int| 0 <= i < lines.len() ==> states[i].step(states[i + 1], #[trigger] lines[i]),
    ensures
        forall|i: int| 0 <= i < lines.len() ==> (#[trigger] lines[i]) is None,
        forall|i: int| 0 <= i < states.len() ==> (#[trigger] states[i]) == states[0],
    decreases lines.len(),
{
    if lines.len() > 0 {
        let n = lines.len() - 1;
        let head_states = states.take(n + 1);
        let head_lines = lines.take(n);
        assert forall|i: int| 0 <= i < head_lines.len() implies head_states[i].step(
            head_states[i + 1],
            #[trigger] head_lines[i],
        ) by {
            assert(head_lines[i] == lines[i]);
        }
        lemma_stays_ended(head_states, head_lines);
        assert(head_states[n] == states[n]);
        assert(states[n].step(states[n + 1], lines[n]));
        assert forall|i: int| 0 <= i < lines.len() implies (#[trigger] lines[i]) is None by {
            if i < n {
                assert(head_lines[i] == lines[i]);
            }
        }
        assert forall|i: int| 0 <= i < states.len() implies (#[trigger] states[i]) == states[0] by {
            if i <= n {
                assert(head_states[i] == states[i]);
            }
        }
    }
}

/// Once the tokenizer has answered `Next` without a byte, the producer has ended:
/// however often it is asked after that, it gives no line and stays as it is.
pub proof fn lemma_ended_for_good<T>(
    before: ExXxdLinesView<T>,
    x: Exchange,
    line: Option<LineText>,
    states: Seq<ExXxdLinesView<T>>,
    lines: Seq<Option<LineText>>,
)
    requires
        x.ended(),
        states.len() == lines.len() + 1,
        before.step_with(x, states[0], line),
        forall|i: int| 0 <= i < lines.len() ==> states[i].step(states[i + 1], #[trigger] lines[i]),
    ensures
        forall|i: int| 0 <= i < lines.len() ==> (#[trigger] lines[i]) is None,
        forall|i: int| 0 <= i < states.len() ==> (#[trigger] states[i]) == states[0],
{
    lemma_stays_ended(states, lines);
}

/// Two lines that a producer gives one after the other have offsets that differ
/// by the configured size, however many bytes the first one holds.
pub proof fn lemma_token_offsets_differ_by_size<T>(
    a: ExXxdLinesView<T>,
    b: ExXxdLinesView<T>,
    c: ExXxdLinesView<T>,
    first: Option<LineText>,
    second: Option<LineText>,
)
    requires
        a.step(b, first),
        b.step(c, second),
        first is Some,
        second is Some,
    ensures
        second->0.offset == first->0.offset + a.format.size,
{
    let x = choose|x: Exchange| #[trigger] a.step_with(x, b, first);
    let y = choose|y: Exchange| #[trigger] b.step_with(y, c, second);
}

} // verus!
