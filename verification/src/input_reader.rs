use vstd::prelude::*;
use vstd::std_specs::iter::IteratorSpec;
use vstd::utf8::*;

use crate::position::CodePosition;
use crate::text::{lemma_utf8_len_concat, lemma_utf8_len_ge_len, lemma_utf8_len_take_le, utf8_len};

verus! {

#[verifier::external_type_specification]
#[verifier::external_body]
pub struct ExUtf8Error(std::str::Utf8Error);

/// An error which can occur while reading input.
#[derive(Debug)]
pub enum InputReaderError {
    /// A line of the input is not valid UTF-8.
    Utf8(std::str::Utf8Error),
    /// A character pattern used by the lexer could not be compiled.
    Pattern,
}

/// The logical state of an [`InputReader`]: the whole input, how many bytes of it
/// have been moved (line by line) into the buffer, the decoded characters that are
/// buffered but not yet consumed, whether the end of the input was seen, and the
/// position of the next character.
#[verifier::ext_equal]
pub struct ReaderState {
    pub input: Seq<u8>,
    pub offset: nat,
    pub buffer: Seq<char>,
    pub done: bool,
    pub position: CodePosition,
}

/// What a read operation hands back: an error, nothing, or some text.
#[verifier::ext_equal]
pub enum ReadOutcome {
    Failed,
    Nothing,
    Text(Seq<char>),
}

/// The index just behind the next line break at or after `off`, or the end of
/// the input when no line break follows.
pub open spec fn line_end(input: Seq<u8>, off: nat) -> nat
    decreases input.len() - off,
{
    if off >= input.len() {
        off
    } else if input[off as int] == 10u8 {
        off + 1
    } else {
        line_end(input, off + 1)
    }
}

pub proof fn lemma_line_end(input: Seq<u8>, off: nat)
    requires
        off < input.len(),
    ensures
        off < line_end(input, off) <= input.len(),
    decreases input.len() - off,
{
    if input[off as int] != 10u8 {
        if off + 1 < input.len() {
            lemma_line_end(input, off + 1);
        } else {
            assert(line_end(input, off + 1) == off + 1);
        }
    }
}

/// Bytes of the input that were not consumed yet (buffered or not yet read).
pub open spec fn pending_measure(s: ReaderState) -> nat {
    utf8_len(s.buffer) + if s.offset <= s.input.len() {
        (s.input.len() - s.offset) as nat
    } else {
        0nat
    }
}

/// The bytes of the input that were not consumed yet, buffered ones first.
pub open spec fn pending_bytes(s: ReaderState) -> Seq<u8> {
    encode_utf8(s.buffer) + s.input.subrange(s.offset as int, s.input.len() as int)
}

/// Fills the buffer line by line until it holds at least `amount` characters or
/// the input ends. The flag is set when a line turned out not to be valid UTF-8; that
/// line is then dropped.
pub open spec fn extended(s: ReaderState, amount: nat) -> (ReaderState, bool)
    decreases s.input.len() - s.offset,
{
    if s.buffer.len() >= amount {
        (s, false)
    } else if s.offset >= s.input.len() {
        (ReaderState { done: true, ..s }, false)
    } else {
        let end = line_end(s.input, s.offset);
        let line = s.input.subrange(s.offset as int, end as int);
        proof {
            lemma_line_end(s.input, s.offset);
        }
        if valid_utf8(line) {
            extended(
                ReaderState { offset: end, buffer: s.buffer + decode_utf8(line), ..s },
                amount,
            )
        } else {
            (ReaderState { offset: end, ..s }, true)
        }
    }
}

/// `is_done`: tries to buffer one character, then reports whether the input is exhausted.
pub open spec fn spec_is_done(s: ReaderState) -> (ReaderState, bool) {
    let s1 = extended(s, 1).0;
    (s1, s1.done && s1.buffer.len() == 0)
}

/// `peek(amount)`: the first `amount` characters, nothing when fewer than
/// `amount` characters are left.
pub open spec fn spec_peek(s: ReaderState, amount: nat) -> (ReaderState, ReadOutcome) {
    let (s1, finished) = spec_is_done(s);
    if finished {
        (s1, ReadOutcome::Nothing)
    } else {
        let (s2, err) = extended(s1, amount);
        if err {
            (s2, ReadOutcome::Failed)
        } else if amount > s2.buffer.len() {
            (s2, ReadOutcome::Nothing)
        } else {
            (s2, ReadOutcome::Text(s2.buffer.take(amount as int)))
        }
    }
}

/// Number of line feeds in `s`.
pub open spec fn count_newlines(s: Seq<char>) -> nat
    decreases s.len(),
{
    if s.len() == 0 {
        0
    } else {
        count_newlines(s.drop_last()) + if s.last() == '\n' {
            1nat
        } else {
            0nat
        }
    }
}

/// Index of the last line feed in `s`, or -1.
pub open spec fn last_newline(s: Seq<char>) -> int
    decreases s.len(),
{
    if s.len() == 0 {
        -1
    } else if s.last() == '\n' {
        s.len() - 1
    } else {
        last_newline(s.drop_last())
    }
}

/// Number of characters behind the last line feed of `s`: the column of the
/// position behind `s` when `s` holds a line feed.
pub open spec fn last_line_width(s: Seq<char>) -> nat {
    (s.len() - last_newline(s) - 1) as nat
}

/// The position behind `read`, when `read` starts at `pos`: lines are counted
/// by line feeds, and behind a line feed the column counts the characters after
/// the last one. So a read that ends in a line feed leaves column 0 even when
/// text stood before that line feed (the last line of `str::lines` would give
/// the width of that text instead).
pub open spec fn advance(pos: CodePosition, read: Seq<char>) -> CodePosition {
    let nl = count_newlines(read);
    CodePosition {
        line: vstd::wrapping::u16_specs::wrapping_add(pos.line, nl as u16),
        character: if nl == 0 {
            vstd::wrapping::u16_specs::wrapping_add(pos.character, read.len() as u16)
        } else {
            last_line_width(read) as u16
        },
    }
}

/// `consume(amount)`: like `peek`, but the characters are removed and the
/// position moves behind them.
pub open spec fn spec_consume(s: ReaderState, amount: nat) -> (ReaderState, ReadOutcome) {
    let (s1, finished) = spec_is_done(s);
    if finished {
        (s1, ReadOutcome::Nothing)
    } else {
        let (s2, err) = extended(s1, amount);
        if err {
            (s2, ReadOutcome::Failed)
        } else {
            let read = s2.buffer.take(amount as int);
            if s2.buffer.len() < amount {
                (s2, ReadOutcome::Nothing)
            } else {
                (
                    ReaderState {
                        buffer: s2.buffer.skip(amount as int),
                        position: advance(s2.position, read),
                        ..s2
                    },
                    ReadOutcome::Text(read),
                )
            }
        }
    }
}

/// Text when there is some, nothing otherwise.
pub open spec fn text_or_nothing(acc: Seq<char>) -> ReadOutcome {
    if acc.len() > 0 {
        ReadOutcome::Text(acc)
    } else {
        ReadOutcome::Nothing
    }
}

pub proof fn lemma_extended_measure(s: ReaderState, amount: nat)
    ensures
        pending_measure(extended(s, amount).0) <= pending_measure(s),
        extended(s, amount).0.input == s.input,
        extended(s, amount).0.position == s.position,
        s.buffer.is_prefix_of(extended(s, amount).0.buffer),
        s.offset <= s.input.len() ==> extended(s, amount).0.offset <= s.input.len(),
        s.offset <= extended(s, amount).0.offset || extended(s, amount).0 == s,
        extended(s, amount).1 ==> pending_measure(extended(s, amount).0) < pending_measure(s),
        !extended(s, amount).1 ==> pending_measure(extended(s, amount).0) == pending_measure(s),
        s.offset <= s.input.len() && !extended(s, amount).1 ==> (extended(s, amount).0.buffer.len()
            >= amount || pending_measure(extended(s, amount).0) == utf8_len(
            extended(s, amount).0.buffer,
        )),
    decreases s.input.len() - s.offset,
{
    if s.buffer.len() >= amount {
    } else if s.offset >= s.input.len() {
    } else {
        let end = line_end(s.input, s.offset);
        lemma_line_end(s.input, s.offset);
        let line = s.input.subrange(s.offset as int, end as int);
        if valid_utf8(line) {
            let next = ReaderState { offset: end, buffer: s.buffer + decode_utf8(line), ..s };
            decode_utf8_encode_utf8(line);
            lemma_utf8_len_concat(s.buffer, decode_utf8(line));
            assert(s.buffer.is_prefix_of(next.buffer)) by {
                assert(next.buffer.take(s.buffer.len() as int) =~= s.buffer);
            }
            lemma_extended_measure(next, amount);
        }
    }
}

pub proof fn lemma_is_done_measure(s: ReaderState)
    ensures
        !spec_is_done(s).1 ==> utf8_len(spec_is_done(s).0.buffer) >= 1 || pending_measure(
            spec_is_done(s).0,
        ) < pending_measure(s),
        pending_measure(spec_is_done(s).0) <= pending_measure(s),
        spec_is_done(s).0.input == s.input,
        spec_is_done(s).0.position == s.position,
        s.offset <= s.input.len() ==> spec_is_done(s).0.offset <= s.input.len(),
{
    lemma_extended_measure(s, 1);
    let s1 = extended(s, 1).0;
    lemma_utf8_len_ge_len(s1.buffer);
}

/// When the buffer already holds `amount` (at least one) characters, nothing is
/// read from the input: `is_done` is false, and peek and consume work on the
/// buffer.
pub proof fn lemma_buffered(s: ReaderState, amount: nat)
    requires
        amount >= 1,
        s.buffer.len() >= amount,
    ensures
        spec_is_done(s) == (s, false),
        extended(s, amount) == (s, false),
        spec_peek(s, amount) == (s, ReadOutcome::Text(s.buffer.take(amount as int))),
        spec_consume(s, amount).1 == ReadOutcome::Text(s.buffer.take(amount as int)),
        spec_consume(s, amount).0 == (ReaderState {
            buffer: s.buffer.skip(amount as int),
            position: advance(s.position, s.buffer.take(amount as int)),
            ..s
        }),
{
}

pub proof fn lemma_peek_measure(s: ReaderState, amount: nat)
    ensures
        pending_measure(spec_peek(s, amount).0) <= pending_measure(s),
        spec_peek(s, amount).0.input == s.input,
        spec_peek(s, amount).0.position == s.position,
        spec_peek(s, amount).1 matches ReadOutcome::Text(p) ==> amount <= pending_measure(
            spec_peek(s, amount).0,
        ) && (amount >= 1 ==> p.len() >= 1) && p.len() <= amount,
{
    lemma_is_done_measure(s);
    let s1 = spec_is_done(s).0;
    lemma_extended_measure(s1, amount);
    let s2 = extended(s1, amount).0;
    lemma_utf8_len_ge_len(s2.buffer);
}

pub proof fn lemma_consume_measure(s: ReaderState, amount: nat)
    ensures
        pending_measure(spec_consume(s, amount).0) <= pending_measure(s),
        spec_consume(s, amount).0.input == s.input,
        s.offset <= s.input.len() ==> spec_consume(s, amount).0.offset <= s.input.len(),
        spec_consume(s, amount).1 matches ReadOutcome::Text(r) ==> pending_measure(
            spec_consume(s, amount).0,
        ) + utf8_len(r) <= pending_measure(s) && utf8_len(r) >= amount,
{
    lemma_is_done_measure(s);
    let s1 = spec_is_done(s).0;
    lemma_extended_measure(s1, amount);
    let (s2, err) = extended(s1, amount);
    if !spec_is_done(s).1 && !err && s2.buffer.len() >= amount {
        let read = s2.buffer.take(amount as int);
        let rest = s2.buffer.skip(amount as int);
        assert(s2.buffer =~= read + rest);
        lemma_utf8_len_concat(read, rest);
        lemma_utf8_len_ge_len(read);
    }
}

/// Characters are consumed one by one until the consumed text ends with the
/// delimiter or nothing is left; `acc` is what was consumed so far.
pub open spec fn consume_to_from(s: ReaderState, delimeter: Seq<char>, acc: Seq<char>) -> (
    ReaderState,
    ReadOutcome,
)
    decreases pending_measure(s),
{
    let (s1, finished) = spec_is_done(s);
    if finished {
        (s1, text_or_nothing(acc))
    } else {
        let (s2, r) = spec_consume(s1, 1);
        proof {
            lemma_is_done_measure(s);
            lemma_consume_measure(s1, 1);
        }
        match r {
            ReadOutcome::Failed => (s2, ReadOutcome::Failed),
            ReadOutcome::Nothing => (s2, text_or_nothing(acc)),
            ReadOutcome::Text(c) => {
                let acc2 = acc + c;
                if delimeter.is_suffix_of(acc2) {
                    (s2, text_or_nothing(acc2))
                } else {
                    consume_to_from(s2, delimeter, acc2)
                }
            },
        }
    }
}

/// `consume_to_delimeter_or_end(delimeter)`.
pub open spec fn spec_consume_to_delimeter(s: ReaderState, delimeter: Seq<char>) -> (
    ReaderState,
    ReadOutcome,
) {
    let (s1, finished) = spec_is_done(s);
    if finished {
        (s1, ReadOutcome::Nothing)
    } else {
        consume_to_from(s1, delimeter, Seq::<char>::empty())
    }
}

/// Peeks 1, 2, 3, ... characters until `approve` rejects the last peeked
/// character (given together with everything peeked so far) or nothing more can
/// be peeked; `peeked` is the last text that was approved.
pub open spec fn peek_until_from(
    s: ReaderState,
    approve: spec_fn(char, Seq<char>) -> bool,
    offset: nat,
    peeked: Seq<char>,
) -> (ReaderState, ReadOutcome)
    decreases pending_measure(s) + 1 - offset,
{
    let (s1, r) = spec_peek(s, offset);
    proof {
        lemma_peek_measure(s, offset);
    }
    match r {
        ReadOutcome::Failed => (s1, ReadOutcome::Failed),
        ReadOutcome::Nothing => (s1, text_or_nothing(peeked)),
        ReadOutcome::Text(p) => {
            if !approve(p.last(), p) {
                (s1, ReadOutcome::Text(p.drop_last()))
            } else {
                peek_until_from(s1, approve, offset + 1, p)
            }
        },
    }
}

pub open spec fn spec_peek_until(s: ReaderState, approve: spec_fn(char, Seq<char>) -> bool) -> (
    ReaderState,
    ReadOutcome,
) {
    peek_until_from(s, approve, 1, Seq::<char>::empty())
}

/// The outcome that a result of a read operation stands for.
pub open spec fn outcome(r: Result<Option<String>, InputReaderError>) -> ReadOutcome {
    match r {
        Err(_) => ReadOutcome::Failed,
        Ok(None) => ReadOutcome::Nothing,
        Ok(Some(s)) => ReadOutcome::Text(s@),
    }
}

/// Every answer that `f` can give for `c` after the text `t` was peeked is `pred(c, t)`.
pub open spec fn agrees_with<F: Fn(char, &String) -> bool>(
    f: F,
    pred: spec_fn(char, Seq<char>) -> bool,
) -> bool {
    forall|c: char, t: &String, b: bool| #[trigger] call_ensures(f, (c, t), b) ==> b == pred(c, t@)
}

/// Calls `std::str::from_utf8`: the text of the bytes when they are valid UTF-8,
/// as the documentation of `from_utf8` says, else its error (which error is
/// left unsaid).
#[verifier::external_body]
fn utf8_text(bytes: &[u8]) -> (res: Result<&str, std::str::Utf8Error>)
    ensures
        res is Ok <==> valid_utf8(bytes@),
        res matches Ok(text) ==> text@ == decode_utf8(bytes@),
{
    std::str::from_utf8(bytes)
}

/// The characters of a line, when it is valid UTF-8.
fn decode_line(bytes: &[u8]) -> (res: Result<Vec<char>, std::str::Utf8Error>)
    ensures
        res is Ok <==> valid_utf8(bytes@),
        res matches Ok(cs) ==> cs@ == decode_utf8(bytes@),
{
    match utf8_text(bytes) {
        Ok(text) => Ok(str_chars(text)),
        Err(e) => Err(e),
    }
}

/// Collects characters into a `String`.
#[verifier::external_body]
pub(crate) fn collect_string(chars: &[char]) -> (res: String)
    ensures
        res@ == chars@,
{
    chars.iter().collect()
}

/// The characters of a string slice.
pub(crate) fn str_chars(text: &str) -> (res: Vec<char>)
    ensures
        res@ == text@,
{
    let mut iter = text.chars();
    proof {
        vstd::string::axiom_spec_iter(text);
    }
    let mut res: Vec<char> = Vec::new();
    assert(res@ + IteratorSpec::remaining(&iter) =~= text@);
    loop
        invariant
            res@ + IteratorSpec::remaining(&iter) == text@,
            IteratorSpec::decrease(&iter) is Some,
            IteratorSpec::obeys_prophetic_iter_laws(&iter),
        ensures
            res@ == text@,
        decreases IteratorSpec::decrease(&iter)->0,
    {
        broadcast use vstd::string::next_postcondition;

        let ghost before = IteratorSpec::remaining(&iter);
        let ghost taken = res@;
        match iter.next() {
            Some(c) => {
                res.push(c);
                assert(res@ + IteratorSpec::remaining(&iter) =~= taken + before);
            },
            None => {
                assert(res@ =~= text@);
                break;
            },
        }
    }
    res
}

fn find_line_end(input: &Vec<u8>, off: usize) -> (end: usize)
    requires
        off < input.len(),
    ensures
        end == line_end(input@, off as nat),
{
    let mut i = off;
    while i < input.len()
        invariant
            off <= i <= input.len(),
            line_end(input@, off as nat) == line_end(input@, i as nat),
        decreases input.len() - i,
    {
        if input[i] == 10u8 {
            return i + 1;
        }
        i = i + 1;
    }
    i
}

fn count_newlines_exec(read: &Vec<char>) -> (n: usize)
    ensures
        n == count_newlines(read@),
        n <= read.len(),
{
    let mut n: usize = 0;
    let mut i: usize = 0;
    while i < read.len()
        invariant
            i <= read.len(),
            n == count_newlines(read@.take(i as int)),
            n <= i,
        decreases read.len() - i,
    {
        assert(read@.take(i + 1).drop_last() =~= read@.take(i as int));
        if read[i] == '\n' {
            n = n + 1;
        }
        i = i + 1;
    }
    assert(read@.take(i as int) =~= read@);
    n
}

/// Index of the last line feed among the first `upto` characters.
fn last_newline_exec(read: &Vec<char>, upto: usize) -> (res: Option<usize>)
    requires
        upto <= read.len(),
    ensures
        res is None <==> last_newline(read@.take(upto as int)) == -1,
        res matches Some(k) ==> k == last_newline(read@.take(upto as int)) && k < upto,
{
    let mut i = upto;
    while i > 0
        invariant
            i <= upto <= read.len(),
            last_newline(read@.take(upto as int)) == last_newline(read@.take(i as int)),
        decreases i,
    {
        assert(read@.take(i as int).drop_last() =~= read@.take(i - 1));
        if read[i - 1] == '\n' {
            return Some(i - 1);
        }
        i = i - 1;
    }
    None
}

proof fn lemma_count_newlines_zero(s: Seq<char>)
    ensures
        count_newlines(s) == 0 <==> last_newline(s) == -1,
    decreases s.len(),
{
    if s.len() > 0 {
        lemma_count_newlines_zero(s.drop_last());
    }
}

fn last_line_width_exec(read: &Vec<char>) -> (w: usize)
    requires
        count_newlines(read@) > 0,
    ensures
        w == last_line_width(read@),
{
    proof {
        lemma_count_newlines_zero(read@);
        assert(read@.take(read.len() as int) =~= read@);
    }
    let k = match last_newline_exec(read, read.len()) {
        Some(k) => k,
        None => {
            return 0;
        },
    };
    read.len() - k - 1
}

fn advance_exec(pos: CodePosition, read: &Vec<char>) -> (res: CodePosition)
    ensures
        res == advance(pos, read@),
{
    let nl = count_newlines_exec(read);
    let line = pos.line.wrapping_add(nl as u16);
    let character = if nl == 0 {
        pos.character.wrapping_add(read.len() as u16)
    } else {
        last_line_width_exec(read) as u16
    };
    CodePosition { line, character }
}

/// Wrapper around an input which provides methods for processing it as text.
/// The input is read line by line into a buffer of decoded characters; it is the
/// input of the lexer.
pub struct InputReader {
    input: Vec<u8>,
    offset: usize,
    buffer: Vec<char>,
    done: bool,
    pub current_position: CodePosition,
}

impl View for InputReader {
    type V = ReaderState;

    closed spec fn view(&self) -> ReaderState {
        ReaderState {
            input: self.input@,
            offset: self.offset as nat,
            buffer: self.buffer@,
            done: self.done,
            position: self.current_position,
        }
    }
}

impl InputReader {
    /// The reader's fields agree with each other.
    pub closed spec fn wf(&self) -> bool {
        &&& self.offset <= self.input.len()
        &&& utf8_len(self.buffer@) <= self.offset
        &&& self.input.len() < usize::MAX
    }

    pub proof fn lemma_wf(&self)
        requires
            self.wf(),
        ensures
            self@.offset <= self@.input.len(),
            utf8_len(self@.buffer) <= self@.offset,
            self@.input.len() < usize::MAX,
    {
    }

    /// Creates a new input reader over the given bytes.
    pub fn new(input: &[u8]) -> (res: InputReader)
        requires
            input@.len() < usize::MAX,
        ensures
            res.wf(),
            res@.input == input@,
            res@.offset == 0,
            res@.buffer.len() == 0,
            !res@.done,
            res@.position == (CodePosition { line: 0, character: 0 }),
    {
        let mut bytes: Vec<u8> = Vec::new();
        let mut i: usize = 0;
        while i < input.len()
            invariant
                i <= input.len(),
                bytes@ == input@.take(i as int),
            decreases input.len() - i,
        {
            bytes.push(input[i]);
            i = i + 1;
            assert(bytes@ =~= input@.take(i as int));
        }
        assert(input@.take(i as int) =~= input@);
        proof {
            assert(encode_utf8(Seq::<char>::empty()) =~= Seq::<u8>::empty());
        }
        InputReader {
            input: bytes,
            offset: 0,
            buffer: Vec::new(),
            done: false,
            current_position: CodePosition { line: 0, character: 0 },
        }
    }

    /// The position of the next character.
    pub fn get_current_position(&self) -> (res: CodePosition)
        ensures
            res == self@.position,
    {
        self.current_position
    }

    /// Extends the buffer until it holds at least `amount` characters or the end is reached.
    fn extend_buffer_by(&mut self, amount: usize) -> (res: Result<(), InputReaderError>)
        requires
            old(self).wf(),
        ensures
            res matches Err(e) ==> e is Utf8,
            final(self).wf(),
            final(self)@ == extended(old(self)@, amount as nat).0,
            res is Err == extended(old(self)@, amount as nat).1,
    {
        let ghost start = self@;
        while self.buffer.len() < amount
            invariant
                self.wf(),
                start == old(self)@,
                extended(self@, amount as nat) == extended(start, amount as nat),
            decreases self.input.len() - self.offset,
        {
            if self.offset >= self.input.len() {
                let ghost cur = self@;
                self.done = true;
                assert(self@ =~= extended(cur, amount as nat).0);
                return Ok(());
            }
            let end = find_line_end(&self.input, self.offset);
            proof {
                lemma_line_end(self.input@, self.offset as nat);
            }
            let decoded = decode_line(&self.input.as_slice()[self.offset..end]);
            let ghost line = self.input@.subrange(self.offset as int, end as int);
            match decoded {
                Err(e) => {
                    self.offset = end;
                    return Err(InputReaderError::Utf8(e));
                },
                Ok(chars) => {
                    let mut chars = chars;
                    proof {
                        decode_utf8_encode_utf8(line);
                        lemma_utf8_len_concat(self.buffer@, decode_utf8(line));
                    }
                    self.offset = end;
                    self.buffer.append(&mut chars);
                },
            }
        }
        Ok(())
    }

    /// Checks if the reader has no characters left.
    pub fn is_done(&mut self) -> (res: bool)
        requires
            old(self).wf(),
        ensures
            final(self).wf(),
            (final(self)@, res) == spec_is_done(old(self)@),
    {
        let _ = self.extend_buffer_by(1);
        self.done && self.buffer.len() == 0
    }

    /// Returns a given amount of characters from the input without consuming them.
    /// Returns none when fewer characters than requested are left.
    pub fn peek(&mut self, amount: usize) -> (res: Result<Option<String>, InputReaderError>)
        requires
            old(self).wf(),
        ensures
            res matches Err(e) ==> e is Utf8,
            final(self).wf(),
            (final(self)@, outcome(res)) == spec_peek(old(self)@, amount as nat),
    {
        if self.is_done() {
            return Ok(None);
        }
        match self.extend_buffer_by(amount) {
            Err(e) => {
                return Err(e);
            },
            Ok(()) => {},
        }
        if amount > self.buffer.len() {
            return Ok(None);
        }
        let text = collect_string(&self.buffer.as_slice()[0..amount]);
        proof {
            assert(self.buffer@.subrange(0, amount as int) =~= self.buffer@.take(amount as int));
        }
        Ok(Some(text))
    }

    /// Consumes a given amount of characters from the input and returns them.
    /// Returns none when fewer characters than requested are left; then nothing
    /// is consumed.
    pub fn consume(&mut self, amount: usize) -> (res: Result<Option<String>, InputReaderError>)
        requires
            old(self).wf(),
        ensures
            res matches Err(e) ==> e is Utf8,
            final(self).wf(),
            (final(self)@, outcome(res)) == spec_consume(old(self)@, amount as nat),
    {
        if self.is_done() {
            return Ok(None);
        }
        match self.extend_buffer_by(amount) {
            Err(e) => {
                return Err(e);
            },
            Ok(()) => {},
        }
        if self.buffer.len() < amount {
            return Ok(None);
        }
        let n = amount;
        let ghost before = self.buffer@;
        proof {
            assert(before =~= before.take(n as int) + before.skip(n as int));
            lemma_utf8_len_concat(before.take(n as int), before.skip(n as int));
        }
        let mut read = self.buffer.split_off(n);
        std::mem::swap(&mut self.buffer, &mut read);
        self.current_position = advance_exec(self.current_position, &read);
        let text = collect_string(read.as_slice());
        Ok(Some(text))
    }

    /// Consumes characters until the consumed text ends with `delimeter`; the
    /// delimiter is included. Consumes to the end when it never appears. Returns
    /// none when no character could be consumed.
    pub fn consume_to_delimeter_or_end(&mut self, delimeter: &str) -> (res: Result<
        Option<String>,
        InputReaderError,
    >)
        requires
            old(self).wf(),
        ensures
            res matches Err(e) ==> e is Utf8,
            final(self).wf(),
            (final(self)@, outcome(res)) == spec_consume_to_delimeter(
                old(self)@,
                delimeter@,
            ),
    {
        if self.is_done() {
            return Ok(None);
        }
        let delim = str_chars(delimeter);
        let ghost s1 = self@;
        let mut ret: Vec<char> = Vec::new();
        loop
            invariant
                self.wf(),
                delim@ == delimeter@,
                spec_consume_to_delimeter(old(self)@, delimeter@) == consume_to_from(
                    s1,
                    delim@,
                    Seq::<char>::empty(),
                ),
                consume_to_from(self@, delim@, ret@) == consume_to_from(
                    s1,
                    delim@,
                    Seq::<char>::empty(),
                ),
            decreases pending_measure(self@),
        {
            let ghost s = self@;
            proof {
                lemma_is_done_measure(s);
                lemma_consume_measure(spec_is_done(s).0, 1);
            }
            if self.is_done() {
                return Ok(text_or_none(&ret));
            }
            let read = match self.consume(1) {
                Err(e) => {
                    return Err(e);
                },
                Ok(r) => r,
            };
            match read {
                None => {
                    return Ok(text_or_none(&ret));
                },
                Some(text) => {
                    let chars = str_chars(text.as_str());
                    let mut chars = chars;
                    ret.append(&mut chars);
                    if ends_with(&ret, &delim) {
                        return Ok(text_or_none(&ret));
                    }
                },
            }
        }
    }

    /// Peeks characters until `approve` returns false for the last peeked character
    /// (it also gets all peeked text); that character is not returned. Returns none
    /// if no character could be peeked. `approve` is only called with a last
    /// peeked character and the text peeked up to it, a front part of the
    /// characters left to peek; so it is never called when nothing can be peeked.
    pub fn peek_until<F: Fn(char, &String) -> bool>(&mut self, approve: F) -> (res: Result<
        Option<String>,
        InputReaderError,
    >)
        requires
            old(self).wf(),
            forall|c: char, t: &String|
                t@.len() >= 1 && t@.last() == c && t@.is_prefix_of(peekable_text(old(self)@))
                    ==> #[trigger] call_requires(approve, (c, t)),
        ensures
            res matches Err(e) ==> e is Utf8,
            final(self).wf(),
            forall|pred: spec_fn(char, Seq<char>) -> bool| #[trigger]
                agrees_with(approve, pred) ==> (final(self)@, outcome(res)) == spec_peek_until(
                    old(self)@,
                    pred,
                ),
    {
        let ghost s0 = self@;
        let ghost seen = peekable_text(s0);
        let mut offset: usize = 0;
        let mut peeked: Vec<char> = Vec::new();
        loop
            invariant
                self.wf(),
                s0 == old(self)@,
                seen == peekable_text(s0),
                forall|c: char, t: &String|
                    t@.len() >= 1 && t@.last() == c && t@.is_prefix_of(seen) ==> #[trigger] call_requires(
                        approve,
                        (c, t),
                    ),
                offset == 0 ==> self@ == s0,
                offset > 0 ==> remaining_text(self@) == seen && self@.buffer.len() >= 1,
                offset <= pending_measure(self@),
                pending_measure(self@) <= self@.input.len(),
                self@.input.len() < usize::MAX,
                forall|pred: spec_fn(char, Seq<char>) -> bool| #[trigger]
                    agrees_with(approve, pred) ==> peek_until_from(
                        self@,
                        pred,
                        (offset + 1) as nat,
                        peeked@,
                    ) == spec_peek_until(s0, pred),
            decreases pending_measure(self@) - offset,
        {
            let ghost s = self@;
            proof {
                lemma_peek_measure(s, (offset + 1) as nat);
                lemma_peek_within(s, (offset + 1) as nat);
                if offset > 0 {
                    lemma_buffered(s, 1);
                }
            }
            offset = offset + 1;
            let peek_result = match self.peek(offset) {
                Err(e) => {
                    assert forall|pred: spec_fn(char, Seq<char>) -> bool| #[trigger]
                        agrees_with(approve, pred) implies peek_until_from(
                        s,
                        pred,
                        offset as nat,
                        peeked@,
                    ) == (self@, ReadOutcome::Failed) by {}
                    return Err(e);
                },
                Ok(r) => r,
            };
            match peek_result {
                None => {
                    assert forall|pred: spec_fn(char, Seq<char>) -> bool| #[trigger]
                        agrees_with(approve, pred) implies peek_until_from(
                        s,
                        pred,
                        offset as nat,
                        peeked@,
                    ) == (self@, text_or_nothing(peeked@)) by {}
                    return Ok(text_or_none(&peeked));
                },
                Some(text) => {
                    let chars = str_chars(text.as_str());
                    let last = chars[chars.len() - 1];
                    let accepted = approve(last, &text);
                    if !accepted {
                        let kept = collect_string(&chars.as_slice()[0..chars.len() - 1]);
                        proof {
                            assert(chars@.subrange(0, chars.len() - 1) =~= chars@.drop_last());
                        }
                        assert forall|pred: spec_fn(char, Seq<char>) -> bool| #[trigger]
                            agrees_with(approve, pred) implies peek_until_from(
                            s,
                            pred,
                            offset as nat,
                            peeked@,
                        ) == (self@, ReadOutcome::Text(chars@.drop_last())) by {
                            assert(call_ensures(approve, (last, &text), accepted));
                        }
                        return Ok(Some(kept));
                    }
                    assert forall|pred: spec_fn(char, Seq<char>) -> bool| #[trigger]
                        agrees_with(approve, pred) implies peek_until_from(
                        s,
                        pred,
                        offset as nat,
                        peeked@,
                    ) == peek_until_from(self@, pred, (offset + 1) as nat, chars@) by {
                        assert(call_ensures(approve, (last, &text), accepted));
                    }
                    peeked = chars;
                },
            }
        }
    }
}

/// The characters as a `String`, or none when there are none.
fn text_or_none(chars: &Vec<char>) -> (res: Option<String>)
    ensures
        outcome(Ok(res)) == text_or_nothing(chars@),
{
    if chars.len() > 0 {
        Some(collect_string(chars.as_slice()))
    } else {
        None
    }
}

/// Whether `text` ends with `suffix`.
pub fn ends_with(text: &Vec<char>, suffix: &Vec<char>) -> (res: bool)
    ensures
        res == suffix@.is_suffix_of(text@),
{
    if suffix.len() > text.len() {
        return false;
    }
    let start = text.len() - suffix.len();
    let mut i: usize = 0;
    while i < suffix.len()
        invariant
            start + suffix.len() == text.len(),
            i <= suffix.len(),
            forall|j: int| 0 <= j < i ==> suffix@[j] == text@[start + j],
        decreases suffix.len() - i,
    {
        if suffix[i] != text[start + i] {
            assert(!suffix@.is_suffix_of(text@)) by {
                assert(text@.subrange(start as int, text.len() as int)[i as int] != suffix@[i as int]);
            }
            return false;
        }
        i = i + 1;
    }
    assert(text@.subrange(start as int, text.len() as int) =~= suffix@);
    true
}

} // verus!

verus! {

proof fn lemma_extended_pending(s: ReaderState, amount: nat)
    requires
        s.offset <= s.input.len(),
        !extended(s, amount).1,
    ensures
        pending_bytes(extended(s, amount).0) == pending_bytes(s),
    decreases s.input.len() - s.offset,
{
    if s.buffer.len() >= amount {
    } else if s.offset >= s.input.len() {
    } else {
        let end = line_end(s.input, s.offset);
        lemma_line_end(s.input, s.offset);
        let line = s.input.subrange(s.offset as int, end as int);
        if valid_utf8(line) {
            let next = ReaderState { offset: end, buffer: s.buffer + decode_utf8(line), ..s };
            decode_utf8_encode_utf8(line);
            crate::text::lemma_encode_concat(s.buffer, decode_utf8(line));
            assert(pending_bytes(next) =~= pending_bytes(s));
            lemma_extended_pending(next, amount);
        }
    }
}

/// Peek and consume of the same amount see the same text; consuming differs
/// from peeking only in that the text leaves the buffer and the position moves
/// behind it.
pub proof fn law_peek_consume_agree(s: ReaderState, amount: nat)
    ensures
        spec_peek(s, amount).1 == spec_consume(s, amount).1,
        spec_consume(s, amount).1 matches ReadOutcome::Text(r) ==> spec_consume(s, amount).0 == (
        ReaderState {
            buffer: spec_peek(s, amount).0.buffer.skip(r.len() as int),
            position: advance(s.position, r),
            ..spec_peek(s, amount).0
        }),
        !(spec_consume(s, amount).1 is Text) ==> spec_consume(s, amount).0 == spec_peek(
            s,
            amount,
        ).0,
{
    lemma_is_done_measure(s);
    let s1 = spec_is_done(s).0;
    lemma_extended_measure(s1, amount);
}

/// Consuming hands out exactly the next characters of the input: the bytes not
/// yet consumed afterwards are those before, minus the encoding of the consumed
/// text (when no line was dropped as invalid UTF-8 on the way).
pub proof fn law_consume_takes_front(s: ReaderState, amount: nat)
    requires
        s.offset <= s.input.len(),
        !extended(s, 1).1,
    ensures
        spec_consume(s, amount).1 matches ReadOutcome::Text(r) ==> pending_bytes(s) == encode_utf8(
            r,
        ) + pending_bytes(spec_consume(s, amount).0),
        spec_consume(s, amount).1 matches ReadOutcome::Text(r) ==> spec_consume(s, amount).0.position
            == advance(s.position, r),
{
    lemma_extended_pending(s, 1);
    lemma_is_done_measure(s);
    let s1 = spec_is_done(s).0;
    let (s2, err) = extended(s1, amount);
    if !spec_is_done(s).1 && !err && s2.buffer.len() >= amount {
        lemma_extended_pending(s1, amount);
        lemma_extended_measure(s1, amount);
        let read = s2.buffer.take(amount as int);
        assert(s2.buffer =~= read + s2.buffer.skip(amount as int));
        crate::text::lemma_encode_concat(read, s2.buffer.skip(amount as int));
        assert(pending_bytes(s2) =~= encode_utf8(read) + pending_bytes(
            ReaderState { buffer: s2.buffer.skip(amount as int), position: advance(s2.position, read), ..s2 },
        ));
    }
}

/// Peeking consumes nothing: the bytes not yet consumed and the position stay as
/// they were (when no line was dropped as invalid UTF-8).
pub proof fn law_peek_keeps_input(s: ReaderState, amount: nat)
    requires
        s.offset <= s.input.len(),
        !extended(s, 1).1,
        !(spec_peek(s, amount).1 is Failed),
    ensures
        pending_bytes(spec_peek(s, amount).0) == pending_bytes(s),
        spec_peek(s, amount).0.position == s.position,
{
    lemma_extended_pending(s, 1);
    lemma_is_done_measure(s);
    let s1 = spec_is_done(s).0;
    if !spec_is_done(s).1 {
        lemma_extended_pending(s1, amount);
        lemma_extended_measure(s1, amount);
    }
}

/// The characters of the input from `off` on, decoded line by line.
pub open spec fn lines_text(input: Seq<u8>, off: nat) -> Seq<char>
    decreases input.len() - off,
{
    if off >= input.len() {
        Seq::empty()
    } else {
        let end = line_end(input, off);
        proof {
            lemma_line_end(input, off);
        }
        decode_utf8(input.subrange(off as int, end as int)) + lines_text(input, end)
    }
}

/// Every line of the input from `off` on is valid UTF-8.
pub open spec fn lines_valid(input: Seq<u8>, off: nat) -> bool
    decreases input.len() - off,
{
    if off >= input.len() {
        true
    } else {
        let end = line_end(input, off);
        proof {
            lemma_line_end(input, off);
        }
        valid_utf8(input.subrange(off as int, end as int)) && lines_valid(input, end)
    }
}

/// The characters not consumed yet: the buffered ones, then those of the lines
/// not read yet.
pub open spec fn remaining_text(s: ReaderState) -> Seq<char> {
    s.buffer + lines_text(s.input, s.offset)
}

/// Filling the buffer from valid lines keeps the characters not consumed yet,
/// and stops with `amount` characters buffered or with all of them buffered.
proof fn lemma_extended_remaining(s: ReaderState, amount: nat)
    requires
        s.offset <= s.input.len(),
        lines_valid(s.input, s.offset),
    ensures
        !extended(s, amount).1,
        extended(s, amount).0.offset <= s.input.len(),
        extended(s, amount).0.input == s.input,
        lines_valid(s.input, extended(s, amount).0.offset),
        remaining_text(extended(s, amount).0) == remaining_text(s),
        extended(s, amount).0.buffer.len() >= amount || extended(s, amount).0.buffer
            == remaining_text(s),
    decreases s.input.len() - s.offset,
{
    if s.buffer.len() >= amount {
    } else if s.offset >= s.input.len() {
        assert(remaining_text(s) =~= s.buffer);
    } else {
        let end = line_end(s.input, s.offset);
        lemma_line_end(s.input, s.offset);
        let line = s.input.subrange(s.offset as int, end as int);
        let next = ReaderState { offset: end, buffer: s.buffer + decode_utf8(line), ..s };
        assert(remaining_text(next) =~= remaining_text(s));
        lemma_extended_remaining(next, amount);
    }
}

/// The characters that peeks can see: those not consumed yet, after a first
/// line that is not valid UTF-8 was skipped (as `is_done` does).
pub open spec fn peekable_text(s: ReaderState) -> Seq<char> {
    remaining_text(spec_is_done(s).0)
}

/// Filling the buffer without a failure keeps the characters not consumed yet.
proof fn lemma_extended_keeps_remaining(s: ReaderState, amount: nat)
    ensures
        !extended(s, amount).1 ==> remaining_text(extended(s, amount).0) == remaining_text(s),
    decreases s.input.len() - s.offset,
{
    if s.buffer.len() >= amount {
    } else if s.offset >= s.input.len() {
    } else {
        let end = line_end(s.input, s.offset);
        lemma_line_end(s.input, s.offset);
        let line = s.input.subrange(s.offset as int, end as int);
        if valid_utf8(line) {
            let next = ReaderState { offset: end, buffer: s.buffer + decode_utf8(line), ..s };
            assert(remaining_text(next) =~= remaining_text(s));
            lemma_extended_keeps_remaining(next, amount);
        }
    }
}

/// What a peek shows is a front part of the characters it can see, and the
/// peek keeps them.
proof fn lemma_peek_within(s: ReaderState, amount: nat)
    ensures
        spec_peek(s, amount).1 matches ReadOutcome::Text(p) ==> p.is_prefix_of(peekable_text(s))
            && p.len() == amount && remaining_text(spec_peek(s, amount).0) == peekable_text(s)
            && spec_peek(s, amount).0.buffer.len() >= amount,
{
    let s1 = spec_is_done(s).0;
    lemma_extended_keeps_remaining(s1, amount);
    let s2 = extended(s1, amount).0;
    if spec_peek(s, amount).1 is Text {
        assert(s2.buffer.take(amount as int).is_prefix_of(remaining_text(s2))) by {
            assert(remaining_text(s2).take(amount as int) =~= s2.buffer.take(amount as int));
        }
    }
}

/// Peek and consume read the front of the characters not consumed yet (when
/// every line is valid UTF-8): both answer nothing exactly when fewer than
/// `amount` characters are left, and otherwise the first `amount` of them;
/// peeking leaves them, consuming removes them.
pub proof fn law_reads_front(s: ReaderState, amount: nat)
    requires
        s.offset <= s.input.len(),
        lines_valid(s.input, s.offset),
        amount >= 1,
    ensures
        spec_peek(s, amount).1 is Nothing <==> remaining_text(s).len() < amount,
        spec_consume(s, amount).1 is Nothing <==> remaining_text(s).len() < amount,
        remaining_text(s).len() >= amount ==> spec_peek(s, amount).1 == ReadOutcome::Text(
            remaining_text(s).take(amount as int),
        ) && remaining_text(spec_peek(s, amount).0) == remaining_text(s),
        remaining_text(s).len() >= amount ==> spec_consume(s, amount).1 == ReadOutcome::Text(
            remaining_text(s).take(amount as int),
        ) && remaining_text(spec_consume(s, amount).0) == remaining_text(s).skip(amount as int),
{
    lemma_extended_remaining(s, 1);
    let s1 = extended(s, 1).0;
    lemma_extended_remaining(s1, amount);
    let s2 = extended(s1, amount).0;
    let rest = lines_text(s2.input, s2.offset);
    if s2.buffer.len() >= amount {
        assert(remaining_text(s).take(amount as int) =~= s2.buffer.take(amount as int));
        assert(remaining_text(s).skip(amount as int) =~= s2.buffer.skip(amount as int) + rest);
    }
}
} // verus!

verus! {

proof fn lemma_peek_prefix(s: ReaderState, amount: nat)
    ensures
        s.buffer.is_prefix_of(spec_peek(s, amount).0.buffer),
        spec_peek(s, amount).1 matches ReadOutcome::Text(p) ==> p.is_prefix_of(
            spec_peek(s, amount).0.buffer,
        ),
{
    lemma_extended_measure(s, 1);
    let s1 = extended(s, 1).0;
    lemma_extended_measure(s1, amount);
    let s2 = extended(s1, amount).0;
    assert(s.buffer.is_prefix_of(s2.buffer)) by {
        assert(s2.buffer.take(s.buffer.len() as int) =~= s.buffer) by {
            assert(s1.buffer.take(s.buffer.len() as int) =~= s.buffer);
            assert(s2.buffer.take(s1.buffer.len() as int) =~= s1.buffer);
        }
    }
}

proof fn lemma_peek_until_from_prefix(
    s: ReaderState,
    approve: spec_fn(char, Seq<char>) -> bool,
    offset: nat,
    peeked: Seq<char>,
)
    requires
        peeked.is_prefix_of(s.buffer),
        offset >= 1,
    ensures
        peek_until_from(s, approve, offset, peeked).1 matches ReadOutcome::Text(r) ==> r.is_prefix_of(
            peek_until_from(s, approve, offset, peeked).0.buffer,
        ),
    decreases pending_measure(s) + 1 - offset,
{
    let (s1, r) = spec_peek(s, offset);
    lemma_peek_measure(s, offset);
    lemma_peek_prefix(s, offset);
    assert(peeked.is_prefix_of(s1.buffer)) by {
        assert(s1.buffer.take(peeked.len() as int) =~= peeked) by {
            assert(s.buffer.take(peeked.len() as int) =~= peeked);
            assert(s1.buffer.take(s.buffer.len() as int) =~= s.buffer);
        }
    }
    match r {
        ReadOutcome::Text(p) => {
            assert(p.len() >= 1);
            assert(p.len() <= s1.buffer.len());
            assert(s1.buffer.take(p.len() as int) =~= p);
            if !approve(p.last(), p) {
                assert(s1.buffer.take(p.drop_last().len() as int) =~= p.drop_last()) by {
                    assert forall|i: int| 0 <= i < p.len() - 1 implies #[trigger] s1.buffer[i] == p[i] by {
                        assert(s1.buffer.take(p.len() as int)[i] == p[i]);
                    }
                }
            } else {
                lemma_peek_until_from_prefix(s1, approve, offset + 1, p);
            }
        },
        _ => {},
    }
}

/// What `peek_until` returns is a prefix of the buffered characters.
pub proof fn lemma_peek_until_prefix(s: ReaderState, approve: spec_fn(char, Seq<char>) -> bool)
    ensures
        spec_peek_until(s, approve).1 matches ReadOutcome::Text(r) ==> r.is_prefix_of(
            spec_peek_until(s, approve).0.buffer,
        ) && utf8_len(r) <= utf8_len(spec_peek_until(s, approve).0.buffer),
{
    lemma_peek_until_from_prefix(s, approve, 1, Seq::<char>::empty());
    if let ReadOutcome::Text(r) = spec_peek_until(s, approve).1 {
        let b = spec_peek_until(s, approve).0.buffer;
        lemma_utf8_len_take_le(b, r.len() as int);
        assert(b.take(r.len() as int) =~= r);
    }
}

} // verus!
