use vstd::prelude::*;

use crate::input_reader::{
    spec_consume, spec_peek, str_chars, InputReader, InputReaderError, ReadOutcome, ReaderState,
};
use crate::position::CodePosition;
use crate::text::chars_equal;

verus! {

/// Result of looking for one of a list of fixed words at the front of the input.
pub enum WordMatch {
    Failed,
    NoMatch,
    /// Index of the word, and where it started and ended.
    Matched(int, CodePosition, CodePosition),
}

/// The words are tried in order from index `i` on: each is peeked with its length,
/// and the first one that equals the peeked text is consumed.
pub open spec fn match_words_from(s: ReaderState, words: Seq<Seq<char>>, i: nat) -> (
    ReaderState,
    WordMatch,
)
    decreases words.len() - i,
{
    if i >= words.len() {
        (s, WordMatch::NoMatch)
    } else {
        let w = words[i as int];
        let (s1, r) = spec_peek(s, w.len());
        match r {
            ReadOutcome::Failed => (s1, WordMatch::Failed),
            ReadOutcome::Nothing => match_words_from(s1, words, i + 1),
            ReadOutcome::Text(p) => {
                if p == w {
                    let (s2, r2) = spec_consume(s1, p.len());
                    match r2 {
                        ReadOutcome::Failed => (s2, WordMatch::Failed),
                        ReadOutcome::Nothing => (s2, WordMatch::NoMatch),
                        ReadOutcome::Text(_) => (s2, WordMatch::Matched(
                            i as int,
                            s1.position,
                            s2.position,
                        )),
                    }
                } else {
                    match_words_from(s1, words, i + 1)
                }
            },
        }
    }
}

pub open spec fn word_views(words: Seq<&str>) -> Seq<Seq<char>> {
    words.map_values(|w: &str| w@)
}

/// Tries the words in order and consumes the first that is at the front.
pub fn match_words(reader: &mut InputReader, words: &Vec<&str>) -> (res: Result<
    Option<(usize, CodePosition, CodePosition)>,
    InputReaderError,
>)
    requires
        old(reader).wf(),
    ensures
        res matches Err(e) ==> e is Utf8,
        final(reader).wf(),
        final(reader)@ == match_words_from(old(reader)@, word_views(words@), 0).0,
        match match_words_from(old(reader)@, word_views(words@), 0).1 {
            WordMatch::Failed => res is Err,
            WordMatch::NoMatch => res matches Ok(None),
            WordMatch::Matched(i, start, end) => res matches Ok(Some(m)) && m.0 == i && m.1 == start
                && m.2 == end,
        },
{
    let ghost s0 = reader@;
    let ghost views = word_views(words@);
    let mut i: usize = 0;
    while i < words.len()
        invariant
            reader.wf(),
            s0 == old(reader)@,
            views == word_views(words@),
            views.len() == words@.len(),
            i <= words.len(),
            match_words_from(reader@, views, i as nat) == match_words_from(s0, views, 0),
        decreases words.len() - i,
    {
        let w = words[i];
        let w_chars = str_chars(w);
        assert(views[i as int] == w@);
        let peeked = match reader.peek(w_chars.len()) {
            Err(e) => {
                return Err(e);
            },
            Ok(None) => {
                i = i + 1;
                continue ;
            },
            Ok(Some(p)) => p,
        };
        let p_chars = str_chars(peeked.as_str());
        if chars_equal(&p_chars, &w_chars) {
            let start = reader.get_current_position();
            match reader.consume(p_chars.len()) {
                Err(e) => {
                    return Err(e);
                },
                Ok(None) => {
                    return Ok(None);
                },
                Ok(Some(_)) => {},
            }
            let end = reader.get_current_position();
            return Ok(Some((i, start, end)));
        }
        i = i + 1;
    }
    Ok(None)
}

} // verus!
