use vstd::prelude::*;

verus! {

#[verifier::external_type_specification]
#[verifier::external_body]
pub struct ExRegex(regex::Regex);

/// Name for whether `regex::Regex::new` accepts `pattern`.
pub uninterp spec fn pattern_compiles(pattern: Seq<char>) -> bool;

/// Name for what `regex::Regex::is_match` answers for the regex compiled from
/// `pattern` and the haystack `text`.
pub uninterp spec fn pattern_matches(pattern: Seq<char>, text: Seq<char>) -> bool;

/// What the class `[A-Za-z0-9_]` holds: an ASCII letter, digit or underscore.
pub open spec fn is_ascii_word_char(c: char) -> bool {
    let u = c as u32;
    (65 <= u <= 90) || (97 <= u <= 122) || (48 <= u <= 57) || u == 95
}

/// What the class `[0-9-]` holds: an ASCII digit or a minus sign.
pub open spec fn is_ascii_digit_or_minus(c: char) -> bool {
    let u = c as u32;
    (48 <= u <= 57) || u == 45
}

/// A compiled regular expression together with the pattern it was compiled from.
pub struct CharPattern {
    regex: regex::Regex,
    source: Ghost<Seq<char>>,
}

impl CharPattern {
    /// The pattern this expression was compiled from.
    pub closed spec fn source(&self) -> Seq<char> {
        self.source@
    }

    /// Calls `regex::Regex::new(pattern)`. The contract claims that it succeeds
    /// exactly when the pattern compiles (a name for that outcome), that the
    /// character classes the lexer uses, `^[A-Za-z0-9_]$`, `[0-9-]` and
    /// `[\d\.-]`, compile, and that the result remembers the pattern.
    #[verifier::external_body]
    pub(crate) fn compile(pattern: &str) -> (res: Option<CharPattern>)
        ensures
            res is Some <==> pattern_compiles(pattern@),
            pattern@ == "^[A-Za-z0-9_]$"@ || pattern@ == "[0-9-]"@ || pattern@ == "[\\d\\.-]"@
                ==> res is Some,
            res matches Some(p) ==> p.source() == pattern@,
    {
        match regex::Regex::new(pattern) {
            Ok(regex) => Some(CharPattern { regex, source: Ghost(pattern@) }),
            Err(_) => None,
        }
    }

    /// Calls `regex::Regex::is_match` on the one-character text `c`. The
    /// contract claims that the answer is the named result for this pattern and
    /// this text, and for the two plain ASCII classes what they hold.
    #[verifier::external_body]
    pub(crate) fn matches_char(&self, c: char) -> (res: bool)
        ensures
            res == pattern_matches(self.source(), seq![c]),
            self.source() == "^[A-Za-z0-9_]$"@ ==> (res <==> is_ascii_word_char(c)),
            self.source() == "[0-9-]"@ ==> (res <==> is_ascii_digit_or_minus(c)),
    {
        self.regex.is_match(&c.to_string())
    }
}

} // verus!
