use vstd::prelude::*;
use vstd::string::StrSliceExecFns;

verus! {

/// A positioned token: start offset, end offset (one past the last
/// character) and line number, all in character units so that callers can
/// slice exact lexemes.
#[derive(Clone, Copy, PartialEq, Eq, Structural, Debug)]
pub enum Token {
    LParen(usize, usize, usize),
    RParen(usize, usize, usize),
    Symbol(usize, usize, usize),
    Integer(usize, usize, usize),
    Error(usize, usize, usize),
}

/// A single-pass cursor over the characters of one source text.  Spaces,
/// tabs and newlines are skipped before each token (newlines count lines);
/// an unrecognised character yields one error token after which the lexer
/// is permanently exhausted.
pub struct Lexer<'a> {
    source: &'a str,
    start: usize,
    end: usize,
    line: usize,
    len: usize,
    has_errored: bool,
}

/// The observable state of a lexer: the text, the cursor, the line count
/// and the sticky failure flag.
pub struct LexerModel {
    pub text: Seq<char>,
    pub end: nat,
    pub line: nat,
    pub errored: bool,
}

/// The characters skipped between tokens.
pub open spec fn is_whitespace_char(c: char) -> bool {
    c == ' ' || c == '\t' || c == '\n'
}

/// An ASCII decimal digit.
pub open spec fn is_digit_char(c: char) -> bool {
    ('0' as u32) <= (c as u32) && (c as u32) <= ('9' as u32)
}

/// The symbol character class: ASCII letters and a fixed punctuation set.
pub open spec fn is_symbol_char(c: char) -> bool {
    (('a' as u32) <= (c as u32) && (c as u32) <= ('z' as u32)) || (('A' as u32) <= (c as u32) && (
    c as u32) <= ('Z' as u32)) || c == '!' || c == '@' || c == '#' || c == '$' || c == '%' || c
        == '^' || c == '&' || c == '*' || c == '<' || c == '>' || c == '`' || c == '~' || c == '/'
        || c == '?' || c == '-' || c == '_' || c == '+' || c == '|' || c == ':' || c == ';'
}

/// The first position at or after `i` that does not hold whitespace.
pub open spec fn ws_end(s: Seq<char>, i: nat) -> nat
    decreases s.len() - i,
    when i <= s.len()
{
    if i < s.len() && is_whitespace_char(s[i as int]) {
        ws_end(s, (i + 1) as nat)
    } else {
        i
    }
}

/// How many newlines `s` holds in the range from `i` up to `j`.
pub open spec fn nl_count(s: Seq<char>, i: nat, j: nat) -> nat
    decreases j - i,
    when i <= j
{
    if i < j {
        (nl_count(s, (i + 1) as nat, j) + (if s[i as int] == '\n' {
            1nat
        } else {
            0nat
        })) as nat
    } else {
        0
    }
}

/// The end of the maximal digit run starting at `i`.
pub open spec fn digits_end(s: Seq<char>, i: nat) -> nat
    decreases s.len() - i,
    when i <= s.len()
{
    if i < s.len() && is_digit_char(s[i as int]) {
        digits_end(s, (i + 1) as nat)
    } else {
        i
    }
}

/// The end of the maximal symbol-character run starting at `i`.
pub open spec fn symbol_end(s: Seq<char>, i: nat) -> nat
    decreases s.len() - i,
    when i <= s.len()
{
    if i < s.len() && is_symbol_char(s[i as int]) {
        symbol_end(s, (i + 1) as nat)
    } else {
        i
    }
}

/// Counting one more character on the right.
proof fn lemma_nl_count_snoc(s: Seq<char>, i: nat, j: nat)
    requires
        i <= j,
        j < s.len(),
    ensures
        nl_count(s, i, (j + 1) as nat) == nl_count(s, i, j) + (if s[j as int] == '\n' {
            1nat
        } else {
            0nat
        }),
    decreases j - i,
{
    if i < j {
        lemma_nl_count_snoc(s, (i + 1) as nat, j);
    } else {
        assert(nl_count(s, (j + 1) as nat, (j + 1) as nat) == 0);
    }
}

/// Whitespace skipping never moves past the end of the text and never
/// beyond a non-whitespace character.
proof fn lemma_ws_end_bounds(s: Seq<char>, i: nat)
    requires
        i <= s.len(),
    ensures
        i <= ws_end(s, i) <= s.len(),
    decreases s.len() - i,
{
    if i < s.len() && is_whitespace_char(s[i as int]) {
        lemma_ws_end_bounds(s, (i + 1) as nat);
    }
}

/// The token-run ends stay within the text.
proof fn lemma_run_end_bounds(s: Seq<char>, i: nat)
    requires
        i <= s.len(),
    ensures
        i <= digits_end(s, i) <= s.len(),
        i <= symbol_end(s, i) <= s.len(),
    decreases s.len() - i,
{
    if i < s.len() {
        lemma_run_end_bounds(s, (i + 1) as nat);
    }
}

/// Membership in the symbol character class.
fn is_symbol(ch: char) -> (r: bool)
    ensures
        r == is_symbol_char(ch),
{
    let c = ch as u32;
    (c >= 'a' as u32 && c <= 'z' as u32) || (c >= 'A' as u32 && c <= 'Z' as u32) || ch == '!' || ch
        == '@' || ch == '#' || ch == '$' || ch == '%' || ch == '^' || ch == '&' || ch == '*' || ch
        == '<' || ch == '>' || ch == '`' || ch == '~' || ch == '/' || ch == '?' || ch == '-' || ch
        == '_' || ch == '+' || ch == '|' || ch == ':' || ch == ';'
}

/// Membership in the digit class.
fn is_digit(ch: char) -> (r: bool)
    ensures
        r == is_digit_char(ch),
{
    let c = ch as u32;
    c >= '0' as u32 && c <= '9' as u32
}

impl<'a> View for Lexer<'a> {
    type V = LexerModel;

    closed spec fn view(&self) -> LexerModel {
        LexerModel {
            text: self.source@,
            end: self.end as nat,
            line: self.line as nat,
            errored: self.has_errored,
        }
    }
}

impl<'a> Lexer<'a> {
    /// The cursor stays within the text and the line count cannot outgrow
    /// it.
    pub closed spec fn wf(&self) -> bool {
        self.len == self.source@.len() && self.end <= self.len && self.line <= self.end
            && self.start <= self.len
    }

    /// A fresh cursor at the start of `source`.
    pub fn new(source: &'a str) -> (r: Self)
        ensures
            r.wf(),
            r@ == (LexerModel { text: source@, end: 0, line: 0, errored: false }),
    {
        let len = source.unicode_len();
        Lexer { source, start: 0, end: 0, line: 0, len, has_errored: false }
    }

    /// Rewinds the cursor onto a new text.  The sticky failure flag is
    /// deliberately left as it was.
    pub fn reset(&mut self, source: &'a str)
        ensures
            final(self).wf(),
            final(self)@ == (LexerModel {
                text: source@,
                end: 0,
                line: 0,
                errored: old(self)@.errored,
            }),
    {
        self.source = source;
        self.start = 0;
        self.end = 0;
        self.line = 0;
        self.len = source.unicode_len();
    }

    /// Consumes one character, or reports the end of the text.
    fn advance(&mut self) -> (r: Option<char>)
        requires
            old(self).wf(),
        ensures
            final(self).wf(),
            final(self)@.text == old(self)@.text,
            final(self)@.line == old(self)@.line,
            final(self)@.errored == old(self)@.errored,
            final(self).start == old(self).start,
            old(self)@.end < old(self)@.text.len() ==> r == Some(
                old(self)@.text[old(self)@.end as int],
            ) && final(self)@.end == old(self)@.end + 1,
            old(self)@.end >= old(self)@.text.len() ==> r == None::<char> && final(self)@.end
                == old(self)@.end,
    {
        if self.end < self.len {
            let c = self.source.get_char(self.end);
            self.end = self.end + 1;
            Some(c)
        } else {
            None
        }
    }

    /// Skips spaces, tabs and newlines, counting the newlines.
    #[verifier::loop_isolation(false)]
    fn skip_whitespace(&mut self)
        requires
            old(self).wf(),
        ensures
            final(self).wf(),
            final(self)@.text == old(self)@.text,
            final(self)@.errored == old(self)@.errored,
            final(self).start == old(self).start,
            final(self)@.end == ws_end(old(self)@.text, old(self)@.end),
            final(self)@.line == old(self)@.line + nl_count(
                old(self)@.text,
                old(self)@.end,
                final(self)@.end,
            ),
    {
        let ghost s = self@.text;
        let ghost e0 = self@.end;
        proof {
            lemma_ws_end_bounds(s, e0);
        }
        loop
            invariant
                self.wf(),
                self@.text == s,
                self@.errored == old(self)@.errored,
                self.start == old(self).start,
                e0 <= self@.end <= s.len(),
                ws_end(s, self@.end) == ws_end(s, e0),
                self@.line == old(self)@.line + nl_count(s, e0, self@.end),
            decreases s.len() - self@.end,
        {
            if self.end >= self.len {
                proof {
                    assert(ws_end(s, self@.end) == self@.end);
                }
                return ;
            }
            let c = self.source.get_char(self.end);
            if c == ' ' || c == '\t' {
                proof {
                    lemma_nl_count_snoc(s, e0, self@.end);
                }
                self.end = self.end + 1;
            } else if c == '\n' {
                proof {
                    lemma_nl_count_snoc(s, e0, self@.end);
                }
                self.line = self.line + 1;
                self.end = self.end + 1;
            } else {
                proof {
                    assert(!is_whitespace_char(s[self@.end as int]));
                    assert(ws_end(s, self@.end) == self@.end);
                }
                return ;
            }
        }
    }

    /// Produces the next token, or `None` at the end of the text or after
    /// an error token was produced (the failure is sticky).
    ///
    /// After skipping whitespace the first character decides: `(` and `)`
    /// give one-character parenthesis tokens, a digit gives an integer
    /// token spanning the maximal digit run, a symbol-class character
    /// gives a symbol token spanning the maximal symbol run, and anything
    /// else gives a one-character error token and exhausts the lexer.
    #[verifier::loop_isolation(false)]
    pub fn next(&mut self) -> (t: Option<Token>)
        requires
            old(self).wf(),
        ensures
            final(self).wf(),
            final(self)@.text == old(self)@.text,
            old(self)@.errored ==> t == None::<Token> && final(self)@ == old(self)@,
            !old(self)@.errored ==> ({
                let s = old(self)@.text;
                let w = ws_end(s, old(self)@.end);
                let ln = (old(self)@.line + nl_count(s, old(self)@.end, w)) as nat;
                final(self)@.line == ln && (if w >= s.len() {
                    t == None::<Token> && final(self)@.end == s.len() && final(self)@.errored
                        == false
                } else if s[w as int] == '(' {
                    t == Some(Token::LParen(w as usize, (w + 1) as usize, ln as usize)) && final(self)@.end == w + 1 && final(self)@.errored == false
                } else if s[w as int] == ')' {
                    t == Some(Token::RParen(w as usize, (w + 1) as usize, ln as usize)) && final(self)@.end == w + 1 && final(self)@.errored == false
                } else if is_digit_char(s[w as int]) {
                    t == Some(
                        Token::Integer(w as usize, digits_end(s, w) as usize, ln as usize),
                    ) && final(self)@.end == digits_end(s, w) && final(self)@.errored == false
                } else if is_symbol_char(s[w as int]) {
                    t == Some(
                        Token::Symbol(w as usize, symbol_end(s, w) as usize, ln as usize),
                    ) && final(self)@.end == symbol_end(s, w) && final(self)@.errored == false
                } else {
                    t == Some(Token::Error(w as usize, (w + 1) as usize, ln as usize)) && final(self)@.end == w + 1 && final(self)@.errored == true
                })
            }),
    {
        if self.has_errored {
            return None;
        }
        let ghost s = self@.text;
        self.skip_whitespace();
        self.start = self.end;
        let ghost w = self@.end;
        proof {
            lemma_ws_end_bounds(s, old(self)@.end);
        }
        let ch = self.advance();
        match ch {
            None => None,
            Some(c) => {
                if c == '(' {
                    Some(Token::LParen(self.start, self.end, self.line))
                } else if c == ')' {
                    Some(Token::RParen(self.start, self.end, self.line))
                } else if is_digit(c) {
                    proof {
                        lemma_run_end_bounds(s, self@.end as nat);
                        assert(digits_end(s, w) == digits_end(s, (w + 1) as nat));
                    }
                    loop
                        invariant
                            self.wf(),
                            self@.text == s,
                            self@.errored == false,
                            w < self@.end <= s.len(),
                            self.start == w,
                            self@.line == old(self)@.line + nl_count(s, old(self)@.end, w),
                            digits_end(s, self@.end) == digits_end(s, w),
                        decreases s.len() - self@.end,
                    {
                        if self.end >= self.len {
                            proof {
                                assert(digits_end(s, self@.end) == self@.end);
                            }
                            return Some(Token::Integer(self.start, self.end, self.line));
                        }
                        let c2 = self.source.get_char(self.end);
                        if is_digit(c2) {
                            self.end = self.end + 1;
                        } else {
                            proof {
                                assert(digits_end(s, self@.end) == self@.end);
                            }
                            return Some(Token::Integer(self.start, self.end, self.line));
                        }
                    }
                } else if is_symbol(c) {
                    proof {
                        lemma_run_end_bounds(s, self@.end as nat);
                        assert(symbol_end(s, w) == symbol_end(s, (w + 1) as nat));
                    }
                    loop
                        invariant
                            self.wf(),
                            self@.text == s,
                            self@.errored == false,
                            w < self@.end <= s.len(),
                            self.start == w,
                            self@.line == old(self)@.line + nl_count(s, old(self)@.end, w),
                            symbol_end(s, self@.end) == symbol_end(s, w),
                        decreases s.len() - self@.end,
                    {
                        if self.end >= self.len {
                            proof {
                                assert(symbol_end(s, self@.end) == self@.end);
                            }
                            return Some(Token::Symbol(self.start, self.end, self.line));
                        }
                        let c2 = self.source.get_char(self.end);
                        if is_symbol(c2) {
                            self.end = self.end + 1;
                        } else {
                            proof {
                                assert(symbol_end(s, self@.end) == self@.end);
                            }
                            return Some(Token::Symbol(self.start, self.end, self.line));
                        }
                    }
                } else {
                    self.has_errored = true;
                    Some(Token::Error(self.start, self.start + 1, self.line))
                }
            },
        }
    }
}

} // verus!
