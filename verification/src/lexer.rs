//! The scanning loop ("Lexer"): drives the whole input through
//! whitespace-skipping and rule-table queries, accumulating tokens and
//! tracking the current line and column, and produces either the full token
//! sequence or a lexical error at the first unmatched character.

use vstd::prelude::*;

use crate::rules::Lexikon;
use crate::rules::RuleV;
use crate::rules::find_spec;
use crate::rules::lemma_find_spec_none;
use crate::text::dec_seq;
use crate::text::dec_string;
use crate::token::Token;
use crate::token::TokenV;

verus! {

/// A lexical failure: no rule matched at the current scan position while
/// input remained. It carries one formatted message naming the full source,
/// the numeric offset of the failure, and the unmatched remainder.
#[derive(Debug)]
pub struct LexError(pub String);

impl View for LexError {
    type V = Seq<char>;

    open spec fn view(&self) -> Seq<char> {
        self.0@
    }
}

impl Clone for LexError {
    fn clone(&self) -> (r: LexError)
        ensures
            r@ == self@,
    {
        LexError(self.0.clone())
    }
}

impl LexError {
    /// The error's message.
    pub fn message(&self) -> (r: String)
        ensures
            r@ == self@,
    {
        self.0.clone()
    }
}

impl PartialEq for LexError {
    fn eq(&self, other: &LexError) -> (r: bool) {
        self.0 == other.0
    }
}

impl Eq for LexError {}

impl vstd::std_specs::cmp::PartialEqSpecImpl for LexError {
    open spec fn obeys_eq_spec() -> bool {
        true
    }

    open spec fn eq_spec(&self, other: &LexError) -> bool {
        self.0@ == other.0@
    }
}

/// ASCII whitespace, as the scanner skips it between tokens.
pub open spec fn is_ws(c: char) -> bool {
    c == ' ' || c == '\t' || c == '\n' || c == '\r' || c == '\x0c'
}

fn is_ws_char(c: char) -> (r: bool)
    ensures
        r == is_ws(c),
{
    c == ' ' || c == '\t' || c == '\n' || c == '\r' || c == '\x0c'
}

/// The message of the error raised at offset `pos` of `input`.
pub open spec fn err_msg(input: Seq<char>, pos: int) -> Seq<char> {
    "Failed to lex '"@ + input + "' at position "@ + dec_seq(pos as nat) + "; remaining '"@
        + input.subrange(pos, input.len() as int) + "'"@
}

fn build_err_msg(input: &str, pos: usize) -> (r: String)
    requires
        pos <= input@.len(),
    ensures
        r@ == err_msg(input@, pos as int),
{
    let mut s = String::from_str("Failed to lex '");
    s.append(input);
    s.append("' at position ");
    let d = dec_string(pos as u64);
    s.append(d.as_str());
    s.append("; remaining '");
    let n = input.unicode_len();
    s.append(input.substring_char(pos, n));
    s.append("'");
    s
}

/// What lexing yields from offset `pos` of `input` on, at the current
/// `line` and `col`: whitespace is skipped character by character (a line
/// feed opens the next line, anything else advances the column), at each
/// other position the rule table answers the longest-match query over the
/// remainder, a matched token is followed by the rest from `pos` plus the
/// match length (the column advances by the match length, so a match with
/// embedded line feeds keeps its start line — an accepted limitation), and
/// a position where no rule matches fails with the message naming it.
pub open spec fn lex_from(
    rules: Seq<RuleV>,
    input: Seq<char>,
    pos: int,
    line: int,
    col: int,
) -> Result<Seq<TokenV>, Seq<char>>
    decreases input.len() - pos,
    via lex_from_dec
{
    if pos < 0 || pos >= input.len() {
        Ok(Seq::<TokenV>::empty())
    } else if is_ws(input[pos]) {
        if input[pos] == '\n' {
            lex_from(rules, input, pos + 1, line + 1, 0)
        } else {
            lex_from(rules, input, pos + 1, line, col + 1)
        }
    } else {
        let rem = input.subrange(pos, input.len() as int);
        let f = find_spec(rules, rem, (line, col), input);
        match f.1 {
            None => Err(err_msg(input, pos)),
            Some(t) => if f.0 == 0 {
                Err(err_msg(input, pos))
            } else {
                match lex_from(rules, input, pos + f.0, line, col + f.0) {
                    Ok(rest) => Ok(seq![t] + rest),
                    Err(e) => Err(e),
                }
            },
        }
    }
}

#[via_fn]
proof fn lex_from_dec(rules: Seq<RuleV>, input: Seq<char>, pos: int, line: int, col: int) {
    if 0 <= pos < input.len() && !is_ws(input[pos]) {
        crate::rules::lemma_find_spec_bounded(
            rules,
            input.subrange(pos, input.len() as int),
            (line, col),
            input,
        );
    }
}

/// What lexing a whole input yields: the token sequence, or the message of
/// the error at the first unmatched position.
pub open spec fn lex_spec(rules: Seq<RuleV>, input: Seq<char>) -> Result<Seq<TokenV>, Seq<char>> {
    lex_from(rules, input, 0, 0, 0)
}

/// The views of a sequence of tokens.
pub open spec fn toks_view(s: Seq<Token>) -> Seq<TokenV> {
    s.map_values(|t: Token| t@)
}

/// One lex invocation's state: the tokens collected so far, the rule
/// table, the scan position (in characters) with its line and column, and
/// the full input.
pub struct Lexer {
    pub tokens: Vec<Token>,
    pub lexikon: Lexikon,
    pub position: usize,
    pub col: usize,
    pub line: usize,
    pub input: String,
}

impl Lexer {
    /// The state is sound: the position lies inside the input, and line
    /// and column never outrun the position.
    pub open spec fn wf(&self) -> bool {
        &&& self.position <= self.input@.len()
        &&& self.col <= self.position
        &&& self.line <= self.position
    }

    /// What finishing the scan from this state must yield: the tokens
    /// already collected followed by whatever `lex_from` gives from the
    /// current position, or that error.
    pub open spec fn remaining_spec(&self) -> Result<Seq<TokenV>, Seq<char>> {
        match lex_from(
            self.lexikon@,
            self.input@,
            self.position as int,
            self.line as int,
            self.col as int,
        ) {
            Ok(rest) => Ok(toks_view(self.tokens@) + rest),
            Err(e) => Err(e),
        }
    }

    /// A fresh scan of `input` with the rule table `lexikon`.
    pub fn new(input: &str, lexikon: Lexikon) -> (r: Lexer)
        ensures
            r.tokens@.len() == 0,
            r.lexikon == lexikon,
            r.position == 0,
            r.col == 0,
            r.line == 0,
            r.input@ == input@,
            r.wf(),
            r.remaining_spec() == lex_spec(lexikon@, input@),
    {
        let r = Lexer {
            tokens: Vec::new(),
            lexikon,
            position: 0,
            col: 0,
            line: 0,
            input: input.to_owned(),
        };
        proof {
            if let Ok(rest) = lex_from(r.lexikon@, r.input@, 0, 0, 0) {
                assert(toks_view(r.tokens@) + rest =~= rest);
            }
        }
        r
    }

    /// Advance past ASCII whitespace: a line feed opens the next line and
    /// resets the column, every other whitespace character advances the
    /// column by one. Stops at the first non-whitespace character or at the
    /// end of the input; what the scan must yield is unchanged.
    fn eat_whitespace(&mut self)
        requires
            old(self).wf(),
        ensures
            final(self).wf(),
            final(self).tokens == old(self).tokens,
            final(self).lexikon == old(self).lexikon,
            final(self).input == old(self).input,
            final(self).position >= old(self).position,
            final(self).position < final(self).input@.len() ==> !is_ws(
                final(self).input@[final(self).position as int],
            ),
            final(self).remaining_spec() == old(self).remaining_spec(),
    {
        let n = self.input.as_str().unicode_len();
        while self.position < n
            invariant
                self.wf(),
                n == self.input@.len(),
                self.tokens == old(self).tokens,
                self.lexikon == old(self).lexikon,
                self.input == old(self).input,
                self.position >= old(self).position,
                self.remaining_spec() == old(self).remaining_spec(),
            decreases n - self.position,
        {
            let c = self.input.as_str().get_char(self.position);
            if !is_ws_char(c) {
                return;
            }
            let ghost prev = *self;
            if c == '\n' {
                self.line = self.line + 1;
                self.col = 0;
            } else {
                self.col = self.col + 1;
            }
            self.position = self.position + 1;
            proof {
                assert(lex_from(
                    prev.lexikon@,
                    prev.input@,
                    prev.position as int,
                    prev.line as int,
                    prev.col as int,
                ) == lex_from(
                    self.lexikon@,
                    self.input@,
                    self.position as int,
                    self.line as int,
                    self.col as int,
                ));
            }
        }
    }

    /// Scan the whole input: skip whitespace, take the rule table's longest
    /// match at each position and its token, and stop at the first position
    /// where no rule matches, with the error naming that offset and the
    /// unmatched remainder. Every pass of the loop consumes at least one
    /// character, so the scan terminates on any input and any rule table
    /// (the loop's `decreases` is that bound).
    pub fn lex(self) -> (r: Result<Vec<Token>, LexError>)
        requires
            self.wf(),
        ensures
            (match r {
                Ok(toks) => self.remaining_spec() == Ok::<Seq<TokenV>, Seq<char>>(
                    toks_view(toks@),
                ),
                Err(e) => self.remaining_spec() == Err::<Seq<TokenV>, Seq<char>>(e@),
            }),
    {
        let ghost orig = self;
        let mut me = self;
        let n = me.input.as_str().unicode_len();
        while me.position != n
            invariant
                me.wf(),
                n == me.input@.len(),
                orig == self,
                me.remaining_spec() == orig.remaining_spec(),
            decreases me.input@.len() - me.position,
        {
            me.eat_whitespace();
            let ghost m1 = me;
            let rem = me.input.as_str().substring_char(me.position, n);
            let (len, res) = me.lexikon.find_longest_match(
                rem,
                (me.line, me.col),
                me.input.as_str(),
            );
            let ghost f = find_spec(m1.lexikon@, rem@, (m1.line as int, m1.col as int), m1.input@);
            match res {
                Some(t) => {
                    proof {
                        lemma_find_spec_none(
                            m1.lexikon@,
                            rem@,
                            (m1.line as int, m1.col as int),
                            m1.input@,
                        );
                        assert(f.0 > 0);
                    }
                    me.tokens.push(t);
                    me.position = me.position + len;
                    me.col = me.col + len;
                    proof {
                        let rules = m1.lexikon@;
                        let input = m1.input@;
                        assert(rem@ == input.subrange(m1.position as int, input.len() as int));
                        assert(toks_view(m1.tokens@.push(t)) =~= toks_view(m1.tokens@) + seq![t@]);
                        match lex_from(
                            rules,
                            input,
                            m1.position + f.0,
                            m1.line as int,
                            m1.col + f.0,
                        ) {
                            Ok(rest) => {
                                assert(lex_from(
                                    rules,
                                    input,
                                    m1.position as int,
                                    m1.line as int,
                                    m1.col as int,
                                ) == Ok::<Seq<TokenV>, Seq<char>>(seq![t@] + rest));
                                assert((toks_view(m1.tokens@) + seq![t@]) + rest =~= toks_view(
                                    m1.tokens@,
                                ) + (seq![t@] + rest));
                            },
                            Err(_) => {},
                        }
                    }
                },
                None => {
                    if me.position == n {
                        proof {
                            assert(lex_from(
                                me.lexikon@,
                                me.input@,
                                me.position as int,
                                me.line as int,
                                me.col as int,
                            ) == Ok::<Seq<TokenV>, Seq<char>>(Seq::<TokenV>::empty()));
                            assert(toks_view(me.tokens@) + Seq::<TokenV>::empty() =~= toks_view(
                                me.tokens@,
                            ));
                        }
                        return Ok(me.tokens);
                    }
                    let msg = build_err_msg(me.input.as_str(), me.position);
                    proof {
                        assert(rem@ == me.input@.subrange(
                            me.position as int,
                            me.input@.len() as int,
                        ));
                        assert(f.1 is None);
                        assert(!is_ws(me.input@[me.position as int]));
                        assert(lex_from(
                            me.lexikon@,
                            me.input@,
                            me.position as int,
                            me.line as int,
                            me.col as int,
                        ) == Err::<Seq<TokenV>, Seq<char>>(err_msg(
                            me.input@,
                            me.position as int,
                        )));
                    }
                    return Err(LexError(msg));
                },
            }
        }
        proof {
            assert(toks_view(me.tokens@) + Seq::<TokenV>::empty() =~= toks_view(me.tokens@));
        }
        Ok(me.tokens)
    }
}

/// Determinism: lexing is a function of the rule table and the input alone,
/// so any two results drawn from the same table and the same input — two
/// runs of the scan, by `lex`'s contract — are the same token sequence or
/// the same error.
pub proof fn lemma_lex_deterministic(
    rules: Seq<RuleV>,
    input: Seq<char>,
    r1: Result<Seq<TokenV>, Seq<char>>,
    r2: Result<Seq<TokenV>, Seq<char>>,
)
    requires
        r1 == lex_spec(rules, input),
        r2 == lex_spec(rules, input),
    ensures
        r1 == r2,
{
}

proof fn lemma_ws_from(rules: Seq<RuleV>, input: Seq<char>, pos: int, line: int, col: int)
    requires
        0 <= pos,
        forall|i: int| pos <= i < input.len() ==> is_ws(input[i]),
    ensures
        lex_from(rules, input, pos, line, col) == Ok::<Seq<TokenV>, Seq<char>>(
            Seq::<TokenV>::empty(),
        ),
    decreases input.len() - pos,
{
    if pos < input.len() {
        if input[pos] == '\n' {
            lemma_ws_from(rules, input, pos + 1, line + 1, 0);
        } else {
            lemma_ws_from(rules, input, pos + 1, line, col + 1);
        }
    }
}

/// An input of nothing but whitespace — the empty input among them — lexes
/// to the empty token sequence under any rule table.
pub proof fn lemma_whitespace_only(rules: Seq<RuleV>, input: Seq<char>)
    requires
        forall|i: int| 0 <= i < input.len() ==> is_ws(input[i]),
    ensures
        lex_spec(rules, input) == Ok::<Seq<TokenV>, Seq<char>>(Seq::<TokenV>::empty()),
{
    lemma_ws_from(rules, input, 0, 0, 0);
}

} // verus!
