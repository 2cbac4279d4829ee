//! The rule table ("Lexikon"): an ordered list of (matcher, token name)
//! pairs, answering longest-match queries against the front of a slice of
//! the input. Among the rules that match at the start of the slice, the one
//! with the greatest match length wins; on a tie of lengths the rule
//! declared earlier wins, because a later candidate replaces the current
//! best only on a strictly greater length.

use vstd::prelude::*;

use crate::span::Span;
use crate::span::SpanV;
use crate::text::is_char_prefix;
use crate::token::Token;
use crate::token::TokenV;

verus! {

/// What one rule recognizes, anchored at the start of the remaining input:
/// either a fixed string, matched exactly, or a regular expression pattern.
#[derive(Debug)]
pub enum Matcher {
    Terminal(String),
    Literal(String),
}

/// The mathematical value of a `Matcher`.
pub ghost enum MatcherV {
    Terminal(Seq<char>),
    Literal(Seq<char>),
}

impl View for Matcher {
    type V = MatcherV;

    open spec fn view(&self) -> MatcherV {
        match self {
            Matcher::Terminal(s) => MatcherV::Terminal(s@),
            Matcher::Literal(p) => MatcherV::Literal(p@),
        }
    }
}

/// One token rule: a matcher and the name of the token variant its matches
/// build. A `Terminal` rule builds a token without a value; a `Literal`
/// rule builds a token whose value is the matched text.
#[derive(Debug)]
pub struct Rule {
    pub name: String,
    pub matcher: Matcher,
}

/// The mathematical value of a `Rule`.
#[verifier::ext_equal]
pub ghost struct RuleV {
    pub name: Seq<char>,
    pub matcher: MatcherV,
}

impl View for Rule {
    type V = RuleV;

    open spec fn view(&self) -> RuleV {
        RuleV { name: self.name@, matcher: self.matcher@ }
    }
}

/// What the regular-expression engine answers when `pattern` is run over
/// `text` from its start: `None` when the pattern does not compile or
/// nothing matches, otherwise the byte offset of the leftmost match and the
/// matched text. The answer is a function of the two arguments alone.
pub uninterp spec fn rx_find(pattern: Seq<char>, text: Seq<char>) -> Option<(nat, Seq<char>)>;

/// Relies on regex::Regex::new and regex::Regex::captures_at: the result is
/// the leftmost match of `pattern` in `text` at or after offset 0 (`None`
/// when the pattern does not compile or nothing matches), as the pair of
/// its starting byte offset and its text. regex::Match guarantees that the
/// matched text lies at byte offsets start..end of the haystack, so a match
/// with start offset 0 is a prefix of `text`.
#[verifier::external_body]
fn rx_find_at_start<'a>(pattern: &str, text: &'a str) -> (r: Option<(usize, &'a str)>)
    ensures
        (match r {
            Some(m) => rx_find(pattern@, text@) == Some((m.0 as nat, m.1@)),
            None => rx_find(pattern@, text@) is None,
        }),
        (match r {
            Some(m) => m.0 == 0 ==> m.1@.len() <= text@.len() && m.1@ == text@.subrange(
                0,
                m.1@.len() as int,
            ),
            None => true,
        }),
{
    let re = match regex::Regex::new(pattern) {
        Ok(re) => re,
        Err(_) => return None,
    };
    let caps = match re.captures_at(text, 0) {
        Some(caps) => caps,
        None => return None,
    };
    match caps.get(0) {
        Some(m) => Some((m.start(), m.as_str())),
        None => None,
    }
}

/// How many characters of the front of `text` the matcher consumes: the
/// length of its anchored match there, and zero when it does not match at
/// the very start (a match further in is discarded).
pub open spec fn match_len(m: MatcherV, text: Seq<char>) -> nat {
    match m {
        MatcherV::Terminal(s) => if s.len() <= text.len() && text.subrange(0, s.len() as int)
            == s {
            s.len()
        } else {
            0
        },
        MatcherV::Literal(p) => match rx_find(p, text) {
            Some(f) => if f.0 == 0 && f.1.len() <= text.len() {
                f.1.len()
            } else {
                0
            },
            None => 0,
        },
    }
}

/// The token that `rule` builds from a match of `len` characters at the
/// front of `text`, at position `pos` (line, column) of the source `src`:
/// its span runs from `pos` to the same line `len` columns further, and a
/// `Literal` rule carries the matched text as its value.
pub open spec fn token_of(rule: RuleV, text: Seq<char>, len: nat, pos: (int, int), src: Seq<
    char,
>) -> TokenV {
    TokenV {
        name: rule.name,
        position: SpanV { start: pos, end: (pos.0, pos.1 + len), source: src },
        value: match rule.matcher {
            MatcherV::Terminal(_) => None,
            MatcherV::Literal(_) => Some(text.subrange(0, len as int)),
        },
    }
}

/// The best candidate after the rules from index `i` on have been offered,
/// starting from the current best `cur`: a rule replaces the current best
/// only when its match is strictly longer.
pub open spec fn find_from(
    rules: Seq<RuleV>,
    text: Seq<char>,
    pos: (int, int),
    src: Seq<char>,
    i: int,
    cur: (nat, Option<TokenV>),
) -> (nat, Option<TokenV>)
    decreases rules.len() - i,
{
    if i < 0 || i >= rules.len() {
        cur
    } else {
        let l = match_len(rules[i].matcher, text);
        let next = if l > cur.0 {
            (l, Some(token_of(rules[i], text, l, pos, src)))
        } else {
            cur
        };
        find_from(rules, text, pos, src, i + 1, next)
    }
}

/// The longest-match answer of the whole table over the front of `text`:
/// the winning length and the winner's token, or `(0, None)` when no rule
/// matches a non-empty prefix.
pub open spec fn find_spec(rules: Seq<RuleV>, text: Seq<char>, pos: (int, int), src: Seq<
    char,
>) -> (nat, Option<TokenV>) {
    find_from(rules, text, pos, src, 0, (0nat, None))
}

/// The view of an optional token.
pub open spec fn opt_token_view(t: Option<Token>) -> Option<TokenV> {
    match t {
        Some(t) => Some(t@),
        None => None,
    }
}

proof fn lemma_find_from_bounded(
    rules: Seq<RuleV>,
    text: Seq<char>,
    pos: (int, int),
    src: Seq<char>,
    i: int,
    cur: (nat, Option<TokenV>),
)
    requires
        cur.0 <= text.len(),
    ensures
        find_from(rules, text, pos, src, i, cur).0 <= text.len(),
    decreases rules.len() - i,
{
    if 0 <= i < rules.len() {
        let l = match_len(rules[i].matcher, text);
        let next = if l > cur.0 {
            (l, Some(token_of(rules[i], text, l, pos, src)))
        } else {
            cur
        };
        lemma_find_from_bounded(rules, text, pos, src, i + 1, next);
    }
}

/// The table never reports a match longer than the slice it was asked about.
pub proof fn lemma_find_spec_bounded(
    rules: Seq<RuleV>,
    text: Seq<char>,
    pos: (int, int),
    src: Seq<char>,
)
    ensures
        find_spec(rules, text, pos, src).0 <= text.len(),
{
    lemma_find_from_bounded(rules, text, pos, src, 0, (0nat, None));
}

proof fn lemma_find_from_none(
    rules: Seq<RuleV>,
    text: Seq<char>,
    pos: (int, int),
    src: Seq<char>,
    i: int,
    cur: (nat, Option<TokenV>),
)
    requires
        cur.0 == 0 <==> cur.1 is None,
    ensures
        find_from(rules, text, pos, src, i, cur).0 == 0 <==> find_from(
            rules,
            text,
            pos,
            src,
            i,
            cur,
        ).1 is None,
    decreases rules.len() - i,
{
    if 0 <= i < rules.len() {
        let l = match_len(rules[i].matcher, text);
        let next = if l > cur.0 {
            (l, Some(token_of(rules[i], text, l, pos, src)))
        } else {
            cur
        };
        lemma_find_from_none(rules, text, pos, src, i + 1, next);
    }
}

/// The table reports a token exactly when it reports a positive length.
pub proof fn lemma_find_spec_none(
    rules: Seq<RuleV>,
    text: Seq<char>,
    pos: (int, int),
    src: Seq<char>,
)
    ensures
        find_spec(rules, text, pos, src).0 == 0 <==> find_spec(rules, text, pos, src).1 is None,
{
    lemma_find_from_none(rules, text, pos, src, 0, (0nat, None));
}

proof fn lemma_find_from_ge(
    rules: Seq<RuleV>,
    text: Seq<char>,
    pos: (int, int),
    src: Seq<char>,
    i: int,
    cur: (nat, Option<TokenV>),
    k: int,
)
    requires
        0 <= i <= k < rules.len(),
    ensures
        find_from(rules, text, pos, src, i, cur).0 >= match_len(rules[k].matcher, text),
        find_from(rules, text, pos, src, i, cur).0 >= cur.0,
    decreases rules.len() - i,
{
    let l = match_len(rules[i].matcher, text);
    let next = if l > cur.0 {
        (l, Some(token_of(rules[i], text, l, pos, src)))
    } else {
        cur
    };
    if i < k {
        lemma_find_from_ge(rules, text, pos, src, i + 1, next, k);
    } else {
        lemma_find_from_ge_cur(rules, text, pos, src, i + 1, next);
    }
}

proof fn lemma_find_from_ge_cur(
    rules: Seq<RuleV>,
    text: Seq<char>,
    pos: (int, int),
    src: Seq<char>,
    i: int,
    cur: (nat, Option<TokenV>),
)
    ensures
        find_from(rules, text, pos, src, i, cur).0 >= cur.0,
    decreases rules.len() - i,
{
    if 0 <= i < rules.len() {
        let l = match_len(rules[i].matcher, text);
        let next = if l > cur.0 {
            (l, Some(token_of(rules[i], text, l, pos, src)))
        } else {
            cur
        };
        lemma_find_from_ge_cur(rules, text, pos, src, i + 1, next);
    }
}

/// Maximal munch: the reported match length is at least the match length
/// of every rule in the table, so a rule that could consume more is never
/// passed over for a shorter match.
pub proof fn lemma_longest_match(
    rules: Seq<RuleV>,
    text: Seq<char>,
    pos: (int, int),
    src: Seq<char>,
    k: int,
)
    requires
        0 <= k < rules.len(),
    ensures
        find_spec(rules, text, pos, src).0 >= match_len(rules[k].matcher, text),
{
    lemma_find_from_ge(rules, text, pos, src, 0, (0nat, None), k);
}

proof fn lemma_find_from_stable(
    rules: Seq<RuleV>,
    text: Seq<char>,
    pos: (int, int),
    src: Seq<char>,
    i: int,
    cur: (nat, Option<TokenV>),
)
    requires
        forall|k: int| i <= k < rules.len() ==> match_len(rules[k].matcher, text) <= cur.0,
    ensures
        find_from(rules, text, pos, src, i, cur) == cur,
    decreases rules.len() - i,
{
    if 0 <= i < rules.len() {
        lemma_find_from_stable(rules, text, pos, src, i + 1, cur);
    }
}

proof fn lemma_find_from_wins(
    rules: Seq<RuleV>,
    text: Seq<char>,
    pos: (int, int),
    src: Seq<char>,
    i: int,
    cur: (nat, Option<TokenV>),
    w: int,
)
    requires
        0 <= i <= w < rules.len(),
        cur.0 < match_len(rules[w].matcher, text),
        forall|k: int| i <= k < w ==> match_len(rules[k].matcher, text) < match_len(
            rules[w].matcher,
            text,
        ),
        forall|k: int| w < k < rules.len() ==> match_len(rules[k].matcher, text) <= match_len(
            rules[w].matcher,
            text,
        ),
    ensures
        find_from(rules, text, pos, src, i, cur) == (
            match_len(rules[w].matcher, text),
            Some(token_of(rules[w], text, match_len(rules[w].matcher, text), pos, src)),
        ),
    decreases rules.len() - i,
{
    let l = match_len(rules[i].matcher, text);
    let next = if l > cur.0 {
        (l, Some(token_of(rules[i], text, l, pos, src)))
    } else {
        cur
    };
    if i == w {
        lemma_find_from_stable(rules, text, pos, src, i + 1, next);
    } else {
        lemma_find_from_wins(rules, text, pos, src, i + 1, next, w);
    }
}

/// Longest match, ties broken by declaration order: when rule `w` matches a
/// non-empty prefix, every earlier rule matches strictly shorter and no
/// later rule matches longer, then the table's answer is exactly rule `w`'s
/// length and rule `w`'s token — the earlier of two equally long matches is
/// the one whose builder runs.
pub proof fn lemma_first_longest_wins(
    rules: Seq<RuleV>,
    text: Seq<char>,
    pos: (int, int),
    src: Seq<char>,
    w: int,
)
    requires
        0 <= w < rules.len(),
        match_len(rules[w].matcher, text) > 0,
        forall|k: int| 0 <= k < w ==> match_len(rules[k].matcher, text) < match_len(
            rules[w].matcher,
            text,
        ),
        forall|k: int| w < k < rules.len() ==> match_len(rules[k].matcher, text) <= match_len(
            rules[w].matcher,
            text,
        ),
    ensures
        find_spec(rules, text, pos, src) == (
            match_len(rules[w].matcher, text),
            Some(token_of(rules[w], text, match_len(rules[w].matcher, text), pos, src)),
        ),
{
    lemma_find_from_wins(rules, text, pos, src, 0, (0nat, None), w);
}

/// How many characters `matcher` consumes at the front of `text`.
fn match_len_of(matcher: &Matcher, text: &str) -> (len: usize)
    ensures
        len as nat == match_len(matcher@, text@),
        len <= text@.len(),
{
    match matcher {
        Matcher::Terminal(s) => {
            if is_char_prefix(s.as_str(), text) {
                s.as_str().unicode_len()
            } else {
                0
            }
        },
        Matcher::Literal(p) => {
            match rx_find_at_start(p.as_str(), text) {
                Some((start, m)) => {
                    if start == 0 {
                        m.unicode_len()
                    } else {
                        0
                    }
                },
                None => 0,
            }
        },
    }
}

/// The ordered rule table of one lex invocation.
#[derive(Debug)]
pub struct Lexikon {
    pub rules: Vec<Rule>,
}

impl View for Lexikon {
    type V = Seq<RuleV>;

    open spec fn view(&self) -> Seq<RuleV> {
        self.rules@.map_values(|r: Rule| r@)
    }
}

impl Lexikon {
    /// Build the table from the caller's rules, kept in the given order.
    pub fn new(rules: Vec<Rule>) -> (r: Lexikon)
        ensures
            r@ == rules@.map_values(|x: Rule| x@),
    {
        Lexikon { rules }
    }

    /// Among the rules that match at the very start of `remaining`, pick
    /// the one with the longest match — the earliest such rule on a tie of
    /// lengths — and build its token at `position` (line, column) of the
    /// source `source`; report `(0, None)` when no rule matches a
    /// non-empty prefix.
    pub fn find_longest_match(
        &self,
        remaining: &str,
        position: (usize, usize),
        source: &str,
    ) -> (r: (usize, Option<Token>))
        requires
            position.1 + remaining@.len() <= usize::MAX,
        ensures
            (r.0 as nat, opt_token_view(r.1)) == find_spec(
                self@,
                remaining@,
                (position.0 as int, position.1 as int),
                source@,
            ),
            r.0 <= remaining@.len(),
    {
        let ghost posv = (position.0 as int, position.1 as int);
        let mut best_len: usize = 0;
        let mut best: Option<Token> = None;
        let n = self.rules.len();
        let mut i: usize = 0;
        while i < n
            invariant
                i <= n,
                n == self.rules.len(),
                posv == (position.0 as int, position.1 as int),
                position.1 + remaining@.len() <= usize::MAX,
                best_len <= remaining@.len(),
                find_spec(self@, remaining@, posv, source@) == find_from(
                    self@,
                    remaining@,
                    posv,
                    source@,
                    i as int,
                    (best_len as nat, opt_token_view(best)),
                ),
            decreases n - i,
        {
            proof {
                assert(self@[i as int] == self.rules@[i as int]@);
            }
            let rule = &self.rules[i];
            let l = match_len_of(&rule.matcher, remaining);
            if l > best_len {
                let value = match &rule.matcher {
                    Matcher::Terminal(_) => None,
                    Matcher::Literal(_) => Some(remaining.substring_char(0, l).to_owned()),
                };
                let tok = Token {
                    name: rule.name.clone(),
                    position: Span {
                        start: position,
                        end: (position.0, position.1 + l),
                        source: source.to_owned(),
                    },
                    value,
                };
                proof {
                    assert(tok@.position =~= token_of(
                        self@[i as int],
                        remaining@,
                        l as nat,
                        posv,
                        source@,
                    ).position);
                    assert(tok@ =~= token_of(self@[i as int], remaining@, l as nat, posv, source@));
                }
                best_len = l;
                best = Some(tok);
            }
            i = i + 1;
        }
        (best_len, best)
    }
}

} // verus!
