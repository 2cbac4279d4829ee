//! The position model: a `Span` marks a range of the source text by a pair
//! of zero-based (line, column) positions and keeps the whole source so
//! that it can render an excerpt on its own.

use vstd::prelude::*;

use crate::text::dec_seq;
use crate::text::dec_string;
use crate::text::lines_of;
use crate::text::space_fill;
use crate::text::spaces;
use crate::text::split_lines;

verus! {

/// A range of the source text. `start` and `end` are zero-based
/// (line, column) pairs, counted in characters from the start of the
/// corresponding line; `source` is the entire original input, retained so
/// the span can render itself without external context.
#[derive(Debug)]
pub struct Span {
    pub start: (usize, usize),
    pub end: (usize, usize),
    pub source: String,
}

impl Clone for Span {
    fn clone(&self) -> (r: Span)
        ensures
            r@ == self@,
    {
        Span {
            start: (self.start.0, self.start.1),
            end: (self.end.0, self.end.1),
            source: self.source.clone(),
        }
    }
}

/// The mathematical value of a `Span`.
#[verifier::ext_equal]
pub ghost struct SpanV {
    pub start: (int, int),
    pub end: (int, int),
    pub source: Seq<char>,
}

impl View for Span {
    type V = SpanV;

    open spec fn view(&self) -> SpanV {
        SpanV {
            start: (self.start.0 as int, self.start.1 as int),
            end: (self.end.0 as int, self.end.1 as int),
            source: self.source@,
        }
    }
}

impl Span {
    /// Render a human-readable excerpt of the source around this span: a
    /// blank gutter line, the line before the span for context, the span's
    /// first line with the spanned range painted red, every further spanned
    /// line painted whole, and a caret under the end column pointing at
    /// `msg`, with the gutter sized to fit the largest printed line number.
    /// Whether the painted pieces carry colour codes depends on the
    /// environment, so the result is the excerpt with some sequence of
    /// painted pieces — one for the first line and one per further spanned
    /// line — each a red-painted rendering of exactly the spanned text.
    #[verifier::loop_isolation(false)]
    pub fn to_string(&self, msg: &str) -> (r: String)
        requires
            renderable(self@),
            self@.end.0 + 2 <= usize::MAX,
        ensures
            exists|painted: Seq<Seq<char>>|
                painted.len() == 1 + excerpt_mid_count(self@) && (forall|k: int|
                    0 <= k < painted.len() ==> painted_ok(
                        painted[k],
                        excerpt_piece(self@, k),
                    )) && r@ == excerpt_spec(self@, msg@, painted),
    {
        let lines = split_lines(self.source.as_str());
        proof {
            assert(lines@.map_values(|l: String| l@).len() == lines@.len());
        }
        let n_lines = lines.len();
        let line = self.start.0;
        proof {
            assert(line < n_lines);
        }
        let label = if self.start.0 + 1 >= self.end.0 + 2 {
            self.start.0 + 1
        } else {
            self.end.0 + 2
        };
        let margin_digits = dec_string(label as u64);
        let margin = space_fill(margin_digits.as_str().unicode_len());
        proof {
            assert(lines@.map_values(|l: String| l@)[line as int] == lines@[line as int]@);
        }
        let cur = lines[line].as_str();
        let cur_len = cur.unicode_len();

        // gather the painted pieces first: the marked part of the first
        // line, then every whole line the span goes on to cover
        let mut painted: Vec<String> = Vec::new();
        if self.start.0 != self.end.0 {
            painted.push(paint_red(cur.substring_char(self.start.1, cur_len)));
        } else {
            painted.push(paint_red(cur.substring_char(self.start.1, self.end.1)));
        }
        proof {
            assert(painted@[0]@ == painted@[0 as int]@);
            assert(painted_ok(painted@[0]@, excerpt_piece(self@, 0)));
        }
        let mut ln = line + 1;
        while ln < self.end.0 + 1
            invariant
                line + 1 <= ln <= vstd::math::max(line as int + 1, self.end.0 + 1),
                painted@.len() == ln - line,
                forall|j: int|
                    0 <= j < painted@.len() ==> painted_ok(
                        painted@[j]@,
                        excerpt_piece(self@, j),
                    ),
            decreases self.end.0 + 1 - ln,
        {
            proof {
                assert(lines@.map_values(|l: String| l@)[ln as int] == lines@[ln as int]@);
            }
            painted.push(paint_red(lines[ln].as_str()));
            proof {
                assert(painted_ok(painted@[painted@.len() - 1]@, lines@[ln as int]@));
                assert(excerpt_piece(self@, ln - line) == lines_of(self@.source)[ln as int]);
            }
            ln = ln + 1;
        }
        let ghost pv = painted@.map_values(|s: String| s@);
        proof {
            assert(pv.len() == 1 + excerpt_mid_count(self@));
            assert(pv[0] == painted@[0]@);
            assert forall|k: int| 0 <= k < pv.len() implies painted_ok(
                pv[k],
                excerpt_piece(self@, k),
            ) by {
                assert(pv[k] == painted@[k]@);
            }
        }

        // the blank gutter line, the context line, and the span's first line
        let mut out = space_fill(margin_digits.as_str().unicode_len());
        out.append(" |\n");
        out.append(margin.as_str());
        out.append(" |");
        if line > 0 {
            proof {
                assert(lines@.map_values(|l: String| l@)[line - 1] == lines@[line - 1]@);
            }
            out.append(lines[line - 1].as_str());
        } else {
            proof {
                reveal_strlit("");
                assert(""@ =~= Seq::<char>::empty());
            }
            out.append("");
        }
        out.append(" \n");
        let first_no = dec_string((line + 1) as u64);
        out.append(first_no.as_str());
        out.append(" |");
        out.append(cur.substring_char(0, self.start.1));
        out.append(painted[0].as_str());
        if self.start.0 == self.end.0 {
            out.append(cur.substring_char(self.end.1, cur_len));
        }
        proof {
            assert(out@ == excerpt_head(self@, pv));
        }

        // every further spanned line, painted whole
        let mut k: usize = 1;
        while k < painted.len()
            invariant
                1 <= k <= painted@.len(),
                out@ == excerpt_upto(self@, pv, k - 1),
            decreases painted@.len() - k,
        {
            proof {
                assert(pv[k as int] == painted@[k as int]@);
            }
            out.append("\n");
            out.append(margin.as_str());
            out.append(" |");
            out.append(painted[k].as_str());
            k = k + 1;
        }
        proof {
            assert(out@ == excerpt_upto(self@, pv, excerpt_mid_count(self@)));
        }

        // the caret line pointing at the message, over a blank gutter line
        out.append("\n");
        let last_no = dec_string((self.end.0 + 2) as u64);
        out.append(last_no.as_str());
        out.append(" |");
        let pad = space_fill(if self.end.1 >= 1 {
            self.end.1 - 1
        } else {
            0
        });
        out.append(pad.as_str());
        out.append("^--- ");
        out.append(msg);
        out.append("\n");
        out.append(margin.as_str());
        out.append(" |");
        proof {
            assert(out@ == excerpt_spec(self@, msg@, pv));
        }
        out
    }

    /// Widen `self` up to the end of `other`: the result starts where
    /// `self` starts, ends where `other` ends, and carries `self`'s source.
    pub fn merge(&self, other: &Span) -> (r: Span)
        ensures
            r@.start == self@.start,
            r@.end == other@.end,
            r@.source == self@.source,
    {
        Span { start: self.start, end: other.end, source: self.source.clone() }
    }
}

impl Default for Span {
    fn default() -> (r: Span)
        ensures
            r@.start == (0int, 0int),
            r@.end == (0int, 0int),
            r@.source == Seq::<char>::empty(),
    {
        Span { start: (0, 0), end: (0, 0), source: String::new() }
    }
}

/// Text without escape characters: such text holds no colour-reset
/// sequence, so the colouring library passes it through whole.
pub open spec fn escape_free(s: Seq<char>) -> bool {
    forall|i: int| 0 <= i < s.len() ==> s[i] != '\u{1b}'
}

/// `p` is a red-painted rendering of `t`: for escape-free `t`, either `t`
/// itself (colours disabled) or `t` wrapped in the red and reset colour
/// codes. Of text carrying escape characters nothing is said, since the
/// colouring library then rewrites inner reset sequences.
pub open spec fn painted_ok(p: Seq<char>, t: Seq<char>) -> bool {
    escape_free(t) ==> (p == t || p == "\u{1b}[31m"@ + t + "\u{1b}[0m"@)
}

/// Relies on colored::Colorize::red, rendered through its Display: paints a
/// piece of text red for a terminal. Whether colour codes are added around
/// the text depends on the process's environment, so the promise is only
/// that escape-free text comes back unchanged or wrapped in the red and
/// reset codes.
#[verifier::external_body]
fn paint_red(s: &str) -> (r: String)
    ensures
        painted_ok(r@, s@),
{
    colored::Colorize::red(s).to_string()
}

/// The line-number label the gutter must fit: the largest number printed in
/// the excerpt, which is the first line's label `start.0 + 1` or the caret
/// line's label `end.0 + 2`, whichever is greater.
pub open spec fn gutter_label(sp: SpanV) -> nat {
    if sp.start.0 + 1 >= sp.end.0 + 2 {
        (sp.start.0 + 1) as nat
    } else {
        (sp.end.0 + 2) as nat
    }
}

/// The source text that the `k`-th painted piece of the excerpt marks: for
/// the first piece the spanned part of the span's first line (up to the end
/// column on a single-line span, to the line's end otherwise), and for each
/// further piece the whole line that many lines below the first.
pub open spec fn excerpt_piece(sp: SpanV, k: int) -> Seq<char> {
    let lines = lines_of(sp.source);
    let cur = lines[sp.start.0];
    if k == 0 {
        if sp.start.0 == sp.end.0 {
            cur.subrange(sp.start.1, sp.end.1)
        } else {
            cur.subrange(sp.start.1, cur.len() as int)
        }
    } else {
        lines[sp.start.0 + k]
    }
}

/// How many whole lines below the first the rendered excerpt paints: one
/// for each line of the span beyond its first line.
pub open spec fn excerpt_mid_count(sp: SpanV) -> int {
    if sp.start.0 < sp.end.0 {
        sp.end.0 - sp.start.0
    } else {
        0
    }
}

/// The positions of `sp` point into its source: the start lies on a line
/// of it and its column within that line; when the span stays on one line
/// its end column closes a range of that line, and when it leaves the line
/// its end line exists. Rendering is defined exactly for such spans.
pub open spec fn renderable(sp: SpanV) -> bool {
    let lines = lines_of(sp.source);
    &&& 0 <= sp.start.0 < lines.len()
    &&& 0 <= sp.start.1 <= lines[sp.start.0].len()
    &&& 0 <= sp.end.1
    &&& (sp.start.0 == sp.end.0 ==> sp.start.1 <= sp.end.1 <= lines[sp.start.0].len())
    &&& (sp.start.0 != sp.end.0 ==> 0 <= sp.end.0 < lines.len())
}

/// The first three rendered lines: a blank gutter line, the line before
/// the span (for context), and the span's first line, split at the start
/// column; `painted[0]` stands where the painted part of that line goes —
/// up to the end column when the span stays on this line, to the line's
/// end otherwise. The gutter is sized to fit the largest printed line
/// number.
pub open spec fn excerpt_head(sp: SpanV, painted: Seq<Seq<char>>) -> Seq<char> {
    let lines = lines_of(sp.source);
    let margin = spaces(dec_seq(gutter_label(sp)).len());
    let prev = if sp.start.0 > 0 {
        lines[sp.start.0 - 1]
    } else {
        Seq::<char>::empty()
    };
    let cur = lines[sp.start.0];
    let base = margin + " |\n"@ + margin + " |"@ + prev + " \n"@ + dec_seq(
        (sp.start.0 + 1) as nat,
    ) + " |"@ + cur.subrange(0, sp.start.1) + painted[0];
    if sp.start.0 == sp.end.0 {
        base + cur.subrange(sp.end.1, cur.len() as int)
    } else {
        base
    }
}

/// The head of the excerpt followed by its first `k` whole painted lines,
/// each on a gutter line of its own (`painted[1]` to `painted[k]`).
pub open spec fn excerpt_upto(sp: SpanV, painted: Seq<Seq<char>>, k: int) -> Seq<char>
    decreases k,
{
    if k <= 0 {
        excerpt_head(sp, painted)
    } else {
        excerpt_upto(sp, painted, k - 1) + "\n"@ + spaces(dec_seq(gutter_label(sp)).len()) + " |"@
            + painted[k]
    }
}

/// The whole rendered excerpt: the head, every painted whole line, and the
/// closing line carrying a caret under the end column (its padding clamped
/// at zero) pointing at `msg`, over a final blank gutter line.
pub open spec fn excerpt_spec(sp: SpanV, msg: Seq<char>, painted: Seq<Seq<char>>) -> Seq<char> {
    let margin = spaces(dec_seq(gutter_label(sp)).len());
    let pad = spaces(
        if sp.end.1 >= 1 {
            (sp.end.1 - 1) as nat
        } else {
            0
        },
    );
    excerpt_upto(sp, painted, excerpt_mid_count(sp)) + "\n"@ + dec_seq((sp.end.0 + 2) as nat)
        + " |"@ + pad + "^--- "@ + msg + "\n"@ + margin + " |"@
}

/// Any two spans compare equal, whatever their positions or sources: spans
/// are non-discriminating metadata for the purposes of comparisons. This is
/// a deliberate design choice of the library, not an oversight; a caller
/// who wants positional comparison must compare the fields directly.
impl PartialEq for Span {
    fn eq(&self, _other: &Span) -> (r: bool) {
        true
    }
}

impl Eq for Span {}

impl vstd::std_specs::cmp::PartialEqSpecImpl for Span {
    open spec fn obeys_eq_spec() -> bool {
        true
    }

    open spec fn eq_spec(&self, _other: &Span) -> bool {
        true
    }
}

/// Every two spans are equal under `eq_spec`, whatever their fields: the
/// degenerate span equality is total.
pub proof fn lemma_span_eq_trivial(a: Span, b: Span)
    ensures
        vstd::std_specs::cmp::PartialEqSpec::eq_spec(&a, &b),
{
}

} // verus!
