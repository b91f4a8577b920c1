//! The line renderer: copies a source line by line under a numbering policy.
//!
//! Policy `Plain` reproduces every line verbatim. `NumberAll` prefixes every
//! line with a right-aligned six-wide counter and a tab. `NumberNonBlank`
//! keeps a separate counter that only non-blank lines advance and carry;
//! blank lines are reproduced bare.

use vstd::prelude::*;

use crate::lines::{
    concat_all, is_line, is_line_seq, lemma_concat_all_snoc, lemma_lines_of_concat,
    lemma_lines_structure, lemma_lines_roundtrip, lines_of, split_lines, append_bytes, CR, NL,
};

verus! {

/// The space byte, used to pad counter fields.
pub const SP: u8 = 32;

/// The tab byte, written between a counter field and its line.
pub const TAB: u8 = 9;

/// How the line renderer numbers the lines of a source.
#[derive(Clone, Copy, PartialEq, Eq, Structural, Debug)]
pub enum NumberingPolicy {
    /// Every line is reproduced verbatim.
    Plain,
    /// Every line carries a counter, blank lines included.
    NumberAll,
    /// Only non-blank lines carry (and advance) the counter.
    NumberNonBlank,
}

/// Configuration of one line-renderer invocation, as the surrounding
/// command-line parser hands it in: the ordered sources and two mutually
/// exclusive numbering flags.
pub struct Config {
    /// The ordered source identifiers; `"-"` names standard input.
    pub files: Vec<String>,
    /// Number every line.
    pub number_lines: bool,
    /// Number only non-blank lines.
    pub number_nonblank_lines: bool,
}

impl Config {
    /// The numbering policy the two flags select; numbering all lines wins
    /// when both are set, as the renderer checks it first.
    pub open spec fn spec_policy(&self) -> NumberingPolicy {
        if self.number_lines {
            NumberingPolicy::NumberAll
        } else if self.number_nonblank_lines {
            NumberingPolicy::NumberNonBlank
        } else {
            NumberingPolicy::Plain
        }
    }

    /// The numbering policy selected by this configuration.
    pub fn policy(&self) -> (p: NumberingPolicy)
        ensures
            p == self.spec_policy(),
    {
        if self.number_lines {
            NumberingPolicy::NumberAll
        } else if self.number_nonblank_lines {
            NumberingPolicy::NumberNonBlank
        } else {
            NumberingPolicy::Plain
        }
    }
}

/// The line's content without its terminator: a trailing line feed is
/// dropped, and a carriage return just before it with it. A carriage return
/// not followed by a line feed is content, not terminator.
pub open spec fn line_content(l: Seq<u8>) -> Seq<u8> {
    if l.len() > 0 && l.last() == NL {
        let t = l.drop_last();
        if t.len() > 0 && t.last() == CR {
            t.drop_last()
        } else {
            t
        }
    } else {
        l
    }
}

/// A blank line: nothing but its terminator.
pub open spec fn is_blank(l: Seq<u8>) -> bool {
    line_content(l).len() == 0
}

/// The decimal digits of `n`, most significant first.
pub open spec fn dec_digits(n: nat) -> Seq<u8>
    decreases n,
{
    if n < 10 {
        seq![(48 + n) as u8]
    } else {
        dec_digits(n / 10) + seq![(48 + n % 10) as u8]
    }
}

/// The counter field written before a numbered line: the decimal digits of
/// `n`, right-aligned with spaces to width six, then a tab.
pub open spec fn counter_field(n: nat) -> Seq<u8> {
    let d = dec_digits(n);
    if d.len() >= 6 {
        d + seq![TAB]
    } else {
        Seq::new((6 - d.len()) as nat, |i: int| SP) + d + seq![TAB]
    }
}

/// How many of the first `j` lines are non-blank.
pub open spec fn nonblank_before(ls: Seq<Seq<u8>>, j: int) -> nat
    decreases j,
{
    if j <= 0 {
        0
    } else {
        nonblank_before(ls, j - 1) + (if is_blank(ls[j - 1]) {
            0nat
        } else {
            1nat
        })
    }
}

/// Line `j` of the source as the renderer emits it under `policy`.
pub open spec fn rendered_line(ls: Seq<Seq<u8>>, j: int, policy: NumberingPolicy) -> Seq<u8> {
    match policy {
        NumberingPolicy::Plain => ls[j],
        NumberingPolicy::NumberAll => counter_field((j + 1) as nat) + ls[j],
        NumberingPolicy::NumberNonBlank => if is_blank(ls[j]) {
            ls[j]
        } else {
            counter_field(nonblank_before(ls, j) + 1) + ls[j]
        },
    }
}

/// All lines of the source as the renderer emits them under `policy`.
pub open spec fn rendered_lines(ls: Seq<Seq<u8>>, policy: NumberingPolicy) -> Seq<Seq<u8>> {
    Seq::new(ls.len(), |j: int| rendered_line(ls, j, policy))
}

/// Everything the line renderer writes for a source with content `s`.
pub open spec fn cat_output(s: Seq<u8>, policy: NumberingPolicy) -> Seq<u8> {
    concat_all(rendered_lines(lines_of(s), policy))
}

proof fn lemma_dec_digits_shape(n: nat)
    ensures
        dec_digits(n).len() >= 1,
        forall|i: int| 0 <= i < dec_digits(n).len() ==> 48 <= #[trigger] dec_digits(n)[i] <= 57,
    decreases n,
{
    if n >= 10 {
        lemma_dec_digits_shape(n / 10);
    }
}

proof fn lemma_counter_field_no_nl(n: nat)
    ensures
        forall|i: int| 0 <= i < counter_field(n).len() ==> #[trigger] counter_field(n)[i] != NL,
{
    lemma_dec_digits_shape(n);
}

proof fn lemma_prefixed_is_line(p: Seq<u8>, l: Seq<u8>)
    requires
        forall|i: int| 0 <= i < p.len() ==> p[i] != NL,
        is_line(l),
    ensures
        is_line(p + l),
        (p + l).last() == l.last(),
{
    let r = p + l;
    assert forall|i: int| 0 <= i < r.len() - 1 implies r[i] != NL by {
        if i >= p.len() {
            assert(r[i] == l[i - p.len()]);
        }
    }
}

/// The rendered lines of a well-formed source are themselves well formed,
/// so dividing the renderer's output recovers them one by one.
proof fn lemma_rendered_line_seq(ls: Seq<Seq<u8>>, policy: NumberingPolicy)
    requires
        is_line_seq(ls),
    ensures
        is_line_seq(rendered_lines(ls, policy)),
        lines_of(concat_all(rendered_lines(ls, policy))) == rendered_lines(ls, policy),
{
    let r = rendered_lines(ls, policy);
    assert forall|j: int| 0 <= j < r.len() implies is_line(#[trigger] r[j]) && (ls[j].len() > 0
        ==> r[j].last() == ls[j].last()) by {
        assert(is_line(ls[j]));
        match policy {
            NumberingPolicy::Plain => {},
            NumberingPolicy::NumberAll => {
                lemma_counter_field_no_nl((j + 1) as nat);
                lemma_prefixed_is_line(counter_field((j + 1) as nat), ls[j]);
            },
            NumberingPolicy::NumberNonBlank => {
                if !is_blank(ls[j]) {
                    lemma_counter_field_no_nl(nonblank_before(ls, j) + 1);
                    lemma_prefixed_is_line(counter_field(nonblank_before(ls, j) + 1), ls[j]);
                }
            },
        }
    }
    assert forall|j: int| 0 <= j < r.len() - 1 implies (#[trigger] r[j]).last() == NL by {
        assert(ls[j].last() == NL);
    }
    lemma_lines_of_concat(r);
}

/// Law: with the plain policy the renderer reproduces its input byte for
/// byte, whatever the input.
pub proof fn lemma_plain_reproduces_input(s: Seq<u8>)
    ensures
        cat_output(s, NumberingPolicy::Plain) == s,
{
    lemma_lines_roundtrip(s);
    assert(rendered_lines(lines_of(s), NumberingPolicy::Plain) =~= lines_of(s));
}

/// Law: numbering every line keeps the line count, and the counter on the
/// line at position `j` is `j + 1`: the counters climb by one from one.
pub proof fn lemma_number_all_lines(s: Seq<u8>)
    ensures
        lines_of(cat_output(s, NumberingPolicy::NumberAll)).len() == lines_of(s).len(),
        forall|j: int| 0 <= j < lines_of(s).len() ==> lines_of(
            cat_output(s, NumberingPolicy::NumberAll),
        )[j] == counter_field((j + 1) as nat) + #[trigger] lines_of(s)[j],
{
    lemma_lines_structure(s);
    lemma_rendered_line_seq(lines_of(s), NumberingPolicy::NumberAll);
}

/// Law: with non-blank numbering the line count is kept, a blank line is
/// reproduced bare, and a non-blank line carries one more than the count of
/// non-blank lines before it: the counter advances only across non-blank
/// lines.
pub proof fn lemma_number_nonblank_lines(s: Seq<u8>)
    ensures
        lines_of(cat_output(s, NumberingPolicy::NumberNonBlank)).len() == lines_of(s).len(),
        forall|j: int| 0 <= j < lines_of(s).len() && is_blank(#[trigger] lines_of(s)[j])
            ==> lines_of(cat_output(s, NumberingPolicy::NumberNonBlank))[j] == lines_of(s)[j],
        forall|j: int| 0 <= j < lines_of(s).len() && !is_blank(#[trigger] lines_of(s)[j])
            ==> lines_of(cat_output(s, NumberingPolicy::NumberNonBlank))[j] == counter_field(
            nonblank_before(lines_of(s), j) + 1,
        ) + lines_of(s)[j],
{
    lemma_lines_structure(s);
    lemma_rendered_line_seq(lines_of(s), NumberingPolicy::NumberNonBlank);
}

/// Push the decimal digits of `n` onto `out`, most significant first.
fn push_dec(out: &mut Vec<u8>, n: usize)
    ensures
        final(out)@ == old(out)@ + dec_digits(n as nat),
    decreases n,
{
    if n < 10 {
        out.push(48 + n as u8);
        proof {
            assert(out@ =~= old(out)@ + dec_digits(n as nat));
        }
    } else {
        push_dec(out, n / 10);
        out.push(48 + (n % 10) as u8);
        proof {
            assert(out@ =~= old(out)@ + dec_digits(n as nat));
        }
    }
}

/// Push the counter field for `n`: digits right-aligned to width six, then a
/// tab.
fn push_counter(out: &mut Vec<u8>, n: usize)
    ensures
        final(out)@ == old(out)@ + counter_field(n as nat),
{
    let mut digits: Vec<u8> = Vec::new();
    push_dec(&mut digits, n);
    proof {
        assert(digits@ =~= dec_digits(n as nat));
    }
    let dlen = digits.len();
    let mut k: usize = dlen;
    proof {
        assert(out@ =~= old(out)@ + Seq::new(0nat, |i: int| SP));
    }
    while k < 6
        invariant
            dlen <= k,
            dlen < 6 ==> k <= 6,
            dlen >= 6 ==> k == dlen,
            dlen == digits@.len(),
            digits@ == dec_digits(n as nat),
            out@ == old(out)@ + Seq::new((k - dlen) as nat, |i: int| SP),
        decreases 6 - k,
    {
        out.push(SP);
        proof {
            assert(out@ =~= old(out)@ + Seq::new((k + 1 - dlen) as nat, |i: int| SP));
        }
        k = k + 1;
    }
    append_bytes(out, &digits);
    out.push(TAB);
    proof {
        assert(out@ =~= old(out)@ + counter_field(n as nat));
    }
}

/// Whether the line is blank: nothing but its terminator.
pub fn blank_line(l: &Vec<u8>) -> (b: bool)
    ensures
        b == is_blank(l@),
{
    let mut n = l.len();
    if n > 0 && l[n - 1] == NL {
        n = n - 1;
        if n > 0 && l[n - 1] == CR {
            n = n - 1;
        }
    }
    n == 0
}

/// Render one source's full content under the numbering policy: exactly the
/// bytes the line renderer writes to the output stream.
pub fn render_cat(content: &Vec<u8>, policy: NumberingPolicy) -> (out: Vec<u8>)
    ensures
        out@ == cat_output(content@, policy),
{
    let lines = split_lines(content);
    let ghost ls = lines.deep_view();
    let ghost rendered = rendered_lines(ls, policy);
    let mut out: Vec<u8> = Vec::new();
    let mut nonblank: usize = 0;
    let mut j: usize = 0;
    proof {
        assert(rendered.take(0) =~= Seq::<Seq<u8>>::empty());
    }
    while j < lines.len()
        invariant
            j <= lines.len(),
            nonblank <= j,
            ls == lines.deep_view(),
            ls == lines_of(content@),
            rendered == rendered_lines(ls, policy),
            policy == NumberingPolicy::NumberNonBlank ==> nonblank == nonblank_before(
                ls,
                j as int,
            ),
            out@ == concat_all(rendered.take(j as int)),
        decreases lines.len() - j,
    {
        let ghost out0 = out@;
        let line = &lines[j];
        proof {
            assert(line@ == ls[j as int]);
        }
        let blank = blank_line(line);
        match policy {
            NumberingPolicy::Plain => {
                append_bytes(&mut out, line);
            },
            NumberingPolicy::NumberAll => {
                push_counter(&mut out, j + 1);
                append_bytes(&mut out, line);
            },
            NumberingPolicy::NumberNonBlank => {
                if blank {
                    append_bytes(&mut out, line);
                } else {
                    nonblank = nonblank + 1;
                    push_counter(&mut out, nonblank);
                    append_bytes(&mut out, line);
                }
            },
        }
        proof {
            lemma_concat_all_snoc(rendered, j as int);
            assert(out@ =~= out0 + rendered[j as int]);
        }
        j = j + 1;
    }
    proof {
        assert(rendered.take(ls.len() as int) =~= rendered);
    }
    out
}

} // verus!
