//! The bounded renderer: copies at most a line- or byte-ceiling from a
//! source, with a per-source header when more than one source is configured.
//!
//! A byte-bounded prefix may end in the middle of a multi-byte UTF-8
//! sequence; the truncated bytes are decoded with lossy substitution before
//! they are written, exactly as the viewer this library backs does.

use vstd::prelude::*;

use crate::lines::{
    concat_all, is_line_seq, lemma_concat_all_snoc, lemma_lines_of_concat,
    lemma_lines_structure, lines_of, split_lines, append_bytes, NL,
};

verus! {

/// The ceiling of one bounded-renderer invocation: at most so many lines, or
/// at most so many raw bytes. The two are mutually exclusive by construction.
#[derive(Clone, Copy, PartialEq, Eq, Structural, Debug)]
pub enum Bound {
    /// Copy at most this many lines.
    Lines(usize),
    /// Copy at most this many raw bytes, then decode them lossily as UTF-8.
    Bytes(usize),
}

/// Configuration of one bounded-renderer invocation, as the surrounding
/// command-line parser hands it in: the ordered sources, a line ceiling, and
/// an optional byte ceiling that supersedes it.
pub struct Config {
    /// The ordered source identifiers; `"-"` names standard input.
    pub files: Vec<String>,
    /// The line ceiling, used when no byte ceiling is given.
    pub lines: usize,
    /// The byte ceiling, if one was given.
    pub bytes: Option<usize>,
}

impl Config {
    /// The ceiling this configuration selects: the byte ceiling when one was
    /// given, else the line ceiling.
    pub open spec fn spec_bound(&self) -> Bound {
        match self.bytes {
            Some(b) => Bound::Bytes(b),
            None => Bound::Lines(self.lines),
        }
    }

    /// The ceiling this configuration selects.
    pub fn bound(&self) -> (b: Bound)
        ensures
            b == self.spec_bound(),
    {
        match self.bytes {
            Some(b) => Bound::Bytes(b),
            None => Bound::Lines(self.lines),
        }
    }
}

/// The first `min(b, s.len())` bytes of `s`.
pub open spec fn byte_prefix(s: Seq<u8>, b: nat) -> Seq<u8> {
    if b <= s.len() {
        s.take(b as int)
    } else {
        s
    }
}

/// The first `min(n, line count)` lines of `s`, joined.
pub open spec fn line_prefix(s: Seq<u8>, n: nat) -> Seq<u8> {
    let ls = lines_of(s);
    if n <= ls.len() {
        concat_all(ls.take(n as int))
    } else {
        s
    }
}

/// What `bytes` decode to under best-effort UTF-8 decoding, as the bytes of
/// the decoded text. Invalid sequences come out as replacement characters;
/// the exact value is fixed by the decoder and not restated here.
pub uninterp spec fn lossy_utf8(bytes: Seq<u8>) -> Seq<u8>;

/// Relies on `String::from_utf8_lossy`: the decoding is a pure function of
/// the bytes alone, and bytes that are already valid UTF-8 come back
/// unchanged, so bytes that are all below 0x80 (valid UTF-8 on their own)
/// come back unchanged.
#[verifier::external_body]
fn decode_lossy(b: &Vec<u8>) -> (r: Vec<u8>)
    ensures
        r@ == lossy_utf8(b@),
        (forall|i: int| 0 <= i < b@.len() ==> b@[i] < 0x80) ==> r@ == b@,
        b@.len() == 0 ==> r@.len() == 0,
{
    String::from_utf8_lossy(b.as_slice()).into_owned().into_bytes()
}

/// The first at-most-`ceiling` raw bytes of the source.
pub fn take_bytes(content: &Vec<u8>, ceiling: usize) -> (out: Vec<u8>)
    ensures
        out@ == byte_prefix(content@, ceiling as nat),
        out@.len() == if ceiling as nat <= content@.len() {
            ceiling as nat
        } else {
            content@.len()
        },
{
    let end = if ceiling < content.len() {
        ceiling
    } else {
        content.len()
    };
    let mut out: Vec<u8> = Vec::new();
    let mut i: usize = 0;
    while i < end
        invariant
            i <= end <= content.len(),
            end == if ceiling < content@.len() {
                ceiling as int
            } else {
                content@.len() as int
            },
            out@ == content@.take(i as int),
        decreases end - i,
    {
        out.push(content[i]);
        proof {
            assert(out@ =~= content@.take(i + 1));
        }
        i = i + 1;
    }
    proof {
        if ceiling as nat > content@.len() {
            assert(content@.take(content@.len() as int) =~= content@);
        }
    }
    out
}

/// The first at-most-`ceiling` lines of the source, each kept verbatim with
/// its terminator.
pub fn take_lines(content: &Vec<u8>, ceiling: usize) -> (out: Vec<u8>)
    ensures
        out@ == line_prefix(content@, ceiling as nat),
{
    let lines = split_lines(content);
    let ghost ls = lines.deep_view();
    let end = if ceiling < lines.len() {
        ceiling
    } else {
        lines.len()
    };
    let mut out: Vec<u8> = Vec::new();
    let mut j: usize = 0;
    proof {
        assert(ls.take(0) =~= Seq::<Seq<u8>>::empty());
    }
    while j < end
        invariant
            j <= end <= lines.len(),
            ls == lines.deep_view(),
            ls == lines_of(content@),
            out@ == concat_all(ls.take(j as int)),
        decreases end - j,
    {
        let ghost out0 = out@;
        append_bytes(&mut out, &lines[j]);
        proof {
            lemma_concat_all_snoc(ls, j as int);
            assert(out@ =~= concat_all(ls.take(j + 1)));
        }
        j = j + 1;
    }
    proof {
        if ceiling as nat > ls.len() {
            assert(ls.take(ls.len() as int) =~= ls);
            crate::lines::lemma_lines_roundtrip(content@);
        }
    }
    out
}

/// Law: the line-bounded prefix holds exactly `min(ceiling, line count)`
/// lines, and they are the source's first lines, verbatim.
pub proof fn lemma_line_prefix_count(s: Seq<u8>, n: nat)
    ensures
        lines_of(line_prefix(s, n)).len() == if n <= lines_of(s).len() {
            n
        } else {
            lines_of(s).len()
        },
        lines_of(line_prefix(s, n)) == if n <= lines_of(s).len() {
            lines_of(s).take(n as int)
        } else {
            lines_of(s)
        },
{
    lemma_lines_structure(s);
    let ls = lines_of(s);
    if n <= ls.len() {
        let taken = ls.take(n as int);
        assert(is_line_seq(taken)) by {
            assert(forall|j: int| 0 <= j < taken.len() ==> taken[j] == ls[j]);
        }
        lemma_lines_of_concat(taken);
    }
}

/// The header line written before a source's content when more than one
/// source is configured.
pub open spec fn header_of(name: Seq<u8>) -> Seq<u8> {
    seq![61u8, 61u8, 62u8, 32u8] + name + seq![32u8, 60u8, 61u8, 61u8, NL]
}

/// Everything the bounded renderer writes for one source whose bounded,
/// decoded body is `body`: with several sources configured, a header first,
/// preceded by a blank line for every source but the first.
pub open spec fn head_segment(name: Seq<u8>, body: Seq<u8>, multi: bool, first: bool) -> Seq<u8> {
    if multi {
        (if first {
            Seq::<u8>::empty()
        } else {
            seq![NL]
        }) + header_of(name) + body
    } else {
        body
    }
}

/// Law: in a multi-source invocation every source's segment carries exactly
/// one header naming it, and a blank line comes before the header for every
/// source but the first.
pub proof fn lemma_head_segment_framing(name: Seq<u8>, body: Seq<u8>, first: bool)
    ensures
        first ==> head_segment(name, body, true, first) == header_of(name) + body,
        !first ==> head_segment(name, body, true, first) == seq![NL] + header_of(name) + body,
{
    if first {
        assert(head_segment(name, body, true, first) =~= header_of(name) + body);
    } else {
        assert(head_segment(name, body, true, first) =~= seq![NL] + header_of(name) + body);
    }
}

/// The bounded, decoded body of a source with content `s`: its first lines,
/// or its first bytes decoded lossily.
pub open spec fn head_body(s: Seq<u8>, bound: Bound) -> Seq<u8> {
    match bound {
        Bound::Lines(n) => line_prefix(s, n as nat),
        Bound::Bytes(b) => lossy_utf8(byte_prefix(s, b as nat)),
    }
}

/// Render one source for the bounded renderer: the optional framing, then
/// the bounded body.
pub fn render_head_source(
    name: &Vec<u8>,
    content: &Vec<u8>,
    bound: Bound,
    multi: bool,
    first: bool,
) -> (out: Vec<u8>)
    ensures
        out@ == head_segment(name@, head_body(content@, bound), multi, first),
{
    let mut out: Vec<u8> = Vec::new();
    if multi {
        if !first {
            out.push(NL);
        }
        out.push(61);
        out.push(61);
        out.push(62);
        out.push(32);
        append_bytes(&mut out, name);
        out.push(32);
        out.push(60);
        out.push(61);
        out.push(61);
        out.push(NL);
        proof {
            if first {
                assert(out@ =~= Seq::<u8>::empty() + header_of(name@));
            } else {
                assert(out@ =~= seq![NL] + header_of(name@));
            }
        }
    }
    let ghost framed = out@;
    let body = match bound {
        Bound::Lines(n) => take_lines(content, n),
        Bound::Bytes(b) => {
            let raw = take_bytes(content, b);
            decode_lossy(&raw)
        },
    };
    append_bytes(&mut out, &body);
    proof {
        if multi {
            if first {
                assert(out@ =~= (Seq::<u8>::empty() + header_of(name@)) + head_body(
                    content@,
                    bound,
                ));
            } else {
                assert(out@ =~= (seq![NL] + header_of(name@)) + head_body(content@, bound));
            }
        } else {
            assert(out@ =~= head_body(content@, bound));
        }
    }
    out
}

} // verus!
