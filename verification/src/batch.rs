//! The batch dispatcher: walks the configured sources in order, isolates
//! per-source open failures, and concatenates what each renderer writes.
//!
//! A source that could not be opened contributes one diagnostic line and
//! nothing to the output; the sources after it are rendered all the same.
//! The caller opens and reads the sources; this module fixes, byte for byte,
//! what reaches the output and diagnostic streams.

use vstd::prelude::*;

use crate::cat::{cat_output, render_cat, NumberingPolicy};
use crate::head::{head_body, head_segment, header_of, render_head_source, Bound};
use crate::lines::{append_bytes, concat_all, lemma_concat_all_snoc, lemma_concat_all_remove_empty, NL};

verus! {

/// What became of one source when the resolver tried to open it: its full
/// content, or the text of the operating-system error.
pub enum SourceOutcome {
    /// The source opened; these are all its bytes.
    Opened(Vec<u8>),
    /// The source could not be opened; this is the error's text.
    OpenFailed(Vec<u8>),
}

/// One configured source after the resolver tried to open it: its identifier
/// and the outcome.
pub struct ResolvedSource {
    /// The source identifier, as configured.
    pub name: Vec<u8>,
    /// Its content, or the text of the opening error.
    pub outcome: SourceOutcome,
}

/// The diagnostic line for one failed open: the identifier, a colon and a
/// space, the error text, and a line feed.
pub open spec fn diag_line(name: Seq<u8>, err: Seq<u8>) -> Seq<u8> {
    name + seq![58u8, 32u8] + err + seq![NL]
}

/// What one source adds to the diagnostic stream: nothing when it opened,
/// its diagnostic line when it did not.
pub open spec fn source_diag(src: ResolvedSource) -> Seq<u8> {
    match src.outcome {
        SourceOutcome::Opened(_) => Seq::empty(),
        SourceOutcome::OpenFailed(e) => diag_line(src.name@, e@),
    }
}

/// Everything a batch writes to the diagnostic stream: the diagnostic lines
/// of its failed sources, in configured order.
pub open spec fn batch_diag(srcs: Seq<ResolvedSource>) -> Seq<u8> {
    concat_all(Seq::new(srcs.len(), |j: int| source_diag(srcs[j])))
}

/// What one source adds to the line renderer's output: its rendered content
/// when it opened, nothing when it did not.
pub open spec fn cat_segment(src: ResolvedSource, policy: NumberingPolicy) -> Seq<u8> {
    match src.outcome {
        SourceOutcome::Opened(c) => cat_output(c@, policy),
        SourceOutcome::OpenFailed(_) => Seq::empty(),
    }
}

/// The per-source segments of a line-renderer batch, in configured order.
pub open spec fn cat_segments(srcs: Seq<ResolvedSource>, policy: NumberingPolicy) -> Seq<Seq<u8>> {
    Seq::new(srcs.len(), |j: int| cat_segment(srcs[j], policy))
}

/// Everything a line-renderer batch writes to the output stream.
pub open spec fn cat_batch_out(srcs: Seq<ResolvedSource>, policy: NumberingPolicy) -> Seq<u8> {
    concat_all(cat_segments(srcs, policy))
}

/// What one source adds to the bounded renderer's output: its framed,
/// bounded content when it opened, nothing when it did not. A header is
/// written only when more than one source is configured, and only an opened
/// source writes one.
pub open spec fn head_segment_of(
    src: ResolvedSource,
    bound: Bound,
    multi: bool,
    first: bool,
) -> Seq<u8> {
    match src.outcome {
        SourceOutcome::Opened(c) => head_segment(src.name@, head_body(c@, bound), multi, first),
        SourceOutcome::OpenFailed(_) => Seq::empty(),
    }
}

/// The per-source segments of a bounded-renderer batch, in configured order.
/// Whether headers are written depends on the configured source count, open
/// failures included; the blank line is skipped only at position zero.
pub open spec fn head_segments(srcs: Seq<ResolvedSource>, bound: Bound) -> Seq<Seq<u8>> {
    Seq::new(srcs.len(), |j: int| head_segment_of(srcs[j], bound, srcs.len() > 1, j == 0))
}

/// Everything a bounded-renderer batch writes to the output stream.
pub open spec fn head_batch_out(srcs: Seq<ResolvedSource>, bound: Bound) -> Seq<u8> {
    concat_all(head_segments(srcs, bound))
}

/// Append the diagnostic line of a failed source.
fn push_diag(diag: &mut Vec<u8>, name: &Vec<u8>, err: &Vec<u8>)
    ensures
        final(diag)@ == old(diag)@ + diag_line(name@, err@),
{
    append_bytes(diag, name);
    diag.push(58);
    diag.push(32);
    append_bytes(diag, err);
    diag.push(NL);
    proof {
        assert(diag@ =~= old(diag)@ + diag_line(name@, err@));
    }
}

/// Run a line-renderer batch: returns the bytes for the output stream and
/// the bytes for the diagnostic stream.
pub fn run_cat_batch(srcs: &Vec<ResolvedSource>, policy: NumberingPolicy) -> (r: (Vec<u8>, Vec<u8>))
    ensures
        r.0@ == cat_batch_out(srcs@, policy),
        r.1@ == batch_diag(srcs@),
{
    let ghost segs = cat_segments(srcs@, policy);
    let ghost diags = Seq::new(srcs@.len(), |j: int| source_diag(srcs@[j]));
    let mut out: Vec<u8> = Vec::new();
    let mut diag: Vec<u8> = Vec::new();
    let mut j: usize = 0;
    proof {
        assert(segs.take(0) =~= Seq::<Seq<u8>>::empty());
        assert(diags.take(0) =~= Seq::<Seq<u8>>::empty());
    }
    while j < srcs.len()
        invariant
            j <= srcs.len(),
            segs == cat_segments(srcs@, policy),
            diags == Seq::new(srcs@.len(), |k: int| source_diag(srcs@[k])),
            out@ == concat_all(segs.take(j as int)),
            diag@ == concat_all(diags.take(j as int)),
        decreases srcs.len() - j,
    {
        let ghost out0 = out@;
        let ghost diag0 = diag@;
        let src = &srcs[j];
        match &src.outcome {
            SourceOutcome::Opened(content) => {
                let rendered = render_cat(content, policy);
                append_bytes(&mut out, &rendered);
            },
            SourceOutcome::OpenFailed(err) => {
                push_diag(&mut diag, &src.name, err);
            },
        }
        proof {
            lemma_concat_all_snoc(segs, j as int);
            lemma_concat_all_snoc(diags, j as int);
            assert(out@ =~= out0 + segs[j as int]);
            assert(diag@ =~= diag0 + diags[j as int]);
        }
        j = j + 1;
    }
    proof {
        assert(segs.take(srcs@.len() as int) =~= segs);
        assert(diags.take(srcs@.len() as int) =~= diags);
    }
    (out, diag)
}

/// Run a bounded-renderer batch: returns the bytes for the output stream and
/// the bytes for the diagnostic stream. Headers are written exactly when
/// more than one source is configured.
pub fn run_head_batch(srcs: &Vec<ResolvedSource>, bound: Bound) -> (r: (Vec<u8>, Vec<u8>))
    ensures
        r.0@ == head_batch_out(srcs@, bound),
        r.1@ == batch_diag(srcs@),
{
    let ghost segs = head_segments(srcs@, bound);
    let ghost diags = Seq::new(srcs@.len(), |j: int| source_diag(srcs@[j]));
    let multi = srcs.len() > 1;
    let mut out: Vec<u8> = Vec::new();
    let mut diag: Vec<u8> = Vec::new();
    let mut j: usize = 0;
    proof {
        assert(segs.take(0) =~= Seq::<Seq<u8>>::empty());
        assert(diags.take(0) =~= Seq::<Seq<u8>>::empty());
    }
    while j < srcs.len()
        invariant
            j <= srcs.len(),
            multi == (srcs@.len() > 1),
            segs == head_segments(srcs@, bound),
            diags == Seq::new(srcs@.len(), |k: int| source_diag(srcs@[k])),
            out@ == concat_all(segs.take(j as int)),
            diag@ == concat_all(diags.take(j as int)),
        decreases srcs.len() - j,
    {
        let ghost out0 = out@;
        let ghost diag0 = diag@;
        let src = &srcs[j];
        match &src.outcome {
            SourceOutcome::Opened(content) => {
                let rendered = render_head_source(&src.name, content, bound, multi, j == 0);
                append_bytes(&mut out, &rendered);
            },
            SourceOutcome::OpenFailed(err) => {
                push_diag(&mut diag, &src.name, err);
            },
        }
        proof {
            lemma_concat_all_snoc(segs, j as int);
            lemma_concat_all_snoc(diags, j as int);
            assert(out@ =~= out0 + segs[j as int]);
            assert(diag@ =~= diag0 + diags[j as int]);
        }
        j = j + 1;
    }
    proof {
        assert(segs.take(srcs@.len() as int) =~= segs);
        assert(diags.take(srcs@.len() as int) =~= diags);
    }
    (out, diag)
}

/// Law: a multi-source bounded-renderer batch writes exactly one header per
/// opened source, naming it, and a blank line comes before the header of
/// every source but the one in first position.
pub proof fn lemma_multi_head_headers(srcs: Seq<ResolvedSource>, bound: Bound)
    requires
        srcs.len() > 1,
    ensures
        forall|j: int| 0 <= j < srcs.len() && (#[trigger] srcs[j].outcome) is Opened
            ==> head_segments(srcs, bound)[j] == (if j == 0 {
                Seq::<u8>::empty()
            } else {
                seq![NL]
            }) + header_of(srcs[j].name@) + head_body(srcs[j].outcome->Opened_0@, bound),
{
    assert forall|j: int| 0 <= j < srcs.len() && (#[trigger] srcs[j].outcome) is Opened
        implies head_segments(srcs, bound)[j] == (if j == 0 {
            Seq::<u8>::empty()
        } else {
            seq![NL]
        }) + header_of(srcs[j].name@) + head_body(srcs[j].outcome->Opened_0@, bound) by {
        crate::head::lemma_head_segment_framing(
            srcs[j].name@,
            head_body(srcs[j].outcome->Opened_0@, bound),
            j == 0,
        );
        if j != 0 {
            assert(seq![NL] + header_of(srcs[j].name@) + head_body(
                srcs[j].outcome->Opened_0@,
                bound,
            ) =~= (seq![NL] + header_of(srcs[j].name@)) + head_body(
                srcs[j].outcome->Opened_0@,
                bound,
            ));
        }
    }
}

/// Law: a source that fails to open is isolated. It contributes exactly its
/// diagnostic line to the diagnostic stream, and the line renderer's output
/// is the same as if the source had not been configured at all: the sources
/// after it are rendered unchanged.
pub proof fn lemma_open_failure_isolated(srcs: Seq<ResolvedSource>, j: int, policy: NumberingPolicy)
    requires
        0 <= j < srcs.len(),
        srcs[j].outcome is OpenFailed,
    ensures
        source_diag(srcs[j]) == diag_line(srcs[j].name@, srcs[j].outcome->OpenFailed_0@),
        cat_batch_out(srcs, policy) == cat_batch_out(srcs.remove(j), policy),
{
    let segs = cat_segments(srcs, policy);
    assert(segs[j].len() == 0);
    lemma_concat_all_remove_empty(segs, j);
    assert(segs.remove(j) =~= cat_segments(srcs.remove(j), policy));
}

/// Law: a source that fails to open is isolated in a bounded-renderer batch
/// too. Its segment is empty, so the batch output is the join of the other
/// sources' segments, which stand unchanged: the sources after the failure
/// are still rendered.
pub proof fn lemma_head_open_failure_isolated(srcs: Seq<ResolvedSource>, j: int, bound: Bound)
    requires
        0 <= j < srcs.len(),
        srcs[j].outcome is OpenFailed,
    ensures
        source_diag(srcs[j]) == diag_line(srcs[j].name@, srcs[j].outcome->OpenFailed_0@),
        head_batch_out(srcs, bound) == concat_all(head_segments(srcs, bound).remove(j)),
{
    let segs = head_segments(srcs, bound);
    assert(segs[j].len() == 0);
    lemma_concat_all_remove_empty(segs, j);
}

} // verus!
