//! The argument echo: joins its words with single spaces and ends the line,
//! unless the trailing line feed is omitted.

use vstd::prelude::*;

use crate::cat::SP;
use crate::lines::{append_bytes, NL};

verus! {

/// The words joined with one space between each neighbouring pair.
pub open spec fn joined(ws: Seq<Seq<u8>>) -> Seq<u8>
    decreases ws.len(),
{
    if ws.len() == 0 {
        Seq::empty()
    } else if ws.len() == 1 {
        ws[0]
    } else {
        ws[0] + seq![SP] + joined(ws.skip(1))
    }
}

/// Everything the echo writes: the joined words, then a line feed unless it
/// is omitted.
pub open spec fn echo_output(ws: Seq<Seq<u8>>, omit_newline: bool) -> Seq<u8> {
    joined(ws) + (if omit_newline {
        Seq::<u8>::empty()
    } else {
        seq![NL]
    })
}

/// Joining one more word appends a space and the word.
proof fn lemma_joined_snoc(ws: Seq<Seq<u8>>, j: int)
    requires
        1 <= j < ws.len(),
    ensures
        joined(ws.take(j + 1)) == joined(ws.take(j)) + seq![SP] + ws[j],
    decreases j,
{
    if j == 1 {
        let two = ws.take(2);
        assert(two.skip(1) =~= seq![ws[1]]);
        assert(joined(seq![ws[1]]) == ws[1]);
        assert(joined(two) == two[0] + seq![SP] + joined(two.skip(1)));
        assert(ws.take(1) =~= seq![ws[0]]);
        assert(joined(ws.take(1)) == ws[0]);
        assert(joined(ws.take(2)) =~= joined(ws.take(1)) + seq![SP] + ws[1]);
    } else {
        lemma_joined_snoc(ws.skip(1), j - 1);
        assert(ws.take(j + 1).skip(1) =~= ws.skip(1).take(j));
        assert(ws.take(j).skip(1) =~= ws.skip(1).take(j - 1));
        assert(ws.take(j + 1).len() >= 2);
        assert(joined(ws.take(j + 1)) == ws[0] + seq![SP] + joined(ws.skip(1).take(j)));
        assert(joined(ws.take(j)) == ws[0] + seq![SP] + joined(ws.skip(1).take(j - 1)));
        assert(ws[j] == ws.skip(1)[j - 1]);
        assert(joined(ws.take(j + 1)) =~= joined(ws.take(j)) + seq![SP] + ws[j]);
    }
}

/// Join the words with single spaces, ending with a line feed unless it is
/// omitted: exactly the bytes the echo writes.
pub fn join_words(words: &Vec<Vec<u8>>, omit_newline: bool) -> (out: Vec<u8>)
    ensures
        out@ == echo_output(words.deep_view(), omit_newline),
{
    let ghost ws = words.deep_view();
    let mut out: Vec<u8> = Vec::new();
    let mut j: usize = 0;
    proof {
        assert(ws.take(0) =~= Seq::<Seq<u8>>::empty());
    }
    while j < words.len()
        invariant
            j <= words.len(),
            ws == words.deep_view(),
            out@ == joined(ws.take(j as int)),
        decreases words.len() - j,
    {
        let word = &words[j];
        proof {
            assert(word@ == ws[j as int]);
        }
        if j > 0 {
            out.push(SP);
        }
        append_bytes(&mut out, word);
        proof {
            if j == 0 {
                assert(ws.take(1) =~= seq![ws[0]]);
                assert(out@ =~= joined(ws.take(1)));
            } else {
                lemma_joined_snoc(ws, j as int);
                assert(out@ =~= joined(ws.take(j + 1)));
            }
        }
        j = j + 1;
    }
    proof {
        assert(ws.take(ws.len() as int) =~= ws);
    }
    if !omit_newline {
        out.push(NL);
    }
    proof {
        assert(out@ =~= echo_output(ws, omit_newline));
    }
    out
}

} // verus!
