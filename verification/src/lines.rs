//! The line model: how a byte stream divides into lines.
//!
//! A line is a maximal run of bytes ending with a line feed; the final line
//! of a stream may lack one. Every line keeps its terminator, so joining the
//! lines of a stream gives the stream back unchanged.

use vstd::prelude::*;

verus! {

/// The line feed byte; every line boundary in this library is a line feed.
pub const NL: u8 = 10;

/// The carriage return byte; part of a two-byte line terminator.
pub const CR: u8 = 13;

/// Index of the first line feed in `s`, or `s.len()` if there is none.
pub open spec fn first_nl(s: Seq<u8>) -> nat
    decreases s.len(),
{
    if s.len() == 0 {
        0
    } else if s[0] == NL {
        0
    } else {
        1 + first_nl(s.skip(1))
    }
}

/// `s` divided into its lines. Each line keeps its terminating line feed;
/// the final line may lack one. Empty input has no lines.
pub open spec fn lines_of(s: Seq<u8>) -> Seq<Seq<u8>>
    decreases s.len(),
{
    if s.len() == 0 {
        Seq::empty()
    } else {
        let i = first_nl(s) as int;
        if i < s.len() {
            seq![s.take(i + 1)] + lines_of(s.skip(i + 1))
        } else {
            seq![s]
        }
    }
}

/// A single line: nonempty, with no line feed before its last byte.
pub open spec fn is_line(l: Seq<u8>) -> bool {
    l.len() > 0 && (forall|i: int| 0 <= i < l.len() - 1 ==> l[i] != NL)
}

/// A sequence of lines as `lines_of` produces them: every element is a line
/// and every element but the last ends with a line feed.
pub open spec fn is_line_seq(ls: Seq<Seq<u8>>) -> bool {
    &&& forall|j: int| 0 <= j < ls.len() ==> is_line(#[trigger] ls[j])
    &&& forall|j: int| 0 <= j < ls.len() - 1 ==> (#[trigger] ls[j]).last() == NL
}

/// The lines joined back together in order.
pub open spec fn concat_all(ls: Seq<Seq<u8>>) -> Seq<u8>
    decreases ls.len(),
{
    if ls.len() == 0 {
        Seq::empty()
    } else {
        ls[0] + concat_all(ls.skip(1))
    }
}

proof fn lemma_first_nl_at(s: Seq<u8>, k: int)
    requires
        0 <= k < s.len(),
        s[k] == NL,
        forall|i: int| 0 <= i < k ==> s[i] != NL,
    ensures
        first_nl(s) == k,
    decreases k,
{
    if k > 0 {
        assert(forall|i: int| 0 <= i < k - 1 ==> s.skip(1)[i] == s[i + 1]);
        lemma_first_nl_at(s.skip(1), k - 1);
    }
}

proof fn lemma_first_nl_none(s: Seq<u8>)
    requires
        forall|i: int| 0 <= i < s.len() ==> s[i] != NL,
    ensures
        first_nl(s) == s.len(),
    decreases s.len(),
{
    if s.len() > 0 {
        lemma_first_nl_none(s.skip(1));
    }
}

proof fn lemma_first_nl_props(s: Seq<u8>)
    ensures
        first_nl(s) <= s.len(),
        forall|i: int| 0 <= i < first_nl(s) ==> s[i] != NL,
        first_nl(s) < s.len() ==> s[first_nl(s) as int] == NL,
    decreases s.len(),
{
    if s.len() > 0 && s[0] != NL {
        lemma_first_nl_props(s.skip(1));
        assert(forall|i: int| 0 <= i < first_nl(s.skip(1)) ==> s.skip(1)[i] != NL);
        assert(forall|i: int| 1 <= i < first_nl(s) ==> s[i] == s.skip(1)[i - 1]);
    }
}

/// Every division into lines is well formed: each piece is a line, and each
/// piece but the last ends with a line feed.
pub proof fn lemma_lines_structure(s: Seq<u8>)
    ensures
        is_line_seq(lines_of(s)),
    decreases s.len(),
{
    if s.len() > 0 {
        lemma_first_nl_props(s);
        let i = first_nl(s) as int;
        if i < s.len() {
            let first = s.take(i + 1);
            let rest = lines_of(s.skip(i + 1));
            lemma_lines_structure(s.skip(i + 1));
            assert(is_line(first));
            assert(first.last() == NL);
            let ls = lines_of(s);
            assert(ls == seq![first] + rest);
            assert forall|j: int| 0 <= j < ls.len() implies is_line(#[trigger] ls[j]) by {
                if j > 0 {
                    assert(ls[j] == rest[j - 1]);
                }
            }
            assert forall|j: int| 0 <= j < ls.len() - 1 implies (#[trigger] ls[j]).last() == NL by {
                if j > 0 {
                    assert(ls[j] == rest[j - 1]);
                }
            }
        }
    }
}

/// Law: joining the lines of a stream reproduces the stream byte for byte.
pub proof fn lemma_lines_roundtrip(s: Seq<u8>)
    ensures
        concat_all(lines_of(s)) == s,
    decreases s.len(),
{
    if s.len() == 0 {
        assert(concat_all(lines_of(s)) =~= s);
    } else {
        lemma_first_nl_props(s);
        let i = first_nl(s) as int;
        if i < s.len() {
            lemma_lines_roundtrip(s.skip(i + 1));
            let ls = lines_of(s);
            assert(ls[0] == s.take(i + 1));
            assert(ls.skip(1) =~= lines_of(s.skip(i + 1)));
            assert(concat_all(ls) == ls[0] + concat_all(ls.skip(1)));
            assert(concat_all(ls) =~= s);
        } else {
            let ls = lines_of(s);
            assert(ls.skip(1) =~= Seq::<Seq<u8>>::empty());
            assert(concat_all(ls.skip(1)) == Seq::<u8>::empty());
            assert(concat_all(ls) == ls[0] + concat_all(ls.skip(1)));
            assert(concat_all(ls) =~= s);
        }
    }
}

/// A line that ends with a line feed starts the division of any stream it
/// heads.
pub proof fn lemma_lines_of_prepend(a: Seq<u8>, b: Seq<u8>)
    requires
        is_line(a),
        a.last() == NL,
    ensures
        lines_of(a + b) == seq![a] + lines_of(b),
{
    let s = a + b;
    assert(forall|i: int| 0 <= i < a.len() - 1 ==> s[i] == a[i]);
    assert(s[a.len() - 1] == NL);
    lemma_first_nl_at(s, a.len() - 1);
    let i = first_nl(s) as int;
    assert(i == a.len() - 1);
    assert(s.take(i + 1) =~= a);
    assert(s.skip(i + 1) =~= b);
}

/// A nonempty stream without a line feed is its own single line.
pub proof fn lemma_lines_of_single(a: Seq<u8>)
    requires
        is_line(a),
        a.last() != NL,
    ensures
        lines_of(a) == seq![a],
{
    assert(forall|i: int| 0 <= i < a.len() ==> a[i] != NL);
    lemma_first_nl_none(a);
}

/// Law: dividing the join of well-formed lines gives those lines back.
pub proof fn lemma_lines_of_concat(ls: Seq<Seq<u8>>)
    requires
        is_line_seq(ls),
    ensures
        lines_of(concat_all(ls)) == ls,
    decreases ls.len(),
{
    if ls.len() == 0 {
        assert(concat_all(ls) =~= Seq::<u8>::empty());
        assert(lines_of(concat_all(ls)) =~= ls);
    } else if ls.len() == 1 {
        let a = ls[0];
        assert(ls.skip(1) =~= Seq::<Seq<u8>>::empty());
        assert(concat_all(ls.skip(1)) == Seq::<u8>::empty());
        assert(concat_all(ls) == ls[0] + concat_all(ls.skip(1)));
        assert(concat_all(ls) =~= a);
        if a.last() == NL {
            lemma_lines_of_prepend(a, Seq::empty());
            assert(a + Seq::<u8>::empty() =~= a);
            assert(lines_of(Seq::<u8>::empty()) =~= Seq::<Seq<u8>>::empty());
            assert(seq![a] + Seq::<Seq<u8>>::empty() =~= ls);
        } else {
            lemma_lines_of_single(a);
            assert(seq![a] =~= ls);
        }
    } else {
        let a = ls[0];
        let rest = ls.skip(1);
        assert(is_line_seq(rest)) by {
            assert(forall|j: int| 0 <= j < rest.len() ==> rest[j] == ls[j + 1]);
        }
        lemma_lines_of_concat(rest);
        assert(a.last() == NL);
        lemma_lines_of_prepend(a, concat_all(rest));
        assert(concat_all(ls) == a + concat_all(rest));
        assert(seq![a] + rest =~= ls);
    }
}

/// Joining one more line appends it to the join of the lines before it.
pub proof fn lemma_concat_all_snoc(ls: Seq<Seq<u8>>, j: int)
    requires
        0 <= j < ls.len(),
    ensures
        concat_all(ls.take(j + 1)) == concat_all(ls.take(j)) + ls[j],
    decreases j,
{
    if j == 0 {
        assert(ls.take(1) =~= seq![ls[0]]);
        assert(ls.take(0) =~= Seq::<Seq<u8>>::empty());
        assert(seq![ls[0]].skip(1) =~= Seq::<Seq<u8>>::empty());
        assert(concat_all(Seq::<Seq<u8>>::empty()) == Seq::<u8>::empty());
        assert(concat_all(seq![ls[0]]) == ls[0] + concat_all(seq![ls[0]].skip(1)));
        assert(concat_all(seq![ls[0]]) =~= ls[0]);
        assert(concat_all(ls.take(0)) + ls[0] =~= ls[0]);
    } else {
        lemma_concat_all_snoc(ls.skip(1), j - 1);
        assert(ls.take(j + 1) =~= seq![ls[0]] + ls.skip(1).take(j));
        assert(ls.take(j) =~= seq![ls[0]] + ls.skip(1).take(j - 1));
        assert((seq![ls[0]] + ls.skip(1).take(j)).skip(1) =~= ls.skip(1).take(j));
        assert((seq![ls[0]] + ls.skip(1).take(j - 1)).skip(1) =~= ls.skip(1).take(j - 1));
        assert(ls[j] == ls.skip(1)[j - 1]);
        assert(concat_all(ls.take(j + 1)) =~= concat_all(ls.take(j)) + ls[j]);
    }
}

/// An element that is empty adds nothing to the join: it can be removed.
pub proof fn lemma_concat_all_remove_empty(ls: Seq<Seq<u8>>, j: int)
    requires
        0 <= j < ls.len(),
        ls[j].len() == 0,
    ensures
        concat_all(ls) == concat_all(ls.remove(j)),
    decreases j,
{
    if j == 0 {
        assert(ls[0] + concat_all(ls.skip(1)) =~= concat_all(ls.skip(1)));
        assert(ls.remove(0) =~= ls.skip(1));
    } else {
        lemma_concat_all_remove_empty(ls.skip(1), j - 1);
        assert(ls.remove(j).skip(1) =~= ls.skip(1).remove(j - 1));
        assert(ls.remove(j)[0] == ls[0]);
        assert(ls.remove(j).len() > 0);
    }
}

/// Split `content` into its lines; each line keeps its line feed.
pub fn split_lines(content: &Vec<u8>) -> (lines: Vec<Vec<u8>>)
    ensures
        lines.deep_view() == lines_of(content@),
{
    let ghost all = content@;
    let mut lines: Vec<Vec<u8>> = Vec::new();
    let mut cur: Vec<u8> = Vec::new();
    let mut i: usize = 0;
    proof {
        assert(all.skip(0) =~= all);
    }
    while i < content.len()
        invariant
            all == content@,
            cur.len() <= i <= content.len(),
            cur@ == all.subrange(i - cur.len(), i as int),
            forall|k: int| 0 <= k < cur.len() ==> cur@[k] != NL,
            lines_of(all) == lines.deep_view() + lines_of(all.skip(i - cur.len())),
        decreases content.len() - i,
    {
        let ghost start = i - cur.len();
        let b = content[i];
        if b == NL {
            cur.push(NL);
            proof {
                assert(cur@ =~= all.subrange(start as int, i + 1));
                assert(is_line(cur@));
                assert(cur@.last() == NL);
                assert(all.skip(start as int) =~= cur@ + all.skip(i + 1));
                lemma_lines_of_prepend(cur@, all.skip(i + 1));
            }
            let ghost old_lines = lines.deep_view();
            let ghost line_view = cur@;
            lines.push(cur);
            cur = Vec::new();
            proof {
                assert(lines.deep_view() =~~= old_lines + seq![line_view]);
                assert(lines.deep_view() + lines_of(all.skip(i + 1)) =~= lines_of(all));
                assert(cur@ =~= all.subrange(i + 1, i + 1));
            }
        } else {
            cur.push(b);
            proof {
                assert(cur@ =~= all.subrange(start as int, i + 1));
            }
        }
        i = i + 1;
    }
    let ghost start = i - cur.len();
    if cur.len() > 0 {
        proof {
            assert(cur@ =~= all.skip(start as int));
            assert(is_line(cur@));
            assert(cur@.last() != NL);
            lemma_lines_of_single(cur@);
        }
        let ghost old_lines = lines.deep_view();
        let ghost line_view = cur@;
        lines.push(cur);
        proof {
            assert(lines.deep_view() =~~= old_lines + seq![line_view]);
            assert(lines.deep_view() =~= lines_of(all));
        }
    } else {
        proof {
            assert(all.skip(start as int) =~= Seq::<u8>::empty());
            assert(lines.deep_view() + lines_of(all.skip(start as int)) =~= lines.deep_view());
        }
    }
    lines
}

/// Append all of `src` to `dst`.
pub fn append_bytes(dst: &mut Vec<u8>, src: &Vec<u8>)
    ensures
        final(dst)@ == old(dst)@ + src@,
{
    let mut k: usize = 0;
    while k < src.len()
        invariant
            k <= src.len(),
            dst@ == old(dst)@ + src@.take(k as int),
        decreases src.len() - k,
    {
        dst.push(src[k]);
        proof {
            assert(old(dst)@ + src@.take(k + 1) =~= (old(dst)@ + src@.take(k as int)).push(src@[k as int]));
        }
        k = k + 1;
    }
    proof {
        assert(src@.take(src@.len() as int) =~= src@);
    }
}

} // verus!
