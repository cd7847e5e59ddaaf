use super::Encoding;
use crate::collections::DynArray;
use vstd::prelude::*;

verus! {

/// Run-length encoding of 32-bit words: each run of equal words becomes one byte with the
/// run's length followed by the four bytes of the word.
pub struct RLE;

/// The whole 4-byte words of `v`, in order (trailing bytes are left out).
pub open spec fn words(v: Seq<u8>) -> Seq<Seq<u8>> {
    Seq::new(v.len() / 4, |i: int| v.subrange(4 * i, 4 * i + 4))
}

/// The words written one after the other.
pub open spec fn words_concat(ws: Seq<Seq<u8>>) -> Seq<u8>
    decreases ws.len(),
{
    if ws.len() == 0 {
        Seq::empty()
    } else {
        words_concat(ws.drop_last()) + ws.last()
    }
}

/// The maximal runs of equal words, each as its length and its word.
pub open spec fn rle_runs(ws: Seq<Seq<u8>>) -> Seq<(nat, Seq<u8>)>
    decreases ws.len(),
{
    if ws.len() == 0 {
        Seq::empty()
    } else {
        let r = rle_runs(ws.drop_last());
        if r.len() > 0 && r.last().1 == ws.last() {
            r.update(r.len() - 1, (r.last().0 + 1, ws.last()))
        } else {
            r.push((1nat, ws.last()))
        }
    }
}

/// The encoded bytes of a sequence of runs: per run, its length byte and then its word.
pub open spec fn rle_bytes(runs: Seq<(nat, Seq<u8>)>) -> Seq<u8>
    decreases runs.len(),
{
    if runs.len() == 0 {
        Seq::empty()
    } else {
        rle_bytes(runs.drop_last()) + seq![runs.last().0 as u8] + runs.last().1
    }
}

/// The run-length encoding of `v`.
pub open spec fn rle_encode(v: Seq<u8>) -> Seq<u8> {
    rle_bytes(rle_runs(words(v)))
}

/// `w` written `n` times.
pub open spec fn repeat(w: Seq<u8>, n: nat) -> Seq<u8>
    decreases n,
{
    if n == 0 {
        Seq::empty()
    } else {
        repeat(w, (n - 1) as nat) + w
    }
}

/// The decoding of `e`: each whole 5-byte group gives its word (bytes 1 to 4) as many
/// times as its first byte says; trailing bytes are left out.
pub open spec fn rle_decode(e: Seq<u8>) -> Seq<u8>
    decreases e.len(),
{
    let n = e.len() / 5;
    if n == 0 {
        Seq::empty()
    } else {
        let base = 5 * (n - 1);
        rle_decode(e.subrange(0, base)) + repeat(e.subrange(base + 1, base + 5), e[base] as nat)
    }
}

/// The length of the longest run of equal words in `v`; zero when `v` has no whole word.
pub open spec fn max_run(v: Seq<u8>) -> nat {
    max_count(rle_runs(words(v)))
}

/// The largest length among `runs`.
pub open spec fn max_count(runs: Seq<(nat, Seq<u8>)>) -> nat
    decreases runs.len(),
{
    if runs.len() == 0 {
        0
    } else {
        let m = max_count(runs.drop_last());
        if runs.last().0 > m {
            runs.last().0
        } else {
            m
        }
    }
}

/// The words that `runs` stand for, written out.
pub open spec fn expand(runs: Seq<(nat, Seq<u8>)>) -> Seq<u8>
    decreases runs.len(),
{
    if runs.len() == 0 {
        Seq::empty()
    } else {
        expand(runs.drop_last()) + repeat(runs.last().1, runs.last().0)
    }
}

/// Every run has a positive length and a 4-byte word.
pub open spec fn runs_wf(runs: Seq<(nat, Seq<u8>)>) -> bool {
    forall|j: int| 0 <= j < runs.len() ==> (#[trigger] runs[j]).0 >= 1 && runs[j].1.len() == 4
}

proof fn lemma_max_count<'a>(runs: Seq<(nat, Seq<u8>)>)
    ensures
        forall|j: int| 0 <= j < runs.len() ==> (#[trigger] runs[j]).0 <= max_count(runs),
    decreases runs.len(),
{
    if runs.len() > 0 {
        lemma_max_count(runs.drop_last());
        assert forall|j: int| 0 <= j < runs.len() implies (#[trigger] runs[j]).0 <= max_count(
            runs,
        ) by {
            if j < runs.len() - 1 {
                assert(runs[j] == runs.drop_last()[j]);
            }
        }
    }
}

proof fn lemma_runs_wf(ws: Seq<Seq<u8>>)
    requires
        forall|i: int| 0 <= i < ws.len() ==> (#[trigger] ws[i]).len() == 4,
    ensures
        runs_wf(rle_runs(ws)),
        ws.len() > 0 ==> rle_runs(ws).len() > 0 && rle_runs(ws).last().1 == ws.last(),
        ws.len() == 0 ==> rle_runs(ws).len() == 0,
    decreases ws.len(),
{
    if ws.len() > 0 {
        let p = ws.drop_last();
        assert forall|i: int| 0 <= i < p.len() implies (#[trigger] p[i]).len() == 4 by {
            assert(p[i] == ws[i]);
        }
        lemma_runs_wf(p);
        assert(ws[ws.len() - 1].len() == 4);
    }
}

/// Counts of earlier runs only grow as words are appended.
proof fn lemma_runs_monotone(ws: Seq<Seq<u8>>, k: int, n: int)
    requires
        0 <= k <= n <= ws.len(),
    ensures
        rle_runs(ws.subrange(0, k)).len() <= rle_runs(ws.subrange(0, n)).len(),
        forall|j: int|
            0 <= j < rle_runs(ws.subrange(0, k)).len() ==> (#[trigger] rle_runs(
                ws.subrange(0, k),
            )[j]).0 <= rle_runs(ws.subrange(0, n))[j].0,
    decreases n - k,
{
    if k < n {
        lemma_runs_monotone(ws, k, n - 1);
        assert(ws.subrange(0, n).drop_last() =~= ws.subrange(0, n - 1));
    }
}

proof fn lemma_rle_bytes_len(runs: Seq<(nat, Seq<u8>)>)
    requires
        runs_wf(runs),
    ensures
        rle_bytes(runs).len() == 5 * runs.len(),
    decreases runs.len(),
{
    if runs.len() > 0 {
        let p = runs.drop_last();
        assert forall|j: int| 0 <= j < p.len() implies (#[trigger] p[j]).0 >= 1 && p[j].1.len()
            == 4 by {
            assert(p[j] == runs[j]);
        }
        lemma_rle_bytes_len(p);
        assert(runs[runs.len() - 1].1.len() == 4);
    }
}

/// Decoding the encoded runs writes out the runs.
proof fn lemma_decode_bytes(runs: Seq<(nat, Seq<u8>)>)
    requires
        runs_wf(runs),
        forall|j: int| 0 <= j < runs.len() ==> (#[trigger] runs[j]).0 <= 255,
    ensures
        rle_decode(rle_bytes(runs)) == expand(runs),
    decreases runs.len(),
{
    if runs.len() > 0 {
        let p = runs.drop_last();
        assert forall|j: int| 0 <= j < p.len() implies (#[trigger] p[j]).0 >= 1 && p[j].1.len()
            == 4 && p[j].0 <= 255 by {
            assert(p[j] == runs[j]);
        }
        lemma_decode_bytes(p);
        lemma_rle_bytes_len(p);
        lemma_rle_bytes_len(runs);
        let r = runs.last();
        assert(r == runs[runs.len() - 1]);
        let a = rle_bytes(p);
        let e = rle_bytes(runs);
        assert(e == a + seq![r.0 as u8] + r.1);
        let n = e.len() / 5;
        assert(n == runs.len());
        let base = 5 * (n - 1);
        assert(base == a.len());
        assert(e.subrange(0, base) =~= a);
        assert(e.subrange(base + 1, base + 5) =~= r.1);
        assert(e[base] == r.0 as u8);
        assert((r.0 as u8) as nat == r.0);
    }
}

proof fn lemma_repeat_succ(w: Seq<u8>, n: nat)
    ensures
        repeat(w, n + 1) == repeat(w, n) + w,
{
}

/// Writing out the runs of some words gives back the words.
proof fn lemma_expand_runs(ws: Seq<Seq<u8>>)
    requires
        forall|i: int| 0 <= i < ws.len() ==> (#[trigger] ws[i]).len() == 4,
    ensures
        expand(rle_runs(ws)) == words_concat(ws),
    decreases ws.len(),
{
    if ws.len() > 0 {
        let p = ws.drop_last();
        assert forall|i: int| 0 <= i < p.len() implies (#[trigger] p[i]).len() == 4 by {
            assert(p[i] == ws[i]);
        }
        lemma_expand_runs(p);
        lemma_runs_wf(p);
        let r = rle_runs(p);
        let w = ws.last();
        if r.len() > 0 && r.last().1 == w {
            let c = r.last().0;
            let r2 = r.update(r.len() - 1, (c + 1, w));
            assert(r2.drop_last() =~= r.drop_last());
            lemma_repeat_succ(w, c);
            assert(expand(r) == expand(r.drop_last()) + repeat(w, c));
            assert(expand(r2) == expand(r2.drop_last()) + repeat(w, c + 1));
            assert(expand(r2) =~= expand(r) + w);
        } else {
            let r2 = r.push((1nat, w));
            assert(r2.drop_last() =~= r);
            assert(repeat(w, 0) =~= Seq::<u8>::empty());
            assert(repeat(w, 1) =~= w);
        }
    }
}

proof fn lemma_words_concat(v: Seq<u8>, k: int)
    requires
        0 <= k <= v.len() / 4,
    ensures
        words_concat(words(v).subrange(0, k)) == v.subrange(0, 4 * k),
    decreases k,
{
    if k > 0 {
        lemma_words_concat(v, k - 1);
        assert(words(v).subrange(0, k).drop_last() =~= words(v).subrange(0, k - 1));
        assert(v.subrange(0, 4 * k) =~= v.subrange(0, 4 * (k - 1)) + v.subrange(
            4 * (k - 1),
            4 * k,
        ));
    }
}

/// Decoding undoes encoding on the whole words of `v`, when no run is longer than 255 words.
pub proof fn lemma_rle_round_trip(v: Seq<u8>)
    requires
        max_run(v) <= 255,
    ensures
        rle_decode(rle_encode(v)) == v.subrange(0, v.len() - v.len() % 4),
{
    let ws = words(v);
    assert forall|i: int| 0 <= i < ws.len() implies (#[trigger] ws[i]).len() == 4 by {}
    lemma_runs_wf(ws);
    lemma_max_count(rle_runs(ws));
    lemma_decode_bytes(rle_runs(ws));
    lemma_expand_runs(ws);
    lemma_words_concat(v, ws.len() as int);
    assert(ws.subrange(0, ws.len() as int) =~= ws);
    assert(4 * (v.len() / 4) == v.len() - v.len() % 4);
}

impl RLE {
    /// The word at index `i` of `values`, as its four bytes.
    fn word_at(values: &[u8], i: usize) -> (w: (u8, u8, u8, u8))
        requires
            i < values@.len() / 4,
        ensures
            seq![w.0, w.1, w.2, w.3] == words(values@)[i as int],
    {
        let len = values.len();
        assert(4 * i + 3 < values@.len()) by (nonlinear_arith)
            requires
                i < values@.len() / 4,
        ;
        let b = 4 * i;
        let w = (values[b], values[b + 1], values[b + 2], values[b + 3]);
        assert(seq![w.0, w.1, w.2, w.3] =~= values@.subrange(4 * i, 4 * i + 4));
        w
    }

    fn push_run(workspace: &mut DynArray<u8>, count: u8, w: (u8, u8, u8, u8))
        ensures
            final(workspace)@ == old(workspace)@ + seq![count] + seq![w.0, w.1, w.2, w.3],
    {
        workspace.push(count);
        workspace.push(w.0);
        workspace.push(w.1);
        workspace.push(w.2);
        workspace.push(w.3);
        assert(workspace@ =~= old(workspace)@ + seq![count] + seq![w.0, w.1, w.2, w.3]);
    }
}

impl Encoding for RLE {
    open spec fn spec_encode(values: Seq<u8>) -> Seq<u8> {
        rle_encode(values)
    }

    open spec fn spec_decode(values: Seq<u8>) -> Seq<u8> {
        rle_decode(values)
    }

    /// At least one whole word, and no run longer than a byte can count.
    open spec fn encode_requires(values: Seq<u8>) -> bool {
        values.len() >= 4 && max_run(values) <= 255
    }

    fn encode(values: &[u8]) -> (r: DynArray<u8>) {
        let ghost ws = words(values@);
        let count_u32 = values.len() / 4;
        proof {
            assert forall|i: int| 0 <= i < ws.len() implies (#[trigger] ws[i]).len() == 4 by {}
            lemma_runs_wf(ws);
            lemma_max_count(rle_runs(ws));
            assert(ws.len() >= 1);
            let s1 = ws.subrange(0, 1);
            assert(s1.drop_last() =~= Seq::<Seq<u8>>::empty());
            assert(s1.last() == ws[0]);
            assert(rle_runs(s1.drop_last()) =~= Seq::<(nat, Seq<u8>)>::empty());
            assert(rle_runs(s1) == Seq::<(nat, Seq<u8>)>::empty().push((1nat, ws[0])));
            assert(rle_runs(s1).drop_last() =~= Seq::<(nat, Seq<u8>)>::empty());
            assert(rle_bytes(Seq::<(nat, Seq<u8>)>::empty()) =~= Seq::<u8>::empty());
        }
        let mut current = Self::word_at(values, 0);
        let mut current_count: u8 = 1;
        let mut workspace = DynArray::<u8>::new();
        let mut i: usize = 1;
        while i < count_u32
            invariant
                1 <= i <= count_u32,
                count_u32 == ws.len(),
                ws == words(values@),
                forall|j: int| 0 <= j < ws.len() ==> (#[trigger] ws[j]).len() == 4,
                forall|j: int|
                    0 <= j < rle_runs(ws).len() ==> (#[trigger] rle_runs(ws)[j]).0 <= 255,
                rle_runs(ws.subrange(0, i as int)).len() > 0,
                workspace@ == rle_bytes(rle_runs(ws.subrange(0, i as int)).drop_last()),
                rle_runs(ws.subrange(0, i as int)).last() == (
                    current_count as nat,
                    seq![current.0, current.1, current.2, current.3],
                ),
            decreases count_u32 - i,
        {
            let ghost r = rle_runs(ws.subrange(0, i as int));
            let num = Self::word_at(values, i);
            proof {
                assert(ws.subrange(0, i + 1).drop_last() =~= ws.subrange(0, i as int));
                assert(ws.subrange(0, i + 1).last() == ws[i as int]);
            }
            if num.0 != current.0 || num.1 != current.1 || num.2 != current.2 || num.3
                != current.3 {
                proof {
                    let r2 = r.push((1nat, ws[i as int]));
                    assert(seq![num.0, num.1, num.2, num.3] != seq![current.0, current.1, current.2, current.3]) by {
                        if seq![num.0, num.1, num.2, num.3] == seq![current.0, current.1, current.2, current.3] {
                            assert(seq![num.0, num.1, num.2, num.3][0] == num.0);
                            assert(seq![num.0, num.1, num.2, num.3][1] == num.1);
                            assert(seq![num.0, num.1, num.2, num.3][2] == num.2);
                            assert(seq![num.0, num.1, num.2, num.3][3] == num.3);
                        }
                    }
                    assert(r2.drop_last() =~= r);
                    assert(rle_bytes(r) == rle_bytes(r.drop_last()) + seq![current_count] + seq![
                        current.0,
                        current.1,
                        current.2,
                        current.3,
                    ]);
                }
                Self::push_run(&mut workspace, current_count, current);
                current = num;
                current_count = 1;
            } else {
                proof {
                    assert(seq![num.0, num.1, num.2, num.3] =~= seq![current.0, current.1, current.2, current.3]);
                    lemma_runs_monotone(ws, i + 1, ws.len() as int);
                    assert(ws.subrange(0, ws.len() as int) =~= ws);
                    let r2 = rle_runs(ws.subrange(0, i + 1));
                    assert(r2 == r.update(r.len() - 1, (r.last().0 + 1, ws[i as int])));
                    assert(r2[r2.len() - 1].0 <= 255);
                    assert(r2.drop_last() =~= r.drop_last());
                }
                current_count = current_count + 1;
            }
            i = i + 1;
        }
        proof {
            let r = rle_runs(ws.subrange(0, i as int));
            assert(ws.subrange(0, i as int) =~= ws);
            assert(rle_bytes(r) == rle_bytes(r.drop_last()) + seq![current_count] + seq![
                current.0,
                current.1,
                current.2,
                current.3,
            ]);
        }
        Self::push_run(&mut workspace, current_count, current);
        workspace
    }

    fn encode_replace(values: &mut DynArray<u8>) {
        let workspace = Self::encode(values.as_slice());
        let n = workspace.get_count();
        let mut replaced = DynArray::<u8>::new_with_cap(n);
        replaced.push_ptr(workspace.as_slice());
        *values = replaced;
    }

    fn decode(values: &[u8]) -> (r: DynArray<u8>) {
        let mut workspace = DynArray::<u8>::new();
        let loop_to = values.len() / 5;
        let mut i: usize = 0;
        while i < loop_to
            invariant
                0 <= i <= loop_to,
                loop_to == values@.len() / 5,
                workspace@ == rle_decode(values@.subrange(0, 5 * i)),
            decreases loop_to - i,
        {
            let base = i * 5;
            let seq_num = values[base];
            let w = (values[base + 1], values[base + 2], values[base + 3], values[base + 4]);
            let ghost before = workspace@;
            let mut k: u8 = 0;
            while k < seq_num
                invariant
                    0 <= k <= seq_num,
                    workspace@ == before + repeat(seq![w.0, w.1, w.2, w.3], k as nat),
                decreases seq_num - k,
            {
                workspace.push(w.0);
                workspace.push(w.1);
                workspace.push(w.2);
                workspace.push(w.3);
                proof {
                    lemma_repeat_succ(seq![w.0, w.1, w.2, w.3], k as nat);
                }
                k = k + 1;
                assert(workspace@ =~= before + repeat(seq![w.0, w.1, w.2, w.3], k as nat));
            }
            proof {
                let e = values@.subrange(0, 5 * (i + 1));
                assert(e.len() / 5 == i + 1);
                assert(e.subrange(0, 5 * i) =~= values@.subrange(0, 5 * i));
                assert(e.subrange(5 * i + 1, 5 * i + 5) =~= seq![w.0, w.1, w.2, w.3]);
                assert(e[5 * i] == seq_num);
            }
            i = i + 1;
        }
        proof {
            let e = values@;
            let n = e.len() / 5;
            assert(rle_decode(e) == rle_decode(e.subrange(0, 5 * (n as int)))) by {
                lemma_decode_prefix(e);
            }
        }
        workspace
    }

    fn decode_replace(values: &mut DynArray<u8>) {
        let workspace = Self::decode(values.as_slice());
        let n = workspace.get_count();
        let mut replaced = DynArray::<u8>::new_with_cap(n);
        replaced.push_ptr(workspace.as_slice());
        *values = replaced;
    }

    proof fn lemma_decode_encode(values: Seq<u8>) {
        lemma_rle_round_trip(values);
    }
}

/// Trailing bytes after the last whole group do not change the decoding.
proof fn lemma_decode_prefix(e: Seq<u8>)
    ensures
        rle_decode(e) == rle_decode(e.subrange(0, 5 * ((e.len() / 5) as int))),
{
    let n = (e.len() / 5) as int;
    let f = e.subrange(0, 5 * n);
    assert(f.len() / 5 == n);
    if n > 0 {
        let base = 5 * (n - 1);
        assert(f.subrange(0, base) =~= e.subrange(0, base));
        assert(f.subrange(base + 1, base + 5) =~= e.subrange(base + 1, base + 5));
        assert(f[base] == e[base]);
    }
}

} // verus!
