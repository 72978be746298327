//! What holds of the chunker over a whole input: runs of the model and their laws.
use vstd::prelude::*;

use crate::parser::{
    close_fence, closing_reserve, fence_tag, final_text, finish_model, guard, initial_model,
    is_fence, n_chunks, newline, open_fence, overflows, step_model, ChunkerModel, Emitted,
};

verus! {

/// The states before and after each line of `lines`, and what each line emitted.
pub open spec fn run_model(m: ChunkerModel, lines: Seq<Seq<char>>) -> (Seq<ChunkerModel>, Seq<Emitted>)
    decreases lines.len(),
{
    if lines.len() == 0 {
        (seq![m], Seq::empty())
    } else {
        let (ss, es) = run_model(m, lines.drop_last());
        let (q, e) = step_model(ss.last(), lines.last());
        (ss.push(q), es.push(e))
    }
}

/// Everything a fresh chunker emits for `lines`, the end of input included.
pub open spec fn emissions(lines: Seq<Seq<char>>, max_len: nat, chunk_len: nat) -> Seq<Emitted> {
    let (ss, es) = run_model(initial_model(max_len, chunk_len), lines);
    es.push(finish_model(ss.last()).1)
}

/// The text an emission carries (nothing for `Continuing`).
pub open spec fn emitted_text(e: Emitted) -> Seq<char> {
    match e {
        Emitted::Continuing => Seq::empty(),
        Emitted::SoftFlush(t) => t,
        Emitted::Sealed(t) => t,
    }
}

/// The lines, each followed by a newline.
pub open spec fn lines_text(lines: Seq<Seq<char>>) -> Seq<char>
    decreases lines.len(),
{
    if lines.len() == 0 {
        Seq::empty()
    } else {
        lines_text(lines.drop_last()) + lines.last() + newline()
    }
}

/// A fence line as the chunker inserts it to reopen a block: marker, tag, newline.
pub open spec fn is_opener(s: Seq<char>) -> bool {
    s.len() >= 4 && s == open_fence(s.subrange(3, s.len() - 1))
}

/// The part of the buffer that came from the input (after any reopened fence).
pub open spec fn pending_input(m: ChunkerModel) -> Seq<char> {
    m.buffer.subrange(m.reopened.len() as int, m.buffer.len() as int)
}

/// The input text that a seal on `line` carries away (nothing if it does not seal).
pub open spec fn sealed_piece(m: ChunkerModel, line: Seq<char>) -> Seq<char> {
    if overflows(m, line) {
        pending_input(m)
    } else {
        Seq::empty()
    }
}

/// The input pieces of the seals of the first `k` lines, in order.
pub open spec fn sealed_pieces(ss: Seq<ChunkerModel>, lines: Seq<Seq<char>>, k: nat) -> Seq<char>
    decreases k,
{
    if k == 0 {
        Seq::empty()
    } else {
        sealed_pieces(ss, lines, (k - 1) as nat) + sealed_piece(ss[k - 1], lines[k - 1])
    }
}

/// The state that each step of a run goes through.
pub proof fn lemma_run_steps(m: ChunkerModel, lines: Seq<Seq<char>>)
    ensures
        ({
            let (ss, es) = run_model(m, lines);
            &&& ss.len() == lines.len() + 1
            &&& es.len() == lines.len()
            &&& ss[0] == m
            &&& forall|k: int|
                0 <= k < lines.len() ==> (ss[k + 1], es[k]) == #[trigger] step_model(
                    ss[k],
                    lines[k],
                )
        }),
    decreases lines.len(),
{
    if lines.len() > 0 {
        lemma_run_steps(m, lines.drop_last());
        let (ss, es) = run_model(m, lines);
        let (ps, pe) = run_model(m, lines.drop_last());
        assert forall|k: int| 0 <= k < lines.len() implies (ss[k + 1], es[k]) == #[trigger] step_model(
            ss[k],
            lines[k],
        ) by {
            if k < lines.len() - 1 {
                assert(lines[k] == lines.drop_last()[k]);
                assert(step_model(ps[k], lines.drop_last()[k]) == (ps[k + 1], pe[k]));
            }
        }
    }
}

/// The lines are short enough for every message to fit: each line with its newline
/// and a closing fence, and each line after a reopened fence of any fence line.
pub open spec fn lines_fit(lines: Seq<Seq<char>>, max_len: nat) -> bool {
    &&& forall|i: int| 0 <= i < lines.len() ==> #[trigger] lines[i].len() + 5 <= max_len
    &&& forall|i: int, j: int|
        0 <= i < lines.len() && 0 <= j < lines.len() && is_fence(#[trigger] lines[j])
            ==> #[trigger] lines[i].len() + lines[j].len() + 6 <= max_len
}

spec fn bounded(m: ChunkerModel, lines: Seq<Seq<char>>, max_len: nat, chunk_len: nat) -> bool {
    &&& m.max_len == max_len
    &&& m.chunk_len == chunk_len
    &&& m.buffer.len() + closing_reserve(m.in_code) <= max_len
    &&& m.in_code ==> forall|i: int|
        0 <= i < lines.len() ==> #[trigger] lines[i].len() + m.lang.len() + 9 <= max_len
}

proof fn lemma_step_bounded(
    m: ChunkerModel,
    lines: Seq<Seq<char>>,
    k: int,
    max_len: nat,
    chunk_len: nat,
)
    requires
        chunk_len > 0,
        0 <= k < lines.len(),
        lines_fit(lines, max_len),
        bounded(m, lines, max_len, chunk_len),
    ensures
        bounded(step_model(m, lines[k]).0, lines, max_len, chunk_len),
        emitted_text(step_model(m, lines[k]).1).len() <= max_len,
{
    let line = lines[k];
    assert(line.len() + 5 <= max_len);
    if is_fence(line) && !m.in_code {
        assert forall|i: int| 0 <= i < lines.len() implies #[trigger] lines[i].len() + line.subrange(
            3,
            line.len() as int,
        ).len() + 9 <= max_len by {
            assert(lines[i].len() + lines[k].len() + 6 <= max_len);
        }
    }
}

/// No message that the chunker emits, sealed or in progress, is longer than the
/// ceiling, where no line is too long to fit in one message on its own.
pub proof fn lemma_chunks_within_ceiling(lines: Seq<Seq<char>>, max_len: nat, chunk_len: nat)
    requires
        chunk_len > 0,
        lines_fit(lines, max_len),
    ensures
        forall|k: int|
            0 <= k < emissions(lines, max_len, chunk_len).len() ==> #[trigger] emitted_text(
                emissions(lines, max_len, chunk_len)[k],
            ).len() <= max_len,
{
    let m0 = initial_model(max_len, chunk_len);
    lemma_run_steps(m0, lines);
    let (ss, es) = run_model(m0, lines);
    assert forall|k: int| 0 <= k <= lines.len() implies bounded(
        #[trigger] ss[k],
        lines,
        max_len,
        chunk_len,
    ) by {
        lemma_run_bounded(ss, es, lines, k, max_len, chunk_len);
    }
    let all = emissions(lines, max_len, chunk_len);
    assert forall|k: int| 0 <= k < all.len() implies #[trigger] emitted_text(all[k]).len()
        <= max_len by {
        if k < lines.len() {
            assert(step_model(ss[k], lines[k]) == (ss[k + 1], es[k]));
            lemma_step_bounded(ss[k], lines, k, max_len, chunk_len);
            assert(all[k] == es[k]);
        } else {
            assert(bounded(ss[lines.len() as int], lines, max_len, chunk_len));
        }
    }
}

proof fn lemma_run_bounded(
    ss: Seq<ChunkerModel>,
    es: Seq<Emitted>,
    lines: Seq<Seq<char>>,
    k: int,
    max_len: nat,
    chunk_len: nat,
)
    requires
        chunk_len > 0,
        lines_fit(lines, max_len),
        (ss, es) == run_model(initial_model(max_len, chunk_len), lines),
        ss.len() == lines.len() + 1,
        ss[0] == initial_model(max_len, chunk_len),
        forall|j: int|
            0 <= j < lines.len() ==> (ss[j + 1], es[j]) == #[trigger] step_model(ss[j], lines[j]),
        0 <= k <= lines.len(),
    ensures
        bounded(ss[k], lines, max_len, chunk_len),
    decreases k,
{
    if k > 0 {
        lemma_run_bounded(ss, es, lines, k - 1, max_len, chunk_len);
        lemma_step_bounded(ss[k - 1], lines, k - 1, max_len, chunk_len);
        assert(step_model(ss[k - 1], lines[k - 1]) == (ss[k], es[k - 1]));
    }
}

/// The input text of the last seal: the pending input without its final newline.
pub open spec fn final_piece(m: ChunkerModel) -> Seq<char> {
    pending_input(m).drop_last()
}

/// The closing fence of the last seal, written after the input's last line.
pub open spec fn final_suffix(m: ChunkerModel) -> Seq<char> {
    if m.in_code {
        newline() + guard()
    } else {
        Seq::empty()
    }
}

spec fn restoring(ss: Seq<ChunkerModel>, lines: Seq<Seq<char>>, k: int) -> bool {
    let m = ss[k];
    &&& m.reopened.len() <= m.buffer.len()
    &&& m.buffer.subrange(0, m.reopened.len() as int) == m.reopened
    &&& m.reopened.len() == 0 || is_opener(m.reopened)
    &&& sealed_pieces(ss, lines, k as nat) + pending_input(m) == lines_text(lines.take(k))
    &&& k > 0 ==> pending_input(m).len() > 0 && pending_input(m).last() == '\n'
}

proof fn lemma_run_restoring(ss: Seq<ChunkerModel>, es: Seq<Emitted>, lines: Seq<Seq<char>>, k: int)
    requires
        ss.len() == lines.len() + 1,
        ss[0].buffer.len() == 0,
        ss[0].reopened.len() == 0,
        forall|j: int|
            0 <= j < lines.len() ==> (ss[j + 1], es[j]) == #[trigger] step_model(ss[j], lines[j]),
        0 <= k <= lines.len(),
    ensures
        restoring(ss, lines, k),
    decreases k,
{
    if k == 0 {
        assert(lines.take(0) =~= Seq::<Seq<char>>::empty());
        assert(pending_input(ss[0]) =~= Seq::<char>::empty());
        assert(ss[0].buffer.subrange(0, 0) =~= ss[0].reopened);
    } else {
        lemma_run_restoring(ss, es, lines, k - 1);
        let m = ss[k - 1];
        let line = lines[k - 1];
        let q = ss[k];
        assert(step_model(m, line) == (q, es[k - 1]));
        assert(lines.take(k).drop_last() =~= lines.take(k - 1));
        assert(lines.take(k).last() == line);
        assert(lines_text(lines.take(k)) == lines_text(lines.take(k - 1)) + line + newline());
        if overflows(m, line) {
            assert(q.buffer.subrange(0, q.reopened.len() as int) =~= q.reopened);
            assert(pending_input(q) =~= line + newline());
            if q.reopened.len() > 0 {
                assert(q.reopened.subrange(3, q.reopened.len() - 1) =~= m.lang);
            }
        } else {
            assert(q.buffer.subrange(0, q.reopened.len() as int) =~= q.reopened);
            assert(pending_input(q) =~= pending_input(m) + line + newline());
        }
        assert(sealed_pieces(ss, lines, k as nat) + pending_input(q) =~= lines_text(
            lines.take(k),
        ));
    }
}

/// Every seal is the input text it carries, between a reopened fence and a closing
/// fence that the chunker inserted (each possibly absent); those input texts, in
/// order, are the input itself, up to its final newline.
pub proof fn lemma_seals_restore_input(lines: Seq<Seq<char>>, max_len: nat, chunk_len: nat)
    requires
        chunk_len > 0,
    ensures
        ({
            let (ss, es) = run_model(initial_model(max_len, chunk_len), lines);
            let n = lines.len() as int;
            &&& forall|k: int|
                0 <= k < n ==> ((#[trigger] es[k]) is Sealed <==> overflows(ss[k], lines[k]))
            &&& forall|k: int|
                0 <= k < n && (#[trigger] es[k]) is Sealed ==> es[k]->Sealed_0 == ss[k].reopened
                    + sealed_piece(ss[k], lines[k]) + if ss[k].in_code {
                    close_fence()
                } else {
                    Seq::empty()
                }
            &&& forall|k: int|
                0 <= k <= n ==> (#[trigger] ss[k]).reopened.len() == 0 || is_opener(
                    ss[k].reopened,
                )
            &&& n == 0 ==> finish_model(ss[n]).1 == Emitted::Continuing
            &&& n > 0 ==> finish_model(ss[n]).1 == Emitted::Sealed(
                ss[n].reopened + final_piece(ss[n]) + final_suffix(ss[n]),
            )
            &&& n > 0 ==> sealed_pieces(ss, lines, n as nat) + final_piece(ss[n]) + newline()
                == lines_text(lines)
        }),
{
    let m0 = initial_model(max_len, chunk_len);
    lemma_run_steps(m0, lines);
    let (ss, es) = run_model(m0, lines);
    let n = lines.len() as int;
    assert forall|k: int| 0 <= k <= n implies restoring(ss, lines, k) by {
        lemma_run_restoring(ss, es, lines, k);
    }
    assert forall|k: int| 0 <= k < n && (#[trigger] es[k]) is Sealed implies es[k]->Sealed_0
        == ss[k].reopened + sealed_piece(ss[k], lines[k]) + if ss[k].in_code {
        close_fence()
    } else {
        Seq::empty()
    } by {
        assert(step_model(ss[k], lines[k]) == (ss[k + 1], es[k]));
        assert(restoring(ss, lines, k));
        assert(ss[k].buffer =~= ss[k].reopened + pending_input(ss[k]));
    }
    assert forall|k: int| 0 <= k < n implies ((#[trigger] es[k]) is Sealed <==> overflows(
        ss[k],
        lines[k],
    )) by {
        assert(step_model(ss[k], lines[k]) == (ss[k + 1], es[k]));
    }
    assert forall|k: int| 0 <= k <= n implies (#[trigger] ss[k]).reopened.len() == 0 || is_opener(
        ss[k].reopened,
    ) by {
        assert(restoring(ss, lines, k));
    }
    if n > 0 {
        let m = ss[n];
        assert(restoring(ss, lines, n));
        assert(lines.take(n) =~= lines);
        let p = pending_input(m);
        assert(m.buffer =~= m.reopened + p);
        assert(p =~= final_piece(m) + newline());
        assert(final_text(m) =~= m.reopened + final_piece(m) + final_suffix(m));
        assert(sealed_pieces(ss, lines, n as nat) + final_piece(m) + newline()
            =~= sealed_pieces(ss, lines, n as nat) + p);
    } else {
        assert(ss[0] == m0);
    }
}

/// `a` is `b` cut short (or `b` itself).
pub open spec fn is_prefix(a: Seq<char>, b: Seq<char>) -> bool {
    a.len() <= b.len() && b.subrange(0, a.len() as int) == a
}

proof fn lemma_quiet_window(
    ss: Seq<ChunkerModel>,
    es: Seq<Emitted>,
    lines: Seq<Seq<char>>,
    k1: int,
    j: int,
)
    requires
        ss.len() == lines.len() + 1,
        forall|i: int|
            0 <= i < lines.len() ==> (ss[i + 1], es[i]) == #[trigger] step_model(ss[i], lines[i]),
        0 <= k1 < j <= lines.len(),
        forall|i: int| k1 < i < j ==> !((#[trigger] es[i]) is Sealed),
    ensures
        is_prefix(ss[k1 + 1].buffer, ss[j].buffer),
        ss[k1 + 1].goal <= ss[j].goal,
    decreases j - k1,
{
    if j > k1 + 1 {
        lemma_quiet_window(ss, es, lines, k1, j - 1);
        assert(step_model(ss[j - 1], lines[j - 1]) == (ss[j], es[j - 1]));
        assert(ss[j].buffer.subrange(0, ss[j - 1].buffer.len() as int) =~= ss[j - 1].buffer);
        assert(ss[j].buffer.subrange(0, ss[k1 + 1].buffer.len() as int) =~= ss[j - 1].buffer.subrange(
            0,
            ss[k1 + 1].buffer.len() as int,
        ));
    } else {
        assert(ss[j].buffer.subrange(0, ss[j].buffer.len() as int) =~= ss[j].buffer);
    }
}

/// A seal resets the soft-flush goal to one; a soft flush sends the whole buffer once
/// it holds the goal's number of units and raises the goal by one; and between two
/// soft flushes with no seal in between, the later one sends the earlier one's text
/// extended, at a higher goal.
pub proof fn lemma_soft_flush_progress(lines: Seq<Seq<char>>, max_len: nat, chunk_len: nat)
    requires
        chunk_len > 0,
    ensures
        ({
            let (ss, es) = run_model(initial_model(max_len, chunk_len), lines);
            let n = lines.len() as int;
            &&& forall|k: int| 0 <= k <= n ==> (#[trigger] ss[k]).goal >= 1
            &&& forall|k: int|
                0 <= k < n && (#[trigger] es[k]) is Sealed ==> ss[k + 1].goal == 1
            &&& forall|k: int|
                0 <= k < n && (#[trigger] es[k]) is SoftFlush ==> {
                    &&& es[k]->SoftFlush_0 == ss[k + 1].buffer
                    &&& n_chunks(ss[k + 1]) >= ss[k].goal
                    &&& ss[k + 1].goal == ss[k].goal + 1
                }
            &&& forall|k1: int, k2: int|
                0 <= k1 < k2 < n && (#[trigger] es[k1]) is SoftFlush && (#[trigger] es[k2]) is SoftFlush
                    && (forall|i: int| k1 < i <= k2 ==> !((#[trigger] es[i]) is Sealed)) ==> {
                    &&& is_prefix(es[k1]->SoftFlush_0, es[k2]->SoftFlush_0)
                    &&& ss[k1 + 1].goal < ss[k2 + 1].goal
                }
        }),
{
    let m0 = initial_model(max_len, chunk_len);
    lemma_run_steps(m0, lines);
    let (ss, es) = run_model(m0, lines);
    let n = lines.len() as int;
    assert forall|k: int| 0 <= k <= n implies (#[trigger] ss[k]).goal >= 1 by {
        lemma_goal_positive(ss, es, lines, k);
    }
    assert forall|k: int| 0 <= k < n && (#[trigger] es[k]) is Sealed implies ss[k + 1].goal
        == 1 by {
        assert(step_model(ss[k], lines[k]) == (ss[k + 1], es[k]));
    }
    assert forall|k: int| 0 <= k < n && (#[trigger] es[k]) is SoftFlush implies {
        &&& es[k]->SoftFlush_0 == ss[k + 1].buffer
        &&& n_chunks(ss[k + 1]) >= ss[k].goal
        &&& ss[k + 1].goal == ss[k].goal + 1
    } by {
        assert(step_model(ss[k], lines[k]) == (ss[k + 1], es[k]));
    }
    assert forall|k1: int, k2: int|
        0 <= k1 < k2 < n && (#[trigger] es[k1]) is SoftFlush && (#[trigger] es[k2]) is SoftFlush
            && (forall|i: int| k1 < i <= k2 ==> !((#[trigger] es[i]) is Sealed)) implies {
        &&& is_prefix(es[k1]->SoftFlush_0, es[k2]->SoftFlush_0)
        &&& ss[k1 + 1].goal < ss[k2 + 1].goal
    } by {
        lemma_quiet_window(ss, es, lines, k1, k2);
        assert(step_model(ss[k1], lines[k1]) == (ss[k1 + 1], es[k1]));
        assert(step_model(ss[k2], lines[k2]) == (ss[k2 + 1], es[k2]));
        assert(ss[k2 + 1].buffer.subrange(0, ss[k2].buffer.len() as int) =~= ss[k2].buffer);
        assert(ss[k2 + 1].buffer.subrange(0, ss[k1 + 1].buffer.len() as int) =~= ss[k2].buffer.subrange(
            0,
            ss[k1 + 1].buffer.len() as int,
        ));
    }
}

proof fn lemma_goal_positive(ss: Seq<ChunkerModel>, es: Seq<Emitted>, lines: Seq<Seq<char>>, k: int)
    requires
        ss.len() == lines.len() + 1,
        ss[0].goal == 1,
        forall|i: int|
            0 <= i < lines.len() ==> (ss[i + 1], es[i]) == #[trigger] step_model(ss[i], lines[i]),
        0 <= k <= lines.len(),
    ensures
        ss[k].goal >= 1,
    decreases k,
{
    if k > 0 {
        lemma_goal_positive(ss, es, lines, k - 1);
        assert(step_model(ss[k - 1], lines[k - 1]) == (ss[k], es[k - 1]));
    }
}

/// Whether a code block is open after `lines`: each fence line opens or closes one.
pub open spec fn block_open(lines: Seq<Seq<char>>) -> bool
    decreases lines.len(),
{
    if lines.len() == 0 {
        false
    } else {
        block_open(lines.drop_last()) != is_fence(lines.last())
    }
}

/// The tag of the fence line that opened the last code block of `lines`.
pub open spec fn block_tag(lines: Seq<Seq<char>>) -> Seq<char>
    decreases lines.len(),
{
    if lines.len() == 0 {
        Seq::empty()
    } else if is_fence(lines.last()) && !block_open(lines.drop_last()) {
        fence_tag(lines.last())
    } else {
        block_tag(lines.drop_last())
    }
}

proof fn lemma_run_blocks(ss: Seq<ChunkerModel>, es: Seq<Emitted>, lines: Seq<Seq<char>>, k: int)
    requires
        ss.len() == lines.len() + 1,
        !ss[0].in_code,
        ss[0].lang == Seq::<char>::empty(),
        forall|j: int|
            0 <= j < lines.len() ==> (ss[j + 1], es[j]) == #[trigger] step_model(ss[j], lines[j]),
        0 <= k <= lines.len(),
    ensures
        ss[k].in_code == block_open(lines.take(k)),
        ss[k].lang == block_tag(lines.take(k)),
    decreases k,
{
    if k == 0 {
        assert(lines.take(0) =~= Seq::<Seq<char>>::empty());
    } else {
        lemma_run_blocks(ss, es, lines, k - 1);
        assert(step_model(ss[k - 1], lines[k - 1]) == (ss[k], es[k - 1]));
        assert(lines.take(k).drop_last() =~= lines.take(k - 1));
        assert(lines.take(k).last() == lines[k - 1]);
    }
}

/// A line that is not a fence and does not fit while a code block is open splits
/// the block: the sealed message is the buffer with a closing fence line after it,
/// and the next message starts with an opening fence carrying the tag of the fence
/// line that opened the block, then the line.
pub proof fn lemma_code_block_split(lines: Seq<Seq<char>>, max_len: nat, chunk_len: nat)
    requires
        chunk_len > 0,
    ensures
        ({
            let (ss, es) = run_model(initial_model(max_len, chunk_len), lines);
            forall|k: int|
                0 <= k < lines.len() && block_open(lines.take(k)) && !is_fence(lines[k])
                    && overflows(#[trigger] ss[k], lines[k]) ==> {
                    &&& es[k] == Emitted::Sealed(ss[k].buffer + close_fence())
                    &&& ss[k + 1].buffer == open_fence(block_tag(lines.take(k))) + lines[k]
                        + newline()
                    &&& ss[k + 1].in_code
                }
        }),
{
    let m0 = initial_model(max_len, chunk_len);
    lemma_run_steps(m0, lines);
    let (ss, es) = run_model(m0, lines);
    assert forall|k: int|
        0 <= k < lines.len() && block_open(lines.take(k)) && !is_fence(lines[k]) && overflows(
            #[trigger] ss[k],
            lines[k],
        ) implies {
        &&& es[k] == Emitted::Sealed(ss[k].buffer + close_fence())
        &&& ss[k + 1].buffer == open_fence(block_tag(lines.take(k))) + lines[k] + newline()
        &&& ss[k + 1].in_code
    } by {
        lemma_run_blocks(ss, es, lines, k);
        assert(step_model(ss[k], lines[k]) == (ss[k + 1], es[k]));
    }
}

} // verus!
