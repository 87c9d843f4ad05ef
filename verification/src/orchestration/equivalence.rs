//! What the speculative loop promises, held against the plain greedy loop.
//!
//! The target is taken as what it is to the loops: a function `greedy` from the
//! tokens it holds to the token it chooses behind them, and a set `ends` of
//! tokens that end a generation. Nothing is taken of the drafts: they may be
//! any tokens, a different draft in every step.

use vstd::prelude::*;

use crate::orchestration::generate::{BaselineView, GenerateView};
use crate::token::LlamaToken;

verus! {

/// What the target generates on its own behind the tokens `held`, up to `n`
/// tokens: its own choice, again and again, until one ends the generation.
pub open spec fn greedy_stream(
    greedy: spec_fn(Seq<LlamaToken>) -> LlamaToken,
    ends: spec_fn(LlamaToken) -> bool,
    held: Seq<LlamaToken>,
    n: nat,
) -> Seq<LlamaToken>
    decreases n,
{
    if n == 0 {
        Seq::empty()
    } else {
        let next = greedy(held);
        if ends(next) {
            seq![next]
        } else {
            seq![next] + greedy_stream(greedy, ends, held.push(next), (n - 1) as nat)
        }
    }
}

/// The plain loop, run to its end on a target that holds `prompt`.
pub open spec fn baseline_run(
    greedy: spec_fn(Seq<LlamaToken>) -> LlamaToken,
    ends: spec_fn(LlamaToken) -> bool,
    prompt: Seq<LlamaToken>,
    v: BaselineView,
) -> BaselineView
    decreases v.n_predict - v.tokens.len(),
{
    if v.done() {
        v
    } else {
        let next = greedy(prompt + v.tokens);
        baseline_run(greedy, ends, prompt, v.step(next, ends(next)))
    }
}

/// The target's choices in one pass over the drafts: at index `i`, what it puts
/// behind the tokens `held` and the first `i` drafts.
pub open spec fn choices(
    greedy: spec_fn(Seq<LlamaToken>) -> LlamaToken,
    held: Seq<LlamaToken>,
    drafts: Seq<LlamaToken>,
) -> Seq<LlamaToken> {
    Seq::new(drafts.len() + 1, |i: int| greedy(held + drafts.take(i)))
}

/// One step of the loop with these drafts.
pub open spec fn mtp_step(
    greedy: spec_fn(Seq<LlamaToken>) -> LlamaToken,
    ends: spec_fn(LlamaToken) -> bool,
    prompt: Seq<LlamaToken>,
    drafts: Seq<LlamaToken>,
    v: GenerateView,
) -> GenerateView {
    let chosen = choices(greedy, prompt + v.tokens, drafts);
    v.step(drafts, chosen, chosen.map_values(ends))
}

/// The speculative loop, run to its end on a target that holds `prompt`, with
/// the drafts `drafts(i)` in the step that is pass `i` of the target.
pub open spec fn mtp_run(
    greedy: spec_fn(Seq<LlamaToken>) -> LlamaToken,
    ends: spec_fn(LlamaToken) -> bool,
    prompt: Seq<LlamaToken>,
    drafts: spec_fn(nat) -> Seq<LlamaToken>,
    v: GenerateView,
) -> GenerateView
    decreases v.n_predict - v.tokens.len(),
{
    if v.done() {
        v
    } else {
        proof {
            let d = drafts(v.target_passes);
            let chosen = choices(greedy, prompt + v.tokens, d);
            lemma_step_counts(v, d, chosen, chosen.map_values(ends));
        }
        mtp_run(
            greedy,
            ends,
            prompt,
            drafts,
            mtp_step(greedy, ends, prompt, drafts(v.target_passes), v),
        )
    }
}

/// How many tokens are taken: no more than there are or than are wanted, and
/// fewer than both only behind one that ends the generation; at least one,
/// where there is one and one is wanted.
proof fn lemma_taken(ends: Seq<bool>, room: nat)
    ensures
        crate::orchestration::generate::taken(ends, room) <= ends.len(),
        crate::orchestration::generate::taken(ends, room) <= room,
        ends.len() > 0 && room > 0 ==> crate::orchestration::generate::taken(ends, room) > 0,
        !crate::orchestration::generate::taken_ends(ends, room)
            && crate::orchestration::generate::taken(ends, room) < room
            ==> crate::orchestration::generate::taken(ends, room) == ends.len(),
    decreases ends.len(),
{
    if ends.len() == 0 || room == 0 || ends[0] {
    } else {
        let rest = ends.drop_first();
        lemma_taken(rest, (room - 1) as nat);
        let k = crate::orchestration::generate::taken(rest, (room - 1) as nat);
        if k > 0 {
            assert(rest[k - 1] == ends[k as int]);
        }
    }
}

/// What a step does to the counts, whatever the target chose.
pub proof fn lemma_step_counts(
    v: GenerateView,
    drafts: Seq<LlamaToken>,
    chosen: Seq<LlamaToken>,
    ends: Seq<bool>,
)
    requires
        !v.done(),
        chosen.len() == drafts.len() + 1,
        ends.len() == chosen.len(),
    ensures
        ({
            let w = v.step(drafts, chosen, ends);
            let n = GenerateView::n_accepted(drafts, chosen) as int;
            &&& n <= drafts.len()
            &&& v.tokens.len() < w.tokens.len() <= v.tokens.len() + n + 1
            &&& w.tokens.len() <= w.n_predict
            &&& !w.done() ==> w.tokens == v.tokens + chosen.take(n + 1)
        }),
{
    let n = GenerateView::n_accepted(drafts, chosen) as int;
    crate::orchestration::helpers::lemma_agreement(chosen.drop_last(), drafts);
    lemma_taken(ends.take(n + 1), (v.n_predict - v.tokens.len()) as nat);
}

/// The target's own stream begins with the target's choices of one pass, up to
/// the first that is not the draft, as many of them as are taken.
proof fn lemma_stream_begins(
    greedy: spec_fn(Seq<LlamaToken>) -> LlamaToken,
    ends: spec_fn(LlamaToken) -> bool,
    held: Seq<LlamaToken>,
    chosen: Seq<LlamaToken>,
    room: nat,
)
    requires
        forall|i: int| 0 <= i < chosen.len() ==> #[trigger] chosen[i] == greedy(held + chosen.take(i)),
    ensures
        ({
            let flags = chosen.map_values(ends);
            let k = crate::orchestration::generate::taken(flags, room);
            greedy_stream(greedy, ends, held, room) == chosen.take(k as int) + (
            if crate::orchestration::generate::taken_ends(flags, room) {
                Seq::empty()
            } else {
                greedy_stream(greedy, ends, held + chosen.take(k as int), (room - k) as nat)
            })
        }),
    decreases chosen.len(),
{
    let flags = chosen.map_values(ends);
    let k = crate::orchestration::generate::taken(flags, room);
    if chosen.len() == 0 || room == 0 {
        assert(chosen.take(0) =~= Seq::empty());
        assert(held + chosen.take(0) =~= held);
    } else {
        let next = chosen[0];
        assert(held + chosen.take(0) =~= held);
        assert(next == greedy(held));
        if ends(next) {
            assert(chosen.take(1) =~= seq![next]);
        } else {
            let rest = chosen.drop_first();
            let more = held.push(next);
            assert forall|i: int| 0 <= i < rest.len() implies #[trigger] rest[i] == greedy(
                more + rest.take(i),
            ) by {
                assert(chosen[i + 1] == greedy(held + chosen.take(i + 1)));
                assert(held + chosen.take(i + 1) =~= more + rest.take(i));
            }
            lemma_stream_begins(greedy, ends, more, rest, (room - 1) as nat);
            assert(rest.map_values(ends) =~= flags.drop_first());
            let j = crate::orchestration::generate::taken(flags.drop_first(), (room - 1) as nat);
            lemma_taken(flags.drop_first(), (room - 1) as nat);
            assert(k == j + 1);
            assert(chosen.take(k as int) =~= seq![next] + rest.take(j as int));
            assert(held + chosen.take(k as int) =~= more + rest.take(j as int));
            if j > 0 {
                assert(flags.drop_first()[j - 1] == flags[k - 1]);
            }
            let tail = if crate::orchestration::generate::taken_ends(flags, room) {
                Seq::empty()
            } else {
                greedy_stream(greedy, ends, held + chosen.take(k as int), (room - k) as nat)
            };
            assert(seq![next] + (rest.take(j as int) + tail) =~= chosen.take(k as int) + tail);
        }
    }
}

/// What a loop that is not over satisfies between steps: its last token is the
/// last one generated, and its position follows the prompt and the tokens
/// before it.
pub open spec fn in_step(prompt: Seq<LlamaToken>, v: GenerateView) -> bool {
    !v.done() ==> {
        &&& v.tokens.len() > 0
        &&& v.tokens.last() == v.id_last
        &&& v.n_past == prompt.len() + v.tokens.len() - 1
    }
}

/// Between steps the loop is in step with its tokens: it is so at the start,
/// and every step keeps it so, whatever was drafted and chosen.
pub proof fn law_in_step(
    prompt: Seq<LlamaToken>,
    first: LlamaToken,
    first_ends: bool,
    n_predict: nat,
    v: GenerateView,
    drafts: Seq<LlamaToken>,
    chosen: Seq<LlamaToken>,
    ends: Seq<bool>,
)
    requires
        chosen.len() == drafts.len() + 1,
        ends.len() == chosen.len(),
    ensures
        in_step(prompt, GenerateView::start(prompt.len(), first, first_ends, n_predict)),
        in_step(prompt, v) && !v.done() ==> in_step(prompt, v.step(drafts, chosen, ends)),
{
    if in_step(prompt, v) && !v.done() {
        lemma_step_counts(v, drafts, chosen, ends);
    }
}

/// The target's cache is right between steps. It holds the prompt and every
/// generated token but the last; a pass adds the last token and the drafts; when
/// every position from the next one on is taken out again, it holds the prompt
/// and every generated token but the new last one.
pub proof fn law_target_cache(
    prompt: Seq<LlamaToken>,
    v: GenerateView,
    drafts: Seq<LlamaToken>,
    chosen: Seq<LlamaToken>,
    ends: Seq<bool>,
)
    requires
        in_step(prompt, v),
        !v.done(),
        chosen.len() == drafts.len() + 1,
        ends.len() == chosen.len(),
        !v.step(drafts, chosen, ends).done(),
    ensures
        ({
            let w = v.step(drafts, chosen, ends);
            let next_pos = v.n_past + GenerateView::n_accepted(drafts, chosen) + 1;
            let cache = prompt + v.tokens.drop_last();
            &&& cache.len() == v.n_past
            &&& (cache + seq![v.id_last] + drafts).take(next_pos) == prompt + w.tokens.drop_last()
            &&& next_pos == w.n_past
        }),
{
    let w = v.step(drafts, chosen, ends);
    let n = GenerateView::n_accepted(drafts, chosen) as int;
    lemma_step_counts(v, drafts, chosen, ends);
    crate::orchestration::helpers::lemma_agreement(chosen.drop_last(), drafts);
    let cache = prompt + v.tokens.drop_last();
    let after = (cache + seq![v.id_last] + drafts).take(v.n_past + n + 1);
    let held = prompt + w.tokens.drop_last();
    assert(after.len() == held.len());
    assert forall|i: int| 0 <= i < after.len() implies after[i] == held[i] by {
        if i > v.n_past {
            let j = i - v.n_past - 1;
            assert(chosen.drop_last()[j] == drafts[j]);
        }
    }
    assert(after =~= held);
}

/// What the counts of a run say: the target never runs more passes than tokens
/// come out, and the tokens are those of the passes, the accepted drafts and the
/// one behind the prompt, but for what is cut off at the end.
pub open spec fn counts_agree(v: GenerateView) -> bool {
    v.n_predict > 0 ==> {
        &&& v.target_passes < v.tokens.len() <= 1 + v.target_passes + v.accepted_total
        &&& v.tokens.len() <= v.n_predict
        &&& !v.done() ==> v.tokens.len() == 1 + v.target_passes + v.accepted_total
    }
}

/// Every step of the loop makes progress, and its counts agree: they do at the
/// start, and every step keeps them so, whatever was drafted and chosen. A step
/// generates at least one token and at most one more than it accepts drafts.
pub proof fn law_progress(
    n_prompt: nat,
    first: LlamaToken,
    first_ends: bool,
    n_predict: nat,
    v: GenerateView,
    drafts: Seq<LlamaToken>,
    chosen: Seq<LlamaToken>,
    ends: Seq<bool>,
)
    requires
        chosen.len() == drafts.len() + 1,
        ends.len() == chosen.len(),
    ensures
        counts_agree(GenerateView::start(n_prompt, first, first_ends, n_predict)),
        counts_agree(v) && !v.done() ==> counts_agree(v.step(drafts, chosen, ends)),
        !v.done() ==> v.tokens.len() < v.step(drafts, chosen, ends).tokens.len()
            <= v.tokens.len() + GenerateView::n_accepted(drafts, chosen) + 1,
{
    if !v.done() {
        lemma_step_counts(v, drafts, chosen, ends);
    }
}

/// A run that is under way comes to its tokens so far and then the target's own
/// stream behind them.
proof fn lemma_mtp_run(
    greedy: spec_fn(Seq<LlamaToken>) -> LlamaToken,
    ends: spec_fn(LlamaToken) -> bool,
    prompt: Seq<LlamaToken>,
    drafts: spec_fn(nat) -> Seq<LlamaToken>,
    v: GenerateView,
)
    requires
        v.tokens.len() <= v.n_predict,
    ensures
        mtp_run(greedy, ends, prompt, drafts, v).tokens == v.tokens + (if v.ended {
            Seq::empty()
        } else {
            greedy_stream(
                greedy,
                ends,
                prompt + v.tokens,
                (v.n_predict - v.tokens.len()) as nat,
            )
        }),
        mtp_run(greedy, ends, prompt, drafts, v).done(),
    decreases v.n_predict - v.tokens.len(),
{
    if v.done() {
        assert(v.tokens + Seq::<LlamaToken>::empty() =~= v.tokens);
    } else {
        let d = drafts(v.target_passes);
        let held = prompt + v.tokens;
        let room = (v.n_predict - v.tokens.len()) as nat;
        let all = choices(greedy, held, d);
        let n = GenerateView::n_accepted(d, all) as int;
        let flags = all.map_values(ends);
        let w = mtp_step(greedy, ends, prompt, d, v);
        lemma_step_counts(v, d, all, flags);
        crate::orchestration::helpers::lemma_agreement(all.drop_last(), d);

        let chosen = all.take(n + 1);
        assert forall|i: int| 0 <= i < chosen.len() implies #[trigger] chosen[i] == greedy(
            held + chosen.take(i),
        ) by {
            assert forall|j: int| 0 <= j < i implies d[j] == chosen[j] by {
                assert(all.drop_last()[j] == d[j]);
            }
            assert(d.take(i) =~= chosen.take(i));
        }
        lemma_stream_begins(greedy, ends, held, chosen, room);
        assert(chosen.map_values(ends) =~= flags.take(n + 1));
        let k = crate::orchestration::generate::taken(flags.take(n + 1), room);
        lemma_taken(flags.take(n + 1), room);
        assert(chosen.take(k as int) =~= all.take(k as int));
        assert(w.tokens == v.tokens + chosen.take(k as int));

        lemma_mtp_run(greedy, ends, prompt, drafts, w);
        assert(prompt + w.tokens =~= held + chosen.take(k as int));
        let tail = if w.ended {
            Seq::empty()
        } else {
            greedy_stream(greedy, ends, prompt + w.tokens, (room - k) as nat)
        };
        assert(w.tokens + tail =~= v.tokens + (chosen.take(k as int) + tail));
    }
}

/// A plain run that is under way comes to its tokens so far and then the
/// target's own stream behind them.
proof fn lemma_baseline_run(
    greedy: spec_fn(Seq<LlamaToken>) -> LlamaToken,
    ends: spec_fn(LlamaToken) -> bool,
    prompt: Seq<LlamaToken>,
    v: BaselineView,
)
    requires
        v.tokens.len() <= v.n_predict,
    ensures
        baseline_run(greedy, ends, prompt, v).tokens == v.tokens + (if v.ended {
            Seq::empty()
        } else {
            greedy_stream(
                greedy,
                ends,
                prompt + v.tokens,
                (v.n_predict - v.tokens.len()) as nat,
            )
        }),
    decreases v.n_predict - v.tokens.len(),
{
    if v.done() {
        assert(v.tokens + Seq::<LlamaToken>::empty() =~= v.tokens);
    } else {
        let next = greedy(prompt + v.tokens);
        let w = v.step(next, ends(next));
        lemma_baseline_run(greedy, ends, prompt, w);
        assert(prompt + w.tokens =~= (prompt + v.tokens).push(next));
        let tail = if w.ended {
            Seq::empty()
        } else {
            greedy_stream(greedy, ends, prompt + w.tokens, (w.n_predict - w.tokens.len()) as nat)
        };
        assert(w.tokens + tail =~= v.tokens + (seq![next] + tail));
        assert(seq![next] + Seq::<LlamaToken>::empty() =~= seq![next]);
    }
}

/// The plain loop generates the target's own stream.
pub proof fn law_baseline_is_greedy(
    greedy: spec_fn(Seq<LlamaToken>) -> LlamaToken,
    ends: spec_fn(LlamaToken) -> bool,
    prompt: Seq<LlamaToken>,
    n_predict: nat,
)
    ensures
        baseline_run(greedy, ends, prompt, BaselineView::start(prompt.len(), n_predict)).tokens
            == greedy_stream(greedy, ends, prompt, n_predict),
{
    lemma_baseline_run(greedy, ends, prompt, BaselineView::start(prompt.len(), n_predict));
    assert(prompt + Seq::<LlamaToken>::empty() =~= prompt);
    assert(Seq::<LlamaToken>::empty() + greedy_stream(greedy, ends, prompt, n_predict)
        =~= greedy_stream(greedy, ends, prompt, n_predict));
}

/// Drafting changes nothing: whatever is drafted, the speculative loop ends with
/// token for token what the plain loop generates.
pub proof fn law_mtp_matches_greedy(
    greedy: spec_fn(Seq<LlamaToken>) -> LlamaToken,
    ends: spec_fn(LlamaToken) -> bool,
    prompt: Seq<LlamaToken>,
    drafts: spec_fn(nat) -> Seq<LlamaToken>,
    n_predict: nat,
)
    ensures
        ({
            let first = greedy(prompt);
            let start = GenerateView::start(prompt.len(), first, ends(first), n_predict);
            let end = mtp_run(greedy, ends, prompt, drafts, start);
            &&& end.done()
            &&& end.tokens == baseline_run(
                greedy,
                ends,
                prompt,
                BaselineView::start(prompt.len(), n_predict),
            ).tokens
        }),
{
    let first = greedy(prompt);
    let start = GenerateView::start(prompt.len(), first, ends(first), n_predict);
    law_baseline_is_greedy(greedy, ends, prompt, n_predict);
    lemma_mtp_run(greedy, ends, prompt, drafts, start);
    if n_predict > 0 {
        assert(prompt + start.tokens =~= prompt.push(first));
        assert(seq![first] + Seq::<LlamaToken>::empty() =~= seq![first]);
    }
}

/// Whatever is drafted, a step generates what the target would have generated on
/// its own: if every token so far is the target's choice behind the prompt and
/// the tokens before it, so is every token after the step.
pub proof fn law_step_stays_greedy(
    greedy: spec_fn(Seq<LlamaToken>) -> LlamaToken,
    prompt: Seq<LlamaToken>,
    v: GenerateView,
    drafts: Seq<LlamaToken>,
    chosen: Seq<LlamaToken>,
    ends: Seq<bool>,
)
    requires
        !v.ended,
        v.tokens.len() < v.n_predict,
        chosen.len() == drafts.len() + 1,
        ends.len() == chosen.len(),
        forall|i: int|
            0 <= i < chosen.len() ==> #[trigger] chosen[i] == greedy(
                (prompt + v.tokens) + drafts.take(i),
            ),
        forall|i: int|
            0 <= i < v.tokens.len() ==> #[trigger] v.tokens[i] == greedy(prompt + v.tokens.take(i)),
    ensures
        ({
            let w = v.step(drafts, chosen, ends);
            forall|i: int|
                0 <= i < w.tokens.len() ==> #[trigger] w.tokens[i] == greedy(
                    prompt + w.tokens.take(i),
                )
        }),
{
    let w = v.step(drafts, chosen, ends);
    let n = GenerateView::n_accepted(drafts, chosen) as int;
    crate::orchestration::generate::law_generate_step(v, drafts, chosen, ends);
    assert forall|i: int| 0 <= i < w.tokens.len() implies #[trigger] w.tokens[i] == greedy(
        prompt + w.tokens.take(i),
    ) by {
        let len = v.tokens.len() as int;
        if i < len {
            assert(w.tokens[i] == v.tokens[i]);
            assert(w.tokens.take(i) =~= v.tokens.take(i));
        } else {
            let j = i - len;
            assert(w.tokens[i] == chosen[j]);
            assert forall|m: int| 0 <= m < j implies drafts[m] == chosen[m] by {}
            assert(prompt + w.tokens.take(i) =~= (prompt + v.tokens) + drafts.take(j));
        }
    }
}

/// The target's own stream, token by token: each is the target's choice behind
/// the tokens before it, none but the last ends the generation, and there are
/// fewer than wanted only where the last one does.
pub proof fn law_greedy_stream(
    greedy: spec_fn(Seq<LlamaToken>) -> LlamaToken,
    ends: spec_fn(LlamaToken) -> bool,
    held: Seq<LlamaToken>,
    n: nat,
)
    ensures
        ({
            let s = greedy_stream(greedy, ends, held, n);
            &&& s.len() <= n
            &&& forall|i: int| 0 <= i < s.len() ==> #[trigger] s[i] == greedy(held + s.take(i))
            &&& forall|i: int| 0 <= i < s.len() - 1 ==> !ends(#[trigger] s[i])
            &&& s.len() < n ==> s.len() > 0 && ends(s.last())
        }),
    decreases n,
{
    if n > 0 {
        let next = greedy(held);
        let s = greedy_stream(greedy, ends, held, n);
        assert(held + s.take(0) =~= held);
        if !ends(next) {
            let more = held.push(next);
            let rest = greedy_stream(greedy, ends, more, (n - 1) as nat);
            law_greedy_stream(greedy, ends, more, (n - 1) as nat);
            assert forall|i: int| 0 <= i < s.len() implies #[trigger] s[i] == greedy(
                held + s.take(i),
            ) by {
                if i > 0 {
                    assert(s[i] == rest[i - 1]);
                    assert(held + s.take(i) =~= more + rest.take(i - 1));
                }
            }
            assert forall|i: int| 0 <= i < s.len() - 1 implies !ends(#[trigger] s[i]) by {
                if i > 0 {
                    assert(s[i] == rest[i - 1]);
                }
            }
            if rest.len() > 0 {
                assert(s.last() == rest.last());
            }
        }
    }
}

/// What both loops generate, whatever is drafted: each token is the target's
/// choice behind the prompt and the tokens before it, none but the last ends the
/// generation, and there are fewer than wanted only where the last one does.
pub proof fn law_generated_tokens(
    greedy: spec_fn(Seq<LlamaToken>) -> LlamaToken,
    ends: spec_fn(LlamaToken) -> bool,
    prompt: Seq<LlamaToken>,
    drafts: spec_fn(nat) -> Seq<LlamaToken>,
    n_predict: nat,
)
    ensures
        ({
            let first = greedy(prompt);
            let start = GenerateView::start(prompt.len(), first, ends(first), n_predict);
            let t = mtp_run(greedy, ends, prompt, drafts, start).tokens;
            &&& t.len() <= n_predict
            &&& forall|i: int| 0 <= i < t.len() ==> #[trigger] t[i] == greedy(prompt + t.take(i))
            &&& forall|i: int| 0 <= i < t.len() - 1 ==> !ends(#[trigger] t[i])
            &&& t.len() < n_predict ==> t.len() > 0 && ends(t.last())
        }),
        ({
            let start = BaselineView::start(prompt.len(), n_predict);
            let t = baseline_run(greedy, ends, prompt, start).tokens;
            &&& t.len() <= n_predict
            &&& forall|i: int| 0 <= i < t.len() ==> #[trigger] t[i] == greedy(prompt + t.take(i))
            &&& forall|i: int| 0 <= i < t.len() - 1 ==> !ends(#[trigger] t[i])
            &&& t.len() < n_predict ==> t.len() > 0 && ends(t.last())
        }),
{
    law_baseline_is_greedy(greedy, ends, prompt, n_predict);
    law_mtp_matches_greedy(greedy, ends, prompt, drafts, n_predict);
    law_greedy_stream(greedy, ends, prompt, n_predict);
}

/// The target's choices in one pass: one more than there are drafts, and the one
/// at index `i` is what the target puts behind what it holds and the first `i`
/// drafts.
pub proof fn law_choices(
    greedy: spec_fn(Seq<LlamaToken>) -> LlamaToken,
    held: Seq<LlamaToken>,
    drafts: Seq<LlamaToken>,
)
    ensures
        choices(greedy, held, drafts).len() == drafts.len() + 1,
        forall|i: int|
            0 <= i <= drafts.len() ==> #[trigger] choices(greedy, held, drafts)[i] == greedy(
                held + drafts.take(i),
            ),
{
}

} // verus!
