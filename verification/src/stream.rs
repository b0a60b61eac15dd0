//! Write sequences: what a run of values looks like in a buffer, and where
//! it ends.

use crate::align::{lemma_pow2_positive, lemma_round_up_bounds, padding_for};
use crate::image::zeros;
use crate::rule::{all_wf, LayoutRule};
use vstd::prelude::*;

verus! {

/// Where a run of values ends that starts at `start` and holds one value for
/// each rule, in order, each on its own alignment boundary.
pub open spec fn replay(start: nat, rules: Seq<LayoutRule>) -> nat
    decreases rules.len(),
{
    if rules.len() == 0 {
        start
    } else {
        rules.last().end_after(replay(start, rules.drop_last()))
    }
}

/// A longer run of values ends no earlier than any of its prefixes.
pub proof fn lemma_replay_prefix(start: nat, rules: Seq<LayoutRule>, i: int)
    requires
        all_wf(rules),
        0 <= i <= rules.len(),
    ensures
        start <= replay(start, rules.take(i)) <= replay(start, rules),
    decreases rules.len() - i,
{
    if i == rules.len() {
        assert(rules.take(i) == rules);
        lemma_replay_from_start(start, rules);
    } else {
        lemma_replay_prefix(start, rules, i + 1);
        lemma_replay_step(start, rules, i);
        lemma_replay_from_start(start, rules.take(i));
    }
}

/// A run of values ends no earlier than it starts.
proof fn lemma_replay_from_start(start: nat, rules: Seq<LayoutRule>)
    requires
        all_wf(rules),
    ensures
        start <= replay(start, rules),
    decreases rules.len(),
{
    if rules.len() > 0 {
        lemma_replay_from_start(start, rules.drop_last());
        assert(rules.last() == rules[rules.len() - 1]);
        lemma_pow2_positive(rules.last().alignment as nat);
        lemma_round_up_bounds(replay(start, rules.drop_last()), rules.last().alignment as nat);
    }
}

/// One more value ends where its rule puts it after the values before.
pub proof fn lemma_replay_step(start: nat, rules: Seq<LayoutRule>, i: int)
    requires
        all_wf(rules),
        0 <= i < rules.len(),
    ensures
        replay(start, rules.take(i + 1)) == rules[i].end_after(replay(start, rules.take(i))),
        replay(start, rules.take(i)) <= rules[i].start_after(replay(start, rules.take(i))),
        rules[i].start_after(replay(start, rules.take(i))) % (rules[i].alignment as nat) == 0,
{
    assert(rules.take(i + 1).drop_last() == rules.take(i));
    assert(rules.take(i + 1).last() == rules[i]);
    lemma_pow2_positive(rules[i].alignment as nat);
    lemma_round_up_bounds(replay(start, rules.take(i)), rules[i].alignment as nat);
}

/// What a sink holds after one more value: the bytes before, zero bytes up
/// to the value's alignment boundary, then the value's image. The boundary
/// is measured from `cursor`, the number of bytes that the write sequence
/// has produced so far.
pub open spec fn emit(before: Seq<u8>, cursor: nat, alignment: nat, image: Seq<u8>) -> Seq<u8> {
    before + zeros(padding_for(cursor, alignment)) + image
}

/// What a sink holds after a sequence of values with the rules `rules` and
/// the images `images`, written in order.
pub open spec fn emit_all(
    before: Seq<u8>,
    cursor: nat,
    rules: Seq<LayoutRule>,
    images: Seq<Seq<u8>>,
) -> Seq<u8>
    recommends
        rules.len() == images.len(),
    decreases rules.len(),
{
    if rules.len() == 0 {
        before
    } else {
        emit(
            emit_all(before, cursor, rules.drop_last(), images.drop_last()),
            replay(cursor, rules.drop_last()),
            rules.last().alignment as nat,
            images.last(),
        )
    }
}

/// Whether each image is as long as its rule says.
pub open spec fn sized(rules: Seq<LayoutRule>, images: Seq<Seq<u8>>) -> bool {
    &&& rules.len() == images.len()
    &&& forall|i: int| 0 <= i < rules.len() ==> (#[trigger] images[i]).len() == rules[i].size
}

/// A sizer counts exactly the bytes that a writer emits: over any sequence
/// of values whose images are as long as their rules say, the sink grows by
/// as much as the cursor advances.
pub proof fn lemma_sizer_counts_emitted_bytes(
    before: Seq<u8>,
    cursor: nat,
    rules: Seq<LayoutRule>,
    images: Seq<Seq<u8>>,
)
    requires
        all_wf(rules),
        sized(rules, images),
    ensures
        emit_all(before, cursor, rules, images).len() - before.len() == replay(cursor, rules)
            - cursor,
    decreases rules.len(),
{
    if rules.len() > 0 {
        let head = rules.drop_last();
        let head_images = images.drop_last();
        assert(all_wf(head)) by {
            assert forall|i: int| 0 <= i < head.len() implies (#[trigger] head[i]).wf() by {
                assert(head[i] == rules[i]);
            }
        }
        assert forall|i: int| 0 <= i < head.len() implies (#[trigger] head_images[i]).len()
            == head[i].size by {
            assert(head_images[i] == images[i]);
            assert(head[i] == rules[i]);
        }
        lemma_sizer_counts_emitted_bytes(before, cursor, head, head_images);
        assert(rules.last() == rules[rules.len() - 1]);
        assert(images.last() == images[rules.len() - 1]);
        lemma_pow2_positive(rules.last().alignment as nat);
        lemma_round_up_bounds(replay(cursor, head), rules.last().alignment as nat);
    }
}

/// Values written one after the other into an empty buffer end where a
/// sizer that replays their rules ends.
pub proof fn lemma_emit_all_len(rules: Seq<LayoutRule>, images: Seq<Seq<u8>>)
    requires
        all_wf(rules),
        sized(rules, images),
    ensures
        emit_all(Seq::empty(), 0, rules, images).len() == replay(0, rules),
{
    lemma_sizer_counts_emitted_bytes(Seq::empty(), 0, rules, images);
}

/// Writing the first `i + 1` values is writing the first `i`, then value
/// `i`.
pub proof fn lemma_emit_all_step(rules: Seq<LayoutRule>, images: Seq<Seq<u8>>, i: int)
    requires
        rules.len() == images.len(),
        0 <= i < rules.len(),
    ensures
        emit_all(Seq::empty(), 0, rules.take(i + 1), images.take(i + 1)) == emit(
            emit_all(Seq::empty(), 0, rules.take(i), images.take(i)),
            replay(0, rules.take(i)),
            rules[i].alignment as nat,
            images[i],
        ),
{
    assert(rules.take(i + 1).drop_last() == rules.take(i));
    assert(images.take(i + 1).drop_last() == images.take(i));
    assert(rules.take(i + 1).last() == rules[i]);
    assert(images.take(i + 1).last() == images[i]);
}

/// Every prefix of a sequence of well-sized values is well sized.
pub proof fn lemma_sized_prefix(rules: Seq<LayoutRule>, images: Seq<Seq<u8>>, i: int)
    requires
        all_wf(rules),
        sized(rules, images),
        0 <= i <= rules.len(),
    ensures
        all_wf(rules.take(i)),
        sized(rules.take(i), images.take(i)),
{
    assert forall|j: int| 0 <= j < i implies (#[trigger] rules.take(i)[j]).wf() && (
    #[trigger] images.take(i)[j]).len() == rules.take(i)[j].size by {
        assert(rules.take(i)[j] == rules[j]);
        assert(images.take(i)[j] == images[j]);
        assert(rules[j].wf());
    }
}

/// What is written stays: the bytes of the first `i` values are the start
/// of the bytes of any more values.
pub proof fn lemma_emit_all_prefix(rules: Seq<LayoutRule>, images: Seq<Seq<u8>>, i: int, n: int)
    requires
        all_wf(rules),
        sized(rules, images),
        0 <= i <= n <= rules.len(),
    ensures
        emit_all(Seq::empty(), 0, rules.take(i), images.take(i)).len() == replay(
            0,
            rules.take(i),
        ),
        emit_all(Seq::empty(), 0, rules.take(i), images.take(i)).len() <= emit_all(
            Seq::empty(),
            0,
            rules.take(n),
            images.take(n),
        ).len(),
        emit_all(Seq::empty(), 0, rules.take(n), images.take(n)).subrange(
            0,
            replay(0, rules.take(i)) as int,
        ) == emit_all(Seq::empty(), 0, rules.take(i), images.take(i)),
    decreases n - i,
{
    lemma_sized_prefix(rules, images, i);
    lemma_emit_all_len(rules.take(i), images.take(i));
    let short = emit_all(Seq::empty(), 0, rules.take(i), images.take(i));
    if i == n {
        assert(short.subrange(0, short.len() as int) == short);
    } else {
        lemma_emit_all_prefix(rules, images, i, n - 1);
        lemma_emit_all_step(rules, images, n - 1);
        let middle = emit_all(Seq::empty(), 0, rules.take(n - 1), images.take(n - 1));
        let long = emit_all(Seq::empty(), 0, rules.take(n), images.take(n));
        assert(long.subrange(0, short.len() as int) == middle.subrange(0, short.len() as int));
    }
}

} // verus!
