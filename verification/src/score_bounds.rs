//! How much score the slots that are still empty can add at best.

use crate::mask::{bit, calculate_num_filled_slots, has_bit, in_domain, popcount};
use vstd::prelude::*;

verus! {

/// The largest total of at most `picks` scores, taken from the first `count`
/// buff types that `mask` does not use.
pub open spec fn best_sum(scores: Seq<u16>, mask: u16, count: nat, picks: nat) -> nat
    decreases count,
{
    if count == 0 || picks == 0 {
        0
    } else {
        let skip = best_sum(scores, mask, (count - 1) as nat, picks);
        if has_bit(mask, count - 1) {
            skip
        } else {
            let take = scores[count - 1] as nat + best_sum(
                scores,
                mask,
                (count - 1) as nat,
                (picks - 1) as nat,
            );
            if take > skip {
                take
            } else {
                skip
            }
        }
    }
}

/// The number of slots that `mask` leaves empty.
pub open spec fn slots_left(mask: u16) -> nat {
    if popcount(mask) >= 5 {
        0
    } else {
        (5 - popcount(mask)) as nat
    }
}

/// The best case for the empty slots of `mask`: the sum of the largest scores
/// among the unused buff types, one for each empty slot.
pub open spec fn best_case_remaining(scores: Seq<u16>, mask: u16) -> nat {
    best_sum(scores, mask, 13, slots_left(mask))
}

/// The sum of the first `len` entries of `top`.
pub open spec fn prefix_sum(top: Seq<u16>, len: nat) -> nat
    decreases len,
{
    if len == 0 {
        0
    } else {
        prefix_sum(top, (len - 1) as nat) + top[len - 1] as nat
    }
}

/// `best_sum` never shrinks when more picks are allowed, and each further pick
/// adds at most the largest score.
pub proof fn lemma_best_sum_grows(scores: Seq<u16>, mask: u16, count: nat, picks: nat)
    ensures
        best_sum(scores, mask, count, picks) <= best_sum(scores, mask, count, picks + 1),
        best_sum(scores, mask, count, picks) <= picks * 0xFFFF,
    decreases count,
{
    if count > 0 {
        lemma_best_sum_grows(scores, mask, (count - 1) as nat, picks);
        lemma_best_sum_grows(scores, mask, (count - 1) as nat, picks + 1);
        if picks > 0 {
            lemma_best_sum_grows(scores, mask, (count - 1) as nat, (picks - 1) as nat);
        }
    }
}

/// `top` holds, in descending order, the `picks` best scores seen so far: each
/// of its prefixes sums to the best total for that many picks.
spec fn tracks_best(top: Seq<u16>, scores: Seq<u16>, mask: u16, count: nat, picks: nat) -> bool {
    &&& top.len() == 5
    &&& picks <= 5
    &&& forall|a: int, b: int| 0 <= a < b < picks ==> top[a] >= top[b]
    &&& forall|t: nat| t <= picks ==> prefix_sum(top, t) == best_sum(scores, mask, count, t)
}

proof fn lemma_tracks_skip(top: Seq<u16>, scores: Seq<u16>, mask: u16, count: nat, picks: nat)
    requires
        tracks_best(top, scores, mask, count, picks),
        picks >= 1,
        has_bit(mask, count as int) || scores[count as int] <= top[picks - 1],
    ensures
        tracks_best(top, scores, mask, count + 1, picks),
{
    reveal_with_fuel(prefix_sum, 6);
    assert forall|t: nat| t <= picks implies prefix_sum(top, t) == best_sum(
        scores,
        mask,
        count + 1,
        t,
    ) by {
        if t > 0 && !has_bit(mask, count as int) {
            assert(prefix_sum(top, (t - 1) as nat) == best_sum(scores, mask, count, (t - 1) as nat));
            assert(top[t - 1] >= top[picks - 1]);
        }
    }
}

proof fn lemma_tracks_insert(
    old_top: Seq<u16>,
    top: Seq<u16>,
    scores: Seq<u16>,
    mask: u16,
    count: nat,
    picks: nat,
    at: int,
)
    requires
        tracks_best(old_top, scores, mask, count, picks),
        top.len() == 5,
        0 <= at < picks,
        !has_bit(mask, count as int),
        top[at] == scores[count as int],
        forall|i: int| 0 <= i < at ==> top[i] == old_top[i],
        forall|i: int| at < i < picks ==> top[i] == old_top[i - 1],
        at > 0 ==> scores[count as int] <= old_top[at - 1],
        scores[count as int] > old_top[at],
    ensures
        tracks_best(top, scores, mask, count + 1, picks),
{
    reveal_with_fuel(prefix_sum, 6);
    let s = scores[count as int];
    assert forall|a: int, b: int| 0 <= a < b < picks implies top[a] >= top[b] by {
        if b < at {
            assert(old_top[a] >= old_top[b]);
        } else if b == at {
            assert(old_top[a] >= old_top[at - 1]);
        } else if a < at {
            assert(old_top[a] >= old_top[b - 1]);
        } else if a == at {
            assert(old_top[at] >= old_top[b - 1] || at == b - 1);
        } else {
            assert(old_top[a - 1] >= old_top[b - 1]);
        }
    }
    assert forall|t: nat| t <= picks implies prefix_sum(top, t) == best_sum(
        scores,
        mask,
        count + 1,
        t,
    ) by {
        if t > 0 {
            assert(prefix_sum(old_top, (t - 1) as nat) == best_sum(
                scores,
                mask,
                count,
                (t - 1) as nat,
            ));
            assert(prefix_sum(old_top, t) == best_sum(scores, mask, count, t));
            if t <= at {
                assert(old_top[t - 1] >= old_top[at - 1]);
                lemma_prefix_agree(old_top, top, t);
            } else {
                assert(old_top[at] >= old_top[t - 1] || at == t - 1);
                lemma_prefix_shifted(old_top, top, s, at, t);
            }
        }
    }
}

proof fn lemma_prefix_agree(a: Seq<u16>, b: Seq<u16>, len: nat)
    requires
        forall|i: int| 0 <= i < len ==> a[i] == b[i],
    ensures
        prefix_sum(a, len) == prefix_sum(b, len),
    decreases len,
{
    if len > 0 {
        lemma_prefix_agree(a, b, (len - 1) as nat);
    }
}

proof fn lemma_prefix_shifted(old_top: Seq<u16>, top: Seq<u16>, s: u16, at: int, len: nat)
    requires
        0 <= at < len,
        top[at] == s,
        forall|i: int| 0 <= i < at ==> top[i] == old_top[i],
        forall|i: int| at < i < len ==> top[i] == old_top[i - 1],
    ensures
        prefix_sum(top, len) == prefix_sum(old_top, (len - 1) as nat) + s,
    decreases len,
{
    if len - 1 == at {
        lemma_prefix_agree(old_top, top, at as nat);
    } else {
        lemma_prefix_shifted(old_top, top, s, at, (len - 1) as nat);
    }
}

/// The largest total of at most `picks` entries of `scores`, taken from the
/// buff types that `mask` does not use.
pub fn top_scores_sum(mask: u16, scores: &[u16; 13], picks: usize) -> (total: u32)
    requires
        picks <= 5,
    ensures
        total == best_sum(scores@, mask, 13, picks as nat),
{
    if picks == 0 {
        return 0;
    }
    let mut top = [0u16; 5];
    proof {
        reveal_with_fuel(prefix_sum, 6);
    }
    let mut buff_index: usize = 0;
    while buff_index < 13
        invariant
            buff_index <= 13,
            1 <= picks <= 5,
            tracks_best(top@, scores@, mask, buff_index as nat, picks as nat),
        decreases 13 - buff_index,
    {
        let score = scores[buff_index];
        let shift: u16 = buff_index as u16;
        let used = (mask & (1u16 << shift)) != 0;
        proof {
            assert(shift < 16 ==> (((mask & (1u16 << shift)) != 0) <==> ((mask >> shift) & 1 == 1)))
                by (bit_vector);
        }
        if used || score <= top[picks - 1] {
            proof {
                lemma_tracks_skip(top@, scores@, mask, buff_index as nat, picks as nat);
            }
        } else {
            let ghost old_top = top@;
            let mut j: usize = picks - 1;
            while j > 0 && score > top[j - 1]
                invariant
                    j < picks <= 5,
                    top@.len() == 5,
                    old_top.len() == 5,
                    forall|i: int| 0 <= i <= j ==> top@[i] == old_top[i],
                    forall|i: int| j < i < picks ==> top@[i] == old_top[i - 1],
                    score > old_top[j as int],
                decreases j,
            {
                top[j] = top[j - 1];
                j -= 1;
            }
            top[j] = score;
            proof {
                lemma_tracks_insert(
                    old_top,
                    top@,
                    scores@,
                    mask,
                    buff_index as nat,
                    picks as nat,
                    j as int,
                );
            }
        }
        buff_index += 1;
    }
    let mut total: u32 = 0;
    let mut k: usize = 0;
    while k < picks
        invariant
            k <= picks <= 5,
            total == prefix_sum(top@, k as nat),
            total <= k * 0xFFFF,
            top@.len() == 5,
        decreases picks - k,
    {
        total = total + top[k] as u32;
        k += 1;
    }
    assert(prefix_sum(top@, picks as nat) == best_sum(scores@, mask, 13, picks as nat));
    total
}

/// The most that the empty slots of `mask` can still add: the sum of the
/// largest entries of `buff_max_score` among the buff types that `mask` does
/// not use, one entry for each empty slot.
pub fn best_case_remaining_score(mask: u16, buff_max_score: &[u16; 13]) -> (best: u16)
    requires
        best_case_remaining(buff_max_score@, mask) <= u16::MAX,
    ensures
        best == best_case_remaining(buff_max_score@, mask),
{
    let num_filled_slots = calculate_num_filled_slots(mask);
    if num_filled_slots >= 5 {
        return 0;
    }
    top_scores_sum(mask, buff_max_score, 5 - num_filled_slots) as u16
}


/// The sum of the entries of `values` for the buff types among the first
/// `count` that `mask` uses.
pub open spec fn mask_sum(values: Seq<u16>, mask: u16, count: nat) -> nat
    decreases count,
{
    if count == 0 {
        0
    } else {
        mask_sum(values, mask, (count - 1) as nat) + if has_bit(mask, count - 1) {
            values[count - 1] as nat
        } else {
            0
        }
    }
}

/// The number of buff types among the first `count` that `mask` uses.
pub open spec fn bits_below(mask: u16, count: nat) -> nat
    decreases count,
{
    if count == 0 {
        0
    } else {
        bits_below(mask, (count - 1) as nat) + if has_bit(mask, count - 1) {
            1nat
        } else {
            0nat
        }
    }
}

/// A mask uses at most as many buff types as it has bits set, and exactly as
/// many when it is in the domain.
pub proof fn lemma_bits_below_popcount(mask: u16)
    ensures
        bits_below(mask, 13) <= popcount(mask),
        in_domain(mask) ==> bits_below(mask, 13) == popcount(mask),
{
    assert(bit(mask, 0) <= 1 && bit(mask, 1) <= 1 && bit(mask, 2) <= 1 && bit(mask, 3) <= 1 && bit(
        mask,
        4,
    ) <= 1 && bit(mask, 5) <= 1 && bit(mask, 6) <= 1 && bit(mask, 7) <= 1 && bit(mask, 8) <= 1
        && bit(mask, 9) <= 1 && bit(mask, 10) <= 1 && bit(mask, 11) <= 1 && bit(mask, 12) <= 1)
        by (bit_vector);
    assert(mask & !0x1FFFu16 == 0 ==> bit(mask, 13) == 0 && bit(mask, 14) == 0 && bit(mask, 15)
        == 0) by (bit_vector);
    assert(bits_below(mask, 0) == 0);
    assert(bits_below(mask, 1) == bit(mask, 0));
    assert(bits_below(mask, 2) == bit(mask, 0) + bit(mask, 1));
    assert(bits_below(mask, 3) == bit(mask, 0) + bit(mask, 1) + bit(mask, 2));
    assert(bits_below(mask, 4) == bit(mask, 0) + bit(mask, 1) + bit(mask, 2) + bit(mask, 3));
    assert(bits_below(mask, 5) == bit(mask, 0) + bit(mask, 1) + bit(mask, 2) + bit(mask, 3) + bit(mask, 4));
    assert(bits_below(mask, 6) == bit(mask, 0) + bit(mask, 1) + bit(mask, 2) + bit(mask, 3) + bit(mask, 4) + bit(mask, 5));
    assert(bits_below(mask, 7) == bit(mask, 0) + bit(mask, 1) + bit(mask, 2) + bit(mask, 3) + bit(mask, 4) + bit(mask, 5) + bit(mask, 6));
    assert(bits_below(mask, 8) == bit(mask, 0) + bit(mask, 1) + bit(mask, 2) + bit(mask, 3) + bit(mask, 4) + bit(mask, 5) + bit(mask, 6) + bit(mask, 7));
    assert(bits_below(mask, 9) == bit(mask, 0) + bit(mask, 1) + bit(mask, 2) + bit(mask, 3) + bit(mask, 4) + bit(mask, 5) + bit(mask, 6) + bit(mask, 7) + bit(mask, 8));
    assert(bits_below(mask, 10) == bit(mask, 0) + bit(mask, 1) + bit(mask, 2) + bit(mask, 3) + bit(mask, 4) + bit(mask, 5) + bit(mask, 6) + bit(mask, 7) + bit(mask, 8) + bit(mask, 9));
    assert(bits_below(mask, 11) == bit(mask, 0) + bit(mask, 1) + bit(mask, 2) + bit(mask, 3) + bit(mask, 4) + bit(mask, 5) + bit(mask, 6) + bit(mask, 7) + bit(mask, 8) + bit(mask, 9) + bit(mask, 10));
    assert(bits_below(mask, 12) == bit(mask, 0) + bit(mask, 1) + bit(mask, 2) + bit(mask, 3) + bit(mask, 4) + bit(mask, 5) + bit(mask, 6) + bit(mask, 7) + bit(mask, 8) + bit(mask, 9) + bit(mask, 10) + bit(mask, 11));
    assert(bits_below(mask, 13) == bit(mask, 0) + bit(mask, 1) + bit(mask, 2) + bit(mask, 3) + bit(mask, 4) + bit(mask, 5) + bit(mask, 6) + bit(mask, 7) + bit(mask, 8) + bit(mask, 9) + bit(mask, 10) + bit(mask, 11) + bit(mask, 12));
}

/// Allowing more picks never lowers the best total.
pub proof fn lemma_best_sum_monotone(scores: Seq<u16>, mask: u16, count: nat, low: nat, high: nat)
    requires
        low <= high,
    ensures
        best_sum(scores, mask, count, low) <= best_sum(scores, mask, count, high),
    decreases high - low,
{
    if low < high {
        lemma_best_sum_grows(scores, mask, count, low);
        lemma_best_sum_monotone(scores, mask, count, low + 1, high);
    }
}

/// Offering more buff types never lowers the best total.
pub proof fn lemma_best_sum_widens(scores: Seq<u16>, mask: u16, low: nat, high: nat, picks: nat)
    requires
        low <= high,
    ensures
        best_sum(scores, mask, low, picks) <= best_sum(scores, mask, high, picks),
    decreases high,
{
    if low < high {
        lemma_best_sum_widens(scores, mask, low, (high - 1) as nat, picks);
    }
}

/// Excluding buff types never raises the best total.
pub proof fn lemma_best_sum_of_empty_mask(scores: Seq<u16>, mask: u16, count: nat, picks: nat)
    requires
        count <= 16,
    ensures
        best_sum(scores, mask, count, picks) <= best_sum(scores, 0, count, picks),
    decreases count,
{
    if count > 0 && picks > 0 {
        lemma_best_sum_of_empty_mask(scores, mask, (count - 1) as nat, picks);
        lemma_best_sum_of_empty_mask(scores, mask, (count - 1) as nat, (picks - 1) as nat);
        let shift = (count - 1) as u16;
        assert((0u16 >> shift) & 1 != 1) by (bit_vector);
    }
}

/// The scores of the buff types that a mask uses sum to no more than the best
/// total of as many picks among all buff types.
pub proof fn lemma_mask_sum_bounded(values: Seq<u16>, mask: u16, count: nat)
    requires
        count <= 16,
    ensures
        mask_sum(values, mask, count) <= best_sum(values, 0, count, bits_below(mask, count)),
    decreases count,
{
    if count > 0 {
        let rest = (count - 1) as nat;
        lemma_mask_sum_bounded(values, mask, rest);
        let shift = rest as u16;
        assert((0u16 >> shift) & 1 != 1) by (bit_vector);
        if has_bit(mask, count - 1) {
        } else {
            lemma_best_sum_widens(values, 0, rest, count, bits_below(mask, count));
        }
    }
}

/// A mask with at most five bits set sums to no more than the five largest
/// entries.
pub proof fn lemma_mask_sum_cap(values: Seq<u16>, mask: u16)
    requires
        popcount(mask) <= 5,
    ensures
        mask_sum(values, mask, 13) <= best_sum(values, 0, 13, 5),
{
    lemma_bits_below_popcount(mask);
    lemma_mask_sum_bounded(values, mask, 13);
    lemma_best_sum_monotone(values, 0, 13, bits_below(mask, 13), 5);
}

/// Where one sequence is pointwise below another, so is its sum over a mask.
pub proof fn lemma_mask_sum_pointwise(low: Seq<u16>, high: Seq<u16>, mask: u16, count: nat)
    requires
        count <= low.len(),
        count <= high.len(),
        forall|i: int| 0 <= i < count ==> low[i] <= high[i],
    ensures
        mask_sum(low, mask, count) <= mask_sum(high, mask, count),
    decreases count,
{
    if count > 0 {
        lemma_mask_sum_pointwise(low, high, mask, (count - 1) as nat);
    }
}

/// Setting one more bit adds that buff type's entry to the sum, and one to the
/// number of bits.
pub proof fn lemma_mask_sum_add_bit(values: Seq<u16>, mask: u16, buff: int, count: nat)
    requires
        0 <= buff < 13,
        count <= 16,
        !has_bit(mask, buff),
    ensures
        mask_sum(values, mask | (1u16 << (buff as u16)), count) == mask_sum(values, mask, count)
            + if buff < count {
            values[buff] as nat
        } else {
            0
        },
        popcount(mask | (1u16 << (buff as u16))) == popcount(mask) + 1,
        in_domain(mask) ==> in_domain(mask | (1u16 << (buff as u16))),
    decreases count,
{
    let b = buff as u16;
    if count > 0 {
        lemma_mask_sum_add_bit(values, mask, buff, (count - 1) as nat);
        let k = (count - 1) as u16;
        assert(b < 16 && k < 16 ==> ((((mask | (1u16 << b)) >> k) & 1 == 1) <==> ((mask >> k) & 1
            == 1 || k == b))) by (bit_vector);
    }
    assert(b < 13 && (mask >> b) & 1 != 1 ==> popcount(mask | (1u16 << b)) == popcount(mask) + 1)
        by (bit_vector);
    assert(b < 13 && mask & !0x1FFFu16 == 0 ==> (mask | (1u16 << b)) & !0x1FFFu16 == 0)
        by (bit_vector);
}

/// `best_sum` bounds every choice: buff types among the first `count` that
/// `mask` does not use, at most `picks` of them, never sum to more.
pub proof fn lemma_best_sum_bounds_every_choice(
    scores: Seq<u16>,
    mask: u16,
    chosen: u16,
    count: nat,
    picks: nat,
)
    requires
        count <= 16,
        forall|i: int| 0 <= i < count && has_bit(chosen, i) ==> !has_bit(mask, i),
        bits_below(chosen, count) <= picks,
    ensures
        mask_sum(scores, chosen, count) <= best_sum(scores, mask, count, picks),
    decreases count,
{
    if count > 0 {
        let rest = (count - 1) as nat;
        if has_bit(chosen, count - 1) {
            lemma_best_sum_bounds_every_choice(scores, mask, chosen, rest, (picks - 1) as nat);
        } else {
            lemma_best_sum_bounds_every_choice(scores, mask, chosen, rest, picks);
        }
    }
}

/// A choice that reaches `best_sum`: going down from the last buff type, it
/// takes a buff type whenever taking it gives more than leaving it.
pub open spec fn best_choice(scores: Seq<u16>, mask: u16, count: nat, picks: nat) -> u16
    decreases count,
{
    if count == 0 || picks == 0 {
        0
    } else if has_bit(mask, count - 1) {
        best_choice(scores, mask, (count - 1) as nat, picks)
    } else {
        let take = scores[count - 1] as nat + best_sum(
            scores,
            mask,
            (count - 1) as nat,
            (picks - 1) as nat,
        );
        if take > best_sum(scores, mask, (count - 1) as nat, picks) {
            best_choice(scores, mask, (count - 1) as nat, (picks - 1) as nat) | (1u16 << ((count
                - 1) as u16))
        } else {
            best_choice(scores, mask, (count - 1) as nat, picks)
        }
    }
}

/// `best_sum` is reached: `best_choice` takes buff types among the first
/// `count` only, none that `mask` uses and at most `picks`, and they sum to
/// `best_sum`. With the bound for every choice, `best_sum` is the largest
/// total that such a choice can have.
pub proof fn lemma_best_sum_is_reached(scores: Seq<u16>, mask: u16, count: nat, picks: nat)
    requires
        count <= 13,
    ensures
        forall|i: int|
            0 <= i < 16 && #[trigger] has_bit(best_choice(scores, mask, count, picks), i) ==> i
                < count && !has_bit(mask, i),
        bits_below(best_choice(scores, mask, count, picks), count) <= picks,
        mask_sum(scores, best_choice(scores, mask, count, picks), count) == best_sum(
            scores,
            mask,
            count,
            picks,
        ),
    decreases count,
{
    let choice = best_choice(scores, mask, count, picks);
    if count == 0 || picks == 0 {
        assert forall|i: int| 0 <= i < 16 implies !has_bit(0u16, i) by {
            lemma_zero_has_no_bit(i as u16);
        }
        lemma_empty_choice(scores, count);
    } else {
        let rest = (count - 1) as nat;
        let take = scores[count - 1] as nat + best_sum(scores, mask, rest, (picks - 1) as nat);
        if !has_bit(mask, count - 1) && take > best_sum(scores, mask, rest, picks) {
            let inner = best_choice(scores, mask, rest, (picks - 1) as nat);
            lemma_best_sum_is_reached(scores, mask, rest, (picks - 1) as nat);
            let shift = rest as u16;
            assert(choice == inner | (1u16 << shift));
            assert forall|i: int| 0 <= i < 16 && has_bit(choice, i) implies i < count && !has_bit(
                mask,
                i,
            ) by {
                lemma_or_bit(inner, shift, i as u16);
                if i != rest {
                    assert(has_bit(inner, i));
                }
            }
            assert forall|i: int| 0 <= i < rest implies has_bit(inner, i) == has_bit(choice, i) by {
                lemma_or_bit(inner, shift, i as u16);
            }
            assert(has_bit(choice, rest as int)) by {
                lemma_or_bit(inner, shift, shift);
            }
            assert(!has_bit(inner, rest as int));
            lemma_mask_sum_add_bit(scores, inner, rest as int, count);
            lemma_sums_agree(scores, inner, choice, rest);
        } else {
            lemma_best_sum_is_reached(scores, mask, rest, picks);
            let inner = best_choice(scores, mask, rest, picks);
            assert(choice == inner);
            assert forall|i: int| 0 <= i < 16 && has_bit(choice, i) implies i < count && !has_bit(
                mask,
                i,
            ) by {
                assert(has_bit(inner, i));
            }
            assert(!has_bit(inner, rest as int));
        }
    }
}

proof fn lemma_zero_has_no_bit(shift: u16)
    by (bit_vector)
    ensures
        (0u16 >> shift) & 1 != 1,
{
}

proof fn lemma_or_bit(x: u16, shift: u16, at: u16)
    by (bit_vector)
    requires
        shift < 16,
        at < 16,
    ensures
        (((x | (1u16 << shift)) >> at) & 1 == 1) <==> ((x >> at) & 1 == 1 || at == shift),
{
}

/// The empty choice takes nothing.
pub proof fn lemma_empty_choice(scores: Seq<u16>, count: nat)
    requires
        count <= 16,
    ensures
        mask_sum(scores, 0, count) == 0,
        bits_below(0, count) == 0,
    decreases count,
{
    if count > 0 {
        lemma_empty_choice(scores, (count - 1) as nat);
        let shift = (count - 1) as u16;
        assert((0u16 >> shift) & 1 != 1) by (bit_vector);
    }
}

/// Choices that agree on the first `count` buff types take as many of them.
proof fn lemma_sums_agree(scores: Seq<u16>, a: u16, b: u16, count: nat)
    requires
        forall|i: int| 0 <= i < count ==> has_bit(a, i) == has_bit(b, i),
    ensures
        bits_below(a, count) == bits_below(b, count),
        mask_sum(scores, a, count) == mask_sum(scores, b, count),
    decreases count,
{
    if count > 0 {
        lemma_sums_agree(scores, a, b, (count - 1) as nat);
    }
}


/// The sum of the entries of `values` for the buff types that `mask` uses.
pub fn mask_score_sum(mask: u16, values: &[u16; 13]) -> (total: u32)
    ensures
        total == mask_sum(values@, mask, 13),
{
    let mut total: u32 = 0;
    let mut buff_index: usize = 0;
    while buff_index < 13
        invariant
            buff_index <= 13,
            total == mask_sum(values@, mask, buff_index as nat),
            total <= buff_index * 0xFFFF,
        decreases 13 - buff_index,
    {
        let shift: u16 = buff_index as u16;
        proof {
            assert(shift < 16 ==> (((mask & (1u16 << shift)) != 0) <==> ((mask >> shift) & 1 == 1)))
                by (bit_vector);
        }
        if (mask & (1u16 << shift)) != 0 {
            total = total + values[buff_index] as u32;
        }
        buff_index += 1;
    }
    total
}

} // verus!
