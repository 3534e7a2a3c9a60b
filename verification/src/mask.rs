//! Masks over the thirteen buff types.
//!
//! Bit `i` of a mask is set when buff type `i` occupies a slot. A partial mask
//! has at most four bits set, a full mask exactly five. Both families are
//! listed in ascending order, and every member has a dense index: its position
//! in that list.

use vstd::prelude::*;

verus! {

/// The mask with a bit set for every buff type.
pub const MASK_ALL: u16 = 0x1FFF;

/// The largest partial mask: the four highest buff types.
pub const PARTIAL_MASK_SPACE: usize = 7680;

/// The largest full mask: the five highest buff types.
pub const FULL_MASK_SPACE: usize = 7936;

/// The number of partial masks.
pub const NUM_PARTIAL_MASKS: usize = 1093;

/// The number of full masks.
pub const NUM_FULL_MASKS: usize = 1287;

/// Bit `i` of `x`, as 0 or 1.
pub open spec fn bit(x: u16, i: u16) -> int {
    ((x >> i) & 1) as int
}

/// Whether bit `i` of `x` is set.
pub open spec fn has_bit(x: u16, i: int) -> bool {
    0 <= i < 16 && (x >> (i as u16)) & 1 == 1
}

/// The number of bits set in `x`.
pub open spec fn popcount(x: u16) -> int {
    bit(x, 0) + bit(x, 1) + bit(x, 2) + bit(x, 3) + bit(x, 4) + bit(x, 5) + bit(x, 6) + bit(x, 7)
        + bit(x, 8) + bit(x, 9) + bit(x, 10) + bit(x, 11) + bit(x, 12) + bit(x, 13) + bit(x, 14)
        + bit(x, 15)
}

/// `u16::count_ones` returns the number of ones in the binary representation
/// of its argument.
pub assume_specification[ u16::count_ones ](x: u16) -> (ones: u32)
    ensures
        ones == popcount(x),
;

/// A mask names buff types only: no bit above the thirteenth is set.
pub open spec fn in_domain(mask: u16) -> bool {
    mask & !MASK_ALL == 0
}

/// At most four slots are filled.
pub open spec fn is_partial(mask: u16) -> bool {
    popcount(mask) <= 4
}

/// Exactly five slots are filled.
pub open spec fn is_full(mask: u16) -> bool {
    popcount(mask) == 5
}

/// A mask is in the domain exactly when it does not exceed `MASK_ALL`.
pub proof fn lemma_in_domain_is_bound(mask: u16)
    ensures
        in_domain(mask) <==> mask <= MASK_ALL,
{
    assert((mask & !0x1FFFu16 == 0) <==> mask <= 0x1FFFu16) by (bit_vector);
}

/// A partial mask of the domain lies within the partial mask space, and a full
/// one within the full mask space.
pub proof fn lemma_class_bounds(mask: u16)
    requires
        in_domain(mask),
    ensures
        is_partial(mask) ==> mask <= PARTIAL_MASK_SPACE,
        is_full(mask) ==> 31 <= mask <= FULL_MASK_SPACE,
        0 <= popcount(mask) <= 13,
{
    assert(mask & !0x1FFFu16 == 0 && popcount(mask) <= 4 ==> mask <= 7680) by (bit_vector);
    assert(mask & !0x1FFFu16 == 0 && popcount(mask) == 5 ==> 31 <= mask <= 7936) by (bit_vector);
    assert(mask & !0x1FFFu16 == 0 ==> 0 <= popcount(mask) <= 13) by (bit_vector);
}

/// The number of filled slots.
pub fn calculate_num_filled_slots(mask: u16) -> (count: usize)
    ensures
        count == popcount(mask),
        count <= 16,
{
    proof {
        assert(0 <= popcount(mask) <= 16) by (bit_vector);
    }
    mask.count_ones() as usize
}

/// Whether at most four slots are filled.
pub fn is_valid_partial_mask(mask: u16) -> (valid: bool)
    ensures
        valid == is_partial(mask),
{
    calculate_num_filled_slots(mask) <= 4
}

/// Whether the mask names buff types only.
pub fn is_mask_in_domain(mask: u16) -> (valid: bool)
    ensures
        valid == in_domain(mask),
{
    (mask & !MASK_ALL) == 0
}

/// Whether exactly five slots are filled.
pub fn is_valid_full_mask(mask: u16) -> (valid: bool)
    ensures
        valid == is_full(mask),
{
    calculate_num_filled_slots(mask) == 5
}

/// Whether a mask handed in by a caller is a partial mask of the domain.
pub fn is_valid_external_partial_mask(mask: u16) -> (valid: bool)
    ensures
        valid == (in_domain(mask) && is_partial(mask)),
{
    is_mask_in_domain(mask) && is_valid_partial_mask(mask)
}

/// Whether a mask handed in by a caller is a full mask of the domain.
pub fn is_valid_external_full_mask(mask: u16) -> (valid: bool)
    ensures
        valid == (in_domain(mask) && is_full(mask)),
{
    is_mask_in_domain(mask) && is_valid_full_mask(mask)
}

/// The two families of masks that are enumerated.
#[derive(Clone, Copy, PartialEq, Eq, Structural, Debug)]
pub enum MaskClass {
    Partial,
    Full,
}

impl MaskClass {
    /// Whether `mask` belongs to the family.
    pub open spec fn admits(self, mask: u16) -> bool {
        match self {
            MaskClass::Partial => is_partial(mask),
            MaskClass::Full => is_full(mask),
        }
    }

    /// The largest member of the family.
    pub open spec fn space(self) -> nat {
        match self {
            MaskClass::Partial => PARTIAL_MASK_SPACE as nat,
            MaskClass::Full => FULL_MASK_SPACE as nat,
        }
    }

    /// The largest member of the family.
    pub fn limit(self) -> (space: usize)
        ensures
            space == self.space(),
    {
        match self {
            MaskClass::Partial => PARTIAL_MASK_SPACE,
            MaskClass::Full => FULL_MASK_SPACE,
        }
    }

    /// Whether `mask` belongs to the family.
    pub fn contains(self, mask: u16) -> (member: bool)
        ensures
            member == self.admits(mask),
    {
        match self {
            MaskClass::Partial => is_valid_partial_mask(mask),
            MaskClass::Full => is_valid_full_mask(mask),
        }
    }
}

/// The members of `class` that are smaller than `bound`, in ascending order.
pub open spec fn masks_below(class: MaskClass, bound: nat) -> Seq<u16>
    decreases bound,
{
    if bound == 0 {
        Seq::empty()
    } else {
        let rest = masks_below(class, (bound - 1) as nat);
        if class.admits((bound - 1) as u16) {
            rest.push((bound - 1) as u16)
        } else {
            rest
        }
    }
}

/// All members of `class`, in ascending order.
pub open spec fn mask_table(class: MaskClass) -> Seq<u16> {
    masks_below(class, class.space() + 1)
}

/// The number of members of `class` that are smaller than `mask`.
pub open spec fn mask_rank(class: MaskClass, mask: u16) -> nat {
    masks_below(class, mask as nat).len()
}

/// The inverse table of `class`: for each mask up to the largest member its
/// dense index, and 0 for a mask that is no member.
pub open spec fn index_table(class: MaskClass) -> Seq<usize> {
    Seq::new(
        class.space() + 1,
        |mask: int|
            if class.admits(mask as u16) {
                mask_rank(class, mask as u16) as usize
            } else {
                0usize
            },
    )
}

/// `masks_below` grows with its bound, one member at a time.
pub proof fn lemma_masks_below_prefix(class: MaskClass, low: nat, high: nat)
    requires
        low <= high,
    ensures
        masks_below(class, low).len() <= masks_below(class, high).len(),
        masks_below(class, high).len() <= masks_below(class, low).len() + (high - low),
        masks_below(class, low) == masks_below(class, high).take(
            masks_below(class, low).len() as int,
        ),
    decreases high,
{
    if low < high {
        lemma_masks_below_prefix(class, low, (high - 1) as nat);
    }
}

/// Every entry of `masks_below` is a member of the class below the bound, and
/// the entries ascend strictly.
pub proof fn lemma_masks_below_members(class: MaskClass, bound: nat)
    requires
        bound <= 0x10000,
    ensures
        masks_below(class, bound).len() <= bound,
        forall|i: int|
            0 <= i < masks_below(class, bound).len() ==> {
                &&& (#[trigger] masks_below(class, bound)[i]) < bound
                &&& class.admits(masks_below(class, bound)[i])
            },
        forall|i: int, j: int|
            0 <= i < j < masks_below(class, bound).len() ==> masks_below(class, bound)[i]
                < masks_below(class, bound)[j],
    decreases bound,
{
    if bound > 0 {
        lemma_masks_below_members(class, (bound - 1) as nat);
    }
}

/// A member below the bound stands in `masks_below` at its rank.
pub proof fn lemma_rank_locates(class: MaskClass, mask: u16, bound: nat)
    requires
        class.admits(mask),
        mask < bound,
    ensures
        mask_rank(class, mask) < masks_below(class, bound).len(),
        masks_below(class, bound)[mask_rank(class, mask) as int] == mask,
    decreases bound,
{
    if mask + 1 < bound {
        lemma_rank_locates(class, mask, (bound - 1) as nat);
    }
}

/// The position of an entry of `masks_below` is the rank of that entry.
pub proof fn lemma_entry_rank(class: MaskClass, bound: nat, i: int)
    requires
        bound <= 0x10000,
        0 <= i < masks_below(class, bound).len(),
    ensures
        mask_rank(class, masks_below(class, bound)[i]) == i,
{
    lemma_masks_below_members(class, bound);
    let mask = masks_below(class, bound)[i];
    lemma_rank_locates(class, mask, bound);
    let r = mask_rank(class, mask) as int;
    if r < i {
        assert(masks_below(class, bound)[r] < masks_below(class, bound)[i]);
    } else if i < r {
        assert(masks_below(class, bound)[i] < masks_below(class, bound)[r]);
    }
}

/// The dense index is a bijection between the members of a class and the
/// positions of its table: looking a member up and reading the table there
/// gives the member back, and the other way round.
pub proof fn lemma_index_bijection(class: MaskClass)
    ensures
        forall|mask: u16|
            class.admits(mask) && mask <= class.space() ==> {
                &&& (#[trigger] index_table(class)[mask as int]) < mask_table(class).len()
                &&& mask_table(class)[index_table(class)[mask as int] as int] == mask
            },
        forall|i: int|
            0 <= i < mask_table(class).len() ==> {
                &&& class.admits(#[trigger] mask_table(class)[i])
                &&& mask_table(class)[i] <= class.space()
                &&& index_table(class)[mask_table(class)[i] as int] == i
            },
{
    let bound = class.space() + 1;
    lemma_masks_below_members(class, bound);
    assert forall|mask: u16| class.admits(mask) && mask <= class.space() implies {
        &&& (#[trigger] index_table(class)[mask as int]) < mask_table(class).len()
        &&& mask_table(class)[index_table(class)[mask as int] as int] == mask
    } by {
        lemma_rank_locates(class, mask, bound);
    }
    assert forall|i: int| 0 <= i < mask_table(class).len() implies {
        &&& class.admits(#[trigger] mask_table(class)[i])
        &&& mask_table(class)[i] <= class.space()
        &&& index_table(class)[mask_table(class)[i] as int] == i
    } by {
        lemma_entry_rank(class, bound, i);
    }
}

/// The number of masks below `bound` with at most `bits` bits set.
pub open spec fn count_le(bound: nat, bits: int) -> nat
    decreases bound,
{
    if bound == 0 {
        0
    } else {
        count_le((bound - 1) as nat, bits) + if popcount((bound - 1) as u16) <= bits {
            1nat
        } else {
            0nat
        }
    }
}

proof fn lemma_popcount_with_top_bit(base: u16, low: u16)
    by (bit_vector)
    requires
        base != 0,
        base & ((base - 1) as u16) == 0,
        low < base,
        base <= 0x4000,
    ensures
        popcount((base + low) as u16) == popcount(low) + 1,
        popcount(low) >= 0,
{
}

proof fn lemma_high_masks_are_crowded(mask: u16)
    by (bit_vector)
    requires
        mask < 8192,
    ensures
        mask > 7680 ==> popcount(mask) >= 5,
        mask > 7936 ==> popcount(mask) >= 6,
{
}

/// No mask has a negative number of bits set.
proof fn lemma_count_le_negative(bound: nat, bits: int)
    requires
        bits < 0,
    ensures
        count_le(bound, bits) == 0,
    decreases bound,
{
    if bound > 0 {
        lemma_count_le_negative((bound - 1) as nat, bits);
        let mask = (bound - 1) as u16;
        assert(popcount(mask) >= 0) by (bit_vector);
    }
}

/// The masks from a power of two on are the masks from zero on with one more
/// bit set.
proof fn lemma_count_shifts(base: nat, more: nat, bits: int)
    requires
        base == 1 || base == 2 || base == 4 || base == 8 || base == 16 || base == 32 || base == 64
            || base == 128 || base == 256 || base == 512 || base == 1024 || base == 2048 || base
            == 4096,
        more <= base,
    ensures
        count_le(base + more, bits) == count_le(base, bits) + count_le(more, bits - 1),
    decreases more,
{
    if more > 0 {
        lemma_count_shifts(base, (more - 1) as nat, bits);
        let low = (more - 1) as u16;
        let top = base as u16;
        assert(top != 0 && top & ((top - 1) as u16) == 0) by (bit_vector)
            requires
                top == 1 || top == 2 || top == 4 || top == 8 || top == 16 || top == 32 || top == 64
                    || top == 128 || top == 256 || top == 512 || top == 1024 || top == 2048 || top
                    == 4096,
        ;
        lemma_popcount_with_top_bit(top, low);
    }
}

proof fn lemma_count_doubles(base: nat, bits: int)
    requires
        base == 1 || base == 2 || base == 4 || base == 8 || base == 16 || base == 32 || base == 64
            || base == 128 || base == 256 || base == 512 || base == 1024 || base == 2048 || base
            == 4096,
    ensures
        count_le(base + base, bits) == count_le(base, bits) + count_le(base, bits - 1),
{
    lemma_count_shifts(base, base, bits);
}

/// The masks of at most `bits` bits below 8192, counted for `bits` up to
/// five.
proof fn lemma_count_le_domain()
    ensures
        count_le(8192, 4) == 1093,
        count_le(8192, 5) == 2380,
{
    assert(popcount(0u16) == 0) by (bit_vector);
    reveal_with_fuel(count_le, 2);
    assert(count_le(1, 0) == 1 && count_le(1, 1) == 1 && count_le(1, 2) == 1 && count_le(1, 3) == 1
        && count_le(1, 4) == 1 && count_le(1, 5) == 1);
    lemma_count_le_negative(1, -1);
    lemma_count_le_negative(2, -1);
    lemma_count_le_negative(4, -1);
    lemma_count_le_negative(8, -1);
    lemma_count_le_negative(16, -1);
    lemma_count_le_negative(32, -1);
    lemma_count_le_negative(64, -1);
    lemma_count_le_negative(128, -1);
    lemma_count_le_negative(256, -1);
    lemma_count_le_negative(512, -1);
    lemma_count_le_negative(1024, -1);
    lemma_count_le_negative(2048, -1);
    lemma_count_le_negative(4096, -1);
    lemma_count_doubles(1, 0);
    lemma_count_doubles(1, 1);
    lemma_count_doubles(1, 2);
    lemma_count_doubles(1, 3);
    lemma_count_doubles(1, 4);
    lemma_count_doubles(1, 5);
    assert(count_le(2, 0) == 1 && count_le(2, 1) == 2 && count_le(2, 2) == 2 && count_le(
        2,
        3,
    ) == 2 && count_le(2, 4) == 2 && count_le(2, 5) == 2);
    lemma_count_doubles(2, 0);
    lemma_count_doubles(2, 1);
    lemma_count_doubles(2, 2);
    lemma_count_doubles(2, 3);
    lemma_count_doubles(2, 4);
    lemma_count_doubles(2, 5);
    assert(count_le(4, 0) == 1 && count_le(4, 1) == 3 && count_le(4, 2) == 4 && count_le(
        4,
        3,
    ) == 4 && count_le(4, 4) == 4 && count_le(4, 5) == 4);
    lemma_count_doubles(4, 0);
    lemma_count_doubles(4, 1);
    lemma_count_doubles(4, 2);
    lemma_count_doubles(4, 3);
    lemma_count_doubles(4, 4);
    lemma_count_doubles(4, 5);
    assert(count_le(8, 0) == 1 && count_le(8, 1) == 4 && count_le(8, 2) == 7 && count_le(
        8,
        3,
    ) == 8 && count_le(8, 4) == 8 && count_le(8, 5) == 8);
    lemma_count_doubles(8, 0);
    lemma_count_doubles(8, 1);
    lemma_count_doubles(8, 2);
    lemma_count_doubles(8, 3);
    lemma_count_doubles(8, 4);
    lemma_count_doubles(8, 5);
    assert(count_le(16, 0) == 1 && count_le(16, 1) == 5 && count_le(16, 2) == 11 && count_le(
        16,
        3,
    ) == 15 && count_le(16, 4) == 16 && count_le(16, 5) == 16);
    lemma_count_doubles(16, 0);
    lemma_count_doubles(16, 1);
    lemma_count_doubles(16, 2);
    lemma_count_doubles(16, 3);
    lemma_count_doubles(16, 4);
    lemma_count_doubles(16, 5);
    assert(count_le(32, 0) == 1 && count_le(32, 1) == 6 && count_le(32, 2) == 16 && count_le(
        32,
        3,
    ) == 26 && count_le(32, 4) == 31 && count_le(32, 5) == 32);
    lemma_count_doubles(32, 0);
    lemma_count_doubles(32, 1);
    lemma_count_doubles(32, 2);
    lemma_count_doubles(32, 3);
    lemma_count_doubles(32, 4);
    lemma_count_doubles(32, 5);
    assert(count_le(64, 0) == 1 && count_le(64, 1) == 7 && count_le(64, 2) == 22 && count_le(
        64,
        3,
    ) == 42 && count_le(64, 4) == 57 && count_le(64, 5) == 63);
    lemma_count_doubles(64, 0);
    lemma_count_doubles(64, 1);
    lemma_count_doubles(64, 2);
    lemma_count_doubles(64, 3);
    lemma_count_doubles(64, 4);
    lemma_count_doubles(64, 5);
    assert(count_le(128, 0) == 1 && count_le(128, 1) == 8 && count_le(128, 2) == 29 && count_le(
        128,
        3,
    ) == 64 && count_le(128, 4) == 99 && count_le(128, 5) == 120);
    lemma_count_doubles(128, 0);
    lemma_count_doubles(128, 1);
    lemma_count_doubles(128, 2);
    lemma_count_doubles(128, 3);
    lemma_count_doubles(128, 4);
    lemma_count_doubles(128, 5);
    assert(count_le(256, 0) == 1 && count_le(256, 1) == 9 && count_le(256, 2) == 37 && count_le(
        256,
        3,
    ) == 93 && count_le(256, 4) == 163 && count_le(256, 5) == 219);
    lemma_count_doubles(256, 0);
    lemma_count_doubles(256, 1);
    lemma_count_doubles(256, 2);
    lemma_count_doubles(256, 3);
    lemma_count_doubles(256, 4);
    lemma_count_doubles(256, 5);
    assert(count_le(512, 0) == 1 && count_le(512, 1) == 10 && count_le(512, 2) == 46 && count_le(
        512,
        3,
    ) == 130 && count_le(512, 4) == 256 && count_le(512, 5) == 382);
    lemma_count_doubles(512, 0);
    lemma_count_doubles(512, 1);
    lemma_count_doubles(512, 2);
    lemma_count_doubles(512, 3);
    lemma_count_doubles(512, 4);
    lemma_count_doubles(512, 5);
    assert(count_le(1024, 0) == 1 && count_le(1024, 1) == 11 && count_le(1024, 2) == 56 && count_le(
        1024,
        3,
    ) == 176 && count_le(1024, 4) == 386 && count_le(1024, 5) == 638);
    lemma_count_doubles(1024, 0);
    lemma_count_doubles(1024, 1);
    lemma_count_doubles(1024, 2);
    lemma_count_doubles(1024, 3);
    lemma_count_doubles(1024, 4);
    lemma_count_doubles(1024, 5);
    assert(count_le(2048, 0) == 1 && count_le(2048, 1) == 12 && count_le(2048, 2) == 67 && count_le(
        2048,
        3,
    ) == 232 && count_le(2048, 4) == 562 && count_le(2048, 5) == 1024);
    lemma_count_doubles(2048, 0);
    lemma_count_doubles(2048, 1);
    lemma_count_doubles(2048, 2);
    lemma_count_doubles(2048, 3);
    lemma_count_doubles(2048, 4);
    lemma_count_doubles(2048, 5);
    assert(count_le(4096, 0) == 1 && count_le(4096, 1) == 13 && count_le(4096, 2) == 79 && count_le(
        4096,
        3,
    ) == 299 && count_le(4096, 4) == 794 && count_le(4096, 5) == 1586);
    lemma_count_doubles(4096, 0);
    lemma_count_doubles(4096, 1);
    lemma_count_doubles(4096, 2);
    lemma_count_doubles(4096, 3);
    lemma_count_doubles(4096, 4);
    lemma_count_doubles(4096, 5);
    assert(count_le(8192, 0) == 1 && count_le(8192, 1) == 14 && count_le(8192, 2) == 92 && count_le(
        8192,
        3,
    ) == 378 && count_le(8192, 4) == 1093 && count_le(8192, 5) == 2380);
}

/// Above the largest member of a family and below 8192 there is no mask with
/// so few bits set.
proof fn lemma_count_le_tail(low: nat, high: nat, bits: int)
    requires
        low <= high <= 8192,
        (low > 7680 && bits <= 4) || (low > 7936 && bits <= 5),
    ensures
        count_le(high, bits) == count_le(low, bits),
    decreases high,
{
    if low < high {
        lemma_count_le_tail(low, (high - 1) as nat, bits);
        lemma_high_masks_are_crowded((high - 1) as u16);
    }
}

proof fn lemma_masks_below_count(class: MaskClass, bound: nat)
    ensures
        masks_below(class, bound).len() == match class {
            MaskClass::Partial => count_le(bound, 4) as int,
            MaskClass::Full => count_le(bound, 5) - count_le(bound, 4),
        },
    decreases bound,
{
    if bound > 0 {
        lemma_masks_below_count(class, (bound - 1) as nat);
    }
}

/// There are 1093 partial masks and 1287 full masks.
pub proof fn lemma_mask_counts()
    ensures
        mask_table(MaskClass::Partial).len() == NUM_PARTIAL_MASKS,
        mask_table(MaskClass::Full).len() == NUM_FULL_MASKS,
{
    lemma_count_le_domain();
    lemma_count_le_tail(7681, 8192, 4);
    lemma_count_le_tail(7937, 8192, 4);
    lemma_count_le_tail(7937, 8192, 5);
    lemma_masks_below_count(MaskClass::Partial, 7681);
    lemma_masks_below_count(MaskClass::Full, 7937);
}

/// The number of members of `class`.
pub fn count_masks(class: MaskClass) -> (count: usize)
    ensures
        count == mask_table(class).len(),
{
    let space = class.limit();
    let mut count: usize = 0;
    let mut next: usize = 0;
    while next <= space
        invariant
            space == class.space(),
            next <= space + 1,
            count == masks_below(class, next as nat).len(),
            count <= next,
        decreases space + 1 - next,
    {
        if class.contains(next as u16) {
            count += 1;
        }
        next += 1;
    }
    count
}

/// The members of `class`, in ascending order.
pub fn build_masks(class: MaskClass) -> (masks: Vec<u16>)
    ensures
        masks@ == mask_table(class),
{
    let space = class.limit();
    let mut masks: Vec<u16> = Vec::new();
    let mut next: usize = 0;
    while next <= space
        invariant
            space == class.space(),
            next <= space + 1,
            masks@ == masks_below(class, next as nat),
        decreases space + 1 - next,
    {
        if class.contains(next as u16) {
            masks.push(next as u16);
        }
        next += 1;
    }
    masks
}

/// The inverse table of `class`.
pub fn build_mask_to_index(class: MaskClass) -> (table: Vec<usize>)
    ensures
        table@ == index_table(class),
{
    let space = class.limit();
    let mut table: Vec<usize> = Vec::new();
    let mut count: usize = 0;
    let mut next: usize = 0;
    while next <= space
        invariant
            space == class.space(),
            next <= space + 1,
            count == masks_below(class, next as nat).len(),
            count <= next,
            table@ == index_table(class).take(next as int),
        decreases space + 1 - next,
    {
        if class.contains(next as u16) {
            table.push(count);
            count += 1;
        } else {
            table.push(0);
        }
        next += 1;
        assert(table@ =~= index_table(class).take(next as int));
    }
    assert(table@ =~= index_table(class));
    table
}

/// The number of partial masks.
pub fn count_partial_masks() -> (count: usize)
    ensures
        count == mask_table(MaskClass::Partial).len(),
        count == NUM_PARTIAL_MASKS,
{
    proof {
        lemma_mask_counts();
    }
    count_masks(MaskClass::Partial)
}

/// The partial masks, in ascending order.
pub fn build_partial_masks() -> (masks: Vec<u16>)
    ensures
        masks@ == mask_table(MaskClass::Partial),
{
    build_masks(MaskClass::Partial)
}

/// The inverse table of the partial masks.
pub fn build_partial_mask_to_index() -> (table: Vec<usize>)
    ensures
        table@ == index_table(MaskClass::Partial),
{
    build_mask_to_index(MaskClass::Partial)
}

/// The number of full masks.
pub fn count_full_masks() -> (count: usize)
    ensures
        count == mask_table(MaskClass::Full).len(),
        count == NUM_FULL_MASKS,
{
    proof {
        lemma_mask_counts();
    }
    count_masks(MaskClass::Full)
}

/// The full masks, in ascending order.
pub fn build_full_masks() -> (masks: Vec<u16>)
    ensures
        masks@ == mask_table(MaskClass::Full),
{
    build_masks(MaskClass::Full)
}

/// The inverse table of the full masks.
pub fn build_full_mask_to_index() -> (table: Vec<usize>)
    ensures
        table@ == index_table(MaskClass::Full),
{
    build_mask_to_index(MaskClass::Full)
}

/// The enumeration of both mask families with their inverse tables, computed
/// once and then only read.
pub struct MaskTables {
    partial_masks: Vec<u16>,
    partial_to_index: Vec<usize>,
    full_masks: Vec<u16>,
    full_to_index: Vec<usize>,
}

impl MaskTables {
    #[verifier::type_invariant]
    spec fn well_formed(self) -> bool {
        &&& self.partial_masks@ == mask_table(MaskClass::Partial)
        &&& self.partial_to_index@ == index_table(MaskClass::Partial)
        &&& self.full_masks@ == mask_table(MaskClass::Full)
        &&& self.full_to_index@ == index_table(MaskClass::Full)
    }

    /// The partial masks that the tables list.
    pub closed spec fn partial_view(&self) -> Seq<u16> {
        self.partial_masks@
    }

    /// The full masks that the tables list.
    pub closed spec fn full_view(&self) -> Seq<u16> {
        self.full_masks@
    }

    /// The inverse table of the partial masks.
    pub closed spec fn partial_index_view(&self) -> Seq<usize> {
        self.partial_to_index@
    }

    /// The inverse table of the full masks.
    pub closed spec fn full_index_view(&self) -> Seq<usize> {
        self.full_to_index@
    }

    /// The tables of both families.
    pub fn new() -> (tables: MaskTables)
        ensures
            tables.partial_view() == mask_table(MaskClass::Partial),
            tables.partial_index_view() == index_table(MaskClass::Partial),
            tables.full_view() == mask_table(MaskClass::Full),
            tables.full_index_view() == index_table(MaskClass::Full),
    {
        MaskTables {
            partial_masks: build_partial_masks(),
            partial_to_index: build_partial_mask_to_index(),
            full_masks: build_full_masks(),
            full_to_index: build_full_mask_to_index(),
        }
    }

    /// The number of partial masks.
    pub fn num_partial_masks(&self) -> (count: usize)
        ensures
            count == mask_table(MaskClass::Partial).len(),
            count == NUM_PARTIAL_MASKS,
    {
        proof {
            use_type_invariant(self);
            lemma_mask_counts();
        }
        self.partial_masks.len()
    }

    /// The number of full masks.
    pub fn num_full_masks(&self) -> (count: usize)
        ensures
            count == mask_table(MaskClass::Full).len(),
            count == NUM_FULL_MASKS,
    {
        proof {
            use_type_invariant(self);
            lemma_mask_counts();
        }
        self.full_masks.len()
    }

    /// The partial mask with dense index `index`.
    pub fn partial_mask(&self, index: usize) -> (mask: u16)
        requires
            index < mask_table(MaskClass::Partial).len(),
        ensures
            mask == mask_table(MaskClass::Partial)[index as int],
    {
        proof {
            use_type_invariant(self);
        }
        self.partial_masks[index]
    }

    /// The full mask with dense index `index`.
    pub fn full_mask(&self, index: usize) -> (mask: u16)
        requires
            index < mask_table(MaskClass::Full).len(),
        ensures
            mask == mask_table(MaskClass::Full)[index as int],
    {
        proof {
            use_type_invariant(self);
        }
        self.full_masks[index]
    }

    /// The dense index of a partial mask of the domain, and `None` for any
    /// other mask.
    pub fn find_partial(&self, mask: u16) -> (index: Option<usize>)
        ensures
            index.is_some() == (in_domain(mask) && is_partial(mask)),
            index matches Some(i) ==> {
                &&& i == mask_rank(MaskClass::Partial, mask)
                &&& i < mask_table(MaskClass::Partial).len()
                &&& mask_table(MaskClass::Partial)[i as int] == mask
            },
    {
        if is_valid_external_partial_mask(mask) {
            proof {
                lemma_class_bounds(mask);
                lemma_index_bijection(MaskClass::Partial);
            }
            Some(partial_mask_to_index(self, mask))
        } else {
            None
        }
    }

    /// The dense index of a full mask of the domain, and `None` for any other
    /// mask.
    pub fn find_full(&self, mask: u16) -> (index: Option<usize>)
        ensures
            index.is_some() == (in_domain(mask) && is_full(mask)),
            index matches Some(i) ==> {
                &&& i == mask_rank(MaskClass::Full, mask)
                &&& i < mask_table(MaskClass::Full).len()
                &&& mask_table(MaskClass::Full)[i as int] == mask
            },
    {
        if is_valid_external_full_mask(mask) {
            proof {
                lemma_class_bounds(mask);
                lemma_index_bijection(MaskClass::Full);
            }
            Some(full_mask_to_index(self, mask))
        } else {
            None
        }
    }
}

/// The dense index of `mask` among the partial masks.
///
/// It does not check whether `mask` is a partial mask: for a mask within the
/// partial mask space that is none, the result is 0.
pub fn partial_mask_to_index(tables: &MaskTables, mask: u16) -> (index: usize)
    requires
        mask <= PARTIAL_MASK_SPACE,
    ensures
        index == index_table(MaskClass::Partial)[mask as int],
        is_partial(mask) ==> index == mask_rank(MaskClass::Partial, mask),
        !is_partial(mask) ==> index == 0,
{
    proof {
        use_type_invariant(tables);
        lemma_masks_below_members(MaskClass::Partial, mask as nat);
    }
    tables.partial_to_index[mask as usize]
}

/// The dense index of `mask` among the full masks.
///
/// It does not check whether `mask` is a full mask: for a mask within the full
/// mask space that is none, the result is 0.
pub fn full_mask_to_index(tables: &MaskTables, mask: u16) -> (index: usize)
    requires
        mask <= FULL_MASK_SPACE,
    ensures
        index == index_table(MaskClass::Full)[mask as int],
        is_full(mask) ==> index == mask_rank(MaskClass::Full, mask),
        !is_full(mask) ==> index == 0,
{
    proof {
        use_type_invariant(tables);
        lemma_masks_below_members(MaskClass::Full, mask as nat);
    }
    tables.full_to_index[mask as usize]
}

/// The mask whose bit `i` is set exactly when entry `i` of `bits` is 1, over
/// the first `count` entries.
pub open spec fn mask_of_bits(bits: Seq<u8>, count: nat) -> u16
    decreases count,
{
    if count == 0 {
        0
    } else {
        let rest = mask_of_bits(bits, (count - 1) as nat);
        if count <= bits.len() && count <= 16 && bits[count - 1] == 1 {
            rest | (1u16 << ((count - 1) as u16))
        } else {
            rest
        }
    }
}

/// The thirteen entries, each 0 or 1, that spell out the low bits of `mask`.
pub open spec fn bits_of_mask(mask: u16) -> Seq<u8> {
    Seq::new(
        13,
        |i: int|
            if has_bit(mask, i) {
                1u8
            } else {
                0u8
            },
    )
}

/// Bit `i` of `mask_of_bits(bits, count)` is set exactly when `i` is below
/// `count` and entry `i` of `bits` is 1.
pub proof fn lemma_mask_of_bits_has_bit(bits: Seq<u8>, count: nat, i: int)
    requires
        count <= 16,
        0 <= i < 16,
    ensures
        has_bit(mask_of_bits(bits, count), i) <==> (i < count && i < bits.len() && bits[i] == 1),
    decreases count,
{
    let j = i as u16;
    if count > 0 {
        lemma_mask_of_bits_has_bit(bits, (count - 1) as nat, i);
        let rest = mask_of_bits(bits, (count - 1) as nat);
        let k = (count - 1) as u16;
        assert(k < 16 && j < 16 ==> (((rest | (1u16 << k)) >> j) & 1 == 1 <==> ((rest >> j) & 1 == 1
            || j == k))) by (bit_vector);
    } else {
        assert((0u16 >> j) & 1 != 1) by (bit_vector);
    }
}

/// Two masks with the same sixteen bits are equal.
pub proof fn lemma_mask_extensionality(a: u16, b: u16)
    requires
        forall|i: int| 0 <= i < 16 ==> has_bit(a, i) == has_bit(b, i),
    ensures
        a == b,
{
    assert(has_bit(a, 0) == has_bit(b, 0));
    assert(has_bit(a, 1) == has_bit(b, 1));
    assert(has_bit(a, 2) == has_bit(b, 2));
    assert(has_bit(a, 3) == has_bit(b, 3));
    assert(has_bit(a, 4) == has_bit(b, 4));
    assert(has_bit(a, 5) == has_bit(b, 5));
    assert(has_bit(a, 6) == has_bit(b, 6));
    assert(has_bit(a, 7) == has_bit(b, 7));
    assert(has_bit(a, 8) == has_bit(b, 8));
    assert(has_bit(a, 9) == has_bit(b, 9));
    assert(has_bit(a, 10) == has_bit(b, 10));
    assert(has_bit(a, 11) == has_bit(b, 11));
    assert(has_bit(a, 12) == has_bit(b, 12));
    assert(has_bit(a, 13) == has_bit(b, 13));
    assert(has_bit(a, 14) == has_bit(b, 14));
    assert(has_bit(a, 15) == has_bit(b, 15));
    assert({
        &&& ((a >> 0u16) & 1 == 1) == ((b >> 0u16) & 1 == 1)
        &&& ((a >> 1u16) & 1 == 1) == ((b >> 1u16) & 1 == 1)
        &&& ((a >> 2u16) & 1 == 1) == ((b >> 2u16) & 1 == 1)
        &&& ((a >> 3u16) & 1 == 1) == ((b >> 3u16) & 1 == 1)
        &&& ((a >> 4u16) & 1 == 1) == ((b >> 4u16) & 1 == 1)
        &&& ((a >> 5u16) & 1 == 1) == ((b >> 5u16) & 1 == 1)
        &&& ((a >> 6u16) & 1 == 1) == ((b >> 6u16) & 1 == 1)
        &&& ((a >> 7u16) & 1 == 1) == ((b >> 7u16) & 1 == 1)
        &&& ((a >> 8u16) & 1 == 1) == ((b >> 8u16) & 1 == 1)
        &&& ((a >> 9u16) & 1 == 1) == ((b >> 9u16) & 1 == 1)
        &&& ((a >> 10u16) & 1 == 1) == ((b >> 10u16) & 1 == 1)
        &&& ((a >> 11u16) & 1 == 1) == ((b >> 11u16) & 1 == 1)
        &&& ((a >> 12u16) & 1 == 1) == ((b >> 12u16) & 1 == 1)
        &&& ((a >> 13u16) & 1 == 1) == ((b >> 13u16) & 1 == 1)
        &&& ((a >> 14u16) & 1 == 1) == ((b >> 14u16) & 1 == 1)
        &&& ((a >> 15u16) & 1 == 1) == ((b >> 15u16) & 1 == 1)
    } ==> a == b) by (bit_vector);
}

/// Writing a mask of the domain out as thirteen entries and reading them back
/// gives the mask again; for any other mask it gives the thirteen low bits.
pub proof fn lemma_bits_round_trip(mask: u16)
    ensures
        mask_of_bits(bits_of_mask(mask), 13) == mask & MASK_ALL,
        in_domain(mask) ==> mask_of_bits(bits_of_mask(mask), 13) == mask,
{
    let back = mask_of_bits(bits_of_mask(mask), 13);
    let low = mask & MASK_ALL;
    assert forall|i: int| 0 <= i < 16 implies has_bit(back, i) == has_bit(low, i) by {
        lemma_mask_of_bits_has_bit(bits_of_mask(mask), 13, i);
        let j = i as u16;
        assert(j < 16 ==> ((((mask & 0x1FFFu16) >> j) & 1 == 1) <==> (j < 13 && (mask >> j) & 1
            == 1))) by (bit_vector);
    }
    lemma_mask_extensionality(back, low);
    assert(mask & !0x1FFFu16 == 0 ==> mask & 0x1FFFu16 == mask) by (bit_vector);
}

/// Reading thirteen entries, each 0 or 1, as a mask and writing the mask out
/// gives the entries again.
pub proof fn lemma_mask_round_trip(bits: Seq<u8>)
    requires
        bits.len() == 13,
        forall|i: int| 0 <= i < 13 ==> bits[i] <= 1,
    ensures
        bits_of_mask(mask_of_bits(bits, 13)) == bits,
{
    let mask = mask_of_bits(bits, 13);
    assert forall|i: int| 0 <= i < 13 implies bits_of_mask(mask)[i] == bits[i] by {
        lemma_mask_of_bits_has_bit(bits, 13, i);
    }
    assert(bits_of_mask(mask) =~= bits);
}

/// The mask spelled out by `bits`: bit `i` is set exactly when entry `i` is 1.
/// Entries after the thirteenth, and entries that are neither 0 nor 1, set
/// nothing.
pub fn bits_to_mask(bits: &[u8]) -> (mask: u16)
    ensures
        mask == mask_of_bits(bits@, 13),
        in_domain(mask),
        forall|i: int| 0 <= i < 16 ==> (has_bit(mask, i) <==> (i < 13 && i < bits@.len() && bits@[i] == 1)),
{
    let mut mask: u16 = 0;
    let mut index: usize = 0;
    while index < 13
        invariant
            index <= 13,
            mask == mask_of_bits(bits@, index as nat),
        decreases 13 - index,
    {
        if index < bits.len() && bits[index] == 1 {
            mask = mask | (1u16 << (index as u16));
        }
        index += 1;
    }
    proof {
        assert forall|i: int| 0 <= i < 16 implies (has_bit(mask, i) <==> (i < 13 && i < bits@.len()
            && bits@[i] == 1)) by {
            lemma_mask_of_bits_has_bit(bits@, 13, i);
        }
        assert(!has_bit(mask, 13) && !has_bit(mask, 14) && !has_bit(mask, 15));
        assert((mask >> 13u16) & 1 != 1 && (mask >> 14u16) & 1 != 1 && (mask >> 15u16) & 1 != 1
            ==> mask & !0x1FFFu16 == 0) by (bit_vector);
    }
    mask
}

/// The thirteen low bits of `mask`, one entry per buff type.
pub fn mask_to_bits(mask: u16) -> (bits: [u8; 13])
    ensures
        bits@ == bits_of_mask(mask),
{
    let mut bits = [0u8; 13];
    let mut index: usize = 0;
    while index < 13
        invariant
            index <= 13,
            forall|i: int| 0 <= i < index ==> bits@[i] == bits_of_mask(mask)[i],
        decreases 13 - index,
    {
        let low: u16 = (mask >> (index as u16)) & 1;
        assert(low <= 1) by (bit_vector)
            requires
                low == (mask >> (index as u16)) & 1,
        ;
        bits[index] = low as u8;
        index += 1;
    }
    assert(bits@ =~= bits_of_mask(mask));
    bits
}

} // verus!
