//! The buff catalog: for each of the thirteen buff types its name, the largest
//! value it can roll, and how often each value was observed.

use vstd::prelude::*;

verus! {

/// Number of buff types an echo can roll.
pub const NUM_BUFFS: usize = 13;

/// Number of upgrade slots on one echo.
pub const NUM_ECHO_SLOTS: usize = 5;

/// Largest count that any single catalog bucket holds.
pub const MAX_BUCKET_COUNT: u32 = 2496;

/// One catalog entry.
///
/// Percentage stats use a fixed scale (a roll of 6.3% is stored as 63);
/// flat stats store the rolled value itself.
pub struct BuffTypeData {
    pub name: &'static str,
    pub max_value: u16,
    pub histogram: &'static [(u16, u32)],
}

/// Observed rolls of Crit. Rate: each value with its count.
pub const HIST_CRIT_RATE: [(u16, u32); 8] = [
    (63, 1036),
    (69, 964),
    (75, 1053),
    (81, 362),
    (87, 322),
    (93, 328),
    (99, 131),
    (105, 112),
];

/// Observed rolls of Crit. DMG: each value with its count.
pub const HIST_CRIT_DAMAGE: [(u16, u32); 8] = [
    (126, 995),
    (138, 1005),
    (150, 1090),
    (162, 335),
    (174, 362),
    (186, 387),
    (198, 129),
    (210, 119),
];

/// Observed rolls of ATK%: each value with its count.
pub const HIST_ATTACK: [(u16, u32); 8] = [
    (64, 316),
    (71, 373),
    (79, 921),
    (86, 1125),
    (94, 781),
    (101, 707),
    (109, 254),
    (116, 139),
];

/// Observed rolls of DEF%: each value with its count.
pub const HIST_DEFENSE: [(u16, u32); 8] = [
    (81, 318),
    (90, 413),
    (100, 995),
    (109, 1277),
    (118, 872),
    (128, 718),
    (138, 295),
    (147, 152),
];

/// Observed rolls of HP%: each value with its count.
pub const HIST_HP: [(u16, u32); 8] = [
    (64, 321),
    (71, 386),
    (79, 1005),
    (86, 1213),
    (94, 800),
    (101, 669),
    (109, 275),
    (116, 137),
];

/// Observed rolls of ATK: each value with its count.
pub const HIST_ATTACK_FLAT: [(u16, u32); 4] = [
    (30, 326),
    (40, 2496),
    (50, 1838),
    (60, 120),
];

/// Observed rolls of DEF: each value with its count.
pub const HIST_DEFENSE_FLAT: [(u16, u32); 4] = [
    (40, 700),
    (50, 2128),
    (60, 1846),
    (70, 141),
];

/// Observed rolls of HP: each value with its count.
pub const HIST_HP_FLAT: [(u16, u32); 8] = [
    (320, 298),
    (360, 419),
    (390, 971),
    (430, 1205),
    (470, 864),
    (510, 680),
    (540, 258),
    (580, 168),
];

/// Observed rolls of Energy Regen: each value with its count.
pub const HIST_ER: [(u16, u32); 8] = [
    (68, 302),
    (76, 375),
    (84, 975),
    (92, 1199),
    (100, 871),
    (108, 643),
    (116, 274),
    (124, 126),
];

/// Observed rolls of Basic Attack DMG Bonus: each value with its count.
pub const HIST_BASIC_ATTACK_DAMAGE: [(u16, u32); 8] = [
    (64, 316),
    (71, 360),
    (79, 959),
    (86, 1199),
    (94, 859),
    (101, 723),
    (109, 263),
    (116, 160),
];

/// Observed rolls of Heavy Attack DMG Bonus: each value with its count.
pub const HIST_HEAVY_ATTACK_DAMAGE: [(u16, u32); 8] = [
    (64, 319),
    (71, 369),
    (79, 968),
    (86, 1187),
    (94, 809),
    (101, 697),
    (109, 283),
    (116, 150),
];

/// Observed rolls of Resonance Skill DMG Bonus: each value with its count.
pub const HIST_SKILL_DAMAGE: [(u16, u32); 8] = [
    (64, 328),
    (71, 357),
    (79, 978),
    (86, 1173),
    (94, 847),
    (101, 731),
    (109, 283),
    (116, 149),
];

/// Observed rolls of Resonance Liberation DMG Bonus: each value with its count.
pub const HIST_ULT_DAMAGE: [(u16, u32); 8] = [
    (64, 292),
    (71, 358),
    (79, 973),
    (86, 1162),
    (94, 823),
    (101, 694),
    (109, 280),
    (116, 144),
];

/// Largest value each buff type can roll, by buff index.
pub const BUFF_MAX_VALUES: [u16; 13] = [105, 210, 116, 147, 116, 60, 70, 580, 124, 116, 116, 116, 116];

/// The observed (value, count) buckets of buff type `index`.
pub open spec fn catalog_histogram(index: int) -> Seq<(u16, u32)> {
    if index == 0 {
        HIST_CRIT_RATE@
    } else if index == 1 {
        HIST_CRIT_DAMAGE@
    } else if index == 2 {
        HIST_ATTACK@
    } else if index == 3 {
        HIST_DEFENSE@
    } else if index == 4 {
        HIST_HP@
    } else if index == 5 {
        HIST_ATTACK_FLAT@
    } else if index == 6 {
        HIST_DEFENSE_FLAT@
    } else if index == 7 {
        HIST_HP_FLAT@
    } else if index == 8 {
        HIST_ER@
    } else if index == 9 {
        HIST_BASIC_ATTACK_DAMAGE@
    } else if index == 10 {
        HIST_HEAVY_ATTACK_DAMAGE@
    } else if index == 11 {
        HIST_SKILL_DAMAGE@
    } else {
        HIST_ULT_DAMAGE@
    }
}

/// The largest value that buff type `index` can roll.
pub open spec fn catalog_max_value(index: int) -> u16 {
    BUFF_MAX_VALUES@[index]
}

/// Every bucket count of the catalog is at most `MAX_BUCKET_COUNT`, and no
/// histogram has more than eight buckets.
pub proof fn lemma_catalog_bounds(index: int)
    requires
        0 <= index < NUM_BUFFS,
    ensures
        1 <= catalog_histogram(index).len() <= 8,
        forall|j: int|
            0 <= j < catalog_histogram(index).len() ==> (#[trigger] catalog_histogram(index)[j]).1
                <= MAX_BUCKET_COUNT,
{
}

/// The last bucket of every histogram holds the largest value of its type.
pub proof fn lemma_catalog_max_is_last(index: int)
    requires
        0 <= index < NUM_BUFFS,
    ensures
        catalog_histogram(index).last().0 == catalog_max_value(index),
        forall|j: int|
            0 <= j < catalog_histogram(index).len() ==> (#[trigger] catalog_histogram(index)[j]).0
                <= catalog_max_value(index),
{
}

/// The histogram of buff type `index`.
pub fn buff_histogram(index: usize) -> (histogram: &'static [(u16, u32)])
    requires
        index < NUM_BUFFS,
    ensures
        histogram@ == catalog_histogram(index as int),
{

    if index == 0 {
        &HIST_CRIT_RATE
    } else if index == 1 {
        &HIST_CRIT_DAMAGE
    } else if index == 2 {
        &HIST_ATTACK
    } else if index == 3 {
        &HIST_DEFENSE
    } else if index == 4 {
        &HIST_HP
    } else if index == 5 {
        &HIST_ATTACK_FLAT
    } else if index == 6 {
        &HIST_DEFENSE_FLAT
    } else if index == 7 {
        &HIST_HP_FLAT
    } else if index == 8 {
        &HIST_ER
    } else if index == 9 {
        &HIST_BASIC_ATTACK_DAMAGE
    } else if index == 10 {
        &HIST_HEAVY_ATTACK_DAMAGE
    } else if index == 11 {
        &HIST_SKILL_DAMAGE
    } else {
        &HIST_ULT_DAMAGE
    }
}

/// The display name of buff type `index`.
pub open spec fn catalog_name(index: int) -> Seq<char> {

    if index == 0 {
        "Crit. Rate"@
    } else if index == 1 {
        "Crit. DMG"@
    } else if index == 2 {
        "ATK%"@
    } else if index == 3 {
        "DEF%"@
    } else if index == 4 {
        "HP%"@
    } else if index == 5 {
        "ATK"@
    } else if index == 6 {
        "DEF"@
    } else if index == 7 {
        "HP"@
    } else if index == 8 {
        "Energy Regen"@
    } else if index == 9 {
        "Basic Attack DMG Bonus"@
    } else if index == 10 {
        "Heavy Attack DMG Bonus"@
    } else if index == 11 {
        "Resonance Skill DMG Bonus"@
    } else {
        "Resonance Liberation DMG Bonus"@
    }
}

/// The display name of buff type `index`.
pub fn buff_name(index: usize) -> (name: &'static str)
    requires
        index < NUM_BUFFS,
    ensures
        name@ == catalog_name(index as int),
{

    if index == 0 {
        "Crit. Rate"
    } else if index == 1 {
        "Crit. DMG"
    } else if index == 2 {
        "ATK%"
    } else if index == 3 {
        "DEF%"
    } else if index == 4 {
        "HP%"
    } else if index == 5 {
        "ATK"
    } else if index == 6 {
        "DEF"
    } else if index == 7 {
        "HP"
    } else if index == 8 {
        "Energy Regen"
    } else if index == 9 {
        "Basic Attack DMG Bonus"
    } else if index == 10 {
        "Heavy Attack DMG Bonus"
    } else if index == 11 {
        "Resonance Skill DMG Bonus"
    } else {
        "Resonance Liberation DMG Bonus"
    }
}

/// The catalog entry of buff type `index`.
pub fn buff_type(index: usize) -> (entry: BuffTypeData)
    requires
        index < NUM_BUFFS,
    ensures
        entry.name@ == catalog_name(index as int),
        entry.max_value == catalog_max_value(index as int),
        entry.histogram@ == catalog_histogram(index as int),
{
    BuffTypeData {
        name: buff_name(index),
        max_value: BUFF_MAX_VALUES[index],
        histogram: buff_histogram(index),
    }
}

} // verus!
