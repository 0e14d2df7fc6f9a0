//! The room of a template: how many modules it leaves to the data.

use crate::drawer::grid::side;
use crate::drawer::placement::{pair_column, pair_count};
use crate::tables::alignment::ALIGNMENT_CENTERS;
use crate::tables::remainder::raw_modules;
use vstd::prelude::*;

verus! {

/// Centre coordinate `k` of a version.
pub open spec fn centre(version: int, k: int) -> int {
    ALIGNMENT_CENTERS[version - 1][k] as int
}

/// Number of centre coordinates of a version.
pub open spec fn centre_count(version: int) -> int {
    if version >= 2 {
        version / 7 + 2
    } else {
        0
    }
}

/// Index of the centre coordinate among the first `count` of a version that
/// lies at most 2 from `v`; -1 where there is none.
pub open spec fn centre_near(version: int, count: int, v: int) -> int
    decreases count,
{
    if count <= 0 {
        -1
    } else if centre(version, count - 1) - 2 <= v <= centre(version, count - 1) + 2 {
        count - 1
    } else {
        centre_near(version, count - 1, v)
    }
}

/// Whether an alignment pattern may stand at a centre.
pub open spec fn centre_allowed(size: int, cx: int, cy: int) -> bool {
    !(cx < 8 && cy < 8) && !(cx >= size - 8 && cy < 8) && !(cx < 8 && cy >= size - 8)
}

/// Number of rows that the alignment patterns around the first `count`
/// centres of the column of centres at `cx` take, row 6 left out.
pub open spec fn band_rows(version: int, cx: int, count: int) -> int
    decreases count,
{
    if count <= 0 {
        0
    } else {
        band_rows(version, cx, count - 1) + if centre_allowed(
            side(version),
            cx,
            centre(version, count - 1),
        ) {
            if centre(version, count - 1) == 6 {
                4int
            } else {
                5int
            }
        } else {
            0int
        }
    }
}

/// Number of rows at the upper edge, with row 6, that the finder, format,
/// timing and version patterns take in column `x`.
pub open spec fn upper_rows(version: int, x: int) -> int {
    let size = side(version);
    if x < 9 || x >= size - 8 {
        9
    } else if version >= 7 && size - 11 <= x <= size - 9 {
        7
    } else {
        1
    }
}

/// Number of rows at the lower edge that the finder, format and version
/// patterns take in column `x`.
pub open spec fn lower_rows(version: int, x: int) -> int {
    if version >= 7 && x < 6 {
        11
    } else if x < 9 {
        8
    } else {
        0
    }
}

/// Number of modules that the fixed patterns leave to the data in column
/// `x`, which is not column 6.
pub open spec fn column_room(version: int, x: int) -> int {
    let near = centre_near(version, centre_count(version), x);
    side(version) - upper_rows(version, x) - lower_rows(version, x) - if near >= 0 {
        band_rows(version, centre(version, near), centre_count(version))
    } else {
        0
    }
}

/// Number of modules that the fixed patterns leave to the data in the first
/// `pairs` pairs of columns.
pub open spec fn room_in_pairs(version: int, pairs: int) -> int
    decreases pairs,
{
    if pairs <= 0 {
        0
    } else {
        room_in_pairs(version, pairs - 1) + column_room(
            version,
            pair_column(side(version), pairs - 1),
        ) + column_room(version, pair_column(side(version), pairs - 1) - 1)
    }
}

/// Number of modules that the fixed patterns of a version leave to the
/// data.
pub open spec fn room(version: int) -> int {
    room_in_pairs(version, pair_count(side(version)))
}

spec fn rooms_checked(from: int, to: int) -> bool
    decreases to - from,
{
    if from >= to {
        true
    } else {
        room(from) == raw_modules(from) && rooms_checked(from + 1, to)
    }
}

proof fn lemma_checked_room(from: int, to: int, version: int)
    requires
        rooms_checked(from, to),
        from <= version < to,
    ensures
        room(version) == raw_modules(version),
    decreases to - from,
{
    if from < version {
        lemma_checked_room(from + 1, to, version);
    }
}

/// Counted column by column, the fixed patterns of every version leave as
/// many modules as the version is known for.
pub proof fn lemma_room(version: int)
    requires
        1 <= version <= 40,
    ensures
        room(version) == raw_modules(version),
{
    lemma_rooms_checked();
    if version < 11 {
        lemma_checked_room(1, 11, version);
    } else if version < 19 {
        lemma_checked_room(11, 19, version);
    } else if version < 25 {
        lemma_checked_room(19, 25, version);
    } else if version < 30 {
        lemma_checked_room(25, 30, version);
    } else if version < 34 {
        lemma_checked_room(30, 34, version);
    } else if version < 38 {
        lemma_checked_room(34, 38, version);
    } else {
        lemma_checked_room(38, 41, version);
    }
}

proof fn lemma_rooms_checked()
    ensures
        rooms_checked(1, 11),
        rooms_checked(11, 19),
        rooms_checked(19, 25),
        rooms_checked(25, 30),
        rooms_checked(30, 34),
        rooms_checked(34, 38),
        rooms_checked(38, 41),
{
    assert(rooms_checked(1, 11)) by (bit_vector);
    assert(rooms_checked(11, 19)) by (bit_vector);
    assert(rooms_checked(19, 25)) by (bit_vector);
    assert(rooms_checked(25, 30)) by (bit_vector);
    assert(rooms_checked(30, 34)) by (bit_vector);
    assert(rooms_checked(34, 38)) by (bit_vector);
    assert(rooms_checked(38, 41)) by (bit_vector);
}

} // verus!
