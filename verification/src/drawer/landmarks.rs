//! The fixed patterns of a finished symbol at their coordinates.

use crate::drawer::grid::{at, inside, side, DARK, LIGHT};
use crate::drawer::patterns::{
    alignment_ring, alternating, finder_ring, lemma_covering_found, lemma_covering_near,
    lemma_positions_apart, stamp_allowed, template_cell,
};
use crate::drawer::symbol::{
    lemma_symbol_complete, lemma_symbol_keeps_template, lemma_template_at, symbol,
};
use crate::tables::alignment::{alignment_positions, lemma_alignment_positions, lemma_no_alignment};
use vstd::prelude::*;

verus! {

/// Every module of a finished symbol is dark or light.
pub proof fn lemma_symbol_colours(data: Seq<u8>, version: int, level: int, x: int, y: int)
    requires
        1 <= version <= 40,
        inside(side(version), x, y),
    ensures
        at(symbol(data, version, level), side(version), x, y) == DARK || at(
            symbol(data, version, level),
            side(version),
            x,
            y,
        ) == LIGHT,
{
    lemma_symbol_complete(data, version, level, x, y);
    lemma_symbol_keeps_template(data, version, level, x, y);
    let base = crate::drawer::patterns::template(version);
    let size = side(version);
    let mask = crate::drawer::symbol::best_mask(base, size, data, level);
    lemma_template_at(version, x, y);
    crate::drawer::symbol::lemma_finished_at(base, size, data, level, mask, x, y);
}

/// The three finder patterns of a finished symbol: at the offsets `dx` and
/// `dy` from the upper left corner of each stands the module of the finder
/// pattern.
pub proof fn lemma_symbol_finders(data: Seq<u8>, version: int, level: int, dx: int, dy: int)
    requires
        1 <= version <= 40,
        0 <= dx < 7,
        0 <= dy < 7,
    ensures
        at(symbol(data, version, level), side(version), dx, dy) == finder_ring(dx, dy),
        at(symbol(data, version, level), side(version), side(version) - 7 + dx, dy) == finder_ring(
            dx,
            dy,
        ),
        at(symbol(data, version, level), side(version), dx, side(version) - 7 + dy) == finder_ring(
            dx,
            dy,
        ),
{
    let size = side(version);
    lemma_symbol_keeps_template(data, version, level, dx, dy);
    lemma_symbol_keeps_template(data, version, level, size - 7 + dx, dy);
    lemma_symbol_keeps_template(data, version, level, dx, size - 7 + dy);
}

/// The separators of a finished symbol: the modules along the two sides of
/// each finder pattern that face the middle of the symbol are light.
pub proof fn lemma_symbol_separators(data: Seq<u8>, version: int, level: int, i: int)
    requires
        1 <= version <= 40,
        0 <= i < 8,
    ensures
        at(symbol(data, version, level), side(version), 7, i) == LIGHT,
        at(symbol(data, version, level), side(version), i, 7) == LIGHT,
        at(symbol(data, version, level), side(version), side(version) - 8, i) == LIGHT,
        at(symbol(data, version, level), side(version), side(version) - 8 + i, 7) == LIGHT,
        at(symbol(data, version, level), side(version), 7, side(version) - 8 + i) == LIGHT,
        at(symbol(data, version, level), side(version), i, side(version) - 8) == LIGHT,
{
    let size = side(version);
    lemma_symbol_keeps_template(data, version, level, 7, i);
    lemma_symbol_keeps_template(data, version, level, i, 7);
    lemma_symbol_keeps_template(data, version, level, size - 8, i);
    lemma_symbol_keeps_template(data, version, level, size - 8 + i, 7);
    lemma_symbol_keeps_template(data, version, level, 7, size - 8 + i);
    lemma_symbol_keeps_template(data, version, level, i, size - 8);
}

/// What is known of the centre coordinates of a version.
pub proof fn lemma_centres(version: int)
    requires
        1 <= version <= 40,
    ensures
        alignment_positions(version).len() == if version >= 2 {
            version / 7 + 2
        } else {
            0
        },
        forall|k: int|
            0 <= k < alignment_positions(version).len() - 1 ==> alignment_positions(version)[k]
                + 12 <= #[trigger] alignment_positions(version)[k + 1],
        forall|k: int|
            0 <= k < alignment_positions(version).len() ==> {
                let c = #[trigger] alignment_positions(version)[k];
                &&& c % 2 == 0
                &&& c == 6 || 18 <= c
                &&& c == side(version) - 7 || c <= side(version) - 19
                &&& 6 <= c <= side(version) - 7
            },
{
    let p = alignment_positions(version);
    if version >= 2 {
        lemma_alignment_positions(version);
        assert forall|k: int| 0 <= k < p.len() implies {
            let c = #[trigger] p[k];
            &&& c % 2 == 0
            &&& c == 6 || 18 <= c
            &&& c == side(version) - 7 || c <= side(version) - 19
            &&& 6 <= c <= side(version) - 7
        } by {
            lemma_positions_apart(p, 0, k);
            lemma_positions_apart(p, k, p.len() - 1);
        }
    } else {
        lemma_no_alignment(version);
    }
}

/// The timing patterns of a finished symbol: between the finder patterns
/// row 6 and column 6 change colour with every module, dark on the even
/// ones. And the dark module is dark.
pub proof fn lemma_symbol_timing(data: Seq<u8>, version: int, level: int, i: int)
    requires
        1 <= version <= 40,
        8 <= i <= side(version) - 9,
    ensures
        at(symbol(data, version, level), side(version), i, 6) == alternating(i),
        at(symbol(data, version, level), side(version), 6, i) == alternating(i),
        at(symbol(data, version, level), side(version), 8, 4 * version + 9) == DARK,
{
    let size = side(version);
    let p = alignment_positions(version);
    lemma_centres(version);
    lemma_covering_near(p, p.len(), i);
    lemma_covering_near(p, p.len(), 6);
    assert(template_cell(version, i, 6) == alternating(i));
    assert(template_cell(version, 6, i) == alternating(i));
    lemma_symbol_keeps_template(data, version, level, i, 6);
    lemma_symbol_keeps_template(data, version, level, 6, i);
    lemma_symbol_keeps_template(data, version, level, 8, 4 * version + 9);
}

/// The alignment patterns of a finished symbol: around every pair of
/// centre coordinates that does not lie in the corner of a finder pattern
/// stands an alignment pattern.
pub proof fn lemma_symbol_alignment(
    data: Seq<u8>,
    version: int,
    level: int,
    i: int,
    j: int,
    dx: int,
    dy: int,
)
    requires
        1 <= version <= 40,
        0 <= i < alignment_positions(version).len(),
        0 <= j < alignment_positions(version).len(),
        stamp_allowed(side(version), alignment_positions(version)[i], alignment_positions(version)[j]),
        -2 <= dx <= 2,
        -2 <= dy <= 2,
    ensures
        at(
            symbol(data, version, level),
            side(version),
            alignment_positions(version)[i] + dx,
            alignment_positions(version)[j] + dy,
        ) == alignment_ring(dx, dy),
{
    let size = side(version);
    let p = alignment_positions(version);
    let x = p[i] + dx;
    let y = p[j] + dy;
    lemma_centres(version);
    lemma_covering_found(p, p.len(), x, i);
    lemma_covering_found(p, p.len(), y, j);
    assert(template_cell(version, x, y) == alignment_ring(dx, dy));
    lemma_symbol_keeps_template(data, version, level, x, y);
}

} // verus!
