//! The final order of the codewords of a symbol.

use crate::bits::concat_upto;
use crate::encoder::mode::{ErrorCorrection, QrError};
use crate::encoder::reed_solomon::{
    ecc_count, error_correction_of, generate_error_correction_codes,
};
use crate::encoder::stream::{encode_text, encoded_bytes, prepare, version_of};
use crate::tables::block::{lemma_block_bounds, BlockLayout};
use crate::tables::layout::{block_layout, get_block_layout, lemma_block_layouts};
use crate::text::text_of;
use vstd::prelude::*;

verus! {

/// Block `b` of the data codewords.
pub open spec fn block_of(data: Seq<u8>, layout: BlockLayout, b: int) -> Seq<u8> {
    data.subrange(layout.block_start(b), layout.block_start(b) + layout.block_len(b))
}

/// The data codewords, cut into the blocks of a layout.
pub open spec fn data_blocks(data: Seq<u8>, layout: BlockLayout) -> Seq<Seq<u8>> {
    Seq::new(layout.block_count() as nat, |b: int| block_of(data, layout, b))
}

/// The error-correction codewords of every block.
pub open spec fn ecc_blocks(data: Seq<u8>, layout: BlockLayout) -> Seq<Seq<u8>> {
    Seq::new(
        layout.block_count() as nat,
        |b: int| error_correction_of(block_of(data, layout, b), layout.ecc_count as nat),
    )
}

/// Codeword `i` of block `b`, where the block has one.
pub open spec fn cell(blocks: Seq<Seq<u8>>, i: int, b: int) -> Seq<u8> {
    if i < blocks[b].len() {
        seq![blocks[b][i]]
    } else {
        Seq::empty()
    }
}

/// Codeword `i` of the first `count` blocks, in the order of the blocks.
/// A block that has no codeword `i` gives none.
pub open spec fn column_upto(blocks: Seq<Seq<u8>>, i: int, count: nat) -> Seq<u8> {
    concat_upto(count, |b: int| cell(blocks, i, b))
}

/// Codeword `i` of every block that has one.
pub open spec fn column(blocks: Seq<Seq<u8>>, i: int) -> Seq<u8> {
    column_upto(blocks, i, blocks.len())
}

/// The first codewords of all blocks, then the second ones, and so on up to
/// codeword `width` (not included).
pub open spec fn interleave(blocks: Seq<Seq<u8>>, width: nat) -> Seq<u8> {
    concat_upto(width, |i: int| column(blocks, i))
}

/// The codewords of a symbol in their final order: the data codewords of
/// all blocks interleaved, then their error-correction codewords
/// interleaved.
pub open spec fn assembled(data: Seq<u8>, layout: BlockLayout) -> Seq<u8> {
    interleave(data_blocks(data, layout), layout.max_block_len() as nat) + interleave(
        ecc_blocks(data, layout),
        layout.ecc_count as nat,
    )
}

/// Number of codewords in column `i` of blocks of which the first `short`
/// have `len` codewords and the others one more, counted over the first
/// `count` blocks.
spec fn column_len(i: int, len: int, short: int, count: int) -> int {
    if i < len {
        count
    } else if i == len && count > short {
        count - short
    } else {
        0
    }
}

proof fn lemma_column_len(blocks: Seq<Seq<u8>>, i: int, len: int, short: int, count: nat)
    requires
        0 <= i,
        0 <= short,
        count <= blocks.len(),
        forall|b: int| 0 <= b < blocks.len() ==> (#[trigger] blocks[b]).len() == if b < short {
            len
        } else {
            len + 1
        },
    ensures
        column_upto(blocks, i, count).len() == column_len(i, len, short, count as int),
    decreases count,
{
    if count > 0 {
        lemma_column_len(blocks, i, len, short, (count - 1) as nat);
        assert(blocks[count - 1].len() == if count - 1 < short {
            len
        } else {
            len + 1
        });
    }
}

proof fn lemma_interleave_len(blocks: Seq<Seq<u8>>, len: int, short: int, width: nat)
    requires
        0 <= short <= blocks.len(),
        0 <= len,
        width <= len + 1,
        forall|b: int| 0 <= b < blocks.len() ==> (#[trigger] blocks[b]).len() == if b < short {
            len
        } else {
            len + 1
        },
    ensures
        interleave(blocks, width).len() == if width <= len {
            (width * blocks.len()) as int
        } else {
            len * blocks.len() + (blocks.len() - short)
        },
    decreases width,
{
    if width > 0 {
        lemma_interleave_len(blocks, len, short, (width - 1) as nat);
        lemma_column_len(blocks, width - 1, len, short, blocks.len());
        assert((width - 1) * blocks.len() + blocks.len() == width * blocks.len())
            by (nonlinear_arith);
    } else {
        assert(width * blocks.len() == 0) by (nonlinear_arith)
            requires
                width == 0,
        ;
    }
}

/// The assembled codewords are as many as the layout has in all.
pub proof fn lemma_assembled_len(data: Seq<u8>, layout: BlockLayout)
    requires
        layout.well_formed(),
        data.len() == layout.data_len(),
    ensures
        interleave(data_blocks(data, layout), layout.max_block_len() as nat).len()
            == layout.data_len(),
        interleave(ecc_blocks(data, layout), layout.ecc_count as nat).len() == layout.block_count()
            * layout.ecc_count,
        assembled(data, layout).len() == layout.total_len(),
{
    let blocks = data_blocks(data, layout);
    let count = layout.block_count();
    let len1 = layout.len1 as int;
    assert forall|b: int| 0 <= b < blocks.len() implies (#[trigger] blocks[b]).len() == if b
        < layout.blocks1 {
        len1
    } else {
        len1 + 1
    } by {
        lemma_block_bounds(layout, b);
    }
    lemma_interleave_len(blocks, len1, layout.blocks1 as int, layout.max_block_len() as nat);
    assert(len1 * count == layout.blocks1 * len1 + layout.blocks2 * len1) by (nonlinear_arith)
        requires
            count == layout.blocks1 + layout.blocks2,
    ;
    assert(layout.blocks2 == 0 ==> layout.blocks2 * layout.len2 == 0) by (nonlinear_arith);
    assert(len1 * count + layout.blocks2 == layout.blocks1 * len1 + layout.blocks2 * (len1 + 1))
        by (nonlinear_arith)
        requires
            count == layout.blocks1 + layout.blocks2,
    ;
    let eccs = ecc_blocks(data, layout);
    let n = layout.ecc_count as int;
    assert forall|b: int| 0 <= b < eccs.len() implies (#[trigger] eccs[b]).len() == if b < count {
        n
    } else {
        n + 1
    } by {
        crate::encoder::reed_solomon::lemma_generator_len(n as nat, n as nat);
        crate::encoder::reed_solomon::lemma_remainder_len(
            block_of(data, layout, b),
            crate::encoder::reed_solomon::generator(n as nat),
        );
    }
    lemma_interleave_len(eccs, n, count, n as nat);
    assert(n * count == count * n) by (nonlinear_arith);
}

/// One block alone, interleaved, is the block itself.
proof fn lemma_interleave_one(blocks: Seq<Seq<u8>>, width: nat)
    requires
        blocks.len() == 1,
        width <= blocks[0].len(),
    ensures
        interleave(blocks, width) == blocks[0].take(width as int),
    decreases width,
{
    if width == 0 {
        assert(interleave(blocks, width) =~= blocks[0].take(0));
    } else {
        let k = (width - 1) as nat;
        lemma_interleave_one(blocks, k);
        reveal_with_fuel(concat_upto, 2);
        assert(column(blocks, k as int) =~= seq![blocks[0][k as int]]);
        assert(interleave(blocks, width) =~= blocks[0].take(width as int));
    }
}

/// Where a symbol has a single block, its codewords are the data codewords
/// followed by their error-correction codewords.
pub proof fn lemma_single_block(data: Seq<u8>, layout: BlockLayout)
    requires
        layout.well_formed(),
        layout.blocks1 == 1,
        layout.blocks2 == 0,
        data.len() == layout.data_len(),
    ensures
        assembled(data, layout) == data + error_correction_of(data, layout.ecc_count as nat),
        assembled(data, layout).len() == layout.len1 + layout.ecc_count,
{
    let count = layout.ecc_count as nat;
    let codes = error_correction_of(data, count);
    lemma_block_bounds(layout, 0);
    assert(layout.data_len() == layout.len1) by (nonlinear_arith)
        requires
            layout.blocks1 == 1,
            layout.blocks2 == 0,
            layout.data_len() == layout.blocks1 * layout.len1 + layout.blocks2 * layout.len2,
    ;
    assert(block_of(data, layout, 0) =~= data);
    crate::encoder::reed_solomon::lemma_generator_len(count, count);
    crate::encoder::reed_solomon::lemma_remainder_len(
        data,
        crate::encoder::reed_solomon::generator(count),
    );
    let blocks = data_blocks(data, layout);
    let eccs = ecc_blocks(data, layout);
    assert(blocks[0] == data);
    assert(eccs[0] == codes);
    lemma_interleave_one(blocks, data.len());
    lemma_interleave_one(eccs, count);
    assert(data.take(data.len() as int) =~= data);
    assert(codes.take(count as int) =~= codes);
}

/// What a vector of blocks holds.
pub open spec fn views(blocks: Seq<Vec<u8>>) -> Seq<Seq<u8>> {
    Seq::new(blocks.len(), |b: int| blocks[b]@)
}

/// Copies `len` codewords from `start` on out of the data codewords.
fn copy_block(data: &Vec<u8>, start: usize, len: usize) -> (block: Vec<u8>)
    requires
        start + len <= data.len(),
    ensures
        block@ == data@.subrange(start as int, start + len),
{
    let mut block: Vec<u8> = Vec::new();
    let mut i: usize = 0;
    while i < len
        invariant
            i <= len,
            start + len <= data.len(),
            block@ == data@.subrange(start as int, start + i),
        decreases len - i,
    {
        block.push(data[start + i]);
        i += 1;
        assert(block@ =~= data@.subrange(start as int, start + i));
    }
    block
}

/// Appends to `out` the codewords of `blocks` interleaved up to `width`.
fn push_interleaved(out: &mut Vec<u8>, blocks: &Vec<Vec<u8>>, width: usize)
    ensures
        final(out)@ == old(out)@ + interleave(views(blocks@), width as nat),
{
    let ghost model = views(blocks@);
    let mut i: usize = 0;
    while i < width
        invariant
            i <= width,
            model == views(blocks@),
            out@ == old(out)@ + interleave(model, i as nat),
        decreases width - i,
    {
        let ghost before = out@;
        let mut b: usize = 0;
        while b < blocks.len()
            invariant
                b <= blocks.len(),
                model == views(blocks@),
                model.len() == blocks.len(),
                out@ == before + column_upto(model, i as int, b as nat),
            decreases blocks.len() - b,
        {
            if i < blocks[b].len() {
                out.push(blocks[b][i]);
            }
            b += 1;
            assert(out@ =~= before + column_upto(model, i as int, b as nat));
        }
        i += 1;
        assert(out@ =~= old(out)@ + interleave(model, i as nat));
    }
}

/// Puts the data codewords of a symbol into their final order and adds the
/// error correction: the data is cut into the blocks of the two groups, the
/// codewords of each block get their error-correction codewords, and both
/// kinds are interleaved over the blocks, the data first.
pub fn interleave_codewords(data: &Vec<u8>, level: ErrorCorrection, version: usize) -> (payload:
    Vec<u8>)
    requires
        1 <= version <= 40,
        data@.len() == block_layout(version as int, level.index()).data_len(),
    ensures
        payload@ == assembled(data@, block_layout(version as int, level.index())),
        payload@.len() == block_layout(version as int, level.index()).total_len(),
{
    let layout = get_block_layout(version, level.to_index());
    proof {
        lemma_block_layouts();
        assert(layout.well_formed());
        lemma_assembled_len(data@, layout);
    }
    let count: usize = layout.blocks1 + layout.blocks2;
    let mut blocks: Vec<Vec<u8>> = Vec::new();
    let mut eccs: Vec<Vec<u8>> = Vec::new();
    let mut start: usize = 0;
    let mut b: usize = 0;
    while b < count
        invariant
            1 <= version <= 40,
            layout == block_layout(version as int, level.index()),
            layout.well_formed(),
            data@.len() == layout.data_len(),
            count == layout.block_count(),
            b <= count,
            start == layout.block_start(b as int),
            start <= data.len(),
            blocks@.len() == b,
            eccs@.len() == b,
            forall|k: int| 0 <= k < b ==> (#[trigger] blocks@[k])@ == block_of(data@, layout, k),
            forall|k: int|
                0 <= k < b ==> (#[trigger] eccs@[k])@ == error_correction_of(
                    block_of(data@, layout, k),
                    layout.ecc_count as nat,
                ),
        decreases count - b,
    {
        proof {
            lemma_block_bounds(layout, b as int);
        }
        let len: usize = if b < layout.blocks1 {
            layout.len1
        } else {
            layout.len2
        };
        let block = copy_block(data, start, len);
        let ecc = generate_error_correction_codes(&block, level, version);
        blocks.push(block);
        eccs.push(ecc);
        start += len;
        b += 1;
    }
    assert(views(blocks@) =~= data_blocks(data@, layout));
    assert(views(eccs@) =~= ecc_blocks(data@, layout));

    let width: usize = if layout.len1 >= layout.len2 {
        layout.len1
    } else {
        layout.len2
    };
    let mut payload: Vec<u8> = Vec::new();
    push_interleaved(&mut payload, &blocks, width);
    push_interleaved(&mut payload, &eccs, layout.ecc_count);
    assert(payload@ =~= assembled(data@, layout));
    payload
}

/// The codewords of the symbol for a text of `count` characters in their
/// final order, given the version of the symbol.
pub open spec fn codewords_of(
    text: Seq<u8>,
    count: nat,
    version: int,
    level: ErrorCorrection,
) -> Seq<u8> {
    assembled(encoded_bytes(text, count, version, level), block_layout(version, level.index()))
}

/// Encodes an input, computes the error-correction codewords of its blocks
/// and interleaves both into the codewords of the symbol.
/// `CapacityExceeded` where no version holds the input.
pub fn assemble_qr_data(input: &str, level: ErrorCorrection) -> (r: Result<Vec<u8>, QrError>)
    ensures
        match version_of(input@, level) {
            Some(version) => r.is_ok() && r.unwrap()@ == codewords_of(
                text_of(input@),
                input@.len(),
                version,
                level,
            ) && r.unwrap()@.len() == block_layout(version, level.index()).total_len(),
            None => r == Err::<Vec<u8>, QrError>(QrError::CapacityExceeded),
        },
{
    match prepare(input, level) {
        Ok((count, version)) => {
            let data = encode_text(input.as_bytes(), count, version, level);
            Ok(interleave_codewords(&data, level, version))
        },
        Err(e) => Err(e),
    }
}

} // verus!
