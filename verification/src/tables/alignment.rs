use vstd::prelude::*;

verus! {

/// Centre coordinates of the alignment patterns by version (minus one),
/// filled up with zeros. Version 1 has none.
pub const ALIGNMENT_CENTERS: [[u8; 7]; 40] = [
    [0, 0, 0, 0, 0, 0, 0],
    [6, 18, 0, 0, 0, 0, 0],
    [6, 22, 0, 0, 0, 0, 0],
    [6, 26, 0, 0, 0, 0, 0],
    [6, 30, 0, 0, 0, 0, 0],
    [6, 34, 0, 0, 0, 0, 0],
    [6, 22, 38, 0, 0, 0, 0],
    [6, 24, 42, 0, 0, 0, 0],
    [6, 26, 46, 0, 0, 0, 0],
    [6, 28, 50, 0, 0, 0, 0],
    [6, 30, 54, 0, 0, 0, 0],
    [6, 32, 58, 0, 0, 0, 0],
    [6, 34, 62, 0, 0, 0, 0],
    [6, 26, 46, 66, 0, 0, 0],
    [6, 26, 48, 70, 0, 0, 0],
    [6, 26, 50, 74, 0, 0, 0],
    [6, 30, 54, 78, 0, 0, 0],
    [6, 30, 56, 82, 0, 0, 0],
    [6, 30, 58, 86, 0, 0, 0],
    [6, 34, 62, 90, 0, 0, 0],
    [6, 28, 50, 72, 94, 0, 0],
    [6, 26, 50, 74, 98, 0, 0],
    [6, 30, 54, 78, 102, 0, 0],
    [6, 28, 54, 80, 106, 0, 0],
    [6, 32, 58, 84, 110, 0, 0],
    [6, 30, 58, 86, 114, 0, 0],
    [6, 34, 62, 90, 118, 0, 0],
    [6, 26, 50, 74, 98, 122, 0],
    [6, 30, 54, 78, 102, 126, 0],
    [6, 26, 52, 78, 104, 130, 0],
    [6, 30, 56, 82, 108, 134, 0],
    [6, 34, 60, 86, 112, 138, 0],
    [6, 30, 58, 86, 114, 142, 0],
    [6, 34, 62, 90, 118, 146, 0],
    [6, 30, 54, 78, 102, 126, 150],
    [6, 24, 50, 76, 102, 128, 154],
    [6, 28, 54, 80, 106, 132, 158],
    [6, 32, 58, 84, 110, 136, 162],
    [6, 26, 54, 82, 110, 138, 166],
    [6, 30, 58, 86, 114, 142, 170],
];

/// Number of alignment centre coordinates of a version.
pub open spec fn alignment_count(version: int) -> int {
    if 2 <= version <= 40 {
        version / 7 + 2
    } else {
        0
    }
}

/// Centre coordinates of the alignment patterns. The centres are all pairs of
/// these coordinates.
#[verifier::opaque]
pub open spec fn alignment_positions(version: int) -> Seq<int> {
    Seq::new(alignment_count(version) as nat, |i: int| ALIGNMENT_CENTERS[version - 1][i] as int)
}

/// Machine numbers as integers.
pub open spec fn as_ints(v: Seq<usize>) -> Seq<int> {
    Seq::new(v.len(), |i: int| v[i] as int)
}

/// The centre coordinates of the alignment patterns of a version, in
/// increasing order. Empty for version 1 and for numbers that are no version.
pub fn get_alignment_pattern_locations(version: usize) -> (r: Vec<usize>)
    ensures
        as_ints(r@) == alignment_positions(version as int),
{
    let mut result: Vec<usize> = Vec::new();
    if 2 <= version && version <= 40 {
        let count: usize = version / 7 + 2;
        let mut i: usize = 0;
        while i < count
            invariant
                2 <= version <= 40,
                count == version / 7 + 2,
                i <= count <= 7,
                result@.len() == i,
                forall|k: int| 0 <= k < i ==> result@[k] == ALIGNMENT_CENTERS[version - 1][k],
            decreases count - i,
        {
            result.push(ALIGNMENT_CENTERS[version - 1][i] as usize);
            i += 1;
        }
    }
    proof {
        reveal(alignment_positions);
    }
    assert(as_ints(result@) =~= alignment_positions(version as int));
    result
}

spec fn centers_ordered(version: int) -> bool {
    let p = alignment_positions(version);
    &&& p[0] == 6
    &&& p[p.len() - 1] == 4 * version + 10
    &&& forall|i: int| 0 <= i < p.len() - 1 ==> p[i] + 12 <= #[trigger] p[i + 1]
    &&& forall|i: int| 0 <= i < p.len() ==> (#[trigger] p[i]) % 2 == 0
}

/// Version 1 has no alignment pattern.
pub proof fn lemma_no_alignment(version: int)
    requires
        version < 2 || version > 40,
    ensures
        alignment_positions(version).len() == 0,
{
    reveal(alignment_positions);
}

/// From version 2 on the first centre coordinate is 6, the last lies 7
/// modules from the far edge, neighbouring coordinates are at least 12
/// apart, so that no two alignment patterns touch, and all are even, so
/// that the patterns agree with the timing patterns.
pub proof fn lemma_alignment_positions(version: int)
    requires
        2 <= version <= 40,
    ensures
        alignment_positions(version).len() == version / 7 + 2,
        alignment_positions(version)[0] == 6,
        alignment_positions(version)[version / 7 + 1] == 4 * version + 10,
        forall|i: int|
            0 <= i < version / 7 + 1 ==> alignment_positions(version)[i] + 12
                <= #[trigger] alignment_positions(version)[i + 1],
        forall|i: int|
            0 <= i < version / 7 + 2 ==> (#[trigger] alignment_positions(version)[i]) % 2 == 0,
{
    reveal(alignment_positions);
    assert(centers_ordered(2));
    assert(centers_ordered(3));
    assert(centers_ordered(4));
    assert(centers_ordered(5));
    assert(centers_ordered(6));
    assert(centers_ordered(7));
    assert(centers_ordered(8));
    assert(centers_ordered(9));
    assert(centers_ordered(10));
    assert(centers_ordered(11));
    assert(centers_ordered(12));
    assert(centers_ordered(13));
    assert(centers_ordered(14));
    assert(centers_ordered(15));
    assert(centers_ordered(16));
    assert(centers_ordered(17));
    assert(centers_ordered(18));
    assert(centers_ordered(19));
    assert(centers_ordered(20));
    assert(centers_ordered(21));
    assert(centers_ordered(22));
    assert(centers_ordered(23));
    assert(centers_ordered(24));
    assert(centers_ordered(25));
    assert(centers_ordered(26));
    assert(centers_ordered(27));
    assert(centers_ordered(28));
    assert(centers_ordered(29));
    assert(centers_ordered(30));
    assert(centers_ordered(31));
    assert(centers_ordered(32));
    assert(centers_ordered(33));
    assert(centers_ordered(34));
    assert(centers_ordered(35));
    assert(centers_ordered(36));
    assert(centers_ordered(37));
    assert(centers_ordered(38));
    assert(centers_ordered(39));
    assert(centers_ordered(40));
}

} // verus!
