use vstd::prelude::*;

use crate::structures::{clone_atoms, clone_block, same_block, Atom, CoordinateChoice, StructureBlock};

verus! {

/// Two energies closer than this count as the same level in the energy
/// histogram: 0.001 energy units, in the 10^-6 fixed-point scale.
pub const ENERGY_THRESHOLD: i64 = 1000;

/// Absolute value of an integer.
pub open spec fn abs_int(x: int) -> int {
    if x < 0 {
        -x
    } else {
        x
    }
}

/// The least energy among the blocks: `None` exactly when there are no
/// blocks, otherwise an attained lower bound of all energies.
pub fn find_minimum_energy(blocks: &Vec<StructureBlock>) -> (r: Option<i64>)
    ensures
        match r {
            Some(m) => {
                &&& blocks@.len() > 0
                &&& exists|i: int| 0 <= i < blocks@.len() && (#[trigger] blocks@[i]).energy == m
                &&& forall|i: int| 0 <= i < blocks@.len() ==> m <= (#[trigger] blocks@[i]).energy
            },
            None => blocks@.len() == 0,
        },
{
    if blocks.len() == 0 {
        return None;
    }
    let mut m: i64 = blocks[0].energy;
    let mut i: usize = 1;
    while i < blocks.len()
        invariant
            blocks@.len() > 0,
            1 <= i <= blocks@.len(),
            exists|k: int| 0 <= k < blocks@.len() && (#[trigger] blocks@[k]).energy == m,
            forall|k: int| 0 <= k < i ==> m <= (#[trigger] blocks@[k]).energy,
        decreases blocks@.len() - i,
    {
        if blocks[i].energy < m {
            m = blocks[i].energy;
        }
        i = i + 1;
    }
    Some(m)
}

/// The number of blocks.
pub fn count_strucutre_block(blocks: &Vec<StructureBlock>) -> (count: u64)
    ensures
        count == blocks@.len(),
{
    blocks.len() as u64
}

/// One level of the energy histogram: an energy and how many blocks
/// were folded into it.
#[derive(Clone, Copy, PartialEq, Eq, Structural, Debug)]
pub struct EnergyInfo {
    pub energy: i64,
    pub count: u64,
}

/// The best matching level for energy `e` among the first `k` levels:
/// the earliest level of least distance to `e`, among those closer than
/// the threshold.
pub open spec fn best_match_upto(list: Seq<EnergyInfo>, e: int, k: int) -> Option<int>
    decreases k,
{
    if k <= 0 {
        None
    } else {
        let prev = best_match_upto(list, e, k - 1);
        let d = abs_int(list[k - 1].energy - e);
        if d < ENERGY_THRESHOLD && (prev is None || d < abs_int(list[prev->Some_0].energy - e)) {
            Some(k - 1)
        } else {
            prev
        }
    }
}

/// The energy histogram after folding in the first `k` blocks: each
/// block increments its best matching level, or starts a new level of
/// count 1 when no level is within the threshold.
pub open spec fn energy_list_spec(blocks: Seq<StructureBlock>, k: int) -> Seq<EnergyInfo>
    decreases k,
{
    if k <= 0 {
        Seq::empty()
    } else {
        let prev = energy_list_spec(blocks, k - 1);
        let e = blocks[k - 1].energy as int;
        match best_match_upto(prev, e, prev.len() as int) {
            Some(i) => prev.update(
                i,
                EnergyInfo { energy: prev[i].energy, count: (prev[i].count + 1) as u64 },
            ),
            None => prev.push(EnergyInfo { energy: blocks[k - 1].energy, count: 1u64 }),
        }
    }
}

/// A best match, when there is one, is a valid index.
proof fn lemma_best_match_in_range(list: Seq<EnergyInfo>, e: int, k: int)
    requires
        0 <= k <= list.len(),
    ensures
        match best_match_upto(list, e, k) {
            Some(i) => 0 <= i < k,
            None => true,
        },
    decreases k,
{
    if k > 0 {
        lemma_best_match_in_range(list, e, k - 1);
    }
}

/// After `k` blocks the histogram has at most `k` levels and every
/// count lies between 1 and `k`.
proof fn lemma_energy_list_counts(blocks: Seq<StructureBlock>, k: int)
    requires
        0 <= k <= u64::MAX,
    ensures
        energy_list_spec(blocks, k).len() <= k,
        forall|t: int|
            0 <= t < energy_list_spec(blocks, k).len() ==> 1 <= (#[trigger] energy_list_spec(
                blocks,
                k,
            )[t]).count <= k,
    decreases k,
{
    if k > 0 {
        lemma_energy_list_counts(blocks, k - 1);
        let prev = energy_list_spec(blocks, k - 1);
        let e = blocks[k - 1].energy as int;
        lemma_best_match_in_range(prev, e, prev.len() as int);
    }
}

/// The energy histogram of the blocks: levels in order of first
/// appearance, each block folded into the earliest nearest level within
/// the threshold, blocks processed in input order.
pub fn list_energy(blocks: &Vec<StructureBlock>) -> (r: Vec<EnergyInfo>)
    requires
        forall|i: int| 0 <= i < blocks@.len() ==> (#[trigger] blocks@[i]).wf(),
    ensures
        r@ == energy_list_spec(blocks@, blocks@.len() as int),
{
    let mut list: Vec<EnergyInfo> = Vec::new();
    let mut k: usize = 0;
    while k < blocks.len()
        invariant
            forall|i: int| 0 <= i < blocks@.len() ==> (#[trigger] blocks@[i]).wf(),
            k <= blocks@.len(),
            list@ == energy_list_spec(blocks@, k as int),
            forall|t: int|
                0 <= t < list@.len() ==> -crate::structures::ENERGY_LIMIT <= (
                #[trigger] list@[t]).energy <= crate::structures::ENERGY_LIMIT,
        decreases blocks@.len() - k,
    {
        proof {
            lemma_energy_list_counts(blocks@, k as int);
        }
        let current_energy = blocks[k].energy;
        let mut min_index: Option<usize> = None;
        let mut min_diff: i64 = 0;
        let mut j: usize = 0;
        while j < list.len()
            invariant
                forall|i: int| 0 <= i < blocks@.len() ==> (#[trigger] blocks@[i]).wf(),
                k < blocks@.len(),
                current_energy == blocks@[k as int].energy,
                forall|t: int| 0 <= t < list@.len() ==> 1 <= (#[trigger] list@[t]).count,
                forall|t: int|
                    0 <= t < list@.len() ==> -crate::structures::ENERGY_LIMIT <= (
                    #[trigger] list@[t]).energy <= crate::structures::ENERGY_LIMIT,
                j <= list@.len(),
                match min_index {
                    Some(i) => {
                        &&& best_match_upto(list@, current_energy as int, j as int) == Some(
                            i as int,
                        )
                        &&& i < list@.len()
                        &&& min_diff == abs_int(list@[i as int].energy - current_energy)
                    },
                    None => best_match_upto(list@, current_energy as int, j as int) is None,
                },
            decreases list@.len() - j,
        {
            let entry_energy = list[j].energy;
            let diff: i64 = if entry_energy >= current_energy {
                entry_energy - current_energy
            } else {
                current_energy - entry_energy
            };
            let better: bool = match min_index {
                Some(_) => diff < min_diff,
                None => true,
            };
            if diff < ENERGY_THRESHOLD && better {
                min_index = Some(j);
                min_diff = diff;
            }
            j = j + 1;
        }
        match min_index {
            Some(index) => {
                let c = list[index];
                list.set(index, EnergyInfo { energy: c.energy, count: c.count + 1 });
            },
            None => {
                list.push(EnergyInfo { energy: current_energy, count: 1 });
            },
        }
        k = k + 1;
    }
    list
}

/// `block` copies the entry of `blocks` at `i`, which has the least
/// energy overall and is the last entry attaining it.
pub open spec fn is_minimum_block_at(
    blocks: Seq<StructureBlock>,
    i: int,
    block: StructureBlock,
) -> bool {
    &&& 0 <= i < blocks.len()
    &&& same_block(block, blocks[i])
    &&& forall|j: int| 0 <= j < blocks.len() ==> blocks[i].energy <= (#[trigger] blocks[j]).energy
    &&& forall|j: int| i < j < blocks.len() ==> blocks[i].energy < (#[trigger] blocks[j]).energy
}

/// The full contract of the minimum extraction, over any outcome.
pub open spec fn extract_outcome_ok(r: Option<StructureBlock>, blocks: Seq<StructureBlock>) -> bool {
    &&& (r is Some ==> exists|i: int| #[trigger] is_minimum_block_at(blocks, i, r->Some_0))
    &&& (r is None ==> blocks.len() == 0)
}

/// Packaging lemma: a concrete witness yields the existential form.
proof fn lemma_minimum_intro(blocks: Seq<StructureBlock>, i: int, block: StructureBlock)
    requires
        is_minimum_block_at(blocks, i, block),
    ensures
        extract_outcome_ok(Some(block), blocks),
{
    let r = Some(block);
    assert(r->Some_0 == block);
    assert(is_minimum_block_at(blocks, i, r->Some_0));
}

/// The block of least energy, the last such block when several tie:
/// `None` exactly when there are no blocks.
pub fn extract_minimum(blocks: &Vec<StructureBlock>) -> (r: Option<StructureBlock>)
    ensures
        extract_outcome_ok(r, blocks@),
{
    if blocks.len() == 0 {
        return None;
    }
    let mut bi: usize = 0;
    let mut i: usize = 1;
    while i < blocks.len()
        invariant
            blocks@.len() > 0,
            bi < i <= blocks@.len(),
            forall|j: int| 0 <= j < i ==> blocks@[bi as int].energy <= (#[trigger] blocks@[j]).energy,
            forall|j: int| bi < j < i ==> blocks@[bi as int].energy < (#[trigger] blocks@[j]).energy,
        decreases blocks@.len() - i,
    {
        if blocks[i].energy <= blocks[bi].energy {
            bi = i;
        }
        i = i + 1;
    }
    let block = clone_block(&blocks[bi]);
    proof {
        lemma_minimum_intro(blocks@, bi as int, block);
    }
    Some(block)
}

/// How often element `e` occurs in an atom list.
pub open spec fn count_elem(s: Seq<Atom>, e: Seq<char>) -> int
    decreases s.len(),
{
    if s.len() == 0 {
        0
    } else {
        count_elem(s.drop_last(), e) + if s.last().element@ == e {
            1int
        } else {
            0int
        }
    }
}

/// Two atom lists have the same composition: every element occurs
/// equally often in both.
pub open spec fn consistent(a: Seq<Atom>, b: Seq<Atom>) -> bool {
    forall|e: Seq<char>| #[trigger] count_elem(a, e) == count_elem(b, e)
}

/// An element count never exceeds the list length.
proof fn lemma_count_elem_le_len(s: Seq<Atom>, e: Seq<char>)
    ensures
        0 <= count_elem(s, e) <= s.len(),
    decreases s.len(),
{
    if s.len() > 0 {
        lemma_count_elem_le_len(s.drop_last(), e);
    }
}

/// A positive count means the element occurs in the list.
proof fn lemma_count_elem_pos(s: Seq<Atom>, e: Seq<char>)
    requires
        count_elem(s, e) > 0,
    ensures
        exists|j: int| 0 <= j < s.len() && (#[trigger] s[j]).element@ == e,
    decreases s.len(),
{
    if s.last().element@ == e {
        assert(s[s.len() - 1].element@ == e);
    } else {
        lemma_count_elem_pos(s.drop_last(), e);
        let j = choose|j: int|
            0 <= j < s.drop_last().len() && (#[trigger] s.drop_last()[j]).element@ == e;
        assert(s[j].element@ == e);
    }
}

/// Some entry of the composition list `m` carries the element `e`.
pub open spec fn listed_in(m: Seq<(String, u64)>, e: Seq<char>) -> bool {
    exists|k: int| 0 <= k < m.len() && (#[trigger] m[k]).0@ == e
}

/// How often `elem` occurs among the atoms.
fn count_occurrences(atoms: &Vec<Atom>, elem: &String) -> (c: u64)
    ensures
        c == count_elem(atoms@, elem@),
{
    proof {
        lemma_count_elem_le_len(atoms@, elem@);
    }
    let mut c: u64 = 0;
    let mut i: usize = 0;
    while i < atoms.len()
        invariant
            i <= atoms@.len(),
            c == count_elem(atoms@.subrange(0, i as int), elem@),
            c <= i,
        decreases atoms@.len() - i,
    {
        proof {
            assert(atoms@.subrange(0, i + 1).drop_last() =~= atoms@.subrange(0, i as int));
            assert(atoms@.subrange(0, i + 1).last() == atoms@[i as int]);
        }
        if atoms[i].element.eq(elem) {
            c = c + 1;
        }
        i = i + 1;
    }
    proof {
        assert(atoms@.subrange(0, atoms@.len() as int) =~= atoms@);
    }
    c
}

/// Check that every block holds the same multiset of elements as the
/// first one.  On success the result lists the composition of the first
/// block: each element that occurs, once, with its count; on failure
/// (some block differs) the result is `None`.
pub fn check_atom_consistency(blocks: &Vec<StructureBlock>) -> (r: Option<Vec<(String, u64)>>)
    ensures
        match r {
            Some(m) => {
                &&& forall|i: int|
                    0 <= i < blocks@.len() ==> consistent(
                        (#[trigger] blocks@[i]).atoms@,
                        blocks@[0].atoms@,
                    )
                &&& blocks@.len() > 0 ==> {
                    &&& forall|k: int|
                        0 <= k < m@.len() ==> (#[trigger] m@[k]).1 == count_elem(
                            blocks@[0].atoms@,
                            m@[k].0@,
                        ) && m@[k].1 > 0
                    &&& forall|k1: int, k2: int|
                        0 <= k1 < k2 < m@.len() ==> (#[trigger] m@[k1]).0@ != (
                        #[trigger] m@[k2]).0@
                    &&& forall|j: int|
                        0 <= j < blocks@[0].atoms@.len() ==> #[trigger] listed_in(
                            m@,
                            blocks@[0].atoms@[j].element@,
                        )
                }
            },
            None => exists|i: int|
                0 <= i < blocks@.len() && !consistent(
                    (#[trigger] blocks@[i]).atoms@,
                    blocks@[0].atoms@,
                ),
        },
{
    if blocks.len() == 0 {
        return Some(Vec::new());
    }
    let first = &blocks[0];
    // The composition of the first block.
    let mut m: Vec<(String, u64)> = Vec::new();
    let mut j: usize = 0;
    while j < first.atoms.len()
        invariant
            blocks@.len() > 0,
            first.atoms@ == blocks@[0].atoms@,
            j <= blocks@[0].atoms@.len(),
            forall|k: int|
                0 <= k < m@.len() ==> (#[trigger] m@[k]).1 == count_elem(
                    blocks@[0].atoms@,
                    m@[k].0@,
                ) && m@[k].1 > 0,
            forall|k1: int, k2: int|
                0 <= k1 < k2 < m@.len() ==> (#[trigger] m@[k1]).0@ != (#[trigger] m@[k2]).0@,
            forall|t: int|
                0 <= t < j ==> #[trigger] listed_in(m@, blocks@[0].atoms@[t].element@),
        decreases blocks@[0].atoms@.len() - j,
    {
        let elem = &first.atoms[j].element;
        let mut seen: bool = false;
        let mut k: usize = 0;
        while k < m.len()
            invariant
                k <= m@.len(),
                blocks@.len() > 0,
                j < blocks@[0].atoms@.len(),
                elem@ == blocks@[0].atoms@[j as int].element@,
                seen == exists|t: int| 0 <= t < k && (#[trigger] m@[t]).0@ == elem@,
            decreases m@.len() - k,
        {
            if m[k].0.eq(elem) {
                seen = true;
            }
            k = k + 1;
        }
        let ghost old_m = m@;
        if !seen {
            let c = count_occurrences(&first.atoms, elem);
            proof {
                assert(blocks@[0].atoms@[j as int].element@ == elem@);
                assert(count_elem(blocks@[0].atoms@, elem@) > 0) by {
                    lemma_count_elem_same_value(blocks@[0].atoms@, elem@, j as int);
                }
            }
            m.push((elem.clone(), c));
        }
        proof {
            assert forall|t: int| 0 <= t < j + 1 implies #[trigger] listed_in(
                m@,
                blocks@[0].atoms@[t].element@,
            ) by {
                if t < j {
                    assert(listed_in(old_m, blocks@[0].atoms@[t].element@));
                    let k2 = choose|k2: int|
                        0 <= k2 < old_m.len() && (#[trigger] old_m[k2]).0@
                            == blocks@[0].atoms@[t].element@;
                    assert(m@[k2].0@ == blocks@[0].atoms@[t].element@);
                } else {
                    if seen {
                        let k2 = choose|k2: int|
                            0 <= k2 < old_m.len() && (#[trigger] old_m[k2]).0@ == elem@;
                        assert(m@[k2].0@ == blocks@[0].atoms@[t].element@);
                    } else {
                        assert(m@[m@.len() - 1].0@ == blocks@[0].atoms@[t].element@);
                    }
                }
            }
        }
        j = j + 1;
    }
    // Compare every other block against the first, in both directions.
    let mut i: usize = 1;
    while i < blocks.len()
        invariant
            blocks@.len() > 0,
            1 <= i <= blocks@.len(),
            forall|t: int|
                0 <= t < i ==> consistent((#[trigger] blocks@[t]).atoms@, blocks@[0].atoms@),
            forall|k: int|
                0 <= k < m@.len() ==> (#[trigger] m@[k]).1 == count_elem(
                    blocks@[0].atoms@,
                    m@[k].0@,
                ) && m@[k].1 > 0,
            forall|k1: int, k2: int|
                0 <= k1 < k2 < m@.len() ==> (#[trigger] m@[k1]).0@ != (#[trigger] m@[k2]).0@,
            forall|t: int|
                0 <= t < blocks@[0].atoms@.len() ==> #[trigger] listed_in(
                    m@,
                    blocks@[0].atoms@[t].element@,
                ),
        decreases blocks@.len() - i,
    {
        if !blocks_consistent(&blocks[0], &blocks[i]) {
            return None;
        }
        i = i + 1;
    }
    Some(m)
}

/// The element `e` of atom `j` occurs at least once.
proof fn lemma_count_elem_same_value(s: Seq<Atom>, e: Seq<char>, j: int)
    requires
        0 <= j < s.len(),
        s[j].element@ == e,
    ensures
        count_elem(s, e) > 0,
    decreases s.len(),
{
    if j == s.len() - 1 {
        lemma_count_elem_le_len(s.drop_last(), e);
    } else {
        lemma_count_elem_same_value(s.drop_last(), e, j);
        lemma_count_elem_le_len(s.drop_last(), e);
    }
}

/// Whether two blocks hold the same multiset of elements, decided by
/// comparing, for every atom of either block, how often its element
/// occurs in both.
fn blocks_consistent(a: &StructureBlock, b: &StructureBlock) -> (r: bool)
    ensures
        r == consistent(b.atoms@, a.atoms@),
{
    let mut j: usize = 0;
    while j < a.atoms.len()
        invariant
            j <= a.atoms@.len(),
            forall|t: int|
                0 <= t < j ==> count_elem(a.atoms@, (#[trigger] a.atoms@[t]).element@)
                    == count_elem(b.atoms@, a.atoms@[t].element@),
        decreases a.atoms@.len() - j,
    {
        let elem = &a.atoms[j].element;
        if count_occurrences(&a.atoms, elem) != count_occurrences(&b.atoms, elem) {
            proof {
                lemma_count_elem_same_value(a.atoms@, elem@, j as int);
                assert(!consistent(b.atoms@, a.atoms@)) by {
                    assert(count_elem(b.atoms@, elem@) != count_elem(a.atoms@, elem@));
                }
            }
            return false;
        }
        j = j + 1;
    }
    let mut k: usize = 0;
    while k < b.atoms.len()
        invariant
            k <= b.atoms@.len(),
            forall|t: int|
                0 <= t < a.atoms@.len() ==> count_elem(a.atoms@, (#[trigger] a.atoms@[t]).element@)
                    == count_elem(b.atoms@, a.atoms@[t].element@),
            forall|t: int|
                0 <= t < k ==> count_elem(a.atoms@, (#[trigger] b.atoms@[t]).element@)
                    == count_elem(b.atoms@, b.atoms@[t].element@),
        decreases b.atoms@.len() - k,
    {
        let elem = &b.atoms[k].element;
        if count_occurrences(&a.atoms, elem) != count_occurrences(&b.atoms, elem) {
            proof {
                lemma_count_elem_same_value(b.atoms@, elem@, k as int);
                assert(!consistent(b.atoms@, a.atoms@)) by {
                    assert(count_elem(b.atoms@, elem@) != count_elem(a.atoms@, elem@));
                }
            }
            return false;
        }
        k = k + 1;
    }
    proof {
        assert forall|e: Seq<char>| #[trigger] count_elem(b.atoms@, e) == count_elem(
            a.atoms@,
            e,
        ) by {
            if count_elem(a.atoms@, e) > 0 {
                lemma_count_elem_pos(a.atoms@, e);
            } else if count_elem(b.atoms@, e) > 0 {
                lemma_count_elem_pos(b.atoms@, e);
            } else {
                lemma_count_elem_le_len(a.atoms@, e);
                lemma_count_elem_le_len(b.atoms@, e);
            }
        }
    }
    true
}

/// The coordinate of an atom along the chosen axis.
pub open spec fn coordinate_along(a: Atom, axis: CoordinateChoice) -> int {
    match axis {
        CoordinateChoice::X => a.coordinate.0 as int,
        CoordinateChoice::Y => a.coordinate.1 as int,
        CoordinateChoice::Z => a.coordinate.2 as int,
    }
}

/// Atoms ordered by ascending coordinate along the chosen axis.
pub open spec fn sorted_along(s: Seq<Atom>, axis: CoordinateChoice) -> bool {
    forall|i: int, j: int|
        0 <= i < j < s.len() ==> coordinate_along(s[i], axis) <= coordinate_along(s[j], axis)
}

/// Sort atoms by ascending coordinate along the chosen axis; the result
/// holds exactly the input atoms.
fn sort_atoms_along(atoms: Vec<Atom>, axis: CoordinateChoice) -> (r: Vec<Atom>)
    ensures
        sorted_along(r@, axis),
        r@.to_multiset() == atoms@.to_multiset(),
        r@.len() == atoms@.len(),
{
    let mut rest = atoms;
    let mut out: Vec<Atom> = Vec::new();
    let ghost orig = rest@;
    proof {
        out@.to_multiset_ensures();
        rest@.to_multiset_ensures();
    }
    while rest.len() > 0
        invariant
            out@.to_multiset().add(rest@.to_multiset()) == orig.to_multiset(),
            out@.len() + rest@.len() == orig.len(),
            sorted_along(out@, axis),
            forall|i: int, j: int|
                0 <= i < out@.len() && 0 <= j < rest@.len() ==> coordinate_along(
                    #[trigger] out@[i],
                    axis,
                ) <= coordinate_along(#[trigger] rest@[j], axis),
        decreases rest@.len(),
    {
        let mut min_idx: usize = 0;
        let mut j: usize = 1;
        while j < rest.len()
            invariant
                rest@.len() > 0,
                min_idx < j <= rest@.len(),
                forall|k: int|
                    0 <= k < j ==> coordinate_along(rest@[min_idx as int], axis)
                        <= coordinate_along(#[trigger] rest@[k], axis),
            decreases rest@.len() - j,
        {
            let c_j = coordinate_value(&rest[j], axis);
            let c_m = coordinate_value(&rest[min_idx], axis);
            if c_j < c_m {
                min_idx = j;
            }
            j = j + 1;
        }
        let ghost old_out = out@;
        let ghost old_rest = rest@;
        let m = rest.remove(min_idx);
        out.push(m);
        proof {
            old_rest.to_multiset_ensures();
            old_out.to_multiset_ensures();
            assert(old_rest.to_multiset().count(m) > 0) by {
                assert(old_rest.contains(m));
            }
            assert(out@.to_multiset().add(rest@.to_multiset()) =~= old_out.to_multiset().add(
                old_rest.to_multiset(),
            ));
            assert forall|i: int, j2: int|
                0 <= i < out@.len() && 0 <= j2 < rest@.len() implies coordinate_along(
                #[trigger] out@[i],
                axis,
            ) <= coordinate_along(#[trigger] rest@[j2], axis) by {
                assert(rest@[j2] == if j2 < min_idx {
                    old_rest[j2]
                } else {
                    old_rest[j2 + 1]
                });
            }
        }
    }
    proof {
        assert(rest@ =~= Seq::<Atom>::empty());
        assert(rest@.to_multiset() =~= vstd::multiset::Multiset::<Atom>::empty());
        assert(out@.to_multiset() =~= out@.to_multiset().add(rest@.to_multiset()));
    }
    out
}

/// The coordinate of an atom along the chosen axis.
fn coordinate_value(a: &Atom, axis: CoordinateChoice) -> (c: i64)
    ensures
        c as int == coordinate_along(*a, axis),
{
    match axis {
        CoordinateChoice::X => a.coordinate.0,
        CoordinateChoice::Y => a.coordinate.1,
        CoordinateChoice::Z => a.coordinate.2,
    }
}

/// Reorder the atoms of a block by ascending coordinate along the
/// chosen axis.  The atom multiset and all other fields are unchanged.
pub fn rearrange_atoms(block: &mut StructureBlock, axis: CoordinateChoice)
    ensures
        sorted_along(final(block).atoms@, axis),
        final(block).atoms@.to_multiset() == old(block).atoms@.to_multiset(),
        final(block).atoms@.len() == old(block).atoms@.len(),
        final(block).number == old(block).number,
        final(block).energy == old(block).energy,
        final(block).symmetry == old(block).symmetry,
        final(block).crystal == old(block).crystal,
{
    let atoms = clone_atoms(&block.atoms);
    let sorted = sort_atoms_along(atoms, axis);
    block.atoms = sorted;
}

} // verus!
