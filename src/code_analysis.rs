//! Control-flow graph of a method body: basic blocks and the edges between them.
use vstd::prelude::*;
use vstd::seq_lib::*;

use crate::dex_types::DexType;
use crate::instructions::Instruction;
use crate::labels::{dec, push_dec};

verus! {

/// The models of a list of strings.
pub open spec fn strs(v: Seq<String>) -> Seq<Seq<char>> {
    v.map_values(|s: String| s@)
}

/// A try region, as a pair of its end label and the labels of its handlers.
pub type RegionV = (Seq<char>, Seq<Seq<char>>);

/// The labels of the handlers of a try region: the typed handlers, then the catch-all one.
pub open spec fn handler_labels(hs: Seq<(DexType, String)>, d: Option<String>) -> Seq<Seq<char>> {
    hs.map_values(|h: (DexType, String)| h.1@) + match d {
        Some(x) => seq![x@],
        None => Seq::<Seq<char>>::empty(),
    }
}

/// The try regions open just before the instruction at `i`, innermost last. A region opens at
/// its `Try` marker and closes at the label that ends it.
pub open spec fn try_stack(insns: Seq<Instruction>, i: int) -> Seq<RegionV>
    decreases i,
{
    if i <= 0 || i > insns.len() {
        Seq::empty()
    } else {
        let s = try_stack(insns, i - 1);
        match insns[i - 1] {
            Instruction::Try { end_label, handlers, default_handler } => s.push(
                (end_label@, handler_labels(handlers@, default_handler)),
            ),
            Instruction::Label { name } => if s.len() > 0 && s.last().0 == name@ {
                s.drop_last()
            } else {
                s
            },
            _ => s,
        }
    }
}

/// The handler labels of every try region enclosing the instruction at `i`.
pub open spec fn handlers_at(insns: Seq<Instruction>, i: int) -> Seq<Seq<char>> {
    try_stack(insns, i).map_values(|r: RegionV| r.1).flatten()
}

/// Whether the instruction at `i` lies in a try region.
pub open spec fn in_try(insns: Seq<Instruction>, i: int) -> bool {
    try_stack(insns, i).len() > 0
}

/// The labels that a branching instruction may jump to.
pub open spec fn jump_targets(ins: Instruction) -> Seq<Seq<char>> {
    match ins {
        Instruction::Goto { label } => seq![label@],
        Instruction::If { label, .. } => seq![label@],
        Instruction::Switch { branches, .. } => branches@.map_values(|b: (i32, String)| b.1@),
        _ => Seq::empty(),
    }
}

/// Whether the instruction at `i` ends its basic block: a jump, a conditional branch, a
/// switch, a return or throw, or an instruction that may throw inside a try region.
pub open spec fn splits(insns: Seq<Instruction>, i: int) -> bool {
    let ins = insns[i];
    ins.ends_flow() || ins is If || ins is Switch || (ins.may_throw() && in_try(insns, i))
}

/// The labels the instruction at `i` may transfer control to, besides the next instruction.
pub open spec fn targets_at(insns: Seq<Instruction>, i: int) -> Seq<Seq<char>> {
    jump_targets(insns[i]) + if insns[i].may_throw() && in_try(insns, i) {
        handlers_at(insns, i)
    } else {
        Seq::empty()
    }
}

/// Some `Label` of `insns` is named `l`.
pub open spec fn label_defined(insns: Seq<Instruction>, l: Seq<char>) -> bool {
    exists|j: int| 0 <= j < insns.len() && #[trigger] insns[j] is Label && insns[j]->Label_name@ == l
}

/// The labels an instruction names: those it may transfer control to and, for the start of
/// a try region, the labels of the region's handlers.
pub open spec fn refs_at(insns: Seq<Instruction>, i: int) -> Seq<Seq<char>> {
    targets_at(insns, i) + match insns[i] {
        Instruction::Try { handlers, default_handler, .. } => handler_labels(handlers@, default_handler),
        _ => Seq::empty(),
    }
}

/// Every label that the start of a try region names as a handler is defined by a `Label`.
pub open spec fn handlers_resolved(insns: Seq<Instruction>) -> bool {
    forall|i: int, t: int|
        0 <= i < insns.len() && insns[i] is Try && 0 <= t < handler_labels(
            insns[i]->Try_handlers@,
            insns[i]->Try_default_handler,
        ).len() ==> label_defined(
            insns,
            #[trigger] handler_labels(insns[i]->Try_handlers@, insns[i]->Try_default_handler)[t],
        )
}

/// Every label that an instruction names is defined by a `Label`.
pub open spec fn labels_resolved(insns: Seq<Instruction>) -> bool {
    jumps_resolved(insns) && handlers_resolved(insns)
}

/// Every label that an instruction may transfer control to is defined by a `Label`.
pub open spec fn jumps_resolved(insns: Seq<Instruction>) -> bool {
    forall|i: int, t: int|
        0 <= i < insns.len() && 0 <= t < targets_at(insns, i).len() ==> label_defined(
            insns,
            #[trigger] targets_at(insns, i)[t],
        )
}

/// A basic block: the instructions `start..end` of the method, and its label if it has one.
#[derive(Debug)]
pub struct Block {
    pub start: usize,
    pub end: usize,
    pub label: Option<String>,
}

/// The model of an optional label.
pub open spec fn opt_label(l: Option<String>) -> Option<Seq<char>> {
    match l {
        Some(s) => Some(s@),
        None => None,
    }
}

/// The labels that the block `b` may jump to: those of its last instruction when that ends it.
pub open spec fn block_targets(insns: Seq<Instruction>, b: Block) -> Seq<Seq<char>> {
    if b.start < b.end && splits(insns, b.end - 1) {
        targets_at(insns, b.end - 1)
    } else {
        Seq::empty()
    }
}

/// Whether the block `b` goes on with the next block when its last instruction completes.
pub open spec fn block_falls_through(insns: Seq<Instruction>, b: Block) -> bool {
    if b.start < b.end && splits(insns, b.end - 1) {
        !insns[b.end - 1].ends_flow() && b.end < insns.len()
    } else {
        b.end < insns.len()
    }
}

/// The graph of a method: block `0` is the empty entry block; the others cover the
/// instructions in order. `next_nodes[k]` and `prev_nodes[k]` are the successors and
/// predecessors of block `k`. A block without successors flows to the exit.
pub struct CFG {
    pub blocks: Vec<Block>,
    pub next_nodes: Vec<Vec<usize>>,
    pub prev_nodes: Vec<Vec<usize>>,
}

/// Error of the graph construction.
#[derive(Debug)]
pub enum CfgError {
    /// The block `block` jumps to `label`, which no instruction defines.
    MissingLabel { label: String, block: usize },
}

/// The blocks cover the instructions: block `0` is empty at the start, each further block is
/// non-empty and starts where the previous one ends, and the last one ends at the end.
pub open spec fn partitions(blocks: Seq<Block>, n: int) -> bool {
    &&& blocks.len() >= 1
    &&& blocks[0].start == 0 && blocks[0].end == 0 && blocks[0].label is None
    &&& forall|k: int|
        1 <= k < blocks.len() ==> #[trigger] blocks[k].start == blocks[k - 1].end && blocks[k].start
            < blocks[k].end
    &&& blocks.last().end == n
}

/// Every instruction before `upto` that ends a block (see [`splits`]) is the last one of a
/// block.
pub open spec fn splits_end_blocks(insns: Seq<Instruction>, blocks: Seq<Block>, upto: int) -> bool {
    forall|i: int|
        0 <= i < upto && #[trigger] splits(insns, i) ==> exists|k: int|
            1 <= k < blocks.len() && #[trigger] blocks[k].end == i + 1
}

/// A `Label` comes first in its block: only pseudo-instructions other than labels precede it
/// there, so a `Label` that follows real instructions starts a new block.
pub open spec fn labels_lead(insns: Seq<Instruction>, blocks: Seq<Block>) -> bool {
    forall|k: int, j: int, j2: int|
        1 <= k < blocks.len() && #[trigger] blocks[k].start <= j2 < j < blocks[k].end
            && #[trigger] insns[j] is Label ==> (#[trigger] insns[j2]).spec_is_pseudo() && !(
        insns[j2] is Label)
}

/// Each `Label` gives its name to the block that holds it, and a block's label is the name of
/// a `Label` it holds.
pub open spec fn labels_placed(insns: Seq<Instruction>, blocks: Seq<Block>) -> bool {
    &&& forall|k: int, j: int|
        1 <= k < blocks.len() && blocks[k].start <= j < blocks[k].end && #[trigger] insns[j] is Label
            ==> opt_label(#[trigger] blocks[k].label) == Some(insns[j]->Label_name@)
    &&& forall|k: int|
        1 <= k < blocks.len() && #[trigger] blocks[k].label is Some ==> exists|j: int|
            blocks[k].start <= j < blocks[k].end && #[trigger] insns[j] is Label && Some(
                insns[j]->Label_name@,
            ) == opt_label(blocks[k].label)
}

/// The first block among `blocks[0..m]` labelled `l`, or `-1`.
pub open spec fn label_index(blocks: Seq<Block>, l: Seq<char>, m: int) -> int
    decreases m,
{
    if m <= 0 {
        -1
    } else if label_index(blocks, l, m - 1) >= 0 {
        label_index(blocks, l, m - 1)
    } else if opt_label(blocks[m - 1].label) == Some(l) {
        m - 1
    } else {
        -1
    }
}

/// The block a jump to `l` goes to.
pub open spec fn block_of_label(blocks: Seq<Block>, l: Seq<char>) -> usize {
    label_index(blocks, l, blocks.len() as int) as usize
}

/// The successors of block `k`: the next block when it falls through, then the block of each
/// label its last instruction may transfer control to, in order. The entry block goes to
/// block `1` when the method has instructions.
pub open spec fn successors(insns: Seq<Instruction>, blocks: Seq<Block>, k: int) -> Seq<usize> {
    if k == 0 {
        if insns.len() > 0 {
            seq![1usize]
        } else {
            seq![]
        }
    } else {
        (if block_falls_through(insns, blocks[k]) {
            seq![(k + 1) as usize]
        } else {
            seq![]
        }) + block_targets(insns, blocks[k]).map_values(|t: Seq<char>| block_of_label(blocks, t))
    }
}

/// Every target of every block is the label of some block, and the successor lists are
/// exactly [`successors`].
pub open spec fn edges_exact(
    insns: Seq<Instruction>,
    blocks: Seq<Block>,
    next: Seq<Vec<usize>>,
) -> bool {
    &&& next.len() == blocks.len()
    &&& forall|k: int| 0 <= k < next.len() ==> #[trigger] next[k]@ == successors(insns, blocks, k)
    &&& forall|k: int, t: int|
        1 <= k < blocks.len() && 0 <= t < block_targets(insns, blocks[k]).len() ==> 0
            <= label_index(blocks, #[trigger] block_targets(insns, blocks[k])[t], blocks.len() as int)
            < blocks.len()
}

proof fn lemma_label_index(blocks: Seq<Block>, l: Seq<char>, m: int)
    requires
        0 <= m <= blocks.len(),
    ensures
        label_index(blocks, l, m) == -1 <==> forall|j: int|
            0 <= j < m ==> opt_label(#[trigger] blocks[j].label) != Some(l),
        label_index(blocks, l, m) >= 0 ==> label_index(blocks, l, m) < m && opt_label(
            blocks[label_index(blocks, l, m)].label,
        ) == Some(l),
        label_index(blocks, l, m) >= -1,
    decreases m,
{
    if m > 0 {
        lemma_label_index(blocks, l, m - 1);
        if label_index(blocks, l, m) == -1 {
            assert forall|j: int| 0 <= j < m implies opt_label(#[trigger] blocks[j].label) != Some(
                l,
            ) by {
                if j < m - 1 {
                }
            }
        }
    }
}

/// How many times `x` occurs in `s`.
pub open spec fn count_of(s: Seq<usize>, x: usize) -> nat
    decreases s.len(),
{
    if s.len() == 0 {
        0
    } else {
        count_of(s.drop_last(), x) + if s.last() == x {
            1nat
        } else {
            0nat
        }
    }
}

/// The predecessors are the successors reversed: block `k` occurs in the predecessors of
/// block `j` as many times as `j` occurs in the successors of `k`.
pub open spec fn transposed(next: Seq<Vec<usize>>, prev: Seq<Vec<usize>>) -> bool {
    &&& prev.len() == next.len()
    &&& forall|j: int, e: int|
        0 <= j < prev.len() && 0 <= e < prev[j]@.len() ==> (#[trigger] prev[j]@[e] as int) < prev.len()
    &&& forall|j: usize, k: usize|
        j < prev.len() && k < next.len() ==> #[trigger] count_of(prev[j as int]@, k) == #[trigger] count_of(
            next[k as int]@,
            j,
        )
}

/// The models of a stack of try regions.
pub open spec fn stack_view(v: Seq<(String, Vec<String>)>) -> Seq<RegionV> {
    v.map_values(|r: (String, Vec<String>)| (r.0@, strs(r.1@)))
}

fn jump_targets_of(ins: &Instruction) -> (r: Vec<String>)
    ensures
        strs(r@) == jump_targets(*ins),
{
    match ins {
        Instruction::Goto { label } => {
            let r = vec![label.clone()];
            assert(strs(r@) =~= jump_targets(*ins));
            r
        },
        Instruction::If { label, .. } => {
            let r = vec![label.clone()];
            assert(strs(r@) =~= jump_targets(*ins));
            r
        },
        Instruction::Switch { branches, .. } => {
            let mut r: Vec<String> = Vec::new();
            let mut i: usize = 0;
            while i < branches.len()
                invariant
                    i <= branches@.len(),
                    r@.len() == i,
                    forall|k: int| 0 <= k < i ==> #[trigger] r@[k]@ == branches@[k].1@,
                decreases branches@.len() - i,
            {
                r.push(branches[i].1.clone());
                i += 1;
            }
            assert(strs(r@) =~= jump_targets(*ins));
            r
        },
        _ => {
            let r: Vec<String> = Vec::new();
            assert(strs(r@) =~= jump_targets(*ins));
            r
        },
    }
}

fn region_labels(handlers: &Vec<(DexType, String)>, d: &Option<String>) -> (r: Vec<String>)
    ensures
        strs(r@) == handler_labels(handlers@, *d),
{
    let mut r: Vec<String> = Vec::new();
    let mut i: usize = 0;
    while i < handlers.len()
        invariant
            i <= handlers@.len(),
            r@.len() == i,
            forall|k: int| 0 <= k < i ==> #[trigger] r@[k]@ == handlers@[k].1@,
        decreases handlers@.len() - i,
    {
        r.push(handlers[i].1.clone());
        i += 1;
    }
    assert(strs(r@) =~= handlers@.map_values(|h: (DexType, String)| h.1@));
    match d {
        Some(x) => r.push(x.clone()),
        None => {},
    }
    assert(strs(r@) =~= handler_labels(handlers@, *d));
    r
}

fn all_handlers(stack: &Vec<(String, Vec<String>)>) -> (r: Vec<String>)
    ensures
        strs(r@) == stack_view(stack@).map_values(|g: RegionV| g.1).flatten(),
{
    let mut r: Vec<String> = Vec::new();
    let mut i: usize = 0;
    while i < stack.len()
        invariant
            i <= stack@.len(),
            strs(r@) == stack_view(stack@.take(i as int)).map_values(|g: RegionV| g.1).flatten(),
        decreases stack@.len() - i,
    {
        let hs = &stack[i].1;
        let ghost before = r@;
        let mut j: usize = 0;
        while j < hs.len()
            invariant
                i < stack@.len(),
                j <= hs@.len(),
                *hs == stack@[i as int].1,
                r@.len() == before.len() + j,
                forall|k: int| 0 <= k < before.len() ==> #[trigger] r@[k] == before[k],
                forall|k: int| 0 <= k < j ==> #[trigger] r@[before.len() + k]@ == hs@[k]@,
            decreases hs@.len() - j,
        {
            r.push(hs[j].clone());
            j += 1;
        }
        assert forall|k: int| before.len() <= k < r@.len() implies #[trigger] r@[k]@ == hs@[k
            - before.len()]@ by {
            assert(r@[before.len() + (k - before.len())]@ == hs@[k - before.len()]@);
        }
        assert(strs(r@) =~= strs(before) + strs(hs@));
        proof {
            let prev = stack_view(stack@.take(i as int)).map_values(|g: RegionV| g.1);
            let next = stack_view(stack@.take(i as int + 1)).map_values(|g: RegionV| g.1);
            assert(next =~= prev.push(strs(hs@)));
            prev.lemma_flatten_push(strs(hs@));
        }
        i += 1;
    }
    assert(stack@.take(i as int) =~= stack@);
    r
}

fn find_label(blocks: &Vec<Block>, l: &String) -> (r: Option<usize>)
    ensures
        r matches Some(j) ==> j as int == label_index(blocks@, l@, blocks@.len() as int),
        r is None ==> label_index(blocks@, l@, blocks@.len() as int) == -1,
{
    let mut j: usize = 0;
    while j < blocks.len()
        invariant
            j <= blocks@.len(),
            label_index(blocks@, l@, j as int) == -1,
        decreases blocks@.len() - j,
    {
        match &blocks[j].label {
            Some(name) => {
                if name.eq(l) {
                    proof {
                        lemma_label_stable(blocks@, l@, j as int + 1, blocks@.len() as int);
                    }
                    return Some(j);
                }
            },
            None => {},
        }
        j += 1;
    }
    None
}

/// Once found, the first labelled block stays the first.
proof fn lemma_label_stable(blocks: Seq<Block>, l: Seq<char>, m: int, m2: int)
    requires
        0 <= m <= m2,
        label_index(blocks, l, m) >= 0,
    ensures
        label_index(blocks, l, m2) == label_index(blocks, l, m),
    decreases m2 - m,
{
    if m2 > m {
        lemma_label_stable(blocks, l, m, m2 - 1);
    }
}

fn contains_index(v: &Vec<usize>, x: usize) -> (r: bool)
    ensures
        r == v@.contains(x),
{
    let mut i: usize = 0;
    while i < v.len()
        invariant
            i <= v@.len(),
            forall|y: int| 0 <= y < i ==> v@[y] != x,
        decreases v@.len() - i,
    {
        if v[i] == x {
            return true;
        }
        i += 1;
    }
    false
}

proof fn lemma_end_bound(blocks: Seq<Block>, n: int, k: int)
    requires
        partitions(blocks, n),
        0 <= k < blocks.len(),
    ensures
        blocks[k].end <= n,
        k + 1 < blocks.len() <==> blocks[k].end < n,
    decreases blocks.len() - k,
{
    if k + 1 < blocks.len() {
        lemma_end_bound(blocks, n, k + 1);
        assert(blocks[k + 1].start == blocks[k].end);
    }
}

/// Blocks come in order: a block ends no later than any later block starts.
pub proof fn lemma_blocks_ordered(blocks: Seq<Block>, n: int, k1: int, k2: int)
    requires
        partitions(blocks, n),
        1 <= k1 < k2 < blocks.len(),
    ensures
        blocks[k1].end <= blocks[k2].start,
    decreases k2 - k1,
{
    assert(blocks[k2].start == blocks[k2 - 1].end);
    if k1 < k2 - 1 {
        lemma_blocks_ordered(blocks, n, k1, k2 - 1);
    }
}

/// Every instruction of a method lies in exactly one block of its graph: some block other
/// than the entry holds it, and any two blocks that hold it are the same.
pub proof fn lemma_instruction_in_one_block(blocks: Seq<Block>, n: int, j: int, k1: int, k2: int)
    requires
        partitions(blocks, n),
        0 <= j < n,
    ensures
        exists|k: int| 1 <= k < blocks.len() && #[trigger] blocks[k].start <= j < blocks[k].end,
        1 <= k1 < blocks.len() && blocks[k1].start <= j < blocks[k1].end && 1 <= k2 < blocks.len()
            && blocks[k2].start <= j < blocks[k2].end ==> k1 == k2,
{
    let k = lemma_block_of(blocks, n, j, blocks.len() - 1);
    assert(blocks[k].start <= j < blocks[k].end);
    if 1 <= k1 < blocks.len() && blocks[k1].start <= j < blocks[k1].end && 1 <= k2 < blocks.len()
        && blocks[k2].start <= j < blocks[k2].end {
        if k1 < k2 {
            lemma_blocks_ordered(blocks, n, k1, k2);
        } else if k2 < k1 {
            lemma_blocks_ordered(blocks, n, k2, k1);
        }
    }
}

/// The block that holds the instruction at `j`.
proof fn lemma_block_of(blocks: Seq<Block>, n: int, j: int, m: int) -> (k: int)
    requires
        partitions(blocks, n),
        0 <= j,
        1 <= m < blocks.len(),
        j < blocks[m].end,
        n == blocks.last().end,
    ensures
        1 <= k <= m,
        blocks[k].start <= j < blocks[k].end,
    decreases m,
{
    if blocks[m].start <= j {
        m
    } else {
        assert(blocks[m].start == blocks[m - 1].end);
        if m == 1 {
            assert(blocks[0].end == 0);
            m
        } else {
            lemma_block_of(blocks, n, j, m - 1)
        }
    }
}

/// Whether the instruction at `i` ends its block, given whether it lies in a try region.
fn splits_here(ins: &Instruction, in_try_region: bool) -> (r: bool)
    ensures
        r == (ins.ends_flow() || ins is If || ins is Switch || (ins.may_throw()
            && in_try_region)),
{
    match ins {
        Instruction::Goto { .. } | Instruction::ReturnVoid | Instruction::Return { .. }
        | Instruction::ReturnWide { .. } | Instruction::ReturnObject { .. }
        | Instruction::Throw { .. } | Instruction::If { .. } | Instruction::Switch { .. } => true,
        Instruction::Invoke { .. } => in_try_region,
        Instruction::Other { may_throw, .. } => *may_throw && in_try_region,
        _ => false,
    }
}

fn ends_flow_here(ins: &Instruction) -> (r: bool)
    ensures
        r == ins.ends_flow(),
{
    match ins {
        Instruction::Goto { .. } | Instruction::ReturnVoid | Instruction::Return { .. }
        | Instruction::ReturnWide { .. } | Instruction::ReturnObject { .. }
        | Instruction::Throw { .. } => true,
        _ => false,
    }
}

fn may_throw_here(ins: &Instruction) -> (r: bool)
    ensures
        r == ins.may_throw(),
{
    match ins {
        Instruction::Throw { .. } | Instruction::Invoke { .. } => true,
        Instruction::Other { may_throw, .. } => *may_throw,
        _ => false,
    }
}

fn clone_label(l: &Option<String>) -> (r: Option<String>)
    ensures
        r == *l,
{
    match l {
        Some(s) => Some(s.clone()),
        None => None,
    }
}

/// First pass: the blocks, the labels each one may jump to, and whether it falls through.
/// Adding a block that ends at every splitting instruction in it and whose labels lead keeps
/// both properties.
proof fn lemma_push_block(insns: Seq<Instruction>, old_blocks: Seq<Block>, b: Block)
    requires
        old_blocks.len() >= 1,
        splits_end_blocks(insns, old_blocks, b.start as int),
        labels_lead(insns, old_blocks),
        b.start <= b.end,
        forall|j: int| b.start <= j < b.end - 1 ==> !#[trigger] splits(insns, j),
        forall|j: int, j2: int|
            b.start <= j2 < j < b.end && #[trigger] insns[j] is Label ==> (#[trigger] insns[j2]).spec_is_pseudo()
                && !(insns[j2] is Label),
    ensures
        splits_end_blocks(insns, old_blocks.push(b), b.end as int),
        labels_lead(insns, old_blocks.push(b)),
{
    let blocks = old_blocks.push(b);
    let k = old_blocks.len() as int;
    assert forall|i2: int| 0 <= i2 < b.end && #[trigger] splits(insns, i2) implies exists|k2: int|
        1 <= k2 < blocks.len() && #[trigger] blocks[k2].end == i2 + 1 by {
        if i2 < b.start {
            let k2 = choose|k2: int| 1 <= k2 < old_blocks.len() && #[trigger] old_blocks[k2].end == i2 + 1;
            assert(blocks[k2] == old_blocks[k2]);
        } else {
            assert(i2 == b.end - 1);
            assert(blocks[k].end == i2 + 1);
        }
    }
    assert forall|k2: int, j: int, j2: int|
        1 <= k2 < blocks.len() && #[trigger] blocks[k2].start <= j2 < j < blocks[k2].end
            && #[trigger] insns[j] is Label implies (#[trigger] insns[j2]).spec_is_pseudo() && !(
    insns[j2] is Label) by {
        if k2 < k {
            assert(blocks[k2] == old_blocks[k2]);
        }
    }
}

fn split_blocks(insns: &Vec<Instruction>) -> (r: (Vec<Block>, Vec<Vec<String>>, Vec<bool>))
    ensures
        partitions(r.0@, insns@.len() as int),
        labels_placed(insns@, r.0@),
        r.1@.len() == r.0@.len(),
        r.2@.len() == r.0@.len(),
        r.1@[0]@.len() == 0,
        r.2@[0] == (insns@.len() > 0),
        forall|k: int|
            1 <= k < r.0@.len() ==> strs(#[trigger] r.1@[k]@) == block_targets(insns@, r.0@[k]),
        forall|k: int|
            1 <= k < r.0@.len() ==> #[trigger] r.2@[k] == block_falls_through(insns@, r.0@[k]),
        splits_end_blocks(insns@, r.0@, insns@.len() as int),
        labels_lead(insns@, r.0@),
{
    let n = insns.len();
    let mut blocks: Vec<Block> = vec![Block { start: 0, end: 0, label: None }];
    let mut pending: Vec<Vec<String>> = vec![Vec::new()];
    let mut falls: Vec<bool> = vec![n > 0];
    let mut start: usize = 0;
    let mut last_label: Option<String> = None;
    let mut block_started: bool = false;
    let mut tries: Vec<(String, Vec<String>)> = Vec::new();
    let mut i: usize = 0;
    while i < n
        invariant
            n == insns@.len(),
            i <= n,
            start <= i,
            blocks@.len() >= 1,
            blocks@[0].start == 0 && blocks@[0].end == 0 && blocks@[0].label is None,
            forall|k: int|
                1 <= k < blocks@.len() ==> #[trigger] blocks@[k].start == blocks@[k - 1].end
                    && blocks@[k].start < blocks@[k].end,
            blocks@.last().end == start,
            pending@.len() == blocks@.len(),
            falls@.len() == blocks@.len(),
            pending@[0]@.len() == 0,
            falls@[0] == (n > 0),
            forall|k: int|
                1 <= k < blocks@.len() ==> strs(#[trigger] pending@[k]@) == block_targets(
                    insns@,
                    blocks@[k],
                ),
            forall|k: int|
                1 <= k < blocks@.len() ==> #[trigger] falls@[k] == block_falls_through(
                    insns@,
                    blocks@[k],
                ),
            start < i ==> !splits(insns@, i - 1),
            block_started ==> start < i,
            splits_end_blocks(insns@, blocks@, start as int),
            forall|j: int| start <= j < i ==> !#[trigger] splits(insns@, j),
            labels_lead(insns@, blocks@),
            forall|j: int, j2: int|
                start <= j2 < j < i && #[trigger] insns@[j] is Label ==> (#[trigger] insns@[j2]).spec_is_pseudo()
                    && !(insns@[j2] is Label),
            !block_started ==> forall|j: int| start <= j < i ==> (#[trigger] insns@[j]).spec_is_pseudo(),
            stack_view(tries@) == try_stack(insns@, i as int),
            labels_placed(insns@, blocks@),
            forall|j: int|
                start <= j < i && #[trigger] insns@[j] is Label ==> opt_label(last_label)
                    == Some(insns@[j]->Label_name@),
            last_label is Some ==> exists|j: int|
                start <= j < i && #[trigger] insns@[j] is Label && Some(insns@[j]->Label_name@)
                    == opt_label(last_label),
        decreases n - i,
    {
        let ins = &insns[i];
        let in_try_region = tries.len() > 0;
        if splits_here(ins, in_try_region) {
            let mut targets = jump_targets_of(ins);
            if may_throw_here(ins) && in_try_region {
                let mut hs = all_handlers(&tries);
                targets.append(&mut hs);
            }
            let fall = !ends_flow_here(ins) && i + 1 < n;
            let ghost old_blocks = blocks@;
            proof {
                lemma_push_block(insns@, old_blocks, Block { start, end: (i + 1) as usize, label: last_label });
            }
            blocks.push(Block { start, end: i + 1, label: last_label });
            pending.push(targets);
            falls.push(fall);
            proof {
                let k = blocks@.len() - 1;
                assert(blocks@[k].start < blocks@[k].end);
                assert(splits(insns@, i as int));
                assert(strs(pending@[k]@) =~= block_targets(insns@, blocks@[k]));
                assert forall|k2: int, j: int|
                    1 <= k2 < blocks@.len() && blocks@[k2].start <= j < blocks@[k2].end
                        && #[trigger] insns@[j] is Label implies opt_label(
                    #[trigger] blocks@[k2].label,
                ) == Some(insns@[j]->Label_name@) by {
                    if k2 < k {
                        assert(blocks@[k2] == old_blocks[k2]);
                    }
                }
                assert forall|k2: int|
                    1 <= k2 < blocks@.len() && #[trigger] blocks@[k2].label is Some implies exists|
                    j: int,
                |
                    blocks@[k2].start <= j < blocks@[k2].end && #[trigger] insns@[j] is Label
                        && Some(insns@[j]->Label_name@) == opt_label(blocks@[k2].label) by {
                    if k2 < k {
                        assert(blocks@[k2] == old_blocks[k2]);
                    }
                }
            }
            start = i + 1;
            last_label = None;
            block_started = false;
        } else {
            match ins {
                Instruction::Try { end_label, handlers, default_handler } => {
                    let hs = region_labels(handlers, default_handler);
                    tries.push((end_label.clone(), hs));
                    proof {
                        assert(stack_view(tries@) =~= try_stack(insns@, i as int + 1));
                    }
                },
                Instruction::Label { name } => {
                    let ghost old_tries = tries@;
                    if tries.len() > 0 && tries[tries.len() - 1].0.eq(name) {
                        tries.pop();
                    }
                    proof {
                        assert(stack_view(tries@) =~= try_stack(insns@, i as int + 1));
                    }
                    if block_started || last_label.is_some() {
                        let ghost old_blocks = blocks@;
                        proof {
                            lemma_push_block(insns@, old_blocks, Block { start, end: i, label: last_label });
                        }
                        blocks.push(Block { start, end: i, label: last_label });
                        pending.push(Vec::new());
                        falls.push(true);
                        proof {
                            let k = blocks@.len() - 1;
                            assert(!splits(insns@, i - 1));
                            assert(strs(pending@[k]@) =~= block_targets(insns@, blocks@[k]));
                            assert forall|k2: int, j: int|
                                1 <= k2 < blocks@.len() && blocks@[k2].start <= j
                                    < blocks@[k2].end && #[trigger] insns@[j] is Label implies opt_label(
                                #[trigger] blocks@[k2].label,
                            ) == Some(insns@[j]->Label_name@) by {
                                if k2 < k {
                                    assert(blocks@[k2] == old_blocks[k2]);
                                }
                            }
                            assert forall|k2: int|
                                1 <= k2 < blocks@.len() && #[trigger] blocks@[k2].label
                                    is Some implies exists|j: int|
                                blocks@[k2].start <= j < blocks@[k2].end
                                    && #[trigger] insns@[j] is Label && Some(
                                    insns@[j]->Label_name@,
                                ) == opt_label(blocks@[k2].label) by {
                                if k2 < k {
                                    assert(blocks@[k2] == old_blocks[k2]);
                                }
                            }
                        }
                        start = i;
                    }
                    last_label = Some(name.clone());
                    block_started = false;
                },
                _ => {
                    if !ins.is_pseudo() {
                        block_started = true;
                    }
                    proof {
                        assert(stack_view(tries@) =~= try_stack(insns@, i as int + 1));
                    }
                },
            }
        }
        i += 1;
    }
    if start < n {
        let ghost old_blocks = blocks@;
        proof {
            lemma_push_block(insns@, old_blocks, Block { start, end: n, label: last_label });
        }
        blocks.push(Block { start, end: n, label: last_label });
        pending.push(Vec::new());
        falls.push(false);
        proof {
            let k = blocks@.len() - 1;
            assert(strs(pending@[k]@) =~= block_targets(insns@, blocks@[k]));
            assert forall|k2: int, j: int|
                1 <= k2 < blocks@.len() && blocks@[k2].start <= j < blocks@[k2].end
                    && #[trigger] insns@[j] is Label implies opt_label(
                #[trigger] blocks@[k2].label,
            ) == Some(insns@[j]->Label_name@) by {
                if k2 < k {
                    assert(blocks@[k2] == old_blocks[k2]);
                }
            }
            assert forall|k2: int|
                1 <= k2 < blocks@.len() && #[trigger] blocks@[k2].label is Some implies exists|
                j: int,
            |
                blocks@[k2].start <= j < blocks@[k2].end && #[trigger] insns@[j] is Label
                    && Some(insns@[j]->Label_name@) == opt_label(blocks@[k2].label) by {
                if k2 < k {
                    assert(blocks@[k2] == old_blocks[k2]);
                }
            }
        }
    }
    assert(partitions(blocks@, n as int));
    (blocks, pending, falls)
}

/// The successors of one block: the next block when `fall`, then the block of each label of
/// `targets`, in order.
fn block_successors(blocks: &Vec<Block>, k: usize, targets: &Vec<String>, fall: bool) -> (r: Result<
    Vec<usize>,
    CfgError,
>)
    requires
        fall ==> k + 1 < blocks@.len(),
    ensures
        r matches Ok(next) ==> {
            &&& next@ == (if fall {
                seq![(k + 1) as usize]
            } else {
                seq![]
            }) + strs(targets@).map_values(|t: Seq<char>| block_of_label(blocks@, t))
            &&& forall|t: int|
                0 <= t < targets@.len() ==> 0 <= label_index(
                    blocks@,
                    #[trigger] targets@[t]@,
                    blocks@.len() as int,
                ) < blocks@.len()
        },
        r matches Err(CfgError::MissingLabel { label, block }) ==> {
            &&& block == k
            &&& exists|t: int| 0 <= t < targets@.len() && #[trigger] targets@[t]@ == label@
            &&& label_index(blocks@, label@, blocks@.len() as int) == -1
        },
{
    let mut next: Vec<usize> = Vec::new();
    let len = blocks.len();
    if fall {
        next.push(k + 1);
    }
    let ghost base = next@;
    let mut t: usize = 0;
    while t < targets.len()
        invariant
            base == (if fall {
                seq![(k + 1) as usize]
            } else {
                seq![]
            }),
            t <= targets@.len(),
            next@ == base + strs(targets@.take(t as int)).map_values(
                |x: Seq<char>| block_of_label(blocks@, x),
            ),
            forall|x: int|
                0 <= x < t ==> 0 <= label_index(blocks@, #[trigger] targets@[x]@, blocks@.len() as int)
                    < blocks@.len(),
        decreases targets@.len() - t,
    {
        proof {
            lemma_label_index(blocks@, targets@[t as int]@, blocks@.len() as int);
        }
        match find_label(blocks, &targets[t]) {
            Some(j) => next.push(j),
            None => {
                return Err(CfgError::MissingLabel { label: targets[t].clone(), block: k });
            },
        }
        assert(strs(targets@.take(t as int + 1)).map_values(
            |x: Seq<char>| block_of_label(blocks@, x),
        ) =~= strs(targets@.take(t as int)).map_values(|x: Seq<char>| block_of_label(blocks@, x)).push(
            block_of_label(blocks@, targets@[t as int]@),
        ));
        t += 1;
    }
    assert(targets@.take(t as int) =~= targets@);
    Ok(next)
}

/// Second pass: the successors of each block, with every target label resolved.
fn resolve_edges(
    insns: &Vec<Instruction>,
    blocks: &Vec<Block>,
    pending: &Vec<Vec<String>>,
    falls: &Vec<bool>,
    n: usize,
) -> (r: Result<Vec<Vec<usize>>, CfgError>)
    requires
            n == insns@.len(),
            partitions(blocks@, n as int),
            labels_placed(insns@, blocks@),
            pending@.len() == blocks@.len(),
            falls@.len() == blocks@.len(),
            pending@[0]@.len() == 0,
            falls@[0] == (n > 0),
            forall|k: int|
                1 <= k < blocks@.len() ==> strs(#[trigger] pending@[k]@) == block_targets(
                    insns@,
                    blocks@[k],
                ),
            forall|k: int|
                1 <= k < blocks@.len() ==> #[trigger] falls@[k] == block_falls_through(
                    insns@,
                    blocks@[k],
                ),
    ensures
        r matches Ok(next) ==> edges_exact(insns@, blocks@, next@),
        jumps_resolved(insns@) ==> r is Ok,
        r matches Err(CfgError::MissingLabel { label, block }) ==> {
            &&& 1 <= block < blocks@.len()
            &&& exists|i: int, t: int|
                blocks@[block as int].start <= i < blocks@[block as int].end && 0 <= t
                    < targets_at(insns@, i).len() && #[trigger] targets_at(insns@, i)[t] == label@
            &&& exists|i: int, t: int|
                0 <= i < insns@.len() && 0 <= t < targets_at(insns@, i).len()
                    && #[trigger] targets_at(insns@, i)[t] == label@
            &&& forall|j: int|
                0 <= j < insns@.len() && #[trigger] insns@[j] is Label
                    ==> insns@[j]->Label_name@ != label@
        },
{
    let mut next_nodes: Vec<Vec<usize>> = Vec::new();
    let mut k: usize = 0;
    while k < blocks.len()
        invariant
            k <= blocks@.len(),
            n == insns@.len(),
            partitions(blocks@, n as int),
            labels_placed(insns@, blocks@),
            pending@.len() == blocks@.len(),
            falls@.len() == blocks@.len(),
            pending@[0]@.len() == 0,
            falls@[0] == (n > 0),
            forall|k2: int|
                1 <= k2 < blocks@.len() ==> strs(#[trigger] pending@[k2]@) == block_targets(
                    insns@,
                    blocks@[k2],
                ),
            forall|k2: int|
                1 <= k2 < blocks@.len() ==> #[trigger] falls@[k2] == block_falls_through(
                    insns@,
                    blocks@[k2],
                ),
            next_nodes@.len() == k,
            forall|k2: int| 0 <= k2 < k ==> #[trigger] next_nodes@[k2]@ == successors(insns@, blocks@, k2),
            forall|k2: int, t: int|
                1 <= k2 < k && 0 <= t < block_targets(insns@, blocks@[k2]).len() ==> 0
                    <= label_index(blocks@, #[trigger] block_targets(insns@, blocks@[k2])[t], blocks@.len() as int)
                    < blocks@.len(),
        decreases blocks@.len() - k,
    {
        proof {
            lemma_end_bound(blocks@, n as int, k as int);
        }
        let next = match block_successors(blocks, k, &pending[k], falls[k]) {
            Ok(next) => next,
            Err(err) => {
                proof {
                    let label = err->MissingLabel_label;
                    let t = choose|t: int|
                        0 <= t < pending@[k as int]@.len() && #[trigger] pending@[k as int]@[t]@
                            == label@;
                    let b = blocks@[k as int];
                    assert(k >= 1);
                    assert(strs(pending@[k as int]@)[t] == label@);
                    assert(b.start < b.end && splits(insns@, b.end - 1));
                    assert(targets_at(insns@, b.end - 1)[t] == label@);
                    assert(0 <= b.end - 1 < insns@.len());
                    assert(b.start <= b.end - 1 < b.end);
                    lemma_label_index(blocks@, label@, blocks@.len() as int);
                    assert forall|j: int|
                        0 <= j < insns@.len() && #[trigger] insns@[j] is Label
                            implies insns@[j]->Label_name@ != label@ by {
                        let kb = lemma_block_of(blocks@, n as int, j, blocks@.len() - 1);
                        assert(opt_label(blocks@[kb].label) == Some(insns@[j]->Label_name@));
                    }
                }
                return Err(err);
            },
        };
        proof {
            if k == 0 {
                assert(next@ =~= successors(insns@, blocks@, 0));
            } else {
                assert(next@ =~= successors(insns@, blocks@, k as int));
                let bt = block_targets(insns@, blocks@[k as int]);
                assert forall|t: int| 0 <= t < bt.len() implies 0 <= label_index(blocks@, #[trigger] bt[t], blocks@.len() as int) < blocks@.len() by {
                    assert(strs(pending@[k as int]@)[t] == bt[t]);
                }
            }
        }
        next_nodes.push(next);
        k += 1;
    }
    Ok(next_nodes)
}

/// Third pass: the predecessors, as the successors reversed.
fn count_exec(v: &Vec<usize>, x: usize) -> (r: usize)
    ensures
        r == count_of(v@, x),
{
    let mut c: usize = 0;
    let mut i: usize = 0;
    while i < v.len()
        invariant
            i <= v@.len(),
            c == count_of(v@.take(i as int), x),
            c <= i,
        decreases v@.len() - i,
    {
        assert(v@.take(i as int + 1).drop_last() =~= v@.take(i as int));
        if v[i] == x {
            c += 1;
        }
        i += 1;
    }
    assert(v@.take(i as int) =~= v@);
    c
}

fn transpose(next_nodes: &Vec<Vec<usize>>, len: usize) -> (r: Vec<Vec<usize>>)
    requires
        next_nodes@.len() == len,
    ensures
        transposed(next_nodes@, r@),
{
    let mut prev_nodes: Vec<Vec<usize>> = Vec::new();
    let mut j: usize = 0;
    while j < len
        invariant
            j <= len,
            next_nodes@.len() == len,
            prev_nodes@.len() == j,
            forall|j2: int, e: int|
                0 <= j2 < j && 0 <= e < prev_nodes@[j2]@.len() ==> (#[trigger] prev_nodes@[j2]@[e] as int)
                    < len,
            forall|j2: usize, k2: usize|
                j2 < j && k2 < len ==> #[trigger] count_of(prev_nodes@[j2 as int]@, k2)
                    == #[trigger] count_of(next_nodes@[k2 as int]@, j2),
        decreases len - j,
    {
        let mut prev: Vec<usize> = Vec::new();
        let mut k2: usize = 0;
        while k2 < len
            invariant
                k2 <= len,
                next_nodes@.len() == len,
                forall|e: int| 0 <= e < prev@.len() ==> (#[trigger] prev@[e] as int) < k2,
                forall|x: usize|
                    x < len ==> #[trigger] count_of(prev@, x) == if x < k2 {
                        count_of(next_nodes@[x as int]@, j)
                    } else {
                        0
                    },
            decreases len - k2,
        {
            let c = count_exec(&next_nodes[k2], j);
            let mut t: usize = 0;
            while t < c
                invariant
                    t <= c,
                    k2 < len,
                    forall|e: int| 0 <= e < prev@.len() ==> (#[trigger] prev@[e] as int) <= k2,
                    forall|x: usize|
                        x < len ==> #[trigger] count_of(prev@, x) == if x < k2 {
                            count_of(next_nodes@[x as int]@, j)
                        } else if x == k2 {
                            t as nat
                        } else {
                            0
                        },
                decreases c - t,
            {
                let ghost old_prev = prev@;
                prev.push(k2);
                proof {
                    assert(prev@.drop_last() =~= old_prev);
                    assert forall|x: usize| x < len implies #[trigger] count_of(prev@, x) == count_of(old_prev, x) + if x == k2 {
                        1nat
                    } else {
                        0nat
                    } by {}
                }
                t += 1;
            }
            k2 += 1;
        }
        let ghost pv = prev@;
        let ghost old_nodes = prev_nodes@;
        prev_nodes.push(prev);
        proof {
            assert(prev_nodes@[j as int]@ == pv);
            assert forall|j2: int| 0 <= j2 < j implies prev_nodes@[j2] == old_nodes[j2] by {}
        }
        j += 1;
    }
    prev_nodes
}

/// The handlers of every try region resolve.
fn check_handlers(insns: &Vec<Instruction>, blocks: &Vec<Block>) -> (r: Result<(), CfgError>)
    requires
        partitions(blocks@, insns@.len() as int),
        labels_placed(insns@, blocks@),
    ensures
        r is Ok <==> handlers_resolved(insns@),
        r matches Err(CfgError::MissingLabel { label, block }) ==> {
            &&& 1 <= block < blocks@.len()
            &&& exists|i: int, t: int|
                blocks@[block as int].start <= i < blocks@[block as int].end && 0 <= t
                    < refs_at(insns@, i).len() && #[trigger] refs_at(insns@, i)[t] == label@
            &&& forall|j: int|
                0 <= j < insns@.len() && #[trigger] insns@[j] is Label ==> insns@[j]->Label_name@
                    != label@
        },
{
    let n = insns.len();
    let mut i: usize = 0;
    while i < n
        invariant
            n == insns@.len(),
            i <= n,
            partitions(blocks@, n as int),
            labels_placed(insns@, blocks@),
            forall|i2: int, t: int|
                0 <= i2 < i && insns@[i2] is Try && 0 <= t < handler_labels(
                    insns@[i2]->Try_handlers@,
                    insns@[i2]->Try_default_handler,
                ).len() ==> label_defined(
                    insns@,
                    #[trigger] handler_labels(insns@[i2]->Try_handlers@, insns@[i2]->Try_default_handler)[t],
                ),
        decreases n - i,
    {
        match &insns[i] {
            Instruction::Try { handlers, default_handler, .. } => {
                let hs = region_labels(handlers, default_handler);
                let ghost hl = handler_labels(handlers@, *default_handler);
                let mut t: usize = 0;
                while t < hs.len()
                    invariant
                        t <= hs@.len(),
                        strs(hs@) == hl,
                        insns@[i as int] is Try,
                        hl == handler_labels(
                            insns@[i as int]->Try_handlers@,
                            insns@[i as int]->Try_default_handler,
                        ),
                        i < n,
                        n == insns@.len(),
                        partitions(blocks@, n as int),
                        labels_placed(insns@, blocks@),
                        forall|t2: int| 0 <= t2 < t ==> label_defined(insns@, #[trigger] hl[t2]),
                    decreases hs@.len() - t,
                {
                    assert(hl[t as int] == hs@[t as int]@);
                    match find_label(blocks, &hs[t]) {
                        Some(j) => {
                            proof {
                                lemma_label_index(blocks@, hs@[t as int]@, blocks@.len() as int);
                                assert(j != 0);
                                assert(blocks@[j as int].label is Some);
                                let q = choose|q: int|
                                    blocks@[j as int].start <= q < blocks@[j as int].end
                                        && #[trigger] insns@[q] is Label && Some(insns@[q]->Label_name@)
                                        == opt_label(blocks@[j as int].label);
                                lemma_end_bound(blocks@, n as int, j as int);
                                assert(label_defined(insns@, hl[t as int]));
                            }
                        },
                        None => {
                            proof {
                                lemma_label_index(blocks@, hs@[t as int]@, blocks@.len() as int);
                                assert(refs_at(insns@, i as int) == targets_at(insns@, i as int) + hl);
                                assert(targets_at(insns@, i as int).len() == 0);
                                assert(refs_at(insns@, i as int)[t as int] == hs@[t as int]@);
                                assert(t < refs_at(insns@, i as int).len());
                                assert forall|j: int|
                                    0 <= j < insns@.len() && #[trigger] insns@[j] is Label
                                        implies insns@[j]->Label_name@ != hs@[t as int]@ by {
                                    let kb = lemma_block_of(blocks@, n as int, j, blocks@.len() - 1);
                                    assert(opt_label(blocks@[kb].label) == Some(insns@[j]->Label_name@));
                                }
                                assert(!handlers_resolved(insns@)) by {
                                    assert(hl[t as int] == hs@[t as int]@);
                                    if label_defined(insns@, hl[t as int]) {
                                        let j = choose|j: int| 0 <= j < insns@.len() && #[trigger] insns@[j] is Label
                                            && insns@[j]->Label_name@ == hl[t as int];
                                    }
                                }
                            }
                            let mut k: usize = 1;
                            proof {
                                lemma_block_of(blocks@, n as int, i as int, blocks@.len() - 1);
                                lemma_end_bound(blocks@, n as int, blocks@.len() - 1);
                            }
                            while k < blocks.len() && !(blocks[k].start <= i && i < blocks[k].end)
                                invariant
                                    1 <= k <= blocks@.len(),
                                    i < n,
                                    n == insns@.len(),
                                    t < hs@.len(),
                                    partitions(blocks@, n as int),
                                    exists|kb: int| k <= kb < blocks@.len() && #[trigger] blocks@[kb].start <= i
                                        < blocks@[kb].end,
                                    t < refs_at(insns@, i as int).len(),
                                    refs_at(insns@, i as int)[t as int] == hs@[t as int]@,
                                    forall|j: int|
                                        0 <= j < insns@.len() && #[trigger] insns@[j] is Label
                                            ==> insns@[j]->Label_name@ != hs@[t as int]@,
                                    !handlers_resolved(insns@),
                                decreases blocks@.len() - k,
                            {
                                k += 1;
                            }
                            return Err(CfgError::MissingLabel { label: hs[t].clone(), block: k });
                        },
                    }
                    t += 1;
                }
                assert(insns@[i as int]->Try_handlers@ == handlers@);
            },
            _ => {},
        }
        i += 1;
    }
    Ok(())
}

proof fn lemma_targets_split(insns: Seq<Instruction>, i: int)
    requires
        0 <= i < insns.len(),
        targets_at(insns, i).len() > 0,
    ensures
        splits(insns, i),
{
}

/// A graph whose successors resolve every target comes from code whose labels all resolve.
proof fn lemma_resolved(insns: Seq<Instruction>, blocks: Seq<Block>, next: Seq<Vec<usize>>)
    requires
        partitions(blocks, insns.len() as int),
        labels_placed(insns, blocks),
        edges_exact(insns, blocks, next),
        splits_end_blocks(insns, blocks, insns.len() as int),
    ensures
        jumps_resolved(insns),
{
    assert forall|i: int, t: int|
        0 <= i < insns.len() && 0 <= t < targets_at(insns, i).len() implies label_defined(
            insns,
            #[trigger] targets_at(insns, i)[t],
        ) by {
        lemma_targets_split(insns, i);
        let k = choose|k: int| 1 <= k < blocks.len() && #[trigger] blocks[k].end == i + 1;
        assert(blocks[k].start < blocks[k].end);
        let bt = block_targets(insns, blocks[k]);
        assert(bt == targets_at(insns, i));
        assert(0 <= label_index(blocks, bt[t], blocks.len() as int) < blocks.len());
        lemma_label_index(blocks, bt[t], blocks.len() as int);
        let idx = label_index(blocks, bt[t], blocks.len() as int);
        assert(opt_label(blocks[idx].label) == Some(bt[t]));
        assert(idx != 0);
        assert(blocks[idx].label is Some);
        let j = choose|j: int|
            blocks[idx].start <= j < blocks[idx].end && #[trigger] insns[j] is Label && Some(
                insns[j]->Label_name@,
            ) == opt_label(blocks[idx].label);
        lemma_end_bound(blocks, insns.len() as int, idx);
        assert(0 <= j < insns.len());
        assert(insns[j]->Label_name@ == targets_at(insns, i)[t]);
    }
    assert(jumps_resolved(insns));
}

impl CFG {
    /// Builds the graph of a method body. Fails when, and only when, an instruction jumps to
    /// a label that no `Label` defines.
    pub fn new(_nb_reg: usize, insns: &Vec<Instruction>) -> (r: Result<CFG, CfgError>)
        ensures
            r matches Ok(g) ==> {
                &&& partitions(g.blocks@, insns@.len() as int)
                &&& labels_placed(insns@, g.blocks@)
                &&& labels_lead(insns@, g.blocks@)
                &&& splits_end_blocks(insns@, g.blocks@, insns@.len() as int)
                &&& edges_exact(insns@, g.blocks@, g.next_nodes@)
                &&& transposed(g.next_nodes@, g.prev_nodes@)
            },
            labels_resolved(insns@) <==> r is Ok,
            r matches Err(CfgError::MissingLabel { label, block }) ==> {
                &&& exists|blocks: Seq<Block>, i: int, t: int|
                    #[trigger] partitions(blocks, insns@.len() as int) && 1 <= block < blocks.len()
                        && blocks[block as int].start <= i < blocks[block as int].end && 0 <= t
                        < refs_at(insns@, i).len() && #[trigger] refs_at(insns@, i)[t] == label@
                &&& forall|j: int|
                    0 <= j < insns@.len() && #[trigger] insns@[j] is Label
                        ==> insns@[j]->Label_name@ != label@
            },
    {
        let (blocks, pending, falls) = split_blocks(insns);
        let next_nodes = match resolve_edges(insns, &blocks, &pending, &falls, insns.len()) {
            Ok(nx) => nx,
            Err(e) => {
                proof {
                    let label = e->MissingLabel_label;
                    let block = e->MissingLabel_block;
                    let (i, t) = choose|i: int, t: int|
                        blocks@[block as int].start <= i < blocks@[block as int].end && 0 <= t
                            < targets_at(insns@, i).len() && #[trigger] targets_at(insns@, i)[t]
                            == label@;
                    assert(refs_at(insns@, i)[t] == label@);
                    assert(partitions(blocks@, insns@.len() as int));
                }
                return Err(e);
            },
        };
        check_handlers(insns, &blocks)?;
        let prev_nodes = transpose(&next_nodes, blocks.len());
        proof {
            lemma_resolved(insns@, blocks@, next_nodes@);
        }
        Ok(CFG { blocks, next_nodes, prev_nodes })
    }
}

/// A character of an instruction's text as a record label of the graph format needs it:
/// spaces, angle brackets, double quotes and braces are escaped with a backslash.
pub open spec fn dot_escape_char(c: char) -> Seq<char> {
    if c == ' ' || c == '>' || c == '<' || c == '"' || c == '{' || c == '}' {
        seq!['\\', c]
    } else {
        seq![c]
    }
}

pub open spec fn dot_escape(s: Seq<char>) -> Seq<char>
    decreases s.len(),
{
    if s.len() == 0 {
        s
    } else {
        dot_escape(s.drop_last()) + dot_escape_char(s.last())
    }
}

/// The name shown for block `i`.
pub open spec fn dot_block_name(i: nat, label: Option<Seq<char>>) -> Seq<char> {
    if i == 0 {
        "ENTRY"@
    } else {
        match label {
            Some(l) => "block '"@ + l + "'"@,
            None => "block "@ + dec(i),
        }
    }
}

/// The rows of a block's record: one per instruction text.
pub open spec fn dot_rows(texts: Seq<Seq<char>>) -> Seq<char>
    decreases texts.len(),
{
    if texts.len() == 0 {
        seq![]
    } else {
        dot_rows(texts.drop_last()) + "|"@ + dot_escape(texts.last()) + "\\l\\\n"@
    }
}

/// The record of a block whose instructions print as `texts`.
pub open spec fn dot_record(name: Seq<char>, texts: Seq<Seq<char>>) -> Seq<char> {
    if texts.len() == 0 {
        "{\\< "@ + name + " \\>}"@
    } else {
        "{\\< "@ + name + " \\>:\\l\\\n"@ + dot_rows(texts) + "}"@
    }
}

/// The line of the node of block `i`.
pub open spec fn dot_node(i: nat, record: Seq<char>) -> Seq<char> {
    "    node_"@ + dec(i) + " [shape=record,style=filled,fillcolor=lightgrey,label=\""@ + record
        + "\"];\n\n"@
}

/// The line of the edge from block `i` to block `j`; an edge to the next block weighs more,
/// so that the layout keeps the code in order.
pub open spec fn dot_edge(i: nat, j: nat) -> Seq<char> {
    "    node_"@ + dec(i) + ":s -> node_"@ + dec(j) + if j == i + 1 {
        ":n [style=\"solid,bold\",color=black,weight=100,constraint=true];\n"@
    } else {
        ":n [style=\"solid,bold\",color=black,weight=10,constraint=true];\n"@
    }
}

/// The line of the edge from block `i` to the exit.
pub open spec fn dot_exit_edge(i: nat) -> Seq<char> {
    "    node_"@ + dec(i) + ":s -> node_end:n [style=\"solid,bold\",color=black,weight=10,constraint=true];\n"@
}

/// The edges that leave block `i`: to each successor, or to the exit when there is none.
pub open spec fn dot_edges_of(i: nat, next: Seq<usize>) -> Seq<char>
    decreases next.len(),
{
    if next.len() == 0 {
        dot_exit_edge(i)
    } else if next.len() == 1 {
        dot_edge(i, next[0] as nat)
    } else {
        dot_edges_of(i, next.drop_last()) + dot_edge(i, next.last() as nat)
    }
}

/// The texts of the instructions of a block.
pub open spec fn block_texts(texts: Seq<String>, b: Block) -> Seq<Seq<char>> {
    strs(texts.subrange(b.start as int, b.end as int))
}

/// The nodes of the first `k` blocks.
pub open spec fn dot_nodes(blocks: Seq<Block>, texts: Seq<String>, k: int) -> Seq<char>
    decreases k,
{
    if k <= 0 {
        seq![]
    } else {
        dot_nodes(blocks, texts, k - 1) + dot_node(
            (k - 1) as nat,
            dot_record(
                dot_block_name((k - 1) as nat, opt_label(blocks[k - 1].label)),
                block_texts(texts, blocks[k - 1]),
            ),
        )
    }
}

/// The edges of the first `k` blocks.
pub open spec fn dot_edges(next: Seq<Vec<usize>>, k: int) -> Seq<char>
    decreases k,
{
    if k <= 0 {
        seq![]
    } else {
        dot_edges(next, k - 1) + dot_edges_of((k - 1) as nat, next[k - 1]@)
    }
}

/// The whole graph in the DOT format: a header with the graph's name, one record node per
/// block, the exit node, then the edges.
pub open spec fn dot_graph(name: Seq<char>, g: CFG, texts: Seq<String>) -> Seq<char> {
    "digraph {\n    overlap=false;\n    style=\"dashed\";\n    color=\"black\";\n    label=\""@ + name
        + "\";\n"@ + dot_nodes(g.blocks@, texts, g.blocks@.len() as int)
        + "    node_end [shape=record,style=filled,fillcolor=lightgrey,label=\"{\\< EXIT \\>}\"];\n\n"@
        + dot_edges(g.next_nodes@, g.blocks@.len() as int) + "}\n"@
}

fn push_escaped(text: &String, out: &mut String)
    ensures
        final(out)@ == old(out)@ + dot_escape(text@),
{
    let s = text.as_str();
    let n = s.unicode_len();
    let mut k: usize = 0;
    while k < n
        invariant
            n == text@.len(),
            s@ == text@,
            k <= n,
            out@ == old(out)@ + dot_escape(text@.take(k as int)),
        decreases n - k,
    {
        let c = s.get_char(k);
        let piece = s.substring_char(k, k + 1);
        if c == ' ' || c == '>' || c == '<' || c == '"' || c == '{' || c == '}' {
            out.append("\\");
        }
        out.append(piece);
        proof {
            reveal_strlit("\\");
            assert(text@.take(k as int + 1).drop_last() =~= text@.take(k as int));
            assert(piece@ =~= seq![c]);
        }
        k += 1;
        assert(out@ =~= old(out)@ + dot_escape(text@.take(k as int)));
    }
    assert(text@.take(k as int) =~= text@);
}

fn push_rows(b: &Block, texts: &Vec<String>, out: &mut String)
    requires
        b.start <= b.end <= texts@.len(),
    ensures
        final(out)@ == old(out)@ + dot_rows(block_texts(texts@, *b)),
{
    let ghost rows_start = old(out)@;
    let mut k: usize = b.start;
    while k < b.end
        invariant
            b.start <= k <= b.end,
            b.end <= texts@.len(),
            out@ == rows_start + dot_rows(strs(texts@.subrange(b.start as int, k as int))),
        decreases b.end - k,
    {
        let ghost prev = out@;
        out.append("|");
        push_escaped(&texts[k], out);
        out.append("\\l\\\n");
        proof {
            let t = strs(texts@.subrange(b.start as int, k as int + 1));
            assert(t.drop_last() =~= strs(texts@.subrange(b.start as int, k as int)));
            assert(t.last() == texts@[k as int]@);
        }
        k += 1;
    }
}

fn push_node(i: usize, b: &Block, texts: &Vec<String>, out: &mut String)
    requires
        b.start <= b.end <= texts@.len(),
    ensures
        final(out)@ == old(out)@ + dot_node(
            i as nat,
            dot_record(dot_block_name(i as nat, opt_label(b.label)), block_texts(texts@, *b)),
        ),
{
    let ghost before = old(out)@;
    out.append("    node_");
    push_dec(i, out);
    out.append(" [shape=record,style=filled,fillcolor=lightgrey,label=\"");
    let ghost rec_start = out@;
    out.append("{\\< ");
    if i == 0 {
        out.append("ENTRY");
    } else {
        match &b.label {
            Some(l) => {
                out.append("block '");
                out.append(l.as_str());
                out.append("'");
            },
            None => {
                out.append("block ");
                push_dec(i, out);
            },
        }
    }
    let ghost name_end = out@;
    if b.start == b.end {
        out.append(" \\>}");
    } else {
        out.append(" \\>:\\l\\\n");
        push_rows(b, texts, out);
        out.append("}");
    }
    let ghost rec_end = out@;
    out.append("\"];\n\n");
    proof {
        let nm = dot_block_name(i as nat, opt_label(b.label));
        assert(name_end =~= rec_start + "{\\< "@ + nm);
        assert(rec_end.subrange(rec_start.len() as int, rec_end.len() as int) =~= dot_record(
            nm,
            block_texts(texts@, *b),
        ));
        assert(out@ =~= before + dot_node(
            i as nat,
            dot_record(nm, block_texts(texts@, *b)),
        ));
    }
}

fn push_edge(i: usize, j: usize, out: &mut String)
    ensures
        final(out)@ == old(out)@ + dot_edge(i as nat, j as nat),
{
    out.append("    node_");
    push_dec(i, out);
    out.append(":s -> node_");
    push_dec(j, out);
    if i < usize::MAX && j == i + 1 {
        out.append(":n [style=\"solid,bold\",color=black,weight=100,constraint=true];\n");
    } else {
        out.append(":n [style=\"solid,bold\",color=black,weight=10,constraint=true];\n");
    }
    assert(final(out)@ =~= old(out)@ + dot_edge(i as nat, j as nat));
}

fn push_edges_of(i: usize, next: &Vec<usize>, out: &mut String)
    ensures
        final(out)@ == old(out)@ + dot_edges_of(i as nat, next@),
{
    if next.len() == 0 {
        out.append("    node_");
        push_dec(i, out);
        out.append(":s -> node_end:n [style=\"solid,bold\",color=black,weight=10,constraint=true];\n");
        assert(final(out)@ =~= old(out)@ + dot_edges_of(i as nat, next@));
        return ;
    }
    let ghost before = old(out)@;
    push_edge(i, next[0], out);
    assert(next@.take(1) =~= seq![next@[0]]);
    let mut e: usize = 1;
    while e < next.len()
        invariant
            0 < e <= next@.len(),
            out@ == before + dot_edges_of(i as nat, next@.take(e as int)),
        decreases next@.len() - e,
    {
        push_edge(i, next[e], out);
        proof {
            assert(next@.take(e as int + 1).drop_last() =~= next@.take(e as int));
        }
        e += 1;
    }
    assert(next@.take(e as int) =~= next@);
}

impl CFG {
    /// The graph in the DOT format, for inspection: one record node per block listing its
    /// instructions as `texts` prints them (the text of instruction `i` is `texts[i]`), one
    /// edge per successor, and an edge to the exit from each block without successors.
    pub fn to_dot(&self, name: &String, texts: &Vec<String>) -> (r: String)
        requires
            self.next_nodes@.len() == self.blocks@.len(),
            forall|k: int|
                0 <= k < self.blocks@.len() ==> #[trigger] self.blocks@[k].start <= self.blocks@[k].end
                    <= texts@.len(),
        ensures
            r@ == dot_graph(name@, *self, texts@),
    {
        let mut out = String::from_str("digraph {\n    overlap=false;\n    style=\"dashed\";\n    color=\"black\";\n    label=\"");
        out.append(name.as_str());
        out.append("\";\n");
        let ghost head = out@;
        let mut i: usize = 0;
        while i < self.blocks.len()
            invariant
                i <= self.blocks@.len(),
                forall|k: int|
                    0 <= k < self.blocks@.len() ==> #[trigger] self.blocks@[k].start <= self.blocks@[k].end
                        <= texts@.len(),
                out@ == head + dot_nodes(self.blocks@, texts@, i as int),
            decreases self.blocks@.len() - i,
        {
            push_node(i, &self.blocks[i], texts, &mut out);
            i += 1;
        }
        out.append("    node_end [shape=record,style=filled,fillcolor=lightgrey,label=\"{\\< EXIT \\>}\"];\n\n");
        let ghost edges_start = out@;
        let mut i: usize = 0;
        while i < self.blocks.len()
            invariant
                i <= self.blocks@.len(),
                self.next_nodes@.len() == self.blocks@.len(),
                out@ == edges_start + dot_edges(self.next_nodes@, i as int),
            decreases self.blocks@.len() - i,
        {
            push_edges_of(i, &self.next_nodes[i], &mut out);
            i += 1;
        }
        out.append("}\n");
        out
    }
}

} // verus!
