//! Scratch registers for the code inserted at a call site, and the moves that save and
//! restore the registers they borrow.
use vstd::prelude::*;

use crate::instructions::Instruction;

verus! {

/// What a register holds at a point of the method.
#[derive(Debug, Clone, Copy, PartialEq, Eq, Structural)]
pub enum RegType {
    Object,
    SimpleScalar,
    FirstWideScalar,
    SecondWideScalar,
    Any,
    Undefined,
}

/// The scratch registers of one method rewrite.
///
/// `array_index` and `array` are 4-bit registers (0 to 15) that hold a 32-bit scalar or a
/// reference; `array_val` is a 4-bit register together with the next one, so that it can hold
/// a 64-bit scalar too. When the method already uses the low registers, the `*_save` fields
/// name the 16-bit registers where the borrowed low registers are saved.
///
/// `first_arg` is the first of the `nb_arg_reg` registers that pass the arguments of the
/// synthesized calls.
#[derive(Debug, PartialEq, Eq, Structural)]
pub struct RegistersInfo {
    pub array_index: u8,
    pub array: u8,
    pub array_val: u8,
    pub array_index_save: Option<u16>,
    pub array_save: Option<u16>,
    pub array_val_save: Option<u16>,
    pub first_arg: u16,
    pub nb_arg_reg: u16,
}

impl Default for RegistersInfo {
    fn default() -> (r: RegistersInfo)
        ensures
            r == (RegistersInfo {
                array_index: 0,
                array: 0,
                array_val: 0,
                array_index_save: None,
                array_save: None,
                array_val_save: None,
                first_arg: 0,
                nb_arg_reg: 0,
            }),
    {
        RegistersInfo {
            array_index: 0,
            array: 0,
            array_val: 0,
            array_index_save: None,
            array_save: None,
            array_val_save: None,
            first_arg: 0,
            nb_arg_reg: 0,
        }
    }
}

/// The scratch slot a single register is looked for.
#[derive(Debug, Clone, Copy, PartialEq, Eq, Structural)]
pub enum Slot {
    /// `array_index`, which preferably borrows a scalar register.
    Index,
    /// `array`, which preferably borrows a reference register.
    Array,
}

/// Whether a register of type `t` may serve as the single scratch register `slot` at the
/// priority `tier`: first the exact kind, then any kind that can be saved, then `Any`.
pub open spec fn single_ok(slot: Slot, tier: int, t: RegType) -> bool {
    match slot {
        Slot::Index => if tier == 0 {
            t == RegType::SimpleScalar
        } else if tier == 1 {
            t == RegType::Object || t == RegType::FirstWideScalar || t == RegType::SecondWideScalar
                || t == RegType::Undefined
        } else {
            t == RegType::Any
        },
        Slot::Array => if tier == 0 {
            t == RegType::Object
        } else if tier == 1 {
            t == RegType::SimpleScalar || t == RegType::FirstWideScalar || t
                == RegType::SecondWideScalar || t == RegType::Undefined
        } else {
            t == RegType::Any
        },
    }
}

/// The types a register of the wide pair may hold at the imprecise tiers.
pub open spec fn savable(t: RegType, with_any: bool) -> bool {
    t != RegType::Any || with_any
}

/// Whether registers of types `t1`, `t2` may serve as the wide scratch pair at `tier`.
pub open spec fn pair_ok(tier: int, t1: RegType, t2: RegType) -> bool {
    if tier == 0 {
        t1 == RegType::FirstWideScalar && t2 == RegType::SecondWideScalar
    } else {
        savable(t1, tier >= 2) && savable(t2, tier >= 2)
    }
}

/// The lowest register from `i` on, below 15, that is free and fits `slot` at `tier`.
pub open spec fn first_single(types: Seq<RegType>, used: Seq<u16>, slot: Slot, tier: int, i: int) -> Option<
    int,
>
    decreases 15 - i,
{
    if i >= 15 || i >= types.len() || i < 0 {
        None
    } else if !used.contains(i as u16) && single_ok(slot, tier, types[i]) {
        Some(i)
    } else {
        first_single(types, used, slot, tier, i + 1)
    }
}

/// The lowest register from `i` on, below 15, that starts a free pair fitting `tier`.
pub open spec fn first_pair(types: Seq<RegType>, used: Seq<u16>, tier: int, i: int) -> Option<int>
    decreases 15 - i,
{
    if i >= 15 || i + 1 >= types.len() || i < 0 {
        None
    } else if !used.contains(i as u16) && !used.contains((i + 1) as u16) && pair_ok(
        tier,
        types[i],
        types[i + 1],
    ) {
        Some(i)
    } else {
        first_pair(types, used, tier, i + 1)
    }
}

proof fn lemma_first_single_bound(types: Seq<RegType>, used: Seq<u16>, slot: Slot, tier: int, i: int)
    ensures
        first_single(types, used, slot, tier, i) matches Some(j) ==> 0 <= i <= j && j < 15 && j
            < types.len(),
    decreases 15 - i,
{
    if !(i >= 15 || i >= types.len() || i < 0) {
        lemma_first_single_bound(types, used, slot, tier, i + 1);
    }
}

proof fn lemma_first_pair_bound(types: Seq<RegType>, used: Seq<u16>, tier: int, i: int)
    ensures
        first_pair(types, used, tier, i) matches Some(j) ==> 0 <= i <= j && j < 15 && j + 1
            < types.len(),
    decreases 15 - i,
{
    if !(i >= 15 || i + 1 >= types.len() || i < 0) {
        lemma_first_pair_bound(types, used, tier, i + 1);
    }
}

/// The tier and register chosen for a single scratch register, tier by tier.
pub open spec fn pick_single(types: Seq<RegType>, used: Seq<u16>, slot: Slot) -> Option<(int, int)> {
    if first_single(types, used, slot, 0, 0) is Some {
        Some((0, first_single(types, used, slot, 0, 0)->0))
    } else if first_single(types, used, slot, 1, 0) is Some {
        Some((1, first_single(types, used, slot, 1, 0)->0))
    } else if first_single(types, used, slot, 2, 0) is Some {
        Some((2, first_single(types, used, slot, 2, 0)->0))
    } else {
        None
    }
}

/// The tier and first register chosen for the wide scratch pair.
pub open spec fn pick_pair(types: Seq<RegType>, used: Seq<u16>) -> Option<(int, int)> {
    if first_pair(types, used, 0, 0) is Some {
        Some((0, first_pair(types, used, 0, 0)->0))
    } else if first_pair(types, used, 1, 0) is Some {
        Some((1, first_pair(types, used, 1, 0)->0))
    } else if first_pair(types, used, 2, 0) is Some {
        Some((2, first_pair(types, used, 2, 0)->0))
    } else {
        None
    }
}

/// The move that copies a register holding `t` from `from` to `to`: an object move for a
/// reference, a scalar move for a scalar or a half of a wide one, nothing for a register
/// that was never written.
pub open spec fn move_for(t: RegType, from: u16, to: u16) -> Seq<Instruction> {
    match t {
        RegType::Object => seq![Instruction::MoveObject { from, to }],
        RegType::Undefined => seq![],
        _ => seq![Instruction::Move { from, to }],
    }
}

/// The moves that save (`back == false`) or restore (`back == true`) the register `r` of type
/// `t` with the save slot `s`.
pub open spec fn stage(t: RegType, r: u16, s: u16, back: bool) -> Seq<Instruction> {
    if back {
        move_for(t, s, r)
    } else {
        move_for(t, r, s)
    }
}

/// The moves that save or restore the wide pair starting at `r`, borrowed at `tier`.
pub open spec fn stage_pair(types: Seq<RegType>, tier: int, r: int, s: u16, back: bool) -> Seq<
    Instruction,
> {
    if tier == 0 {
        if back {
            seq![Instruction::MoveWide { from: s, to: r as u16 }]
        } else {
            seq![Instruction::MoveWide { from: r as u16, to: s }]
        }
    } else {
        stage(types[r], r as u16, s, back) + stage(types[r + 1], (r + 1) as u16, (s + 1) as u16, back)
    }
}

/// The register of a choice.
pub open spec fn chosen(p: Option<(int, int)>) -> int {
    match p {
        Some((_, i)) => i,
        None => -1,
    }
}

/// Whether a save register needs a low register to be borrowed at all.
pub open spec fn needs_pair(save: Option<u16>) -> bool {
    save matches Some(s) && s > 14
}

pub open spec fn needs_single(save: Option<u16>) -> bool {
    save matches Some(s) && s > 15
}

/// The moves that save or restore the wide pair, when it has to be borrowed.
pub open spec fn pair_part(types: Seq<RegType>, used: Seq<u16>, save: Option<u16>, back: bool) -> Seq<
    Instruction,
> {
    if needs_pair(save) && pick_pair(types, used) is Some {
        let (tier, i) = pick_pair(types, used)->0;
        stage_pair(types, tier, i, save->0, back)
    } else {
        seq![]
    }
}

/// The registers that may no longer be borrowed once the wide pair is chosen.
pub open spec fn used_after_pair(types: Seq<RegType>, used: Seq<u16>, save: Option<u16>) -> Seq<u16> {
    if needs_pair(save) && pick_pair(types, used) is Some {
        let i = chosen(pick_pair(types, used));
        used.push(i as u16).push((i + 1) as u16)
    } else {
        used
    }
}

/// The moves that save or restore a single scratch register, when it has to be borrowed.
pub open spec fn single_part(
    types: Seq<RegType>,
    used: Seq<u16>,
    save: Option<u16>,
    slot: Slot,
    back: bool,
) -> Seq<Instruction> {
    if needs_single(save) && pick_single(types, used, slot) is Some {
        let i = chosen(pick_single(types, used, slot));
        stage(types[i], i as u16, save->0, back)
    } else {
        seq![]
    }
}

/// The registers that may no longer be borrowed once a single register is chosen.
pub open spec fn used_after_single(
    types: Seq<RegType>,
    used: Seq<u16>,
    save: Option<u16>,
    slot: Slot,
) -> Seq<u16> {
    if needs_single(save) && pick_single(types, used, slot) is Some {
        used.push(chosen(pick_single(types, used, slot)) as u16)
    } else {
        used
    }
}

fn contains_reg(v: &Vec<u16>, x: u16) -> (r: bool)
    ensures
        r == v@.contains(x),
{
    let mut i: usize = 0;
    while i < v.len()
        invariant
            i <= v@.len(),
            forall|y: int| 0 <= y < i ==> v@[y] != x,
        decreases v@.len() - i,
    {
        if v[i] == x {
            return true;
        }
        i += 1;
    }
    false
}

fn single_fits(slot: Slot, tier: u8, t: RegType) -> (r: bool)
    ensures
        r == single_ok(slot, tier as int, t),
{
    match slot {
        Slot::Index => if tier == 0 {
            t == RegType::SimpleScalar
        } else if tier == 1 {
            t == RegType::Object || t == RegType::FirstWideScalar || t == RegType::SecondWideScalar
                || t == RegType::Undefined
        } else {
            t == RegType::Any
        },
        Slot::Array => if tier == 0 {
            t == RegType::Object
        } else if tier == 1 {
            t == RegType::SimpleScalar || t == RegType::FirstWideScalar || t
                == RegType::SecondWideScalar || t == RegType::Undefined
        } else {
            t == RegType::Any
        },
    }
}

fn pair_fits(tier: u8, t1: RegType, t2: RegType) -> (r: bool)
    ensures
        r == pair_ok(tier as int, t1, t2),
{
    if tier == 0 {
        t1 == RegType::FirstWideScalar && t2 == RegType::SecondWideScalar
    } else {
        (t1 != RegType::Any || tier >= 2) && (t2 != RegType::Any || tier >= 2)
    }
}

fn find_single(types: &Vec<RegType>, used: &Vec<u16>, slot: Slot, tier: u8) -> (r: Option<u8>)
    ensures
        r matches Some(i) ==> first_single(types@, used@, slot, tier as int, 0) == Some(i as int),
        r is None ==> first_single(types@, used@, slot, tier as int, 0) is None,
{
    let mut i: u8 = 0;
    while i < 15
        invariant
            i <= 15,
            first_single(types@, used@, slot, tier as int, 0) == first_single(
                types@,
                used@,
                slot,
                tier as int,
                i as int,
            ),
        decreases 15 - i,
    {
        if i as usize >= types.len() {
            return None;
        }
        if !contains_reg(used, i as u16) && single_fits(slot, tier, types[i as usize]) {
            return Some(i);
        }
        i += 1;
    }
    None
}

fn find_pair(types: &Vec<RegType>, used: &Vec<u16>, tier: u8) -> (r: Option<u8>)
    ensures
        r matches Some(i) ==> first_pair(types@, used@, tier as int, 0) == Some(i as int),
        r is None ==> first_pair(types@, used@, tier as int, 0) is None,
{
    let mut i: u8 = 0;
    while i < 15
        invariant
            i <= 15,
            first_pair(types@, used@, tier as int, 0) == first_pair(
                types@,
                used@,
                tier as int,
                i as int,
            ),
        decreases 15 - i,
    {
        if i as usize + 1 >= types.len() {
            return None;
        }
        if !contains_reg(used, i as u16) && !contains_reg(used, i as u16 + 1) && pair_fits(
            tier,
            types[i as usize],
            types[i as usize + 1],
        ) {
            return Some(i);
        }
        i += 1;
    }
    None
}

/// The moves of [`stage`], built.
fn stage_moves(t: RegType, r: u16, s: u16, back: bool) -> (m: Vec<Instruction>)
    ensures
        m@ == stage(t, r, s, back),
{
    let (from, to) = if back {
        (s, r)
    } else {
        (r, s)
    };
    let m = match t {
        RegType::Object => vec![Instruction::MoveObject { from, to }],
        RegType::Undefined => Vec::new(),
        _ => vec![Instruction::Move { from, to }],
    };
    assert(m@ =~= stage(t, r, s, back));
    m
}

impl RegistersInfo {
    /// Registers added to the method: the four scratch registers and the argument window.
    pub fn get_nb_added_reg(&self) -> (r: u16)
        requires
            self.nb_arg_reg + 4 <= u16::MAX,
        ensures
            r == self.nb_arg_reg + 4,
    {
        self.nb_arg_reg + 4
    }
}

/// The tier and first register chosen for the wide pair.
fn pick_wide(types: &Vec<RegType>, used: &Vec<u16>) -> (r: Option<(u8, u8)>)
    ensures
        r matches Some((t, i)) ==> pick_pair(types@, used@) == Some((t as int, i as int)) && i + 1
            < types@.len() && i < 15,
        r is None ==> pick_pair(types@, used@) is None,
{
    let mut tier: u8 = 0;
    while tier < 3
        invariant
            tier <= 3,
            forall|t: int| 0 <= t < tier ==> first_pair(types@, used@, t, 0) is None,
        decreases 3 - tier,
    {
        match find_pair(types, used, tier) {
            Some(i) => {
                proof {
                    lemma_first_pair_bound(types@, used@, tier as int, 0);
                    if tier >= 1 {
                        assert(first_pair(types@, used@, 0, 0) is None);
                    }
                    if tier >= 2 {
                        assert(first_pair(types@, used@, 1, 0) is None);
                    }
                }
                return Some((tier, i));
            },
            None => {},
        }
        tier += 1;
    }
    None
}

impl RegistersInfo {
    /// Chooses the low registers to borrow when the scratch registers could not be taken
    /// above the method's own (their `*_save` field is set), in the order: wide pair, index
    /// register, array register. Returns the moves that save the borrowed registers before the
    /// inserted code and the moves that restore them after it. `used_reg` lists the registers
    /// that the instrumented call names, which are never borrowed; `regs_type` gives the type
    /// of each register at the call.
    pub fn tmp_reserve_reg(&mut self, used_reg: &Vec<u16>, regs_type: &Vec<RegType>) -> (r: Result<
        (Vec<Instruction>, Vec<Instruction>),
        NoUsableRegister,
    >)
        requires
            old(self).array_val_save matches Some(s) ==> s < u16::MAX,
        ensures
            ({
                let types = regs_type@;
                let u0 = used_reg@;
                let u1 = used_after_pair(types, u0, old(self).array_val_save);
                let u2 = used_after_single(types, u1, old(self).array_index_save, Slot::Index);
                &&& r is Ok <==> ((!needs_pair(old(self).array_val_save) || pick_pair(types, u0) is Some)
                    && (!needs_single(old(self).array_index_save) || pick_single(
                    types,
                    u1,
                    Slot::Index,
                ) is Some) && (!needs_single(old(self).array_save) || pick_single(
                    types,
                    u2,
                    Slot::Array,
                ) is Some))
                &&& r matches Ok((saves, restores)) ==> {
                    &&& saves@ == pair_part(types, u0, old(self).array_val_save, false) + single_part(
                        types,
                        u1,
                        old(self).array_index_save,
                        Slot::Index,
                        false,
                    ) + single_part(types, u2, old(self).array_save, Slot::Array, false)
                    &&& restores@ == pair_part(types, u0, old(self).array_val_save, true)
                        + single_part(types, u1, old(self).array_index_save, Slot::Index, true)
                        + single_part(types, u2, old(self).array_save, Slot::Array, true)
                    &&& final(self).array_val as int == if needs_pair(old(self).array_val_save) {
                        chosen(pick_pair(types, u0))
                    } else {
                        old(self).array_val as int
                    }
                    &&& final(self).array_index as int == if needs_single(
                        old(self).array_index_save,
                    ) {
                        chosen(pick_single(types, u1, Slot::Index))
                    } else {
                        old(self).array_index as int
                    }
                    &&& final(self).array as int == if needs_single(old(self).array_save) {
                        chosen(pick_single(types, u2, Slot::Array))
                    } else {
                        old(self).array as int
                    }
                }
            }),
            r is Err ==> *final(self) == *old(self),
            final(self).array_val_save == old(self).array_val_save,
            final(self).array_index_save == old(self).array_index_save,
            final(self).array_save == old(self).array_save,
            final(self).first_arg == old(self).first_arg,
            final(self).nb_arg_reg == old(self).nb_arg_reg,
    {
        let mut new_val = self.array_val;
        let mut new_index = self.array_index;
        let mut new_array = self.array;
        let mut used: Vec<u16> = Vec::new();
        let mut k: usize = 0;
        while k < used_reg.len()
            invariant
                k <= used_reg@.len(),
                used@ == used_reg@.take(k as int),
            decreases used_reg@.len() - k,
        {
            used.push(used_reg[k]);
            k += 1;
            assert(used@ =~= used_reg@.take(k as int));
        }
        assert(used@ =~= used_reg@);
        let mut saves: Vec<Instruction> = Vec::new();
        let mut restores: Vec<Instruction> = Vec::new();
        if let Some(reg_save) = self.array_val_save {
            if reg_save > 14 {
                let found = pick_wide(regs_type, &used);
                match found {
                    None => {
                        return Err(NoUsableRegister);
                    },
                    Some((t, i)) => {
                        new_val = i;
                        let ri = i as u16;
                        if t == 0 {
                            saves.push(Instruction::MoveWide { from: ri, to: reg_save });
                            restores.push(Instruction::MoveWide { from: reg_save, to: ri });
                        } else {
                            let mut s1 = stage_moves(regs_type[i as usize], ri, reg_save, false);
                            let mut s2 = stage_moves(
                                regs_type[i as usize + 1],
                                ri + 1,
                                reg_save + 1,
                                false,
                            );
                            let mut r1 = stage_moves(regs_type[i as usize], ri, reg_save, true);
                            let mut r2 = stage_moves(
                                regs_type[i as usize + 1],
                                ri + 1,
                                reg_save + 1,
                                true,
                            );
                            saves.append(&mut s1);
                            saves.append(&mut s2);
                            restores.append(&mut r1);
                            restores.append(&mut r2);
                        }
                        used.push(ri);
                        used.push(ri + 1);
                    },
                }
            }
        }
        assert(saves@ =~= pair_part(regs_type@, used_reg@, old(self).array_val_save, false));
        assert(restores@ =~= pair_part(regs_type@, used_reg@, old(self).array_val_save, true));
        assert(used@ =~= used_after_pair(regs_type@, used_reg@, old(self).array_val_save));
        let ghost s1 = saves@;
        let ghost r1 = restores@;
        let ghost u1 = used@;
        if let Some(reg_save) = self.array_index_save {
            if reg_save > 15 {
                match self.pick(regs_type, &used, Slot::Index) {
                    None => {
                        return Err(NoUsableRegister);
                    },
                    Some(i) => {
                        new_index = i;
                        let mut s = stage_moves(regs_type[i as usize], i as u16, reg_save, false);
                        let mut r = stage_moves(regs_type[i as usize], i as u16, reg_save, true);
                        saves.append(&mut s);
                        restores.append(&mut r);
                        used.push(i as u16);
                    },
                }
            }
        }
        assert(saves@ =~= s1 + single_part(regs_type@, u1, old(self).array_index_save, Slot::Index, false));
        assert(restores@ =~= r1 + single_part(regs_type@, u1, old(self).array_index_save, Slot::Index, true));
        assert(used@ =~= used_after_single(regs_type@, u1, old(self).array_index_save, Slot::Index));
        let ghost s2 = saves@;
        let ghost r2 = restores@;
        let ghost u2 = used@;
        if let Some(reg_save) = self.array_save {
            if reg_save > 15 {
                match self.pick(regs_type, &used, Slot::Array) {
                    None => {
                        return Err(NoUsableRegister);
                    },
                    Some(i) => {
                        new_array = i;
                        let mut s = stage_moves(regs_type[i as usize], i as u16, reg_save, false);
                        let mut r = stage_moves(regs_type[i as usize], i as u16, reg_save, true);
                        saves.append(&mut s);
                        restores.append(&mut r);
                    },
                }
            }
        }
        assert(saves@ =~= s2 + single_part(regs_type@, u2, old(self).array_save, Slot::Array, false));
        assert(restores@ =~= r2 + single_part(regs_type@, u2, old(self).array_save, Slot::Array, true));
        self.array_val = new_val;
        self.array_index = new_index;
        self.array = new_array;
        Ok((saves, restores))
    }

    /// The register chosen for a single scratch slot, tier by tier.
    fn pick(&self, types: &Vec<RegType>, used: &Vec<u16>, slot: Slot) -> (r: Option<u8>)
        ensures
            r matches Some(i) ==> pick_single(types@, used@, slot) matches Some((_, j)) && j
                == i as int && (i as int) < types@.len(),
            r is None ==> pick_single(types@, used@, slot) is None,
    {
        let mut tier: u8 = 0;
        while tier < 3
            invariant
                tier <= 3,
                forall|t: int| 0 <= t < tier ==> first_single(types@, used@, slot, t, 0) is None,
            decreases 3 - tier,
        {
            match find_single(types, used, slot, tier) {
                Some(i) => {
                    proof {
                        lemma_first_single_bound(types@, used@, slot, tier as int, 0);
                        if tier >= 1 {
                            assert(first_single(types@, used@, slot, 0, 0) is None);
                        }
                        if tier >= 2 {
                            assert(first_single(types@, used@, slot, 1, 0) is None);
                        }
                    }
                    return Some(i);
                },
                None => {},
            }
            tier += 1;
        }
        None
    }
}

/// No register could be borrowed to patch the method.
#[derive(Debug, PartialEq, Eq, Structural)]
pub struct NoUsableRegister;

} // verus!
