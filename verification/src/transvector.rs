//! Transvectors and the fixed-size registry ("fabric") that holds them.
use vstd::prelude::*;
use crate::quad::{QuadReg, quad_bits, merge_bits};

verus! {

/// Number of slots in the registry.
pub const REGISTRY_SLOTS: usize = 16;

#[derive(Copy, Clone)]
pub struct Transvector {
    pub id: u64,
    pub state: QuadReg,
    pub phys_addr: u64,
}

/// A merge rule: merge the states of `a` and `b` and write the result to `out`.
#[derive(Copy, Clone)]
pub struct Rule {
    pub a: u64,
    pub b: u64,
    pub out: u64,
}

/// The registry of transvectors: sixteen slots, filled from the front.
pub struct Registry {
    pub slots: [Option<Transvector>; 16],
}

impl Transvector {
    pub fn write(&mut self, new_state: QuadReg)
        ensures
            *final(self) == (Transvector { state: new_state, ..*old(self) }),
    {
        self.state = new_state;
    }
}

/// The register value that a raw injection code selects.
pub open spec fn spec_state_of_raw(raw: u64) -> u8 {
    if raw == 1 { 2 } else if raw == 2 { 1 } else if raw == 3 { 3 } else { 0 }
}

/// Physical address assigned to a transvector id (with 64-bit wrap-around).
pub open spec fn spec_phys_addr(id: u64) -> u64 {
    id.wrapping_mul(0x100).wrapping_add(0x1000)
}

pub fn quad_of_raw(raw: u64) -> (q: QuadReg)
    ensures
        quad_bits(q) == spec_state_of_raw(raw),
        q == QuadReg::of(spec_state_of_raw(raw)),
{
    match raw {
        0 => QuadReg::n(),
        1 => QuadReg::t(),
        2 => QuadReg::f(),
        3 => QuadReg::s(),
        _ => QuadReg::n(),
    }
}

pub fn inject(id: u64, raw: u64) -> (tv: Transvector)
    ensures
        tv.id == id,
        quad_bits(tv.state) == spec_state_of_raw(raw),
        tv.phys_addr == spec_phys_addr(id),
        tv.state == QuadReg::of(spec_state_of_raw(raw)),
{
    let state = quad_of_raw(raw);
    let phys_addr = id.wrapping_mul(0x100).wrapping_add(0x1000);
    Transvector { id, state, phys_addr }
}

/// Whether a slot holds the transvector with the given id.
pub open spec fn holds_id(slot: Option<Transvector>, id: u64) -> bool {
    match slot {
        Some(tv) => tv.id == id,
        None => false,
    }
}

/// Index of the first slot at or after `i` holding `id`, or -1.
pub open spec fn first_with_id(slots: Seq<Option<Transvector>>, id: u64, i: nat) -> int
    decreases slots.len() - i,
{
    if i >= slots.len() {
        -1
    } else if holds_id(slots[i as int], id) {
        i as int
    } else {
        first_with_id(slots, id, i + 1)
    }
}

/// Index of the last slot before `n` holding `id`, or -1.
pub open spec fn last_with_id(slots: Seq<Option<Transvector>>, id: u64, n: nat) -> int
    decreases n,
{
    if n == 0 || n > slots.len() {
        -1
    } else if holds_id(slots[n - 1], id) {
        n - 1
    } else {
        last_with_id(slots, id, (n - 1) as nat)
    }
}

/// Index of the first empty slot at or after `i`, or -1.
pub open spec fn first_free(slots: Seq<Option<Transvector>>, i: nat) -> int
    decreases slots.len() - i,
{
    if i >= slots.len() {
        -1
    } else if slots[i as int] is None {
        i as int
    } else {
        first_free(slots, i + 1)
    }
}

/// The first slot from `i` holding `id`, if any, and no earlier one holds it.
pub proof fn lemma_first_with_id(slots: Seq<Option<Transvector>>, id: u64, i: nat)
    ensures
        first_with_id(slots, id, i) == -1 ==> forall|j: int| i <= j < slots.len() ==> !holds_id(#[trigger] slots[j], id),
        first_with_id(slots, id, i) != -1 ==> {
            let r = first_with_id(slots, id, i);
            &&& i <= r < slots.len()
            &&& holds_id(slots[r], id)
            &&& forall|j: int| i <= j < r ==> !holds_id(#[trigger] slots[j], id)
        },
    decreases slots.len() - i,
{
    if i < slots.len() {
        lemma_first_with_id(slots, id, i + 1);
    }
}

/// The last slot before `n` holding `id`, if any, and no later one holds it.
pub proof fn lemma_last_with_id(slots: Seq<Option<Transvector>>, id: u64, n: nat)
    requires
        n <= slots.len(),
    ensures
        last_with_id(slots, id, n) == -1 ==> forall|j: int| 0 <= j < n ==> !holds_id(#[trigger] slots[j], id),
        last_with_id(slots, id, n) != -1 ==> {
            let r = last_with_id(slots, id, n);
            &&& 0 <= r < n
            &&& holds_id(slots[r], id)
            &&& forall|j: int| r < j < n ==> !holds_id(#[trigger] slots[j], id)
        },
    decreases n,
{
    if n > 0 {
        lemma_last_with_id(slots, id, (n - 1) as nat);
    }
}

/// The first free slot from `i`, if any, and every earlier one is taken.
pub proof fn lemma_first_free(slots: Seq<Option<Transvector>>, i: nat)
    ensures
        first_free(slots, i) == -1 ==> forall|j: int| i <= j < slots.len() ==> (#[trigger] slots[j]) is Some,
        first_free(slots, i) != -1 ==> {
            let r = first_free(slots, i);
            &&& i <= r < slots.len()
            &&& slots[r] is None
            &&& forall|j: int| i <= j < r ==> (#[trigger] slots[j]) is Some
        },
    decreases slots.len() - i,
{
    if i < slots.len() {
        lemma_first_free(slots, i + 1);
    }
}

/// What reading `id` gives: the first transvector with that id.
pub open spec fn spec_read(slots: Seq<Option<Transvector>>, id: u64) -> Option<Transvector> {
    let r = first_with_id(slots, id, 0);
    if r == -1 { None } else { slots[r] }
}

/// The slots after writing `new_state` to the first transvector with `id`.
pub open spec fn spec_write(slots: Seq<Option<Transvector>>, id: u64, new_state: QuadReg) -> Seq<Option<Transvector>> {
    let r = first_with_id(slots, id, 0);
    if r == -1 {
        slots
    } else {
        slots.update(r, Some(Transvector { state: new_state, ..slots[r]->0 }))
    }
}

/// The slots after registering `tv` in the first empty slot.
pub open spec fn spec_register(slots: Seq<Option<Transvector>>, tv: Transvector) -> Seq<Option<Transvector>> {
    let r = first_free(slots, 0);
    if r == -1 { slots } else { slots.update(r, Some(tv)) }
}

/// The state of the last transvector holding `id`, if any.
pub open spec fn spec_last_state(slots: Seq<Option<Transvector>>, id: u64) -> Option<QuadReg> {
    let r = last_with_id(slots, id, slots.len());
    if r == -1 { None } else { Some(slots[r]->0.state) }
}

/// The merge of the registered states of `a` and `b` (each taken from its
/// last slot), or `None` when either id is missing.
pub open spec fn spec_merge(slots: Seq<Option<Transvector>>, a: u64, b: u64) -> Option<QuadReg> {
    match (spec_last_state(slots, a), spec_last_state(slots, b)) {
        (Some(x), Some(y)) => Some(QuadReg::spec_merge(x, y)),
        _ => None,
    }
}

/// The fabric's rules, in order.
pub open spec fn spec_rule(i: int) -> Rule {
    if i == 0 { Rule { a: 1, b: 2, out: 1 } } else { Rule { a: 2, b: 1, out: 2 } }
}

pub const RULE_COUNT: usize = 2;

pub fn rule(i: usize) -> (r: Rule)
    requires
        i < RULE_COUNT,
    ensures
        r == spec_rule(i as int),
{
    if i == 0 {
        Rule { a: 1, b: 2, out: 1 }
    } else {
        Rule { a: 2, b: 1, out: 2 }
    }
}

impl Registry {
    pub fn new() -> (r: Self)
        ensures
            forall|i: int| 0 <= i < REGISTRY_SLOTS ==> (#[trigger] r.slots@[i]) is None,
    {
        Registry { slots: [None; 16] }
    }
}

pub fn register(reg: &mut Registry, tv: Transvector) -> (ok: bool)
    ensures
        ok == (first_free(old(reg).slots@, 0) != -1),
        final(reg).slots@ == spec_register(old(reg).slots@, tv),
{
    proof { lemma_first_free(reg.slots@, 0); }
    let mut i: usize = 0;
    while i < 16
        invariant
            i <= 16,
            reg.slots@ == old(reg).slots@,
            forall|j: int| 0 <= j < i ==> (#[trigger] reg.slots@[j]) is Some,
        decreases 16 - i,
    {
        if reg.slots[i].is_none() {
            reg.slots[i] = Some(tv);
            proof {
                lemma_first_free(old(reg).slots@, 0);
            }
            return true;
        }
        i += 1;
    }
    false
}

pub fn write_by_id(reg: &mut Registry, id: u64, new_state: QuadReg) -> (ok: bool)
    ensures
        ok == (first_with_id(old(reg).slots@, id, 0) != -1),
        final(reg).slots@ == spec_write(old(reg).slots@, id, new_state),
{
    proof { lemma_first_with_id(reg.slots@, id, 0); }
    let mut i: usize = 0;
    while i < 16
        invariant
            i <= 16,
            reg.slots@ == old(reg).slots@,
            forall|j: int| 0 <= j < i ==> !holds_id(#[trigger] reg.slots@[j], id),
        decreases 16 - i,
    {
        match reg.slots[i] {
            Some(tv) => {
                if tv.id == id {
                    proof {
                        lemma_first_with_id(old(reg).slots@, id, 0);
                        assert(holds_id(old(reg).slots@[i as int], id));
                    }
                    let mut t = tv;
                    t.write(new_state);
                    reg.slots[i] = Some(t);
                    return true;
                }
            },
            None => {},
        }
        i += 1;
    }
    false
}

pub fn read_by_id(reg: &Registry, id: u64) -> (r: Option<Transvector>)
    ensures
        r == spec_read(reg.slots@, id),
{
    proof { lemma_first_with_id(reg.slots@, id, 0); }
    let mut i: usize = 0;
    while i < 16
        invariant
            i <= 16,
            forall|j: int| 0 <= j < i ==> !holds_id(#[trigger] reg.slots@[j], id),
        decreases 16 - i,
    {
        match reg.slots[i] {
            Some(tv) => {
                if tv.id == id {
                    proof {
                        lemma_first_with_id(reg.slots@, id, 0);
                        assert(holds_id(reg.slots@[i as int], id));
                    }
                    return Some(tv);
                }
            },
            None => {},
        }
        i += 1;
    }
    None
}

pub fn merge_by_id(reg: &Registry, a: u64, b: u64) -> (r: Option<QuadReg>)
    ensures
        r == spec_merge(reg.slots@, a, b),
{
    let mut left: Option<QuadReg> = None;
    let mut right: Option<QuadReg> = None;
    let mut i: usize = 0;
    while i < 16
        invariant
            i <= 16,
            reg.slots@.len() == 16,
            left == (if last_with_id(reg.slots@, a, i as nat) == -1 { None::<QuadReg> } else {
                Some(reg.slots@[last_with_id(reg.slots@, a, i as nat)]->0.state) }),
            right == (if last_with_id(reg.slots@, b, i as nat) == -1 { None::<QuadReg> } else {
                Some(reg.slots@[last_with_id(reg.slots@, b, i as nat)]->0.state) }),
        decreases 16 - i,
    {
        match reg.slots[i] {
            Some(tv) => {
                if tv.id == a {
                    left = Some(tv.state);
                }
                if tv.id == b {
                    right = Some(tv.state);
                }
            },
            None => {},
        }
        i += 1;
    }
    match (left, right) {
        (Some(x), Some(y)) => Some(x.merge(y)),
        _ => None,
    }
}

/// The slots after one application of rule `r`, and whether it applied.
pub open spec fn spec_apply_rule(slots: Seq<Option<Transvector>>, r: Rule) -> (Seq<Option<Transvector>>, bool) {
    match spec_merge(slots, r.a, r.b) {
        Some(m) => (spec_write(slots, r.out, m), first_with_id(slots, r.out, 0) != -1),
        None => (slots, false),
    }
}

/// The slots and applied count after the first `n` rules.
pub open spec fn spec_fabric(slots: Seq<Option<Transvector>>, n: nat) -> (Seq<Option<Transvector>>, nat)
    decreases n,
{
    if n == 0 {
        (slots, 0)
    } else {
        let (s1, k) = spec_fabric(slots, (n - 1) as nat);
        let (s2, ok) = spec_apply_rule(s1, spec_rule(n - 1));
        (s2, if ok { k + 1 } else { k })
    }
}

/// Applies each merge rule once, in order; returns how many were applied.
pub fn fabric_step(reg: &mut Registry) -> (applied: u32)
    ensures
        final(reg).slots@ == spec_fabric(old(reg).slots@, RULE_COUNT as nat).0,
        applied == spec_fabric(old(reg).slots@, RULE_COUNT as nat).1,
{
    let mut applied: u32 = 0;
    let mut i: usize = 0;
    while i < RULE_COUNT
        invariant
            i <= RULE_COUNT,
            reg.slots@ == spec_fabric(old(reg).slots@, i as nat).0,
            applied == spec_fabric(old(reg).slots@, i as nat).1,
            applied <= i,
        decreases RULE_COUNT - i,
    {
        let r = rule(i);
        if let Some(merged) = merge_by_id(reg, r.a, r.b) {
            if write_by_id(reg, r.out, merged) {
                applied += 1;
            }
        }
        i += 1;
    }
    applied
}

/// Reading an id after writing it gives the written state (the write goes
/// to the same slot that the read looks at).
pub proof fn lemma_read_after_write(slots: Seq<Option<Transvector>>, id: u64, st: QuadReg)
    requires
        spec_read(slots, id) is Some,
    ensures
        spec_read(spec_write(slots, id, st), id) == Some(Transvector { state: st, ..spec_read(slots, id)->0 }),
{
    let w = spec_write(slots, id, st);
    lemma_first_with_id(slots, id, 0);
    lemma_first_with_id(w, id, 0);
    let r = first_with_id(slots, id, 0);
    let r2 = first_with_id(w, id, 0);
    assert(holds_id(w[r], id));
    if r2 != -1 && r2 < r {
        assert(w[r2] == slots[r2]);
    }
}

/// Writing one id leaves what every other id reads unchanged.
pub proof fn lemma_write_other_id(slots: Seq<Option<Transvector>>, id: u64, st: QuadReg, other: u64)
    requires
        other != id,
    ensures
        spec_read(spec_write(slots, id, st), other) == spec_read(slots, other),
{
    let w = spec_write(slots, id, st);
    lemma_first_with_id(slots, id, 0);
    lemma_first_with_id(slots, other, 0);
    lemma_first_with_id(w, other, 0);
    let r = first_with_id(slots, id, 0);
    let a = first_with_id(slots, other, 0);
    let b = first_with_id(w, other, 0);
    if r != -1 {
        assert(w.len() == slots.len());
        assert(forall|j: int| 0 <= j < slots.len() ==> holds_id(#[trigger] w[j], other) == holds_id(slots[j], other));
        if a != -1 {
            assert(holds_id(w[a], other));
            assert(b == a);
            assert(w[a] == slots[a]);
        } else {
            assert(b == -1);
        }
    }
}

/// Registering a transvector whose id is not yet present, while a slot is
/// free, makes it readable by its id.
pub proof fn lemma_read_after_register(slots: Seq<Option<Transvector>>, tv: Transvector)
    requires
        spec_read(slots, tv.id) is None,
        first_free(slots, 0) != -1,
    ensures
        spec_read(spec_register(slots, tv), tv.id) == Some(tv),
{
    let w = spec_register(slots, tv);
    lemma_first_free(slots, 0);
    lemma_first_with_id(slots, tv.id, 0);
    lemma_first_with_id(w, tv.id, 0);
    let f = first_free(slots, 0);
    assert(holds_id(w[f], tv.id));
    let b = first_with_id(w, tv.id, 0);
    if b != f {
        assert(w[b] == slots[b]);
    }
}

} // verus!
