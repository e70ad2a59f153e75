//! The transposition table. Entries are a packed 64-bit payload (score
//! offset into 16 bits, depth, bound kind, best move) stored beside the
//! position's Zobrist key XORed with that payload. A reader recomputes the
//! XOR and treats any mismatch as a miss, so a torn pair of writes can never
//! be returned as a hit.

use vstd::prelude::*;
use crate::bits::lemma_xor_shuffle;
use crate::moves::Move;
use crate::zobrist::ZobristHash;

verus! {

pub type Eval = i64;

pub const TRANS_TABLE_SIZE: usize = 1000000;

#[derive(Copy, Clone, PartialEq, Eq, Structural, Debug)]
pub enum LockLessFlag {
    Alpha,
    Beta,
    Exact,
}

pub open spec fn spec_flag_code(flag: LockLessFlag) -> u64 {
    match flag {
        LockLessFlag::Alpha => 0u64,
        LockLessFlag::Beta => 1u64,
        LockLessFlag::Exact => 2u64,
    }
}

/// The packed payload: score+30000 in bits 0..16, depth in 16..22, the
/// bound kind in 23..25, the move in the 25 bits from 25 on.
#[derive(Copy, Clone, PartialEq, Eq, Structural, Debug)]
pub struct LockLessValue(pub u64);

/// Ranges of the decoded payload fields.
pub proof fn lemma_payload_ranges(v: u64)
    by (bit_vector)
    ensures
        (v & 0xFFFF) <= 65535,
        ((v >> 16) & 0x3F) < 64,
        ((v >> 23) & 0x3) < 4,
{
}

pub open spec fn spec_value_of(v: u64) -> int {
    (v & 0xFFFF) - 30000
}

pub open spec fn spec_depth_of(v: u64) -> u64 {
    (v >> 16) & 0x3F
}

pub open spec fn spec_flag_of(v: u64) -> u64 {
    (v >> 23) & 0x3
}

pub open spec fn spec_move_of(v: u64) -> u32 {
    (v >> 25) as u32
}

impl LockLessValue {
    /// Pack a search result. The packing is exact: each getter returns the
    /// field that went in.
    pub fn new(mv: Move, flag: LockLessFlag, value: Eval, depth: u8) -> (r: LockLessValue)
        requires
            -30000 <= value <= 30000,
            depth < 64,
            mv.0 < 0x2000000,
        ensures
            spec_value_of(r.0) == value,
            spec_depth_of(r.0) == depth,
            spec_flag_of(r.0) == spec_flag_code(flag),
            spec_move_of(r.0) == mv.0,
            mv.0 != 0 ==> r.0 != 0,
    {
        let offset: u64 = (value + 30000) as u64;
        let fl: u64 = match flag {
            LockLessFlag::Alpha => 0,
            LockLessFlag::Beta => 1,
            LockLessFlag::Exact => 2,
        };
        let packed = offset | ((depth as u64) << 16u64) | (fl << 23u64) | ((mv.0 as u64)
            << 25u64);
        proof {
            let m = mv.0 as u64;
            let d = depth as u64;
            assert((packed & 0xFFFF) == offset && ((packed >> 16) & 0x3F) == d && ((packed >> 23)
                & 0x3) == fl && (packed >> 25) == m && (m != 0 ==> packed != 0)) by (bit_vector)
                requires
                    packed == offset | (d << 16u64) | (fl << 23u64) | (m << 25u64),
                    offset <= 60000,
                    d < 64,
                    fl < 3,
                    m < 0x2000000,
            ;
        }
        LockLessValue(packed)
    }

    #[inline(always)]
    pub fn value(&self) -> (r: Eval)
        ensures
            r == spec_value_of(self.0),
            -30000 <= r <= 35535,
    {
        let v = self.0;
        proof {
            lemma_payload_ranges(v);
        }
        ((v & 0xFFFF) as i64) - 30000
    }

    #[inline(always)]
    pub fn depth(&self) -> (r: u8)
        ensures
            r == spec_depth_of(self.0),
            r < 64,
    {
        let v = self.0;
        proof {
            lemma_payload_ranges(v);
        }
        ((v >> 16u64) & 0x3F) as u8
    }

    #[inline(always)]
    pub fn flag(&self) -> (r: LockLessFlag)
        ensures
            spec_flag_code(r) == spec_flag_of(self.0) || (spec_flag_of(self.0) == 3 && r
                == LockLessFlag::Exact),
    {
        let v = self.0;
        proof {
            lemma_payload_ranges(v);
        }
        let code = (v >> 23u64) & 0x3;
        if code == 0 {
            LockLessFlag::Alpha
        } else if code == 1 {
            LockLessFlag::Beta
        } else {
            LockLessFlag::Exact
        }
    }

    #[inline(always)]
    pub fn best_move(&self) -> (r: Move)
        ensures
            r.0 == spec_move_of(self.0),
    {
        let v = self.0;
        Move(#[verifier::truncate] ((v >> 25u64) as u32))
    }
}

/// Fixed-size cache of search results addressed by `zobrist mod size`.
pub struct LockLessTransTable {
    pub keys: Vec<u64>,
    pub values: Vec<u64>,
    pub ages: Vec<u8>,
    pub current_age: u8,
}

impl LockLessTransTable {
    pub open spec fn wf(self) -> bool {
        &&& self.keys@.len() == TRANS_TABLE_SIZE
        &&& self.values@.len() == TRANS_TABLE_SIZE
        &&& self.ages@.len() == TRANS_TABLE_SIZE
    }

    pub open spec fn slot_of(key: ZobristHash) -> int {
        key.0 as int % (TRANS_TABLE_SIZE as int)
    }

    /// What a probe of `key` answers.
    pub open spec fn probe_spec(self, key: ZobristHash) -> Option<LockLessValue> {
        let i = Self::slot_of(key);
        if self.values@[i] != 0 && (self.keys@[i] ^ self.values@[i]) == key.0 {
            Some(LockLessValue(self.values@[i]))
        } else {
            None
        }
    }

    pub fn new() -> (r: LockLessTransTable)
        ensures
            r.wf(),
            r.current_age == 0,
            forall|i: int| 0 <= i < TRANS_TABLE_SIZE ==> r.values@[i] == 0,
    {
        let mut keys: Vec<u64> = Vec::new();
        let mut values: Vec<u64> = Vec::new();
        let mut ages: Vec<u8> = Vec::new();
        let mut i: usize = 0;
        while i < TRANS_TABLE_SIZE
            invariant
                i <= TRANS_TABLE_SIZE,
                keys@.len() == i,
                values@.len() == i,
                ages@.len() == i,
                forall|j: int| 0 <= j < i ==> values@[j] == 0,
            decreases TRANS_TABLE_SIZE - i,
        {
            keys.push(0);
            values.push(0);
            ages.push(0);
            i = i + 1;
        }
        LockLessTransTable { keys, values, ages, current_age: 0 }
    }

    /// Store an entry, replacing when the slot is empty, stale, or filled at
    /// no greater depth. The stored key is the Zobrist XOR the payload.
    pub fn insert(&mut self, key: ZobristHash, value: LockLessValue)
        requires
            old(self).wf(),
        ensures
            final(self).wf(),
            final(self).current_age == old(self).current_age,
            ({
                let i = Self::slot_of(key);
                if old(self).keys@[i] == 0 || old(self).ages@[i] < old(self).current_age
                    || spec_depth_of(old(self).values@[i]) <= spec_depth_of(value.0) {
                    final(self).keys@ == old(self).keys@.update(i, key.0 ^ value.0)
                        && final(self).values@ == old(self).values@.update(i, value.0)
                        && final(self).ages@ == old(self).ages@.update(i, old(self).current_age)
                } else {
                    final(self).keys@ == old(self).keys@
                        && final(self).values@ == old(self).values@
                        && final(self).ages@ == old(self).ages@
                }
            }),
    {
        let index = (key.0 % (TRANS_TABLE_SIZE as u64)) as usize;
        let old_value = LockLessValue(self.values[index]);
        if self.keys[index] == 0 || self.ages[index] < self.current_age || old_value.depth()
            <= value.depth() {
            self.keys[index] = key.0 ^ value.0;
            self.values[index] = value.0;
            let age = self.current_age;
            self.ages[index] = age;
        }
    }

    /// Probe for `key`: answer only a slot whose stored key XOR payload
    /// recovers the probed Zobrist.
    pub fn get(&self, key: ZobristHash) -> (r: Option<LockLessValue>)
        requires
            self.wf(),
        ensures
            r == self.probe_spec(key),
    {
        let index = (key.0 % (TRANS_TABLE_SIZE as u64)) as usize;
        if self.values[index] != 0 && (self.keys[index] ^ self.values[index]) == key.0 {
            Some(LockLessValue(self.values[index]))
        } else {
            None
        }
    }

    /// Zero every slot.
    pub fn clear(&mut self)
        requires
            old(self).wf(),
        ensures
            final(self).wf(),
            final(self).current_age == 0,
            forall|i: int|
                0 <= i < TRANS_TABLE_SIZE ==> final(self).values@[i] == 0 && final(self).keys@[i]
                    == 0 && final(self).ages@[i] == 0,
            forall|z: ZobristHash| final(self).probe_spec(z) is None,
    {
        let mut i: usize = 0;
        while i < TRANS_TABLE_SIZE
            invariant
                self.wf(),
                i <= TRANS_TABLE_SIZE,
                forall|j: int|
                    0 <= j < i ==> self.values@[j] == 0 && self.keys@[j] == 0 && self.ages@[j]
                        == 0,
            decreases TRANS_TABLE_SIZE - i,
        {
            self.keys[i] = 0;
            self.values[i] = 0;
            self.ages[i] = 0;
            i = i + 1;
        }
        self.current_age = 0;
    }

    /// Older entries become replaceable on the next write.
    pub fn advance_age(&mut self)
        requires
            old(self).wf(),
        ensures
            final(self).wf(),
            final(self).current_age as int == if old(self).current_age == 255 {
                0int
            } else {
                old(self).current_age + 1
            },
            final(self).keys@ == old(self).keys@,
            final(self).values@ == old(self).values@,
            final(self).ages@ == old(self).ages@,
    {
        if self.current_age == 255 {
            self.current_age = 0;
        } else {
            self.current_age = self.current_age + 1;
        }
    }
}

/// THE STORE/PROBE ROUND TRIP: inserting an entry whose slot the policy
/// lets it take, and probing the same Zobrist with no write in between,
/// returns exactly that entry.
pub proof fn lemma_insert_then_probe(
    t1: LockLessTransTable,
    t2: LockLessTransTable,
    key: ZobristHash,
    value: LockLessValue,
)
    requires
        t1.wf(),
        value.0 != 0,
        ({
            let i = LockLessTransTable::slot_of(key);
            t1.keys@[i] == 0 || t1.ages@[i] < t1.current_age || spec_depth_of(t1.values@[i])
                <= spec_depth_of(value.0)
        }),
        ({
            let i = LockLessTransTable::slot_of(key);
            t2.keys@ == t1.keys@.update(i, key.0 ^ value.0) && t2.values@ == t1.values@.update(
                i,
                value.0,
            )
        }),
        t2.wf(),
    ensures
        t2.probe_spec(key) == Some(value),
{
    let i = LockLessTransTable::slot_of(key);
    lemma_xor_shuffle(key.0, value.0, value.0);
    assert((key.0 ^ value.0) ^ value.0 == key.0);
}

} // verus!
