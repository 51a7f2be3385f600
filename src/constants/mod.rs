use vstd::prelude::*;

use crate::buffer::{u16_at, Buffer};
use crate::error::{ClassReaderError, Result};
use crate::Read;

pub mod item;
pub mod method_handle;
pub mod pool;
pub mod records;

pub use item::{is_wide_tag, ConstItem};
pub use method_handle::{CPMethodHandleReferenceKind, ConstMethodHandle};

pub use records::{
    ConstClass, ConstDouble, ConstFieldRef, ConstFloat, ConstInteger, ConstInterfaceMethodRef,
    ConstInvokeDynamic, ConstLong, ConstMethodRef, ConstMethodType, ConstNameAndType, ConstString,
    ConstUtf8,
};

verus! {

/// A validated, zero-based position in the dense constant pool.
#[derive(Debug, Clone, Copy, PartialEq, Eq, Structural, Hash)]
pub struct ConstItemIdx {
    pub idx: u16,
}

impl ConstItemIdx {
    pub fn from_raw(idx: u16) -> (r: Self)
        ensures
            r.idx == idx,
    {
        ConstItemIdx { idx }
    }

    pub fn raw(&self) -> (r: u16)
        ensures
            r == self.idx,
    {
        self.idx
    }
}

/// How many ghost slots lie below on-disk slot `slot`, scanning the sorted
/// `ghosts` until the first one not below it; `None` where `slot` is itself a
/// ghost slot met by that scan.
pub open spec fn ghost_offset(slot: int, ghosts: Seq<u16>) -> Option<nat>
    decreases ghosts.len(),
{
    if ghosts.len() == 0 {
        Some(0)
    } else if ghosts[0] == slot {
        None
    } else if slot < ghosts[0] {
        Some(0)
    } else {
        match ghost_offset(slot, ghosts.drop_first()) {
            Some(k) => Some(k + 1),
            None => None,
        }
    }
}

/// The dense position that a raw 1-based on-disk reference stands for, in a
/// pool of `count` entries with ghost slots `ghosts`. A rejected reference is
/// reported with its raw value.
pub open spec fn resolve(raw: u16, count: u16, ghosts: Seq<u16>) -> Result<ConstItemIdx> {
    if raw == 0 {
        Err(ClassReaderError::InvalidConstantPoolIdx(0))
    } else {
        let slot = raw - 1;
        match ghost_offset(slot, ghosts) {
            None => Err(ClassReaderError::InvalidConstantPoolIdx(raw)),
            Some(k) => {
                let dense = slot - k;
                if dense >= count {
                    Err(ClassReaderError::InvalidConstantPoolIdx(raw))
                } else {
                    Ok(ConstItemIdx { idx: dense as u16 })
                }
            },
        }
    }
}

/// An optional reference: raw 0 means none.
pub open spec fn resolve_opt(raw: u16, count: u16, ghosts: Seq<u16>) -> Result<Option<ConstItemIdx>> {
    if raw == 0 {
        Ok(None)
    } else {
        match resolve(raw, count, ghosts) {
            Ok(i) => Ok(Some(i)),
            Err(e) => Err(e),
        }
    }
}

/// The reference stored at `pos`.
pub open spec fn ref_at(data: Seq<u8>, pos: int, count: u16, ghosts: Seq<u16>) -> Result<ConstItemIdx> {
    if pos + 2 > data.len() {
        Err(ClassReaderError::UnexpectedEndOfData)
    } else {
        resolve(u16_at(data, pos), count, ghosts)
    }
}

/// Where a single reference at `pos` ends.
pub open spec fn ref_end(data: Seq<u8>, pos: int, count: u16, ghosts: Seq<u16>) -> Result<int> {
    match ref_at(data, pos, count, ghosts) {
        Ok(_) => Ok(pos + 2),
        Err(e) => Err(e),
    }
}

/// Where two references in a row at `pos` end.
pub open spec fn two_refs_end(data: Seq<u8>, pos: int, count: u16, ghosts: Seq<u16>) -> Result<int> {
    match ref_at(data, pos, count, ghosts) {
        Ok(_) => ref_end(data, pos + 2, count, ghosts),
        Err(e) => Err(e),
    }
}

/// Ghost slots are kept in strictly increasing order.
pub open spec fn increasing(ghosts: Seq<u16>) -> bool {
    forall|i: int, j: int| 0 <= i < j < ghosts.len() ==> ghosts[i] < ghosts[j]
}

/// Maps a raw on-disk reference to a dense pool position.
pub fn dense_index(raw: u16, count: u16, ghosts: &[u16]) -> (r: Result<ConstItemIdx>)
    requires
        increasing(ghosts@),
    ensures
        r == resolve(raw, count, ghosts@),
{
    if raw == 0 {
        return Err(ClassReaderError::InvalidConstantPoolIdx(raw));
    }
    let slot = raw - 1;
    let mut offset: u16 = 0;
    let mut i: usize = 0;
    proof {
        assert(ghosts@.subrange(0, ghosts@.len() as int) =~= ghosts@);
        if let Some(k) = ghost_offset(slot as int, ghosts@) {
            assert(k == (k + 0) as nat);
        }
    }
    while i < ghosts.len() && ghosts[i] <= slot
        invariant
            increasing(ghosts@),
            raw != 0,
            slot == raw - 1,
            i <= ghosts@.len(),
            offset == i,
            offset <= slot,
            i > 0 ==> ghosts@[i - 1] >= i - 1,
            ghost_offset(slot as int, ghosts@) == match ghost_offset(slot as int, ghosts@.subrange(i as int, ghosts@.len() as int)) {
                Some(k) => Some((k + offset) as nat),
                None => None::<nat>,
            },
        decreases ghosts@.len() - i,
    {
        let g = ghosts[i];
        let ghost rest = ghosts@.subrange(i as int, ghosts@.len() as int);
        assert(rest.drop_first() =~= ghosts@.subrange(i + 1, ghosts@.len() as int));
        assert(i > 0 ==> ghosts@[i - 1] < g);
        assert(rest[0] == g);
        if slot == g {
            assert(ghost_offset(slot as int, rest) is None);
            return Err(ClassReaderError::InvalidConstantPoolIdx(raw));
        }
        offset = offset + 1;
        i = i + 1;
    }
    let dense = slot - offset;
    if dense >= count {
        Err(ClassReaderError::InvalidConstantPoolIdx(raw))
    } else {
        Ok(ConstItemIdx::from_raw(dense))
    }
}

impl Read for ConstItemIdx {
    open spec fn parse(data: Seq<u8>, pos: int, count: u16, ghosts: Seq<u16>) -> Result<int> {
        ref_end(data, pos, count, ghosts)
    }

    open spec fn parsed_as(&self, data: Seq<u8>, pos: int, count: u16, ghosts: Seq<u16>) -> bool {
        ref_at(data, pos, count, ghosts) == Ok::<ConstItemIdx, ClassReaderError>(*self)
    }

    proof fn lemma_end_any_pool(data: Seq<u8>, pos: int, c1: u16, g1: Seq<u16>, c2: u16, g2: Seq<u16>) {
    }

    proof fn lemma_cut(data: Seq<u8>, pos: int, count: u16, ghosts: Seq<u16>, len: int) {
    }

    fn read(buf: &mut Buffer, count: u16, ghosts: &[u16]) -> (r: Result<Self>)
        ensures
            old(buf).has(2) ==> final(buf).pos == old(buf).pos + 2,
            !old(buf).has(2) ==> final(buf).pos == old(buf).pos,
    {
        let ghost data = buf.data@;
        let ghost pos = buf.pos as int;
        match buf.read_u16() {
            Ok(raw) => {
                let r = dense_index(raw, count, ghosts);
                proof {
                    assert(ref_at(data, pos, count, ghosts@) == r);
                    if r is Ok {
                        assert(r->Ok_0.parsed_as(data, pos, count, ghosts@));
                    } else {
                        assert(Self::parse(data, pos, count, ghosts@) == Err::<int, ClassReaderError>(r->Err_0));
                    }
                }
                r
            },
            Err(e) => {
                assert(Self::parse(data, pos, count, ghosts@) == Err::<int, ClassReaderError>(e));
                Err(e)
            },
        }
    }
}

impl Read for Option<ConstItemIdx> {
    open spec fn parse(data: Seq<u8>, pos: int, count: u16, ghosts: Seq<u16>) -> Result<int> {
        if pos + 2 > data.len() {
            Err(ClassReaderError::UnexpectedEndOfData)
        } else {
            match resolve_opt(u16_at(data, pos), count, ghosts) {
                Ok(_) => Ok(pos + 2),
                Err(e) => Err(e),
            }
        }
    }

    open spec fn parsed_as(&self, data: Seq<u8>, pos: int, count: u16, ghosts: Seq<u16>) -> bool {
        pos + 2 <= data.len() && resolve_opt(u16_at(data, pos), count, ghosts) == Ok::<Option<ConstItemIdx>, ClassReaderError>(*self)
    }

    proof fn lemma_end_any_pool(data: Seq<u8>, pos: int, c1: u16, g1: Seq<u16>, c2: u16, g2: Seq<u16>) {
    }

    proof fn lemma_cut(data: Seq<u8>, pos: int, count: u16, ghosts: Seq<u16>, len: int) {
    }

    fn read(buf: &mut Buffer, count: u16, ghosts: &[u16]) -> (r: Result<Self>)
        ensures
            old(buf).has(2) ==> final(buf).pos == old(buf).pos + 2,
            !old(buf).has(2) ==> final(buf).pos == old(buf).pos,
    {
        let raw = buf.read_u16()?;
        if raw == 0 {
            return Ok(None);
        }
        let idx = dense_index(raw, count, ghosts)?;
        Ok(Some(idx))
    }
}

/// The count of ghost slots below a slot is at most the number of ghost slots.
pub proof fn lemma_ghost_offset_bounded(slot: int, ghosts: Seq<u16>)
    ensures
        ghost_offset(slot, ghosts) matches Some(k) ==> k <= ghosts.len(),
    decreases ghosts.len(),
{
    if ghosts.len() > 0 && ghosts[0] != slot && slot >= ghosts[0] {
        lemma_ghost_offset_bounded(slot, ghosts.drop_first());
    }
}

/// Raw reference 0 is an error where a reference is required and "none"
/// where it is optional.
pub proof fn lemma_zero_reference(count: u16, ghosts: Seq<u16>)
    ensures
        resolve(0, count, ghosts) == Err::<ConstItemIdx, ClassReaderError>(ClassReaderError::InvalidConstantPoolIdx(0)),
        resolve_opt(0, count, ghosts) == Ok::<Option<ConstItemIdx>, ClassReaderError>(None),
{
}

/// Without ghost slots, on-disk reference N names dense position N - 1, and
/// fails where that position is outside the pool.
pub proof fn lemma_no_ghosts(raw: u16, count: u16)
    requires
        raw >= 1,
    ensures
        raw - 1 < count ==> resolve(raw, count, Seq::empty()) == Ok::<ConstItemIdx, ClassReaderError>(ConstItemIdx { idx: (raw - 1) as u16 }),
        raw - 1 >= count ==> resolve(raw, count, Seq::empty()) is Err,
{
}

/// With the single ghost slot `k + 1` (a wide entry at on-disk slot `k`), a
/// reference to slot `k + 1` fails, slots up to `k` keep their number, and
/// slot `k + 1 + j` for `j >= 1` resolves to dense position `k + j` when
/// that lies in the pool.
pub proof fn lemma_one_wide_entry(k: u16, raw: u16, count: u16)
    requires
        k < 0xFFFF,
        raw >= 1,
    ensures
        ({
            let ghosts = seq![(k + 1) as u16];
            let slot = raw - 1;
            &&& slot == k + 1 ==> resolve(raw, count, ghosts) is Err
            &&& slot <= k && slot < count ==> resolve(raw, count, ghosts) == Ok::<ConstItemIdx, ClassReaderError>(ConstItemIdx { idx: slot as u16 })
            &&& slot > k + 1 && slot - 1 < count ==> resolve(raw, count, ghosts) == Ok::<ConstItemIdx, ClassReaderError>(ConstItemIdx { idx: (slot - 1) as u16 })
            &&& slot > k + 1 && slot - 1 >= count ==> resolve(raw, count, ghosts) is Err
        }),
{
    let ghosts = seq![(k + 1) as u16];
    let slot = raw - 1;
    assert(ghosts.drop_first() =~= Seq::<u16>::empty());
    assert(ghost_offset(slot, Seq::<u16>::empty()) == Some(0nat));
    if slot > k + 1 {
        assert(ghost_offset(slot, ghosts) == Some(1nat));
    }
}

} // verus!
