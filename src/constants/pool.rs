use vstd::prelude::*;

use super::{ghost_offset, increasing, is_wide_tag, lemma_ghost_offset_bounded, resolve, ConstItem, ConstItemIdx};
use crate::buffer::u16_at;
use crate::error::{ClassReaderError, Result};
use crate::{lemma_many_cut, many_end, Read};

verus! {

/// The discovery pass: walks on-disk slots `slot..total` from byte `pos`,
/// decoding each entry against the raw slot count and no ghost slots. A wide
/// entry takes two slots and reserves the second as a ghost slot. Yields the
/// number of entries and the ghost slots.
pub open spec fn scan(
    data: Seq<u8>,
    pos: int,
    slot: int,
    total: u16,
    dense: nat,
    ghosts: Seq<u16>,
) -> Result<(nat, Seq<u16>)>
    decreases if slot >= total { 0 } else { total - slot },
{
    if slot >= total {
        Ok((dense, ghosts))
    } else {
        match ConstItem::parse(data, pos, total, Seq::empty()) {
            Err(e) => Err(e),
            Ok(end) => if is_wide_tag(data[pos]) {
                scan(data, end, slot + 2, total, dense + 1, ghosts.push((slot + 1) as u16))
            } else {
                scan(data, end, slot + 1, total, dense + 1, ghosts)
            },
        }
    }
}

/// The constant pool whose count field stands at `pos`: the number of
/// entries, the ghost slots, and where the pool ends.
#[verifier::opaque]
pub open spec fn pool_at(data: Seq<u8>, pos: int) -> Result<(nat, Seq<u16>, int)> {
    if pos + 2 > data.len() {
        Err(ClassReaderError::UnexpectedEndOfData)
    } else if u16_at(data, pos) == 0 {
        Err(ClassReaderError::InvalidConstantPoolIdx(0))
    } else {
        let total = (u16_at(data, pos) - 1) as u16;
        match scan(data, pos + 2, 0, total, 0, Seq::empty()) {
            Err(e) => Err(e),
            Ok((n, ghosts)) => match many_end::<ConstItem>(data, pos + 2, n, n as u16, ghosts) {
                Err(e) => Err(e),
                Ok(end) => Ok((n, ghosts, end)),
            },
        }
    }
}

/// Whether every entry that the discovery pass meets from `pos` on is narrow.
pub open spec fn narrow_walk(data: Seq<u8>, pos: int, slot: int, total: u16) -> bool
    decreases if slot >= total { 0 } else { total - slot },
{
    slot >= total || match ConstItem::parse(data, pos, total, Seq::empty()) {
        Ok(end) => !is_wide_tag(data[pos]) && narrow_walk(data, end, slot + 1, total),
        Err(_) => true,
    }
}

/// What the discovery pass yields: strictly increasing ghost slots, each
/// within the on-disk numbering, and one entry for every on-disk slot but
/// the ghost ones.
pub proof fn lemma_scan_shape(data: Seq<u8>, pos: int, slot: int, total: u16, dense: nat, ghosts: Seq<u16>)
    requires
        0 <= slot <= total + 1,
        slot == total + 1 ==> ghosts.len() >= 1 && ghosts.last() == total,
        dense + ghosts.len() == slot,
        increasing(ghosts),
        forall|j: int| 0 <= j < ghosts.len() ==> ghosts[j] < slot,
    ensures
        scan(data, pos, slot, total, dense, ghosts) matches Ok((n, g)) ==> {
            &&& increasing(g)
            &&& total <= n + g.len() <= total + 1
            &&& n <= total
            &&& forall|j: int| 0 <= j < g.len() ==> g[j] <= total
            &&& n + g.len() == total + 1 ==> g.len() >= 1 && g.last() == total
        },
    decreases if slot >= total { 0 } else { total - slot },
{
    if slot < total {
        if let Ok(end) = ConstItem::parse(data, pos, total, Seq::empty()) {
            if is_wide_tag(data[pos]) {
                let g2 = ghosts.push((slot + 1) as u16);
                assert forall|i: int, j: int| 0 <= i < j < g2.len() implies g2[i] < g2[j] by {
                    if j < ghosts.len() {
                        assert(ghosts[i] < ghosts[j]);
                    }
                }
                lemma_scan_shape(data, end, slot + 2, total, dense + 1, g2);
            } else {
                lemma_scan_shape(data, end, slot + 1, total, dense + 1, ghosts);
            }
        }
    }
}

/// A discovery pass that meets no wide entry adds no ghost slot and one
/// entry per on-disk slot.
pub proof fn lemma_scan_narrow(data: Seq<u8>, pos: int, slot: int, total: u16, dense: nat, ghosts: Seq<u16>)
    requires
        0 <= slot <= total,
        narrow_walk(data, pos, slot, total),
    ensures
        scan(data, pos, slot, total, dense, ghosts) matches Ok((n, g)) ==> g == ghosts && n == dense + total - slot,
    decreases total - slot,
{
    if slot < total {
        if let Ok(end) = ConstItem::parse(data, pos, total, Seq::empty()) {
            lemma_scan_narrow(data, end, slot + 1, total, dense + 1, ghosts);
        }
    }
}

/// A pool decoded from `pos` keeps its ghost slots in increasing order,
/// within the on-disk numbering, beside at most as many entries as its
/// declared count.
pub proof fn lemma_pool_shape(data: Seq<u8>, pos: int)
    ensures
        pool_at(data, pos) matches Ok((n, g, _)) ==> {
            &&& increasing(g)
            &&& n + g.len() <= u16_at(data, pos)
            &&& n < u16_at(data, pos)
            &&& n + g.len() + 1 >= u16_at(data, pos)
            &&& n + g.len() == u16_at(data, pos) ==> g.len() >= 1 && g.last() == u16_at(data, pos) - 1
        },
{
    reveal(pool_at);
    if pos + 2 <= data.len() && u16_at(data, pos) != 0 {
        let total = (u16_at(data, pos) - 1) as u16;
        lemma_scan_shape(data, pos + 2, 0, total, 0, Seq::empty());
    }
}

/// When the discovery pass meets only narrow entries and decodes them all,
/// the second pass decodes the same entries the same way.
pub proof fn lemma_narrow_entries_decode(data: Seq<u8>, pos: int, slot: int, total: u16, dense: nat, ghosts: Seq<u16>)
    requires
        0 <= slot <= total,
        narrow_walk(data, pos, slot, total),
        scan(data, pos, slot, total, dense, ghosts) is Ok,
    ensures
        many_end::<ConstItem>(data, pos, (total - slot) as nat, total, Seq::empty()) is Ok,
    decreases total - slot,
{
    if slot < total {
        let end = ConstItem::parse(data, pos, total, Seq::empty())->Ok_0;
        lemma_narrow_entries_decode(data, end, slot + 1, total, dense + 1, ghosts);
    }
}

/// A pool of N - 1 narrow entries that all decode (N being its declared
/// count) decodes with no ghost slots and N - 1 entries, and on-disk
/// reference r names dense position r - 1 for every r from 1 to N - 1.
pub proof fn lemma_narrow_pool(data: Seq<u8>, pos: int, raw: u16)
    requires
        pos + 2 <= data.len(),
        u16_at(data, pos) >= 1,
        narrow_walk(data, pos + 2, 0, (u16_at(data, pos) - 1) as u16),
        scan(data, pos + 2, 0, (u16_at(data, pos) - 1) as u16, 0, Seq::empty()) is Ok,
    ensures
        pool_at(data, pos) is Ok,
        pool_at(data, pos) matches Ok((n, g, _)) ==> {
            &&& g.len() == 0
            &&& n == u16_at(data, pos) - 1
            &&& 1 <= raw <= n ==> resolve(raw, n as u16, g) == Ok::<ConstItemIdx, ClassReaderError>(ConstItemIdx { idx: (raw - 1) as u16 })
        },
{
    reveal(pool_at);
    let total = (u16_at(data, pos) - 1) as u16;
    lemma_scan_narrow(data, pos + 2, 0, total, 0, Seq::empty());
    lemma_narrow_entries_decode(data, pos + 2, 0, total, 0, Seq::empty());
}

/// A reference whose raw value reaches the pool's declared count fails,
/// whatever the ghost slots.
pub proof fn lemma_beyond_declared_count(data: Seq<u8>, pos: int, raw: u16)
    requires
        pos + 2 <= data.len(),
        raw >= u16_at(data, pos),
    ensures
        pool_at(data, pos) matches Ok((n, g, _)) ==> resolve(raw, n as u16, g) is Err,
{
    reveal(pool_at);
    lemma_pool_shape(data, pos);
    if let Ok((n, g, _)) = pool_at(data, pos) {
        lemma_ghost_offset_bounded(raw - 1, g);
        if n + g.len() == u16_at(data, pos) && raw - 1 == g.last() {
            lemma_listed_ghost_rejected(raw - 1, g, g.len() - 1);
        }
    }
}

/// A slot listed among increasing ghost slots is always rejected.
pub proof fn lemma_listed_ghost_rejected(slot: int, ghosts: Seq<u16>, j: int)
    requires
        increasing(ghosts),
        0 <= j < ghosts.len(),
        ghosts[j] == slot,
    ensures
        ghost_offset(slot, ghosts) is None,
    decreases j,
{
    if j > 0 {
        let rest = ghosts.drop_first();
        assert(ghosts[0] < ghosts[j]);
        assert(rest[j - 1] == slot);
        lemma_listed_ghost_rejected(slot, rest, j - 1);
    }
}

/// When the discovery pass reaches a wide entry at on-disk slot `k` with no
/// ghost slot so far, and meets only narrow entries after it, the ghost set
/// is exactly `{k + 1}` and every slot but that one holds an entry.
pub proof fn lemma_one_wide_walk(data: Seq<u8>, pos: int, k: int, total: u16)
    requires
        0 <= k < total,
        ConstItem::parse(data, pos, total, Seq::empty()) is Ok,
        is_wide_tag(data[pos]),
        narrow_walk(data, ConstItem::parse(data, pos, total, Seq::empty())->Ok_0, k + 2, total),
    ensures
        scan(data, pos, k, total, k as nat, Seq::empty()) matches Ok((n, g)) ==> {
            &&& g == seq![(k + 1) as u16]
            &&& n == total - 1 || (k + 1 == total && n == total)
        },
{
    let end = ConstItem::parse(data, pos, total, Seq::empty())->Ok_0;
    let g = Seq::<u16>::empty().push((k + 1) as u16);
    assert(g =~= seq![(k + 1) as u16]);
    if k + 2 <= total {
        lemma_scan_narrow(data, end, k + 2, total, (k + 1) as nat, g);
    }
}

/// Each on-disk slot that the discovery pass walks adds at least one entry.
pub proof fn lemma_scan_count(data: Seq<u8>, pos: int, slot: int, total: u16, dense: nat, ghosts: Seq<u16>)
    ensures
        scan(data, pos, slot, total, dense, ghosts) matches Ok((n, _)) ==> n >= dense && (slot < total ==> n > dense),
    decreases if slot >= total { 0 } else { total - slot },
{
    if slot < total {
        if let Ok(end) = ConstItem::parse(data, pos, total, Seq::empty()) {
            if is_wide_tag(data[pos]) {
                lemma_scan_count(data, end, slot + 2, total, dense + 1, ghosts.push((slot + 1) as u16));
            } else {
                lemma_scan_count(data, end, slot + 1, total, dense + 1, ghosts);
            }
        }
    }
}

/// The discovery pass over the first `len` bytes of the input: the same as
/// over the whole input, or "premature end of input"; the same wherever the
/// entries it walks lie within the cut.
pub proof fn lemma_scan_cut(
    data: Seq<u8>,
    pos: int,
    slot: int,
    total: u16,
    dense: nat,
    ghosts: Seq<u16>,
    len: int,
    count: u16,
    pool: Seq<u16>,
)
    requires
        0 <= pos,
        0 <= len <= data.len(),
        scan(data, pos, slot, total, dense, ghosts) is Ok,
        many_end::<ConstItem>(data, pos, (scan(data, pos, slot, total, dense, ghosts)->Ok_0.0 - dense) as nat, count, pool) is Ok,
    ensures
        scan(data.take(len), pos, slot, total, dense, ghosts) == scan(data, pos, slot, total, dense, ghosts)
            || scan(data.take(len), pos, slot, total, dense, ghosts) == Err::<(nat, Seq<u16>), ClassReaderError>(ClassReaderError::UnexpectedEndOfData),
        len >= many_end::<ConstItem>(data, pos, (scan(data, pos, slot, total, dense, ghosts)->Ok_0.0 - dense) as nat, count, pool)->Ok_0
            ==> scan(data.take(len), pos, slot, total, dense, ghosts) == scan(data, pos, slot, total, dense, ghosts),
    decreases if slot >= total { 0 } else { total - slot },
{
    if slot < total {
        lemma_scan_count(data, pos, slot, total, dense, ghosts);
        let n = scan(data, pos, slot, total, dense, ghosts)->Ok_0.0;
        let m = (n - dense) as nat;
        let end = ConstItem::parse(data, pos, total, Seq::empty())->Ok_0;
        ConstItem::lemma_cut(data, pos, total, Seq::empty(), len);
        ConstItem::lemma_end_any_pool(data, pos, total, Seq::empty(), count, pool);
        lemma_many_cut::<ConstItem>(data, end, (m - 1) as nat, count, pool, len);
        if is_wide_tag(data[pos]) {
            lemma_scan_cut(data, end, slot + 2, total, dense + 1, ghosts.push((slot + 1) as u16), len, count, pool);
        } else {
            lemma_scan_cut(data, end, slot + 1, total, dense + 1, ghosts, len, count, pool);
        }
        if pos < len {
            assert(data.take(len)[pos] == data[pos]);
        }
    }
}

/// The pool decoded from the first `len` bytes of the input: the same as
/// from the whole input where the pool lies within the cut, and "premature
/// end of input" where the cut falls inside it.
pub proof fn lemma_pool_cut(data: Seq<u8>, pos: int, len: int)
    requires
        0 <= pos,
        0 <= len <= data.len(),
        pool_at(data, pos) is Ok,
    ensures
        pool_at(data, pos)->Ok_0.2 >= pos + 2,
        len >= pool_at(data, pos)->Ok_0.2 ==> pool_at(data.take(len), pos) == pool_at(data, pos),
        len < pool_at(data, pos)->Ok_0.2 ==> pool_at(data.take(len), pos)
            == Err::<(nat, Seq<u16>, int), ClassReaderError>(ClassReaderError::UnexpectedEndOfData),
{
    reveal(pool_at);
    if pos + 2 <= len {
        let total = (u16_at(data, pos) - 1) as u16;
        let (n, g) = scan(data, pos + 2, 0, total, 0, Seq::empty())->Ok_0;
        lemma_scan_cut(data, pos + 2, 0, total, 0, Seq::empty(), len, n as u16, g);
        lemma_many_cut::<ConstItem>(data, pos + 2, n, n as u16, g, len);
    } else {
        let total = (u16_at(data, pos) - 1) as u16;
        let (n, g) = scan(data, pos + 2, 0, total, 0, Seq::empty())->Ok_0;
        lemma_many_cut::<ConstItem>(data, pos + 2, n, n as u16, g, len);
    }
}

/// Where the discovery pass stands at on-disk slot `k`, when every entry it
/// meets before that is narrow and decodes.
pub open spec fn narrow_prefix(data: Seq<u8>, pos: int, slot: int, k: int, total: u16) -> Option<int>
    decreases k - slot,
{
    if slot >= k {
        Some(pos)
    } else {
        match ConstItem::parse(data, pos, total, Seq::empty()) {
            Ok(end) => if is_wide_tag(data[pos]) {
                None
            } else {
                narrow_prefix(data, end, slot + 1, k, total)
            },
            Err(_) => None,
        }
    }
}

/// Walking narrow entries adds entries and no ghost slot.
pub proof fn lemma_walk_narrow_prefix(data: Seq<u8>, pos: int, slot: int, k: int, total: u16, dense: nat)
    requires
        0 <= slot <= k < total,
        narrow_prefix(data, pos, slot, k, total) is Some,
    ensures
        scan(data, pos, slot, total, dense, Seq::empty()) == scan(
            data,
            narrow_prefix(data, pos, slot, k, total)->Some_0,
            k,
            total,
            (dense + k - slot) as nat,
            Seq::empty(),
        ),
    decreases k - slot,
{
    if slot < k {
        let end = ConstItem::parse(data, pos, total, Seq::empty())->Ok_0;
        lemma_walk_narrow_prefix(data, end, slot + 1, k, total, dense + 1);
    }
}

/// A pool that decodes, holding narrow entries up to on-disk slot `k`, a
/// wide entry there and narrow entries after it, has the ghost set `{k + 1}`
/// and one entry fewer than its on-disk slots (none fewer when the wide
/// entry is last); with `lemma_one_wide_entry`, a reference to slot `k + 1`
/// fails and one to slot `k + 1 + j` names dense position `k + j`.
pub proof fn lemma_one_wide_pool(data: Seq<u8>, pos: int, k: int)
    requires
        pos + 2 <= data.len(),
        u16_at(data, pos) >= 1,
        0 <= k < u16_at(data, pos) - 1,
        narrow_prefix(data, pos + 2, 0, k, (u16_at(data, pos) - 1) as u16) is Some,
        ({
            let total = (u16_at(data, pos) - 1) as u16;
            let q = narrow_prefix(data, pos + 2, 0, k, total)->Some_0;
            &&& ConstItem::parse(data, q, total, Seq::empty()) is Ok
            &&& is_wide_tag(data[q])
            &&& narrow_walk(data, ConstItem::parse(data, q, total, Seq::empty())->Ok_0, k + 2, total)
        }),
        pool_at(data, pos) is Ok,
    ensures
        pool_at(data, pos) matches Ok((n, g, _)) ==> {
            &&& g == seq![(k + 1) as u16]
            &&& n == u16_at(data, pos) - 2 || (k + 2 == u16_at(data, pos) && n == u16_at(data, pos) - 1)
        },
{
    reveal(pool_at);
    let total = (u16_at(data, pos) - 1) as u16;
    let q = narrow_prefix(data, pos + 2, 0, k, total)->Some_0;
    lemma_walk_narrow_prefix(data, pos + 2, 0, k, total, 0);
    lemma_one_wide_walk(data, q, k, total);
}

} // verus!
