use vstd::prelude::*;

use super::{ref_at, ref_end, ConstItemIdx};
use crate::buffer::Buffer;
use crate::error::{ClassReaderError, Result};
use crate::Read;

verus! {

/// What a method handle does with the member it refers to.
#[derive(Debug, Clone, Copy, PartialEq, Eq, Structural)]
pub enum CPMethodHandleReferenceKind {
    GetField,
    GetStatic,
    PutField,
    PutStatic,
    InvokeVirtual,
    InvokeStatic,
    InvokeSpecial,
    NewInvokeSpecial,
    InvokeInterface,
}

/// The kind that a reference-kind byte stands for; only 1 to 9 stand for one.
pub open spec fn kind_of(value: u8) -> Option<CPMethodHandleReferenceKind> {
    if value == 1 {
        Some(CPMethodHandleReferenceKind::GetField)
    } else if value == 2 {
        Some(CPMethodHandleReferenceKind::GetStatic)
    } else if value == 3 {
        Some(CPMethodHandleReferenceKind::PutField)
    } else if value == 4 {
        Some(CPMethodHandleReferenceKind::PutStatic)
    } else if value == 5 {
        Some(CPMethodHandleReferenceKind::InvokeVirtual)
    } else if value == 6 {
        Some(CPMethodHandleReferenceKind::InvokeStatic)
    } else if value == 7 {
        Some(CPMethodHandleReferenceKind::InvokeSpecial)
    } else if value == 8 {
        Some(CPMethodHandleReferenceKind::NewInvokeSpecial)
    } else if value == 9 {
        Some(CPMethodHandleReferenceKind::InvokeInterface)
    } else {
        None
    }
}

/// The byte that stands for a reference kind.
pub open spec fn code_of(kind: CPMethodHandleReferenceKind) -> u8 {
    match kind {
        CPMethodHandleReferenceKind::GetField => 1,
        CPMethodHandleReferenceKind::GetStatic => 2,
        CPMethodHandleReferenceKind::PutField => 3,
        CPMethodHandleReferenceKind::PutStatic => 4,
        CPMethodHandleReferenceKind::InvokeVirtual => 5,
        CPMethodHandleReferenceKind::InvokeStatic => 6,
        CPMethodHandleReferenceKind::InvokeSpecial => 7,
        CPMethodHandleReferenceKind::NewInvokeSpecial => 8,
        CPMethodHandleReferenceKind::InvokeInterface => 9,
    }
}

impl CPMethodHandleReferenceKind {
    /// The kind that a reference-kind byte stands for, if any.
    pub fn from_code(value: u8) -> (r: Option<Self>)
        ensures
            r == kind_of(value),
    {
        match value {
            1 => Some(Self::GetField),
            2 => Some(Self::GetStatic),
            3 => Some(Self::PutField),
            4 => Some(Self::PutStatic),
            5 => Some(Self::InvokeVirtual),
            6 => Some(Self::InvokeStatic),
            7 => Some(Self::InvokeSpecial),
            8 => Some(Self::NewInvokeSpecial),
            9 => Some(Self::InvokeInterface),
            _ => None,
        }
    }
}

impl From<CPMethodHandleReferenceKind> for u8 {
    fn from(kind: CPMethodHandleReferenceKind) -> (r: u8)
        ensures
            r == code_of(kind),
    {
        match kind {
            CPMethodHandleReferenceKind::GetField => 1,
            CPMethodHandleReferenceKind::GetStatic => 2,
            CPMethodHandleReferenceKind::PutField => 3,
            CPMethodHandleReferenceKind::PutStatic => 4,
            CPMethodHandleReferenceKind::InvokeVirtual => 5,
            CPMethodHandleReferenceKind::InvokeStatic => 6,
            CPMethodHandleReferenceKind::InvokeSpecial => 7,
            CPMethodHandleReferenceKind::NewInvokeSpecial => 8,
            CPMethodHandleReferenceKind::InvokeInterface => 9,
        }
    }
}

impl vstd::std_specs::convert::FromSpecImpl<CPMethodHandleReferenceKind> for u8 {
    open spec fn obeys_from_spec() -> bool {
        true
    }

    open spec fn from_spec(kind: CPMethodHandleReferenceKind) -> u8 {
        code_of(kind)
    }
}

impl CPMethodHandleReferenceKind {
    /// Reads one reference-kind byte.
    pub fn read(buf: &mut Buffer) -> (r: Result<Self>)
        requires
            old(buf).wf(),
        ensures
            final(buf).data == old(buf).data,
            final(buf).wf(),
            !old(buf).has(1) ==> r == Err::<Self, ClassReaderError>(ClassReaderError::UnexpectedEndOfData),
            old(buf).has(1) ==> ({
                let b = old(buf).data@[old(buf).pos as int];
                &&& final(buf).pos == old(buf).pos + 1
                &&& r == match kind_of(b) {
                    Some(k) => Ok::<Self, ClassReaderError>(k),
                    None => Err(ClassReaderError::InvalidMethodHandleReferenceKind(b)),
                }
            }),
    {
        let tag = buf.read_u8()?;
        match Self::from_code(tag) {
            Some(k) => Ok(k),
            None => Err(ClassReaderError::InvalidMethodHandleReferenceKind(tag)),
        }
    }
}

/// A handle on a field or method, with what it does to it.
#[derive(Debug, Clone, Copy, PartialEq, Eq, Structural)]
pub struct ConstMethodHandle {
    pub reference_kind: CPMethodHandleReferenceKind,
    pub reference_index: ConstItemIdx,
}

impl Read for ConstMethodHandle {
    open spec fn parse(data: Seq<u8>, pos: int, count: u16, ghosts: Seq<u16>) -> Result<int> {
        if pos + 1 > data.len() {
            Err(ClassReaderError::UnexpectedEndOfData)
        } else {
            match kind_of(data[pos]) {
                Some(_) => ref_end(data, pos + 1, count, ghosts),
                None => Err(ClassReaderError::InvalidMethodHandleReferenceKind(data[pos])),
            }
        }
    }

    open spec fn parsed_as(&self, data: Seq<u8>, pos: int, count: u16, ghosts: Seq<u16>) -> bool {
        &&& pos + 1 <= data.len()
        &&& kind_of(data[pos]) == Some(self.reference_kind)
        &&& ref_at(data, pos + 1, count, ghosts) == Ok::<ConstItemIdx, ClassReaderError>(self.reference_index)
    }

    proof fn lemma_end_any_pool(data: Seq<u8>, pos: int, c1: u16, g1: Seq<u16>, c2: u16, g2: Seq<u16>) {
    }

    proof fn lemma_cut(data: Seq<u8>, pos: int, count: u16, ghosts: Seq<u16>, len: int) {
    }

    fn read(buf: &mut Buffer, count: u16, ghosts: &[u16]) -> (r: Result<Self>) {
        let reference_kind = CPMethodHandleReferenceKind::read(buf)?;
        let reference_index = ConstItemIdx::read(buf, count, ghosts)?;
        Ok(ConstMethodHandle { reference_kind, reference_index })
    }
}

} // verus!
