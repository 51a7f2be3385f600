use vstd::prelude::*;

use crate::attribute::{lemma_attributes_determined, same_attributes, Attribute};
use crate::buffer::{u16_at, Buffer};
use crate::constants::{ref_at, ConstItemIdx};
use crate::error::{ClassReaderError, Result};
use crate::Read;

verus! {

/// The flag word at `pos`, or the error for one that sets a bit outside `all`.
pub open spec fn method_flags_at(data: Seq<u8>, pos: int, all: u16) -> Result<u16> {
    if pos + 2 > data.len() {
        Err(ClassReaderError::UnexpectedEndOfData)
    } else if u16_at(data, pos) & !all != 0 {
        Err(ClassReaderError::InvalidMethodAccessFlags(u16_at(data, pos)))
    } else {
        Ok(u16_at(data, pos))
    }
}

/// Access flags of a method.
#[derive(Debug, Clone, Copy, PartialEq, Eq, Structural)]
pub struct MethodAccessFlags {
    bits: u16,
}

impl MethodAccessFlags {
    pub const PUBLIC: u16 = 0x0001;
    pub const PRIVATE: u16 = 0x0002;
    pub const PROTECTED: u16 = 0x0004;
    pub const STATIC: u16 = 0x0008;
    pub const FINAL: u16 = 0x0010;
    pub const SYNCHRONIZED: u16 = 0x0020;
    pub const BRIDGE: u16 = 0x0040;
    pub const VARARGS: u16 = 0x0080;
    pub const NATIVE: u16 = 0x0100;
    pub const ABSTRACT: u16 = 0x0400;
    pub const STRICT: u16 = 0x0800;
    pub const SYNTHETIC: u16 = 0x1000;

    /// Every bit that stands for a flag.
    pub const ALL: u16 = 0x1DFF;

    pub closed spec fn view(&self) -> u16 {
        self.bits
    }

    pub fn empty() -> (r: Self)
        ensures
            r.view() == 0,
    {
        MethodAccessFlags { bits: 0 }
    }

    /// The flags a bit word stands for, if it sets no unknown bit.
    pub fn from_bits(bits: u16) -> (r: Option<Self>)
        ensures
            bits & !Self::ALL == 0 ==> r is Some && r->Some_0.view() == bits,
            bits & !Self::ALL != 0 ==> r is None,
    {
        if bits & !Self::ALL == 0 {
            Some(MethodAccessFlags { bits })
        } else {
            None
        }
    }

    pub fn bits(&self) -> (r: u16)
        ensures
            r == self.view(),
    {
        self.bits
    }

    /// Whether every bit of `flag` is set.
    pub fn contains(&self, flag: u16) -> (r: bool)
        ensures
            r == (self.view() & flag == flag),
    {
        self.bits & flag == flag
    }

    /// Reads a flag word, rejecting one that sets an unknown bit.
    pub fn read(buf: &mut Buffer) -> (r: Result<Self>)
        requires
            old(buf).wf(),
        ensures
            final(buf).data == old(buf).data,
            final(buf).wf(),
            old(buf).has(2) ==> final(buf).pos == old(buf).pos + 2,
            !old(buf).has(2) ==> final(buf).pos == old(buf).pos,
            match r {
                Ok(f) => method_flags_at(old(buf).data@, old(buf).pos as int, Self::ALL) == Ok::<u16, ClassReaderError>(f.view())
                    && final(buf).pos == old(buf).pos + 2,
                Err(e) => method_flags_at(old(buf).data@, old(buf).pos as int, Self::ALL) == Err::<u16, ClassReaderError>(e),
            },
    {
        let num = buf.read_u16()?;
        match Self::from_bits(num) {
            Some(f) => Ok(f),
            None => Err(ClassReaderError::InvalidMethodAccessFlags(num)),
        }
    }
}

impl Default for MethodAccessFlags {
    fn default() -> (r: Self)
        ensures
            r.view() == 0,
    {
        Self::empty()
    }
}

/// A method of a class: its flags, name, descriptor and attributes.
#[derive(Debug, Clone)]
pub struct Method {
    pub access_flags: MethodAccessFlags,
    pub name_index: ConstItemIdx,
    pub descriptor_index: ConstItemIdx,
    pub attributes: Vec<Attribute>,
}

impl Read for Method {
    open spec fn parse(data: Seq<u8>, pos: int, count: u16, ghosts: Seq<u16>) -> Result<int> {
        match method_flags_at(data, pos, MethodAccessFlags::ALL) {
            Err(e) => Err(e),
            Ok(_) => match ref_at(data, pos + 2, count, ghosts) {
                Err(e) => Err(e),
                Ok(_) => match ref_at(data, pos + 4, count, ghosts) {
                    Err(e) => Err(e),
                    Ok(_) => Vec::<Attribute>::parse(data, pos + 6, count, ghosts),
                },
            },
        }
    }

    open spec fn parsed_as(&self, data: Seq<u8>, pos: int, count: u16, ghosts: Seq<u16>) -> bool {
        &&& method_flags_at(data, pos, MethodAccessFlags::ALL) == Ok::<u16, ClassReaderError>(self.access_flags.view())
        &&& ref_at(data, pos + 2, count, ghosts) == Ok::<ConstItemIdx, ClassReaderError>(self.name_index)
        &&& ref_at(data, pos + 4, count, ghosts) == Ok::<ConstItemIdx, ClassReaderError>(self.descriptor_index)
        &&& self.attributes.parsed_as(data, pos + 6, count, ghosts)
    }

    proof fn lemma_end_any_pool(data: Seq<u8>, pos: int, c1: u16, g1: Seq<u16>, c2: u16, g2: Seq<u16>) {
        Vec::<Attribute>::lemma_end_any_pool(data, pos + 6, c1, g1, c2, g2);
    }

    proof fn lemma_cut(data: Seq<u8>, pos: int, count: u16, ghosts: Seq<u16>, len: int) {
        Vec::<Attribute>::lemma_cut(data, pos + 6, count, ghosts, len);
    }

    fn read(buf: &mut Buffer, count: u16, ghosts: &[u16]) -> (r: Result<Self>) {
        let access_flags = MethodAccessFlags::read(buf)?;
        let name_index = ConstItemIdx::read(buf, count, ghosts)?;
        let descriptor_index = ConstItemIdx::read(buf, count, ghosts)?;
        let attributes = Vec::<Attribute>::read(buf, count, ghosts)?;
        Ok(Method { access_flags, name_index, descriptor_index, attributes })
    }
}

/// Whether two methods agree in flags, name, descriptor and attributes.
pub open spec fn same_method(a: Method, b: Method) -> bool {
    &&& a.access_flags == b.access_flags
    &&& a.name_index == b.name_index
    &&& a.descriptor_index == b.descriptor_index
    &&& same_attributes(a.attributes@, b.attributes@)
}

/// The bytes at `pos` determine the method decoded from them.
pub proof fn lemma_method_determined(a: Method, b: Method, data: Seq<u8>, pos: int, count: u16, ghosts: Seq<u16>)
    requires
        a.parsed_as(data, pos, count, ghosts),
        b.parsed_as(data, pos, count, ghosts),
    ensures
        same_method(a, b),
{
    lemma_attributes_determined(a.attributes, b.attributes, data, pos + 6, count, ghosts);
}

} // verus!
