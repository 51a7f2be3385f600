use vstd::prelude::*;

use super::{
    CPMethodHandleReferenceKind, ConstClass, ConstDouble, ConstFieldRef, ConstFloat, ConstInteger,
    ConstInterfaceMethodRef, ConstInvokeDynamic, ConstLong, ConstMethodHandle, ConstMethodRef,
    ConstMethodType, ConstNameAndType, ConstString, ConstUtf8,
};
use crate::buffer::Buffer;
use crate::error::{ClassReaderError, Result};
use crate::Read;

verus! {

/// One entry of the constant pool, tagged by its kind.
#[derive(Debug, Clone)]
pub enum ConstItem {
    Class(ConstClass),
    FieldRef(ConstFieldRef),
    MethodRef(ConstMethodRef),
    InterfaceMethodRef(ConstInterfaceMethodRef),
    String(ConstString),
    Integer(ConstInteger),
    Float(ConstFloat),
    Long(ConstLong),
    Double(ConstDouble),
    NameAndType(ConstNameAndType),
    Utf8(ConstUtf8),
    MethodHandle(ConstMethodHandle),
    MethodType(ConstMethodType),
    InvokeDynamic(ConstInvokeDynamic),
}

/// Whether a tag byte introduces a wide entry, one that reserves two on-disk
/// slots.
pub open spec fn is_wide_tag(tag: u8) -> bool {
    tag == 5 || tag == 6
}

impl ConstItem {
    /// The tag byte that introduces an entry of this kind.
    pub open spec fn tag(&self) -> u8 {
        match self {
            ConstItem::Utf8(_) => 1,
            ConstItem::Integer(_) => 3,
            ConstItem::Float(_) => 4,
            ConstItem::Long(_) => 5,
            ConstItem::Double(_) => 6,
            ConstItem::Class(_) => 7,
            ConstItem::String(_) => 8,
            ConstItem::FieldRef(_) => 9,
            ConstItem::MethodRef(_) => 10,
            ConstItem::InterfaceMethodRef(_) => 11,
            ConstItem::NameAndType(_) => 12,
            ConstItem::MethodHandle(_) => 15,
            ConstItem::MethodType(_) => 16,
            ConstItem::InvokeDynamic(_) => 18,
        }
    }

    /// Whether this entry is wide: a long or a double.
    pub fn is_8bit(&self) -> (r: bool)
        ensures
            r == is_wide_tag(self.tag()),
    {
        matches!(self, ConstItem::Double(_) | ConstItem::Long(_))
    }

    pub fn is_invoke_dynamic(&self) -> (r: bool)
        ensures
            r == (self is InvokeDynamic),
    {
        matches!(self, ConstItem::InvokeDynamic(_))
    }

    pub fn as_invoke_dynamic(&self) -> (r: Option<&ConstInvokeDynamic>)
        ensures
            self is InvokeDynamic ==> r == Some(&self->InvokeDynamic_0),
            !(self is InvokeDynamic) ==> r is None,
    {
        if let ConstItem::InvokeDynamic(item) = self {
            Some(item)
        } else {
            None
        }
    }
}

impl Read for ConstItem {
    open spec fn parse(data: Seq<u8>, pos: int, count: u16, ghosts: Seq<u16>) -> Result<int> {
        if pos + 1 > data.len() {
            Err(ClassReaderError::UnexpectedEndOfData)
        } else {
            let tag = data[pos];
            let p = pos + 1;
            if tag == 1 {
                ConstUtf8::parse(data, p, count, ghosts)
            } else if tag == 3 {
                ConstInteger::parse(data, p, count, ghosts)
            } else if tag == 4 {
                ConstFloat::parse(data, p, count, ghosts)
            } else if tag == 5 {
                ConstLong::parse(data, p, count, ghosts)
            } else if tag == 6 {
                ConstDouble::parse(data, p, count, ghosts)
            } else if tag == 7 {
                ConstClass::parse(data, p, count, ghosts)
            } else if tag == 8 {
                ConstString::parse(data, p, count, ghosts)
            } else if tag == 9 {
                ConstFieldRef::parse(data, p, count, ghosts)
            } else if tag == 10 {
                ConstMethodRef::parse(data, p, count, ghosts)
            } else if tag == 11 {
                ConstInterfaceMethodRef::parse(data, p, count, ghosts)
            } else if tag == 12 {
                ConstNameAndType::parse(data, p, count, ghosts)
            } else if tag == 15 {
                ConstMethodHandle::parse(data, p, count, ghosts)
            } else if tag == 16 {
                ConstMethodType::parse(data, p, count, ghosts)
            } else if tag == 18 {
                ConstInvokeDynamic::parse(data, p, count, ghosts)
            } else {
                Err(ClassReaderError::InvalidConstItemTag(tag))
            }
        }
    }

    open spec fn parsed_as(&self, data: Seq<u8>, pos: int, count: u16, ghosts: Seq<u16>) -> bool {
        &&& pos + 1 <= data.len()
        &&& data[pos] == self.tag()
        &&& match self {
            ConstItem::Utf8(x) => x.parsed_as(data, pos + 1, count, ghosts),
            ConstItem::Integer(x) => x.parsed_as(data, pos + 1, count, ghosts),
            ConstItem::Float(x) => x.parsed_as(data, pos + 1, count, ghosts),
            ConstItem::Long(x) => x.parsed_as(data, pos + 1, count, ghosts),
            ConstItem::Double(x) => x.parsed_as(data, pos + 1, count, ghosts),
            ConstItem::Class(x) => x.parsed_as(data, pos + 1, count, ghosts),
            ConstItem::String(x) => x.parsed_as(data, pos + 1, count, ghosts),
            ConstItem::FieldRef(x) => x.parsed_as(data, pos + 1, count, ghosts),
            ConstItem::MethodRef(x) => x.parsed_as(data, pos + 1, count, ghosts),
            ConstItem::InterfaceMethodRef(x) => x.parsed_as(data, pos + 1, count, ghosts),
            ConstItem::NameAndType(x) => x.parsed_as(data, pos + 1, count, ghosts),
            ConstItem::MethodHandle(x) => x.parsed_as(data, pos + 1, count, ghosts),
            ConstItem::MethodType(x) => x.parsed_as(data, pos + 1, count, ghosts),
            ConstItem::InvokeDynamic(x) => x.parsed_as(data, pos + 1, count, ghosts),
        }
    }

    proof fn lemma_end_any_pool(data: Seq<u8>, pos: int, c1: u16, g1: Seq<u16>, c2: u16, g2: Seq<u16>) {
        let tag = data[pos];
        let p = pos + 1;
        if tag == 1 {
            ConstUtf8::lemma_end_any_pool(data, p, c1, g1, c2, g2);
        } else if tag == 3 {
            ConstInteger::lemma_end_any_pool(data, p, c1, g1, c2, g2);
        } else if tag == 4 {
            ConstFloat::lemma_end_any_pool(data, p, c1, g1, c2, g2);
        } else if tag == 5 {
            ConstLong::lemma_end_any_pool(data, p, c1, g1, c2, g2);
        } else if tag == 6 {
            ConstDouble::lemma_end_any_pool(data, p, c1, g1, c2, g2);
        } else if tag == 7 {
            ConstClass::lemma_end_any_pool(data, p, c1, g1, c2, g2);
        } else if tag == 8 {
            ConstString::lemma_end_any_pool(data, p, c1, g1, c2, g2);
        } else if tag == 9 {
            ConstFieldRef::lemma_end_any_pool(data, p, c1, g1, c2, g2);
        } else if tag == 10 {
            ConstMethodRef::lemma_end_any_pool(data, p, c1, g1, c2, g2);
        } else if tag == 11 {
            ConstInterfaceMethodRef::lemma_end_any_pool(data, p, c1, g1, c2, g2);
        } else if tag == 12 {
            ConstNameAndType::lemma_end_any_pool(data, p, c1, g1, c2, g2);
        } else if tag == 15 {
            ConstMethodHandle::lemma_end_any_pool(data, p, c1, g1, c2, g2);
        } else if tag == 16 {
            ConstMethodType::lemma_end_any_pool(data, p, c1, g1, c2, g2);
        } else if tag == 18 {
            ConstInvokeDynamic::lemma_end_any_pool(data, p, c1, g1, c2, g2);
        }
    }

    proof fn lemma_cut(data: Seq<u8>, pos: int, count: u16, ghosts: Seq<u16>, len: int) {
        let tag = data[pos];
        let p = pos + 1;
        if tag == 1 {
            ConstUtf8::lemma_cut(data, p, count, ghosts, len);
        } else if tag == 3 {
            ConstInteger::lemma_cut(data, p, count, ghosts, len);
        } else if tag == 4 {
            ConstFloat::lemma_cut(data, p, count, ghosts, len);
        } else if tag == 5 {
            ConstLong::lemma_cut(data, p, count, ghosts, len);
        } else if tag == 6 {
            ConstDouble::lemma_cut(data, p, count, ghosts, len);
        } else if tag == 7 {
            ConstClass::lemma_cut(data, p, count, ghosts, len);
        } else if tag == 8 {
            ConstString::lemma_cut(data, p, count, ghosts, len);
        } else if tag == 9 {
            ConstFieldRef::lemma_cut(data, p, count, ghosts, len);
        } else if tag == 10 {
            ConstMethodRef::lemma_cut(data, p, count, ghosts, len);
        } else if tag == 11 {
            ConstInterfaceMethodRef::lemma_cut(data, p, count, ghosts, len);
        } else if tag == 12 {
            ConstNameAndType::lemma_cut(data, p, count, ghosts, len);
        } else if tag == 15 {
            ConstMethodHandle::lemma_cut(data, p, count, ghosts, len);
        } else if tag == 16 {
            ConstMethodType::lemma_cut(data, p, count, ghosts, len);
        } else if tag == 18 {
            ConstInvokeDynamic::lemma_cut(data, p, count, ghosts, len);
        }
    }

    fn read(buf: &mut Buffer, count: u16, ghosts: &[u16]) -> (r: Result<Self>) {
        let tag = buf.read_u8()?;
        let item = match tag {
            1 => ConstItem::Utf8(ConstUtf8::read(buf, count, ghosts)?),
            3 => ConstItem::Integer(ConstInteger::read(buf, count, ghosts)?),
            4 => ConstItem::Float(ConstFloat::read(buf, count, ghosts)?),
            5 => ConstItem::Long(ConstLong::read(buf, count, ghosts)?),
            6 => ConstItem::Double(ConstDouble::read(buf, count, ghosts)?),
            7 => ConstItem::Class(ConstClass::read(buf, count, ghosts)?),
            8 => ConstItem::String(ConstString::read(buf, count, ghosts)?),
            9 => ConstItem::FieldRef(ConstFieldRef::read(buf, count, ghosts)?),
            10 => ConstItem::MethodRef(ConstMethodRef::read(buf, count, ghosts)?),
            11 => ConstItem::InterfaceMethodRef(ConstInterfaceMethodRef::read(buf, count, ghosts)?),
            12 => ConstItem::NameAndType(ConstNameAndType::read(buf, count, ghosts)?),
            15 => ConstItem::MethodHandle(ConstMethodHandle::read(buf, count, ghosts)?),
            16 => ConstItem::MethodType(ConstMethodType::read(buf, count, ghosts)?),
            18 => ConstItem::InvokeDynamic(ConstInvokeDynamic::read(buf, count, ghosts)?),
            _ => return Err(ClassReaderError::InvalidConstItemTag(tag)),
        };
        Ok(item)
    }
}

/// Whether two entries are the same: equal text for two text entries, equal
/// fields otherwise.
pub open spec fn same_item(a: ConstItem, b: ConstItem) -> bool {
    match (a, b) {
        (ConstItem::Utf8(x), ConstItem::Utf8(y)) => x.string@ == y.string@,
        _ => a == b,
    }
}

/// The bytes at `pos` determine the entry decoded from them.
pub proof fn lemma_item_determined(a: ConstItem, b: ConstItem, data: Seq<u8>, pos: int, count: u16, ghosts: Seq<u16>)
    requires
        a.parsed_as(data, pos, count, ghosts),
        b.parsed_as(data, pos, count, ghosts),
    ensures
        same_item(a, b),
{
}

} // verus!
