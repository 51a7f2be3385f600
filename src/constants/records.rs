use vstd::prelude::*;

use super::{ref_at, ref_end, two_refs_end, ConstItemIdx};
use crate::buffer::{text_of, u16_at, u32_at, u64_at, Buffer};
use crate::error::{ClassReaderError, Result};
use crate::Read;

verus! {

/// A class or interface, by the pool entry holding its name.
#[derive(Debug, Clone, Copy, PartialEq, Eq, Structural)]
pub struct ConstClass {
    pub name_index: ConstItemIdx,
}

impl Read for ConstClass {
    open spec fn parse(data: Seq<u8>, pos: int, count: u16, ghosts: Seq<u16>) -> Result<int> {
        ref_end(data, pos, count, ghosts)
    }

    open spec fn parsed_as(&self, data: Seq<u8>, pos: int, count: u16, ghosts: Seq<u16>) -> bool {
        ref_at(data, pos, count, ghosts) == Ok::<ConstItemIdx, ClassReaderError>(self.name_index)
    }

    proof fn lemma_end_any_pool(data: Seq<u8>, pos: int, c1: u16, g1: Seq<u16>, c2: u16, g2: Seq<u16>) {
    }

    proof fn lemma_cut(data: Seq<u8>, pos: int, count: u16, ghosts: Seq<u16>, len: int) {
    }

    fn read(buf: &mut Buffer, count: u16, ghosts: &[u16]) -> (r: Result<Self>) {
        let name_index = ConstItemIdx::read(buf, count, ghosts)?;
        Ok(ConstClass { name_index })
    }
}

/// A string literal, by the pool entry holding its text.
#[derive(Debug, Clone, Copy, PartialEq, Eq, Structural)]
pub struct ConstString {
    pub string_index: ConstItemIdx,
}

impl Read for ConstString {
    open spec fn parse(data: Seq<u8>, pos: int, count: u16, ghosts: Seq<u16>) -> Result<int> {
        ref_end(data, pos, count, ghosts)
    }

    open spec fn parsed_as(&self, data: Seq<u8>, pos: int, count: u16, ghosts: Seq<u16>) -> bool {
        ref_at(data, pos, count, ghosts) == Ok::<ConstItemIdx, ClassReaderError>(self.string_index)
    }

    proof fn lemma_end_any_pool(data: Seq<u8>, pos: int, c1: u16, g1: Seq<u16>, c2: u16, g2: Seq<u16>) {
    }

    proof fn lemma_cut(data: Seq<u8>, pos: int, count: u16, ghosts: Seq<u16>, len: int) {
    }

    fn read(buf: &mut Buffer, count: u16, ghosts: &[u16]) -> (r: Result<Self>) {
        let string_index = ConstItemIdx::read(buf, count, ghosts)?;
        Ok(ConstString { string_index })
    }
}

/// A method type, by the pool entry holding its descriptor.
#[derive(Debug, Clone, Copy, PartialEq, Eq, Structural)]
pub struct ConstMethodType {
    pub descriptor_index: ConstItemIdx,
}

impl Read for ConstMethodType {
    open spec fn parse(data: Seq<u8>, pos: int, count: u16, ghosts: Seq<u16>) -> Result<int> {
        ref_end(data, pos, count, ghosts)
    }

    open spec fn parsed_as(&self, data: Seq<u8>, pos: int, count: u16, ghosts: Seq<u16>) -> bool {
        ref_at(data, pos, count, ghosts) == Ok::<ConstItemIdx, ClassReaderError>(self.descriptor_index)
    }

    proof fn lemma_end_any_pool(data: Seq<u8>, pos: int, c1: u16, g1: Seq<u16>, c2: u16, g2: Seq<u16>) {
    }

    proof fn lemma_cut(data: Seq<u8>, pos: int, count: u16, ghosts: Seq<u16>, len: int) {
    }

    fn read(buf: &mut Buffer, count: u16, ghosts: &[u16]) -> (r: Result<Self>) {
        let descriptor_index = ConstItemIdx::read(buf, count, ghosts)?;
        Ok(ConstMethodType { descriptor_index })
    }
}

/// A field, by its owning class and its name and type.
#[derive(Debug, Clone, Copy, PartialEq, Eq, Structural)]
pub struct ConstFieldRef {
    pub class_index: ConstItemIdx,
    pub name_and_type_index: ConstItemIdx,
}

impl Read for ConstFieldRef {
    open spec fn parse(data: Seq<u8>, pos: int, count: u16, ghosts: Seq<u16>) -> Result<int> {
        two_refs_end(data, pos, count, ghosts)
    }

    open spec fn parsed_as(&self, data: Seq<u8>, pos: int, count: u16, ghosts: Seq<u16>) -> bool {
        &&& ref_at(data, pos, count, ghosts) == Ok::<ConstItemIdx, ClassReaderError>(self.class_index)
        &&& ref_at(data, pos + 2, count, ghosts) == Ok::<ConstItemIdx, ClassReaderError>(self.name_and_type_index)
    }

    proof fn lemma_end_any_pool(data: Seq<u8>, pos: int, c1: u16, g1: Seq<u16>, c2: u16, g2: Seq<u16>) {
    }

    proof fn lemma_cut(data: Seq<u8>, pos: int, count: u16, ghosts: Seq<u16>, len: int) {
    }

    fn read(buf: &mut Buffer, count: u16, ghosts: &[u16]) -> (r: Result<Self>) {
        let class_index = ConstItemIdx::read(buf, count, ghosts)?;
        let name_and_type_index = ConstItemIdx::read(buf, count, ghosts)?;
        Ok(ConstFieldRef { class_index, name_and_type_index })
    }
}

/// A method of a class, by its owning class and its name and type.
#[derive(Debug, Clone, Copy, PartialEq, Eq, Structural)]
pub struct ConstMethodRef {
    pub class_index: ConstItemIdx,
    pub name_and_type_index: ConstItemIdx,
}

impl Read for ConstMethodRef {
    open spec fn parse(data: Seq<u8>, pos: int, count: u16, ghosts: Seq<u16>) -> Result<int> {
        two_refs_end(data, pos, count, ghosts)
    }

    open spec fn parsed_as(&self, data: Seq<u8>, pos: int, count: u16, ghosts: Seq<u16>) -> bool {
        &&& ref_at(data, pos, count, ghosts) == Ok::<ConstItemIdx, ClassReaderError>(self.class_index)
        &&& ref_at(data, pos + 2, count, ghosts) == Ok::<ConstItemIdx, ClassReaderError>(self.name_and_type_index)
    }

    proof fn lemma_end_any_pool(data: Seq<u8>, pos: int, c1: u16, g1: Seq<u16>, c2: u16, g2: Seq<u16>) {
    }

    proof fn lemma_cut(data: Seq<u8>, pos: int, count: u16, ghosts: Seq<u16>, len: int) {
    }

    fn read(buf: &mut Buffer, count: u16, ghosts: &[u16]) -> (r: Result<Self>) {
        let class_index = ConstItemIdx::read(buf, count, ghosts)?;
        let name_and_type_index = ConstItemIdx::read(buf, count, ghosts)?;
        Ok(ConstMethodRef { class_index, name_and_type_index })
    }
}

/// A method of an interface, by its owning interface and its name and type.
#[derive(Debug, Clone, Copy, PartialEq, Eq, Structural)]
pub struct ConstInterfaceMethodRef {
    pub interface_index: ConstItemIdx,
    pub name_and_type_index: ConstItemIdx,
}

impl Read for ConstInterfaceMethodRef {
    open spec fn parse(data: Seq<u8>, pos: int, count: u16, ghosts: Seq<u16>) -> Result<int> {
        two_refs_end(data, pos, count, ghosts)
    }

    open spec fn parsed_as(&self, data: Seq<u8>, pos: int, count: u16, ghosts: Seq<u16>) -> bool {
        &&& ref_at(data, pos, count, ghosts) == Ok::<ConstItemIdx, ClassReaderError>(self.interface_index)
        &&& ref_at(data, pos + 2, count, ghosts) == Ok::<ConstItemIdx, ClassReaderError>(self.name_and_type_index)
    }

    proof fn lemma_end_any_pool(data: Seq<u8>, pos: int, c1: u16, g1: Seq<u16>, c2: u16, g2: Seq<u16>) {
    }

    proof fn lemma_cut(data: Seq<u8>, pos: int, count: u16, ghosts: Seq<u16>, len: int) {
    }

    fn read(buf: &mut Buffer, count: u16, ghosts: &[u16]) -> (r: Result<Self>) {
        let interface_index = ConstItemIdx::read(buf, count, ghosts)?;
        let name_and_type_index = ConstItemIdx::read(buf, count, ghosts)?;
        Ok(ConstInterfaceMethodRef { interface_index, name_and_type_index })
    }
}

/// A name paired with a type descriptor.
#[derive(Debug, Clone, Copy, PartialEq, Eq, Structural)]
pub struct ConstNameAndType {
    pub name_index: ConstItemIdx,
    pub descriptor_index: ConstItemIdx,
}

impl Read for ConstNameAndType {
    open spec fn parse(data: Seq<u8>, pos: int, count: u16, ghosts: Seq<u16>) -> Result<int> {
        two_refs_end(data, pos, count, ghosts)
    }

    open spec fn parsed_as(&self, data: Seq<u8>, pos: int, count: u16, ghosts: Seq<u16>) -> bool {
        &&& ref_at(data, pos, count, ghosts) == Ok::<ConstItemIdx, ClassReaderError>(self.name_index)
        &&& ref_at(data, pos + 2, count, ghosts) == Ok::<ConstItemIdx, ClassReaderError>(self.descriptor_index)
    }

    proof fn lemma_end_any_pool(data: Seq<u8>, pos: int, c1: u16, g1: Seq<u16>, c2: u16, g2: Seq<u16>) {
    }

    proof fn lemma_cut(data: Seq<u8>, pos: int, count: u16, ghosts: Seq<u16>, len: int) {
    }

    fn read(buf: &mut Buffer, count: u16, ghosts: &[u16]) -> (r: Result<Self>) {
        let name_index = ConstItemIdx::read(buf, count, ghosts)?;
        let descriptor_index = ConstItemIdx::read(buf, count, ghosts)?;
        Ok(ConstNameAndType { name_index, descriptor_index })
    }
}

/// A 32-bit signed integer.
#[derive(Debug, Clone, Copy, PartialEq, Eq, Structural)]
pub struct ConstInteger {
    pub integer: i32,
}

impl Read for ConstInteger {
    open spec fn parse(data: Seq<u8>, pos: int, count: u16, ghosts: Seq<u16>) -> Result<int> {
        if pos + 4 > data.len() {
            Err(ClassReaderError::UnexpectedEndOfData)
        } else {
            Ok(pos + 4)
        }
    }

    open spec fn parsed_as(&self, data: Seq<u8>, pos: int, count: u16, ghosts: Seq<u16>) -> bool {
        pos + 4 <= data.len() && self.integer == u32_at(data, pos) as i32
    }

    proof fn lemma_end_any_pool(data: Seq<u8>, pos: int, c1: u16, g1: Seq<u16>, c2: u16, g2: Seq<u16>) {
    }

    proof fn lemma_cut(data: Seq<u8>, pos: int, count: u16, ghosts: Seq<u16>, len: int) {
    }

    fn read(buf: &mut Buffer, count: u16, ghosts: &[u16]) -> (r: Result<Self>) {
        let v = buf.read_u32()?;
        Ok(ConstInteger { integer: v as i32 })
    }
}

/// A 32-bit float, held as its IEEE 754 bit pattern.
#[derive(Debug, Clone, Copy, PartialEq, Eq, Structural)]
pub struct ConstFloat {
    pub bits: u32,
}

impl Read for ConstFloat {
    open spec fn parse(data: Seq<u8>, pos: int, count: u16, ghosts: Seq<u16>) -> Result<int> {
        if pos + 4 > data.len() {
            Err(ClassReaderError::UnexpectedEndOfData)
        } else {
            Ok(pos + 4)
        }
    }

    open spec fn parsed_as(&self, data: Seq<u8>, pos: int, count: u16, ghosts: Seq<u16>) -> bool {
        pos + 4 <= data.len() && self.bits == u32_at(data, pos)
    }

    proof fn lemma_end_any_pool(data: Seq<u8>, pos: int, c1: u16, g1: Seq<u16>, c2: u16, g2: Seq<u16>) {
    }

    proof fn lemma_cut(data: Seq<u8>, pos: int, count: u16, ghosts: Seq<u16>, len: int) {
    }

    fn read(buf: &mut Buffer, count: u16, ghosts: &[u16]) -> (r: Result<Self>) {
        let v = buf.read_u32()?;
        Ok(ConstFloat { bits: v })
    }
}

/// A 64-bit signed integer; a wide entry.
#[derive(Debug, Clone, Copy, PartialEq, Eq, Structural)]
pub struct ConstLong {
    pub long: i64,
}

impl Read for ConstLong {
    open spec fn parse(data: Seq<u8>, pos: int, count: u16, ghosts: Seq<u16>) -> Result<int> {
        if pos + 8 > data.len() {
            Err(ClassReaderError::UnexpectedEndOfData)
        } else {
            Ok(pos + 8)
        }
    }

    open spec fn parsed_as(&self, data: Seq<u8>, pos: int, count: u16, ghosts: Seq<u16>) -> bool {
        pos + 8 <= data.len() && self.long == u64_at(data, pos) as i64
    }

    proof fn lemma_end_any_pool(data: Seq<u8>, pos: int, c1: u16, g1: Seq<u16>, c2: u16, g2: Seq<u16>) {
    }

    proof fn lemma_cut(data: Seq<u8>, pos: int, count: u16, ghosts: Seq<u16>, len: int) {
    }

    fn read(buf: &mut Buffer, count: u16, ghosts: &[u16]) -> (r: Result<Self>) {
        let v = buf.read_u64()?;
        Ok(ConstLong { long: v as i64 })
    }
}

/// A 64-bit float, held as its IEEE 754 bit pattern; a wide entry.
#[derive(Debug, Clone, Copy, PartialEq, Eq, Structural)]
pub struct ConstDouble {
    pub bits: u64,
}

impl Read for ConstDouble {
    open spec fn parse(data: Seq<u8>, pos: int, count: u16, ghosts: Seq<u16>) -> Result<int> {
        if pos + 8 > data.len() {
            Err(ClassReaderError::UnexpectedEndOfData)
        } else {
            Ok(pos + 8)
        }
    }

    open spec fn parsed_as(&self, data: Seq<u8>, pos: int, count: u16, ghosts: Seq<u16>) -> bool {
        pos + 8 <= data.len() && self.bits == u64_at(data, pos)
    }

    proof fn lemma_end_any_pool(data: Seq<u8>, pos: int, c1: u16, g1: Seq<u16>, c2: u16, g2: Seq<u16>) {
    }

    proof fn lemma_cut(data: Seq<u8>, pos: int, count: u16, ghosts: Seq<u16>, len: int) {
    }

    fn read(buf: &mut Buffer, count: u16, ghosts: &[u16]) -> (r: Result<Self>) {
        let v = buf.read_u64()?;
        Ok(ConstDouble { bits: v })
    }
}

/// Modified UTF-8 text, as the characters it decodes to.
#[derive(Debug, Clone)]
pub struct ConstUtf8 {
    pub string: String,
}

/// The length-prefixed text at `pos`: its end and its characters.
pub open spec fn utf8_at(data: Seq<u8>, pos: int) -> Result<(int, Seq<char>)> {
    if pos + 2 > data.len() {
        Err(ClassReaderError::UnexpectedEndOfData)
    } else {
        let end = pos + 2 + u16_at(data, pos);
        if end > data.len() {
            Err(ClassReaderError::UnexpectedEndOfData)
        } else {
            match text_of(data.subrange(pos + 2, end)) {
                Some(t) => Ok((end, t)),
                None => Err(ClassReaderError::InvalidCesu8String),
            }
        }
    }
}

impl Read for ConstUtf8 {
    open spec fn parse(data: Seq<u8>, pos: int, count: u16, ghosts: Seq<u16>) -> Result<int> {
        match utf8_at(data, pos) {
            Ok((end, _)) => Ok(end),
            Err(e) => Err(e),
        }
    }

    open spec fn parsed_as(&self, data: Seq<u8>, pos: int, count: u16, ghosts: Seq<u16>) -> bool {
        utf8_at(data, pos) is Ok && utf8_at(data, pos)->Ok_0.1 == self.string@
    }

    proof fn lemma_end_any_pool(data: Seq<u8>, pos: int, c1: u16, g1: Seq<u16>, c2: u16, g2: Seq<u16>) {
    }

    proof fn lemma_cut(data: Seq<u8>, pos: int, count: u16, ghosts: Seq<u16>, len: int) {
        if pos + 2 <= len {
            let end = pos + 2 + u16_at(data, pos);
            if end <= len {
                assert(data.take(len).subrange(pos + 2, end) =~= data.subrange(pos + 2, end));
            }
        }
    }

    fn read(buf: &mut Buffer, count: u16, ghosts: &[u16]) -> (r: Result<Self>) {
        let len = buf.read_u16()?;
        let string = buf.read_utf8(len as usize)?;
        Ok(ConstUtf8 { string })
    }
}

/// A dynamically computed call site: an index into the class's bootstrap
/// method table and the name and type of the call.
#[derive(Debug, Clone, Copy, PartialEq, Eq, Structural)]
pub struct ConstInvokeDynamic {
    pub bootstrap_method_attr_index: u16,
    pub name_and_type_index: ConstItemIdx,
}

impl Read for ConstInvokeDynamic {
    open spec fn parse(data: Seq<u8>, pos: int, count: u16, ghosts: Seq<u16>) -> Result<int> {
        if pos + 2 > data.len() {
            Err(ClassReaderError::UnexpectedEndOfData)
        } else {
            ref_end(data, pos + 2, count, ghosts)
        }
    }

    open spec fn parsed_as(&self, data: Seq<u8>, pos: int, count: u16, ghosts: Seq<u16>) -> bool {
        &&& pos + 2 <= data.len()
        &&& self.bootstrap_method_attr_index == u16_at(data, pos)
        &&& ref_at(data, pos + 2, count, ghosts) == Ok::<ConstItemIdx, ClassReaderError>(self.name_and_type_index)
    }

    proof fn lemma_end_any_pool(data: Seq<u8>, pos: int, c1: u16, g1: Seq<u16>, c2: u16, g2: Seq<u16>) {
    }

    proof fn lemma_cut(data: Seq<u8>, pos: int, count: u16, ghosts: Seq<u16>, len: int) {
    }

    fn read(buf: &mut Buffer, count: u16, ghosts: &[u16]) -> (r: Result<Self>) {
        let bootstrap_method_attr_index = buf.read_u16()?;
        let name_and_type_index = ConstItemIdx::read(buf, count, ghosts)?;
        Ok(ConstInvokeDynamic { bootstrap_method_attr_index, name_and_type_index })
    }
}

} // verus!
