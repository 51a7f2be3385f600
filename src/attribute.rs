use vstd::prelude::*;

use crate::buffer::{u16_at, u32_at, Buffer};
use crate::constants::{ref_at, ConstItemIdx};
use crate::error::{ClassReaderError, Result};
use crate::{lemma_many_first_error, many_end, many_pos, Read};

verus! {

/// The standard attribute names.
#[derive(Debug, Clone)]
pub enum AttributeKind {
    ConstantValue,
    Code,
    StackMapTable,
    Exceptions,
    InnerClasses,
    EnclosingMethod,
    Synthetic,
    Signature,
    SourceFile,
    SourceDebugExtension,
    LineNumberTable,
    LocalVariableTable,
    LocalVariableTypeTable,
    Deprecated,
    RuntimeVisibleAnnotations,
    RuntimeInvisibleAnnotations,
    RuntimeVisibleParameterAnnotations,
    RuntimeInvisibleParameterAnnotations,
    AnnotationDefault,
    BootstrapMethods,
    Other(String),
}

/// A named attribute with its payload left uninterpreted.
#[derive(Debug, Clone)]
pub struct Attribute {
    pub attribute_name_index: ConstItemIdx,
    pub info: Vec<u8>,
}

impl Read for Attribute {
    open spec fn parse(data: Seq<u8>, pos: int, count: u16, ghosts: Seq<u16>) -> Result<int> {
        match ref_at(data, pos, count, ghosts) {
            Err(e) => Err(e),
            Ok(_) => if pos + 6 > data.len() || pos + 6 + u32_at(data, pos + 2) > data.len() {
                Err(ClassReaderError::UnexpectedEndOfData)
            } else {
                Ok(pos + 6 + u32_at(data, pos + 2))
            },
        }
    }

    open spec fn parsed_as(&self, data: Seq<u8>, pos: int, count: u16, ghosts: Seq<u16>) -> bool {
        &&& ref_at(data, pos, count, ghosts) == Ok::<ConstItemIdx, ClassReaderError>(self.attribute_name_index)
        &&& pos + 6 + u32_at(data, pos + 2) <= data.len()
        &&& self.info@ == data.subrange(pos + 6, pos + 6 + u32_at(data, pos + 2))
    }

    proof fn lemma_end_any_pool(data: Seq<u8>, pos: int, c1: u16, g1: Seq<u16>, c2: u16, g2: Seq<u16>) {
    }

    proof fn lemma_cut(data: Seq<u8>, pos: int, count: u16, ghosts: Seq<u16>, len: int) {
    }

    fn read(buf: &mut Buffer, count: u16, ghosts: &[u16]) -> (r: Result<Self>) {
        let attribute_name_index = ConstItemIdx::read(buf, count, ghosts)?;
        let len = buf.read_u32()?;
        let info = buf.read_bytes(len as usize)?;
        Ok(Attribute { attribute_name_index, info })
    }
}

/// Whether two attributes have the same name and payload.
pub open spec fn same_attribute(a: Attribute, b: Attribute) -> bool {
    a.attribute_name_index == b.attribute_name_index && a.info@ == b.info@
}

/// Whether two attribute lists agree item by item.
pub open spec fn same_attributes(a: Seq<Attribute>, b: Seq<Attribute>) -> bool {
    a.len() == b.len() && forall|k: int| 0 <= k < a.len() ==> same_attribute(#[trigger] a[k], b[k])
}

/// The bytes at `pos` determine the attribute list decoded from them.
pub proof fn lemma_attributes_determined(a: Vec<Attribute>, b: Vec<Attribute>, data: Seq<u8>, pos: int, count: u16, ghosts: Seq<u16>)
    requires
        a.parsed_as(data, pos, count, ghosts),
        b.parsed_as(data, pos, count, ghosts),
    ensures
        same_attributes(a@, b@),
{
    assert forall|k: int| 0 <= k < a@.len() implies same_attribute(#[trigger] a@[k], b@[k]) by {
        let p = many_pos::<Attribute>(data, pos + 2, k as nat, count, ghosts);
        assert(a@[k].parsed_as(data, p, count, ghosts));
        assert(b@[k].parsed_as(data, p, count, ghosts));
    }
}

/// An attribute list fails with "premature end of input" when one of its
/// attributes declares a payload longer than the bytes left, all before it
/// decoding.
pub proof fn lemma_oversized_payload(data: Seq<u8>, list: int, k: nat, count: u16, ghosts: Seq<u16>)
    requires
        list + 2 <= data.len(),
        k < u16_at(data, list),
        many_end::<Attribute>(data, list + 2, k, count, ghosts) is Ok,
        ({
            let p = many_end::<Attribute>(data, list + 2, k, count, ghosts)->Ok_0;
            &&& ref_at(data, p, count, ghosts) is Ok
            &&& p + 6 <= data.len()
            &&& p + 6 + u32_at(data, p + 2) > data.len()
        }),
    ensures
        Vec::<Attribute>::parse(data, list, count, ghosts) == Err::<int, ClassReaderError>(ClassReaderError::UnexpectedEndOfData),
{
    lemma_many_first_error::<Attribute>(data, list + 2, k, u16_at(data, list) as nat, count, ghosts);
}

} // verus!
