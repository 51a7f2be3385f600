use vstd::prelude::*;

pub mod attribute;
pub mod buffer;
pub mod constants;
pub mod error;
pub mod field;
pub mod method;
pub mod version;

use attribute::{lemma_attributes_determined, lemma_oversized_payload, same_attributes, Attribute};
use buffer::{u16_at, u32_at, Buffer};
use constants::pool::{lemma_pool_cut, pool_at, scan};
use constants::item::{lemma_item_determined, same_item};
use constants::{increasing, ref_at, ConstItem, ConstItemIdx};
use error::ClassReaderError;
use field::{lemma_field_determined, same_field, Field};
use method::{lemma_method_determined, same_method, Method};
use version::{supported, ClassFileVersion};

pub use error::Result;

verus! {

/// A record that decodes itself from the cursor. `count` is the number of
/// entries in the pool and `ghosts` the sorted on-disk slots that wide
/// entries reserve; every pool reference is mapped through them.
pub trait Read: Sized {
    /// Where decoding from `pos` ends, or the error it meets.
    spec fn parse(data: Seq<u8>, pos: int, count: u16, ghosts: Seq<u16>) -> Result<int>;

    /// Whether `self` is what the bytes from `pos` decode to.
    spec fn parsed_as(&self, data: Seq<u8>, pos: int, count: u16, ghosts: Seq<u16>) -> bool;

    /// A record ends no earlier than it starts; cut to its first `len`
    /// bytes, the input decodes the same where the record lies within the
    /// cut, and fails with "premature end of input" where the cut falls
    /// inside it.
    /// Where a record ends does not depend on the pool it is checked against.
    proof fn lemma_end_any_pool(data: Seq<u8>, pos: int, c1: u16, g1: Seq<u16>, c2: u16, g2: Seq<u16>)
        requires
            Self::parse(data, pos, c1, g1) is Ok,
            Self::parse(data, pos, c2, g2) is Ok,
        ensures
            Self::parse(data, pos, c1, g1) == Self::parse(data, pos, c2, g2),
    ;

    proof fn lemma_cut(data: Seq<u8>, pos: int, count: u16, ghosts: Seq<u16>, len: int)
        requires
            0 <= pos,
            0 <= len <= data.len(),
            Self::parse(data, pos, count, ghosts) is Ok,
        ensures
            Self::parse(data, pos, count, ghosts)->Ok_0 >= pos,
            len >= Self::parse(data, pos, count, ghosts)->Ok_0 ==> Self::parse(data.take(len), pos, count, ghosts)
                == Self::parse(data, pos, count, ghosts),
            len < Self::parse(data, pos, count, ghosts)->Ok_0 ==> Self::parse(data.take(len), pos, count, ghosts)
                == Err::<int, ClassReaderError>(ClassReaderError::UnexpectedEndOfData),
    ;

    fn read(buf: &mut Buffer, count: u16, ghosts: &[u16]) -> (r: Result<Self>)
        requires
            old(buf).wf(),
            increasing(ghosts@),
        ensures
            final(buf).data == old(buf).data,
            final(buf).wf(),
            match r {
                Ok(v) => Self::parse(old(buf).data@, old(buf).pos as int, count, ghosts@) == Ok::<int, ClassReaderError>(final(buf).pos as int)
                    && v.parsed_as(old(buf).data@, old(buf).pos as int, count, ghosts@),
                Err(e) => Self::parse(old(buf).data@, old(buf).pos as int, count, ghosts@) == Err::<int, ClassReaderError>(e),
            },
    ;
}

/// Where `k` records decoded one after another from `pos` end.
pub open spec fn many_end<T: Read>(data: Seq<u8>, pos: int, k: nat, count: u16, ghosts: Seq<u16>) -> Result<int>
    decreases k,
{
    if k == 0 {
        Ok(pos)
    } else {
        match T::parse(data, pos, count, ghosts) {
            Err(e) => Err(e),
            Ok(end) => many_end::<T>(data, end, (k - 1) as nat, count, ghosts),
        }
    }
}

/// Where the `k`-th of the records decoded from `start` begins.
pub open spec fn many_pos<T: Read>(data: Seq<u8>, start: int, k: nat, count: u16, ghosts: Seq<u16>) -> int
    decreases k,
{
    if k == 0 {
        start
    } else {
        let p = many_pos::<T>(data, start, (k - 1) as nat, count, ghosts);
        match T::parse(data, p, count, ghosts) {
            Ok(end) => end,
            Err(_) => p,
        }
    }
}

/// A run of records, cut to the first `len` bytes of the input: the same
/// where the run lies within the cut, "premature end of input" where the cut
/// falls inside it.
pub proof fn lemma_many_cut<T: Read>(data: Seq<u8>, pos: int, k: nat, count: u16, ghosts: Seq<u16>, len: int)
    requires
        0 <= pos,
        0 <= len <= data.len(),
        many_end::<T>(data, pos, k, count, ghosts) is Ok,
    ensures
        many_end::<T>(data, pos, k, count, ghosts)->Ok_0 >= pos,
        len >= many_end::<T>(data, pos, k, count, ghosts)->Ok_0 ==> many_end::<T>(data.take(len), pos, k, count, ghosts)
            == many_end::<T>(data, pos, k, count, ghosts),
        pos <= len < many_end::<T>(data, pos, k, count, ghosts)->Ok_0 ==> many_end::<T>(data.take(len), pos, k, count, ghosts)
            == Err::<int, ClassReaderError>(ClassReaderError::UnexpectedEndOfData),
    decreases k,
{
    if k > 0 {
        let end = T::parse(data, pos, count, ghosts)->Ok_0;
        T::lemma_cut(data, pos, count, ghosts, len);
        lemma_many_cut::<T>(data, end, (k - 1) as nat, count, ghosts, len);
        let cut = data.take(len);
        if len < end {
            assert(T::parse(cut, pos, count, ghosts) == Err::<int, ClassReaderError>(ClassReaderError::UnexpectedEndOfData));
            assert(many_end::<T>(cut, pos, k, count, ghosts) == Err::<int, ClassReaderError>(ClassReaderError::UnexpectedEndOfData));
        } else {
            assert(T::parse(cut, pos, count, ghosts) == Ok::<int, ClassReaderError>(end));
            assert(many_end::<T>(cut, pos, k, count, ghosts) == many_end::<T>(cut, end, (k - 1) as nat, count, ghosts));
        }
    }
}

/// Where a run of records ends does not depend on the pool it is checked
/// against.
pub proof fn lemma_many_end_any_pool<T: Read>(data: Seq<u8>, pos: int, k: nat, c1: u16, g1: Seq<u16>, c2: u16, g2: Seq<u16>)
    requires
        many_end::<T>(data, pos, k, c1, g1) is Ok,
        many_end::<T>(data, pos, k, c2, g2) is Ok,
    ensures
        many_end::<T>(data, pos, k, c1, g1) == many_end::<T>(data, pos, k, c2, g2),
    decreases k,
{
    if k > 0 {
        T::lemma_end_any_pool(data, pos, c1, g1, c2, g2);
        let end = T::parse(data, pos, c1, g1)->Ok_0;
        lemma_many_end_any_pool::<T>(data, end, (k - 1) as nat, c1, g1, c2, g2);
    }
}

/// The first record of a sequence that fails to decode makes the whole
/// sequence fail with its error.
pub proof fn lemma_many_first_error<T: Read>(data: Seq<u8>, start: int, k: nat, n: nat, count: u16, ghosts: Seq<u16>)
    requires
        k < n,
        many_end::<T>(data, start, k, count, ghosts) is Ok,
        T::parse(data, many_end::<T>(data, start, k, count, ghosts)->Ok_0, count, ghosts) is Err,
    ensures
        many_end::<T>(data, start, n, count, ghosts) == Err::<int, ClassReaderError>(
            T::parse(data, many_end::<T>(data, start, k, count, ghosts)->Ok_0, count, ghosts)->Err_0,
        ),
    decreases k,
{
    if k > 0 {
        let end = T::parse(data, start, count, ghosts)->Ok_0;
        lemma_many_first_error::<T>(data, end, (k - 1) as nat, (n - 1) as nat, count, ghosts);
    }
}

/// Whether `items` are the records decoded one after another from `start`.
pub open spec fn many_parsed_as<T: Read>(items: Seq<T>, data: Seq<u8>, start: int, count: u16, ghosts: Seq<u16>) -> bool {
    forall|k: int| 0 <= k < items.len() ==> #[trigger] items[k].parsed_as(data, many_pos::<T>(data, start, k as nat, count, ghosts), count, ghosts)
}

/// Reads `n` records one after another.
pub fn read_many<T: Read>(buf: &mut Buffer, n: u16, count: u16, ghosts: &[u16]) -> (r: Result<Vec<T>>)
    requires
        old(buf).wf(),
        increasing(ghosts@),
    ensures
        final(buf).data == old(buf).data,
        final(buf).wf(),
        match r {
            Ok(v) => many_end::<T>(old(buf).data@, old(buf).pos as int, n as nat, count, ghosts@) == Ok::<int, ClassReaderError>(final(buf).pos as int)
                && v@.len() == n
                && many_parsed_as(v@, old(buf).data@, old(buf).pos as int, count, ghosts@),
            Err(e) => many_end::<T>(old(buf).data@, old(buf).pos as int, n as nat, count, ghosts@) == Err::<int, ClassReaderError>(e),
        },
{
    let ghost data = buf.data@;
    let ghost orig = buf.data;
    let ghost start = buf.pos as int;
    let mut vec: Vec<T> = Vec::with_capacity(n as usize);
    let mut i: u16 = 0;
    while i < n
        invariant
            buf.wf(),
            buf.data == orig,
            orig == old(buf).data,
            data == old(buf).data@,
            start == old(buf).pos as int,
            increasing(ghosts@),
            i <= n,
            vec@.len() == i,
            many_pos::<T>(data, start, i as nat, count, ghosts@) == buf.pos as int,
            many_end::<T>(data, buf.pos as int, (n - i) as nat, count, ghosts@) == many_end::<T>(data, start, n as nat, count, ghosts@),
            many_parsed_as(vec@, data, start, count, ghosts@),
        decreases n - i,
    {
        let ghost p = buf.pos as int;
        let ghost prev = vec@;
        let item = match T::read(buf, count, ghosts) {
            Ok(item) => item,
            Err(e) => {
                assert(many_end::<T>(data, p, (n - i) as nat, count, ghosts@) == Err::<int, ClassReaderError>(e));
                return Err(e);
            },
        };
        vec.push(item);
        i = i + 1;
        proof {
            assert(many_pos::<T>(data, start, i as nat, count, ghosts@) == buf.pos as int);
            assert forall|k: int| 0 <= k < vec@.len() implies #[trigger] vec@[k].parsed_as(data, many_pos::<T>(data, start, k as nat, count, ghosts@), count, ghosts@) by {
                if k < i - 1 {
                    assert(vec@[k] == prev[k]);
                }
            }
        }
    }
    Ok(vec)
}

impl<T: Read> Read for Vec<T> {
    open spec fn parse(data: Seq<u8>, pos: int, count: u16, ghosts: Seq<u16>) -> Result<int> {
        if pos + 2 > data.len() {
            Err(ClassReaderError::UnexpectedEndOfData)
        } else {
            many_end::<T>(data, pos + 2, u16_at(data, pos) as nat, count, ghosts)
        }
    }

    open spec fn parsed_as(&self, data: Seq<u8>, pos: int, count: u16, ghosts: Seq<u16>) -> bool {
        &&& pos + 2 <= data.len()
        &&& self@.len() == u16_at(data, pos)
        &&& many_parsed_as(self@, data, pos + 2, count, ghosts)
    }

    proof fn lemma_end_any_pool(data: Seq<u8>, pos: int, c1: u16, g1: Seq<u16>, c2: u16, g2: Seq<u16>) {
        lemma_many_end_any_pool::<T>(data, pos + 2, u16_at(data, pos) as nat, c1, g1, c2, g2);
    }

    proof fn lemma_cut(data: Seq<u8>, pos: int, count: u16, ghosts: Seq<u16>, len: int) {
        lemma_many_cut::<T>(data, pos + 2, u16_at(data, pos) as nat, count, ghosts, len);
    }

    fn read(buf: &mut Buffer, count: u16, ghosts: &[u16]) -> (r: Result<Self>) {
        let n = buf.read_u16()?;
        read_many(buf, n, count, ghosts)
    }
}

/// The flag word at `pos`, or the error for one that sets a bit outside `all`.
pub open spec fn class_flags_at(data: Seq<u8>, pos: int, all: u16) -> Result<u16> {
    if pos + 2 > data.len() {
        Err(ClassReaderError::UnexpectedEndOfData)
    } else if u16_at(data, pos) & !all != 0 {
        Err(ClassReaderError::InvalidClassAccessFlags(u16_at(data, pos)))
    } else {
        Ok(u16_at(data, pos))
    }
}

/// Access flags of a class.
#[derive(Debug, Clone, Copy, PartialEq, Eq, Structural)]
pub struct ClassAccessFlags {
    bits: u16,
}

impl ClassAccessFlags {
    pub const PUBLIC: u16 = 0x0001;
    pub const FINAL: u16 = 0x0010;
    pub const SUPER: u16 = 0x0020;
    pub const INTERFACE: u16 = 0x0200;
    pub const ABSTRACT: u16 = 0x0400;
    pub const SYNTHETIC: u16 = 0x1000;
    pub const ANNOTATION: u16 = 0x2000;
    pub const ENUM: u16 = 0x4000;

    /// Every bit that stands for a flag.
    pub const ALL: u16 = 0x7631;

    pub closed spec fn view(&self) -> u16 {
        self.bits
    }

    pub fn empty() -> (r: Self)
        ensures
            r.view() == 0,
    {
        ClassAccessFlags { bits: 0 }
    }

    /// The flags a bit word stands for, if it sets no unknown bit.
    pub fn from_bits(bits: u16) -> (r: Option<Self>)
        ensures
            bits & !Self::ALL == 0 ==> r is Some && r->Some_0.view() == bits,
            bits & !Self::ALL != 0 ==> r is None,
    {
        if bits & !Self::ALL == 0 {
            Some(ClassAccessFlags { bits })
        } else {
            None
        }
    }

    pub fn bits(&self) -> (r: u16)
        ensures
            r == self.view(),
    {
        self.bits
    }

    /// Whether every bit of `flag` is set.
    pub fn contains(&self, flag: u16) -> (r: bool)
        ensures
            r == (self.view() & flag == flag),
    {
        self.bits & flag == flag
    }

    /// Reads a flag word, rejecting one that sets an unknown bit.
    pub fn read(buf: &mut Buffer) -> (r: Result<Self>)
        requires
            old(buf).wf(),
        ensures
            final(buf).data == old(buf).data,
            final(buf).wf(),
            old(buf).has(2) ==> final(buf).pos == old(buf).pos + 2,
            !old(buf).has(2) ==> final(buf).pos == old(buf).pos,
            match r {
                Ok(f) => class_flags_at(old(buf).data@, old(buf).pos as int, Self::ALL) == Ok::<u16, ClassReaderError>(f.view())
                    && final(buf).pos == old(buf).pos + 2,
                Err(e) => class_flags_at(old(buf).data@, old(buf).pos as int, Self::ALL) == Err::<u16, ClassReaderError>(e),
            },
    {
        let num = buf.read_u16()?;
        match Self::from_bits(num) {
            Some(f) => Ok(f),
            None => Err(ClassReaderError::InvalidClassAccessFlags(num)),
        }
    }
}

impl Default for ClassAccessFlags {
    fn default() -> (r: Self)
        ensures
            r.view() == 0,
    {
        Self::empty()
    }
}

/// The magic number that opens every class file.
pub const MAGIC: u32 = 0xCAFEBABE;

/// What follows the constant pool, decoded from `pos` against a pool of
/// `count` entries: where each part begins and where the last ends.
#[verifier::opaque]
pub open spec fn body_at(data: Seq<u8>, pos: int, count: u16, ghosts: Seq<u16>) -> Result<(int, int, int, int)> {
    match class_flags_at(data, pos, ClassAccessFlags::ALL) {
        Err(e) => Err(e),
        Ok(_) => match ref_at(data, pos + 2, count, ghosts) {
            Err(e) => Err(e),
            Ok(_) => match Option::<ConstItemIdx>::parse(data, pos + 4, count, ghosts) {
                Err(e) => Err(e),
                Ok(_) => match Vec::<ConstItemIdx>::parse(data, pos + 6, count, ghosts) {
                    Err(e) => Err(e),
                    Ok(fields) => match Vec::<Field>::parse(data, fields, count, ghosts) {
                        Err(e) => Err(e),
                        Ok(methods) => match Vec::<Method>::parse(data, methods, count, ghosts) {
                            Err(e) => Err(e),
                            Ok(attributes) => match Vec::<Attribute>::parse(data, attributes, count, ghosts) {
                                Err(e) => Err(e),
                                Ok(end) => Ok((fields, methods, attributes, end)),
                            },
                        },
                    },
                },
            },
        },
    }
}

/// A whole class file: the pool (its size, ghost slots and end) and where
/// the parts after it begin, or the first error met.
pub open spec fn class_at(data: Seq<u8>) -> Result<(nat, Seq<u16>, int, (int, int, int, int))> {
    if data.len() < 4 {
        Err(ClassReaderError::UnexpectedEndOfData)
    } else if u32_at(data, 0) != MAGIC {
        Err(ClassReaderError::InvalidMagicBytes(u32_at(data, 0)))
    } else if data.len() < 8 {
        Err(ClassReaderError::UnexpectedEndOfData)
    } else if !supported(u16_at(data, 6), u16_at(data, 4)) {
        Err(ClassReaderError::UnsupportedVersion(u16_at(data, 6), u16_at(data, 4)))
    } else {
        match pool_at(data, 8) {
            Err(e) => Err(e),
            Ok((n, ghosts, body)) => match body_at(data, body, n as u16, ghosts) {
                Err(e) => Err(e),
                Ok(parts) => Ok((n, ghosts, body, parts)),
            },
        }
    }
}

/// A decoded class file.
#[derive(Debug, Clone)]
pub struct ClassFile {
    pub version: ClassFileVersion,
    pub constants: Vec<ConstItem>,
    pub access_flag: ClassAccessFlags,
    pub this_class: ConstItemIdx,
    pub super_class: Option<ConstItemIdx>,
    pub interfaces: Vec<ConstItemIdx>,
    pub fields: Vec<Field>,
    pub methods: Vec<Method>,
    pub attributes: Vec<Attribute>,
    pub empty_const_slots: Vec<u16>,
}

impl ClassFile {
    /// Whether `self` is what `data` decodes to.
    pub open spec fn decoded_from(&self, data: Seq<u8>) -> bool {
        match class_at(data) {
            Err(_) => false,
            Ok((n, ghosts, body, (fields, methods, attributes, _))) => {
                let count = n as u16;
                &&& self.constants@.len() == n
                &&& self.empty_const_slots@ == ghosts
                &&& self.version == ClassFileVersion { major: u16_at(data, 6), minor: u16_at(data, 4) }
                &&& many_parsed_as(self.constants@, data, 10, count, ghosts)
                &&& self.access_flag.view() == u16_at(data, body)
                &&& self.this_class.parsed_as(data, body + 2, count, ghosts)
                &&& self.super_class.parsed_as(data, body + 4, count, ghosts)
                &&& self.interfaces.parsed_as(data, body + 6, count, ghosts)
                &&& self.fields.parsed_as(data, fields, count, ghosts)
                &&& self.methods.parsed_as(data, methods, count, ghosts)
                &&& self.attributes.parsed_as(data, attributes, count, ghosts)
            },
        }
    }

    /// Decodes a whole class file.
    pub fn read(bytes: &[u8]) -> (r: Result<Self>)
        ensures
            match r {
                Ok(c) => c.decoded_from(bytes@),
                Err(e) => class_at(bytes@) == Err::<(nat, Seq<u16>, int, (int, int, int, int)), ClassReaderError>(e),
            },
    {
        proof {
            reveal(body_at);
        }
        let mut buf = Buffer::new(bytes);
        Self::check_magic_number(&mut buf)?;
        let version = Self::read_version(&mut buf)?;
        let (constants, empty_const_slots) = Self::read_constants(&mut buf)?;
        let ghost body = buf.pos as int;
        let consts_count = constants.len() as u16;
        let ghosts = empty_const_slots.as_slice();
        let access_flag = ClassAccessFlags::read(&mut buf)?;
        let this_class = ConstItemIdx::read(&mut buf, consts_count, ghosts)?;
        let super_class = Option::<ConstItemIdx>::read(&mut buf, consts_count, ghosts)?;
        let interfaces = Vec::<ConstItemIdx>::read(&mut buf, consts_count, ghosts)?;
        let fields = Vec::<Field>::read(&mut buf, consts_count, ghosts)?;
        let methods = Vec::<Method>::read(&mut buf, consts_count, ghosts)?;
        let attributes = Vec::<Attribute>::read(&mut buf, consts_count, ghosts)?;
        Ok(ClassFile {
            version,
            constants,
            access_flag,
            this_class,
            super_class,
            interfaces,
            fields,
            methods,
            attributes,
            empty_const_slots,
        })
    }

    fn check_magic_number(buf: &mut Buffer) -> (r: Result<()>)
        requires
            old(buf).wf(),
            old(buf).pos == 0,
        ensures
            final(buf).data == old(buf).data,
            final(buf).wf(),
            r is Ok ==> final(buf).pos == 4,
            r is Ok <==> old(buf).data@.len() >= 4 && u32_at(old(buf).data@, 0) == MAGIC,
            old(buf).data@.len() < 4 ==> r == Err::<(), ClassReaderError>(ClassReaderError::UnexpectedEndOfData),
            old(buf).data@.len() >= 4 && u32_at(old(buf).data@, 0) != MAGIC
                ==> r == Err::<(), ClassReaderError>(ClassReaderError::InvalidMagicBytes(u32_at(old(buf).data@, 0))),
    {
        let bytes = buf.read_u32()?;
        if bytes == MAGIC {
            Ok(())
        } else {
            Err(ClassReaderError::InvalidMagicBytes(bytes))
        }
    }

    fn read_version(buf: &mut Buffer) -> (r: Result<ClassFileVersion>)
        requires
            old(buf).wf(),
            old(buf).pos == 4,
        ensures
            final(buf).data == old(buf).data,
            final(buf).wf(),
            ({
                let d = old(buf).data@;
                &&& d.len() < 8 ==> r == Err::<ClassFileVersion, ClassReaderError>(ClassReaderError::UnexpectedEndOfData)
                &&& d.len() >= 8 && supported(u16_at(d, 6), u16_at(d, 4)) ==> final(buf).pos == 8
                    && r == Ok::<ClassFileVersion, ClassReaderError>(ClassFileVersion { major: u16_at(d, 6), minor: u16_at(d, 4) })
                &&& d.len() >= 8 && !supported(u16_at(d, 6), u16_at(d, 4))
                    ==> r == Err::<ClassFileVersion, ClassReaderError>(ClassReaderError::UnsupportedVersion(u16_at(d, 6), u16_at(d, 4)))
            }),
    {
        if buf.data.len() < 8 {
            return Err(ClassReaderError::UnexpectedEndOfData);
        }
        let minor = buf.read_u16()?;
        let major = buf.read_u16()?;
        ClassFileVersion::from(major, minor)
    }

    /// Decodes the constant pool in two passes: the first finds the ghost
    /// slots that wide entries reserve, the second decodes the entries again
    /// with every reference mapped through them.
    fn read_constants(buf: &mut Buffer) -> (r: Result<(Vec<ConstItem>, Vec<u16>)>)
        requires
            old(buf).wf(),
        ensures
            final(buf).data == old(buf).data,
            final(buf).wf(),
            match r {
                Ok((consts, ghosts)) => {
                    &&& pool_at(old(buf).data@, old(buf).pos as int) == Ok::<(nat, Seq<u16>, int), ClassReaderError>(
                        (consts@.len(), ghosts@, final(buf).pos as int))
                    &&& increasing(ghosts@)
                    &&& many_parsed_as(consts@, old(buf).data@, old(buf).pos + 2, consts@.len() as u16, ghosts@)
                },
                Err(e) => pool_at(old(buf).data@, old(buf).pos as int) == Err::<(nat, Seq<u16>, int), ClassReaderError>(e),
            },
            !old(buf).has(2) ==> final(buf).pos == old(buf).pos,
            ({
                let d = old(buf).data@;
                let p = old(buf).pos as int;
                old(buf).has(2) && (u16_at(d, p) == 0 || scan(d, p + 2, 0, (u16_at(d, p) - 1) as u16, 0, Seq::empty()) is Err)
                    ==> r is Err && final(buf).pos == p + 2
            }),
    {
        let ghost data = buf.data@;
        proof {
            reveal(pool_at);
        }
        let raw = buf.read_u16()?;
        if raw == 0 {
            return Err(ClassReaderError::InvalidConstantPoolIdx(0));
        }
        let consts_count = raw - 1;
        let pos = buf.get_pos();
        let no_ghosts: Vec<u16> = Vec::new();
        let mut empty_const_slots: Vec<u16> = Vec::new();
        let mut real_len: u16 = 0;
        let mut i: u16 = 0;
        while i < consts_count
            invariant
                buf.wf(),
                buf.data == old(buf).data,
                data == old(buf).data@,
                pos == old(buf).pos + 2,
                pos <= data.len(),
                u16_at(data, old(buf).pos as int) == consts_count + 1,
                no_ghosts@.len() == 0,
                consts_count < 0xFFFF,
                i <= consts_count + 1,
                real_len + empty_const_slots@.len() == i,
                increasing(empty_const_slots@),
                forall|j: int| 0 <= j < empty_const_slots@.len() ==> empty_const_slots@[j] < i,
                scan(data, buf.pos as int, i as int, consts_count, real_len as nat, empty_const_slots@)
                    == scan(data, pos as int, 0, consts_count, 0, Seq::empty()),
            decreases consts_count + 1 - i,
        {
            let ghost p = buf.pos as int;
            assert(no_ghosts@ =~= Seq::<u16>::empty());
            let item = match ConstItem::read(buf, consts_count, no_ghosts.as_slice()) {
                Ok(item) => item,
                Err(e) => {
                    assert(scan(data, p, i as int, consts_count, real_len as nat, empty_const_slots@)
                        == Err::<(nat, Seq<u16>), ClassReaderError>(e));
                    buf.set_pos(pos);
                    proof {
                        reveal(pool_at);
                    }
                    return Err(e);
                },
            };
            if item.is_8bit() {
                i = i + 1;
                empty_const_slots.push(i);
            }
            real_len = real_len + 1;
            i = i + 1;
        }
        buf.set_pos(pos);
        let ghosts = empty_const_slots.as_slice();
        assert(empty_const_slots@ =~= ghosts@);
        proof {
            reveal(pool_at);
        }
        let consts = read_many::<ConstItem>(buf, real_len, real_len, ghosts)?;
        Ok((consts, empty_const_slots))
    }
}

/// What follows the pool, cut short before its end, fails with "premature
/// end of input".
pub proof fn lemma_body_cut(data: Seq<u8>, body: int, count: u16, ghosts: Seq<u16>, len: int)
    requires
        0 <= body,
        body_at(data, body, count, ghosts) is Ok,
        body <= len < body_at(data, body, count, ghosts)->Ok_0.3,
        len <= data.len(),
    ensures
        body_at(data.take(len), body, count, ghosts) == Err::<(int, int, int, int), ClassReaderError>(
            ClassReaderError::UnexpectedEndOfData,
        ),
{
    reveal(body_at);
    let cut = data.take(len);
    let (fields, methods, attributes, end) = body_at(data, body, count, ghosts)->Ok_0;
    Option::<ConstItemIdx>::lemma_cut(data, body + 4, count, ghosts, len);
    Vec::<ConstItemIdx>::lemma_cut(data, body + 6, count, ghosts, len);
    Vec::<Field>::lemma_cut(data, fields, count, ghosts, len);
    Vec::<Method>::lemma_cut(data, methods, count, ghosts, len);
    Vec::<Attribute>::lemma_cut(data, attributes, count, ghosts, len);
    if len < body + 2 {
        assert(class_flags_at(cut, body, ClassAccessFlags::ALL) is Err);
    } else {
        assert(cut[body] == data[body] && cut[body + 1] == data[body + 1]);
        assert(class_flags_at(cut, body, ClassAccessFlags::ALL) == class_flags_at(data, body, ClassAccessFlags::ALL));
        if len < body + 4 {
            assert(ref_at(cut, body + 2, count, ghosts) is Err);
        } else {
            assert(cut[body + 2] == data[body + 2] && cut[body + 3] == data[body + 3]);
            assert(ref_at(cut, body + 2, count, ghosts) == ref_at(data, body + 2, count, ghosts));
        }
    }
}

/// A class file cut short anywhere before the end of what it decodes fails
/// with "premature end of input", whichever field the cut falls in.
pub proof fn lemma_truncated_class(data: Seq<u8>, len: int)
    requires
        class_at(data) is Ok,
        0 <= len < class_at(data)->Ok_0.3.3,
        len <= data.len(),
    ensures
        class_at(data.take(len)) == Err::<(nat, Seq<u16>, int, (int, int, int, int)), ClassReaderError>(
            ClassReaderError::UnexpectedEndOfData,
        ),
{
    let cut = data.take(len);
    let (n, g, body, parts) = class_at(data)->Ok_0;
    if len >= 4 {
        assert(cut[0] == data[0] && cut[1] == data[1] && cut[2] == data[2] && cut[3] == data[3]);
        assert(u32_at(cut, 0) == u32_at(data, 0));
    }
    if len >= 8 {
        assert(cut[4] == data[4] && cut[5] == data[5] && cut[6] == data[6] && cut[7] == data[7]);
        assert(u16_at(cut, 4) == u16_at(data, 4));
        assert(u16_at(cut, 6) == u16_at(data, 6));
        assert(pool_at(data, 8) == Ok::<(nat, Seq<u16>, int), ClassReaderError>((n, g, body)));
        assert(body_at(data, body, n as u16, g) == Ok::<(int, int, int, int), ClassReaderError>(parts));
        lemma_pool_cut(data, 8, len);
        if len >= body {
            assert(pool_at(cut, 8) == pool_at(data, 8));
            lemma_body_cut(data, body, n as u16, g, len);
        } else {
            assert(pool_at(cut, 8) is Err);
        }
    }
}

/// A class whose decoding reaches its own attribute list, and finds there an
/// attribute whose payload is longer than the bytes left, fails with
/// "premature end of input" rather than keeping a cut payload.
pub proof fn lemma_class_oversized_payload(data: Seq<u8>, k: nat)
    requires
        data.len() >= 8,
        u32_at(data, 0) == MAGIC,
        supported(u16_at(data, 6), u16_at(data, 4)),
        pool_at(data, 8) is Ok,
        ({
            let (n, g, body) = pool_at(data, 8)->Ok_0;
            let c = n as u16;
            &&& class_flags_at(data, body, ClassAccessFlags::ALL) is Ok
            &&& ref_at(data, body + 2, c, g) is Ok
            &&& Option::<ConstItemIdx>::parse(data, body + 4, c, g) is Ok
            &&& Vec::<ConstItemIdx>::parse(data, body + 6, c, g) is Ok
            &&& Vec::<Field>::parse(data, Vec::<ConstItemIdx>::parse(data, body + 6, c, g)->Ok_0, c, g) is Ok
            &&& ({
                let methods = Vec::<Field>::parse(data, Vec::<ConstItemIdx>::parse(data, body + 6, c, g)->Ok_0, c, g)->Ok_0;
                &&& Vec::<Method>::parse(data, methods, c, g) is Ok
                &&& ({
                    let list = Vec::<Method>::parse(data, methods, c, g)->Ok_0;
                    &&& list + 2 <= data.len()
                    &&& k < u16_at(data, list)
                    &&& many_end::<Attribute>(data, list + 2, k, c, g) is Ok
                    &&& ({
                        let p = many_end::<Attribute>(data, list + 2, k, c, g)->Ok_0;
                        &&& ref_at(data, p, c, g) is Ok
                        &&& p + 6 <= data.len()
                        &&& p + 6 + u32_at(data, p + 2) > data.len()
                    })
                })
            })
        }),
    ensures
        class_at(data) == Err::<(nat, Seq<u16>, int, (int, int, int, int)), ClassReaderError>(ClassReaderError::UnexpectedEndOfData),
{
    reveal(body_at);
    let (n, g, body) = pool_at(data, 8)->Ok_0;
    let c = n as u16;
    let methods = Vec::<Field>::parse(data, Vec::<ConstItemIdx>::parse(data, body + 6, c, g)->Ok_0, c, g)->Ok_0;
    let list = Vec::<Method>::parse(data, methods, c, g)->Ok_0;
    lemma_oversized_payload(data, list, k, c, g);
}

/// Decoding is a function of the bytes: two results of the same bytes agree
/// in every part, entry by entry and record by record.
pub proof fn lemma_decode_deterministic(data: Seq<u8>, a: ClassFile, b: ClassFile)
    requires
        a.decoded_from(data),
        b.decoded_from(data),
    ensures
        a.version == b.version,
        a.empty_const_slots@ == b.empty_const_slots@,
        a.constants@.len() == b.constants@.len(),
        forall|k: int| 0 <= k < a.constants@.len() ==> same_item(#[trigger] a.constants@[k], b.constants@[k]),
        a.access_flag == b.access_flag,
        a.this_class == b.this_class,
        a.super_class == b.super_class,
        a.interfaces@ == b.interfaces@,
        a.fields@.len() == b.fields@.len(),
        forall|k: int| 0 <= k < a.fields@.len() ==> same_field(#[trigger] a.fields@[k], b.fields@[k]),
        a.methods@.len() == b.methods@.len(),
        forall|k: int| 0 <= k < a.methods@.len() ==> same_method(#[trigger] a.methods@[k], b.methods@[k]),
        same_attributes(a.attributes@, b.attributes@),
{
    if let Ok((n, ghosts, body, (fields, methods, attributes, _))) = class_at(data) {
        let count = n as u16;
        assert forall|k: int| 0 <= k < a.constants@.len() implies same_item(#[trigger] a.constants@[k], b.constants@[k]) by {
            let p = many_pos::<ConstItem>(data, 10, k as nat, count, ghosts);
            lemma_item_determined(a.constants@[k], b.constants@[k], data, p, count, ghosts);
        }
        assert forall|k: int| 0 <= k < a.interfaces@.len() implies a.interfaces@[k] == b.interfaces@[k] by {
            assert(a.interfaces@[k].parsed_as(data, many_pos::<ConstItemIdx>(data, body + 8, k as nat, count, ghosts), count, ghosts));
            assert(b.interfaces@[k].parsed_as(data, many_pos::<ConstItemIdx>(data, body + 8, k as nat, count, ghosts), count, ghosts));
        }
        assert(a.interfaces@ =~= b.interfaces@);
        assert forall|k: int| 0 <= k < a.fields@.len() implies same_field(#[trigger] a.fields@[k], b.fields@[k]) by {
            let p = many_pos::<Field>(data, fields + 2, k as nat, count, ghosts);
            lemma_field_determined(a.fields@[k], b.fields@[k], data, p, count, ghosts);
        }
        assert forall|k: int| 0 <= k < a.methods@.len() implies same_method(#[trigger] a.methods@[k], b.methods@[k]) by {
            let p = many_pos::<Method>(data, methods + 2, k as nat, count, ghosts);
            lemma_method_determined(a.methods@[k], b.methods@[k], data, p, count, ghosts);
        }
        lemma_attributes_determined(a.attributes, b.attributes, data, attributes, count, ghosts);
    }
}

} // verus!
