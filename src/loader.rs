use vstd::prelude::*;
use vstd::utf8::{decode_utf8, valid_utf8};
use crate::bytes::{be16, be32, be64, Loader};

verus! {

/// The exact value of a float or double constant, reconstructed from its
/// bit pattern: an infinity, NaN, or `(-1)^negative * mantissa * 2^exponent`.
#[derive(Clone, Copy, Debug, PartialEq, Eq, Structural)]
pub enum FloatConst {
    PositiveInfinity,
    NegativeInfinity,
    NaN,
    Finite { negative: bool, mantissa: u64, exponent: i32 },
}

/// The first payload slot of a constant-pool entry.
#[derive(Clone, Debug)]
pub enum Data1 {
    Empty,
    NameIndex(u16),
    ClassIndex(u16),
    StringIndex(u16),
    Int(i32),
    Float(FloatConst),
    Long(i64),
    Double(FloatConst),
    String(String),
    ReferenceKind(u8),
    BootstrapMethodAttrIndex(u16),
}

/// The second payload slot of a constant-pool entry.
#[derive(Clone, Copy, Debug, PartialEq, Eq, Structural)]
pub enum Data2 {
    Empty,
    NameAndTypeIndex(u16),
    DescriptorIndex(u16),
    ReferenceIndex(u16),
}

/// One constant-pool slot. Tag 0 marks the unusable slot that follows a
/// long or double constant.
#[derive(Clone, Debug)]
pub struct Constant {
    pub tag: u8,
    pub data1: Data1,
    pub data2: Data2,
}

impl Constant {
    pub fn new(tag: u8) -> (r: Constant)
        ensures
            r.tag == tag,
            r.data1 is Empty,
            r.data2 is Empty,
    {
        Constant { tag, data1: Data1::Empty, data2: Data2::Empty }
    }
}

/// A named attribute with its raw payload.
#[derive(Clone, Debug)]
pub struct Attribute {
    pub name: String,
    pub info: Vec<u8>,
}

impl Attribute {
    pub fn new(name: String, info: Vec<u8>) -> (r: Attribute)
        ensures
            r.name == name,
            r.info == info,
    {
        Attribute { name, info }
    }

    /// A deep copy.
    pub fn duplicate(&self) -> (r: Attribute)
        ensures
            r.name@ == self.name@,
            r.info@ == self.info@,
    {
        let mut info: Vec<u8> = Vec::new();
        let mut i: usize = 0;
        while i < self.info.len()
            invariant
                i <= self.info@.len(),
                info@ == self.info@.subrange(0, i as int),
            decreases self.info@.len() - i,
        {
            info.push(self.info[i]);
            i = i + 1;
            proof {
                assert(info@ =~= self.info@.subrange(0, i as int));
            }
        }
        proof {
            assert(info@ =~= self.info@);
        }
        Attribute { name: self.name.clone(), info }
    }
}

/// Whether two attribute lists hold the same names and payloads.
pub open spec fn same_attributes(a: Seq<Attribute>, b: Seq<Attribute>) -> bool {
    &&& a.len() == b.len()
    &&& forall|i: int|
        0 <= i < a.len() ==> (#[trigger] a[i]).name@ == b[i].name@ && a[i].info@ == b[i].info@
}

/// A field or method record.
#[derive(Clone, Debug)]
pub struct Field {
    pub access_flags: u16,
    pub name: String,
    pub descriptor: String,
    pub attributes: Vec<Attribute>,
}

impl Field {
    pub fn new(access_flags: u16, name: String, descriptor: String, attributes: Vec<Attribute>) -> (r:
        Field)
        ensures
            r.access_flags == access_flags,
            r.name == name,
            r.descriptor == descriptor,
            r.attributes == attributes,
    {
        Field { access_flags, name, descriptor, attributes }
    }

    /// A deep copy.
    pub fn duplicate(&self) -> (r: Field)
        ensures
            same_field(r, *self),
    {
        let mut attributes: Vec<Attribute> = Vec::new();
        let mut i: usize = 0;
        while i < self.attributes.len()
            invariant
                i <= self.attributes@.len(),
                same_attributes(attributes@, self.attributes@.subrange(0, i as int)),
            decreases self.attributes@.len() - i,
        {
            attributes.push(self.attributes[i].duplicate());
            i = i + 1;
        }
        proof {
            assert(self.attributes@.subrange(0, i as int) =~= self.attributes@);
        }
        Field {
            access_flags: self.access_flags,
            name: self.name.clone(),
            descriptor: self.descriptor.clone(),
            attributes,
        }
    }
}

/// Whether two field records are equal in every part.
pub open spec fn same_field(a: Field, b: Field) -> bool {
    &&& a.access_flags == b.access_flags
    &&& a.name@ == b.name@
    &&& a.descriptor@ == b.descriptor@
    &&& same_attributes(a.attributes@, b.attributes@)
}

/// Whether two field lists are equal record by record.
pub open spec fn same_fields(a: Seq<Field>, b: Seq<Field>) -> bool {
    &&& a.len() == b.len()
    &&& forall|i: int| 0 <= i < a.len() ==> same_field(#[trigger] a[i], b[i])
}

/// Copies a list of field records.
pub fn duplicate_fields(fields: &Vec<Field>) -> (r: Vec<Field>)
    ensures
        same_fields(r@, fields@),
{
    let mut r: Vec<Field> = Vec::new();
    let mut i: usize = 0;
    while i < fields.len()
        invariant
            i <= fields@.len(),
            same_fields(r@, fields@.subrange(0, i as int)),
        decreases fields@.len() - i,
    {
        r.push(fields[i].duplicate());
        i = i + 1;
    }
    proof {
        assert(fields@.subrange(0, i as int) =~= fields@);
    }
    r
}

/// A loaded class file.
#[derive(Clone, Debug)]
pub struct Class {
    pub initialized: bool,
    pub major_version: u16,
    pub minor_version: u16,
    pub constant_pool: Vec<Constant>,
    pub access_flags: u16,
    pub this_class: String,
    pub super_class: String,
    pub interfaces: Vec<String>,
    pub fields: Vec<Field>,
    pub methods: Vec<Field>,
    pub attributes: Vec<Attribute>,
}

impl Class {
    pub fn new(
        major_version: u16,
        minor_version: u16,
        constant_pool: Vec<Constant>,
        access_flags: u16,
        this_class: String,
        super_class: String,
        interfaces: Vec<String>,
        fields: Vec<Field>,
        methods: Vec<Field>,
        attributes: Vec<Attribute>,
    ) -> (r: Class)
        ensures
            !r.initialized,
            r.major_version == major_version,
            r.minor_version == minor_version,
            r.constant_pool == constant_pool,
            r.access_flags == access_flags,
            r.this_class == this_class,
            r.super_class == super_class,
            r.interfaces == interfaces,
            r.fields == fields,
            r.methods == methods,
            r.attributes == attributes,
    {
        Class {
            initialized: false,
            major_version,
            minor_version,
            constant_pool,
            access_flags,
            this_class,
            super_class,
            interfaces,
            fields,
            methods,
            attributes,
        }
    }
}

/// Why a class file could not be loaded.
#[derive(Clone, Copy, Debug, PartialEq, Eq, Structural)]
pub enum LoadError {
    /// The data ends inside an item.
    UnexpectedEnd,
    /// A text constant is not valid UTF-8.
    InvalidUtf8,
    /// A constant-pool tag outside the known set.
    UnsupportedTag(u8),
    /// A constant-pool index that is zero, out of range, or names an entry of the wrong kind.
    InvalidIndex,
}

/// The two's-complement value of a 32-bit pattern.
pub open spec fn signed32(u: int) -> int {
    if u >= 0x8000_0000 {
        u - 0x1_0000_0000
    } else {
        u
    }
}

/// The two's-complement value of a 64-bit pattern.
pub open spec fn signed64(u: int) -> int {
    if u >= 0x8000_0000_0000_0000 {
        u - 0x1_0000_0000_0000_0000
    } else {
        u
    }
}

fn to_i32(x: u32) -> (r: i32)
    ensures
        r == signed32(x as int),
{
    if x >= 0x8000_0000 {
        (x - 0x8000_0000) as i32 - 0x7fff_ffff - 1
    } else {
        x as i32
    }
}

fn to_i64(x: u64) -> (r: i64)
    ensures
        r == signed64(x as int),
{
    if x >= 0x8000_0000_0000_0000 {
        (x - 0x8000_0000_0000_0000) as i64 - 0x7fff_ffff_ffff_ffff - 1
    } else {
        x as i64
    }
}

/// The value of single-precision bit pattern `b`: its biased exponent is
/// `b / 2^23 % 256` and its fraction `b % 2^23`. An all-ones exponent gives an
/// infinity (zero fraction) or NaN; otherwise the value is
/// `±m * 2^(e - 150)`, with the leading one added to a normal fraction and a
/// subnormal fraction doubled.
pub open spec fn float_value(b: int) -> FloatConst {
    let e = b / 0x80_0000 % 256;
    let f = b % 0x80_0000;
    if b == 0x7f80_0000 {
        FloatConst::PositiveInfinity
    } else if b == 0xff80_0000 {
        FloatConst::NegativeInfinity
    } else if e == 255 {
        FloatConst::NaN
    } else {
        FloatConst::Finite {
            negative: b >= 0x8000_0000,
            mantissa: (if e == 0 { f * 2 } else { f + 0x80_0000 }) as u64,
            exponent: (e - 150) as i32,
        }
    }
}

/// The value of double-precision bit pattern `b`, by the same rule with an
/// 11-bit exponent, a 52-bit fraction and a bias of 1075.
pub open spec fn double_value(b: int) -> FloatConst {
    let e = b / 0x10_0000_0000_0000 % 2048;
    let f = b % 0x10_0000_0000_0000;
    if b == 0x7ff0_0000_0000_0000 {
        FloatConst::PositiveInfinity
    } else if b == 0xfff0_0000_0000_0000 {
        FloatConst::NegativeInfinity
    } else if e == 2047 {
        FloatConst::NaN
    } else {
        FloatConst::Finite {
            negative: b >= 0x8000_0000_0000_0000,
            mantissa: (if e == 0 { f * 2 } else { f + 0x10_0000_0000_0000 }) as u64,
            exponent: (e - 1075) as i32,
        }
    }
}

/// Reconstructs a float constant from its bit pattern.
pub fn decode_float(bits: u32) -> (r: FloatConst)
    ensures
        r == float_value(bits as int),
        bits == 0x7f80_0000 ==> r is PositiveInfinity,
        bits == 0xff80_0000 ==> r is NegativeInfinity,
        r is NaN <==> bits / 0x80_0000 % 256 == 255 && bits % 0x80_0000 != 0,
{
    let e: u32 = bits / 0x80_0000 % 256;
    let f: u32 = bits % 0x80_0000;
    if bits == 0x7f80_0000 {
        FloatConst::PositiveInfinity
    } else if bits == 0xff80_0000 {
        FloatConst::NegativeInfinity
    } else if e == 255 {
        FloatConst::NaN
    } else {
        let mantissa: u32 = if e == 0 { f * 2 } else { f + 0x80_0000 };
        FloatConst::Finite {
            negative: bits >= 0x8000_0000,
            mantissa: mantissa as u64,
            exponent: e as i32 - 150,
        }
    }
}

/// Reconstructs a double constant from its bit pattern.
pub fn decode_double(bits: u64) -> (r: FloatConst)
    ensures
        r == double_value(bits as int),
        bits == 0x7ff0_0000_0000_0000 ==> r is PositiveInfinity,
        bits == 0xfff0_0000_0000_0000 ==> r is NegativeInfinity,
        r is NaN <==> bits / 0x10_0000_0000_0000 % 2048 == 2047 && bits % 0x10_0000_0000_0000
            != 0,
{
    let e: u64 = bits / 0x10_0000_0000_0000 % 2048;
    let f: u64 = bits % 0x10_0000_0000_0000;
    if bits == 0x7ff0_0000_0000_0000 {
        FloatConst::PositiveInfinity
    } else if bits == 0xfff0_0000_0000_0000 {
        FloatConst::NegativeInfinity
    } else if e == 2047 {
        FloatConst::NaN
    } else {
        let mantissa: u64 = if e == 0 { f * 2 } else { f + 0x10_0000_0000_0000 };
        FloatConst::Finite {
            negative: bits >= 0x8000_0000_0000_0000,
            mantissa,
            exponent: e as i32 - 1075,
        }
    }
}

/// Relies on `String::from_utf8`: it succeeds exactly on valid UTF-8, and the
/// string then holds the decoded characters.
#[verifier::external_body]
fn utf8_string(b: Vec<u8>) -> (r: Option<String>)
    ensures
        r is Some <==> valid_utf8(b@),
        r is Some ==> r->Some_0@ == decode_utf8(b@),
{
    String::from_utf8(b).ok()
}

/// The tags of the constant kinds that the loader reads.
pub open spec fn known_tag(t: u8) -> bool {
    t == 1 || 3 <= t <= 12 || 15 <= t <= 20
}

/// Long and double constants take two pool slots.
pub open spec fn is_wide(t: u8) -> bool {
    t == 5 || t == 6
}

/// The number of payload bytes after the tag of the constant at `p`.
pub open spec fn payload_len(d: Seq<u8>, p: int) -> int {
    let t = d[p];
    if t == 1 {
        2 + be16(d, p + 1)
    } else if t == 3 || t == 4 {
        4
    } else if t == 5 || t == 6 {
        8
    } else if t == 7 || t == 8 || t == 16 || t == 19 || t == 20 {
        2
    } else if t == 15 {
        3
    } else {
        4
    }
}

/// Where the constant at `p` ends.
pub open spec fn constant_end(d: Seq<u8>, p: int) -> int {
    p + 1 + payload_len(d, p)
}

/// The text bytes of the UTF-8 constant at `p`.
pub open spec fn utf8_bytes(d: Seq<u8>, p: int) -> Seq<u8> {
    d.subrange(p + 3, p + 3 + be16(d, p + 1))
}

/// A well-formed constant starts at `p`: known tag, enough bytes, valid text.
pub open spec fn constant_ok(d: Seq<u8>, p: int) -> bool {
    &&& 0 <= p < d.len()
    &&& known_tag(d[p])
    &&& (d[p] == 1 ==> p + 3 <= d.len())
    &&& constant_end(d, p) <= d.len()
    &&& (d[p] == 1 ==> valid_utf8(utf8_bytes(d, p)))
}

/// `c` is the constant encoded at `p`.
pub open spec fn constant_is(d: Seq<u8>, p: int, c: Constant) -> bool {
    let t = d[p];
    let a = be16(d, p + 1) as u16;
    let b = be16(d, p + 3) as u16;
    &&& c.tag == t
    &&& if t == 1 {
        c.data1 is String && c.data1->String_0@ == decode_utf8(utf8_bytes(d, p)) && c.data2
            is Empty
    } else if t == 3 {
        c.data1 == Data1::Int(signed32(be32(d, p + 1)) as i32) && c.data2 is Empty
    } else if t == 4 {
        c.data1 == Data1::Float(float_value(be32(d, p + 1))) && c.data2 is Empty
    } else if t == 5 {
        c.data1 == Data1::Long(signed64(be64(d, p + 1)) as i64) && c.data2 is Empty
    } else if t == 6 {
        c.data1 == Data1::Double(double_value(be64(d, p + 1))) && c.data2 is Empty
    } else if t == 7 || t == 19 || t == 20 {
        c.data1 == Data1::NameIndex(a) && c.data2 is Empty
    } else if t == 8 {
        c.data1 == Data1::StringIndex(a) && c.data2 is Empty
    } else if 9 <= t <= 11 {
        c.data1 == Data1::ClassIndex(a) && c.data2 == Data2::NameAndTypeIndex(b)
    } else if t == 12 {
        c.data1 == Data1::NameIndex(a) && c.data2 == Data2::DescriptorIndex(b)
    } else if t == 15 {
        c.data1 == Data1::ReferenceKind(d[p + 1]) && c.data2 == Data2::ReferenceIndex(
            be16(d, p + 2) as u16,
        )
    } else if t == 16 {
        c.data1 is Empty && c.data2 == Data2::DescriptorIndex(a)
    } else {
        c.data1 == Data1::BootstrapMethodAttrIndex(a) && c.data2 == Data2::NameAndTypeIndex(b)
    }
}

fn need<T>(r: Option<T>) -> (out: Result<T, LoadError>)
    ensures
        r is Some <==> out is Ok,
        r is Some ==> out == Ok::<T, LoadError>(r->Some_0),
{
    match r {
        Some(v) => Ok(v),
        None => Err(LoadError::UnexpectedEnd),
    }
}

/// Reads one constant-pool entry.
fn parse_constant(loader: &mut Loader) -> (r: Result<Constant, LoadError>)
    requires
        old(loader).pos() <= old(loader).data().len(),
    ensures
        final(loader).data() == old(loader).data(),
        final(loader).pos() <= final(loader).data().len(),
        r is Ok <==> constant_ok(old(loader).data(), old(loader).pos()),
        r is Ok ==> constant_is(old(loader).data(), old(loader).pos(), r->Ok_0) && final(loader).pos()
            == constant_end(old(loader).data(), old(loader).pos()),
{
    let ghost d = loader.data();
    let ghost p = loader.pos();
    proof {
        loader.lemma_pos_nonneg();
    }
    let tag = need(loader.u1())?;
    let mut constant = Constant::new(tag);
    if tag == 1 {
        let length = need(loader.u2())?;
        let bytes = need(loader.bytes(length as usize))?;
        match utf8_string(bytes) {
            Some(text) => {
                constant.data1 = Data1::String(text);
            },
            None => {
                return Err(LoadError::InvalidUtf8);
            },
        }
    } else if tag == 3 {
        let v = need(loader.u4())?;
        constant.data1 = Data1::Int(to_i32(v));
    } else if tag == 4 {
        let v = need(loader.u4())?;
        constant.data1 = Data1::Float(decode_float(v));
    } else if tag == 5 {
        let v = need(loader.u8())?;
        constant.data1 = Data1::Long(to_i64(v));
    } else if tag == 6 {
        let v = need(loader.u8())?;
        constant.data1 = Data1::Double(decode_double(v));
    } else if tag == 7 || tag == 19 || tag == 20 {
        constant.data1 = Data1::NameIndex(need(loader.u2())?);
    } else if tag == 8 {
        constant.data1 = Data1::StringIndex(need(loader.u2())?);
    } else if 9 <= tag && tag <= 11 {
        constant.data1 = Data1::ClassIndex(need(loader.u2())?);
        constant.data2 = Data2::NameAndTypeIndex(need(loader.u2())?);
    } else if tag == 12 {
        constant.data1 = Data1::NameIndex(need(loader.u2())?);
        constant.data2 = Data2::DescriptorIndex(need(loader.u2())?);
    } else if tag == 15 {
        constant.data1 = Data1::ReferenceKind(need(loader.u1())?);
        constant.data2 = Data2::ReferenceIndex(need(loader.u2())?);
    } else if tag == 16 {
        constant.data2 = Data2::DescriptorIndex(need(loader.u2())?);
    } else if tag == 17 || tag == 18 {
        constant.data1 = Data1::BootstrapMethodAttrIndex(need(loader.u2())?);
        constant.data2 = Data2::NameAndTypeIndex(need(loader.u2())?);
    } else {
        return Err(LoadError::UnsupportedTag(tag));
    }
    Ok(constant)
}

/// Where pool slot `s` starts, counting from the first entry at `p0`, and
/// whether it is the unusable slot that follows a long or double constant.
pub open spec fn slot(d: Seq<u8>, p0: int, s: nat) -> (int, bool)
    decreases s,
{
    if s == 0 {
        (p0, false)
    } else {
        let prev = slot(d, p0, (s - 1) as nat);
        if prev.1 {
            (prev.0, false)
        } else {
            (constant_end(d, prev.0), is_wide(d[prev.0]))
        }
    }
}

/// The number of slots of the pool whose count field is at `p`.
pub open spec fn pool_slots(d: Seq<u8>, p: int) -> nat {
    if be16(d, p) == 0 {
        0
    } else {
        (be16(d, p) - 1) as nat
    }
}

/// Every one of the `n` slots from `p0` that starts an entry holds a well-formed constant.
pub open spec fn pool_ok(d: Seq<u8>, p0: int, n: nat) -> bool {
    forall|s: nat| s < n && !(#[trigger] slot(d, p0, s)).1 ==> constant_ok(d, slot(d, p0, s).0)
}

/// The entry stored for the unusable slot after a long or double constant.
pub open spec fn is_placeholder(c: Constant) -> bool {
    c.tag == 0 && c.data1 is Empty && c.data2 is Empty
}

/// `pool` holds the `n` slots encoded from `p0`: slot `s` is pool entry `s`,
/// so the 1-based index `s + 1` of the class file names it.
pub open spec fn pool_is(d: Seq<u8>, p0: int, n: nat, pool: Seq<Constant>) -> bool {
    &&& pool.len() == n
    &&& forall|s: nat|
        s < n ==> if (#[trigger] slot(d, p0, s)).1 {
            is_placeholder(pool[s as int])
        } else {
            constant_is(d, slot(d, p0, s).0, pool[s as int])
        }
}

/// Reads the constant-pool count and its entries. A long or double constant
/// is followed by a placeholder entry for the slot it also occupies.
pub fn parse_constant_pool(loader: &mut Loader) -> (r: Result<Vec<Constant>, LoadError>)
    requires
        old(loader).pos() <= old(loader).data().len(),
    ensures
        final(loader).data() == old(loader).data(),
        final(loader).pos() <= final(loader).data().len(),
        r is Ok <==> old(loader).pos() + 2 <= old(loader).data().len() && pool_ok(
            old(loader).data(),
            old(loader).pos() + 2,
            pool_slots(old(loader).data(), old(loader).pos()),
        ),
        r is Ok ==> pool_is(
            old(loader).data(),
            old(loader).pos() + 2,
            pool_slots(old(loader).data(), old(loader).pos()),
            r->Ok_0@,
        ) && final(loader).pos() == slot(
            old(loader).data(),
            old(loader).pos() + 2,
            pool_slots(old(loader).data(), old(loader).pos()),
        ).0,
{
    let ghost d = loader.data();
    let ghost p0 = loader.pos() + 2;
    let count = need(loader.u2())?;
    let n: u16 = if count == 0 {
        0
    } else {
        count - 1
    };
    let ghost nn = pool_slots(d, p0 - 2);
    assert(n == nn);
    let mut pool: Vec<Constant> = Vec::new();
    let mut i: u16 = 0;
    while i < n
        invariant
            loader.data() == d,
            d == old(loader).data(),
            p0 == old(loader).pos() + 2,
            nn == pool_slots(d, p0 - 2),
            p0 <= d.len(),
            loader.pos() <= d.len(),
            i <= n,
            n == nn,
            pool@.len() == i,
            loader.pos() == slot(d, p0, i as nat).0,
            i < n ==> !slot(d, p0, i as nat).1,
            forall|s: nat|
                s < i ==> if (#[trigger] slot(d, p0, s)).1 {
                    is_placeholder(pool@[s as int])
                } else {
                    constant_ok(d, slot(d, p0, s).0) && constant_is(d, slot(d, p0, s).0, pool@[s as int])
                },
        decreases n - i,
    {
        let ghost i0 = i as nat;
        let c = match parse_constant(loader) {
            Ok(c) => c,
            Err(e) => {
                proof {
                    assert(!constant_ok(d, slot(d, p0, i0).0));
                    assert(!pool_ok(d, p0, nn));
                }
                return Err(e);
            },
        };
        let wide = c.tag == 5 || c.tag == 6;
        pool.push(c);
        i = i + 1;
        proof {
            assert(slot(d, p0, i0 + 1) == (loader.pos(), wide));
        }
        if wide && i < n {
            pool.push(Constant::new(0));
            i = i + 1;
            proof {
                assert(slot(d, p0, i0 + 2) == (loader.pos(), false));
            }
        }
        proof {
            assert forall|s: nat|
                s < i implies if (#[trigger] slot(d, p0, s)).1 {
                    is_placeholder(pool@[s as int])
                } else {
                    constant_ok(d, slot(d, p0, s).0) && constant_is(d, slot(d, p0, s).0, pool@[s as int])
                } by {
                if s == i0 + 1 {
                    assert(slot(d, p0, i0 + 1) == (loader.pos(), wide));
                }
            }
        }
    }
    proof {
        assert forall|s: nat| s < nn && !(#[trigger] slot(d, p0, s)).1 implies constant_ok(
            d,
            slot(d, p0, s).0,
        ) by {
            assert(s < i);
        }
    }
    Ok(pool)
}

/// The text of the UTF-8 constant at 1-based index `idx`, if that entry is one.
pub open spec fn utf8_at(pool: Seq<Constant>, idx: int) -> Option<Seq<char>> {
    if 1 <= idx <= pool.len() && pool[idx - 1].data1 is String {
        Some(pool[idx - 1].data1->String_0@)
    } else {
        None
    }
}

/// The name that pool entry `i` (0-based) gives a class: the text of the
/// UTF-8 entry that its name index refers to. An entry that is not a class, or
/// a name index that leads to no text, gives the empty name; an index out of
/// range gives nothing.
pub open spec fn class_name(pool: Seq<Constant>, i: int) -> Option<Seq<char>> {
    if i < 0 || i >= pool.len() {
        None
    } else {
        match pool[i].data1 {
            Data1::NameIndex(n) => if n == 0 || n > pool.len() {
                None
            } else {
                match pool[n - 1].data1 {
                    Data1::String(s) => Some(s@),
                    _ => Some(Seq::empty()),
                }
            },
            _ => Some(Seq::empty()),
        }
    }
}

/// The class name that 1-based index `idx` refers to.
pub open spec fn class_ref(pool: Seq<Constant>, idx: int) -> Option<Seq<char>> {
    if idx == 0 {
        None
    } else {
        class_name(pool, idx - 1)
    }
}

/// Resolves the class name held by pool entry `index` (0-based).
pub fn get_string_at(constant_pool: &Vec<Constant>, index: u16) -> (r: Result<String, LoadError>)
    ensures
        r is Ok <==> class_name(constant_pool@, index as int) is Some,
        r is Ok ==> r->Ok_0@ == class_name(constant_pool@, index as int)->Some_0,
{
    if index as usize >= constant_pool.len() {
        return Err(LoadError::InvalidIndex);
    }
    match &constant_pool[index as usize].data1 {
        Data1::NameIndex(n) => {
            if *n == 0 || *n as usize > constant_pool.len() {
                return Err(LoadError::InvalidIndex);
            }
            match &constant_pool[(*n - 1) as usize].data1 {
                Data1::String(s) => Ok(s.clone()),
                _ => Ok(String::new()),
            }
        },
        _ => Ok(String::new()),
    }
}

/// A long or double constant takes two slots: the slot after it holds the
/// placeholder, and the next constant in the data is found one slot further on.
pub proof fn lemma_wide_constant_two_slots(
    d: Seq<u8>,
    p0: int,
    n: nat,
    pool: Seq<Constant>,
    s: nat,
)
    requires
        pool_is(d, p0, n, pool),
        s + 1 < n,
        !slot(d, p0, s).1,
        is_wide(d[slot(d, p0, s).0]),
    ensures
        is_placeholder(pool[s + 1 as int]),
        slot(d, p0, (s + 2) as nat) == (constant_end(d, slot(d, p0, s).0), false),
        s + 2 < n ==> constant_is(d, constant_end(d, slot(d, p0, s).0), pool[s + 2 as int]),
{
    assert(slot(d, p0, (s + 1) as nat) == (constant_end(d, slot(d, p0, s).0), true));
    assert(slot(d, p0, (s + 2) as nat) == (constant_end(d, slot(d, p0, s).0), false));
    if s + 2 < n {
        assert(slot(d, p0, (s + 2) as nat) == slot(d, p0, s + 2));
    }
}

/// Reads a 1-based class index and resolves it.
fn read_class_ref(constant_pool: &Vec<Constant>, loader: &mut Loader) -> (r: Result<String, LoadError>)
    requires
        old(loader).pos() <= old(loader).data().len(),
    ensures
        final(loader).data() == old(loader).data(),
        final(loader).pos() <= final(loader).data().len(),
        r is Ok <==> old(loader).pos() + 2 <= old(loader).data().len() && class_ref(
            constant_pool@,
            be16(old(loader).data(), old(loader).pos()),
        ) is Some,
        r is Ok ==> r->Ok_0@ == class_ref(
            constant_pool@,
            be16(old(loader).data(), old(loader).pos()),
        )->Some_0 && final(loader).pos() == old(loader).pos() + 2,
{
    let idx = need(loader.u2())?;
    if idx == 0 {
        return Err(LoadError::InvalidIndex);
    }
    get_string_at(constant_pool, idx - 1)
}

/// Reads a 1-based index of a UTF-8 entry and returns its text.
fn read_utf8_ref(constant_pool: &Vec<Constant>, loader: &mut Loader) -> (r: Result<String, LoadError>)
    requires
        old(loader).pos() <= old(loader).data().len(),
    ensures
        final(loader).data() == old(loader).data(),
        final(loader).pos() <= final(loader).data().len(),
        r is Ok <==> old(loader).pos() + 2 <= old(loader).data().len() && utf8_at(
            constant_pool@,
            be16(old(loader).data(), old(loader).pos()),
        ) is Some,
        r is Ok ==> r->Ok_0@ == utf8_at(
            constant_pool@,
            be16(old(loader).data(), old(loader).pos()),
        )->Some_0 && final(loader).pos() == old(loader).pos() + 2,
{
    let idx = need(loader.u2())?;
    if idx == 0 || idx as usize > constant_pool.len() {
        return Err(LoadError::InvalidIndex);
    }
    match &constant_pool[(idx - 1) as usize].data1 {
        Data1::String(s) => Ok(s.clone()),
        _ => Err(LoadError::InvalidIndex),
    }
}

/// The interface list at `p` is complete and each index names a class.
pub open spec fn interfaces_ok(d: Seq<u8>, pool: Seq<Constant>, p: int) -> bool {
    &&& p + 2 <= d.len()
    &&& p + 2 + 2 * be16(d, p) <= d.len()
    &&& forall|k: int|
        0 <= k < be16(d, p) ==> (#[trigger] class_ref(pool, be16(d, p + 2 + 2 * k))) is Some
}

/// `r` holds the names of the interface list at `p`.
pub open spec fn interfaces_is(d: Seq<u8>, pool: Seq<Constant>, p: int, r: Seq<String>) -> bool {
    &&& r.len() == be16(d, p)
    &&& forall|k: int|
        0 <= k < r.len() ==> (#[trigger] r[k])@ == class_ref(pool, be16(d, p + 2 + 2 * k))->Some_0
}

pub open spec fn interfaces_end(d: Seq<u8>, p: int) -> int {
    p + 2 + 2 * be16(d, p)
}

pub fn parse_interfaces(constant_pool: &Vec<Constant>, loader: &mut Loader) -> (r: Result<
    Vec<String>,
    LoadError,
>)
    requires
        old(loader).pos() <= old(loader).data().len(),
    ensures
        final(loader).data() == old(loader).data(),
        final(loader).pos() <= final(loader).data().len(),
        r is Ok <==> interfaces_ok(old(loader).data(), constant_pool@, old(loader).pos()),
        r is Ok ==> interfaces_is(old(loader).data(), constant_pool@, old(loader).pos(), r->Ok_0@)
            && final(loader).pos() == interfaces_end(old(loader).data(), old(loader).pos()),
{
    let ghost d = loader.data();
    let ghost p = loader.pos();
    let count = need(loader.u2())?;
    let mut interfaces: Vec<String> = Vec::new();
    let mut k: u16 = 0;
    while k < count
        invariant
            loader.data() == d,
            d == old(loader).data(),
            p == old(loader).pos(),
            p + 2 <= d.len(),
            count == be16(d, p),
            loader.pos() <= d.len(),
            k <= count,
            loader.pos() == p + 2 + 2 * k,
            interfaces@.len() == k,
            forall|j: int|
                0 <= j < k ==> (#[trigger] class_ref(constant_pool@, be16(d, p + 2 + 2 * j)))
                    is Some,
            forall|j: int|
                0 <= j < k ==> (#[trigger] interfaces@[j])@ == class_ref(
                    constant_pool@,
                    be16(d, p + 2 + 2 * j),
                )->Some_0,
        decreases count - k,
    {
        let ghost k0 = k as int;
        let name = match read_class_ref(constant_pool, loader) {
            Ok(n) => n,
            Err(e) => {
                proof {
                    if p + 2 + 2 * be16(d, p) <= d.len() {
                        assert(!(class_ref(constant_pool@, be16(d, p + 2 + 2 * k0)) is Some));
                    }
                }
                return Err(e);
            },
        };
        interfaces.push(name);
        k = k + 1;
    }
    Ok(interfaces)
}

/// Where attribute `k` of a list whose first attribute is at `p` starts.
pub open spec fn attr_pos(d: Seq<u8>, p: int, k: nat) -> int
    decreases k,
{
    if k == 0 {
        p
    } else {
        let q = attr_pos(d, p, (k - 1) as nat);
        q + 6 + be32(d, q + 2)
    }
}

/// A complete attribute whose name index names a UTF-8 entry starts at `q`.
pub open spec fn attr_ok(d: Seq<u8>, pool: Seq<Constant>, q: int) -> bool {
    &&& q + 6 <= d.len()
    &&& utf8_at(pool, be16(d, q)) is Some
    &&& q + 6 + be32(d, q + 2) <= d.len()
}

/// `a` is the attribute encoded at `q`.
pub open spec fn attr_is(d: Seq<u8>, pool: Seq<Constant>, q: int, a: Attribute) -> bool {
    &&& a.name@ == utf8_at(pool, be16(d, q))->Some_0
    &&& a.info@ == d.subrange(q + 6, q + 6 + be32(d, q + 2))
}

/// The attribute list (count, then entries) at `p` is complete and well-formed.
pub open spec fn attrs_ok(d: Seq<u8>, pool: Seq<Constant>, p: int) -> bool {
    &&& p + 2 <= d.len()
    &&& forall|k: nat| k < be16(d, p) ==> attr_ok(d, pool, #[trigger] attr_pos(d, p + 2, k))
}

/// `r` holds the attribute list at `p`.
pub open spec fn attrs_is(d: Seq<u8>, pool: Seq<Constant>, p: int, r: Seq<Attribute>) -> bool {
    &&& r.len() == be16(d, p)
    &&& forall|k: nat| k < r.len() ==> attr_is(d, pool, #[trigger] attr_pos(d, p + 2, k), r[k as int])
}

pub open spec fn attrs_end(d: Seq<u8>, p: int) -> int {
    attr_pos(d, p + 2, be16(d, p) as nat)
}

pub fn parse_attributes(constant_pool: &Vec<Constant>, loader: &mut Loader) -> (r: Result<
    Vec<Attribute>,
    LoadError,
>)
    requires
        old(loader).pos() <= old(loader).data().len(),
    ensures
        final(loader).data() == old(loader).data(),
        final(loader).pos() <= final(loader).data().len(),
        r is Ok <==> attrs_ok(old(loader).data(), constant_pool@, old(loader).pos()),
        r is Ok ==> attrs_is(old(loader).data(), constant_pool@, old(loader).pos(), r->Ok_0@)
            && final(loader).pos() == attrs_end(old(loader).data(), old(loader).pos()),
{
    let ghost d = loader.data();
    let ghost p = loader.pos();
    let count = need(loader.u2())?;
    let mut attributes: Vec<Attribute> = Vec::new();
    let mut k: u16 = 0;
    while k < count
        invariant
            loader.data() == d,
            d == old(loader).data(),
            p == old(loader).pos(),
            p + 2 <= d.len(),
            count == be16(d, p),
            loader.pos() <= d.len(),
            k <= count,
            loader.pos() == attr_pos(d, p + 2, k as nat),
            attributes@.len() == k,
            forall|j: nat| j < k ==> attr_ok(d, constant_pool@, #[trigger] attr_pos(d, p + 2, j)),
            forall|j: nat|
                j < k ==> attr_is(d, constant_pool@, #[trigger] attr_pos(d, p + 2, j), attributes@[j as int]),
        decreases count - k,
    {
        let ghost q = loader.pos();
        let ghost k0 = k as nat;
        let name = match read_utf8_ref(constant_pool, loader) {
            Ok(n) => n,
            Err(e) => {
                proof {
                    assert(!attr_ok(d, constant_pool@, attr_pos(d, p + 2, k0)));
                }
                return Err(e);
            },
        };
        let length = match loader.u4() {
            Some(v) => v,
            None => {
                proof {
                    assert(!attr_ok(d, constant_pool@, attr_pos(d, p + 2, k0)));
                }
                return Err(LoadError::UnexpectedEnd);
            },
        };
        let info = match loader.bytes(length as usize) {
            Some(b) => b,
            None => {
                proof {
                    assert(!attr_ok(d, constant_pool@, attr_pos(d, p + 2, k0)));
                }
                return Err(LoadError::UnexpectedEnd);
            },
        };
        attributes.push(Attribute::new(name, info));
        k = k + 1;
        proof {
            assert(attr_pos(d, p + 2, k as nat) == q + 6 + be32(d, q + 2));
            assert(attr_ok(d, constant_pool@, attr_pos(d, p + 2, k0)));
        }
    }
    Ok(attributes)
}

/// A complete field or method record starts at `q`.
pub open spec fn field_ok(d: Seq<u8>, pool: Seq<Constant>, q: int) -> bool {
    &&& q + 6 <= d.len()
    &&& utf8_at(pool, be16(d, q + 2)) is Some
    &&& utf8_at(pool, be16(d, q + 4)) is Some
    &&& attrs_ok(d, pool, q + 6)
}

/// `f` is the field or method record encoded at `q`.
pub open spec fn field_is(d: Seq<u8>, pool: Seq<Constant>, q: int, f: Field) -> bool {
    &&& f.access_flags == be16(d, q)
    &&& f.name@ == utf8_at(pool, be16(d, q + 2))->Some_0
    &&& f.descriptor@ == utf8_at(pool, be16(d, q + 4))->Some_0
    &&& attrs_is(d, pool, q + 6, f.attributes@)
}

/// Where record `k` of a list whose first record is at `p` starts.
pub open spec fn field_pos(d: Seq<u8>, p: int, k: nat) -> int
    decreases k,
{
    if k == 0 {
        p
    } else {
        attrs_end(d, field_pos(d, p, (k - 1) as nat) + 6)
    }
}

/// The record list (count, then records) at `p` is complete and well-formed.
pub open spec fn fields_ok(d: Seq<u8>, pool: Seq<Constant>, p: int) -> bool {
    &&& p + 2 <= d.len()
    &&& forall|k: nat| k < be16(d, p) ==> field_ok(d, pool, #[trigger] field_pos(d, p + 2, k))
}

/// `r` holds the record list at `p`.
pub open spec fn fields_is(d: Seq<u8>, pool: Seq<Constant>, p: int, r: Seq<Field>) -> bool {
    &&& r.len() == be16(d, p)
    &&& forall|k: nat| k < r.len() ==> field_is(d, pool, #[trigger] field_pos(d, p + 2, k), r[k as int])
}

pub open spec fn fields_end(d: Seq<u8>, p: int) -> int {
    field_pos(d, p + 2, be16(d, p) as nat)
}

/// Reads a list of field records; method records have the same shape.
pub fn parse_fields(constant_pool: &Vec<Constant>, loader: &mut Loader) -> (r: Result<
    Vec<Field>,
    LoadError,
>)
    requires
        old(loader).pos() <= old(loader).data().len(),
    ensures
        final(loader).data() == old(loader).data(),
        final(loader).pos() <= final(loader).data().len(),
        r is Ok <==> fields_ok(old(loader).data(), constant_pool@, old(loader).pos()),
        r is Ok ==> fields_is(old(loader).data(), constant_pool@, old(loader).pos(), r->Ok_0@)
            && final(loader).pos() == fields_end(old(loader).data(), old(loader).pos()),
{
    let ghost d = loader.data();
    let ghost p = loader.pos();
    let count = need(loader.u2())?;
    let mut fields: Vec<Field> = Vec::new();
    let mut k: u16 = 0;
    while k < count
        invariant
            loader.data() == d,
            d == old(loader).data(),
            p == old(loader).pos(),
            p + 2 <= d.len(),
            count == be16(d, p),
            loader.pos() <= d.len(),
            k <= count,
            loader.pos() == field_pos(d, p + 2, k as nat),
            fields@.len() == k,
            forall|j: nat| j < k ==> field_ok(d, constant_pool@, #[trigger] field_pos(d, p + 2, j)),
            forall|j: nat|
                j < k ==> field_is(d, constant_pool@, #[trigger] field_pos(d, p + 2, j), fields@[j as int]),
        decreases count - k,
    {
        let ghost q = loader.pos();
        let ghost k0 = k as nat;
        let access_flags = match loader.u2() {
            Some(v) => v,
            None => {
                proof {
                    assert(!field_ok(d, constant_pool@, field_pos(d, p + 2, k0)));
                }
                return Err(LoadError::UnexpectedEnd);
            },
        };
        let name = match read_utf8_ref(constant_pool, loader) {
            Ok(n) => n,
            Err(e) => {
                proof {
                    assert(!field_ok(d, constant_pool@, field_pos(d, p + 2, k0)));
                }
                return Err(e);
            },
        };
        let descriptor = match read_utf8_ref(constant_pool, loader) {
            Ok(n) => n,
            Err(e) => {
                proof {
                    assert(!field_ok(d, constant_pool@, field_pos(d, p + 2, k0)));
                }
                return Err(e);
            },
        };
        let attributes = match parse_attributes(constant_pool, loader) {
            Ok(a) => a,
            Err(e) => {
                proof {
                    assert(!field_ok(d, constant_pool@, field_pos(d, p + 2, k0)));
                }
                return Err(e);
            },
        };
        fields.push(Field::new(access_flags, name, descriptor, attributes));
        k = k + 1;
        proof {
            assert(field_pos(d, p + 2, k as nat) == attrs_end(d, q + 6));
            assert(field_ok(d, constant_pool@, field_pos(d, p + 2, k0)));
        }
    }
    Ok(fields)
}

/// What follows the constant pool, which ends at `q`, is well-formed: access
/// flags, this and super class, interfaces, fields, methods, attributes.
pub open spec fn rest_ok(d: Seq<u8>, pool: Seq<Constant>, q: int) -> bool {
    let f = interfaces_end(d, q + 6);
    let m = fields_end(d, f);
    let a = fields_end(d, m);
    &&& q + 6 <= d.len()
    &&& class_ref(pool, be16(d, q + 2)) is Some
    &&& class_ref(pool, be16(d, q + 4)) is Some
    &&& interfaces_ok(d, pool, q + 6)
    &&& fields_ok(d, pool, f)
    &&& fields_ok(d, pool, m)
    &&& attrs_ok(d, pool, a)
}

/// `c` holds what follows the constant pool `c.constant_pool`, which ends at `q`.
pub open spec fn rest_is(d: Seq<u8>, q: int, c: Class) -> bool {
    let pool = c.constant_pool@;
    let f = interfaces_end(d, q + 6);
    let m = fields_end(d, f);
    let a = fields_end(d, m);
    &&& c.access_flags == be16(d, q)
    &&& c.this_class@ == class_ref(pool, be16(d, q + 2))->Some_0
    &&& c.super_class@ == class_ref(pool, be16(d, q + 4))->Some_0
    &&& interfaces_is(d, pool, q + 6, c.interfaces@)
    &&& fields_is(d, pool, f, c.fields@)
    &&& fields_is(d, pool, m, c.methods@)
    &&& attrs_is(d, pool, a, c.attributes@)
}

/// Where the constant pool of class file `d` ends.
pub open spec fn pool_end(d: Seq<u8>) -> int {
    slot(d, 10, pool_slots(d, 8)).0
}

/// `d` is a complete class file: the header, a well-formed constant pool, and
/// well-formed items after it for every pool that the entries decode to.
pub open spec fn class_file_ok(d: Seq<u8>) -> bool {
    &&& d.len() >= 10
    &&& pool_ok(d, 10, pool_slots(d, 8))
    &&& forall|pool: Seq<Constant>|
        #[trigger] pool_is(d, 10, pool_slots(d, 8), pool) ==> rest_ok(d, pool, pool_end(d))
}

/// Loads a class from the bytes of a class file. The magic number is not
/// checked.
pub fn load_class(data: &[u8]) -> (r: Result<Class, LoadError>)
    ensures
        r is Ok <==> class_file_ok(data@),
        r is Ok ==> {
            let c = r->Ok_0;
            &&& !c.initialized
            &&& c.minor_version == be16(data@, 4)
            &&& c.major_version == be16(data@, 6)
            &&& pool_is(data@, 10, pool_slots(data@, 8), c.constant_pool@)
            &&& rest_is(data@, pool_end(data@), c)
        },
{
    let ghost d = data@;
    let mut loader = Loader::new(data);
    let _magic = need(loader.u4())?;
    let minor_version = need(loader.u2())?;
    let major_version = need(loader.u2())?;
    let constant_pool = parse_constant_pool(&mut loader)?;
    let ghost pool = constant_pool@;
    let ghost q = loader.pos();
    assert(q == pool_end(d));
    let r = load_rest(&constant_pool, &mut loader);
    proof {
        if r is Err {
            assert(!rest_ok(d, pool, q));
            assert(pool_is(d, 10, pool_slots(d, 8), pool));
        } else {
            assert forall|pool2: Seq<Constant>|
                #[trigger] pool_is(d, 10, pool_slots(d, 8), pool2) implies rest_ok(
                d,
                pool2,
                pool_end(d),
            ) by {
                lemma_pools_agree(d, pool, pool2);
                lemma_rest_ok_transfer(d, pool, pool2, q);
            }
        }
    }
    let (access_flags, this_class, super_class, interfaces, fields, methods, attributes) = r?;
    Ok(
        Class::new(
            major_version,
            minor_version,
            constant_pool,
            access_flags,
            this_class,
            super_class,
            interfaces,
            fields,
            methods,
            attributes,
        ),
    )
}

/// Two pools that both hold the slots of `d` give the same text at every index.
proof fn lemma_pools_agree(d: Seq<u8>, a: Seq<Constant>, b: Seq<Constant>)
    requires
        pool_is(d, 10, pool_slots(d, 8), a),
        pool_is(d, 10, pool_slots(d, 8), b),
    ensures
        forall|i: int| #[trigger] utf8_at(a, i) == utf8_at(b, i),
        forall|i: int| #[trigger] class_name(a, i) == class_name(b, i),
        forall|i: int| #[trigger] class_ref(a, i) == class_ref(b, i),
{
    let n = pool_slots(d, 8);
    assert forall|i: int| 0 <= i < a.len() implies a[i].data1 == b[i].data1 || (a[i].data1 is String
        && b[i].data1 is String && a[i].data1->String_0@ == b[i].data1->String_0@) by {
        assert(slot(d, 10, i as nat) == slot(d, 10, i as nat));
    }
    assert forall|i: int| #[trigger] utf8_at(a, i) == utf8_at(b, i) by {
        if 1 <= i <= a.len() {
            assert(slot(d, 10, (i - 1) as nat) == slot(d, 10, (i - 1) as nat));
        }
    }
    assert forall|i: int| #[trigger] class_name(a, i) == class_name(b, i) by {
        if 0 <= i < a.len() {
            assert(slot(d, 10, i as nat) == slot(d, 10, i as nat));
            match a[i].data1 {
                Data1::NameIndex(n) => {
                    if 1 <= n <= a.len() {
                        assert(slot(d, 10, (n - 1) as nat) == slot(d, 10, (n - 1) as nat));
                    }
                },
                _ => {},
            }
        }
    }
}

proof fn lemma_attrs_ok_transfer(d: Seq<u8>, a: Seq<Constant>, b: Seq<Constant>, p: int)
    requires
        forall|i: int| #[trigger] utf8_at(a, i) == utf8_at(b, i),
        attrs_ok(d, a, p),
    ensures
        attrs_ok(d, b, p),
{
    assert forall|k: nat| k < be16(d, p) implies attr_ok(d, b, #[trigger] attr_pos(d, p + 2, k)) by {
        let q = attr_pos(d, p + 2, k);
        assert(attr_ok(d, a, q));
        assert(utf8_at(a, be16(d, q)) == utf8_at(b, be16(d, q)));
    }
}

proof fn lemma_fields_ok_transfer(d: Seq<u8>, a: Seq<Constant>, b: Seq<Constant>, p: int)
    requires
        forall|i: int| #[trigger] utf8_at(a, i) == utf8_at(b, i),
        fields_ok(d, a, p),
    ensures
        fields_ok(d, b, p),
{
    assert forall|k: nat| k < be16(d, p) implies field_ok(d, b, #[trigger] field_pos(d, p + 2, k)) by {
        let q = field_pos(d, p + 2, k);
        assert(field_ok(d, a, q));
        assert(utf8_at(a, be16(d, q + 2)) == utf8_at(b, be16(d, q + 2)));
        assert(utf8_at(a, be16(d, q + 4)) == utf8_at(b, be16(d, q + 4)));
        lemma_attrs_ok_transfer(d, a, b, q + 6);
    }
}

proof fn lemma_rest_ok_transfer(d: Seq<u8>, a: Seq<Constant>, b: Seq<Constant>, q: int)
    requires
        forall|i: int| #[trigger] utf8_at(a, i) == utf8_at(b, i),
        forall|i: int| #[trigger] class_ref(a, i) == class_ref(b, i),
        rest_ok(d, a, q),
    ensures
        rest_ok(d, b, q),
{
    let f = interfaces_end(d, q + 6);
    let m = fields_end(d, f);
    let at = fields_end(d, m);
    assert(class_ref(a, be16(d, q + 2)) == class_ref(b, be16(d, q + 2)));
    assert(class_ref(a, be16(d, q + 4)) == class_ref(b, be16(d, q + 4)));
    assert forall|k: int| 0 <= k < be16(d, q + 6) implies (#[trigger] class_ref(
        b,
        be16(d, q + 6 + 2 + 2 * k),
    )) is Some by {
        assert(class_ref(a, be16(d, q + 6 + 2 + 2 * k)) is Some);
    }
    lemma_fields_ok_transfer(d, a, b, f);
    lemma_fields_ok_transfer(d, a, b, m);
    lemma_attrs_ok_transfer(d, a, b, at);
}

/// Reads everything after the constant pool.
fn load_rest(constant_pool: &Vec<Constant>, loader: &mut Loader) -> (r: Result<
    (u16, String, String, Vec<String>, Vec<Field>, Vec<Field>, Vec<Attribute>),
    LoadError,
>)
    requires
        old(loader).pos() <= old(loader).data().len(),
    ensures
        r is Ok <==> rest_ok(old(loader).data(), constant_pool@, old(loader).pos()),
        r is Ok ==> {
            let (access_flags, this_class, super_class, interfaces, fields, methods, attributes) =
                r->Ok_0;
            let d = old(loader).data();
            let q = old(loader).pos();
            let pool = constant_pool@;
            let f = interfaces_end(d, q + 6);
            let m = fields_end(d, f);
            let a = fields_end(d, m);
            &&& access_flags == be16(d, q)
            &&& this_class@ == class_ref(pool, be16(d, q + 2))->Some_0
            &&& super_class@ == class_ref(pool, be16(d, q + 4))->Some_0
            &&& interfaces_is(d, pool, q + 6, interfaces@)
            &&& fields_is(d, pool, f, fields@)
            &&& fields_is(d, pool, m, methods@)
            &&& attrs_is(d, pool, a, attributes@)
        },
{
    let access_flags = need(loader.u2())?;
    let this_class = read_class_ref(constant_pool, loader)?;
    let super_class = read_class_ref(constant_pool, loader)?;
    let interfaces = parse_interfaces(constant_pool, loader)?;
    let fields = parse_fields(constant_pool, loader)?;
    let methods = parse_fields(constant_pool, loader)?;
    let attributes = parse_attributes(constant_pool, loader)?;
    Ok((access_flags, this_class, super_class, interfaces, fields, methods, attributes))
}

} // verus!
