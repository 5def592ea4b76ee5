use vstd::prelude::*;

verus! {

/// A runtime value. Array variants hold a handle into a [`Heap`]: two values
/// with the same handle alias the same buffer. Float and double scalars are
/// carried as their IEEE-754 bit patterns.
#[derive(Clone, Copy, Debug, PartialEq, Eq, Structural)]
pub enum JType {
    Null,
    Byte(i8),
    Short(i16),
    Int(i32),
    Long(i64),
    Char(u16),
    Float(u32),
    Double(u64),
    ReturnAddress(u32),
    BooleanArray(usize),
    CharArray(usize),
    FloatArray(usize),
    DoubleArray(usize),
    ByteArray(usize),
    ShortArray(usize),
    IntArray(usize),
    LongArray(usize),
    ReferenceArray(usize),
}

impl JType {
    pub fn byte(&self) -> (r: i8)
        requires
            self is Byte,
        ensures
            r == self->Byte_0,
    {
        match self {
            JType::Byte(v) => *v,
            _ => 0,
        }
    }

    pub fn short(&self) -> (r: i16)
        requires
            self is Short,
        ensures
            r == self->Short_0,
    {
        match self {
            JType::Short(v) => *v,
            _ => 0,
        }
    }

    pub fn as_int(&self) -> (r: i32)
        requires
            self is Int,
        ensures
            r == self->Int_0,
    {
        match self {
            JType::Int(v) => *v,
            _ => 0,
        }
    }

    pub fn long(&self) -> (r: i64)
        requires
            self is Long,
        ensures
            r == self->Long_0,
    {
        match self {
            JType::Long(v) => *v,
            _ => 0,
        }
    }

    pub fn char(&self) -> (r: u16)
        requires
            self is Char,
        ensures
            r == self->Char_0,
    {
        match self {
            JType::Char(v) => *v,
            _ => 0,
        }
    }

    /// The IEEE-754 single-precision bit pattern of a float value.
    pub fn float(&self) -> (r: u32)
        requires
            self is Float,
        ensures
            r == self->Float_0,
    {
        match self {
            JType::Float(v) => *v,
            _ => 0,
        }
    }

    /// The IEEE-754 double-precision bit pattern of a double value.
    pub fn double(&self) -> (r: u64)
        requires
            self is Double,
        ensures
            r == self->Double_0,
    {
        match self {
            JType::Double(v) => *v,
            _ => 0,
        }
    }

    pub fn return_address(&self) -> (r: u32)
        requires
            self is ReturnAddress,
        ensures
            r == self->ReturnAddress_0,
    {
        match self {
            JType::ReturnAddress(v) => *v,
            _ => 0,
        }
    }

    /// The heap handle of a boolean array.
    pub fn boolean_array(&self) -> (r: usize)
        requires
            self is BooleanArray,
        ensures
            r == self->BooleanArray_0,
    {
        match self {
            JType::BooleanArray(h) => *h,
            _ => 0,
        }
    }

    pub fn char_array(&self) -> (r: usize)
        requires
            self is CharArray,
        ensures
            r == self->CharArray_0,
    {
        match self {
            JType::CharArray(h) => *h,
            _ => 0,
        }
    }

    pub fn float_array(&self) -> (r: usize)
        requires
            self is FloatArray,
        ensures
            r == self->FloatArray_0,
    {
        match self {
            JType::FloatArray(h) => *h,
            _ => 0,
        }
    }

    pub fn double_array(&self) -> (r: usize)
        requires
            self is DoubleArray,
        ensures
            r == self->DoubleArray_0,
    {
        match self {
            JType::DoubleArray(h) => *h,
            _ => 0,
        }
    }

    pub fn byte_array(&self) -> (r: usize)
        requires
            self is ByteArray,
        ensures
            r == self->ByteArray_0,
    {
        match self {
            JType::ByteArray(h) => *h,
            _ => 0,
        }
    }

    pub fn short_array(&self) -> (r: usize)
        requires
            self is ShortArray,
        ensures
            r == self->ShortArray_0,
    {
        match self {
            JType::ShortArray(h) => *h,
            _ => 0,
        }
    }

    pub fn int_array(&self) -> (r: usize)
        requires
            self is IntArray,
        ensures
            r == self->IntArray_0,
    {
        match self {
            JType::IntArray(h) => *h,
            _ => 0,
        }
    }

    pub fn long_array(&self) -> (r: usize)
        requires
            self is LongArray,
        ensures
            r == self->LongArray_0,
    {
        match self {
            JType::LongArray(h) => *h,
            _ => 0,
        }
    }

    pub fn reference_array(&self) -> (r: usize)
        requires
            self is ReferenceArray,
        ensures
            r == self->ReferenceArray_0,
    {
        match self {
            JType::ReferenceArray(h) => *h,
            _ => 0,
        }
    }
}

/// The contents of one heap array, by element kind.
#[derive(Clone, Debug)]
pub enum ArrayData {
    Boolean(Vec<i8>),
    Char(Vec<u16>),
    Float(Vec<u32>),
    Double(Vec<u64>),
    Byte(Vec<i8>),
    Short(Vec<i16>),
    Int(Vec<i32>),
    Long(Vec<i64>),
    Reference(Vec<JType>),
}

/// The mathematical contents of a heap array.
pub enum ArrayView {
    Boolean(Seq<i8>),
    Char(Seq<u16>),
    Float(Seq<u32>),
    Double(Seq<u64>),
    Byte(Seq<i8>),
    Short(Seq<i16>),
    Int(Seq<i32>),
    Long(Seq<i64>),
    Reference(Seq<JType>),
}

impl View for ArrayData {
    type V = ArrayView;

    open spec fn view(&self) -> ArrayView {
        match self {
            ArrayData::Boolean(v) => ArrayView::Boolean(v@),
            ArrayData::Char(v) => ArrayView::Char(v@),
            ArrayData::Float(v) => ArrayView::Float(v@),
            ArrayData::Double(v) => ArrayView::Double(v@),
            ArrayData::Byte(v) => ArrayView::Byte(v@),
            ArrayData::Short(v) => ArrayView::Short(v@),
            ArrayData::Int(v) => ArrayView::Int(v@),
            ArrayData::Long(v) => ArrayView::Long(v@),
            ArrayData::Reference(v) => ArrayView::Reference(v@),
        }
    }
}

impl ArrayView {
    pub open spec fn len(self) -> nat {
        match self {
            ArrayView::Boolean(s) => s.len(),
            ArrayView::Char(s) => s.len(),
            ArrayView::Float(s) => s.len(),
            ArrayView::Double(s) => s.len(),
            ArrayView::Byte(s) => s.len(),
            ArrayView::Short(s) => s.len(),
            ArrayView::Int(s) => s.len(),
            ArrayView::Long(s) => s.len(),
            ArrayView::Reference(s) => s.len(),
        }
    }
}

/// The zero-filled array of `n` elements for a `newarray` element-type code
/// (4 boolean, 5 char, 6 float, 7 double, 8 byte, 9 short, 10 int, 11 long).
pub open spec fn zeroed(code: u8, n: nat) -> ArrayView
    recommends
        4 <= code <= 11,
{
    if code == 4 {
        ArrayView::Boolean(Seq::new(n, |i: int| 0i8))
    } else if code == 5 {
        ArrayView::Char(Seq::new(n, |i: int| 0u16))
    } else if code == 6 {
        ArrayView::Float(Seq::new(n, |i: int| 0u32))
    } else if code == 7 {
        ArrayView::Double(Seq::new(n, |i: int| 0u64))
    } else if code == 8 {
        ArrayView::Byte(Seq::new(n, |i: int| 0i8))
    } else if code == 9 {
        ArrayView::Short(Seq::new(n, |i: int| 0i16))
    } else if code == 10 {
        ArrayView::Int(Seq::new(n, |i: int| 0i32))
    } else {
        ArrayView::Long(Seq::new(n, |i: int| 0i64))
    }
}

/// The value that refers to heap array `h` of the kind made by `newarray` code `code`.
pub open spec fn array_ref(code: u8, h: usize) -> JType {
    if code == 4 {
        JType::BooleanArray(h)
    } else if code == 5 {
        JType::CharArray(h)
    } else if code == 6 {
        JType::FloatArray(h)
    } else if code == 7 {
        JType::DoubleArray(h)
    } else if code == 8 {
        JType::ByteArray(h)
    } else if code == 9 {
        JType::ShortArray(h)
    } else if code == 10 {
        JType::IntArray(h)
    } else {
        JType::LongArray(h)
    }
}

/// An arena of arrays. A handle is an index into it; arrays are never freed
/// while the heap lives, so a handle stays valid once it was handed out.
pub struct Heap {
    arrays: Vec<ArrayData>,
}

impl View for Heap {
    type V = Seq<ArrayView>;

    closed spec fn view(&self) -> Seq<ArrayView> {
        self.arrays@.map_values(|a: ArrayData| a@)
    }
}

impl Heap {
    pub fn new() -> (r: Heap)
        ensures
            r@ == Seq::<ArrayView>::empty(),
    {
        let r = Heap { arrays: Vec::new() };
        proof {
            assert(r@ =~= Seq::<ArrayView>::empty());
        }
        r
    }

    /// The number of arrays allocated so far; the next handle handed out.
    pub fn len(&self) -> (r: usize)
        ensures
            r == self@.len(),
    {
        self.arrays.len()
    }

    /// Borrows array `h`.
    pub fn get(&self, h: usize) -> (r: &ArrayData)
        requires
            h < self@.len(),
        ensures
            r@ == self@[h as int],
    {
        &self.arrays[h]
    }

    /// Adds an array and returns its handle.
    pub fn allocate(&mut self, data: ArrayData) -> (h: usize)
        ensures
            h == old(self)@.len(),
            final(self)@ == old(self)@.push(data@),
    {
        let h = self.arrays.len();
        self.arrays.push(data);
        proof {
            assert(self@ =~= old(self)@.push(data@));
        }
        h
    }

    /// Allocates a zero-filled array of `n` elements of the kind that
    /// `newarray` element-type code `code` names, and returns its handle.
    pub fn alloc_zeroed(&mut self, code: u8, n: usize) -> (h: usize)
        requires
            4 <= code <= 11,
        ensures
            h == old(self)@.len(),
            final(self)@ == old(self)@.push(zeroed(code, n as nat)),
    {
        let data = if code == 4 {
            ArrayData::Boolean(vec![0i8; n])
        } else if code == 5 {
            ArrayData::Char(vec![0u16; n])
        } else if code == 6 {
            ArrayData::Float(vec![0u32; n])
        } else if code == 7 {
            ArrayData::Double(vec![0u64; n])
        } else if code == 8 {
            ArrayData::Byte(vec![0i8; n])
        } else if code == 9 {
            ArrayData::Short(vec![0i16; n])
        } else if code == 10 {
            ArrayData::Int(vec![0i32; n])
        } else {
            ArrayData::Long(vec![0i64; n])
        };
        proof {
            match &data {
                ArrayData::Boolean(v) => assert(v@ =~= Seq::new(n as nat, |i: int| 0i8)),
                ArrayData::Char(v) => assert(v@ =~= Seq::new(n as nat, |i: int| 0u16)),
                ArrayData::Float(v) => assert(v@ =~= Seq::new(n as nat, |i: int| 0u32)),
                ArrayData::Double(v) => assert(v@ =~= Seq::new(n as nat, |i: int| 0u64)),
                ArrayData::Byte(v) => assert(v@ =~= Seq::new(n as nat, |i: int| 0i8)),
                ArrayData::Short(v) => assert(v@ =~= Seq::new(n as nat, |i: int| 0i16)),
                ArrayData::Int(v) => assert(v@ =~= Seq::new(n as nat, |i: int| 0i32)),
                ArrayData::Long(v) => assert(v@ =~= Seq::new(n as nat, |i: int| 0i64)),
                ArrayData::Reference(v) => {},
            }
            assert(data@ == zeroed(code, n as nat));
        }
        self.allocate(data)
    }

    /// Writes `value` at index `i` of int array `h`; every handle to `h` sees it.
    pub fn store_int(&mut self, h: usize, i: usize, value: i32)
        requires
            h < old(self)@.len(),
            old(self)@[h as int] is Int,
            i < old(self)@[h as int].len(),
        ensures
            final(self)@ == old(self)@.update(
                h as int,
                ArrayView::Int(old(self)@[h as int]->Int_0.update(i as int, value)),
            ),
    {
        let mut slot = ArrayData::Reference(Vec::new());
        self.arrays.set_and_swap(h, &mut slot);
        if let ArrayData::Int(mut v) = slot {
            v.set(i, value);
            self.arrays.set(h, ArrayData::Int(v));
        }
        proof {
            assert(self@ =~= old(self)@.update(
                h as int,
                ArrayView::Int(old(self)@[h as int]->Int_0.update(i as int, value)),
            ));
        }
    }

    /// Writes `value` at index `i` of reference array `h`; every handle to `h` sees it.
    pub fn store_reference(&mut self, h: usize, i: usize, value: JType)
        requires
            h < old(self)@.len(),
            old(self)@[h as int] is Reference,
            i < old(self)@[h as int].len(),
        ensures
            final(self)@ == old(self)@.update(
                h as int,
                ArrayView::Reference(old(self)@[h as int]->Reference_0.update(i as int, value)),
            ),
    {
        let mut slot = ArrayData::Int(Vec::new());
        self.arrays.set_and_swap(h, &mut slot);
        if let ArrayData::Reference(mut v) = slot {
            v.set(i, value);
            self.arrays.set(h, ArrayData::Reference(v));
        }
        proof {
            assert(self@ =~= old(self)@.update(
                h as int,
                ArrayView::Reference(old(self)@[h as int]->Reference_0.update(i as int, value)),
            ));
        }
    }
}

} // verus!
