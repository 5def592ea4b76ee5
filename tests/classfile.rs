use minijvm::{
    decode_double, decode_float, get_string_at, load_class, ArrayData, ClassInstance, Data1,
    ExecError, FloatConst, Frame, FrameError, JType, LoadError, VM,
};

fn put_u2(v: &mut Vec<u8>, x: u16) {
    v.extend_from_slice(&x.to_be_bytes());
}

fn put_u4(v: &mut Vec<u8>, x: u32) {
    v.extend_from_slice(&x.to_be_bytes());
}

fn put_utf8(v: &mut Vec<u8>, s: &str) {
    v.push(1);
    put_u2(v, s.len() as u16);
    v.extend_from_slice(s.as_bytes());
}

fn put_class(v: &mut Vec<u8>, name_index: u16) {
    v.push(7);
    put_u2(v, name_index);
}

fn header(v: &mut Vec<u8>) {
    put_u4(v, 0xCAFE_BABE);
    put_u2(v, 0);
    put_u2(v, 52);
}

/// A class `Add` extending `java/lang/Object` with one static method
/// `add(II)[I` whose Code attribute holds `code`.
fn add_class(code: &[u8], max_locals: u16) -> Vec<u8> {
    let mut v = Vec::new();
    header(&mut v);
    put_u2(&mut v, 8);
    put_utf8(&mut v, "Add");
    put_class(&mut v, 1);
    put_utf8(&mut v, "java/lang/Object");
    put_class(&mut v, 3);
    put_utf8(&mut v, "add");
    put_utf8(&mut v, "(II)[I");
    put_utf8(&mut v, "Code");
    put_u2(&mut v, 0x0021);
    put_u2(&mut v, 2);
    put_u2(&mut v, 4);
    put_u2(&mut v, 0);
    put_u2(&mut v, 0);
    put_u2(&mut v, 1);
    put_u2(&mut v, 0x0009);
    put_u2(&mut v, 5);
    put_u2(&mut v, 6);
    put_u2(&mut v, 1);
    put_u2(&mut v, 7);
    let mut info = Vec::new();
    put_u2(&mut info, 4);
    put_u2(&mut info, max_locals);
    put_u4(&mut info, code.len() as u32);
    info.extend_from_slice(code);
    put_u2(&mut info, 0);
    put_u2(&mut info, 0);
    put_u4(&mut v, info.len() as u32);
    v.extend_from_slice(&info);
    put_u2(&mut v, 0);
    v
}

fn run_add(code: &[u8], max_locals: u16, args: &[JType]) -> (VM, Result<JType, ExecError>) {
    let class = load_class(&add_class(code, max_locals)).expect("class loads");
    let frame = Frame::new(ClassInstance::new(class), "add", args).expect("frame builds");
    let mut vm = VM::new();
    let r = vm.execute(frame);
    (vm, r)
}

#[test]
fn names_resolve_through_class_entries() {
    let class = load_class(&add_class(&[4, 172], 2)).unwrap();
    assert_eq!(class.this_class, "Add");
    assert_eq!(class.super_class, "java/lang/Object");
    assert_eq!(class.major_version, 52);
    assert_eq!(class.minor_version, 0);
    assert_eq!(class.access_flags, 0x0021);
    assert!(!class.initialized);
    assert_eq!(class.constant_pool.len(), 7);
    assert_eq!(class.methods.len(), 1);
    assert_eq!(class.methods[0].name, "add");
    assert_eq!(class.methods[0].descriptor, "(II)[I");
    assert_eq!(class.methods[0].access_flags, 0x0009);
    assert_eq!(class.methods[0].attributes[0].name, "Code");
    assert!(class.interfaces.is_empty());
    assert!(class.fields.is_empty());
}

#[test]
fn wide_constant_takes_two_slots() {
    let mut v = Vec::new();
    header(&mut v);
    // slots: 1 long (and 2), 3 utf8 "Foo", 4 class #3, 5 double (and 6), 7 utf8 "Bar", 8 class #7
    put_u2(&mut v, 9);
    v.push(5);
    put_u4(&mut v, 0x0000_0001);
    put_u4(&mut v, 0x0000_0002);
    put_utf8(&mut v, "Foo");
    put_class(&mut v, 3);
    v.push(6);
    put_u4(&mut v, 0x3FF8_0000);
    put_u4(&mut v, 0);
    put_utf8(&mut v, "Bar");
    put_class(&mut v, 7);
    put_u2(&mut v, 0);
    put_u2(&mut v, 4);
    put_u2(&mut v, 8);
    put_u2(&mut v, 0);
    put_u2(&mut v, 0);
    put_u2(&mut v, 0);
    put_u2(&mut v, 0);
    let class = load_class(&v).unwrap();
    assert_eq!(class.constant_pool.len(), 8);
    assert!(matches!(class.constant_pool[0].data1, Data1::Long(0x1_0000_0002)));
    assert_eq!(class.constant_pool[1].tag, 0);
    assert!(matches!(class.constant_pool[1].data1, Data1::Empty));
    assert_eq!(class.this_class, "Foo");
    assert_eq!(class.super_class, "Bar");
    assert_eq!(get_string_at(&class.constant_pool, 3).unwrap(), "Foo");
    assert_eq!(get_string_at(&class.constant_pool, 0).unwrap(), "");
    assert_eq!(get_string_at(&class.constant_pool, 8), Err(LoadError::InvalidIndex));
    match class.constant_pool[4].data1 {
        Data1::Double(FloatConst::Finite { negative, mantissa, exponent }) => {
            assert!(!negative);
            assert_eq!(mantissa as f64 * 2f64.powi(exponent), 1.5);
        }
        _ => panic!("expected a finite double"),
    }
}

#[test]
fn wide_constant_in_last_slot() {
    let mut v = Vec::new();
    header(&mut v);
    put_u2(&mut v, 4);
    put_utf8(&mut v, "A");
    put_class(&mut v, 1);
    v.push(5);
    put_u4(&mut v, 0xFFFF_FFFF);
    put_u4(&mut v, 0xFFFF_FFFF);
    put_u2(&mut v, 0);
    put_u2(&mut v, 2);
    put_u2(&mut v, 2);
    put_u2(&mut v, 0);
    put_u2(&mut v, 0);
    put_u2(&mut v, 0);
    put_u2(&mut v, 0);
    let class = load_class(&v).unwrap();
    assert_eq!(class.constant_pool.len(), 3);
    assert!(matches!(class.constant_pool[2].data1, Data1::Long(-1)));
}

/// `mantissa * 2^exponent`, scaled in two steps so that subnormal results are not lost.
fn scale(mantissa: u64, exponent: i32) -> f64 {
    (mantissa as f64) * 2f64.powi(exponent / 2) * 2f64.powi(exponent - exponent / 2)
}

fn float_of(c: FloatConst) -> f32 {
    match c {
        FloatConst::PositiveInfinity => f32::INFINITY,
        FloatConst::NegativeInfinity => f32::NEG_INFINITY,
        FloatConst::NaN => f32::NAN,
        FloatConst::Finite { negative, mantissa, exponent } => {
            let m = scale(mantissa, exponent);
            (if negative { -m } else { m }) as f32
        }
    }
}

fn double_of(c: FloatConst) -> f64 {
    match c {
        FloatConst::PositiveInfinity => f64::INFINITY,
        FloatConst::NegativeInfinity => f64::NEG_INFINITY,
        FloatConst::NaN => f64::NAN,
        FloatConst::Finite { negative, mantissa, exponent } => {
            let m = scale(mantissa, exponent);
            if negative { -m } else { m }
        }
    }
}

#[test]
fn float_special_patterns() {
    assert_eq!(decode_float(0x7f80_0000), FloatConst::PositiveInfinity);
    assert_eq!(decode_float(0xff80_0000), FloatConst::NegativeInfinity);
    assert_eq!(decode_float(0x7fc0_0000), FloatConst::NaN);
    assert_eq!(decode_float(0x7f80_0001), FloatConst::NaN);
    assert_eq!(decode_float(0xff80_0001), FloatConst::NaN);
    assert_eq!(decode_float(0xffff_ffff), FloatConst::NaN);
    assert_eq!(decode_double(0x7ff0_0000_0000_0000), FloatConst::PositiveInfinity);
    assert_eq!(decode_double(0xfff0_0000_0000_0000), FloatConst::NegativeInfinity);
    assert_eq!(decode_double(0x7ff8_0000_0000_0000), FloatConst::NaN);
    assert_eq!(decode_double(0xfff0_0000_0000_0001), FloatConst::NaN);
}

#[test]
fn float_patterns_match_native_reading() {
    let patterns: [u32; 8] =
        [0x3fc0_0000, 0x0000_0000, 0x8000_0000, 0x0000_0001, 0x007f_ffff, 0x4049_0fdb, 0xc2f6_e979, 0x7f7f_ffff];
    for bits in patterns {
        let native = f32::from_be_bytes(bits.to_be_bytes());
        let got = float_of(decode_float(bits));
        assert_eq!(got.to_bits(), native.to_bits(), "pattern {:#x}", bits);
    }
    assert_eq!(
        decode_float(0x3fc0_0000),
        FloatConst::Finite { negative: false, mantissa: 0xc0_0000, exponent: -23 }
    );
    assert_eq!(
        decode_float(0x0000_0001),
        FloatConst::Finite { negative: false, mantissa: 2, exponent: -150 }
    );
}

#[test]
fn double_patterns_match_native_reading() {
    let patterns: [u64; 6] = [
        0x3ff8_0000_0000_0000,
        0x0000_0000_0000_0001,
        0x400921fb54442d18,
        0xc00921fb54442d18,
        0x7fef_ffff_ffff_ffff,
        0x8000_0000_0000_0000,
    ];
    for bits in patterns {
        let native = f64::from_be_bytes(bits.to_be_bytes());
        let got = double_of(decode_double(bits));
        assert_eq!(got.to_bits(), native.to_bits(), "pattern {:#x}", bits);
    }
}

#[test]
fn add_returns_zeroed_int_array() {
    // iconst_1; newarray int; areturn
    let (vm, r) = run_add(&[4, 188, 10, 176], 2, &[JType::Int(1), JType::Int(2)]);
    let h = match r {
        Ok(JType::IntArray(h)) => h,
        _ => panic!("expected an int array"),
    };
    match vm.heap.get(h) {
        ArrayData::Int(v) => assert_eq!(v, &vec![0]),
        _ => panic!("expected int data"),
    }
}

#[test]
fn return_int_gives_top_of_stack() {
    let (_, r) = run_add(&[4, 5, 172], 2, &[JType::Int(1), JType::Int(2)]);
    assert_eq!(r, Ok(JType::Int(2)));
    let (_, r) = run_add(&[4, 5, 172], 0, &[]);
    assert_eq!(r, Ok(JType::Int(2)));
}

#[test]
fn array_handles_alias() {
    let class = load_class(&add_class(&[43, 3, 42, 83, 44, 3, 50, 176], 3)).unwrap();
    let mut vm = VM::new();
    let h = vm.heap.allocate(ArrayData::Reference(vec![JType::Null]));
    let args = [JType::Int(7), JType::ReferenceArray(h), JType::ReferenceArray(h)];
    let frame = Frame::new(ClassInstance::new(class), "add", &args).unwrap();
    assert_eq!(vm.execute(frame), Ok(JType::Int(7)));
    match vm.heap.get(h) {
        ArrayData::Reference(v) => assert_eq!(v, &vec![JType::Int(7)]),
        _ => panic!("expected reference data"),
    }
}

#[test]
fn int_store_through_copy_is_shared() {
    // iconst_2; newarray int; dup; astore_2; iconst_1; iconst_2; iastore; aload_2; areturn
    let (vm, r) = run_add(&[5, 188, 10, 89, 77, 4, 5, 79, 44, 176], 3, &[]);
    let h = match r {
        Ok(JType::IntArray(h)) => h,
        _ => panic!("expected an int array"),
    };
    match vm.heap.get(h) {
        ArrayData::Int(v) => assert_eq!(v, &vec![0, 2]),
        _ => panic!("expected int data"),
    }
}

#[test]
fn out_of_range_store_fails() {
    // iconst_1; newarray int; iconst_1; iconst_0; iastore -> index 1 of a 1-element array
    let (_, r) = run_add(&[4, 188, 10, 4, 3, 79, 1, 176], 2, &[]);
    assert_eq!(r, Err(ExecError::IndexOutOfBounds));
}

#[test]
fn out_of_range_load_fails() {
    let class = load_class(&add_class(&[42, 4, 50, 176], 1)).unwrap();
    let mut vm = VM::new();
    let h = vm.heap.allocate(ArrayData::Reference(vec![JType::Int(3)]));
    let frame = Frame::new(ClassInstance::new(class), "add", &[JType::ReferenceArray(h)]).unwrap();
    assert_eq!(vm.execute(frame), Err(ExecError::IndexOutOfBounds));
}

#[test]
fn reference_store_out_of_range_fails() {
    let class = load_class(&add_class(&[42, 5, 1, 83, 1, 176], 1)).unwrap();
    let mut vm = VM::new();
    let h = vm.heap.allocate(ArrayData::Reference(vec![JType::Int(3), JType::Int(4)]));
    let frame = Frame::new(ClassInstance::new(class), "add", &[JType::ReferenceArray(h)]).unwrap();
    assert_eq!(vm.execute(frame), Err(ExecError::IndexOutOfBounds));
}

#[test]
fn runtime_errors() {
    assert_eq!(run_add(&[0xb1], 0, &[]).1, Err(ExecError::UnsupportedOpcode(0xb1)));
    assert_eq!(run_add(&[4], 0, &[]).1, Err(ExecError::CodeOverrun));
    assert_eq!(run_add(&[172], 0, &[]).1, Err(ExecError::StackUnderflow));
    assert_eq!(run_add(&[26, 172], 0, &[]).1, Err(ExecError::LocalOutOfRange));
    assert_eq!(run_add(&[1, 188, 10, 176], 0, &[]).1, Err(ExecError::TypeMismatch));
    assert_eq!(run_add(&[4, 188, 3, 176], 0, &[]).1, Err(ExecError::UnsupportedArrayType(3)));
    assert_eq!(run_add(&[188], 0, &[]).1, Err(ExecError::CodeOverrun));
    assert_eq!(run_add(&[26, 188, 10, 176], 1, &[JType::Int(-1)]).1, Err(ExecError::NegativeArraySize));
}

#[test]
fn locals_are_seeded_from_arguments() {
    let (_, r) = run_add(&[25, 1, 172], 3, &[JType::Int(5), JType::Long(9)]);
    assert_eq!(r, Ok(JType::Long(9)));
    let (_, r) = run_add(&[45, 176], 4, &[JType::Int(5)]);
    assert_eq!(r, Ok(JType::Null));
    let (_, r) = run_add(&[27, 176], 1, &[JType::Int(5), JType::Int(6)]);
    assert_eq!(r, Err(ExecError::LocalOutOfRange));
}

#[test]
fn every_array_kind_is_allocated() {
    for code in 4u8..=11 {
        let (vm, r) = run_add(&[5, 188, code, 176], 0, &[]);
        let v = r.unwrap();
        let h = match (code, v) {
            (4, JType::BooleanArray(_)) => v.boolean_array(),
            (5, JType::CharArray(_)) => v.char_array(),
            (6, JType::FloatArray(_)) => v.float_array(),
            (7, JType::DoubleArray(_)) => v.double_array(),
            (8, JType::ByteArray(_)) => v.byte_array(),
            (9, JType::ShortArray(_)) => v.short_array(),
            (10, JType::IntArray(_)) => v.int_array(),
            (11, JType::LongArray(_)) => v.long_array(),
            _ => panic!("wrong kind for code {}", code),
        };
        let len = match vm.heap.get(h) {
            ArrayData::Boolean(a) => a.len(),
            ArrayData::Char(a) => a.len(),
            ArrayData::Float(a) => a.len(),
            ArrayData::Double(a) => a.len(),
            ArrayData::Byte(a) => a.len(),
            ArrayData::Short(a) => a.len(),
            ArrayData::Int(a) => a.len(),
            ArrayData::Long(a) => a.len(),
            ArrayData::Reference(a) => a.len(),
        };
        assert_eq!(len, 2);
    }
}

#[test]
fn frame_errors() {
    let class = load_class(&add_class(&[4, 172], 0)).unwrap();
    assert_eq!(Frame::new(ClassInstance::new(class), "sub", &[]).err(), Some(FrameError::NoSuchMethod));
    // a Code payload whose code length runs past its end
    let mut bytes = add_class(&[4, 172], 0);
    let at = bytes.len() - 12;
    bytes[at..at + 4].copy_from_slice(&200u32.to_be_bytes());
    let class = load_class(&bytes).unwrap();
    assert_eq!(Frame::new(ClassInstance::new(class), "add", &[]).err(), Some(FrameError::MalformedCode));
    // rename the attribute to something other than Code
    let mut bytes = add_class(&[4, 172], 0);
    let pos = bytes.windows(4).position(|w| w == b"Code").unwrap();
    bytes[pos] = b'X';
    let class = load_class(&bytes).unwrap();
    assert_eq!(Frame::new(ClassInstance::new(class), "add", &[]).err(), Some(FrameError::MissingCode));
}

#[test]
fn load_errors() {
    let good = add_class(&[4, 172], 0);
    assert!(load_class(&good[..good.len() - 1]).is_err());
    assert!(load_class(&[]).is_err());
    let mut bad_tag = good.clone();
    bad_tag[10] = 2;
    assert_eq!(load_class(&bad_tag).err(), Some(LoadError::UnsupportedTag(2)));
    let mut bad_text = good.clone();
    bad_text[13] = 0xff;
    assert_eq!(load_class(&bad_text).err(), Some(LoadError::InvalidUtf8));
    let mut bad_index = good.clone();
    // header 8, count 2, pool entries 53, access flags 2
    let this_at = 65;
    bad_index[this_at..this_at + 2].copy_from_slice(&0u16.to_be_bytes());
    assert_eq!(load_class(&bad_index).err(), Some(LoadError::InvalidIndex));
}

#[test]
fn scalar_accessors() {
    assert_eq!(JType::Int(-4).as_int(), -4);
    assert_eq!(JType::Byte(-2).byte(), -2);
    assert_eq!(JType::Short(300).short(), 300);
    assert_eq!(JType::Long(1 << 40).long(), 1 << 40);
    assert_eq!(JType::Char(65).char(), 65);
    assert_eq!(JType::Float(1.5f32.to_bits()).float(), 0x3fc0_0000);
    assert_eq!(JType::Double(1.5f64.to_bits()).double(), 0x3ff8_0000_0000_0000);
    assert_eq!(JType::ReturnAddress(17).return_address(), 17);
    assert_eq!(JType::ReferenceArray(3).reference_array(), 3);
}
