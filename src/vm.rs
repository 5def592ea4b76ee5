use vstd::prelude::*;
use crate::bytes::{be16, be32, copy_range, read_u16, read_u32};
use crate::loader::{duplicate_fields, same_fields, Class, Field};
use crate::value::{array_ref, zeroed, ArrayView, Heap, JType};

verus! {

/// A runtime class: the loaded class with its own copy of the field records.
pub struct ClassInstance {
    pub class: Class,
    pub fields: Vec<Field>,
}

impl ClassInstance {
    pub fn new(class: Class) -> (r: ClassInstance)
        ensures
            r.class == class,
            same_fields(r.fields@, class.fields@),
    {
        let fields = duplicate_fields(&class.fields);
        ClassInstance { class, fields }
    }
}

/// Why execution stopped without a result.
#[derive(Clone, Copy, Debug, PartialEq, Eq, Structural)]
pub enum ExecError {
    /// The instruction pointer, or an operand byte, lies past the end of the code.
    CodeOverrun,
    /// An instruction needed more operands than the stack held.
    StackUnderflow,
    /// A local-variable index beyond the frame's locals.
    LocalOutOfRange,
    /// An operand of the wrong kind, or a handle to no array of the needed kind.
    TypeMismatch,
    /// An array index outside the array.
    IndexOutOfBounds,
    /// `newarray` with a negative count.
    NegativeArraySize,
    /// `newarray` with an element-type code outside 4..=11.
    UnsupportedArrayType(u8),
    /// An opcode outside the supported set.
    UnsupportedOpcode(u8),
}

/// The abstract state of one activation: locals, operand stack, instruction
/// pointer and the heap of arrays.
pub struct Machine {
    pub locals: Seq<JType>,
    pub stack: Seq<JType>,
    pub ip: int,
    pub heap: Seq<ArrayView>,
}

/// What one instruction does: go on in a new state, return a value, or fail.
pub enum Step {
    Next(Machine),
    Return(JType, Seq<ArrayView>),
    Fault(ExecError, Seq<ArrayView>),
}

/// Pushes local `idx` and moves to `ip`.
pub open spec fn load_local(m: Machine, idx: int, ip: int) -> Step {
    if idx >= m.locals.len() {
        Step::Fault(ExecError::LocalOutOfRange, m.heap)
    } else {
        Step::Next(Machine { stack: m.stack.push(m.locals[idx]), ip, ..m })
    }
}

/// `aaload`: pop index and reference array, push the element.
pub open spec fn array_load_ref(m: Machine) -> Step {
    let n = m.stack.len();
    if n < 2 {
        Step::Fault(ExecError::StackUnderflow, m.heap)
    } else {
        match (m.stack[n - 2], m.stack[n - 1]) {
            (JType::ReferenceArray(h), JType::Int(i)) => if h >= m.heap.len() || !(m.heap[
                h as int] is Reference) {
                Step::Fault(ExecError::TypeMismatch, m.heap)
            } else if i < 0 || i >= m.heap[h as int].len() {
                Step::Fault(ExecError::IndexOutOfBounds, m.heap)
            } else {
                Step::Next(
                    Machine {
                        stack: m.stack.take(n - 2).push(m.heap[h as int]->Reference_0[i as int]),
                        ip: m.ip + 1,
                        ..m
                    },
                )
            },
            _ => Step::Fault(ExecError::TypeMismatch, m.heap),
        }
    }
}

/// `iastore`: pop value, index and int array, write the value.
pub open spec fn array_store_int(m: Machine) -> Step {
    let n = m.stack.len();
    if n < 3 {
        Step::Fault(ExecError::StackUnderflow, m.heap)
    } else {
        match (m.stack[n - 3], m.stack[n - 2], m.stack[n - 1]) {
            (JType::IntArray(h), JType::Int(i), JType::Int(v)) => if h >= m.heap.len() || !(
            m.heap[h as int] is Int) {
                Step::Fault(ExecError::TypeMismatch, m.heap)
            } else if i < 0 || i >= m.heap[h as int].len() {
                Step::Fault(ExecError::IndexOutOfBounds, m.heap)
            } else {
                Step::Next(
                    Machine {
                        stack: m.stack.take(n - 3),
                        ip: m.ip + 1,
                        heap: m.heap.update(
                            h as int,
                            ArrayView::Int(m.heap[h as int]->Int_0.update(i as int, v)),
                        ),
                        ..m
                    },
                )
            },
            _ => Step::Fault(ExecError::TypeMismatch, m.heap),
        }
    }
}

/// `aastore`: pop value, index and reference array, write the value.
pub open spec fn array_store_ref(m: Machine) -> Step {
    let n = m.stack.len();
    if n < 3 {
        Step::Fault(ExecError::StackUnderflow, m.heap)
    } else {
        let v = m.stack[n - 1];
        match (m.stack[n - 3], m.stack[n - 2]) {
            (JType::ReferenceArray(h), JType::Int(i)) => if h >= m.heap.len() || !(m.heap[
                h as int] is Reference) {
                Step::Fault(ExecError::TypeMismatch, m.heap)
            } else if i < 0 || i >= m.heap[h as int].len() {
                Step::Fault(ExecError::IndexOutOfBounds, m.heap)
            } else {
                Step::Next(
                    Machine {
                        stack: m.stack.take(n - 3),
                        ip: m.ip + 1,
                        heap: m.heap.update(
                            h as int,
                            ArrayView::Reference(m.heap[h as int]->Reference_0.update(i as int, v)),
                        ),
                        ..m
                    },
                )
            },
            _ => Step::Fault(ExecError::TypeMismatch, m.heap),
        }
    }
}

/// `newarray` with element-type code `t`: replace the count on top of the
/// stack with a handle to a fresh zero-filled array.
pub open spec fn new_array(m: Machine, t: u8) -> Step {
    let n = m.stack.len();
    if n < 1 {
        Step::Fault(ExecError::StackUnderflow, m.heap)
    } else {
        match m.stack[n - 1] {
            JType::Int(c) => if t < 4 || t > 11 {
                Step::Fault(ExecError::UnsupportedArrayType(t), m.heap)
            } else if c < 0 {
                Step::Fault(ExecError::NegativeArraySize, m.heap)
            } else {
                Step::Next(
                    Machine {
                        stack: m.stack.update(n - 1, array_ref(t, m.heap.len() as usize)),
                        ip: m.ip + 2,
                        heap: m.heap.push(zeroed(t, c as nat)),
                        ..m
                    },
                )
            },
            _ => Step::Fault(ExecError::TypeMismatch, m.heap),
        }
    }
}

/// The effect of the instruction at `m.ip` of `code`.
pub open spec fn step(code: Seq<u8>, m: Machine) -> Step {
    let n = m.stack.len();
    if m.ip < 0 || m.ip >= code.len() {
        Step::Fault(ExecError::CodeOverrun, m.heap)
    } else {
        let op = code[m.ip];
        if op == 1 {
            Step::Next(Machine { stack: m.stack.push(JType::Null), ip: m.ip + 1, ..m })
        } else if 3 <= op <= 5 {
            Step::Next(Machine { stack: m.stack.push(JType::Int((op - 3) as i32)), ip: m.ip + 1, ..m })
        } else if op == 25 {
            if m.ip + 1 >= code.len() {
                Step::Fault(ExecError::CodeOverrun, m.heap)
            } else {
                load_local(m, code[m.ip + 1] as int, m.ip + 2)
            }
        } else if 26 <= op <= 29 {
            load_local(m, op - 26, m.ip + 1)
        } else if 42 <= op <= 45 {
            load_local(m, op - 42, m.ip + 1)
        } else if op == 50 {
            array_load_ref(m)
        } else if op == 77 {
            if n < 1 {
                Step::Fault(ExecError::StackUnderflow, m.heap)
            } else if m.locals.len() <= 2 {
                Step::Fault(ExecError::LocalOutOfRange, m.heap)
            } else {
                Step::Next(
                    Machine {
                        locals: m.locals.update(2, m.stack[n - 1]),
                        stack: m.stack.take(n - 1),
                        ip: m.ip + 1,
                        ..m
                    },
                )
            }
        } else if op == 79 {
            array_store_int(m)
        } else if op == 83 {
            array_store_ref(m)
        } else if op == 89 {
            if n < 1 {
                Step::Fault(ExecError::StackUnderflow, m.heap)
            } else {
                Step::Next(Machine { stack: m.stack.push(m.stack[n - 1]), ip: m.ip + 1, ..m })
            }
        } else if op == 172 || op == 176 {
            if n < 1 {
                Step::Fault(ExecError::StackUnderflow, m.heap)
            } else {
                Step::Return(m.stack[n - 1], m.heap)
            }
        } else if op == 188 {
            if m.ip + 1 >= code.len() {
                Step::Fault(ExecError::CodeOverrun, m.heap)
            } else {
                new_array(m, code[m.ip + 1])
            }
        } else {
            Step::Fault(ExecError::UnsupportedOpcode(op), m.heap)
        }
    }
}

/// Runs `code` from state `m` to its end: the result, and the heap as it is then.
pub open spec fn run(code: Seq<u8>, m: Machine) -> (Result<JType, ExecError>, Seq<ArrayView>)
    decreases code.len() - m.ip,
{
    match step(code, m) {
        Step::Next(m2) => if m.ip < m2.ip <= code.len() {
            run(code, m2)
        } else {
            (Err(ExecError::CodeOverrun), m2.heap)
        },
        Step::Return(v, h) => (Ok(v), h),
        Step::Fault(e, h) => (Err(e), h),
    }
}

/// Every instruction that goes on moves the instruction pointer forward and
/// stays within the code.
pub proof fn lemma_step_advances(code: Seq<u8>, m: Machine)
    ensures
        step(code, m) is Next ==> m.ip < step(code, m)->Next_0.ip <= code.len(),
{
}

/// `aload_1; iconst_0; aload_0; aastore; aload_2; iconst_0; aaload; areturn`:
/// stores local 0 into element 0 of the array in local 1, then returns
/// element 0 of the array in local 2.
pub open spec fn alias_probe() -> Seq<u8> {
    seq![43u8, 3u8, 42u8, 83u8, 44u8, 3u8, 50u8, 176u8]
}

/// Array values alias: when locals 1 and 2 hold the same reference array, a
/// store through local 1 is seen by a load through local 2.
pub proof fn lemma_array_aliasing(m: Machine)
    requires
        m.ip == 0,
        m.locals.len() >= 3,
        m.locals[1] == m.locals[2],
        m.locals[1] is ReferenceArray,
        m.locals[1]->ReferenceArray_0 < m.heap.len(),
        m.heap[m.locals[1]->ReferenceArray_0 as int] is Reference,
        m.heap[m.locals[1]->ReferenceArray_0 as int].len() >= 1,
    ensures
        run(alias_probe(), m).0 == Ok::<JType, ExecError>(m.locals[0]),
{
    let code = alias_probe();
    let h = m.locals[1]->ReferenceArray_0 as int;
    let v = m.locals[0];
    let heap2 = m.heap.update(h, ArrayView::Reference(m.heap[h]->Reference_0.update(0, v)));
    let s0 = m.stack;
    let m1 = Machine { stack: s0.push(m.locals[1]), ip: 1, ..m };
    let m2 = Machine { stack: m1.stack.push(JType::Int(0)), ip: 2, ..m };
    let m3 = Machine { stack: m2.stack.push(v), ip: 3, ..m };
    let m4 = Machine { stack: s0, ip: 4, heap: heap2, ..m };
    let m5 = Machine { stack: s0.push(m.locals[2]), ip: 5, ..m4 };
    let m6 = Machine { stack: m5.stack.push(JType::Int(0)), ip: 6, ..m4 };
    let m7 = Machine { stack: s0.push(v), ip: 7, ..m4 };
    assert(step(code, m) == Step::Next(m1));
    assert(step(code, m1) == Step::Next(m2));
    assert(step(code, m2) == Step::Next(m3));
    assert(m3.stack.take(m3.stack.len() - 3) =~= s0);
    assert(step(code, m3) == Step::Next(m4));
    assert(step(code, m4) == Step::Next(m5));
    assert(step(code, m5) == Step::Next(m6));
    assert(m6.heap[h]->Reference_0[0] == v);
    assert(m6.stack.take(m6.stack.len() - 2) =~= s0);
    assert(step(code, m6) == Step::Next(m7));
    assert(step(code, m7) == Step::Return(v, heap2));
    assert(run(code, m7).0 == Ok::<JType, ExecError>(v));
    assert(run(code, m6) == run(code, m7));
    assert(run(code, m5) == run(code, m6));
    assert(run(code, m4) == run(code, m5));
    assert(run(code, m3) == run(code, m4));
    assert(run(code, m2) == run(code, m3));
    assert(run(code, m1) == run(code, m2));
    assert(run(code, m) == run(code, m1));
}

/// An array index outside the array stops `aaload`, `iastore` and `aastore`
/// with `IndexOutOfBounds`, and leaves the heap as it was.
pub proof fn lemma_bounds_fault(code: Seq<u8>, m: Machine)
    requires
        0 <= m.ip < code.len(),
        code[m.ip] == 50 || code[m.ip] == 79 || code[m.ip] == 83,
        m.stack.len() >= 3,
        ({
            let n = m.stack.len();
            let (arr, idx) = if code[m.ip] == 50 {
                (m.stack[n - 2], m.stack[n - 1])
            } else {
                (m.stack[n - 3], m.stack[n - 2])
            };
            let want_int = code[m.ip] == 79;
            &&& idx is Int
            &&& (if want_int {
                arr is IntArray && m.stack[n - 1] is Int
            } else {
                arr is ReferenceArray
            })
            &&& ({
                let h = if want_int {
                    arr->IntArray_0
                } else {
                    arr->ReferenceArray_0
                };
                &&& h < m.heap.len()
                &&& (if want_int {
                    m.heap[h as int] is Int
                } else {
                    m.heap[h as int] is Reference
                })
                &&& (idx->Int_0 < 0 || idx->Int_0 >= m.heap[h as int].len())
            })
        }),
    ensures
        step(code, m) == Step::Fault(ExecError::IndexOutOfBounds, m.heap),
        run(code, m) == (Err::<JType, ExecError>(ExecError::IndexOutOfBounds), m.heap),
{
}

/// Why no frame could be built for a method.
#[derive(Clone, Copy, Debug, PartialEq, Eq, Structural)]
pub enum FrameError {
    /// No method has the requested name.
    NoSuchMethod,
    /// Methods have the name, but none has a `Code` attribute.
    MissingCode,
    /// The `Code` attribute is too short for its header or for the code length it gives.
    MalformedCode,
}

/// The name of the attribute that holds a method's bytecode.
pub open spec fn code_attr_name() -> Seq<char> {
    seq!['C', 'o', 'd', 'e']
}

/// Method `k` has the name `name`.
pub open spec fn named(methods: Seq<Field>, name: Seq<char>, k: int) -> bool {
    0 <= k < methods.len() && methods[k].name@ == name
}

/// Attribute `j` of `f` is a `Code` attribute.
pub open spec fn is_code(f: Field, j: int) -> bool {
    0 <= j < f.attributes@.len() && f.attributes@[j].name@ == code_attr_name()
}

pub open spec fn has_code(f: Field) -> bool {
    exists|j: int| is_code(f, j)
}

/// Method `k` has the name `name` and a `Code` attribute.
pub open spec fn runnable(methods: Seq<Field>, name: Seq<char>, k: int) -> bool {
    named(methods, name, k) && has_code(methods[k])
}

/// Method `k` is the first runnable method named `name`, and attribute `j`
/// is its first `Code` attribute: the body that a frame for `name` runs.
pub open spec fn selected(methods: Seq<Field>, name: Seq<char>, k: int, j: int) -> bool {
    &&& runnable(methods, name, k)
    &&& forall|k2: int| 0 <= k2 < k ==> !runnable(methods, name, k2)
    &&& is_code(methods[k], j)
    &&& forall|j2: int| 0 <= j2 < j ==> !is_code(methods[k], j2)
}

/// A `Code` payload is long enough for its header and for the code length it gives.
pub open spec fn code_header_ok(info: Seq<u8>) -> bool {
    info.len() >= 8 && 8 + be32(info, 4) <= info.len()
}

/// The bytecode inside a well-formed `Code` payload.
pub open spec fn code_body(info: Seq<u8>) -> Seq<u8> {
    info.subrange(8, 8 + be32(info, 4))
}

/// `max_locals` slots, the first ones filled from `args`, the rest empty.
pub open spec fn initial_locals(max_locals: int, args: Seq<JType>) -> Seq<JType> {
    Seq::new(max_locals as nat, |i: int| if i < args.len() { args[i] } else { JType::Null })
}

/// Finds the `Code` attribute of the first method named `name` that has one.
fn find_code(methods: &Vec<Field>, name: &String) -> (r: Result<(usize, usize), FrameError>)
    ensures
        r is Ok ==> selected(methods@, name@, r->Ok_0.0 as int, r->Ok_0.1 as int),
        r == Err::<(usize, usize), FrameError>(FrameError::NoSuchMethod) <==> !exists|k: int|
            named(methods@, name@, k),
        r == Err::<(usize, usize), FrameError>(FrameError::MissingCode) <==> (exists|k: int|
            named(methods@, name@, k)) && !exists|k: int| runnable(methods@, name@, k),
        !(r == Err::<(usize, usize), FrameError>(FrameError::MalformedCode)),
{
    let code_name = "Code".to_owned();
    proof {
        reveal_strlit("Code");
        assert(code_name@ =~= code_attr_name());
    }
    let mut seen = false;
    let mut k: usize = 0;
    while k < methods.len()
        invariant
            k <= methods@.len(),
            code_name@ == code_attr_name(),
            seen <==> exists|k2: int| 0 <= k2 < k && named(methods@, name@, k2),
            forall|k2: int| 0 <= k2 < k ==> !runnable(methods@, name@, k2),
        decreases methods@.len() - k,
    {
        let method = &methods[k];
        if method.name == *name {
            seen = true;
            let mut j: usize = 0;
            while j < method.attributes.len()
                invariant
                    j <= method.attributes@.len(),
                    code_name@ == code_attr_name(),
                    k < methods@.len(),
                    *method == methods@[k as int],
                    named(methods@, name@, k as int),
                    forall|k2: int| 0 <= k2 < k ==> !runnable(methods@, name@, k2),
                    forall|j2: int| 0 <= j2 < j ==> !is_code(*method, j2),
                decreases method.attributes@.len() - j,
            {
                if method.attributes[j].name == code_name {
                    proof {
                        assert(is_code(methods@[k as int], j as int));
                        assert(runnable(methods@, name@, k as int));
                    }
                    return Ok((k, j));
                }
                j = j + 1;
            }
            proof {
                if has_code(methods@[k as int]) {
                    let w = choose|w: int| is_code(methods@[k as int], w);
                    assert(!is_code(methods@[k as int], w));
                }
            }
        }
        proof {
            if seen {
                if !named(methods@, name@, k as int) {
                    let w = choose|w: int| 0 <= w < k + 1 && named(methods@, name@, w);
                    assert(0 <= w < k && named(methods@, name@, w));
                }
            } else {
                assert forall|k2: int| 0 <= k2 < k + 1 implies !named(methods@, name@, k2) by {
                    if k2 == k {
                        assert(!(methods@[k as int].name@ == name@));
                    }
                }
            }
        }
        k = k + 1;
    }
    if seen {
        Err(FrameError::MissingCode)
    } else {
        Err(FrameError::NoSuchMethod)
    }
}

/// One method activation.
pub struct Frame {
    class: ClassInstance,
    locals: Vec<JType>,
    stack: Vec<JType>,
    code: Vec<u8>,
    ip: usize,
}

impl Frame {
    /// The bytecode of the method.
    pub closed spec fn code_view(&self) -> Seq<u8> {
        self.code@
    }

    /// The abstract state of this activation over heap `heap`.
    pub closed spec fn machine(&self, heap: Seq<ArrayView>) -> Machine {
        Machine { locals: self.locals@, stack: self.stack@, ip: self.ip as int, heap }
    }

    /// Builds the activation of the method named `method_name`: its code is
    /// the body of the `Code` attribute, its locals hold `max_locals` slots
    /// seeded from `args`, its stack is empty.
    pub fn new(class: ClassInstance, method_name: &str, args: &[JType]) -> (r: Result<Frame, FrameError>)
        ensures
            r == Err::<Frame, FrameError>(FrameError::NoSuchMethod) <==> !exists|k: int|
                named(class.class.methods@, method_name@, k),
            r == Err::<Frame, FrameError>(FrameError::MissingCode) <==> (exists|k: int|
                named(class.class.methods@, method_name@, k)) && !exists|k: int|
                runnable(class.class.methods@, method_name@, k),
            forall|k: int, j: int|
                selected(class.class.methods@, method_name@, k, j) ==> {
                    let info = class.class.methods@[k].attributes@[j].info@;
                    &&& (r is Ok <==> code_header_ok(info))
                    &&& (r is Err ==> r == Err::<Frame, FrameError>(FrameError::MalformedCode))
                    &&& (r is Ok ==> r->Ok_0.code_view() == code_body(info))
                    &&& (r is Ok ==> forall|h: Seq<ArrayView>|
                        #[trigger] r->Ok_0.machine(h) == Machine {
                            locals: initial_locals(be16(info, 2), args@),
                            stack: Seq::empty(),
                            ip: 0,
                            heap: h,
                        })
                },
    {
        let name = method_name.to_owned();
        let (k, j) = match find_code(&class.class.methods, &name) {
            Ok(p) => p,
            Err(e) => {
                return Err(e);
            },
        };
        let info = class.class.methods[k].attributes[j].info.as_slice();
        proof {
            assert(selected(class.class.methods@, method_name@, k as int, j as int));
            assert forall|k2: int, j2: int|
                selected(class.class.methods@, method_name@, k2, j2) implies k2 == k && j2
                    == j by {
                if k2 < k {
                    assert(!runnable(class.class.methods@, method_name@, k2));
                }
                if k < k2 {
                    assert(!runnable(class.class.methods@, method_name@, k as int));
                }
                if j2 < j {
                    assert(!is_code(class.class.methods@[k as int], j2));
                }
                if j < j2 {
                    assert(!is_code(class.class.methods@[k as int], j as int));
                }
            }
        }
        if info.len() < 8 {
            return Err(FrameError::MalformedCode);
        }
        let max_locals = read_u16(info, 2);
        let code_length = read_u32(info, 4);
        if info.len() - 8 < code_length as usize {
            return Err(FrameError::MalformedCode);
        }
        let code = copy_range(info, 8, 8 + code_length as usize);
        let mut locals: Vec<JType> = Vec::new();
        let mut i: usize = 0;
        while i < max_locals as usize
            invariant
                i <= max_locals,
                locals@ == initial_locals(i as int, args@),
            decreases max_locals - i,
        {
            if i < args.len() {
                locals.push(args[i]);
            } else {
                locals.push(JType::Null);
            }
            i = i + 1;
            proof {
                assert(locals@ =~= initial_locals(i as int, args@));
            }
        }
        let frame = Frame { class, locals, stack: Vec::new(), code, ip: 0 };
        proof {
            assert(frame.stack@ =~= Seq::<JType>::empty());
        }
        Ok(frame)
    }
}

/// The interpreter. It owns the heap that array values refer to.
pub struct VM {
    pub heap: Heap,
}

impl VM {
    pub fn new() -> (r: VM)
        ensures
            r.heap@ == Seq::<ArrayView>::empty(),
    {
        VM { heap: Heap::new() }
    }

    fn push_local(frame: &mut Frame, idx: usize, ip: usize, Ghost(heap): Ghost<Seq<ArrayView>>) -> (r:
        Option<ExecError>)
        ensures
            final(frame).code == old(frame).code,
            final(frame).class == old(frame).class,
            match load_local(old(frame).machine(heap), idx as int, ip as int) {
                Step::Next(m2) => r is None && final(frame).machine(heap) == m2,
                Step::Fault(e, _) => r == Some(e),
                _ => false,
            },
    {
        if idx >= frame.locals.len() {
            Some(ExecError::LocalOutOfRange)
        } else {
            let v = frame.locals[idx];
            frame.stack.push(v);
            frame.ip = ip;
            None
        }
    }

    /// Executes the instruction at the frame's instruction pointer: `None`
    /// when execution goes on, else the method's outcome.
    fn step_once(&mut self, frame: &mut Frame) -> (r: Option<Result<JType, ExecError>>)
        requires
            old(frame).ip <= old(frame).code@.len(),
        ensures
            final(frame).code == old(frame).code,
            final(frame).class == old(frame).class,
            match step(old(frame).code@, old(frame).machine(old(self).heap@)) {
                Step::Next(m2) => r is None && final(frame).machine(final(self).heap@) == m2,
                Step::Return(v, h) => r == Some(Ok::<JType, ExecError>(v)) && final(self).heap@ == h,
                Step::Fault(e, h) => r == Some(Err::<JType, ExecError>(e)) && final(self).heap@ == h,
            },
    {
        let ghost h0 = self.heap@;
        if frame.ip >= frame.code.len() {
            return Some(Err(ExecError::CodeOverrun));
        }
        let op: u8 = frame.code[frame.ip];
        let n = frame.stack.len();
        if op == 1 {
            frame.stack.push(JType::Null);
            frame.ip = frame.ip + 1;
            None
        } else if 3 <= op && op <= 5 {
            frame.stack.push(JType::Int((op - 3) as i32));
            frame.ip = frame.ip + 1;
            None
        } else if op == 25 {
            if frame.ip + 1 >= frame.code.len() {
                return Some(Err(ExecError::CodeOverrun));
            }
            let idx = frame.code[frame.ip + 1];
            let ip = frame.ip + 2;
            match Self::push_local(frame, idx as usize, ip, Ghost(h0)) {
                None => None,
                Some(e) => Some(Err(e)),
            }
        } else if 26 <= op && op <= 29 {
            let ip = frame.ip + 1;
            match Self::push_local(frame, (op - 26) as usize, ip, Ghost(h0)) {
                None => None,
                Some(e) => Some(Err(e)),
            }
        } else if 42 <= op && op <= 45 {
            let ip = frame.ip + 1;
            match Self::push_local(frame, (op - 42) as usize, ip, Ghost(h0)) {
                None => None,
                Some(e) => Some(Err(e)),
            }
        } else if op == 50 {
            if n < 2 {
                return Some(Err(ExecError::StackUnderflow));
            }
            match (frame.stack[n - 2], frame.stack[n - 1]) {
                (JType::ReferenceArray(h), JType::Int(i)) => {
                    if h >= self.heap.len() {
                        return Some(Err(ExecError::TypeMismatch));
                    }
                    match self.heap.get(h) {
                        crate::value::ArrayData::Reference(v) => {
                            if i < 0 || i as usize >= v.len() {
                                return Some(Err(ExecError::IndexOutOfBounds));
                            }
                            let x = v[i as usize];
                            frame.stack.pop();
                            frame.stack.pop();
                            frame.stack.push(x);
                            frame.ip = frame.ip + 1;
                            proof {
                                assert(frame.stack@ =~= old(frame).stack@.take(n - 2).push(x));
                            }
                            None
                        },
                        _ => Some(Err(ExecError::TypeMismatch)),
                    }
                },
                _ => Some(Err(ExecError::TypeMismatch)),
            }
        } else if op == 77 {
            if n < 1 {
                return Some(Err(ExecError::StackUnderflow));
            }
            if frame.locals.len() <= 2 {
                return Some(Err(ExecError::LocalOutOfRange));
            }
            let v = frame.stack.pop().unwrap();
            frame.locals.set(2, v);
            frame.ip = frame.ip + 1;
            proof {
                assert(frame.stack@ =~= old(frame).stack@.take(n - 1));
            }
            None
        } else if op == 79 {
            if n < 3 {
                return Some(Err(ExecError::StackUnderflow));
            }
            match (frame.stack[n - 3], frame.stack[n - 2], frame.stack[n - 1]) {
                (JType::IntArray(h), JType::Int(i), JType::Int(v)) => {
                    if h >= self.heap.len() {
                        return Some(Err(ExecError::TypeMismatch));
                    }
                    let len = match self.heap.get(h) {
                        crate::value::ArrayData::Int(a) => a.len(),
                        _ => {
                            return Some(Err(ExecError::TypeMismatch));
                        },
                    };
                    if i < 0 || i as usize >= len {
                        return Some(Err(ExecError::IndexOutOfBounds));
                    }
                    self.heap.store_int(h, i as usize, v);
                    frame.stack.pop();
                    frame.stack.pop();
                    frame.stack.pop();
                    frame.ip = frame.ip + 1;
                    proof {
                        assert(frame.stack@ =~= old(frame).stack@.take(n - 3));
                    }
                    None
                },
                _ => Some(Err(ExecError::TypeMismatch)),
            }
        } else if op == 83 {
            if n < 3 {
                return Some(Err(ExecError::StackUnderflow));
            }
            let v = frame.stack[n - 1];
            match (frame.stack[n - 3], frame.stack[n - 2]) {
                (JType::ReferenceArray(h), JType::Int(i)) => {
                    if h >= self.heap.len() {
                        return Some(Err(ExecError::TypeMismatch));
                    }
                    let len = match self.heap.get(h) {
                        crate::value::ArrayData::Reference(a) => a.len(),
                        _ => {
                            return Some(Err(ExecError::TypeMismatch));
                        },
                    };
                    if i < 0 || i as usize >= len {
                        return Some(Err(ExecError::IndexOutOfBounds));
                    }
                    self.heap.store_reference(h, i as usize, v);
                    frame.stack.pop();
                    frame.stack.pop();
                    frame.stack.pop();
                    frame.ip = frame.ip + 1;
                    proof {
                        assert(frame.stack@ =~= old(frame).stack@.take(n - 3));
                    }
                    None
                },
                _ => Some(Err(ExecError::TypeMismatch)),
            }
        } else if op == 89 {
            if n < 1 {
                return Some(Err(ExecError::StackUnderflow));
            }
            let v = frame.stack[n - 1];
            frame.stack.push(v);
            frame.ip = frame.ip + 1;
            None
        } else if op == 172 || op == 176 {
            if n < 1 {
                return Some(Err(ExecError::StackUnderflow));
            }
            Some(Ok(frame.stack[n - 1]))
        } else if op == 188 {
            if frame.ip + 1 >= frame.code.len() {
                return Some(Err(ExecError::CodeOverrun));
            }
            let t = frame.code[frame.ip + 1];
            if n < 1 {
                return Some(Err(ExecError::StackUnderflow));
            }
            match frame.stack[n - 1] {
                JType::Int(c) => {
                    if t < 4 || t > 11 {
                        return Some(Err(ExecError::UnsupportedArrayType(t)));
                    }
                    if c < 0 {
                        return Some(Err(ExecError::NegativeArraySize));
                    }
                    let h = self.heap.alloc_zeroed(t, c as usize);
                    let r = if t == 4 {
                        JType::BooleanArray(h)
                    } else if t == 5 {
                        JType::CharArray(h)
                    } else if t == 6 {
                        JType::FloatArray(h)
                    } else if t == 7 {
                        JType::DoubleArray(h)
                    } else if t == 8 {
                        JType::ByteArray(h)
                    } else if t == 9 {
                        JType::ShortArray(h)
                    } else if t == 10 {
                        JType::IntArray(h)
                    } else {
                        JType::LongArray(h)
                    };
                    frame.stack.set(n - 1, r);
                    frame.ip = frame.ip + 2;
                    None
                },
                _ => Some(Err(ExecError::TypeMismatch)),
            }
        } else {
            Some(Err(ExecError::UnsupportedOpcode(op)))
        }
    }

    /// Runs the frame's method to its return instruction. The outcome and the
    /// heap afterwards are those of `run` on the method's code.
    pub fn execute(&mut self, frame: Frame) -> (r: Result<JType, ExecError>)
        ensures
            r == run(frame.code_view(), frame.machine(old(self).heap@)).0,
            final(self).heap@ == run(frame.code_view(), frame.machine(old(self).heap@)).1,
    {
        let mut f = frame;
        if f.ip > f.code.len() {
            return Err(ExecError::CodeOverrun);
        }
        let ghost code = f.code@;
        let ghost outcome = run(code, f.machine(self.heap@));
        loop
            invariant
                f.code@ == code,
                f.ip <= code.len(),
                run(code, f.machine(self.heap@)) == outcome,
                outcome == run(frame.code_view(), frame.machine(old(self).heap@)),
            decreases code.len() - f.ip,
        {
            let ghost before = f.machine(self.heap@);
            let r = self.step_once(&mut f);
            proof {
                lemma_step_advances(code, before);
            }
            match r {
                None => {},
                Some(res) => {
                    proof {
                        assert(run(code, before) == (res, self.heap@));
                    }
                    return res;
                },
            }
        }
    }
}

} // verus!
