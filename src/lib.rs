//! A minimal Java virtual machine: a class-file loader and an interpreter
//! for a small subset of bytecode, with verified contracts.
mod bytes;
mod loader;
mod value;
mod vm;

pub use bytes::Loader;
pub use loader::{
    decode_double, decode_float, get_string_at, load_class, parse_attributes, parse_constant_pool,
    parse_fields, parse_interfaces, Attribute, Class, Constant, Data1, Data2, Field, FloatConst,
    LoadError,
};
pub use value::{ArrayData, ArrayView, Heap, JType};
pub use vm::{ClassInstance, ExecError, Frame, FrameError, Machine, Step, VM};
