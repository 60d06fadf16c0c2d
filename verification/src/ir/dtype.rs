use vstd::prelude::*;

use crate::text::str_eq;

verus! {

/// Element types of tensors.
#[derive(Debug, Clone, Copy, PartialEq, Eq, Structural)]
pub enum Dtype {
    U8,
    I8,
    U16,
    I16,
    U32,
    I32,
    U64,
    I64,
    FP16,
    FP32,
    FP64,
    BF16,
}

/// Width in bytes of one element of the given type.
pub open spec fn dtype_size(d: Dtype) -> int {
    match d {
        Dtype::U8 | Dtype::I8 => 1,
        Dtype::U16 | Dtype::I16 | Dtype::FP16 | Dtype::BF16 => 2,
        Dtype::U32 | Dtype::I32 | Dtype::FP32 => 4,
        Dtype::U64 | Dtype::I64 | Dtype::FP64 => 8,
    }
}

/// Short name of an element type, as printed in PII graphs and read back from them.
pub open spec fn dtype_name(d: Dtype) -> Seq<char> {
    match d {
        Dtype::U8 => "u8"@,
        Dtype::I8 => "s8"@,
        Dtype::U16 => "u16"@,
        Dtype::I16 => "s16"@,
        Dtype::U32 => "u32"@,
        Dtype::I32 => "s32"@,
        Dtype::U64 => "u64"@,
        Dtype::I64 => "s64"@,
        Dtype::FP16 => "f16"@,
        Dtype::FP32 => "f32"@,
        Dtype::FP64 => "f64"@,
        Dtype::BF16 => "bf16"@,
    }
}

/// Name of the element type in the generated JAX code.
pub open spec fn dtype_jnp_name(d: Dtype) -> Seq<char> {
    match d {
        Dtype::U8 => "jnp.uint8"@,
        Dtype::I8 => "jnp.int8"@,
        Dtype::U16 => "jnp.uint16"@,
        Dtype::I16 => "jnp.int16"@,
        Dtype::U32 => "jnp.uint32"@,
        Dtype::I32 => "jnp.int32"@,
        Dtype::U64 => "jnp.uint64"@,
        Dtype::I64 => "jnp.int64"@,
        Dtype::FP16 => "jnp.float16"@,
        Dtype::FP32 => "jnp.float32"@,
        Dtype::FP64 => "jnp.float64"@,
        Dtype::BF16 => "jnp.bfloat16"@,
    }
}

impl Dtype {
    /// Short name of the type (`u8`, `s8`, ..., `bf16`).
    pub fn name(&self) -> (r: &'static str)
        ensures
            r@ == dtype_name(*self),
    {
        match self {
            Dtype::U8 => "u8",
            Dtype::I8 => "s8",
            Dtype::U16 => "u16",
            Dtype::I16 => "s16",
            Dtype::U32 => "u32",
            Dtype::I32 => "s32",
            Dtype::U64 => "u64",
            Dtype::I64 => "s64",
            Dtype::FP16 => "f16",
            Dtype::FP32 => "f32",
            Dtype::FP64 => "f64",
            Dtype::BF16 => "bf16",
        }
    }

    /// Name of the type in the generated JAX code (`jnp.uint8`, ...).
    pub fn jnp_name(&self) -> (r: &'static str)
        ensures
            r@ == dtype_jnp_name(*self),
    {
        match self {
            Dtype::U8 => "jnp.uint8",
            Dtype::I8 => "jnp.int8",
            Dtype::U16 => "jnp.uint16",
            Dtype::I16 => "jnp.int16",
            Dtype::U32 => "jnp.uint32",
            Dtype::I32 => "jnp.int32",
            Dtype::U64 => "jnp.uint64",
            Dtype::I64 => "jnp.int64",
            Dtype::FP16 => "jnp.float16",
            Dtype::FP32 => "jnp.float32",
            Dtype::FP64 => "jnp.float64",
            Dtype::BF16 => "jnp.bfloat16",
        }
    }

    /// The type whose short name is `s`. Only the twelve printed names are
    /// types; `lookup_name` tells whether a string is one of them.
    pub fn from_name(s: &str) -> (r: Dtype)
        requires
            exists|d: Dtype| dtype_name(d) == s@,
        ensures
            dtype_name(r) == s@,
    {
        match Dtype::lookup_name(s) {
            Some(d) => d,
            None => {
                proof {
                    let d = choose|d: Dtype| dtype_name(d) == s@;
                    assert(dtype_name(d) == s@);
                }
                Dtype::U8
            },
        }
    }

    /// The type whose short name is `s`; `None` for any other string.
    pub fn lookup_name(s: &str) -> (r: Option<Dtype>)
        ensures
            r matches Some(d) ==> dtype_name(d) == s@,
            r is None ==> forall|d: Dtype| dtype_name(d) != s@,
    {
        if str_eq(s, "u8") {
            return Some(Dtype::U8);
        }
        if str_eq(s, "s8") {
            return Some(Dtype::I8);
        }
        if str_eq(s, "u16") {
            return Some(Dtype::U16);
        }
        if str_eq(s, "s16") {
            return Some(Dtype::I16);
        }
        if str_eq(s, "u32") {
            return Some(Dtype::U32);
        }
        if str_eq(s, "s32") {
            return Some(Dtype::I32);
        }
        if str_eq(s, "u64") {
            return Some(Dtype::U64);
        }
        if str_eq(s, "s64") {
            return Some(Dtype::I64);
        }
        if str_eq(s, "f16") {
            return Some(Dtype::FP16);
        }
        if str_eq(s, "f32") {
            return Some(Dtype::FP32);
        }
        if str_eq(s, "f64") {
            return Some(Dtype::FP64);
        }
        if str_eq(s, "bf16") {
            return Some(Dtype::BF16);
        }
        proof {
            reveal_strlit("u8");
            reveal_strlit("s8");
            reveal_strlit("u16");
            reveal_strlit("s16");
            reveal_strlit("u32");
            reveal_strlit("s32");
            reveal_strlit("u64");
            reveal_strlit("s64");
            reveal_strlit("f16");
            reveal_strlit("f32");
            reveal_strlit("f64");
            reveal_strlit("bf16");
            assert forall|d: Dtype| dtype_name(d) != s@ by {
                match d {
                    Dtype::U8 => assert(dtype_name(d) == "u8"@),
                    Dtype::I8 => assert(dtype_name(d) == "s8"@),
                    Dtype::U16 => assert(dtype_name(d) == "u16"@),
                    Dtype::I16 => assert(dtype_name(d) == "s16"@),
                    Dtype::U32 => assert(dtype_name(d) == "u32"@),
                    Dtype::I32 => assert(dtype_name(d) == "s32"@),
                    Dtype::U64 => assert(dtype_name(d) == "u64"@),
                    Dtype::I64 => assert(dtype_name(d) == "s64"@),
                    Dtype::FP16 => assert(dtype_name(d) == "f16"@),
                    Dtype::FP32 => assert(dtype_name(d) == "f32"@),
                    Dtype::FP64 => assert(dtype_name(d) == "f64"@),
                    Dtype::BF16 => assert(dtype_name(d) == "bf16"@),
                }
            }
        }
        None
    }
}

impl Dtype {
    pub fn size_in_bytes(&self) -> (r: i32)
        ensures
            r == dtype_size(*self),
    {
        match self {
            Dtype::U8 => 1,
            Dtype::I8 => 1,
            Dtype::U16 => 2,
            Dtype::I16 => 2,
            Dtype::U32 => 4,
            Dtype::I32 => 4,
            Dtype::U64 => 8,
            Dtype::I64 => 8,
            Dtype::FP16 => 2,
            Dtype::FP32 => 4,
            Dtype::FP64 => 8,
            Dtype::BF16 => 2,
        }
    }
}


/// Distinct element types have distinct names, so a printed type reads back
/// as itself.
pub proof fn lemma_dtype_name_injective(a: Dtype, b: Dtype)
    ensures
        dtype_name(a) == dtype_name(b) ==> a == b,
{
    reveal_strlit("u8");
    reveal_strlit("s8");
    reveal_strlit("u16");
    reveal_strlit("s16");
    reveal_strlit("u32");
    reveal_strlit("s32");
    reveal_strlit("u64");
    reveal_strlit("s64");
    reveal_strlit("f16");
    reveal_strlit("f32");
    reveal_strlit("f64");
    reveal_strlit("bf16");
    if dtype_name(a) == dtype_name(b) {
        let s = dtype_name(a);
        assert(s.len() == dtype_name(b).len());
        assert(s[0] == dtype_name(b)[0]);
        assert(s[1] == dtype_name(b)[1]);
        if s.len() > 2 {
            assert(s[2] == dtype_name(b)[2]);
        }
    }
}


/// The element types: their widths in bytes, their printed names and their
/// names in the generated JAX code.
pub proof fn lemma_dtype_table()
    ensures
        dtype_size(Dtype::U8) == 1 && dtype_name(Dtype::U8) == "u8"@ && dtype_jnp_name(Dtype::U8) == "jnp.uint8"@,
        dtype_size(Dtype::I8) == 1 && dtype_name(Dtype::I8) == "s8"@ && dtype_jnp_name(Dtype::I8) == "jnp.int8"@,
        dtype_size(Dtype::U16) == 2 && dtype_name(Dtype::U16) == "u16"@ && dtype_jnp_name(Dtype::U16)
            == "jnp.uint16"@,
        dtype_size(Dtype::I16) == 2 && dtype_name(Dtype::I16) == "s16"@ && dtype_jnp_name(Dtype::I16) == "jnp.int16"@,
        dtype_size(Dtype::U32) == 4 && dtype_name(Dtype::U32) == "u32"@ && dtype_jnp_name(Dtype::U32)
            == "jnp.uint32"@,
        dtype_size(Dtype::I32) == 4 && dtype_name(Dtype::I32) == "s32"@ && dtype_jnp_name(Dtype::I32) == "jnp.int32"@,
        dtype_size(Dtype::U64) == 8 && dtype_name(Dtype::U64) == "u64"@ && dtype_jnp_name(Dtype::U64)
            == "jnp.uint64"@,
        dtype_size(Dtype::I64) == 8 && dtype_name(Dtype::I64) == "s64"@ && dtype_jnp_name(Dtype::I64) == "jnp.int64"@,
        dtype_size(Dtype::FP16) == 2 && dtype_name(Dtype::FP16) == "f16"@ && dtype_jnp_name(Dtype::FP16)
            == "jnp.float16"@,
        dtype_size(Dtype::FP32) == 4 && dtype_name(Dtype::FP32) == "f32"@ && dtype_jnp_name(Dtype::FP32)
            == "jnp.float32"@,
        dtype_size(Dtype::FP64) == 8 && dtype_name(Dtype::FP64) == "f64"@ && dtype_jnp_name(Dtype::FP64)
            == "jnp.float64"@,
        dtype_size(Dtype::BF16) == 2 && dtype_name(Dtype::BF16) == "bf16"@ && dtype_jnp_name(Dtype::BF16)
            == "jnp.bfloat16"@,
{
}

} // verus!
