//! The types of the language and the sizes of their values.

use vstd::prelude::*;

verus! {

/// The size of a machine word, in bytes.
pub const WORDSIZE: usize = 8;

/// The type of a value of the language. `Str` stands only behind a reference.
#[derive(Debug)]
pub enum Type {
    Int8,
    Int16,
    Int32,
    Int64,
    Bool,
    Str,
    Ptr(Box<Type>),
    Slc(Box<Type>),
    Ary(Box<Type>, usize),
}

impl Clone for Type {
    fn clone(&self) -> (res: Self)
        ensures
            res == *self,
        decreases self,
    {
        match self {
            Type::Int8 => Type::Int8,
            Type::Int16 => Type::Int16,
            Type::Int32 => Type::Int32,
            Type::Int64 => Type::Int64,
            Type::Bool => Type::Bool,
            Type::Str => Type::Str,
            Type::Ptr(ty) => Type::Ptr(Box::new((&**ty).clone())),
            Type::Slc(ty) => Type::Slc(Box::new((&**ty).clone())),
            Type::Ary(ty, len) => Type::Ary(Box::new((&**ty).clone()), *len),
        }
    }
}

/// The size in bytes of a value of type `ty`: the declared width of an
/// integer, one byte for a boolean, a word for a pointer, two words for a
/// slice, and for an array the size of an element times the length. `Str` is
/// no type of a value, and has no size; 0 stands for it here.
pub open spec fn size_of(ty: Type) -> nat
    decreases ty,
{
    match ty {
        Type::Int8 => 1,
        Type::Int16 => 2,
        Type::Int32 => 4,
        Type::Int64 => 8,
        Type::Bool => 1,
        Type::Str => 0,
        Type::Ptr(_) => 8,
        Type::Slc(_) => 16,
        Type::Ary(elem, len) => size_of(*elem) * (len as nat),
    }
}

/// Whether values of type `ty` have a size that the machine can hold: `Str`
/// has none, and an array has one when its elements have and the whole fits.
pub open spec fn has_size(ty: Type) -> bool
    decreases ty,
{
    match ty {
        Type::Str => false,
        Type::Ary(elem, len) => has_size(*elem) && size_of(*elem) * len <= usize::MAX,
        _ => true,
    }
}

/// The size in bytes of a value of type `ty`.
pub fn type_size(ty: &Type) -> (size: usize)
    requires
        has_size(*ty),
    ensures
        size == size_of(*ty),
    decreases ty,
{
    match ty {
        Type::Int8 => 1,
        Type::Int16 => 2,
        Type::Int32 => 4,
        Type::Int64 => 8,
        Type::Bool => 1,
        Type::Str => 0,
        Type::Ptr(_ty) => WORDSIZE,
        Type::Slc(_ty) => WORDSIZE * 2,
        Type::Ary(ty, len) => type_size(&**ty) * *len,
    }
}

/// The size in bytes of a value of type `ty`, where it has one.
pub fn checked_type_size(ty: &Type) -> (size: Option<usize>)
    ensures
        size is Some <==> has_size(*ty),
        size matches Some(n) ==> n == size_of(*ty),
    decreases ty,
{
    match ty {
        Type::Int8 => Some(1),
        Type::Int16 => Some(2),
        Type::Int32 => Some(4),
        Type::Int64 => Some(8),
        Type::Bool => Some(1),
        Type::Str => None,
        Type::Ptr(_ty) => Some(WORDSIZE),
        Type::Slc(_ty) => Some(WORDSIZE * 2),
        Type::Ary(ty, len) => match checked_type_size(&**ty) {
            Some(elem) => elem.checked_mul(*len),
            None => None,
        },
    }
}

/// The natural alignment of a value of type `ty`, in bytes: the width of an
/// integer, a word for a pointer and for a slice, and for an array the
/// alignment of an element.
pub open spec fn align_of(ty: Type) -> nat
    decreases ty,
{
    match ty {
        Type::Int8 => 1,
        Type::Int16 => 2,
        Type::Int32 => 4,
        Type::Int64 => 8,
        Type::Bool => 1,
        Type::Str => 1,
        Type::Ptr(_) => 8,
        Type::Slc(_) => 8,
        Type::Ary(elem, len) => align_of(*elem),
    }
}

/// An alignment is 1, 2, 4 or 8, and the size of a type is a multiple of its
/// alignment.
pub proof fn lemma_size_aligned(ty: Type)
    ensures
        align_of(ty) == 1 || align_of(ty) == 2 || align_of(ty) == 4 || align_of(ty) == 8,
        size_of(ty) % align_of(ty) == 0,
    decreases ty,
{
    match ty {
        Type::Ary(elem, len) => {
            lemma_size_aligned(*elem);
            let size = size_of(*elem) as int;
            let a = align_of(*elem) as int;
            let n = len as int;
            let k = size / a;
            vstd::arithmetic::div_mod::lemma_fundamental_div_mod(size, a);
            assert(size * n == (k * n) * a) by (nonlinear_arith)
                requires
                    size == a * k,
            ;
            vstd::arithmetic::div_mod::lemma_mod_multiples_basic(k * n, a);
            assert(size_of(ty) == size * n);
            assert(align_of(ty) == a);
            assert(((k * n) * a) % a == 0);
            assert(size_of(ty) % align_of(ty) == 0);
        },
        Type::Slc(_) => {
            vstd::arithmetic::div_mod::lemma_mod_multiples_basic(2, 8);
        },
        Type::Str => {
            vstd::arithmetic::div_mod::lemma_mod_multiples_basic(0, 1);
        },
        _ => {
            vstd::arithmetic::div_mod::lemma_mod_multiples_basic(1, align_of(ty) as int);
        },
    }
}

/// The natural alignment of a value of type `ty`.
pub fn type_align(ty: &Type) -> (align: usize)
    ensures
        align == align_of(*ty),
        align == 1 || align == 2 || align == 4 || align == 8,
    decreases ty,
{
    match ty {
        Type::Int8 => 1,
        Type::Int16 => 2,
        Type::Int32 => 4,
        Type::Int64 => 8,
        Type::Bool => 1,
        Type::Str => 1,
        Type::Ptr(_ty) => WORDSIZE,
        Type::Slc(_ty) => WORDSIZE,
        Type::Ary(ty, _len) => type_align(&**ty),
    }
}

/// `n` rounded up to the next multiple of `align`.
pub open spec fn rounded_up(n: nat, align: nat) -> nat {
    if align > 0 && n % align != 0 {
        (n + (align - n % align)) as nat
    } else {
        n
    }
}

/// Rounding up gives the least multiple of `align` that is not below `n`.
pub proof fn lemma_rounded_up(n: nat, align: nat)
    requires
        align > 0,
    ensures
        rounded_up(n, align) % align == 0,
        n <= rounded_up(n, align) < n + align,
{
    let n = n as int;
    let a = align as int;
    let q = n / a;
    vstd::arithmetic::div_mod::lemma_fundamental_div_mod(n, a);
    assert(0 <= n % a < a);
    assert(n + (a - n % a) == (q + 1) * a) by (nonlinear_arith)
        requires
            n == a * q + n % a,
    ;
    vstd::arithmetic::div_mod::lemma_mod_multiples_basic(q + 1, a);
}

/// Rounds `n` up to the next multiple of `align`.
pub fn round_up(n: usize, align: usize) -> (r: usize)
    requires
        0 < align,
        n + align <= usize::MAX,
    ensures
        r == rounded_up(n as nat, align as nat),
{
    if n % align != 0 {
        n + (align - n % align)
    } else {
        n
    }
}

/// `n` rounded up to the next multiple of two words.
pub open spec fn aligned(n: nat) -> nat {
    rounded_up(n, 16)
}

/// The largest size that can be rounded up to two words without overflow.
pub open spec fn max_frame() -> int {
    usize::MAX - 15
}

/// Rounding up gives the least multiple of 16 that is not below `n`.
pub proof fn lemma_aligned(n: nat)
    ensures
        aligned(n) % 16 == 0,
        n <= aligned(n) < n + 16,
{
}

/// Rounds `n` up to the next multiple of two words.
pub fn align_double_word(n: usize) -> (r: usize)
    requires
        n <= max_frame(),
    ensures
        r == aligned(n as nat),
{
    let dw = WORDSIZE * 2;
    if n % dw != 0 {
        n + (dw - n % dw)
    } else {
        n
    }
}

} // verus!
