//! The static types of the type checker, their plain-value view, and the
//! pure rules over them: numeric ranks, widening, compatibility, literal
//! inference and the integer ranges that literals must fit.

use vstd::prelude::*;
use crate::text::{chars_of, append_chars, append_str, copy_string, string_chars};

verus! {

#[derive(Debug)]
pub enum HyperType {
    NoneType,
    Bool,
    String,
    I8,
    I16,
    I32,
    I64,
    U8,
    U16,
    U32,
    U64,
    F32,
    F64,
    List(Box<HyperType>),
    Dict,
    Array(Box<HyperType>),
    Function { params: Vec<HyperType>, ret: Box<HyperType> },
    Struct(String),
    Trait(String),
    Mmap,
    File,
    Any,
}

/// A type as a plain value.
pub enum Ty {
    NoneType,
    Bool,
    Str,
    I8,
    I16,
    I32,
    I64,
    U8,
    U16,
    U32,
    U64,
    F32,
    F64,
    List(Box<Ty>),
    Dict,
    Array(Box<Ty>),
    Function(Seq<Ty>, Box<Ty>),
    Struct(Seq<char>),
    Trait(Seq<char>),
    Mmap,
    File,
    Any,
}

pub open spec fn ty_of(t: HyperType) -> Ty
    decreases t,
{
    match t {
        HyperType::NoneType => Ty::NoneType,
        HyperType::Bool => Ty::Bool,
        HyperType::String => Ty::Str,
        HyperType::I8 => Ty::I8,
        HyperType::I16 => Ty::I16,
        HyperType::I32 => Ty::I32,
        HyperType::I64 => Ty::I64,
        HyperType::U8 => Ty::U8,
        HyperType::U16 => Ty::U16,
        HyperType::U32 => Ty::U32,
        HyperType::U64 => Ty::U64,
        HyperType::F32 => Ty::F32,
        HyperType::F64 => Ty::F64,
        HyperType::List(inner) => Ty::List(Box::new(ty_of(*inner))),
        HyperType::Dict => Ty::Dict,
        HyperType::Array(inner) => Ty::Array(Box::new(ty_of(*inner))),
        HyperType::Function { params, ret } => Ty::Function(tys_of(params@), Box::new(ty_of(*ret))),
        HyperType::Struct(n) => Ty::Struct(n@),
        HyperType::Trait(n) => Ty::Trait(n@),
        HyperType::Mmap => Ty::Mmap,
        HyperType::File => Ty::File,
        HyperType::Any => Ty::Any,
    }
}

pub open spec fn tys_of(ts: Seq<HyperType>) -> Seq<Ty>
    decreases ts,
{
    if ts.len() == 0 {
        seq![]
    } else {
        tys_of(ts.drop_last()).push(ty_of(ts.last()))
    }
}

impl View for HyperType {
    type V = Ty;

    open spec fn view(&self) -> Ty {
        ty_of(*self)
    }
}

proof fn lemma_tys_of_len(ts: Seq<HyperType>)
    ensures
        tys_of(ts).len() == ts.len(),
        forall|i: int| 0 <= i < ts.len() ==> tys_of(ts)[i] == ty_of(#[trigger] ts[i]),
    decreases ts.len(),
{
    if ts.len() > 0 {
        lemma_tys_of_len(ts.drop_last());
        assert forall|i: int| 0 <= i < ts.len() implies tys_of(ts)[i] == ty_of(#[trigger] ts[i]) by {
            if i < ts.len() - 1 {
                assert(ts.drop_last()[i] == ts[i]);
            }
        }
    }
}

impl HyperType {
    /// A copy of this type.
    #[verifier::loop_isolation(false)]
    pub fn copy(&self) -> (r: HyperType)
        ensures
            r@ == self@,
        decreases self,
    {
        match self {
            HyperType::NoneType => HyperType::NoneType,
            HyperType::Bool => HyperType::Bool,
            HyperType::String => HyperType::String,
            HyperType::I8 => HyperType::I8,
            HyperType::I16 => HyperType::I16,
            HyperType::I32 => HyperType::I32,
            HyperType::I64 => HyperType::I64,
            HyperType::U8 => HyperType::U8,
            HyperType::U16 => HyperType::U16,
            HyperType::U32 => HyperType::U32,
            HyperType::U64 => HyperType::U64,
            HyperType::F32 => HyperType::F32,
            HyperType::F64 => HyperType::F64,
            HyperType::List(inner) => HyperType::List(Box::new(inner.copy())),
            HyperType::Dict => HyperType::Dict,
            HyperType::Array(inner) => HyperType::Array(Box::new(inner.copy())),
            HyperType::Function { params, ret } => {
                let mut ps: Vec<HyperType> = Vec::new();
                let mut i: usize = 0;
                proof { lemma_tys_of_len(params@); }
                while i < params.len()
                    invariant
                        i <= params@.len(),
                        ps@.len() == i,
                        forall|k: int| 0 <= k < i ==> ty_of(#[trigger] ps@[k]) == ty_of(params@[k]),
                    decreases params@.len() - i,
                {
                    assert(decreases_to!(self => params@[i as int]));
                    let p = params[i].copy();
                    ps.push(p);
                    i = i + 1;
                }
                proof {
                    lemma_tys_of_len(ps@);
                    lemma_tys_of_len(params@);
                    assert forall|k: int| 0 <= k < ps@.len() implies tys_of(ps@)[k] == tys_of(params@)[k] by {
                        assert(ty_of(ps@[k]) == ty_of(params@[k]));
                    }
                    assert(tys_of(ps@) =~= tys_of(params@));
                }
                HyperType::Function { params: ps, ret: Box::new(ret.copy()) }
            },
            HyperType::Struct(n) => HyperType::Struct(copy_string(n)),
            HyperType::Trait(n) => HyperType::Trait(copy_string(n)),
            HyperType::Mmap => HyperType::Mmap,
            HyperType::File => HyperType::File,
            HyperType::Any => HyperType::Any,
        }
    }
}

// ---------------------------------------------------------------------------
// Classification

pub open spec fn is_any(t: Ty) -> bool {
    t matches Ty::Any
}

pub open spec fn is_numeric(t: Ty) -> bool {
    match t {
        Ty::I8 | Ty::I16 | Ty::I32 | Ty::I64 | Ty::U8 | Ty::U16 | Ty::U32 | Ty::U64 | Ty::F32
        | Ty::F64 | Ty::Any => true,
        _ => false,
    }
}

pub open spec fn is_boolish(t: Ty) -> bool {
    (t matches Ty::Bool) || (t matches Ty::Any) || (t matches Ty::NoneType) || is_numeric(t)
        || (t matches Ty::Str)
}

/// Integer width order (signed and unsigned share a rank), then the floats;
/// `Any` ranks lowest.
pub open spec fn numeric_rank(t: Ty) -> Option<u8> {
    match t {
        Ty::I8 | Ty::U8 => Some(1u8),
        Ty::I16 | Ty::U16 => Some(2u8),
        Ty::I32 | Ty::U32 => Some(3u8),
        Ty::I64 | Ty::U64 => Some(4u8),
        Ty::F32 => Some(5u8),
        Ty::F64 => Some(6u8),
        Ty::Any => Some(0u8),
        _ => None,
    }
}

/// The wider of two numeric types (the left one on a tie); `Any` yields
/// the other side.
pub open spec fn widen_numeric(a: Ty, b: Ty) -> Ty {
    if is_any(a) {
        b
    } else if is_any(b) {
        a
    } else {
        let ra = match numeric_rank(a) { Some(r) => r, None => 0u8 };
        let rb = match numeric_rank(b) { Some(r) => r, None => 0u8 };
        if ra >= rb { a } else { b }
    }
}

/// Whether a value of type `src` may be stored where `dest` is expected.
pub open spec fn is_compatible(dest: Ty, src: Ty) -> bool
    decreases dest,
{
    if is_any(dest) || is_any(src) {
        true
    } else if dest == src {
        true
    } else if numeric_rank(dest) is Some && numeric_rank(src) is Some {
        numeric_rank(src)->0 <= numeric_rank(dest)->0 || (dest matches Ty::F32) || (dest matches Ty::F64)
    } else {
        match (dest, src) {
            (Ty::List(d), Ty::List(s)) => is_any(*d) || is_compatible(*d, *s),
            (Ty::Array(d), Ty::Array(s)) => is_any(*d) || is_compatible(*d, *s),
            (Ty::Array(d), Ty::List(s)) => is_any(*d) || is_compatible(*d, *s),
            (Ty::Dict, Ty::Dict) => true,
            _ => false,
        }
    }
}

pub fn is_any_exec(t: &HyperType) -> (r: bool)
    ensures
        r == is_any(t@),
{
    match t {
        HyperType::Any => true,
        _ => false,
    }
}

pub fn is_numeric_exec(t: &HyperType) -> (r: bool)
    ensures
        r == is_numeric(t@),
{
    match t {
        HyperType::I8 | HyperType::I16 | HyperType::I32 | HyperType::I64 | HyperType::U8
        | HyperType::U16 | HyperType::U32 | HyperType::U64 | HyperType::F32 | HyperType::F64
        | HyperType::Any => true,
        _ => false,
    }
}

pub fn is_boolish_exec(t: &HyperType) -> (r: bool)
    ensures
        r == is_boolish(t@),
{
    match t {
        HyperType::Bool | HyperType::Any | HyperType::NoneType | HyperType::String => true,
        _ => is_numeric_exec(t),
    }
}

pub fn numeric_rank_exec(t: &HyperType) -> (r: Option<u8>)
    ensures
        r == numeric_rank(t@),
{
    match t {
        HyperType::I8 | HyperType::U8 => Some(1),
        HyperType::I16 | HyperType::U16 => Some(2),
        HyperType::I32 | HyperType::U32 => Some(3),
        HyperType::I64 | HyperType::U64 => Some(4),
        HyperType::F32 => Some(5),
        HyperType::F64 => Some(6),
        HyperType::Any => Some(0),
        _ => Option::None,
    }
}

pub fn widen_numeric_exec(a: &HyperType, b: &HyperType) -> (r: HyperType)
    ensures
        r@ == widen_numeric(a@, b@),
{
    if is_any_exec(a) {
        return b.copy();
    }
    if is_any_exec(b) {
        return a.copy();
    }
    let ra = match numeric_rank_exec(a) { Some(r) => r, Option::None => 0 };
    let rb = match numeric_rank_exec(b) { Some(r) => r, Option::None => 0 };
    if ra >= rb {
        a.copy()
    } else {
        b.copy()
    }
}

/// Whether two types are the same.
#[verifier::loop_isolation(false)]
pub fn types_equal(a: &HyperType, b: &HyperType) -> (r: bool)
    ensures
        r == (a@ == b@),
    decreases a,
{
    match a {
        HyperType::NoneType => match b { HyperType::NoneType => true, _ => false },
        HyperType::Bool => match b { HyperType::Bool => true, _ => false },
        HyperType::String => match b { HyperType::String => true, _ => false },
        HyperType::I8 => match b { HyperType::I8 => true, _ => false },
        HyperType::I16 => match b { HyperType::I16 => true, _ => false },
        HyperType::I32 => match b { HyperType::I32 => true, _ => false },
        HyperType::I64 => match b { HyperType::I64 => true, _ => false },
        HyperType::U8 => match b { HyperType::U8 => true, _ => false },
        HyperType::U16 => match b { HyperType::U16 => true, _ => false },
        HyperType::U32 => match b { HyperType::U32 => true, _ => false },
        HyperType::U64 => match b { HyperType::U64 => true, _ => false },
        HyperType::F32 => match b { HyperType::F32 => true, _ => false },
        HyperType::F64 => match b { HyperType::F64 => true, _ => false },
        HyperType::List(x) => match b { HyperType::List(y) => types_equal(x, y), _ => false },
        HyperType::Dict => match b { HyperType::Dict => true, _ => false },
        HyperType::Array(x) => match b { HyperType::Array(y) => types_equal(x, y), _ => false },
        HyperType::Function { params: pa, ret: ra } => match b {
            HyperType::Function { params: pb, ret: rb } => {
                proof {
                    lemma_tys_of_len(pa@);
                    lemma_tys_of_len(pb@);
                }
                if pa.len() != pb.len() {
                    return false;
                }
                let mut i: usize = 0;
                while i < pa.len()
                    invariant
                        i <= pa@.len(),
                        pa@.len() == pb@.len(),
                        forall|k: int| 0 <= k < i ==> ty_of(#[trigger] pa@[k]) == ty_of(pb@[k]),
                    decreases pa@.len() - i,
                {
                    assert(decreases_to!(a => pa@[i as int]));
                    if !types_equal(&pa[i], &pb[i]) {
                        assert(tys_of(pa@)[i as int] != tys_of(pb@)[i as int]);
                        return false;
                    }
                    i = i + 1;
                }
                assert forall|k: int| 0 <= k < pa@.len() implies tys_of(pa@)[k] == tys_of(pb@)[k] by {
                    assert(ty_of(pa@[k]) == ty_of(pb@[k]));
                }
                assert(tys_of(pa@) =~= tys_of(pb@));
                types_equal(ra, rb)
            },
            _ => false,
        },
        HyperType::Struct(x) => match b { HyperType::Struct(y) => x.eq(y), _ => false },
        HyperType::Trait(x) => match b { HyperType::Trait(y) => x.eq(y), _ => false },
        HyperType::Mmap => match b { HyperType::Mmap => true, _ => false },
        HyperType::File => match b { HyperType::File => true, _ => false },
        HyperType::Any => match b { HyperType::Any => true, _ => false },
    }
}

pub fn is_compatible_exec(dest: &HyperType, src: &HyperType) -> (r: bool)
    ensures
        r == is_compatible(dest@, src@),
    decreases dest,
{
    if is_any_exec(dest) || is_any_exec(src) {
        return true;
    }
    if types_equal(dest, src) {
        return true;
    }
    let rd = numeric_rank_exec(dest);
    let rs = numeric_rank_exec(src);
    if rd.is_some() && rs.is_some() {
        let float_dest = match dest {
            HyperType::F32 | HyperType::F64 => true,
            _ => false,
        };
        return rs.unwrap() <= rd.unwrap() || float_dest;
    }
    match (dest, src) {
        (HyperType::List(d), HyperType::List(s)) => is_any_exec(d) || is_compatible_exec(d, s),
        (HyperType::Array(d), HyperType::Array(s)) => is_any_exec(d) || is_compatible_exec(d, s),
        (HyperType::Array(d), HyperType::List(s)) => is_any_exec(d) || is_compatible_exec(d, s),
        (HyperType::Dict, HyperType::Dict) => true,
        _ => false,
    }
}

/// Every type accepts itself.
pub proof fn lemma_compatible_reflexive(t: Ty)
    ensures
        is_compatible(t, t),
{
}

/// Among numeric types, a destination accepts exactly the types of no
/// greater rank, and a float destination accepts every numeric type.
pub proof fn lemma_numeric_compatibility(dest: Ty, src: Ty)
    requires
        numeric_rank(dest) is Some,
        numeric_rank(src) is Some,
    ensures
        is_compatible(dest, src) <==> (is_any(dest) || is_any(src) || dest == src
            || numeric_rank(src)->0 <= numeric_rank(dest)->0 || (dest matches Ty::F32) || (dest matches Ty::F64)),
{
}

/// Widening picks one of its two arguments.
pub proof fn lemma_widen_is_an_argument(a: Ty, b: Ty)
    ensures
        widen_numeric(a, b) == a || widen_numeric(a, b) == b,
{
}

} // verus!
