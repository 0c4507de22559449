//! The C++ memory layout of values passed to and read back from a
//! WebAssembly guest compiled with clang.
//!
//! - `int`, `float`: four little-endian bytes; `long`, `double`: eight;
//!   `char`, `bool`: one byte.
//! - `std::vector<T>`: three 32-bit words, the start, end and capacity
//!   pointers of a buffer of `sizeof(T) * len` bytes holding the elements.
//! - `std::string` (long form): the buffer pointer, the length and the
//!   capacity with its top bit set; the bytes live in the buffer.
//! - `std::pair<A, B>`: `A` followed by `B`.
//!
//! Storing a value is split in two steps so that the guest's allocator can be
//! called in between: `allocation_sizes` lists the blocks the value needs, in
//! the order in which they are requested, and `plan_writes` turns the addresses
//! the guest handed out into the writes that place the value in memory.
//! `decode` reads a value back from a snapshot of the guest memory.
use vstd::prelude::*;
use vstd::string::StrSliceExecFns;
use vstd::utf8::{encode_utf8, decode_utf8, valid_utf8};
use crate::bytes::{
    le_u32, le_u64, read_le_u32, read_le_u64, le_i32s, utf8_lossy, read_u32, read_i32, read_u64,
    read_i64, write_u32, write_u64, write_i32_into, from_utf8_lossy,
};

verus! {

/// The C++ type of a value in guest memory.
#[derive(Debug, PartialEq)]
pub enum CppType {
    Int,
    Long,
    Float,
    Double,
    Char,
    Bool,
    Str,
    Vector(Box<CppType>),
    Pair(Box<CppType>, Box<CppType>),
}

/// A value with a C++ layout. Floating-point numbers are held by their bits.
#[derive(Debug, PartialEq)]
pub enum CppValue {
    Int(i32),
    Long(i64),
    Float(u32),
    Double(u64),
    Char(char),
    Bool(bool),
    Str(String),
    /// The element type, and the elements.
    Vector(CppType, Vec<CppValue>),
    Pair(Box<CppValue>, Box<CppValue>),
}

/// The mathematical content of a `CppValue`.
pub enum Data {
    Int(i32),
    Long(i64),
    Float(u32),
    Double(u64),
    Char(char),
    Bool(bool),
    Str(Seq<char>),
    Vector(CppType, Seq<Data>),
    Pair(Box<Data>, Box<Data>),
}

/// Why a value could not be read from guest memory.
#[derive(Debug, Clone, Copy, PartialEq, Eq, Structural)]
pub enum LayoutError {
    /// A read went past the end of memory.
    OutOfBounds,
    /// A short string held no terminating zero byte.
    MissingTerminator,
}

/// One block of bytes to store at an address of guest memory.
#[derive(Debug, Clone, PartialEq)]
pub struct MemoryWrite {
    pub address: u64,
    pub bytes: Vec<u8>,
}

impl MemoryWrite {
    pub open spec fn model(&self) -> (int, Seq<u8>) {
        (self.address as int, self.bytes@)
    }
}

pub open spec fn writes_model(ws: Seq<MemoryWrite>) -> Seq<(int, Seq<u8>)> {
    Seq::new(ws.len(), |i: int| ws[i].model())
}

/// `sizeof` of the C++ type.
pub open spec fn size_of(t: CppType) -> nat
    decreases t,
{
    match t {
        CppType::Int => 4,
        CppType::Long => 8,
        CppType::Float => 4,
        CppType::Double => 8,
        CppType::Char => 1,
        CppType::Bool => 1,
        CppType::Str => 12,
        CppType::Vector(_) => 12,
        CppType::Pair(a, b) => size_of(*a) + size_of(*b),
    }
}

pub proof fn lemma_size_positive(t: CppType)
    ensures
        size_of(t) >= 1,
    decreases t,
{
    if let CppType::Pair(a, b) = t {
        lemma_size_positive(*a);
    }
}

pub open spec fn type_of(d: Data) -> CppType
    decreases d,
{
    match d {
        Data::Int(_) => CppType::Int,
        Data::Long(_) => CppType::Long,
        Data::Float(_) => CppType::Float,
        Data::Double(_) => CppType::Double,
        Data::Char(_) => CppType::Char,
        Data::Bool(_) => CppType::Bool,
        Data::Str(_) => CppType::Str,
        Data::Vector(t, _) => CppType::Vector(Box::new(t)),
        Data::Pair(a, b) => CppType::Pair(Box::new(type_of(*a)), Box::new(type_of(*b))),
    }
}

/// The elements of every vector have the vector's element type.
pub open spec fn well_typed(d: Data) -> bool
    decreases d,
{
    match d {
        Data::Vector(t, s) => forall|i: int|
            0 <= i < s.len() ==> type_of(#[trigger] s[i]) == t && well_typed(s[i]),
        Data::Pair(a, b) => well_typed(*a) && well_typed(*b),
        _ => true,
    }
}

impl CppValue {
    pub open spec fn model(&self) -> Data
        decreases self,
    {
        match self {
            CppValue::Int(x) => Data::Int(*x),
            CppValue::Long(x) => Data::Long(*x),
            CppValue::Float(x) => Data::Float(*x),
            CppValue::Double(x) => Data::Double(*x),
            CppValue::Char(c) => Data::Char(*c),
            CppValue::Bool(b) => Data::Bool(*b),
            CppValue::Str(s) => Data::Str(s@),
            CppValue::Vector(t, v) => Data::Vector(*t, models(v@)),
            CppValue::Pair(a, b) => Data::Pair(Box::new(a.model()), Box::new(b.model())),
        }
    }
}

pub open spec fn models(s: Seq<CppValue>) -> Seq<Data>
    decreases s,
{
    if s.len() == 0 {
        Seq::empty()
    } else {
        models(s.drop_last()).push(s.last().model())
    }
}

pub proof fn lemma_models(s: Seq<CppValue>)
    ensures
        models(s).len() == s.len(),
        forall|i: int| 0 <= i < s.len() ==> #[trigger] models(s)[i] == s[i].model(),
    decreases s.len(),
{
    if s.len() > 0 {
        lemma_models(s.drop_last());
    }
}

/// Every size met inside the type fits in 32 bits.
pub open spec fn bounded_type(t: CppType) -> bool
    decreases t,
{
    size_of(t) <= u32::MAX && match t {
        CppType::Vector(e) => bounded_type(*e),
        CppType::Pair(a, b) => bounded_type(*a) && bounded_type(*b),
        _ => true,
    }
}

impl CppType {
    /// A copy of the type.
    pub fn duplicate(&self) -> (r: CppType)
        ensures
            r == *self,
        decreases self,
    {
        match self {
            CppType::Int => CppType::Int,
            CppType::Long => CppType::Long,
            CppType::Float => CppType::Float,
            CppType::Double => CppType::Double,
            CppType::Char => CppType::Char,
            CppType::Bool => CppType::Bool,
            CppType::Str => CppType::Str,
            CppType::Vector(e) => CppType::Vector(Box::new(e.duplicate())),
            CppType::Pair(a, b) => CppType::Pair(Box::new(a.duplicate()), Box::new(b.duplicate())),
        }
    }

    /// Whether the two types are the same.
    pub fn same_as(&self, other: &CppType) -> (r: bool)
        ensures
            r == (*self == *other),
        decreases self,
    {
        match (self, other) {
            (CppType::Int, CppType::Int) => true,
            (CppType::Long, CppType::Long) => true,
            (CppType::Float, CppType::Float) => true,
            (CppType::Double, CppType::Double) => true,
            (CppType::Char, CppType::Char) => true,
            (CppType::Bool, CppType::Bool) => true,
            (CppType::Str, CppType::Str) => true,
            (CppType::Vector(a), CppType::Vector(b)) => a.same_as(b),
            (CppType::Pair(a1, b1), CppType::Pair(a2, b2)) => a1.same_as(a2) && b1.same_as(b2),
            _ => false,
        }
    }

    /// `sizeof` of the type, in bytes.
    pub fn cpp_size_of(&self) -> (r: usize)
        requires
            size_of(*self) <= u32::MAX,
        ensures
            r == size_of(*self),
        decreases self,
    {
        match self {
            CppType::Int => 4,
            CppType::Long => 8,
            CppType::Float => 4,
            CppType::Double => 8,
            CppType::Char => 1,
            CppType::Bool => 1,
            CppType::Str => 12,
            CppType::Vector(_) => 12,
            CppType::Pair(a, b) => a.cpp_size_of() + b.cpp_size_of(),
        }
    }
}

/* ---------------------------------------------------------------------- */
/* Reading                                                                */
/* ---------------------------------------------------------------------- */

/// The `n` bytes at address `a`, if they lie within memory.
pub open spec fn read_at(mem: Seq<u8>, a: int, n: int) -> Option<Seq<u8>> {
    if 0 <= a && a + n <= mem.len() {
        Some(mem.subrange(a, a + n))
    } else {
        None
    }
}

/// The index of the first zero byte of `b`, if any.
pub open spec fn first_zero(b: Seq<u8>) -> Option<int> {
    if exists|i: int| 0 <= i < b.len() && b[i] == 0 {
        Some(choose|i: int| 0 <= i < b.len() && b[i] == 0 && forall|j: int| 0 <= j < i ==> b[j] != 0)
    } else {
        None
    }
}

/// The number of elements `(start..end).step_by(step)` yields.
pub open spec fn step_count(start: int, end: int, step: int) -> nat {
    if end <= start || step <= 0 {
        0
    } else {
        ((end - start + step - 1) / step) as nat
    }
}

/// A short string (capacity word with any of its bits 24 to 26 set) keeps its
/// bytes inline, up to the first zero byte.
pub open spec fn is_short_string(header: Seq<u8>) -> bool {
    header[11] & 7 != 0
}

/// The text of a byte string: its UTF-8 decoding, or what `from_utf8_lossy`
/// makes of it when it is not valid UTF-8.
pub open spec fn lossy_text(b: Seq<u8>) -> Seq<char> {
    if valid_utf8(b) {
        decode_utf8(b)
    } else {
        utf8_lossy(b)
    }
}

/// What reading a value of type `t` at address `a` of `mem` gives.
pub open spec fn spec_decode(mem: Seq<u8>, a: int, t: CppType) -> Result<Data, LayoutError>
    decreases t, 0nat,
{
    match t {
        CppType::Int => match read_at(mem, a, 4) {
            Some(b) => Ok(Data::Int(read_le_u32(b) as i32)),
            None => Err(LayoutError::OutOfBounds),
        },
        CppType::Long => match read_at(mem, a, 8) {
            Some(b) => Ok(Data::Long(read_le_u64(b) as i64)),
            None => Err(LayoutError::OutOfBounds),
        },
        CppType::Float => match read_at(mem, a, 4) {
            Some(b) => Ok(Data::Float(read_le_u32(b))),
            None => Err(LayoutError::OutOfBounds),
        },
        CppType::Double => match read_at(mem, a, 8) {
            Some(b) => Ok(Data::Double(read_le_u64(b))),
            None => Err(LayoutError::OutOfBounds),
        },
        CppType::Char => match read_at(mem, a, 1) {
            Some(b) => Ok(Data::Char(b[0] as char)),
            None => Err(LayoutError::OutOfBounds),
        },
        CppType::Bool => match read_at(mem, a, 1) {
            Some(b) => Ok(Data::Bool(b[0] != 0)),
            None => Err(LayoutError::OutOfBounds),
        },
        CppType::Str => match read_at(mem, a, 12) {
            Some(h) => if is_short_string(h) {
                match first_zero(h) {
                    Some(n) => Ok(Data::Str(lossy_text(h.take(n)))),
                    None => Err(LayoutError::MissingTerminator),
                }
            } else {
                match read_at(mem, read_le_u32(h) as int, read_le_u32(h.subrange(4, 8)) as int) {
                    Some(b) => Ok(Data::Str(lossy_text(b))),
                    None => Err(LayoutError::OutOfBounds),
                }
            },
            None => Err(LayoutError::OutOfBounds),
        },
        CppType::Vector(e) => match read_at(mem, a, 8) {
            Some(h) => {
                let start = read_le_u32(h) as int;
                let end = read_le_u32(h.subrange(4, 8)) as int;
                match decode_elems(mem, start, end, *e, 0) {
                    Ok(s) => Ok(Data::Vector(*e, s)),
                    Err(err) => Err(err),
                }
            },
            None => Err(LayoutError::OutOfBounds),
        },
        CppType::Pair(x, y) => match spec_decode(mem, a, *x) {
            Ok(dx) => match spec_decode(mem, a + size_of(*x), *y) {
                Ok(dy) => Ok(Data::Pair(Box::new(dx), Box::new(dy))),
                Err(err) => Err(err),
            },
            Err(err) => Err(err),
        },
    }
}

/// The elements `k..` of a vector of `e` stored from `start` to `end`.
pub open spec fn decode_elems(mem: Seq<u8>, start: int, end: int, e: CppType, k: nat) -> Result<
    Seq<Data>,
    LayoutError,
>
    decreases e, step_count(start, end, size_of(e) as int) - k,
{
    if k >= step_count(start, end, size_of(e) as int) {
        Ok(Seq::empty())
    } else {
        match spec_decode(mem, start + k * size_of(e), e) {
            Ok(d) => match decode_elems(mem, start, end, e, k + 1) {
                Ok(rest) => Ok(seq![d] + rest),
                Err(err) => Err(err),
            },
            Err(err) => Err(err),
        }
    }
}

pub open spec fn result_model(r: Result<CppValue, LayoutError>) -> Result<Data, LayoutError> {
    match r {
        Ok(v) => Ok(v.model()),
        Err(e) => Err(e),
    }
}

fn read_slice(mem: &[u8], offset: usize, n: usize) -> (r: Option<&[u8]>)
    ensures
        match r {
            Some(b) => read_at(mem@, offset as int, n as int) == Some(b@),
            None => read_at(mem@, offset as int, n as int) is None,
        },
{
    if offset <= mem.len() && n <= mem.len() - offset {
        Some(&mem[offset..offset + n])
    } else {
        None
    }
}

fn find_zero(b: &[u8]) -> (r: Option<usize>)
    ensures
        match r {
            Some(n) => first_zero(b@) == Some(n as int),
            None => first_zero(b@) is None,
        },
{
    let mut i: usize = 0;
    while i < b.len()
        invariant
            i <= b@.len(),
            forall|j: int| 0 <= j < i ==> b@[j] != 0,
        decreases b@.len() - i,
    {
        if b[i] == 0 {
            proof {
                assert(exists|j: int| 0 <= j < b@.len() && b@[j] == 0);
                let c = choose|j: int|
                    0 <= j < b@.len() && b@[j] == 0 && forall|k: int| 0 <= k < j ==> b@[k] != 0;
                assert(0 <= c < b@.len() && b@[c] == 0 && forall|k: int| 0 <= k < c ==> b@[k] != 0)
                    by {
                    assert(0 <= i < b@.len() && b@[i as int] == 0 && forall|k: int|
                        0 <= k < i ==> b@[k] != 0);
                }
                if c < i {
                } else if c > i {
                    assert(b@[i as int] != 0);
                }
            }
            return Some(i);
        }
        i = i + 1;
    }
    None
}

/// Reads the value of type `t` stored at `offset` in the memory snapshot `mem`.
pub fn decode(mem: &[u8], offset: usize, t: &CppType) -> (r: Result<CppValue, LayoutError>)
    requires
        bounded_type(*t),
    ensures
        result_model(r) == spec_decode(mem@, offset as int, *t),
    decreases t,
{
    match t {
        CppType::Int => match read_slice(mem, offset, 4) {
            Some(b) => Ok(CppValue::Int(read_i32(b))),
            None => Err(LayoutError::OutOfBounds),
        },
        CppType::Long => match read_slice(mem, offset, 8) {
            Some(b) => Ok(CppValue::Long(read_i64(b))),
            None => Err(LayoutError::OutOfBounds),
        },
        CppType::Float => match read_slice(mem, offset, 4) {
            Some(b) => Ok(CppValue::Float(read_u32(b))),
            None => Err(LayoutError::OutOfBounds),
        },
        CppType::Double => match read_slice(mem, offset, 8) {
            Some(b) => Ok(CppValue::Double(read_u64(b))),
            None => Err(LayoutError::OutOfBounds),
        },
        CppType::Char => match read_slice(mem, offset, 1) {
            Some(b) => Ok(CppValue::Char(b[0] as char)),
            None => Err(LayoutError::OutOfBounds),
        },
        CppType::Bool => match read_slice(mem, offset, 1) {
            Some(b) => Ok(CppValue::Bool(b[0] != 0)),
            None => Err(LayoutError::OutOfBounds),
        },
        CppType::Str => match read_slice(mem, offset, 12) {
            Some(h) => {
                if h[11] & 7 != 0 {
                    match find_zero(h) {
                        Some(n) => {
                            let text = &h[0..n];
                            assert(text@ == h@.take(n as int));
                            Ok(CppValue::Str(from_utf8_lossy(text)))
                        },
                        None => Err(LayoutError::MissingTerminator),
                    }
                } else {
                    let start = read_u32(h);
                    let length = read_u32(&h[4..8]);
                    match read_slice(mem, start as usize, length as usize) {
                        Some(b) => Ok(CppValue::Str(from_utf8_lossy(b))),
                        None => Err(LayoutError::OutOfBounds),
                    }
                }
            },
            None => Err(LayoutError::OutOfBounds),
        },
        CppType::Vector(e) => match read_slice(mem, offset, 8) {
            Some(h) => {
                let start = read_u32(h);
                let end = read_u32(&h[4..8]);
                assert(bounded_type(**e));
                let es = e.cpp_size_of();
                let ghost count = step_count(start as int, end as int, es as int);
                let mut elems: Vec<CppValue> = Vec::new();
                let mut k: u64 = 0;
                let mut child: u64 = start as u64;
                proof {
                    lemma_size_positive(**e);
                    lemma_count_step(start as int, end as int, es as int, 0);
                    lemma_models(elems@);
                    if let Ok(all) = decode_elems(mem@, start as int, end as int, **e, 0) {
                        assert(all.take(0) =~= Seq::<Data>::empty());
                        assert(all.skip(0) =~= all);
                        assert(models(elems@) =~= Seq::<Data>::empty());
                    }
                }
                while child < end as u64
                    invariant
                        *t == CppType::Vector(*e),
                        read_at(mem@, offset as int, 8) == Some(h@),
                        start == read_le_u32(h@),
                        end == read_le_u32(h@.subrange(4, 8)),
                        bounded_type(**e),
                        es == size_of(**e),
                        1 <= es <= u32::MAX,
                        count == step_count(start as int, end as int, es as int),
                        child == start + k * es,
                        k <= count,
                        k < count <==> child < end,
                        child <= u32::MAX + u32::MAX,
                        decode_elems(mem@, start as int, end as int, **e, 0) matches Ok(all) ==> (
                            models(elems@) == all.take(k as int)
                            && decode_elems(mem@, start as int, end as int, **e, k as nat) == Ok::<
                                Seq<Data>,
                                LayoutError,
                            >(all.skip(k as int))),
                        decode_elems(mem@, start as int, end as int, **e, 0) is Err ==> (
                            decode_elems(mem@, start as int, end as int, **e, k as nat)
                                == decode_elems(mem@, start as int, end as int, **e, 0)),
                    decreases count - k,
                {
                    proof {
                        lemma_count_step(start as int, end as int, es as int, k as int);
                    }
                    if child > mem.len() as u64 {
                        proof {
                            lemma_decode_past_end(mem@, child as int, **e);
                            lemma_decode_elems_step(mem@, start as int, end as int, **e, k as nat);
                            assert(decode_elems(mem@, start as int, end as int, **e, k as nat)
                                == Err::<Seq<Data>, LayoutError>(LayoutError::OutOfBounds));
                            assert(decode_elems(mem@, start as int, end as int, **e, 0)
                                == Err::<Seq<Data>, LayoutError>(LayoutError::OutOfBounds));
                        }
                        return Err(LayoutError::OutOfBounds);
                    }
                    assert(child as usize as int == child);
                    let r = decode(mem, child as usize, e);
                    proof {
                        lemma_decode_elems_step(mem@, start as int, end as int, **e, k as nat);
                        lemma_decode_elems_len(mem@, start as int, end as int, **e, 0);
                        assert((k + 1) * es == k * es + es) by (nonlinear_arith);
                    }
                    match r {
                        Ok(v) => {
                            proof {
                                lemma_models(elems@);
                            }
                            let ghost old_elems = elems@;
                            elems.push(v);
                            proof {
                                lemma_models(elems@);
                                if let Ok(all) = decode_elems(mem@, start as int, end as int, **e, 0) {
                                    let dk = v.model();
                                    assert(spec_decode(mem@, child as int, **e) == Ok::<Data, LayoutError>(dk));
                                    match decode_elems(mem@, start as int, end as int, **e, (k + 1) as nat) {
                                        Ok(rest) => {
                                            assert(all.skip(k as int) == seq![dk] + rest);
                                            assert(all.skip(k as int)[0] == all[k as int]);
                                            assert(all.len() == count);
                                            assert(k < all.len());
                                            let sk = all.skip(k as int);
                                            assert(sk.len() == rest.len() + 1);
                                            assert forall|i: int| 0 <= i < rest.len() implies #[trigger] rest[i]
                                                == all.skip(k + 1)[i] by {
                                                assert(sk[i + 1] == rest[i]);
                                            }
                                            assert(rest =~= all.skip(k + 1));
                                        },
                                        Err(err) => {
                                            assert(false);
                                        },
                                    }
                                    assert(elems@.drop_last() == old_elems);
                                    assert(models(elems@) == models(old_elems).push(dk));
                                    assert(models(elems@) =~= all.take(k + 1));
                                }
                            }
                        },
                        Err(err) => {
                            assert(decode_elems(mem@, start as int, end as int, **e, k as nat)
                                == Err::<Seq<Data>, LayoutError>(err));
                            assert(decode_elems(mem@, start as int, end as int, **e, 0)
                                == Err::<Seq<Data>, LayoutError>(err));
                            return Err(err);
                        },
                    }
                    k = k + 1;
                    child = child + es as u64;
                    proof {
                        lemma_count_step(start as int, end as int, es as int, k as int);
                    }
                }
                proof {
                    if let Ok(all) = decode_elems(mem@, start as int, end as int, **e, 0) {
                        lemma_decode_elems_len(mem@, start as int, end as int, **e, 0);
                        assert(all.take(k as int) =~= all);
                    }
                }
                Ok(CppValue::Vector(e.duplicate(), elems))
            },
            None => Err(LayoutError::OutOfBounds),
        },
        CppType::Pair(x, y) => {
            let dx = decode(mem, offset, x)?;
            let sx = x.cpp_size_of();
            if offset > mem.len() || sx > mem.len() - offset {
                proof {
                    lemma_decode_past_end(mem@, offset + sx, **y);
                }
                return Err(LayoutError::OutOfBounds);
            }
            let dy = decode(mem, offset + sx, y)?;
            Ok(CppValue::Pair(Box::new(dx), Box::new(dy)))
        },
    }
}

/// What is read as a value of type `t` has type `t`.
pub proof fn lemma_decode_typed(mem: Seq<u8>, a: int, t: CppType)
    ensures
        spec_decode(mem, a, t) matches Ok(d) ==> type_of(d) == t && well_typed(d),
    decreases t, 0nat,
{
    match t {
        CppType::Vector(e) => {
            if let Some(h) = read_at(mem, a, 8) {
                let start = read_le_u32(h) as int;
                let end = read_le_u32(h.subrange(4, 8)) as int;
                lemma_decode_elems_typed(mem, start, end, *e, 0);
            }
        },
        CppType::Pair(x, y) => {
            lemma_decode_typed(mem, a, *x);
            lemma_decode_typed(mem, a + size_of(*x), *y);
        },
        _ => {},
    }
}

proof fn lemma_decode_elems_typed(mem: Seq<u8>, start: int, end: int, e: CppType, k: nat)
    ensures
        decode_elems(mem, start, end, e, k) matches Ok(s) ==> forall|i: int|
            0 <= i < s.len() ==> type_of(#[trigger] s[i]) == e && well_typed(s[i]),
    decreases e, step_count(start, end, size_of(e) as int) - k,
{
    if k < step_count(start, end, size_of(e) as int) {
        lemma_decode_typed(mem, start + k * size_of(e), e);
        lemma_decode_elems_typed(mem, start, end, e, k + 1);
        if let Ok(s) = decode_elems(mem, start, end, e, k) {
            if let Ok(d) = spec_decode(mem, start + k * size_of(e), e) {
                if let Ok(rest) = decode_elems(mem, start, end, e, k + 1) {
                    assert(s == seq![d] + rest);
                    assert forall|i: int| 0 <= i < s.len() implies type_of(#[trigger] s[i]) == e
                        && well_typed(s[i]) by {
                        if i > 0 {
                            assert(s[i] == rest[i - 1]);
                        }
                    }
                }
            }
        }
    }
}

proof fn lemma_count_step(start: int, end: int, es: int, k: int)
    requires
        es >= 1,
        0 <= k,
    ensures
        (k < step_count(start, end, es)) <==> (start + k * es < end),
{
    if end > start {
        let c = (end - start + es - 1) / es;
        assert((k < c) <==> (k * es < end - start)) by (nonlinear_arith)
            requires
                es >= 1,
                end - start >= 1,
                k >= 0,
                c == (end - start + es - 1) / es,
        ;
    } else {
        assert(k * es >= 0) by (nonlinear_arith)
            requires
                es >= 1,
                k >= 0,
        ;
    }
}

/// Reading past the end of memory fails, whatever the type.
proof fn lemma_decode_past_end(mem: Seq<u8>, a: int, t: CppType)
    requires
        a > mem.len(),
    ensures
        spec_decode(mem, a, t) == Err::<Data, LayoutError>(LayoutError::OutOfBounds),
    decreases t,
{
    if let CppType::Pair(x, y) = t {
        lemma_decode_past_end(mem, a, *x);
    }
}

proof fn lemma_decode_elems_step(mem: Seq<u8>, start: int, end: int, e: CppType, k: nat)
    requires
        k < step_count(start, end, size_of(e) as int),
    ensures
        decode_elems(mem, start, end, e, k) == (match spec_decode(mem, start + k * size_of(e), e) {
            Ok(d) => match decode_elems(mem, start, end, e, k + 1) {
                Ok(rest) => Ok(seq![d] + rest),
                Err(err) => Err(err),
            },
            Err(err) => Err(err),
        }),
{
}

proof fn lemma_decode_elems_len(mem: Seq<u8>, start: int, end: int, e: CppType, k: nat)
    ensures
        decode_elems(mem, start, end, e, k) matches Ok(s) ==> s.len() == if k <= step_count(
            start,
            end,
            size_of(e) as int,
        ) {
            step_count(start, end, size_of(e) as int) - k
        } else {
            0
        },
    decreases step_count(start, end, size_of(e) as int) - k,
{
    if k < step_count(start, end, size_of(e) as int) {
        lemma_decode_elems_len(mem, start, end, e, k + 1);
    }
}

} // verus!

verus! {

/* ---------------------------------------------------------------------- */
/* Writing                                                                */
/* ---------------------------------------------------------------------- */

/// Every block the value asks for, and every type inside it, fits in 32 bits.
pub open spec fn encodable(d: Data) -> bool
    decreases d,
{
    &&& well_typed(d)
    &&& bounded_type(type_of(d))
    &&& match d {
        Data::Str(s) => encode_utf8(s).len() <= u32::MAX,
        Data::Vector(t, s) => size_of(t) * s.len() <= u32::MAX && forall|i: int|
            0 <= i < s.len() ==> encodable(#[trigger] s[i]),
        Data::Pair(a, b) => encodable(*a) && encodable(*b),
        _ => true,
    }
}

/// Number of blocks the value asks the allocator for, besides its own.
pub open spec fn nalloc(d: Data) -> nat
    decreases d,
{
    match d {
        Data::Str(_) => 1,
        Data::Vector(_, s) => 1 + nalloc_seq(s),
        Data::Pair(a, b) => nalloc(*a) + nalloc(*b),
        _ => 0,
    }
}

pub open spec fn nalloc_seq(s: Seq<Data>) -> nat
    decreases s,
{
    if s.len() == 0 {
        0
    } else {
        nalloc_seq(s.drop_last()) + nalloc(s.last())
    }
}

/// The sizes of the blocks the value asks for, in the order it asks for them.
pub open spec fn alloc_sizes(d: Data) -> Seq<int>
    decreases d,
{
    match d {
        Data::Str(s) => seq![encode_utf8(s).len() as int],
        Data::Vector(t, s) => seq![(size_of(t) * s.len()) as int] + alloc_sizes_seq(s),
        Data::Pair(a, b) => alloc_sizes(*a) + alloc_sizes(*b),
        _ => Seq::empty(),
    }
}

pub open spec fn alloc_sizes_seq(s: Seq<Data>) -> Seq<int>
    decreases s,
{
    if s.len() == 0 {
        Seq::empty()
    } else {
        alloc_sizes_seq(s.drop_last()) + alloc_sizes(s.last())
    }
}

/// The blocks a value stored at a fresh address asks for: its own first.
pub open spec fn root_sizes(d: Data) -> Seq<int> {
    seq![size_of(type_of(d)) as int] + alloc_sizes(d)
}

/// The low 32 bits of the capacity word of a long string of `len` bytes:
/// room for the terminator, rounded to an even number, with the top bit set.
pub open spec fn capacity_word(len: nat) -> u32 {
    (if (len + 1) % 2 == 0 {
        (len + 1) as u32
    } else {
        (len + 2) as u32
    }) | 0x8000_0000u32
}

/// The three 32-bit words of a vector or string header.
pub open spec fn header(w0: int, w1: int, w2: int) -> Seq<u8> {
    le_u32(w0 as u32) + le_u32(w1 as u32) + le_u32(w2 as u32)
}

proof fn lemma_header_words(x: u32, y: u32, z: u32)
    ensures
        le_i32s(seq![x as i32, y as i32, z as i32]) == le_u32(x) + le_u32(y) + le_u32(z),
{
    let xi = #[verifier::truncate] (x as i32);
    let yi = #[verifier::truncate] (y as i32);
    let zi = #[verifier::truncate] (z as i32);
    assert(((xi as u32) == x)) by (bit_vector)
        requires
            xi == #[verifier::truncate] (x as i32),
    ;
    assert(((yi as u32) == y)) by (bit_vector)
        requires
            yi == #[verifier::truncate] (y as i32),
    ;
    assert(((zi as u32) == z)) by (bit_vector)
        requires
            zi == #[verifier::truncate] (z as i32),
    ;
    let w0 = Seq::<i32>::empty();
    let w1 = seq![xi];
    let w2 = seq![xi, yi];
    let w3 = seq![xi, yi, zi];
    assert(w1.drop_last() =~= w0);
    assert(w2.drop_last() =~= w1);
    assert(w3.drop_last() =~= w2);
    assert(le_i32s(w0) == Seq::<u8>::empty());
    assert(le_i32s(w1) == le_i32s(w0) + le_u32(xi as u32));
    assert(le_i32s(w1) =~= le_u32(x));
    assert(le_i32s(w2) == le_i32s(w1) + le_u32(yi as u32));
    assert(le_i32s(w3) == le_i32s(w2) + le_u32(zi as u32));
}

/// The writes that store `d` at address `a`, the blocks it asks for being at
/// `addrs[k]`, `addrs[k + 1]`, ...
pub open spec fn enc(d: Data, a: int, addrs: Seq<u32>, k: int) -> Seq<(int, Seq<u8>)>
    decreases d,
{
    match d {
        Data::Int(x) => seq![(a, le_u32(#[verifier::truncate] (x as u32)))],
        Data::Long(x) => seq![(a, le_u64(#[verifier::truncate] (x as u64)))],
        Data::Float(x) => seq![(a, le_u32(x))],
        Data::Double(x) => seq![(a, le_u64(x))],
        Data::Char(c) => seq![(a, seq![#[verifier::truncate] ((c as u32) as u8)])],
        Data::Bool(b) => seq![(a, seq![if b { 1u8 } else { 0u8 }])],
        Data::Str(s) => {
            let bytes = encode_utf8(s);
            let buf = addrs[k] as int;
            seq![
                (a, header(buf, bytes.len() as int, capacity_word(bytes.len()) as int)),
                (buf, bytes),
            ]
        },
        Data::Vector(t, s) => {
            let buf = addrs[k] as int;
            let end = buf + size_of(t) * s.len();
            seq![(a, header(buf, end, end))] + enc_seq(s, size_of(t) as int, buf, addrs, k + 1)
        },
        Data::Pair(x, y) => enc(*x, a, addrs, k) + enc(
            *y,
            a + size_of(type_of(*x)),
            addrs,
            k + nalloc(*x),
        ),
    }
}

/// The writes that store the elements `s` one after the other from `buf`.
pub open spec fn enc_seq(s: Seq<Data>, es: int, buf: int, addrs: Seq<u32>, k: int) -> Seq<
    (int, Seq<u8>),
>
    decreases s,
{
    if s.len() == 0 {
        Seq::empty()
    } else {
        enc_seq(s.drop_last(), es, buf, addrs, k) + enc(
            s.last(),
            buf + (s.len() - 1) * es,
            addrs,
            k + nalloc_seq(s.drop_last()),
        )
    }
}

pub proof fn lemma_nalloc_seq_take(s: Seq<Data>, i: int)
    requires
        0 <= i < s.len(),
    ensures
        nalloc_seq(s.take(i + 1)) == nalloc_seq(s.take(i)) + nalloc(s[i]),
        nalloc_seq(s.take(i + 1)) <= nalloc_seq(s),
    decreases s.len(),
{
    assert(s.take(i + 1).drop_last() =~= s.take(i));
    if i + 1 < s.len() {
        lemma_nalloc_seq_take(s.drop_last(), i);
        assert(s.drop_last().take(i + 1) =~= s.take(i + 1));
        assert(s.drop_last().take(i) =~= s.take(i));
    } else {
        assert(s.take(i + 1) =~= s);
    }
}

pub proof fn lemma_alloc_sizes_seq_take(s: Seq<Data>, i: int)
    requires
        0 <= i < s.len(),
    ensures
        alloc_sizes_seq(s.take(i + 1)) == alloc_sizes_seq(s.take(i)) + alloc_sizes(s[i]),
{
    assert(s.take(i + 1).drop_last() =~= s.take(i));
}

pub proof fn lemma_enc_seq_take(s: Seq<Data>, es: int, buf: int, addrs: Seq<u32>, k: int, i: int)
    requires
        0 <= i < s.len(),
    ensures
        enc_seq(s.take(i + 1), es, buf, addrs, k) == enc_seq(s.take(i), es, buf, addrs, k) + enc(
            s[i],
            buf + i * es,
            addrs,
            k + nalloc_seq(s.take(i)),
        ),
{
    assert(s.take(i + 1).drop_last() =~= s.take(i));
}

fn data_type(v: &CppValue) -> (t: CppType)
    ensures
        t == type_of(v.model()),
    decreases v,
{
    match v {
        CppValue::Int(_) => CppType::Int,
        CppValue::Long(_) => CppType::Long,
        CppValue::Float(_) => CppType::Float,
        CppValue::Double(_) => CppType::Double,
        CppValue::Char(_) => CppType::Char,
        CppValue::Bool(_) => CppType::Bool,
        CppValue::Str(_) => CppType::Str,
        CppValue::Vector(t, _) => CppType::Vector(Box::new(t.duplicate())),
        CppValue::Pair(a, b) => CppType::Pair(Box::new(data_type(a)), Box::new(data_type(b))),
    }
}

impl CppValue {
    /// The C++ type of the value.
    pub fn cpp_type(&self) -> (t: CppType)
        ensures
            t == type_of(self.model()),
    {
        data_type(self)
    }
}

fn push_sizes(v: &CppValue, sizes: &mut Vec<u32>)
    requires
        encodable(v.model()),
    ensures
        final(sizes)@.map_values(|x: u32| x as int) == old(sizes)@.map_values(|x: u32| x as int)
            + alloc_sizes(v.model()),
    decreases v,
{
    let ghost d = v.model();
    match v {
        CppValue::Str(s) => {
            let bytes = s.as_str().as_bytes_vec();
            let ghost old_sizes = sizes@;
            sizes.push(bytes.len() as u32);
            assert(sizes@.map_values(|x: u32| x as int) =~= old_sizes.map_values(|x: u32| x as int)
                + alloc_sizes(d));
        },
        CppValue::Vector(t, elems) => {
            proof {
                lemma_models(elems@);
                assert(type_of(d) == CppType::Vector(Box::new(*t)));
                assert(bounded_type(*t));
            }
            let es = t.cpp_size_of();
            let ghost old_sizes = sizes@;
            sizes.push((es * elems.len()) as u32);
            let ghost s = models(elems@);
            let mut i: usize = 0;
            while i < elems.len()
                invariant
                    *v == CppValue::Vector(*t, *elems),
                    i <= elems@.len(),
                    s == models(elems@),
                    s.len() == elems@.len(),
                    forall|j: int| 0 <= j < s.len() ==> #[trigger] s[j] == elems@[j].model(),
                    forall|j: int| 0 <= j < s.len() ==> encodable(#[trigger] s[j]),
                    sizes@.map_values(|x: u32| x as int) == old_sizes.map_values(|x: u32| x as int)
                        + seq![(es * elems@.len()) as int] + alloc_sizes_seq(s.take(i as int)),
                decreases elems@.len() - i,
            {
                proof {
                    lemma_alloc_sizes_seq_take(s, i as int);
                }
                proof {
                    assert(decreases_to!(*v => (*v)->Vector_1));
                    assert(decreases_to!(*elems => elems@));
                    assert(decreases_to!(elems@ => elems@[i as int]));
                }
                push_sizes(&elems[i], sizes);
                i = i + 1;
                assert(sizes@.map_values(|x: u32| x as int) =~= old_sizes.map_values(
                    |x: u32| x as int,
                ) + seq![(es * elems@.len()) as int] + alloc_sizes_seq(s.take(i as int)));
            }
            assert(s.take(i as int) =~= s);
            assert(sizes@.map_values(|x: u32| x as int) =~= old_sizes.map_values(|x: u32| x as int)
                + alloc_sizes(d));
        },
        CppValue::Pair(a, b) => {
            let ghost old_sizes = sizes@;
            push_sizes(a, sizes);
            push_sizes(b, sizes);
            assert(sizes@.map_values(|x: u32| x as int) =~= old_sizes.map_values(|x: u32| x as int)
                + alloc_sizes(d));
        },
        _ => {
            assert(sizes@.map_values(|x: u32| x as int) =~= sizes@.map_values(|x: u32| x as int)
                + alloc_sizes(d));
        },
    }
}

impl CppType {
    /// Whether every size met inside the type fits in 32 bits.
    pub fn is_bounded(&self) -> (r: bool)
        ensures
            r == bounded_type(*self),
        decreases self,
    {
        match self {
            CppType::Vector(e) => e.is_bounded(),
            CppType::Pair(a, b) => {
                if !a.is_bounded() || !b.is_bounded() {
                    return false;
                }
                let total: u64 = a.cpp_size_of() as u64 + b.cpp_size_of() as u64;
                total <= 0xffff_ffffu64
            },
            _ => true,
        }
    }
}

/// Whether the value can be stored: every vector holds elements of its element
/// type, and every block it asks for, and every type inside it, fits in 32 bits.
pub fn check_encodable(v: &CppValue) -> (r: bool)
    ensures
        r == encodable(v.model()),
    decreases v,
{
    let t = data_type(v);
    if !t.is_bounded() {
        return false;
    }
    let ghost d = v.model();
    match v {
        CppValue::Str(s) => {
            let n = s.as_str().as_bytes().len();
            n as u64 <= 0xffff_ffffu64
        },
        CppValue::Vector(e, elems) => {
            proof {
                lemma_models(elems@);
                assert(bounded_type(*e));
            }
            let es = e.cpp_size_of();
            let n = elems.len();
            if n as u64 > 0xffff_ffffu64 {
                proof {
                    lemma_size_positive(*e);
                    assert(size_of(*e) * elems@.len() >= elems@.len()) by (nonlinear_arith)
                        requires
                            size_of(*e) >= 1,
                    ;
                }
                return false;
            }
            assert((es as u64) * (n as u64) <= 0xffff_ffffu64 * 0xffff_ffffu64) by (nonlinear_arith)
                requires
                    es <= 0xffff_ffffu64,
                    n <= 0xffff_ffffu64,
            ;
            let total: u64 = es as u64 * n as u64;
            if total > 0xffff_ffffu64 {
                return false;
            }
            let ghost s = models(elems@);
            let mut i: usize = 0;
            while i < n
                invariant
                    *v == CppValue::Vector(*e, *elems),
                    n == elems@.len(),
                    i <= n,
                    s == models(elems@),
                    s.len() == n,
                    forall|j: int| 0 <= j < s.len() ==> #[trigger] s[j] == elems@[j].model(),
                    forall|j: int| 0 <= j < i ==> encodable(#[trigger] s[j]) && type_of(s[j]) == *e,
                decreases n - i,
            {
                proof {
                    assert(decreases_to!(*v => (*v)->Vector_1));
                    assert(decreases_to!(*elems => elems@));
                    assert(decreases_to!(elems@ => elems@[i as int]));
                }
                let ti = data_type(&elems[i]);
                proof {
                    assert(s[i as int] == elems@[i as int].model());
                    assert(v.model() == Data::Vector(*e, s));
                }
                if !ti.same_as(e) {
                    proof {
                        if encodable(v.model()) {
                            assert(well_typed(v.model()));
                            assert(type_of(s[i as int]) == *e);
                        }
                    }
                    return false;
                }
                if !check_encodable(&elems[i]) {
                    proof {
                        if encodable(v.model()) {
                            assert(encodable(s[i as int]));
                        }
                    }
                    return false;
                }
                i = i + 1;
            }
            true
        },
        CppValue::Pair(a, b) => check_encodable(a) && check_encodable(b),
        _ => true,
    }
}

/// A value asks for as many blocks as `nalloc` says.
pub proof fn lemma_alloc_sizes_len(d: Data)
    ensures
        alloc_sizes(d).len() == nalloc(d),
    decreases d, 0nat,
{
    match d {
        Data::Vector(t, s) => {
            lemma_alloc_sizes_seq_len(s);
        },
        Data::Pair(x, y) => {
            lemma_alloc_sizes_len(*x);
            lemma_alloc_sizes_len(*y);
        },
        _ => {},
    }
}

pub proof fn lemma_alloc_sizes_seq_len(s: Seq<Data>)
    ensures
        alloc_sizes_seq(s).len() == nalloc_seq(s),
    decreases s, 0nat,
{
    if s.len() > 0 {
        let p = s.drop_last();
        assert(decreases_to!(s => p));
        assert(decreases_to!(s => s[s.len() - 1]));
        lemma_alloc_sizes_seq_len(p);
        lemma_alloc_sizes_len(s.last());
    }
}

/// The sizes of the blocks to request from the guest's allocator to store `v`
/// at a fresh address, in the order in which they are requested: first the
/// block that holds the value itself, then the buffers of its strings and
/// vectors, depth first.
pub fn allocation_sizes(v: &CppValue) -> (sizes: Vec<u32>)
    requires
        encodable(v.model()),
    ensures
        sizes@.map_values(|x: u32| x as int) == root_sizes(v.model()),
        sizes@.len() == 1 + nalloc(v.model()),
{
    let t = v.cpp_type();
    let mut sizes: Vec<u32> = Vec::new();
    sizes.push(t.cpp_size_of() as u32);
    push_sizes(v, &mut sizes);
    assert(sizes@.map_values(|x: u32| x as int) =~= root_sizes(v.model()));
    proof {
        lemma_alloc_sizes_len(v.model());
    }
    sizes
}

fn encode_at(v: &CppValue, a: u64, addrs: &Vec<u32>, k: usize, writes: &mut Vec<MemoryWrite>) -> (next: usize)
    requires
        encodable(v.model()),
        k + nalloc(v.model()) <= addrs@.len(),
        a + size_of(type_of(v.model())) <= 0x2_0000_0000,
    ensures
        writes_model(final(writes)@) == writes_model(old(writes)@) + enc(v.model(), a as int, addrs@, k as int),
        next == k + nalloc(v.model()),
    decreases v,
{
    let ghost d = v.model();
    let ghost old_writes = writes_model(writes@);
    let _count = addrs.len();
    match v {
        CppValue::Int(x) => {
            writes.push(MemoryWrite { address: a, bytes: write_u32(#[verifier::truncate] (*x as u32)) });
            assert(writes_model(writes@) =~= old_writes + enc(d, a as int, addrs@, k as int));
            k
        },
        CppValue::Long(x) => {
            writes.push(MemoryWrite { address: a, bytes: write_u64(#[verifier::truncate] (*x as u64)) });
            assert(writes_model(writes@) =~= old_writes + enc(d, a as int, addrs@, k as int));
            k
        },
        CppValue::Float(x) => {
            writes.push(MemoryWrite { address: a, bytes: write_u32(*x) });
            assert(writes_model(writes@) =~= old_writes + enc(d, a as int, addrs@, k as int));
            k
        },
        CppValue::Double(x) => {
            writes.push(MemoryWrite { address: a, bytes: write_u64(*x) });
            assert(writes_model(writes@) =~= old_writes + enc(d, a as int, addrs@, k as int));
            k
        },
        CppValue::Char(c) => {
            let byte: u8 = #[verifier::truncate] ((*c as u32) as u8);
            let bytes = vec![byte];
            assert(bytes@ =~= seq![byte]);
            writes.push(MemoryWrite { address: a, bytes });
            assert(writes_model(writes@) =~= old_writes + enc(d, a as int, addrs@, k as int));
            k
        },
        CppValue::Bool(b) => {
            let byte: u8 = if *b { 1 } else { 0 };
            let bytes = vec![byte];
            assert(bytes@ =~= seq![byte]);
            writes.push(MemoryWrite { address: a, bytes });
            assert(writes_model(writes@) =~= old_writes + enc(d, a as int, addrs@, k as int));
            k
        },
        CppValue::Str(s) => {
            let bytes = s.as_str().as_bytes_vec();
            let length = bytes.len();
            let buf = addrs[k];
            let wide = length as u64;
            let capacity: u32 = if (wide + 1) % 2 == 0 {
                (#[verifier::truncate] ((wide + 1) as u32)) | 0x8000_0000u32
            } else {
                (#[verifier::truncate] ((wide + 2) as u32)) | 0x8000_0000u32
            };
            let words = vec![#[verifier::truncate] (buf as i32), #[verifier::truncate] (length as u32 as i32), #[verifier::truncate] (capacity as i32)];
            let mut head = vec![0u8; 12];
            write_i32_into(words.as_slice(), head.as_mut_slice());
            proof {
                assert(words@ =~= seq![buf as i32, (length as u32) as i32, capacity as i32]);
                lemma_header_words(buf, length as u32, capacity);
            }
            writes.push(MemoryWrite { address: a, bytes: head });
            writes.push(MemoryWrite { address: buf as u64, bytes });
            assert(writes_model(writes@) =~= old_writes + enc(d, a as int, addrs@, k as int));
            k + 1
        },
        CppValue::Vector(t, elems) => {
            proof {
                lemma_models(elems@);
                assert(type_of(d) == CppType::Vector(Box::new(*t)));
                assert(bounded_type(*t));
            }
            let es = t.cpp_size_of();
            let n = elems.len();
            let buf = addrs[k];
            let total = es * n;
            let end: u64 = buf as u64 + total as u64;
            let words = vec![#[verifier::truncate] (buf as i32), #[verifier::truncate] (end as u32 as i32), #[verifier::truncate] (end as u32 as i32)];
            let mut head = vec![0u8; 12];
            write_i32_into(words.as_slice(), head.as_mut_slice());
            proof {
                assert(words@ =~= seq![buf as i32, (end as u32) as i32, (end as u32) as i32]);
                lemma_header_words(buf, end as u32, end as u32);
            }
            writes.push(MemoryWrite { address: a, bytes: head });
            let ghost s = models(elems@);
            let ghost after_head = writes_model(writes@);
            assert(after_head == old_writes + seq![(a as int, header(buf as int, end as int, end as int))]);
            assert(nalloc(d) == 1 + nalloc_seq(s));
            let mut next = k + 1;
            let mut i: usize = 0;
            while i < n
                invariant
                    *v == CppValue::Vector(*t, *elems),
                    n == elems@.len(),
                    i <= n,
                    es == size_of(*t),
                    es * n <= u32::MAX,
                    s == models(elems@),
                    s.len() == n,
                    forall|j: int| 0 <= j < s.len() ==> #[trigger] s[j] == elems@[j].model(),
                    forall|j: int| 0 <= j < s.len() ==> encodable(#[trigger] s[j]) && type_of(s[j]) == *t,
                    k + 1 + nalloc_seq(s) <= addrs@.len(),
                    next == k + 1 + nalloc_seq(s.take(i as int)),
                    writes_model(writes@) == after_head + enc_seq(s.take(i as int), es as int, buf as int, addrs@, k + 1),
                decreases n - i,
            {
                proof {
                    lemma_nalloc_seq_take(s, i as int);
                    lemma_enc_seq_take(s, es as int, buf as int, addrs@, k + 1, i as int);
                    assert(i * es + es <= n * es) by (nonlinear_arith)
                        requires i < n;
                    assert((i + 1) * es == i * es + es) by (nonlinear_arith);
                }
                let child = buf as u64 + (i * es) as u64;
                proof {
                    assert(decreases_to!(*v => (*v)->Vector_1));
                    assert(decreases_to!(*elems => elems@));
                    assert(decreases_to!(elems@ => elems@[i as int]));
                }
                next = encode_at(&elems[i], child, addrs, next, writes);
                i = i + 1;
            }
            assert(s.take(n as int) =~= s);
            assert(writes_model(writes@) =~= old_writes + enc(d, a as int, addrs@, k as int));
            next
        },
        CppValue::Pair(x, y) => {
            let next = encode_at(x, a, addrs, k, writes);
            let sx = data_type(x).cpp_size_of();
            let next = encode_at(y, a + sx as u64, addrs, next, writes);
            assert(writes_model(writes@) =~= old_writes + enc(d, a as int, addrs@, k as int));
            next
        },
    }
}

/// The writes that store `v` in guest memory, given the addresses the guest's
/// allocator returned for the blocks `allocation_sizes` listed. The value
/// itself is stored in the first block.
pub fn plan_writes(v: &CppValue, addrs: &Vec<u32>) -> (writes: Vec<MemoryWrite>)
    requires
        encodable(v.model()),
        addrs@.len() == 1 + nalloc(v.model()),
    ensures
        writes_model(writes@) == enc(v.model(), addrs@[0] as int, addrs@, 1),
{
    let mut writes: Vec<MemoryWrite> = Vec::new();
    let root = addrs[0];
    encode_at(v, root as u64, addrs, 1, &mut writes);
    assert(writes_model(writes@) =~= enc(v.model(), addrs@[0] as int, addrs@, 1));
    writes
}

} // verus!
