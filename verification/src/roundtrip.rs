//! Storing a value and reading it back gives the value again.
//!
//! The writes `plan_writes` produces are applied to memory one after the
//! other (`apply`). When the blocks the guest allocator handed out do not
//! overlap and lie within memory, reading the value back from the first block
//! (`spec_decode`) gives back the value that was stored, for every value
//! whose strings are shorter than 2^24 - 2 bytes and whose characters are
//! single bytes (the layout keeps one byte per `char`).
use vstd::prelude::*;
use vstd::utf8::{encode_utf8, decode_utf8, valid_utf8};
use crate::bytes::{le_u32, le_u64, read_le_u32, read_le_u64, le_i32s, lemma_u32_roundtrip, lemma_u64_roundtrip};
use crate::layout::{
    Data, CppType, MemoryWrite, LayoutError, size_of, type_of, well_typed, encodable, nalloc,
    nalloc_seq, alloc_sizes, alloc_sizes_seq, root_sizes, capacity_word, header, enc, enc_seq,
    spec_decode, decode_elems, read_at, step_count, is_short_string, writes_model,
    lemma_size_positive, lemma_nalloc_seq_take, lemma_alloc_sizes_seq_take, lemma_enc_seq_take,
    lemma_alloc_sizes_len, lemma_alloc_sizes_seq_len,
};

verus! {

/* ---------------------------------------------------------------------- */
/* Applying writes                                                        */
/* ---------------------------------------------------------------------- */

/// The write lies within memory of length `len`.
pub open spec fn in_bounds(len: int, w: (int, Seq<u8>)) -> bool {
    0 <= w.0 && w.0 + w.1.len() <= len
}

/// Memory after the bytes of `w` are stored at its address.
pub open spec fn write_one(mem: Seq<u8>, w: (int, Seq<u8>)) -> Seq<u8> {
    if in_bounds(mem.len() as int, w) {
        mem.subrange(0, w.0) + w.1 + mem.subrange(w.0 + w.1.len(), mem.len() as int)
    } else {
        mem
    }
}

/// Memory after the writes are stored one after the other.
pub open spec fn apply(mem: Seq<u8>, ws: Seq<(int, Seq<u8>)>) -> Seq<u8>
    decreases ws.len(),
{
    if ws.len() == 0 {
        mem
    } else {
        write_one(apply(mem, ws.drop_last()), ws.last())
    }
}

/// Memory holds the bytes of `w` at its address.
pub open spec fn holds(mem: Seq<u8>, w: (int, Seq<u8>)) -> bool {
    in_bounds(mem.len() as int, w) && mem.subrange(w.0, w.0 + w.1.len()) == w.1
}

pub open spec fn all_hold(mem: Seq<u8>, ws: Seq<(int, Seq<u8>)>) -> bool {
    forall|i: int| 0 <= i < ws.len() ==> holds(mem, #[trigger] ws[i])
}

/// The two writes touch no common byte.
pub open spec fn apart(w1: (int, Seq<u8>), w2: (int, Seq<u8>)) -> bool {
    w1.1.len() == 0 || w2.1.len() == 0 || w1.0 + w1.1.len() <= w2.0 || w2.0 + w2.1.len() <= w1.0
}

pub open spec fn pairwise_apart(ws: Seq<(int, Seq<u8>)>) -> bool {
    forall|i: int, j: int|
        0 <= i < ws.len() && 0 <= j < ws.len() && i != j ==> apart(#[trigger] ws[i], #[trigger] ws[j])
}

proof fn lemma_write_one(mem: Seq<u8>, w: (int, Seq<u8>), v: (int, Seq<u8>))
    requires
        in_bounds(mem.len() as int, w),
    ensures
        write_one(mem, w).len() == mem.len(),
        holds(write_one(mem, w), w),
        holds(mem, v) && apart(v, w) ==> holds(write_one(mem, w), v),
{
    let m = write_one(mem, w);
    assert(m.subrange(w.0, w.0 + w.1.len()) =~= w.1);
    if holds(mem, v) && apart(v, w) {
        assert forall|i: int| 0 <= i < v.1.len() implies #[trigger] m.subrange(v.0, v.0 + v.1.len())[i]
            == v.1[i] by {
            assert(mem.subrange(v.0, v.0 + v.1.len())[i] == v.1[i]);
            if v.0 + i < w.0 {
                assert(m[v.0 + i] == mem[v.0 + i]);
            } else {
                assert(m[v.0 + i] == mem[v.0 + i]);
            }
        }
        assert(m.subrange(v.0, v.0 + v.1.len()) =~= v.1);
    }
}

/// Writes that do not overlap and lie within memory all hold once applied.
pub proof fn lemma_apply(mem: Seq<u8>, ws: Seq<(int, Seq<u8>)>)
    requires
        pairwise_apart(ws),
        forall|i: int| 0 <= i < ws.len() ==> in_bounds(mem.len() as int, #[trigger] ws[i]),
    ensures
        apply(mem, ws).len() == mem.len(),
        all_hold(apply(mem, ws), ws),
    decreases ws.len(),
{
    if ws.len() > 0 {
        let p = ws.drop_last();
        assert forall|i: int, j: int|
            0 <= i < p.len() && 0 <= j < p.len() && i != j implies apart(#[trigger] p[i], #[trigger] p[j]) by {
            assert(p[i] == ws[i] && p[j] == ws[j]);
        }
        assert forall|i: int| 0 <= i < p.len() implies in_bounds(mem.len() as int, #[trigger] p[i]) by {
            assert(p[i] == ws[i]);
        }
        lemma_apply(mem, p);
        let m = apply(mem, p);
        let w = ws.last();
        assert(in_bounds(mem.len() as int, ws[ws.len() - 1]));
        assert forall|i: int| 0 <= i < ws.len() implies holds(apply(mem, ws), #[trigger] ws[i]) by {
            lemma_write_one(m, w, ws[i]);
            if i < ws.len() - 1 {
                assert(p[i] == ws[i]);
                assert(holds(m, p[i]));
                assert(apart(ws[i], ws[ws.len() - 1]));
            }
        }
        lemma_write_one(m, w, w);
    }
}

/// Applying `ws` to `mem` stopped at the `j`-th write, the first that reaches
/// past the end of memory, giving `after`.
pub open spec fn stopped_at(mem: Seq<u8>, ws: Seq<(int, Seq<u8>)>, after: Seq<u8>, j: int) -> bool {
    &&& 0 <= j < ws.len()
    &&& !in_bounds(mem.len() as int, ws[j])
    &&& forall|i: int| 0 <= i < j ==> in_bounds(mem.len() as int, #[trigger] ws[i])
    &&& after == apply(mem, ws.take(j))
}

/// Stores every write of `writes` into `mem`, one after the other. Fails, with
/// the earlier writes done, at the first write that reaches past the end of
/// memory.
pub fn apply_writes(mem: &mut Vec<u8>, writes: &Vec<MemoryWrite>) -> (r: Result<(), LayoutError>)
    ensures
        r is Ok ==> (forall|i: int| 0 <= i < writes@.len() ==> in_bounds(
            old(mem)@.len() as int,
            #[trigger] writes_model(writes@)[i],
        )) && final(mem)@ == apply(old(mem)@, writes_model(writes@)),
        r is Err ==> r == Err::<(), LayoutError>(LayoutError::OutOfBounds) && exists|j: int|
            #[trigger] stopped_at(old(mem)@, writes_model(writes@), final(mem)@, j),
{
    let ghost ws = writes_model(writes@);
    let ghost start = mem@;
    let mut j: usize = 0;
    while j < writes.len()
        invariant
            j <= writes@.len(),
            start == old(mem)@,
            ws == writes_model(writes@),
            mem@.len() == start.len(),
            forall|i: int| 0 <= i < j ==> in_bounds(start.len() as int, #[trigger] ws[i]),
            mem@ == apply(start, ws.take(j as int)),
        decreases writes@.len() - j,
    {
        let w = &writes[j];
        let len = mem.len();
        if w.address > len as u64 || w.bytes.len() as u64 > len as u64 - w.address {
            assert(!in_bounds(start.len() as int, ws[j as int]));
            assert(stopped_at(start, ws, mem@, j as int));

            return Err(LayoutError::OutOfBounds);
        }
        let a = w.address as usize;
        let ghost before = mem@;
        let mut t: usize = 0;
        while t < w.bytes.len()
            invariant
                a + w.bytes@.len() <= mem@.len(),
                mem@.len() == before.len(),
                mem@.len() == len,
                t <= w.bytes@.len(),
                forall|i: int| 0 <= i < a ==> mem@[i] == before[i],
                forall|i: int| a + w.bytes@.len() <= i < mem@.len() ==> mem@[i] == before[i],
                forall|i: int| a <= i < a + t ==> mem@[i] == w.bytes@[i - a],
                forall|i: int| a + t <= i < a + w.bytes@.len() ==> mem@[i] == before[i],
            decreases w.bytes@.len() - t,
        {
            mem[a + t] = w.bytes[t];
            t = t + 1;
        }
        proof {
            assert(ws.take(j + 1).drop_last() =~= ws.take(j as int));
            assert(ws.take(j + 1).last() == ws[j as int]);
            assert(ws[j as int] == (a as int, w.bytes@));
            assert(mem@ =~= write_one(before, ws[j as int]));
        }
        j = j + 1;
    }
    assert(ws.take(j as int) =~= ws);
    Ok(())
}


/* ---------------------------------------------------------------------- */
/* Reading back what was written                                          */
/* ---------------------------------------------------------------------- */

/// The layout keeps the value exactly: every string is a long string (shorter
/// than 2^24 - 2 bytes, so its capacity word does not look like a short
/// string's) and every character fits in the one byte that stores it.
pub open spec fn faithful(d: Data) -> bool
    decreases d,
{
    match d {
        Data::Char(c) => (c as u32) < 256,
        Data::Str(s) => encode_utf8(s).len() < 0xFF_FFFE,
        Data::Vector(_, s) => forall|i: int| 0 <= i < s.len() ==> faithful(#[trigger] s[i]),
        Data::Pair(a, b) => faithful(*a) && faithful(*b),
        _ => true,
    }
}

proof fn lemma_all_hold_split(mem: Seq<u8>, a: Seq<(int, Seq<u8>)>, b: Seq<(int, Seq<u8>)>)
    ensures
        all_hold(mem, a + b) <==> all_hold(mem, a) && all_hold(mem, b),
{
    if all_hold(mem, a + b) {
        assert forall|i: int| 0 <= i < a.len() implies holds(mem, #[trigger] a[i]) by {
            assert((a + b)[i] == a[i]);
        }
        assert forall|i: int| 0 <= i < b.len() implies holds(mem, #[trigger] b[i]) by {
            assert((a + b)[a.len() + i] == b[i]);
        }
    }
    if all_hold(mem, a) && all_hold(mem, b) {
        assert forall|i: int| 0 <= i < (a + b).len() implies holds(mem, #[trigger] (a + b)[i]) by {
            if i < a.len() {
                assert((a + b)[i] == a[i]);
            } else {
                assert((a + b)[i] == b[i - a.len()]);
            }
        }
    }
}

proof fn lemma_enc_seq_parts(mem: Seq<u8>, s: Seq<Data>, es: int, buf: int, addrs: Seq<u32>, k: int)
    requires
        all_hold(mem, enc_seq(s, es, buf, addrs, k)),
    ensures
        forall|i: int|
            0 <= i < s.len() ==> all_hold(
                mem,
                #[trigger] enc(s[i], buf + i * es, addrs, k + nalloc_seq(s.take(i))),
            ),
    decreases s.len(),
{
    if s.len() > 0 {
        let p = s.drop_last();
        lemma_all_hold_split(
            mem,
            enc_seq(p, es, buf, addrs, k),
            enc(s.last(), buf + (s.len() - 1) * es, addrs, k + nalloc_seq(p)),
        );
        lemma_enc_seq_parts(mem, p, es, buf, addrs, k);
        assert forall|i: int| 0 <= i < s.len() implies all_hold(
            mem,
            #[trigger] enc(s[i], buf + i * es, addrs, k + nalloc_seq(s.take(i))),
        ) by {
            if i < s.len() - 1 {
                assert(p[i] == s[i]);
                assert(p.take(i) =~= s.take(i));
            } else {
                assert(s.take(i) =~= p);
            }
        }
    }
}

proof fn lemma_step_count_exact(start: int, es: int, n: int)
    requires
        es >= 1,
        n >= 0,
    ensures
        step_count(start, start + es * n, es) == n,
{
    if n > 0 {
        assert((es * n + es - 1) / es == n) by (nonlinear_arith)
            requires
                es >= 1,
                n >= 1,
        ;
        assert(es * n >= es) by (nonlinear_arith)
            requires
                es >= 1,
                n >= 1,
        ;
    } else {
        assert(es * n == 0) by (nonlinear_arith)
            requires
                n == 0,
        ;
    }
}

proof fn lemma_elems_decode(mem: Seq<u8>, s: Seq<Data>, t: CppType, start: int, j: nat)
    requires
        size_of(t) >= 1,
        j <= s.len(),
        forall|i: int|
            0 <= i < s.len() ==> spec_decode(mem, start + i * size_of(t), t) == Ok::<Data, LayoutError>(
                #[trigger] s[i],
            ),
    ensures
        decode_elems(mem, start, start + size_of(t) * s.len(), t, j) == Ok::<Seq<Data>, LayoutError>(
            s.skip(j as int),
        ),
    decreases s.len() - j,
{
    let es = size_of(t) as int;
    lemma_step_count_exact(start, es, s.len() as int);
    if j < s.len() {
        lemma_elems_decode(mem, s, t, start, j + 1);
        assert(spec_decode(mem, start + j * es, t) == Ok::<Data, LayoutError>(s[j as int]));
        assert(seq![s[j as int]] + s.skip((j + 1) as int) =~= s.skip(j as int));
    } else {
        assert(s.skip(j as int) =~= Seq::<Data>::empty());
    }
}

proof fn lemma_capacity_not_short(len: nat)
    requires
        len < 0xFF_FFFE,
    ensures
        (le_u32(capacity_word(len))[3] & 7) == 0,
{
    let x: u32 = if (len + 1) % 2 == 0 {
        (len + 1) as u32
    } else {
        (len + 2) as u32
    };
    assert(x < 0x100_0000);
    assert((((((x | 0x8000_0000u32) >> 24u32) & 0xffu32) as u8) & 7u8) == 0u8) by (bit_vector)
        requires
            x < 0x100_0000u32,
    ;
}

proof fn lemma_decode_scalar(mem: Seq<u8>, d: Data, a: int, addrs: Seq<u32>, k: int)
    requires
        faithful(d),
        d is Int || d is Long || d is Float || d is Double || d is Char || d is Bool,
        all_hold(mem, enc(d, a, addrs, k)),
    ensures
        spec_decode(mem, a, type_of(d)) == Ok::<Data, LayoutError>(d),
        0 <= a,
        a + size_of(type_of(d)) <= mem.len(),
{
    let ws = enc(d, a, addrs, k);
    assert(holds(mem, ws[0]));
    match d {
        Data::Int(x) => {
            lemma_u32_roundtrip(#[verifier::truncate] (x as u32));
            let y = #[verifier::truncate] (x as u32);
            assert(((y as i32) == x)) by (bit_vector)
                requires
                    y == #[verifier::truncate] (x as u32),
            ;
        },
        Data::Long(x) => {
            lemma_u64_roundtrip(#[verifier::truncate] (x as u64));
            let y = #[verifier::truncate] (x as u64);
            assert(((y as i64) == x)) by (bit_vector)
                requires
                    y == #[verifier::truncate] (x as u64),
            ;
        },
        Data::Float(x) => {
            lemma_u32_roundtrip(x);
        },
        Data::Double(x) => {
            lemma_u64_roundtrip(x);
        },
        Data::Char(c) => {
            let b = mem.subrange(a, a + 1);
            assert(b[0] == #[verifier::truncate] ((c as u32) as u8));
            assert(b[0] as u32 == c as u32);
        },
        _ => {},
    }
}

proof fn lemma_decode_str(mem: Seq<u8>, s: Seq<char>, a: int, addrs: Seq<u32>, k: int)
    requires
        faithful(Data::Str(s)),
        0 <= k < addrs.len(),
        all_hold(mem, enc(Data::Str(s), a, addrs, k)),
    ensures
        spec_decode(mem, a, CppType::Str) == Ok::<Data, LayoutError>(Data::Str(s)),
        0 <= a,
        a + 12 <= mem.len(),
{
    let ws = enc(Data::Str(s), a, addrs, k);
    assert(holds(mem, ws[0]));
    assert(holds(mem, ws[1]));
    let bytes = encode_utf8(s);
    let len = bytes.len();
    let buf = addrs[k] as int;
    let h = mem.subrange(a, a + 12);
    let cap = capacity_word(len);
    assert(h == header(buf, len as int, cap as int));
    lemma_u32_roundtrip(buf as u32);
    lemma_u32_roundtrip(len as u32);
    lemma_capacity_not_short(len);
    assert(h[11] == le_u32(cap)[3]);
    assert(!is_short_string(h));
    assert(h.subrange(0, 4) =~= le_u32(buf as u32).subrange(0, 4));
    crate::bytes::lemma_read_le_u32_prefix(h, le_u32(buf as u32));
    assert(h.subrange(4, 8).subrange(0, 4) =~= le_u32(len as u32).subrange(0, 4));
    crate::bytes::lemma_read_le_u32_prefix(h.subrange(4, 8), le_u32(len as u32));
    assert(read_at(mem, buf, len as int) == Some(bytes));
    vstd::utf8::encode_utf8_valid_utf8(s);
    vstd::utf8::encode_utf8_decode_utf8(s);
}

/// The `i`-th element of `s` lies within memory at its place in a buffer at
/// `buf` and reads back as itself.
pub open spec fn elem_decodes(mem: Seq<u8>, t: CppType, s: Seq<Data>, buf: int, es: int, i: int) -> bool {
    spec_decode(mem, buf + i * es, t) == Ok::<Data, LayoutError>(s[i]) && buf + i * es + es <= mem.len()
}

proof fn lemma_decode_vector(mem: Seq<u8>, t: CppType, s: Seq<Data>, a: int, buf: int, es: int)
    requires
        0 <= buf <= u32::MAX,
        es == size_of(t),
        mem.len() <= u32::MAX,
        holds(mem, (a, header(buf, buf + es * s.len(), buf + es * s.len()))),
        forall|i: int| 0 <= i < s.len() ==> #[trigger] elem_decodes(mem, t, s, buf, es, i),
    ensures
        spec_decode(mem, a, CppType::Vector(Box::new(t))) == Ok::<Data, LayoutError>(Data::Vector(t, s)),
        0 <= a,
        a + 12 <= mem.len(),
{
    let n = s.len() as int;
    let end = buf + es * n;
    lemma_size_positive(t);
    assert forall|i: int| 0 <= i < s.len() implies spec_decode(mem, buf + i * es, t) == Ok::<Data, LayoutError>(
        #[trigger] s[i]) by {
        assert(elem_decodes(mem, t, s, buf, es, i));
    }
    if n > 0 {
        assert(elem_decodes(mem, t, s, buf, es, n - 1));
        assert(spec_decode(mem, buf + (n - 1) * es, t) == Ok::<Data, LayoutError>(s[n - 1]));
        assert(buf + (n - 1) * es + es <= mem.len());
        assert((n - 1) * es + es == es * n) by (nonlinear_arith);
    } else {
        assert(es * n == 0) by (nonlinear_arith)
            requires
                n == 0,
        ;
    }
    assert(end <= u32::MAX);
    lemma_elems_decode(mem, s, t, buf, 0);
    assert(s.skip(0) =~= s);
    let h = mem.subrange(a, a + 12);
    assert(h == header(buf, end, end));
    lemma_u32_roundtrip(buf as u32);
    lemma_u32_roundtrip(end as u32);
    let h8 = mem.subrange(a, a + 8);
    assert(h8.subrange(0, 4) =~= le_u32(buf as u32).subrange(0, 4));
    crate::bytes::lemma_read_le_u32_prefix(h8, le_u32(buf as u32));
    assert(h8.subrange(4, 8).subrange(0, 4) =~= le_u32(end as u32).subrange(0, 4));
    crate::bytes::lemma_read_le_u32_prefix(h8.subrange(4, 8), le_u32(end as u32));
    assert(read_at(mem, a, 8) == Some(h8));
}

/// Bytes that hold a value written by `enc` read back as that value.
#[verifier::rlimit(40)]
pub proof fn lemma_decode_enc(mem: Seq<u8>, d: Data, a: int, addrs: Seq<u32>, k: int)
    requires
        encodable(d),
        faithful(d),
        mem.len() <= u32::MAX,
        k >= 0,
        k + nalloc(d) <= addrs.len(),
        all_hold(mem, enc(d, a, addrs, k)),
    ensures
        spec_decode(mem, a, type_of(d)) == Ok::<Data, LayoutError>(d),
        0 <= a,
        a + size_of(type_of(d)) <= mem.len(),
    decreases d,
{
    match d {
        Data::Str(s) => {
            lemma_decode_str(mem, s, a, addrs, k);
        },
        Data::Vector(t, s) => {
            let es = size_of(t) as int;
            let buf = addrs[k] as int;
            let end = buf + es * s.len();
            assert(nalloc(d) == 1 + nalloc_seq(s));
            assert(holds(mem, (a, header(buf, end, end))) && all_hold(mem, enc_seq(s, es, buf, addrs, k + 1))) by {
                lemma_all_hold_split(mem, seq![(a, header(buf, end, end))], enc_seq(s, es, buf, addrs, k + 1));
                let hw = seq![(a, header(buf, end, end))];
                assert(hw[0] == (a, header(buf, end, end)));
            }
            assert forall|i: int| 0 <= i < s.len() implies #[trigger] elem_decodes(mem, t, s, buf, es, i) by {
                lemma_enc_seq_parts(mem, s, es, buf, addrs, k + 1);
                lemma_nalloc_seq_take(s, i);
                assert(well_typed(d));
                assert(type_of(s[i]) == t);
                assert(encodable(s[i]));
                assert(all_hold(mem, enc(s[i], buf + i * es, addrs, k + 1 + nalloc_seq(s.take(i)))));
                lemma_decode_enc(mem, s[i], buf + i * es, addrs, k + 1 + nalloc_seq(s.take(i)));
            }
            lemma_decode_vector(mem, t, s, a, buf, es);
        },
        Data::Pair(x, y) => {
            let sx = size_of(type_of(*x)) as int;
            lemma_all_hold_split(mem, enc(*x, a, addrs, k), enc(*y, a + sx, addrs, k + nalloc(*x)));
            lemma_decode_enc(mem, *x, a, addrs, k);
            lemma_decode_enc(mem, *y, a + sx, addrs, k + nalloc(*x));
        },
        _ => {
            lemma_decode_scalar(mem, d, a, addrs, k);
        },
    }
}


/* ---------------------------------------------------------------------- */
/* The writes do not overlap                                              */
/* ---------------------------------------------------------------------- */

/// The write lies within `lo..hi`.
pub open spec fn within(w: (int, Seq<u8>), lo: int, hi: int) -> bool {
    lo <= w.0 && w.0 + w.1.len() <= hi
}

/// The ranges `lo1..hi1` and `lo2..hi2` share no byte.
pub open spec fn ranges_apart(lo1: int, hi1: int, lo2: int, hi2: int) -> bool {
    hi1 <= lo1 || hi2 <= lo2 || hi1 <= lo2 || hi2 <= lo1
}

/// The `j`-th block: `sizes[j]` bytes from `addrs[j]`.
pub open spec fn block_lo(addrs: Seq<u32>, j: int) -> int {
    addrs[j] as int
}

pub open spec fn block_hi(addrs: Seq<u32>, sizes: Seq<int>, j: int) -> int {
    addrs[j] + sizes[j]
}

pub open spec fn blocks_apart(addrs: Seq<u32>, sizes: Seq<int>, i: int, j: int) -> bool {
    ranges_apart(block_lo(addrs, i), block_hi(addrs, sizes, i), block_lo(addrs, j), block_hi(addrs, sizes, j))
}

/// The blocks `lo..hi` share no byte with each other.
pub open spec fn regions_apart(addrs: Seq<u32>, sizes: Seq<int>, lo: int, hi: int) -> bool {
    forall|i: int, j: int| lo <= i < hi && lo <= j < hi && i != j ==> #[trigger] blocks_apart(addrs, sizes, i, j)
}

pub open spec fn range_block_apart(a: int, n: int, addrs: Seq<u32>, sizes: Seq<int>, j: int) -> bool {
    ranges_apart(a, a + n, block_lo(addrs, j), block_hi(addrs, sizes, j))
}

/// The range `a..a + n` shares no byte with the blocks `lo..hi`.
pub open spec fn inline_apart(a: int, n: int, addrs: Seq<u32>, sizes: Seq<int>, lo: int, hi: int) -> bool {
    forall|j: int| lo <= j < hi ==> #[trigger] range_block_apart(a, n, addrs, sizes, j)
}

pub open spec fn in_block(w: (int, Seq<u8>), addrs: Seq<u32>, sizes: Seq<int>, j: int) -> bool {
    within(w, block_lo(addrs, j), block_hi(addrs, sizes, j))
}

/// The write lies within `a..a + n` or within one of the blocks `lo..hi`.
pub open spec fn placed(w: (int, Seq<u8>), a: int, n: int, addrs: Seq<u32>, sizes: Seq<int>, lo: int, hi: int) -> bool {
    within(w, a, a + n) || exists|j: int| lo <= j < hi && #[trigger] in_block(w, addrs, sizes, j)
}

proof fn lemma_within_apart(w1: (int, Seq<u8>), w2: (int, Seq<u8>), lo1: int, hi1: int, lo2: int, hi2: int)
    requires
        within(w1, lo1, hi1),
        within(w2, lo2, hi2),
        ranges_apart(lo1, hi1, lo2, hi2),
    ensures
        apart(w1, w2),
{
}

/// A write in one part and a write in another part do not overlap, when the
/// parts' own ranges and blocks do not.
proof fn lemma_placed_apart(
    w1: (int, Seq<u8>),
    w2: (int, Seq<u8>),
    a1: int,
    n1: int,
    lo1: int,
    hi1: int,
    a2: int,
    n2: int,
    lo2: int,
    hi2: int,
    addrs: Seq<u32>,
    sizes: Seq<int>,
)
    requires
        placed(w1, a1, n1, addrs, sizes, lo1, hi1),
        placed(w2, a2, n2, addrs, sizes, lo2, hi2),
        ranges_apart(a1, a1 + n1, a2, a2 + n2),
        inline_apart(a1, n1, addrs, sizes, lo2, hi2),
        inline_apart(a2, n2, addrs, sizes, lo1, hi1),
        lo1 <= hi1 <= lo2 <= hi2,
        regions_apart(addrs, sizes, lo1, hi2),
    ensures
        apart(w1, w2),
{
    if within(w1, a1, a1 + n1) {
        if within(w2, a2, a2 + n2) {
            lemma_within_apart(w1, w2, a1, a1 + n1, a2, a2 + n2);
        } else {
            let j = choose|j: int| lo2 <= j < hi2 && #[trigger] in_block(w2, addrs, sizes, j);
            assert(range_block_apart(a1, n1, addrs, sizes, j));
        }
    } else {
        let i = choose|i: int| lo1 <= i < hi1 && #[trigger] in_block(w1, addrs, sizes, i);
        if within(w2, a2, a2 + n2) {
            assert(range_block_apart(a2, n2, addrs, sizes, i));
        } else {
            let j = choose|j: int| lo2 <= j < hi2 && #[trigger] in_block(w2, addrs, sizes, j);
            assert(blocks_apart(addrs, sizes, i, j));
        }
    }
}

/// Placement in a part carries over to the whole.
proof fn lemma_placed_widen(
    w: (int, Seq<u8>),
    a: int,
    n: int,
    lo: int,
    hi: int,
    b: int,
    m: int,
    lo2: int,
    hi2: int,
    addrs: Seq<u32>,
    sizes: Seq<int>,
)
    requires
        placed(w, a, n, addrs, sizes, lo, hi),
        b <= a,
        a + n <= b + m,
        lo2 <= lo,
        hi <= hi2,
    ensures
        placed(w, b, m, addrs, sizes, lo2, hi2),
{
    if !within(w, a, a + n) {
        let j = choose|j: int| lo <= j < hi && #[trigger] in_block(w, addrs, sizes, j);
        assert(in_block(w, addrs, sizes, j));
    }
}

/// A write placed within a part that lies inside block `j0` is in that block.
proof fn lemma_placed_in_block(
    w: (int, Seq<u8>),
    a: int,
    n: int,
    lo: int,
    hi: int,
    j0: int,
    b: int,
    m: int,
    addrs: Seq<u32>,
    sizes: Seq<int>,
)
    requires
        placed(w, a, n, addrs, sizes, lo, hi),
        block_lo(addrs, j0) <= a,
        a + n <= block_hi(addrs, sizes, j0),
        j0 < lo <= hi,
    ensures
        placed(w, b, m, addrs, sizes, j0, hi),
{
    if within(w, a, a + n) {
        assert(in_block(w, addrs, sizes, j0));
    } else {
        let j = choose|j: int| lo <= j < hi && #[trigger] in_block(w, addrs, sizes, j);
        assert(in_block(w, addrs, sizes, j));
    }
}

proof fn lemma_concat_apart(a: Seq<(int, Seq<u8>)>, b: Seq<(int, Seq<u8>)>)
    requires
        pairwise_apart(a),
        pairwise_apart(b),
        forall|i: int, j: int| 0 <= i < a.len() && 0 <= j < b.len() ==> apart(#[trigger] a[i], #[trigger] b[j]),
    ensures
        pairwise_apart(a + b),
{
    let c = a + b;
    assert forall|i: int, j: int| 0 <= i < c.len() && 0 <= j < c.len() && i != j implies apart(
        #[trigger] c[i],
        #[trigger] c[j],
    ) by {
        if i < a.len() && j < a.len() {
            assert(c[i] == a[i] && c[j] == a[j]);
        } else if i >= a.len() && j >= a.len() {
            assert(c[i] == b[i - a.len()] && c[j] == b[j - a.len()]);
        } else if i < a.len() {
            assert(c[i] == a[i] && c[j] == b[j - a.len()]);
        } else {
            assert(c[j] == a[j] && c[i] == b[i - a.len()]);
            assert(apart(a[j], b[i - a.len()]));
        }
    }
}

/// A slice of `x` that equals `a + b` splits into a slice equal to `a` and
/// one equal to `b`.
proof fn lemma_subrange_split(x: Seq<int>, k: int, a: Seq<int>, b: Seq<int>)
    requires
        0 <= k,
        k + a.len() + b.len() <= x.len(),
        x.subrange(k, k + a.len() + b.len()) == a + b,
    ensures
        x.subrange(k, k + a.len()) == a,
        x.subrange(k + a.len(), k + a.len() + b.len()) == b,
{
    let whole = x.subrange(k, k + a.len() + b.len());
    assert forall|i: int| 0 <= i < a.len() implies #[trigger] x.subrange(k, k + a.len())[i] == a[i] by {
        assert(whole[i] == (a + b)[i]);
    }
    assert forall|i: int| 0 <= i < b.len() implies #[trigger] x.subrange(k + a.len(), k + a.len() + b.len())[i]
        == b[i] by {
        assert(whole[a.len() + i] == (a + b)[a.len() + i]);
    }
    assert(x.subrange(k, k + a.len()) =~= a);
    assert(x.subrange(k + a.len(), k + a.len() + b.len()) =~= b);
}

/// Every write of `ws` is placed in the part `a..a + n`, blocks `lo..hi`.
pub open spec fn all_placed(
    ws: Seq<(int, Seq<u8>)>,
    a: int,
    n: int,
    addrs: Seq<u32>,
    sizes: Seq<int>,
    lo: int,
    hi: int,
) -> bool {
    forall|i: int| 0 <= i < ws.len() ==> placed(#[trigger] ws[i], a, n, addrs, sizes, lo, hi)
}

/// What the blocks `lo..hi` and the range `a..a + n` of a part must satisfy
/// for the writes of the part not to overlap.
pub open spec fn part_ok(a: int, n: int, addrs: Seq<u32>, sizes: Seq<int>, lo: int, hi: int) -> bool {
    &&& 0 <= lo <= hi <= addrs.len()
    &&& sizes.len() == addrs.len()
    &&& regions_apart(addrs, sizes, lo, hi)
    &&& inline_apart(a, n, addrs, sizes, lo, hi)
}

/// A part inside a part keeps the conditions.
proof fn lemma_part_shrink(
    a: int,
    n: int,
    lo: int,
    hi: int,
    b: int,
    m: int,
    lo2: int,
    hi2: int,
    addrs: Seq<u32>,
    sizes: Seq<int>,
)
    requires
        part_ok(b, m, addrs, sizes, lo2, hi2),
        b <= a,
        0 <= n,
        a + n <= b + m,
        lo2 <= lo <= hi <= hi2,
    ensures
        part_ok(a, n, addrs, sizes, lo, hi),
{
    assert forall|i: int, j: int| lo <= i < hi && lo <= j < hi && i != j implies #[trigger] blocks_apart(
        addrs,
        sizes,
        i,
        j,
    ) by {
        assert(blocks_apart(addrs, sizes, i, j));
    }
    assert forall|j: int| lo <= j < hi implies #[trigger] range_block_apart(a, n, addrs, sizes, j) by {
        assert(range_block_apart(b, m, addrs, sizes, j));
    }
}

proof fn lemma_all_placed_widen(
    ws: Seq<(int, Seq<u8>)>,
    a: int,
    n: int,
    lo: int,
    hi: int,
    b: int,
    m: int,
    lo2: int,
    hi2: int,
    addrs: Seq<u32>,
    sizes: Seq<int>,
)
    requires
        all_placed(ws, a, n, addrs, sizes, lo, hi),
        b <= a,
        a + n <= b + m,
        lo2 <= lo,
        hi <= hi2,
    ensures
        all_placed(ws, b, m, addrs, sizes, lo2, hi2),
{
    assert forall|i: int| 0 <= i < ws.len() implies placed(#[trigger] ws[i], b, m, addrs, sizes, lo2, hi2) by {
        lemma_placed_widen(ws[i], a, n, lo, hi, b, m, lo2, hi2, addrs, sizes);
    }
}

/// Writes of two neighbouring parts do not overlap.
proof fn lemma_parts_apart(
    ws1: Seq<(int, Seq<u8>)>,
    ws2: Seq<(int, Seq<u8>)>,
    a1: int,
    n1: int,
    lo1: int,
    hi1: int,
    a2: int,
    n2: int,
    lo2: int,
    hi2: int,
    addrs: Seq<u32>,
    sizes: Seq<int>,
)
    requires
        pairwise_apart(ws1),
        pairwise_apart(ws2),
        all_placed(ws1, a1, n1, addrs, sizes, lo1, hi1),
        all_placed(ws2, a2, n2, addrs, sizes, lo2, hi2),
        ranges_apart(a1, a1 + n1, a2, a2 + n2),
        inline_apart(a1, n1, addrs, sizes, lo2, hi2),
        inline_apart(a2, n2, addrs, sizes, lo1, hi1),
        lo1 <= hi1 <= lo2 <= hi2,
        regions_apart(addrs, sizes, lo1, hi2),
    ensures
        pairwise_apart(ws1 + ws2),
{
    assert forall|i: int, j: int| 0 <= i < ws1.len() && 0 <= j < ws2.len() implies apart(
        #[trigger] ws1[i],
        #[trigger] ws2[j],
    ) by {
        lemma_placed_apart(ws1[i], ws2[j], a1, n1, lo1, hi1, a2, n2, lo2, hi2, addrs, sizes);
    }
    lemma_concat_apart(ws1, ws2);
}

/// The writes that store a value do not overlap, and each lies within the
/// value's own bytes or within one of the blocks it asked for, provided those
/// blocks do not overlap each other or the value's bytes.
proof fn lemma_enc_placed(d: Data, a: int, addrs: Seq<u32>, sizes: Seq<int>, k: int)
    requires
        encodable(d),
        0 <= k,
        k + nalloc(d) <= addrs.len(),
        sizes.subrange(k, k + nalloc(d)) == alloc_sizes(d),
        part_ok(a, size_of(type_of(d)) as int, addrs, sizes, k, k + nalloc(d)),
    ensures
        pairwise_apart(enc(d, a, addrs, k)),
        all_placed(enc(d, a, addrs, k), a, size_of(type_of(d)) as int, addrs, sizes, k, k + nalloc(d)),
    decreases d, 0nat,
{
    let ws = enc(d, a, addrs, k);
    let n = size_of(type_of(d)) as int;
    let hi = k + nalloc(d);
    match d {
        Data::Str(s) => {
            assert(sizes[k] == sizes.subrange(k, hi)[0]);
            assert(range_block_apart(a, 12, addrs, sizes, k));
            lemma_within_apart(ws[0], ws[1], a, a + 12, block_lo(addrs, k), block_hi(addrs, sizes, k));
            lemma_within_apart(ws[1], ws[0], block_lo(addrs, k), block_hi(addrs, sizes, k), a, a + 12);
            assert(placed(ws[0], a, n, addrs, sizes, k, hi));
            assert(in_block(ws[1], addrs, sizes, k));
            assert(placed(ws[1], a, n, addrs, sizes, k, hi));
        },
        Data::Vector(t, s) => {
            let es = size_of(t) as int;
            let buf = addrs[k] as int;
            let m = es * s.len();
            let inner = enc_seq(s, es, buf, addrs, k + 1);
            let head = seq![(a, header(buf, buf + m, buf + m))];
            assert(ws == head + inner);
            lemma_alloc_sizes_seq_len(s);
            lemma_subrange_split(sizes, k, seq![m], alloc_sizes_seq(s));
            assert(sizes[k] == sizes.subrange(k, k + 1)[0]);
            assert(sizes[k] == m);
            lemma_part_shrink(a, n, k, k, a, n, k, hi, addrs, sizes);
            assert forall|j: int| k + 1 <= j < hi implies #[trigger] range_block_apart(buf, m, addrs, sizes, j) by {
                assert(blocks_apart(addrs, sizes, k, j));
            }
            assert forall|i: int, j: int| k + 1 <= i < hi && k + 1 <= j < hi && i != j implies #[trigger] blocks_apart(
                addrs, sizes, i, j) by {
                assert(blocks_apart(addrs, sizes, i, j));
            }
            assert(part_ok(buf, m, addrs, sizes, k + 1, hi));
            lemma_enc_seq_placed(s, t, buf, addrs, sizes, k + 1);
            assert(pairwise_apart(head));
            assert(all_placed(head, a, n, addrs, sizes, k, k)) by {
                assert(placed(head[0], a, n, addrs, sizes, k, k));
            }
            assert(range_block_apart(a, n, addrs, sizes, k));
            assert(all_placed(inner, buf, 0, addrs, sizes, k, hi)) by {
                assert forall|i: int| 0 <= i < inner.len() implies placed(#[trigger] inner[i], buf, 0, addrs, sizes, k, hi) by {
                    lemma_placed_in_block(inner[i], buf, m, k + 1, hi, k, buf, 0, addrs, sizes);
                }
            }
            lemma_parts_apart(head, inner, a, n, k, k, buf, 0, k, hi, addrs, sizes);
            assert forall|i: int| 0 <= i < ws.len() implies placed(#[trigger] ws[i], a, n, addrs, sizes, k, hi) by {
                if i == 0 {
                    assert(ws[0] == head[0]);
                } else {
                    assert(ws[i] == inner[i - 1]);
                    lemma_placed_in_block(inner[i - 1], buf, m, k + 1, hi, k, a, n, addrs, sizes);
                }
            }
        },
        Data::Pair(x, y) => {
            let sx = size_of(type_of(*x)) as int;
            let sy = size_of(type_of(*y)) as int;
            let mid = k + nalloc(*x);
            lemma_alloc_sizes_len(*x);
            lemma_alloc_sizes_len(*y);
            lemma_subrange_split(sizes, k, alloc_sizes(*x), alloc_sizes(*y));
            lemma_part_shrink(a, sx, k, mid, a, n, k, hi, addrs, sizes);
            lemma_part_shrink(a + sx, sy, mid, hi, a, n, k, hi, addrs, sizes);
            lemma_enc_placed(*x, a, addrs, sizes, k);
            lemma_enc_placed(*y, a + sx, addrs, sizes, mid);
            lemma_part_shrink(a, sx, mid, hi, a, n, k, hi, addrs, sizes);
            lemma_part_shrink(a + sx, sy, k, mid, a, n, k, hi, addrs, sizes);
            lemma_parts_apart(
                enc(*x, a, addrs, k),
                enc(*y, a + sx, addrs, mid),
                a, sx, k, mid, a + sx, sy, mid, hi, addrs, sizes,
            );
            lemma_all_placed_widen(enc(*x, a, addrs, k), a, sx, k, mid, a, n, k, hi, addrs, sizes);
            lemma_all_placed_widen(enc(*y, a + sx, addrs, mid), a + sx, sy, mid, hi, a, n, k, hi, addrs, sizes);
            let wx = enc(*x, a, addrs, k);
            let wy = enc(*y, a + sx, addrs, mid);
            assert forall|i: int| 0 <= i < ws.len() implies placed(#[trigger] ws[i], a, n, addrs, sizes, k, hi) by {
                if i < wx.len() {
                    assert(ws[i] == wx[i]);
                } else {
                    assert(ws[i] == wy[i - wx.len()]);
                }
            }
        },
        _ => {
            assert(placed(ws[0], a, n, addrs, sizes, k, hi));
        },
    }
}

/// The same for the elements of a vector stored one after the other in the
/// buffer `buf`.
proof fn lemma_enc_seq_placed(s: Seq<Data>, t: CppType, buf: int, addrs: Seq<u32>, sizes: Seq<int>, k: int)
    requires
        forall|i: int| 0 <= i < s.len() ==> encodable(#[trigger] s[i]) && type_of(s[i]) == t,
        0 <= k,
        k + nalloc_seq(s) <= addrs.len(),
        sizes.subrange(k, k + nalloc_seq(s)) == alloc_sizes_seq(s),
        part_ok(buf, (size_of(t) * s.len()) as int, addrs, sizes, k, k + nalloc_seq(s)),
    ensures
        pairwise_apart(enc_seq(s, size_of(t) as int, buf, addrs, k)),
        all_placed(enc_seq(s, size_of(t) as int, buf, addrs, k), buf, (size_of(t) * s.len()) as int, addrs, sizes, k, k + nalloc_seq(s)),
    decreases s, 0nat,
{
    let es = size_of(t) as int;
    let hi = k + nalloc_seq(s);
    if s.len() > 0 {
        let p = s.drop_last();
        let last = s.last();
        let n = s.len() as int;
        assert(decreases_to!(s => p));
        assert(decreases_to!(s => s[s.len() - 1]));
        let mid = k + nalloc_seq(p);
        lemma_alloc_sizes_seq_len(p);
        lemma_alloc_sizes_len(last);
        lemma_subrange_split(sizes, k, alloc_sizes_seq(p), alloc_sizes(last));
        assert(es * n == es * (n - 1) + es) by (nonlinear_arith);
        assert(es * (n - 1) >= 0) by (nonlinear_arith)
            requires
                es >= 0,
                n >= 1,
        ;
        assert(es * (n - 1) == (n - 1) * es) by (nonlinear_arith);
        let at = buf + (n - 1) * es;
        assert forall|i: int| 0 <= i < p.len() implies encodable(#[trigger] p[i]) && type_of(p[i]) == t by {
            assert(p[i] == s[i]);
        }
        assert(encodable(s[n - 1]) && type_of(s[n - 1]) == t);
        lemma_part_shrink(buf, es * (n - 1), k, mid, buf, es * n, k, hi, addrs, sizes);
        lemma_part_shrink(at, es, mid, hi, buf, es * n, k, hi, addrs, sizes);
        lemma_enc_seq_placed(p, t, buf, addrs, sizes, k);
        lemma_enc_placed(last, at, addrs, sizes, mid);
        lemma_part_shrink(buf, es * (n - 1), mid, hi, buf, es * n, k, hi, addrs, sizes);
        lemma_part_shrink(at, es, k, mid, buf, es * n, k, hi, addrs, sizes);
        let w1 = enc_seq(p, es, buf, addrs, k);
        let w2 = enc(last, at, addrs, mid);
        lemma_parts_apart(w1, w2, buf, es * (n - 1), k, mid, at, es, mid, hi, addrs, sizes);
        lemma_all_placed_widen(w1, buf, es * (n - 1), k, mid, buf, es * n, k, hi, addrs, sizes);
        lemma_all_placed_widen(w2, at, es, mid, hi, buf, es * n, k, hi, addrs, sizes);
        let ws = enc_seq(s, es, buf, addrs, k);
        assert(ws == w1 + w2);
        assert forall|i: int| 0 <= i < ws.len() implies placed(#[trigger] ws[i], buf, es * n, addrs, sizes, k, hi) by {
            if i < w1.len() {
                assert(ws[i] == w1[i]);
            } else {
                assert(ws[i] == w2[i - w1.len()]);
            }
        }
    }
}

/* ---------------------------------------------------------------------- */
/* The law                                                                */
/* ---------------------------------------------------------------------- */

/// The blocks the allocator handed out, `sizes[j]` bytes from `addrs[j]`,
/// share no byte and lie within memory of length `len`.
pub open spec fn blocks_fit(addrs: Seq<u32>, sizes: Seq<int>, len: int) -> bool {
    &&& addrs.len() == sizes.len()
    &&& regions_apart(addrs, sizes, 0, addrs.len() as int)
    &&& forall|j: int| 0 <= j < addrs.len() ==> #[trigger] block_hi(addrs, sizes, j) <= len
}

/// Storing a value and reading it back gives the value again.
///
/// Let the allocator hand out, for the blocks `allocation_sizes` lists, the
/// addresses `addrs`, blocks that do not overlap and lie within memory. Then
/// every write `plan_writes` makes lies within memory, so that `apply_writes`
/// succeeds, and reading the value back from the first block with `decode`
/// gives the value that was stored.
pub proof fn lemma_store_then_read(mem: Seq<u8>, d: Data, addrs: Seq<u32>)
    requires
        encodable(d),
        faithful(d),
        mem.len() <= u32::MAX,
        addrs.len() == 1 + nalloc(d),
        blocks_fit(addrs, root_sizes(d), mem.len() as int),
    ensures
        forall|i: int| 0 <= i < enc(d, addrs[0] as int, addrs, 1).len() ==> in_bounds(
            mem.len() as int,
            #[trigger] enc(d, addrs[0] as int, addrs, 1)[i],
        ),
        spec_decode(apply(mem, enc(d, addrs[0] as int, addrs, 1)), addrs[0] as int, type_of(d))
            == Ok::<Data, LayoutError>(d),
{
    let sizes = root_sizes(d);
    let a = addrs[0] as int;
    let n = size_of(type_of(d)) as int;
    let hi = addrs.len() as int;
    let ws = enc(d, a, addrs, 1);
    lemma_alloc_sizes_len(d);
    assert(sizes.subrange(0, 1 + alloc_sizes(d).len() as int) =~= seq![n] + alloc_sizes(d));
    lemma_subrange_split(sizes, 0, seq![n], alloc_sizes(d));
    assert(sizes[0] == sizes.subrange(0, 1)[0]);
    assert forall|i: int, j: int| 1 <= i < hi && 1 <= j < hi && i != j implies #[trigger] blocks_apart(
        addrs, sizes, i, j) by {
        assert(blocks_apart(addrs, sizes, i, j));
    }
    assert forall|j: int| 1 <= j < hi implies #[trigger] range_block_apart(a, n, addrs, sizes, j) by {
        assert(blocks_apart(addrs, sizes, 0, j));
    }
    assert(part_ok(a, n, addrs, sizes, 1, hi));
    lemma_enc_placed(d, a, addrs, sizes, 1);
    assert forall|i: int| 0 <= i < ws.len() implies in_bounds(mem.len() as int, #[trigger] ws[i]) by {
        assert(placed(ws[i], a, n, addrs, sizes, 1, hi));
        assert(block_hi(addrs, sizes, 0) <= mem.len());
        if !within(ws[i], a, a + n) {
            let j = choose|j: int| 1 <= j < hi && #[trigger] in_block(ws[i], addrs, sizes, j);
            assert(block_hi(addrs, sizes, j) <= mem.len());
        }
    }
    lemma_apply(mem, ws);
    lemma_decode_enc(apply(mem, ws), d, a, addrs, 1);
}

} // verus!
