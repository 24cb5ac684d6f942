//! Cutting a source into the windows that fit the staging buffer.
use crate::target_constants::FORCE_COPY_BUFFER_SIZE;
use vstd::arithmetic::div_mod::{lemma_fundamental_div_mod, lemma_mod_bound};
use vstd::prelude::*;

verus! {

/// Number of windows of at most `cap` bytes that `n` bytes are cut into:
/// `n / cap`, rounded up.
pub open spec fn chunk_count(n: nat, cap: nat) -> nat {
    if n % cap == 0 {
        n / cap
    } else {
        n / cap + 1
    }
}

/// Length of window `i`: full while `cap` more bytes are left, else what is
/// left.
pub open spec fn chunk_len(n: nat, cap: nat, i: nat) -> nat {
    if (i + 1) * cap <= n {
        cap
    } else {
        (n - i * cap) as nat
    }
}

/// Window `i` of `source`.
pub open spec fn chunk(source: Seq<u8>, cap: nat, i: nat) -> Seq<u8> {
    source.subrange((i * cap) as int, (i * cap + chunk_len(source.len(), cap, i)) as int)
}

/// Length of the window that starts at `offset` in a source of `n` bytes.
pub fn window_len(n: usize, offset: usize) -> (len: usize)
    requires
        offset < n,
        offset % FORCE_COPY_BUFFER_SIZE == 0,
    ensures
        len == chunk_len(
            n as nat,
            FORCE_COPY_BUFFER_SIZE as nat,
            (offset / FORCE_COPY_BUFFER_SIZE) as nat,
        ),
        0 < len <= FORCE_COPY_BUFFER_SIZE,
        offset + len <= n,
{
    if n - offset >= FORCE_COPY_BUFFER_SIZE {
        FORCE_COPY_BUFFER_SIZE
    } else {
        n - offset
    }
}

/// Copies `len` bytes of `source`, from `offset` on, to the start of
/// `scratch`. What lies behind them in `scratch` stays.
pub fn copy_window(
    scratch: &mut [u8; FORCE_COPY_BUFFER_SIZE],
    source: &[u8],
    offset: usize,
    len: usize,
)
    requires
        len <= FORCE_COPY_BUFFER_SIZE,
        offset + len <= source@.len(),
    ensures
        final(scratch)@.take(len as int) == source@.subrange(offset as int, offset + len),
        final(scratch)@.skip(len as int) == old(scratch)@.skip(len as int),
{
    let n: usize = source.len();
    let mut i: usize = 0;
    while i < len
        invariant
            i <= len <= FORCE_COPY_BUFFER_SIZE,
            offset + len <= n == source@.len(),
            forall|j: int| 0 <= j < i ==> scratch@[j] == source@[offset + j],
            forall|j: int| len <= j < FORCE_COPY_BUFFER_SIZE ==> scratch@[j] == old(scratch)@[j],
        decreases len - i,
    {
        scratch[i] = source[offset + i];
        i += 1;
    }
    assert(scratch@.take(len as int) =~= source@.subrange(offset as int, offset + len));
    assert(scratch@.skip(len as int) =~= old(scratch)@.skip(len as int));
}

/// The number of windows is `n / cap` rounded up: the windows cover the
/// source, and one window fewer would not.
pub proof fn lemma_chunk_count_is_ceiling(n: nat, cap: nat)
    requires
        cap > 0,
    ensures
        chunk_count(n, cap) * cap >= n,
        n > 0 ==> (chunk_count(n, cap) - 1) * cap < n,
        n == 0 <==> chunk_count(n, cap) == 0,
{
    lemma_fundamental_div_mod(n as int, cap as int);
    lemma_mod_bound(n as int, cap as int);
    let q = n / cap;
    let m = n % cap;
    assert(n == cap * q + m);
    assert(q >= 0) by (nonlinear_arith)
        requires
            n == cap * q + m,
            m < cap,
            cap > 0,
            n >= 0,
    ;
    assert((q + 1) * cap == cap * q + cap) by (nonlinear_arith);
    assert((q - 1) * cap == cap * q - cap) by (nonlinear_arith);
    assert(q * cap == cap * q) by (nonlinear_arith);
}

/// Every window but the last is full, and the last holds `n mod cap` bytes,
/// or is full where `n` is a multiple of `cap`. Window `i` ends where window
/// `i + 1` begins, and the last one ends where the source ends.
pub proof fn lemma_chunk_lengths(n: nat, cap: nat, i: nat)
    requires
        cap > 0,
        i < chunk_count(n, cap),
    ensures
        0 < chunk_len(n, cap, i) <= cap,
        i + 1 < chunk_count(n, cap) ==> chunk_len(n, cap, i) == cap,
        i + 1 == chunk_count(n, cap) ==> chunk_len(n, cap, i) == (if n % cap == 0 {
            cap
        } else {
            n % cap
        }) && i * cap + chunk_len(n, cap, i) == n,
{
    lemma_fundamental_div_mod(n as int, cap as int);
    lemma_mod_bound(n as int, cap as int);
    let q = n / cap;
    let m = n % cap;
    assert(n == cap * q + m);
    assert((i + 1) * cap == i * cap + cap) by (nonlinear_arith);
    assert(q * cap == cap * q) by (nonlinear_arith);
    if i + 1 <= q {
        assert((i + 1) * cap <= q * cap) by (nonlinear_arith)
            requires
                i + 1 <= q,
                cap > 0,
        ;
    } else {
        assert(i * cap >= q * cap) by (nonlinear_arith)
            requires
                i >= q,
                cap > 0,
        ;
    }
}

/// The first `k` windows of `source`, one after the other.
pub open spec fn joined(source: Seq<u8>, cap: nat, k: nat) -> Seq<u8>
    decreases k,
{
    if k == 0 {
        Seq::empty()
    } else {
        joined(source, cap, (k - 1) as nat) + chunk(source, cap, (k - 1) as nat)
    }
}

/// The windows tile the source: they follow one another without gap or
/// overlap, and all of them together are the source.
pub proof fn lemma_chunks_tile(source: Seq<u8>, cap: nat, k: nat)
    requires
        cap > 0,
        k <= chunk_count(source.len(), cap),
    ensures
        k < chunk_count(source.len(), cap) ==> joined(source, cap, k) == source.take(
            (k * cap) as int,
        ) && k * cap < source.len(),
        k == chunk_count(source.len(), cap) ==> joined(source, cap, k) == source,
    decreases k,
{
    let n = source.len();
    lemma_chunk_count_is_ceiling(n, cap);
    if k == 0 {
        assert(0 * cap == 0) by (nonlinear_arith);
        assert(source.take(0) =~= Seq::<u8>::empty());
        if chunk_count(n, cap) == 0 {
            assert(source =~= Seq::<u8>::empty());
        }
    } else {
        let i = (k - 1) as nat;
        lemma_chunks_tile(source, cap, i);
        lemma_chunk_lengths(n, cap, i);
        assert((i + 1) * cap == i * cap + cap) by (nonlinear_arith);
        let len = chunk_len(n, cap, i);
        assert(i * cap + len <= n);
        assert(joined(source, cap, k) =~= source.take((i * cap + len) as int));
        if k == chunk_count(n, cap) {
            assert(source.take(n as int) =~= source);
        } else {
            let last = (chunk_count(n, cap) - 1) as nat;
            assert(k * cap == i * cap + cap) by (nonlinear_arith)
                requires
                    k == i + 1,
            ;
            assert(k * cap <= last * cap) by (nonlinear_arith)
                requires
                    k <= last,
                    cap > 0,
            ;
        }
    }
}

} // verus!
