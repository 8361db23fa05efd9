//! Alignment-aware block memory transfer routines.
//!
//! Memory is modeled as a single byte-addressed buffer (a `Vec<u8>`); an
//! address is an index into that buffer. Each entry point transfers
//! `byte_count` bytes from the span starting at `src` to the span starting
//! at `dest`, and its contract states the result exactly: afterwards the
//! buffer equals [`moved`] of its old contents, meaning every destination
//! byte holds the value the corresponding source byte held *before* the
//! transfer began, and every other byte is unchanged.
//!
//! The target hardware has no misaligned multi-byte access, so the engine
//! classifies the common alignment of the two addresses, fixes both up to
//! that alignment with at most a byte and a halfword of prefix (or suffix)
//! work, and then bulk-copies at the widest safe granularity, tiered by the
//! remaining count (32-byte blocks, then 16, 8, 4, 2, 1). The move entry
//! points first pick a traversal direction that is safe for overlapping
//! spans; the copy entry points require the spans to be disjoint or
//! identical and always run low-to-high.
//!
//! A byte count of zero is always legal and touches no memory at all, so
//! both addresses may then be arbitrary (even out of bounds).

use vstd::arithmetic::div_mod::{
    lemma_add_mod_noop, lemma_mod_mod, lemma_mod_multiples_vanish, lemma_mod_self_0,
    lemma_mod_twice, lemma_small_mod, lemma_sub_mod_noop,
};
use vstd::prelude::*;

verus! {

/// Transfers of fewer bytes than this skip alignment fixup and run at byte
/// granularity; the cutoff is a tuning constant, not a correctness boundary.
pub const FIXUP_CUTOFF: usize = 7;

/// The contents of `m` after `count` bytes starting at `src` are transferred
/// to `dest`: every byte of the destination span holds the value the
/// corresponding source byte held in `m`, and every byte outside the
/// destination span is unchanged. This is exactly the effect of saving the
/// source span to a scratch buffer and then writing the scratch buffer over
/// the destination span.
pub open spec fn moved(m: Seq<u8>, dest: int, src: int, count: int) -> Seq<u8> {
    Seq::new(
        m.len(),
        |i: int|
            if dest <= i < dest + count {
                m[src + (i - dest)]
            } else {
                m[i]
            },
    )
}

/// Both spans lie inside a buffer of length `len`.
pub open spec fn spans_in_bounds(len: int, dest: int, src: int, count: int) -> bool {
    dest + count <= len && src + count <= len
}

/// The two spans share no byte unless they are byte-for-byte the same span.
/// Partial overlap is excluded.
pub open spec fn exclusive_spans(dest: int, src: int, count: int) -> bool {
    dest == src || dest + count <= src || src + count <= dest
}

/// A low-to-high traversal never reads a source byte it has already
/// overwritten: the destination starts at or below the source, or the spans
/// are disjoint.
pub open spec fn forward_safe(dest: int, src: int, count: int) -> bool {
    dest <= src || src + count <= dest
}

/// A high-to-low traversal never reads a source byte it has already
/// overwritten: the destination starts at or above the source, or the spans
/// are disjoint.
pub open spec fn backward_safe(dest: int, src: int, count: int) -> bool {
    src <= dest || dest + count <= src
}

/// A transfer of zero bytes changes nothing, whatever the addresses are.
pub proof fn lemma_moved_zero(m: Seq<u8>, dest: int, src: int)
    ensures
        moved(m, dest, src, 0) == m,
{
    assert(moved(m, dest, src, 0) =~= m);
}

/// Law: a self-move (`dest == src`, any length) leaves the buffer unchanged.
pub proof fn lemma_moved_self(m: Seq<u8>, dest: int, count: int)
    ensures
        moved(m, dest, dest, count) == m,
{
    assert(moved(m, dest, dest, count) =~= m);
}

/// Law: for every byte count and any address alignments, a transfer
/// between disjoint spans gives the destination span exactly the source
/// span's original bytes, leaves the source span unchanged, and touches
/// nothing outside the destination span.
pub proof fn lemma_moved_disjoint(m: Seq<u8>, dest: int, src: int, count: int)
    requires
        0 <= dest,
        0 <= src,
        0 <= count,
        dest + count <= m.len(),
        src + count <= m.len(),
        dest + count <= src || src + count <= dest,
    ensures
        moved(m, dest, src, count).subrange(dest, dest + count) == m.subrange(src, src + count),
        moved(m, dest, src, count).subrange(src, src + count) == m.subrange(src, src + count),
        forall|i: int|
            0 <= i < m.len() && !(dest <= i < dest + count) ==> moved(m, dest, src, count)[i]
                == m[i],
{
    assert(moved(m, dest, src, count).subrange(dest, dest + count) =~= m.subrange(
        src,
        src + count,
    ));
    assert(moved(m, dest, src, count).subrange(src, src + count) =~= m.subrange(src, src + count));
}

/// Law: a transfer between spans with any overlap whatever equals the
/// two-pass reference procedure that first saves the whole source span to a
/// scratch buffer and then writes the scratch buffer over the destination
/// span.
pub proof fn lemma_moved_via_scratch(m: Seq<u8>, dest: int, src: int, count: int)
    requires
        0 <= dest,
        0 <= src,
        0 <= count,
        dest + count <= m.len(),
        src + count <= m.len(),
    ensures
        moved(m, dest, src, count) == m.subrange(0, dest) + m.subrange(src, src + count)
            + m.subrange(dest + count, m.len() as int),
{
    let scratch = m.subrange(src, src + count);
    let res = m.subrange(0, dest) + scratch + m.subrange(dest + count, m.len() as int);
    assert forall|i: int| 0 <= i < m.len() implies moved(m, dest, src, count)[i] == res[i] by {
        if i < dest {
            assert(res[i] == m.subrange(0, dest)[i]);
        } else if i < dest + count {
            assert(res[i] == scratch[i - dest]);
        } else {
            assert(res[i] == m.subrange(dest + count, m.len() as int)[i - dest - count]);
        }
    }
    assert(moved(m, dest, src, count) =~= res);
}

/// Law: every entry point's contract pins the buffer after the call to the
/// same function [`moved`] of the buffer before it, so an alignment-tiered
/// entry point and the general auto-detecting one leave identical buffers
/// whenever the tier's stricter precondition happens to hold of the same
/// arguments.
pub proof fn lemma_tiers_agree(
    m: Seq<u8>,
    tiered: Seq<u8>,
    general: Seq<u8>,
    dest: int,
    src: int,
    count: int,
)
    requires
        tiered == moved(m, dest, src, count),
        general == moved(m, dest, src, count),
    ensures
        tiered == general,
{
}

/// After the first `done` bytes of a transfer have been performed, moving
/// the next `step` bytes of the partly updated buffer completes a transfer
/// of `done + step` bytes, provided a low-to-high traversal is overlap-safe
/// for the whole span: the bytes the second stage reads are still original.
proof fn lemma_moved_step_fwd(m: Seq<u8>, dest: int, src: int, done: int, step: int)
    requires
        0 <= dest,
        0 <= src,
        0 <= done,
        0 <= step,
        dest + done + step <= m.len(),
        src + done + step <= m.len(),
        forward_safe(dest, src, done + step),
    ensures
        moved(moved(m, dest, src, done), dest + done, src + done, step) == moved(
            m,
            dest,
            src,
            done + step,
        ),
{
    let m1 = moved(m, dest, src, done);
    let lhs = moved(m1, dest + done, src + done, step);
    let rhs = moved(m, dest, src, done + step);
    assert forall|i: int| 0 <= i < m.len() implies lhs[i] == rhs[i] by {
        if dest + done <= i < dest + done + step {
            let p = src + (i - dest);
            assert(lhs[i] == m1[p]);
            // p lies in [src + done, src + done + step), outside the window
            // [dest, dest + done) that the first stage rewrote
            assert(m1[p] == m[p]);
        }
    }
    assert(lhs =~= rhs);
}

/// Mirror of [`lemma_moved_step_fwd`] for high-to-low traversal: with the
/// top `done` bytes already transferred, moving the `step` bytes just below
/// them completes a transfer of `step + done` bytes.
proof fn lemma_moved_step_bwd(m: Seq<u8>, dest: int, src: int, step: int, done: int)
    requires
        0 <= dest,
        0 <= src,
        0 <= done,
        0 <= step,
        dest + step + done <= m.len(),
        src + step + done <= m.len(),
        backward_safe(dest, src, step + done),
    ensures
        moved(moved(m, dest + step, src + step, done), dest, src, step) == moved(
            m,
            dest,
            src,
            step + done,
        ),
{
    let m1 = moved(m, dest + step, src + step, done);
    let lhs = moved(m1, dest, src, step);
    let rhs = moved(m, dest, src, step + done);
    assert forall|i: int| 0 <= i < m.len() implies lhs[i] == rhs[i] by {
        if dest <= i < dest + step {
            let p = src + (i - dest);
            assert(lhs[i] == m1[p]);
            assert(m1[p] == m[p]);
        }
    }
    assert(lhs =~= rhs);
}

/// An overlap-safe low-to-high span stays overlap-safe when both addresses
/// advance together and the count shrinks.
proof fn lemma_forward_safe_sub(dest: int, src: int, count: int, off: int, step: int)
    requires
        forward_safe(dest, src, count),
        0 <= off,
        0 <= step,
        off + step <= count,
    ensures
        forward_safe(dest + off, src + off, step),
        forward_safe(dest, src, off + step),
{
}

/// An overlap-safe high-to-low span stays overlap-safe for the sub-span that
/// remains once everything above `rem` has been transferred and the next
/// `step` bytes below `rem` are taken together with it.
proof fn lemma_backward_safe_sub(dest: int, src: int, count: int, rem: int, step: int)
    requires
        backward_safe(dest, src, count),
        0 <= step,
        step <= rem,
        rem <= count,
    ensures
        backward_safe(dest + rem - step, src + rem - step, step + (count - rem)),
        backward_safe(dest, src, rem),
{
}

/// The sum of two multiples of `m` is a multiple of `m`.
proof fn lemma_align_add(a: int, b: int, m: int)
    requires
        0 < m,
        a % m == 0,
        b % m == 0,
    ensures
        (a + b) % m == 0,
{
    lemma_add_mod_noop(a, b, m);
    lemma_small_mod(0nat, m as nat);
}

/// Subtracting a multiple of `m` does not change a value's residue mod `m`.
proof fn lemma_align_keep_sub(x: int, b: int, m: int)
    requires
        0 < m,
        b % m == 0,
    ensures
        (x - b) % m == x % m,
{
    lemma_sub_mod_noop(x, b, m);
    lemma_mod_twice(x, m);
}

/// Two values with equal residues mod `m` keep equal residues when the same
/// amount is added to both.
proof fn lemma_congruent_add(a: int, b: int, k: int, m: int)
    requires
        0 < m,
        a % m == b % m,
    ensures
        (a + k) % m == (b + k) % m,
{
    lemma_add_mod_noop(a, k, m);
    lemma_add_mod_noop(b, k, m);
}

/// A multiple of 4 is a multiple of 2.
proof fn lemma_mod4_even(x: int)
    requires
        x % 4 == 0,
    ensures
        x % 2 == 0,
{
    lemma_mod_mod(x, 2, 2);
}

/// An even value is 0 or 2 mod 4.
proof fn lemma_even_mod4(x: int)
    requires
        x % 2 == 0,
    ensures
        x % 4 == 0 || x % 4 == 2,
{
    lemma_mod_mod(x, 2, 2);
}

/// Stepping a value up to the next multiple of `m` yields residue 0: if the
/// residue plus `k` is exactly `m`, then `x + k` is `m`-aligned.
proof fn lemma_fixup_add(x: int, k: int, m: int)
    requires
        0 < m,
        0 <= k,
        x % m + k == m,
    ensures
        (x + k) % m == 0,
{
    lemma_add_mod_noop(x, k, m);
    lemma_mod_self_0(m);
    if k < m {
        lemma_small_mod(k as nat, m as nat);
    } else {
        lemma_small_mod(0nat, m as nat);
    }
}

/// One below an odd value is even.
proof fn lemma_odd_pred(x: int)
    requires
        x % 2 == 1,
    ensures
        (x - 1) % 2 == 0,
{
    lemma_sub_mod_noop(x, 1, 2);
    lemma_small_mod(1nat, 2nat);
}

/// Two below a value that is 2 mod 4 is a multiple of 4.
proof fn lemma_half_down(x: int)
    requires
        x % 4 == 2,
    ensures
        (x - 2) % 4 == 0,
{
    lemma_sub_mod_noop(x, 2, 4);
    lemma_small_mod(2nat, 4nat);
}

/// One byte-granularity access: a single load, then a single store.
fn copy_unit_u8(mem: &mut Vec<u8>, dest: usize, src: usize)
    requires
        dest < old(mem).len(),
        src < old(mem).len(),
    ensures
        final(mem)@ == moved(old(mem)@, dest as int, src as int, 1),
{
    let b = mem[src];
    mem[dest] = b;
    assert(mem@ =~= moved(old(mem)@, dest as int, src as int, 1));
}

/// One halfword-granularity access: both bytes are loaded before either is
/// stored, so the access is whole even when the spans overlap. The target
/// hardware requires halfword accesses to be 2-aligned.
fn copy_unit_u16(mem: &mut Vec<u8>, dest: usize, src: usize)
    requires
        dest + 2 <= old(mem).len(),
        src + 2 <= old(mem).len(),
        dest % 2 == 0,
        src % 2 == 0,
    ensures
        final(mem)@ == moved(old(mem)@, dest as int, src as int, 2),
{
    let b0 = mem[src];
    let b1 = mem[src + 1];
    mem[dest] = b0;
    mem[dest + 1] = b1;
    assert(mem@ =~= moved(old(mem)@, dest as int, src as int, 2));
}

/// One word-granularity access: all four bytes are loaded before any is
/// stored. The target hardware requires word accesses to be 4-aligned.
fn copy_unit_u32(mem: &mut Vec<u8>, dest: usize, src: usize)
    requires
        dest + 4 <= old(mem).len(),
        src + 4 <= old(mem).len(),
        dest % 4 == 0,
        src % 4 == 0,
    ensures
        final(mem)@ == moved(old(mem)@, dest as int, src as int, 4),
{
    let b0 = mem[src];
    let b1 = mem[src + 1];
    let b2 = mem[src + 2];
    let b3 = mem[src + 3];
    mem[dest] = b0;
    mem[dest + 1] = b1;
    mem[dest + 2] = b2;
    mem[dest + 3] = b3;
    assert(mem@ =~= moved(old(mem)@, dest as int, src as int, 4));
}

/// A low-to-high run of `nwords` word accesses.
#[verifier::loop_isolation(false)]
fn copy_words_fwd(mem: &mut Vec<u8>, dest: usize, src: usize, nwords: usize)
    requires
        dest + 4 * nwords <= old(mem).len(),
        src + 4 * nwords <= old(mem).len(),
        dest % 4 == 0,
        src % 4 == 0,
        forward_safe(dest as int, src as int, 4 * nwords as int),
    ensures
        final(mem)@ == moved(old(mem)@, dest as int, src as int, 4 * nwords as int),
{
    proof {
        lemma_moved_zero(mem@, dest as int, src as int);
    }
    let mut k: usize = 0;
    while k < nwords
        invariant
            k <= nwords,
            mem@.len() == old(mem)@.len(),
            mem@ == moved(old(mem)@, dest as int, src as int, 4 * k as int),
        decreases nwords - k,
    {
        proof {
            lemma_mod_multiples_vanish(k as int, dest as int, 4);
            lemma_mod_multiples_vanish(k as int, src as int, 4);
            lemma_forward_safe_sub(
                dest as int,
                src as int,
                4 * nwords as int,
                4 * k as int,
                4,
            );
        }
        copy_unit_u32(mem, dest + 4 * k, src + 4 * k);
        proof {
            lemma_moved_step_fwd(old(mem)@, dest as int, src as int, 4 * k as int, 4);
        }
        k = k + 1;
    }
}

/// A high-to-low run of `nwords` word accesses, highest word first.
#[verifier::loop_isolation(false)]
fn copy_words_bwd(mem: &mut Vec<u8>, dest: usize, src: usize, nwords: usize)
    requires
        dest + 4 * nwords <= old(mem).len(),
        src + 4 * nwords <= old(mem).len(),
        dest % 4 == 0,
        src % 4 == 0,
        backward_safe(dest as int, src as int, 4 * nwords as int),
    ensures
        final(mem)@ == moved(old(mem)@, dest as int, src as int, 4 * nwords as int),
{
    proof {
        lemma_moved_zero(mem@, dest as int + 4 * nwords as int, src as int + 4 * nwords as int);
    }
    let mut k: usize = 0;
    while k < nwords
        invariant
            k <= nwords,
            mem@.len() == old(mem)@.len(),
            mem@ == moved(
                old(mem)@,
                dest as int + 4 * (nwords - k) as int,
                src as int + 4 * (nwords - k) as int,
                4 * k as int,
            ),
        decreases nwords - k,
    {
        let base = nwords - k - 1;
        proof {
            lemma_mod_multiples_vanish(base as int, dest as int, 4);
            lemma_mod_multiples_vanish(base as int, src as int, 4);
            lemma_backward_safe_sub(
                dest as int,
                src as int,
                4 * nwords as int,
                4 * (nwords - k) as int,
                4,
            );
        }
        copy_unit_u32(mem, dest + 4 * base, src + 4 * base);
        proof {
            lemma_moved_step_bwd(
                old(mem)@,
                dest as int + 4 * base as int,
                src as int + 4 * base as int,
                4,
                4 * k as int,
            );
        }
        k = k + 1;
    }
}

/// Low-to-high transfer at byte granularity: the narrow fallback loop that
/// is safe for every alignment.
#[verifier::loop_isolation(false)]
fn copy_fwd_u8(mem: &mut Vec<u8>, dest: usize, src: usize, count: usize)
    requires
        dest + count <= old(mem).len(),
        src + count <= old(mem).len(),
        forward_safe(dest as int, src as int, count as int),
    ensures
        final(mem)@ == moved(old(mem)@, dest as int, src as int, count as int),
{
    proof {
        lemma_moved_zero(mem@, dest as int, src as int);
    }
    let mut off: usize = 0;
    while off < count
        invariant
            off <= count,
            mem@.len() == old(mem)@.len(),
            mem@ == moved(old(mem)@, dest as int, src as int, off as int),
        decreases count - off,
    {
        proof {
            lemma_forward_safe_sub(dest as int, src as int, count as int, off as int, 1);
        }
        copy_unit_u8(mem, dest + off, src + off);
        proof {
            lemma_moved_step_fwd(old(mem)@, dest as int, src as int, off as int, 1);
        }
        off = off + 1;
    }
}

/// Low-to-high transfer at halfword granularity; an odd byte count ends
/// with a single byte access.
#[verifier::loop_isolation(false)]
fn copy_fwd_u16(mem: &mut Vec<u8>, dest: usize, src: usize, count: usize)
    requires
        dest + count <= old(mem).len(),
        src + count <= old(mem).len(),
        dest % 2 == 0,
        src % 2 == 0,
        forward_safe(dest as int, src as int, count as int),
    ensures
        final(mem)@ == moved(old(mem)@, dest as int, src as int, count as int),
{
    proof {
        lemma_moved_zero(mem@, dest as int, src as int);
    }
    let mut off: usize = 0;
    while count - off >= 2
        invariant
            off <= count,
            off % 2 == 0,
            mem@.len() == old(mem)@.len(),
            mem@ == moved(old(mem)@, dest as int, src as int, off as int),
        decreases count - off,
    {
        proof {
            lemma_align_add(dest as int, off as int, 2);
            lemma_align_add(src as int, off as int, 2);
            lemma_forward_safe_sub(dest as int, src as int, count as int, off as int, 2);
        }
        copy_unit_u16(mem, dest + off, src + off);
        proof {
            lemma_moved_step_fwd(old(mem)@, dest as int, src as int, off as int, 2);
            lemma_align_add(off as int, 2, 2);
        }
        off = off + 2;
    }
    if off < count {
        proof {
            lemma_forward_safe_sub(dest as int, src as int, count as int, off as int, 1);
        }
        copy_unit_u8(mem, dest + off, src + off);
        proof {
            lemma_moved_step_fwd(old(mem)@, dest as int, src as int, off as int, 1);
        }
    }
}

/// The sub-32-byte tail of the ascending word-granularity transfer: a
/// 16-byte block, an 8-byte block, a word, a halfword and a byte, each
/// taken exactly when its bit is set in the count. The addresses must sit
/// on a word boundary.
#[verifier::rlimit(60)]
fn forward_tail_u32(mem: &mut Vec<u8>, dest: usize, src: usize, count: usize)
    requires
        count < 32,
        dest + count <= old(mem).len(),
        src + count <= old(mem).len(),
        dest % 4 == 0,
        src % 4 == 0,
        forward_safe(dest as int, src as int, count as int),
    ensures
        final(mem)@ == moved(old(mem)@, dest as int, src as int, count as int),
{
    proof {
        lemma_moved_zero(mem@, dest as int, src as int);
    }
    let mut off: usize = 0;
    if count - off >= 16 {
        proof {
            lemma_align_add(dest as int, off as int, 4);
            lemma_align_add(src as int, off as int, 4);
            lemma_forward_safe_sub(dest as int, src as int, count as int, off as int, 16);
        }
        copy_words_fwd(mem, dest + off, src + off, 4);
        proof {
            lemma_moved_step_fwd(old(mem)@, dest as int, src as int, off as int, 16);
            lemma_align_add(off as int, 16, 4);
        }
        off = off + 16;
    }
    if count - off >= 8 {
        proof {
            lemma_align_add(dest as int, off as int, 4);
            lemma_align_add(src as int, off as int, 4);
            lemma_forward_safe_sub(dest as int, src as int, count as int, off as int, 8);
        }
        copy_words_fwd(mem, dest + off, src + off, 2);
        proof {
            lemma_moved_step_fwd(old(mem)@, dest as int, src as int, off as int, 8);
            lemma_align_add(off as int, 8, 4);
        }
        off = off + 8;
    }
    if count - off >= 4 {
        proof {
            lemma_align_add(dest as int, off as int, 4);
            lemma_align_add(src as int, off as int, 4);
            lemma_forward_safe_sub(dest as int, src as int, count as int, off as int, 4);
        }
        copy_unit_u32(mem, dest + off, src + off);
        proof {
            lemma_moved_step_fwd(old(mem)@, dest as int, src as int, off as int, 4);
            lemma_align_add(off as int, 4, 4);
        }
        off = off + 4;
    }
    if count - off >= 2 {
        proof {
            lemma_mod4_even(dest as int);
            lemma_mod4_even(src as int);
            lemma_mod4_even(off as int);
            lemma_align_add(dest as int, off as int, 2);
            lemma_align_add(src as int, off as int, 2);
            lemma_forward_safe_sub(dest as int, src as int, count as int, off as int, 2);
        }
        copy_unit_u16(mem, dest + off, src + off);
        proof {
            lemma_moved_step_fwd(old(mem)@, dest as int, src as int, off as int, 2);
        }
        off = off + 2;
    }
    if count - off >= 1 {
        proof {
            lemma_forward_safe_sub(dest as int, src as int, count as int, off as int, 1);
        }
        copy_unit_u8(mem, dest + off, src + off);
        proof {
            lemma_moved_step_fwd(old(mem)@, dest as int, src as int, off as int, 1);
        }
        off = off + 1;
    }
}

/// Low-to-high transfer at word granularity, tiered by the remaining byte
/// count: 32-byte blocks while possible, then the sub-32-byte tail tiers,
/// each taken exactly when the corresponding bit is set in the remaining
/// count.
#[verifier::loop_isolation(false)]
fn copy_fwd_u32(mem: &mut Vec<u8>, dest: usize, src: usize, count: usize)
    requires
        dest + count <= old(mem).len(),
        src + count <= old(mem).len(),
        dest % 4 == 0,
        src % 4 == 0,
        forward_safe(dest as int, src as int, count as int),
    ensures
        final(mem)@ == moved(old(mem)@, dest as int, src as int, count as int),
{
    proof {
        lemma_moved_zero(mem@, dest as int, src as int);
    }
    let mut off: usize = 0;
    while count - off >= 32
        invariant
            off <= count,
            off % 4 == 0,
            mem@.len() == old(mem)@.len(),
            mem@ == moved(old(mem)@, dest as int, src as int, off as int),
        decreases count - off,
    {
        proof {
            lemma_align_add(dest as int, off as int, 4);
            lemma_align_add(src as int, off as int, 4);
            lemma_forward_safe_sub(dest as int, src as int, count as int, off as int, 32);
        }
        copy_words_fwd(mem, dest + off, src + off, 8);
        proof {
            lemma_moved_step_fwd(old(mem)@, dest as int, src as int, off as int, 32);
            lemma_align_add(off as int, 32, 4);
        }
        off = off + 32;
    }
    proof {
        lemma_align_add(dest as int, off as int, 4);
        lemma_align_add(src as int, off as int, 4);
        lemma_forward_safe_sub(
            dest as int,
            src as int,
            count as int,
            off as int,
            count as int - off as int,
        );
    }
    forward_tail_u32(mem, dest + off, src + off, count - off);
    proof {
        lemma_moved_step_fwd(
            old(mem)@,
            dest as int,
            src as int,
            off as int,
            count as int - off as int,
        );
    }
}

/// High-to-low transfer at byte granularity: the narrow fallback loop of
/// the backward direction, safe for every alignment.
#[verifier::loop_isolation(false)]
fn reverse_copy_u8(mem: &mut Vec<u8>, dest: usize, src: usize, count: usize)
    requires
        dest + count <= old(mem).len(),
        src + count <= old(mem).len(),
        backward_safe(dest as int, src as int, count as int),
    ensures
        final(mem)@ == moved(old(mem)@, dest as int, src as int, count as int),
{
    proof {
        lemma_moved_zero(mem@, dest as int + count as int, src as int + count as int);
    }
    let mut rem: usize = count;
    while rem > 0
        invariant
            rem <= count,
            mem@.len() == old(mem)@.len(),
            mem@ == moved(
                old(mem)@,
                dest as int + rem as int,
                src as int + rem as int,
                count as int - rem as int,
            ),
        decreases rem,
    {
        proof {
            lemma_backward_safe_sub(dest as int, src as int, count as int, rem as int, 1);
        }
        copy_unit_u8(mem, dest + rem - 1, src + rem - 1);
        proof {
            lemma_moved_step_bwd(
                old(mem)@,
                dest as int + rem as int - 1,
                src as int + rem as int - 1,
                1,
                count as int - rem as int,
            );
        }
        rem = rem - 1;
    }
}

/// High-to-low transfer at halfword granularity; an odd byte count ends
/// with a single byte access at the bottom of the span. The span must end
/// on a halfword boundary.
#[verifier::loop_isolation(false)]
fn reverse_copy_u16(mem: &mut Vec<u8>, dest: usize, src: usize, count: usize)
    requires
        dest + count <= old(mem).len(),
        src + count <= old(mem).len(),
        (dest + count) % 2 == 0,
        (src + count) % 2 == 0,
        backward_safe(dest as int, src as int, count as int),
    ensures
        final(mem)@ == moved(old(mem)@, dest as int, src as int, count as int),
{
    proof {
        lemma_moved_zero(mem@, dest as int + count as int, src as int + count as int);
    }
    let mut rem: usize = count;
    while rem >= 2
        invariant
            rem <= count,
            rem % 2 == count % 2,
            mem@.len() == old(mem)@.len(),
            mem@ == moved(
                old(mem)@,
                dest as int + rem as int,
                src as int + rem as int,
                count as int - rem as int,
            ),
        decreases rem,
    {
        proof {
            lemma_sub_mod_noop(count as int, rem as int, 2);
            lemma_mod_twice(count as int, 2);
            assert((count - rem) % 2 == 0);
            lemma_align_keep_sub(dest as int + count as int, count as int - rem as int, 2);
            lemma_align_keep_sub(src as int + count as int, count as int - rem as int, 2);
            assert((dest + rem) % 2 == 0);
            lemma_align_keep_sub(dest as int + rem as int, 2, 2);
            lemma_align_keep_sub(src as int + rem as int, 2, 2);
            lemma_backward_safe_sub(dest as int, src as int, count as int, rem as int, 2);
        }
        copy_unit_u16(mem, dest + rem - 2, src + rem - 2);
        proof {
            lemma_moved_step_bwd(
                old(mem)@,
                dest as int + rem as int - 2,
                src as int + rem as int - 2,
                2,
                count as int - rem as int,
            );
            lemma_align_keep_sub(rem as int, 2, 2);
        }
        rem = rem - 2;
    }
    if rem == 1 {
        proof {
            lemma_backward_safe_sub(dest as int, src as int, count as int, 1, 1);
        }
        copy_unit_u8(mem, dest, src);
        proof {
            lemma_moved_step_bwd(
                old(mem)@,
                dest as int,
                src as int,
                1,
                count as int - 1,
            );
        }
    }
}

/// The sub-32-byte tail of the descending word-granularity transfer: a
/// 16-byte block, an 8-byte block, a word, a halfword and a byte, each
/// taken exactly when its bit is set in the count. The span must end on a
/// word boundary.
#[verifier::rlimit(60)]
fn reverse_tail_u32(mem: &mut Vec<u8>, dest: usize, src: usize, count: usize)
    requires
        count < 32,
        dest + count <= old(mem).len(),
        src + count <= old(mem).len(),
        (dest + count) % 4 == 0,
        (src + count) % 4 == 0,
        backward_safe(dest as int, src as int, count as int),
    ensures
        final(mem)@ == moved(old(mem)@, dest as int, src as int, count as int),
{
    proof {
        lemma_moved_zero(mem@, dest as int + count as int, src as int + count as int);
    }
    let mut rem: usize = count;
    if rem >= 16 {
        proof {
            lemma_align_keep_sub(dest as int + rem as int, 16, 4);
            lemma_align_keep_sub(src as int + rem as int, 16, 4);
            lemma_backward_safe_sub(dest as int, src as int, count as int, rem as int, 16);
        }
        copy_words_bwd(mem, dest + rem - 16, src + rem - 16, 4);
        proof {
            lemma_moved_step_bwd(
                old(mem)@,
                dest as int + rem as int - 16,
                src as int + rem as int - 16,
                16,
                count as int - rem as int,
            );
            lemma_align_keep_sub(dest as int + rem as int, 16, 4);
            lemma_align_keep_sub(src as int + rem as int, 16, 4);
        }
        rem = rem - 16;
    }
    if rem >= 8 {
        proof {
            lemma_align_keep_sub(dest as int + rem as int, 8, 4);
            lemma_align_keep_sub(src as int + rem as int, 8, 4);
            lemma_backward_safe_sub(dest as int, src as int, count as int, rem as int, 8);
        }
        copy_words_bwd(mem, dest + rem - 8, src + rem - 8, 2);
        proof {
            lemma_moved_step_bwd(
                old(mem)@,
                dest as int + rem as int - 8,
                src as int + rem as int - 8,
                8,
                count as int - rem as int,
            );
            lemma_align_keep_sub(dest as int + rem as int, 8, 4);
            lemma_align_keep_sub(src as int + rem as int, 8, 4);
        }
        rem = rem - 8;
    }
    if rem >= 4 {
        proof {
            lemma_align_keep_sub(dest as int + rem as int, 4, 4);
            lemma_align_keep_sub(src as int + rem as int, 4, 4);
            lemma_backward_safe_sub(dest as int, src as int, count as int, rem as int, 4);
        }
        copy_unit_u32(mem, dest + rem - 4, src + rem - 4);
        proof {
            lemma_moved_step_bwd(
                old(mem)@,
                dest as int + rem as int - 4,
                src as int + rem as int - 4,
                4,
                count as int - rem as int,
            );
            lemma_align_keep_sub(dest as int + rem as int, 4, 4);
            lemma_align_keep_sub(src as int + rem as int, 4, 4);
        }
        rem = rem - 4;
    }
    if rem >= 2 {
        proof {
            lemma_mod4_even(dest as int + rem as int);
            lemma_mod4_even(src as int + rem as int);
            lemma_align_keep_sub(dest as int + rem as int, 2, 2);
            lemma_align_keep_sub(src as int + rem as int, 2, 2);
            lemma_backward_safe_sub(dest as int, src as int, count as int, rem as int, 2);
        }
        copy_unit_u16(mem, dest + rem - 2, src + rem - 2);
        proof {
            lemma_moved_step_bwd(
                old(mem)@,
                dest as int + rem as int - 2,
                src as int + rem as int - 2,
                2,
                count as int - rem as int,
            );
        }
        rem = rem - 2;
    }
    if rem >= 1 {
        proof {
            lemma_backward_safe_sub(dest as int, src as int, count as int, rem as int, 1);
        }
        copy_unit_u8(mem, dest + rem - 1, src + rem - 1);
        proof {
            lemma_moved_step_bwd(
                old(mem)@,
                dest as int + rem as int - 1,
                src as int + rem as int - 1,
                1,
                count as int - rem as int,
            );
        }
        rem = rem - 1;
    }
}

/// High-to-low transfer at word granularity, tiered by the remaining byte
/// count exactly as the low-to-high word loop is, but descending: 32-byte
/// blocks from the top, then the sub-32-byte tail tiers. The span must end
/// on a word boundary.
#[verifier::loop_isolation(false)]
fn reverse_copy_u32(mem: &mut Vec<u8>, dest: usize, src: usize, count: usize)
    requires
        dest + count <= old(mem).len(),
        src + count <= old(mem).len(),
        (dest + count) % 4 == 0,
        (src + count) % 4 == 0,
        backward_safe(dest as int, src as int, count as int),
    ensures
        final(mem)@ == moved(old(mem)@, dest as int, src as int, count as int),
{
    proof {
        lemma_moved_zero(mem@, dest as int + count as int, src as int + count as int);
    }
    let mut rem: usize = count;
    while rem >= 32
        invariant
            rem <= count,
            rem % 4 == count % 4,
            mem@.len() == old(mem)@.len(),
            mem@ == moved(
                old(mem)@,
                dest as int + rem as int,
                src as int + rem as int,
                count as int - rem as int,
            ),
        decreases rem,
    {
        proof {
            lemma_sub_mod_noop(count as int, rem as int, 4);
            lemma_mod_twice(count as int, 4);
            lemma_align_keep_sub(dest as int + count as int, count as int - rem as int, 4);
            lemma_align_keep_sub(src as int + count as int, count as int - rem as int, 4);
            lemma_align_keep_sub(dest as int + rem as int, 32, 4);
            lemma_align_keep_sub(src as int + rem as int, 32, 4);
            lemma_backward_safe_sub(dest as int, src as int, count as int, rem as int, 32);
        }
        copy_words_bwd(mem, dest + rem - 32, src + rem - 32, 8);
        proof {
            lemma_moved_step_bwd(
                old(mem)@,
                dest as int + rem as int - 32,
                src as int + rem as int - 32,
                32,
                count as int - rem as int,
            );
            lemma_align_keep_sub(rem as int, 32, 4);
        }
        rem = rem - 32;
    }
    proof {
        lemma_sub_mod_noop(count as int, rem as int, 4);
        lemma_mod_twice(count as int, 4);
        lemma_align_keep_sub(dest as int + count as int, count as int - rem as int, 4);
        lemma_align_keep_sub(src as int + count as int, count as int - rem as int, 4);
        lemma_backward_safe_sub(dest as int, src as int, count as int, rem as int, 0);
    }
    reverse_tail_u32(mem, dest, src, rem);
    proof {
        lemma_moved_step_bwd(
            old(mem)@,
            dest as int,
            src as int,
            rem as int,
            count as int - rem as int,
        );
    }
}

/// General low-to-high transfer: a count at or below [`FIXUP_CUTOFF`] goes
/// straight to the byte loop; otherwise the coalignment class of the two
/// addresses (the largest power of two on which both can agree after a short
/// fixup) picks the granularity, the fixup aligns both addresses together,
/// and the matching tier loop does the bulk of the work.
fn copy_fwd(mem: &mut Vec<u8>, dest: usize, src: usize, count: usize)
    requires
        dest + count <= old(mem).len(),
        src + count <= old(mem).len(),
        forward_safe(dest as int, src as int, count as int),
    ensures
        final(mem)@ == moved(old(mem)@, dest as int, src as int, count as int),
{
    if count <= FIXUP_CUTOFF {
        copy_fwd_u8(mem, dest, src, count);
        return;
    }
    if dest % 2 != src % 2 {
        // the low bits differ: the addresses never agree on a halfword
        // boundary, so only byte accesses can run in lock-step
        copy_fwd_u8(mem, dest, src, count);
        return;
    }
    proof {
        lemma_moved_zero(mem@, dest as int, src as int);
    }
    if dest % 4 != src % 4 {
        // common granularity 2: at most one byte of fixup
        let mut off: usize = 0;
        if dest % 2 != 0 {
            proof {
                lemma_forward_safe_sub(dest as int, src as int, count as int, 0, 1);
            }
            copy_unit_u8(mem, dest, src);
            proof {
                lemma_fixup_add(dest as int, 1, 2);
                lemma_fixup_add(src as int, 1, 2);
            }
            off = 1;
        }
        proof {
            assert((dest + off) % 2 == 0);
            assert((src + off) % 2 == 0);
            lemma_forward_safe_sub(
                dest as int,
                src as int,
                count as int,
                off as int,
                count as int - off as int,
            );
        }
        copy_fwd_u16(mem, dest + off, src + off, count - off);
        proof {
            lemma_moved_step_fwd(
                old(mem)@,
                dest as int,
                src as int,
                off as int,
                count as int - off as int,
            );
        }
        return;
    }
    // common granularity 4: at most a byte and a halfword of fixup
    let mut off: usize = 0;
    if dest % 2 != 0 {
        proof {
            lemma_forward_safe_sub(dest as int, src as int, count as int, 0, 1);
        }
        copy_unit_u8(mem, dest, src);
        proof {
            lemma_fixup_add(dest as int, 1, 2);
            lemma_fixup_add(src as int, 1, 2);
        }
        off = 1;
    }
    proof {
        assert((dest + off) % 2 == 0);
        lemma_congruent_add(dest as int, src as int, off as int, 2);
        lemma_congruent_add(dest as int, src as int, off as int, 4);
        assert((src + off) % 2 == 0);
    }
    if (dest + off) % 4 != 0 {
        // both addresses are even here, so they sit exactly one halfword
        // below a word boundary
        proof {
            lemma_even_mod4(dest as int + off as int);
            assert((dest + off) % 4 == 2);
            assert((src + off) % 4 == 2);
            lemma_forward_safe_sub(dest as int, src as int, count as int, off as int, 2);
        }
        copy_unit_u16(mem, dest + off, src + off);
        proof {
            lemma_moved_step_fwd(old(mem)@, dest as int, src as int, off as int, 2);
            lemma_fixup_add(dest as int + off as int, 2, 4);
            lemma_fixup_add(src as int + off as int, 2, 4);
        }
        off = off + 2;
    }
    proof {
        assert((dest + off) % 4 == 0);
        lemma_congruent_add(dest as int, src as int, off as int, 4);
        assert((src + off) % 4 == 0);
        lemma_forward_safe_sub(
            dest as int,
            src as int,
            count as int,
            off as int,
            count as int - off as int,
        );
    }
    copy_fwd_u32(mem, dest + off, src + off, count - off);
    proof {
        lemma_moved_step_fwd(
            old(mem)@,
            dest as int,
            src as int,
            off as int,
            count as int - off as int,
        );
    }
}

/// Byte-granularity copy between exclusive spans.
///
/// * If `byte_count` is zero the addresses are not used and may be any
///   value.
/// * Otherwise both spans must lie in the buffer and be entirely disjoint
///   or entirely identical; partial overlap is not allowed.
pub fn __aeabi_memcpy1(mem: &mut Vec<u8>, dest: usize, src: usize, byte_count: usize)
    requires
        byte_count > 0 ==> spans_in_bounds(
            old(mem).len() as int,
            dest as int,
            src as int,
            byte_count as int,
        ) && exclusive_spans(dest as int, src as int, byte_count as int),
    ensures
        final(mem)@ == moved(old(mem)@, dest as int, src as int, byte_count as int),
{
    if byte_count == 0 {
        proof {
            lemma_moved_zero(mem@, dest as int, src as int);
        }
        return;
    }
    copy_fwd_u8(mem, dest, src, byte_count);
}

/// `u16` copy between exclusive spans.
///
/// * If the `byte_count` is odd then a single byte copy happens at the end.
/// * If `byte_count` is zero the addresses are not used and may be any
///   value.
/// * Otherwise both addresses must be aligned to 2, both spans must lie in
///   the buffer, and the spans must be entirely disjoint or entirely
///   identical; partial overlap is not allowed.
pub fn __aeabi_memcpy2(mem: &mut Vec<u8>, dest: usize, src: usize, byte_count: usize)
    requires
        byte_count > 0 ==> spans_in_bounds(
            old(mem).len() as int,
            dest as int,
            src as int,
            byte_count as int,
        ) && dest % 2 == 0 && src % 2 == 0 && exclusive_spans(
            dest as int,
            src as int,
            byte_count as int,
        ),
    ensures
        final(mem)@ == moved(old(mem)@, dest as int, src as int, byte_count as int),
{
    if byte_count == 0 {
        proof {
            lemma_moved_zero(mem@, dest as int, src as int);
        }
        return;
    }
    copy_fwd_u16(mem, dest, src, byte_count);
}

/// Word copy between exclusive spans.
///
/// * If `byte_count` is not a multiple of 4 then a halfword and/or byte
///   copy happens at the end.
/// * If `byte_count` is zero the addresses are not used and may be any
///   value.
/// * Otherwise both addresses must be aligned to 4, both spans must lie in
///   the buffer, and the spans must be entirely disjoint or entirely
///   identical; partial overlap is not allowed.
pub fn __aeabi_memcpy4(mem: &mut Vec<u8>, dest: usize, src: usize, byte_count: usize)
    requires
        byte_count > 0 ==> spans_in_bounds(
            old(mem).len() as int,
            dest as int,
            src as int,
            byte_count as int,
        ) && dest % 4 == 0 && src % 4 == 0 && exclusive_spans(
            dest as int,
            src as int,
            byte_count as int,
        ),
    ensures
        final(mem)@ == moved(old(mem)@, dest as int, src as int, byte_count as int),
{
    if byte_count == 0 {
        proof {
            lemma_moved_zero(mem@, dest as int, src as int);
        }
        return;
    }
    copy_fwd_u32(mem, dest, src, byte_count);
}

/// Just call [`__aeabi_memcpy4`] instead.
///
/// This entry point exists only for completeness of the family: its
/// contract and its behavior are those of [`__aeabi_memcpy4`].
pub fn __aeabi_memcpy8(mem: &mut Vec<u8>, dest: usize, src: usize, byte_count: usize)
    requires
        byte_count > 0 ==> spans_in_bounds(
            old(mem).len() as int,
            dest as int,
            src as int,
            byte_count as int,
        ) && dest % 4 == 0 && src % 4 == 0 && exclusive_spans(
            dest as int,
            src as int,
            byte_count as int,
        ),
    ensures
        final(mem)@ == moved(old(mem)@, dest as int, src as int, byte_count as int),
{
    __aeabi_memcpy4(mem, dest, src, byte_count);
}

/// Arbitrary-width copy between exclusive spans: detects the widest
/// granularity the two addresses can share and dispatches to the matching
/// tier, aligning both addresses first when needed.
///
/// * If `byte_count` is zero the addresses are not used and may be any
///   value.
/// * Otherwise both spans must lie in the buffer (no alignment is required)
///   and be entirely disjoint or entirely identical; partial overlap is not
///   allowed.
pub fn __aeabi_memcpy(mem: &mut Vec<u8>, dest: usize, src: usize, byte_count: usize)
    requires
        byte_count > 0 ==> spans_in_bounds(
            old(mem).len() as int,
            dest as int,
            src as int,
            byte_count as int,
        ) && exclusive_spans(dest as int, src as int, byte_count as int),
    ensures
        final(mem)@ == moved(old(mem)@, dest as int, src as int, byte_count as int),
{
    if byte_count == 0 {
        proof {
            lemma_moved_zero(mem@, dest as int, src as int);
        }
        return;
    }
    copy_fwd(mem, dest, src, byte_count);
}

/// Copy between exclusive spans, in the standard library convention:
/// behaves exactly like [`__aeabi_memcpy`] and additionally returns the
/// destination address unchanged.
pub fn memcpy(mem: &mut Vec<u8>, dest: usize, src: usize, byte_count: usize) -> (ret: usize)
    requires
        byte_count > 0 ==> spans_in_bounds(
            old(mem).len() as int,
            dest as int,
            src as int,
            byte_count as int,
        ) && exclusive_spans(dest as int, src as int, byte_count as int),
    ensures
        final(mem)@ == moved(old(mem)@, dest as int, src as int, byte_count as int),
        ret == dest,
{
    __aeabi_memcpy(mem, dest, src, byte_count);
    dest
}

/// Copy between spans that may overlap in any way.
///
/// The direction selector is the single correctness-critical branch: when
/// `dest >= src` any overlap means a low-to-high pass could read a source
/// byte it had already overwritten, so the transfer runs from the top of
/// both spans downward; otherwise it runs low-to-high. Either way the
/// granularity pipeline is the same, mirrored for the chosen direction.
///
/// * If `byte_count` is zero the addresses are not used and may be any
///   value.
/// * Otherwise both spans must lie in the buffer; no alignment and no
///   overlap precondition.
pub fn __aeabi_memmove(mem: &mut Vec<u8>, dest: usize, src: usize, byte_count: usize)
    requires
        byte_count > 0 ==> spans_in_bounds(
            old(mem).len() as int,
            dest as int,
            src as int,
            byte_count as int,
        ),
    ensures
        final(mem)@ == moved(old(mem)@, dest as int, src as int, byte_count as int),
{
    if byte_count == 0 {
        proof {
            lemma_moved_zero(mem@, dest as int, src as int);
        }
        return;
    }
    if dest >= src {
        // high-to-low traversal; `dest == src` also lands here and becomes
        // a full self-copy that rewrites every byte with its own value
        if byte_count <= FIXUP_CUTOFF {
            reverse_copy_u8(mem, dest, src, byte_count);
            return;
        }
        let dest_end = dest + byte_count;
        let src_end = src + byte_count;
        proof {
            lemma_moved_zero(mem@, dest_end as int, src_end as int);
        }
        if dest_end % 2 != src_end % 2 {
            // no common halfword boundary in either direction
            reverse_copy_u8(mem, dest, src, byte_count);
        } else if dest_end % 4 != src_end % 4 {
            // common granularity 2: at most one byte of fixup at the top
            let mut rem: usize = byte_count;
            if dest_end % 2 != 0 {
                copy_unit_u8(mem, dest_end - 1, src_end - 1);
                proof {
                    lemma_odd_pred(dest_end as int);
                    lemma_odd_pred(src_end as int);
                }
                rem = byte_count - 1;
            }
            proof {
                assert((dest + rem) % 2 == 0);
                assert((src + rem) % 2 == 0);
            }
            reverse_copy_u16(mem, dest, src, rem);
            proof {
                lemma_moved_step_bwd(
                    old(mem)@,
                    dest as int,
                    src as int,
                    rem as int,
                    byte_count as int - rem as int,
                );
            }
        } else {
            // common granularity 4: at most a byte and a halfword of fixup
            // at the top
            let mut rem: usize = byte_count;
            if dest_end % 2 != 0 {
                copy_unit_u8(mem, dest_end - 1, src_end - 1);
                proof {
                    lemma_odd_pred(dest_end as int);
                    lemma_odd_pred(src_end as int);
                }
                rem = byte_count - 1;
            }
            proof {
                assert((dest + rem) % 2 == 0);
                assert((src + rem) % 2 == 0);
            }
            if (dest + rem) % 4 != 0 {
                // both span tops are even here, exactly one halfword above
                // a word boundary
                proof {
                    lemma_even_mod4(dest as int + rem as int);
                    assert((dest + rem) % 4 == 2);
                    lemma_congruent_add(
                        dest_end as int,
                        src_end as int,
                        rem as int - byte_count as int,
                        4,
                    );
                    assert((src + rem) % 4 == 2);
                    lemma_align_keep_sub(dest as int + rem as int, 2, 2);
                    lemma_align_keep_sub(src as int + rem as int, 2, 2);
                    lemma_backward_safe_sub(
                        dest as int,
                        src as int,
                        byte_count as int,
                        rem as int,
                        2,
                    );
                }
                copy_unit_u16(mem, dest + rem - 2, src + rem - 2);
                proof {
                    lemma_moved_step_bwd(
                        old(mem)@,
                        dest as int + rem as int - 2,
                        src as int + rem as int - 2,
                        2,
                        byte_count as int - rem as int,
                    );
                    lemma_half_down(dest as int + rem as int);
                    lemma_half_down(src as int + rem as int);
                }
                rem = rem - 2;
            }
            proof {
                assert((dest + rem) % 4 == 0);
                lemma_congruent_add(
                    dest_end as int,
                    src_end as int,
                    rem as int - byte_count as int,
                    4,
                );
                assert((src + rem) % 4 == 0);
            }
            reverse_copy_u32(mem, dest, src, rem);
            proof {
                lemma_moved_step_bwd(
                    old(mem)@,
                    dest as int,
                    src as int,
                    rem as int,
                    byte_count as int - rem as int,
                );
            }
        }
    } else {
        // dest < src: a low-to-high pass is overlap-safe
        copy_fwd(mem, dest, src, byte_count);
    }
}

/// Copy between spans that may overlap; prefer [`__aeabi_memmove`].
///
/// This entry point exists only for completeness of the family. Callers
/// that know both addresses are aligned to 4 may use it; its behavior is
/// that of [`__aeabi_memmove`].
pub fn __aeabi_memmove4(mem: &mut Vec<u8>, dest: usize, src: usize, byte_count: usize)
    requires
        byte_count > 0 ==> spans_in_bounds(
            old(mem).len() as int,
            dest as int,
            src as int,
            byte_count as int,
        ) && dest % 4 == 0 && src % 4 == 0,
    ensures
        final(mem)@ == moved(old(mem)@, dest as int, src as int, byte_count as int),
{
    __aeabi_memmove(mem, dest, src, byte_count);
}

/// Copy between spans that may overlap; prefer [`__aeabi_memmove`].
///
/// This entry point exists only for completeness of the family: its
/// contract and its behavior are those of [`__aeabi_memmove4`].
pub fn __aeabi_memmove8(mem: &mut Vec<u8>, dest: usize, src: usize, byte_count: usize)
    requires
        byte_count > 0 ==> spans_in_bounds(
            old(mem).len() as int,
            dest as int,
            src as int,
            byte_count as int,
        ) && dest % 4 == 0 && src % 4 == 0,
    ensures
        final(mem)@ == moved(old(mem)@, dest as int, src as int, byte_count as int),
{
    __aeabi_memmove(mem, dest, src, byte_count);
}

/// Copy between spans that may overlap, in the standard library convention:
/// behaves exactly like [`__aeabi_memmove`] and additionally returns the
/// destination address unchanged.
pub fn memmove(mem: &mut Vec<u8>, dest: usize, src: usize, byte_count: usize) -> (ret: usize)
    requires
        byte_count > 0 ==> spans_in_bounds(
            old(mem).len() as int,
            dest as int,
            src as int,
            byte_count as int,
        ),
    ensures
        final(mem)@ == moved(old(mem)@, dest as int, src as int, byte_count as int),
        ret == dest,
{
    __aeabi_memmove(mem, dest, src, byte_count);
    dest
}

} // verus!

