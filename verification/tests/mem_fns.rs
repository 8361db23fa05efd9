use gba::mem_fns::__aeabi_memcpy;
use gba::mem_fns::__aeabi_memcpy1;
use gba::mem_fns::__aeabi_memcpy2;
use gba::mem_fns::__aeabi_memcpy4;
use gba::mem_fns::__aeabi_memcpy8;
use gba::mem_fns::__aeabi_memmove;
use gba::mem_fns::__aeabi_memmove4;
use gba::mem_fns::__aeabi_memmove8;
use gba::mem_fns::memcpy;
use gba::mem_fns::memmove;

/// A buffer of `len` bytes with a distinct-looking pattern.
fn patterned(len: usize) -> Vec<u8> {
    (0..len).map(|i| (i as u8).wrapping_mul(31).wrapping_add(7)).collect()
}

/// The reference procedure: save the source span to a scratch buffer, then
/// write the scratch buffer over the destination span.
fn reference_move(mem: &[u8], dest: usize, src: usize, count: usize) -> Vec<u8> {
    let mut out = mem.to_vec();
    let scratch = mem[src..src + count].to_vec();
    out[dest..dest + count].copy_from_slice(&scratch);
    out
}

#[test]
fn copy_disjoint_all_counts_and_alignments() {
    for count in 0..=65usize {
        for da in 0..4usize {
            for sa in 0..4usize {
                let before = patterned(200);
                let mut mem = before.clone();
                let src = 8 + sa;
                let dest = 120 + da;
                __aeabi_memcpy(&mut mem, dest, src, count);
                // destination got the source's original bytes
                assert_eq!(&mem[dest..dest + count], &before[src..src + count]);
                // source unmodified, everything outside dest unmodified
                assert_eq!(&mem[..dest], &before[..dest]);
                assert_eq!(&mem[dest + count..], &before[dest + count..]);
            }
        }
    }
}

#[test]
fn zero_length_ignores_pointers() {
    // length zero is a no-op even with wild addresses and an empty buffer
    let mut mem: Vec<u8> = Vec::new();
    let d = usize::MAX;
    let s = usize::MAX - 1;
    __aeabi_memcpy1(&mut mem, d, s, 0);
    __aeabi_memcpy2(&mut mem, d, s, 0);
    __aeabi_memcpy4(&mut mem, d, s, 0);
    __aeabi_memcpy8(&mut mem, d, s, 0);
    __aeabi_memcpy(&mut mem, d, s, 0);
    assert_eq!(memcpy(&mut mem, d, s, 0), d);
    __aeabi_memmove4(&mut mem, d, s, 0);
    __aeabi_memmove8(&mut mem, d, s, 0);
    __aeabi_memmove(&mut mem, d, s, 0);
    assert_eq!(memmove(&mut mem, d, s, 0), d);
    assert!(mem.is_empty());

    let mut small = patterned(3);
    let saved = small.clone();
    __aeabi_memcpy(&mut small, usize::MAX, 0, 0);
    __aeabi_memmove(&mut small, usize::MAX, usize::MAX, 0);
    assert_eq!(small, saved);
}

#[test]
fn move_overlap_matrix() {
    // dest before, equal to, and after src, overlap from one byte to full
    for count in [1usize, 2, 5, 8, 16, 33] {
        for delta in 0..=(2 * count) {
            let src = 40;
            let dest = 40 + delta - count; // ranges over [40-count, 40+count]
            let before = patterned(120);
            let mut mem = before.clone();
            __aeabi_memmove(&mut mem, dest, src, count);
            assert_eq!(mem, reference_move(&before, dest, src, count));
        }
    }
}

#[test]
fn self_move_unchanged() {
    for count in [0usize, 1, 2, 3, 7, 8, 31, 32, 33, 64] {
        for align in 0..4usize {
            let before = patterned(80);
            let mut mem = before.clone();
            let at = 4 + align;
            __aeabi_memmove(&mut mem, at, at, count);
            assert_eq!(mem, before);
        }
    }
}

#[test]
fn tiers_match_general_copy() {
    // wherever a tier's stricter alignment precondition holds, the tier and
    // the general entry point produce identical buffers
    for count in 0..=65usize {
        let before = patterned(200);
        let src = 8;
        let dest = 120; // both aligned to 4, spans disjoint

        let mut general = before.clone();
        __aeabi_memcpy(&mut general, dest, src, count);

        let mut by1 = before.clone();
        __aeabi_memcpy1(&mut by1, dest, src, count);
        assert_eq!(by1, general);

        let mut by2 = before.clone();
        __aeabi_memcpy2(&mut by2, dest, src, count);
        assert_eq!(by2, general);

        let mut by4 = before.clone();
        __aeabi_memcpy4(&mut by4, dest, src, count);
        assert_eq!(by4, general);

        let mut by8 = before.clone();
        __aeabi_memcpy8(&mut by8, dest, src, count);
        assert_eq!(by8, general);
    }
}

#[test]
fn tiers_match_general_move() {
    for count in 0..=65usize {
        // overlapping and aligned to 4: dest = src + 4
        let before = patterned(200);
        let src = 40;
        let dest = 44;

        let mut general = before.clone();
        __aeabi_memmove(&mut general, dest, src, count);
        assert_eq!(general, reference_move(&before, dest, src, count));

        let mut by4 = before.clone();
        __aeabi_memmove4(&mut by4, dest, src, count);
        assert_eq!(by4, general);

        let mut by8 = before.clone();
        __aeabi_memmove8(&mut by8, dest, src, count);
        assert_eq!(by8, general);

        let mut std_conv = before.clone();
        assert_eq!(memmove(&mut std_conv, dest, src, count), dest);
        assert_eq!(std_conv, general);
    }
}

#[test]
fn overlapping_move_four_higher() {
    // source bytes 0x01..=0x20 at the bottom of the buffer, destination four
    // bytes higher in the same buffer: the move must traverse high-to-low,
    // and afterwards every destination byte holds the source's original byte
    let mut mem: Vec<u8> = (1..=0x20u8).collect();
    mem.extend_from_slice(&[0xAA, 0xBB, 0xCC, 0xDD]);
    let original = mem.clone();
    __aeabi_memmove(&mut mem, 4, 0, 32);
    for i in 0..32 {
        assert_eq!(mem[4 + i], original[i]);
    }
    // bytes below the destination span are untouched
    assert_eq!(&mem[..4], &original[..4]);
}

#[test]
fn seven_byte_unaligned_copy() {
    // seven bytes between addresses of different coalignment classes: the
    // engine must fall back to a plain byte-by-byte copy
    let before = patterned(64);
    let mut mem = before.clone();
    let src = 1; // odd
    let dest = 34; // even: no common halfword boundary
    __aeabi_memcpy(&mut mem, dest, src, 7);
    let mut naive = before.clone();
    for i in 0..7 {
        naive[dest + i] = before[src + i];
    }
    assert_eq!(mem, naive);
}

#[test]
fn copy_identical_spans_allowed() {
    // the exclusive-copy family accepts byte-for-byte identical spans
    for count in [1usize, 7, 12, 33] {
        let before = patterned(64);
        let mut mem = before.clone();
        __aeabi_memcpy(&mut mem, 16, 16, count);
        assert_eq!(mem, before);
        let mut mem2 = before.clone();
        __aeabi_memcpy4(&mut mem2, 16, 16, count);
        assert_eq!(mem2, before);
    }
}

#[test]
fn memcpy_returns_dest() {
    let before = patterned(100);
    let mut mem = before.clone();
    let ret = memcpy(&mut mem, 60, 4, 25);
    assert_eq!(ret, 60);
    assert_eq!(mem, reference_move(&before, 60, 4, 25));
}

#[test]
fn memcpy2_odd_count_tail() {
    // halfword tier with an odd count: a single byte copy happens at the end
    let before = patterned(64);
    let mut mem = before.clone();
    __aeabi_memcpy2(&mut mem, 40, 2, 13);
    assert_eq!(mem, reference_move(&before, 40, 2, 13));
}

#[test]
fn memcpy4_every_residue() {
    // the word tier degrades through its 32/16/8/4/2/1 tiers for every
    // residue of the count
    for count in [
        1usize, 2, 3, 4, 5, 6, 7, 8, 12, 15, 16, 17, 24, 31, 32, 33, 40, 48, 63, 64, 65,
    ] {
        let before = patterned(200);
        let mut mem = before.clone();
        __aeabi_memcpy4(&mut mem, 100, 0, count);
        assert_eq!(mem, reference_move(&before, 100, 0, count));
    }
}

#[test]
fn move_backward_every_coalignment() {
    // overlapping backward moves whose span ends fall in each coalignment
    // class, including ones that need top-end fixup
    for src in 8..16usize {
        for dest_off in 0..8usize {
            for count in [8usize, 9, 13, 21, 32, 37] {
                let dest = src + dest_off;
                let before = patterned(120);
                let mut mem = before.clone();
                __aeabi_memmove(&mut mem, dest, src, count);
                assert_eq!(mem, reference_move(&before, dest, src, count));
            }
        }
    }
}

#[test]
fn move_forward_overlap() {
    // dest below src with overlap runs low-to-high and still matches the
    // reference procedure
    for count in [1usize, 7, 8, 16, 33] {
        let before = patterned(120);
        let mut mem = before.clone();
        __aeabi_memmove(&mut mem, 20, 24, count);
        assert_eq!(mem, reference_move(&before, 20, 24, count));
    }
}
