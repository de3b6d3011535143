//! Preparing BC7 endpoints and indices for storage: every anchor index
//! must have its top bit clear (it is stored with one bit fewer), which is
//! reached by swapping the endpoints of a subset and mirroring its indices.
//! Which pixels belong to which subset, and which are the anchors, depends
//! on the partition; the caller passes both.

use vstd::prelude::*;
use crate::bc7::{bc7_mode_info, spec_mode_info, BC7ModeInfo};
use crate::bc7_fields::{
    lemma_index_start, lemma_single_anchor_run, lemma_mode_sizes, bc7_mode, first_mode_from, header_len, index_offset, index_start, index_width, is_bc7_header,
    pbit_start, raw_endpoint, run_index,
};
use crate::bitstream::{
    from_le_bytes_128, lemma_bytes_roundtrip, lemma_read_after_write,
    lemma_write_preserves_disjoint, le_bytes_128, low_mask_128, spec_read_bits, spec_write_bits,
    BitStream128,
};

verus! {

/// The number of codes of an index of `bits` bits (2, 3 or 4).
pub open spec fn code_count(bits: u32) -> int {
    if bits == 2 {
        4
    } else if bits == 3 {
        8
    } else {
        16
    }
}

/// The anchor pixel of subset `s`: pixel 0 for subset 0, else the one the
/// partition names (`anchors[s - 1]`).
pub open spec fn subset_anchor(anchors: Seq<usize>, s: int) -> int {
    if s == 0 {
        0
    } else {
        anchors[s - 1] as int
    }
}

/// Whether pixel `i` belongs to subset `s` of a block with `ns` subsets
/// and subset map `shape`.
pub open spec fn in_subset(ns: usize, shape: Seq<u8>, s: int, i: int) -> bool {
    ns == 1 || shape[i] == s
}

/// Endpoints, p-bits and indices of a block being prepared.
pub type AnchorState = (Seq<[u8; 4]>, Seq<[u8; 4]>, Seq<u8>, Seq<u8>);

/// Subset `s` of `st` after the anchor check of mode `mode`: when the
/// subset's anchor index is in the upper half of the codes, its endpoints
/// are swapped (alpha too, except in modes 4 and 5), its two p-bits are
/// swapped when the mode has one per endpoint, and the indices of its
/// pixels are mirrored; otherwise nothing changes.
pub open spec fn anchor_step(
    mode: usize,
    shape: Seq<u8>,
    anchors: Seq<usize>,
    st: AnchorState,
    s: int,
) -> AnchorState {
    let info = spec_mode_info(mode);
    let ccs = code_count(info.index_bits);
    let (start, end, pbits, indices) = st;
    if indices[subset_anchor(anchors, s)] >= ccs / 2 {
        let a = start[s];
        let b = end[s];
        let keep_alpha = mode == 4 || mode == 5;
        let na = [b[0], b[1], b[2], if keep_alpha { a[3] } else { b[3] }];
        let nb = [a[0], a[1], a[2], if keep_alpha { b[3] } else { a[3] }];
        let np = if info.endpoint_pbits > 0 {
            pbits.update(2 * s, pbits[2 * s + 1]).update(2 * s + 1, pbits[2 * s])
        } else {
            pbits
        };
        let ni = Seq::new(
            16,
            |i: int|
                if in_subset(info.num_subsets, shape, s, i) {
                    (ccs - 1 - indices[i]) as u8
                } else {
                    indices[i]
                },
        );
        (start.update(s, na), end.update(s, nb), np, ni)
    } else {
        st
    }
}

/// `st` after the anchor checks of subsets `0..n`, in order.
pub open spec fn anchor_steps(
    mode: usize,
    shape: Seq<u8>,
    anchors: Seq<usize>,
    st: AnchorState,
    n: int,
) -> AnchorState
    decreases n,
{
    if n <= 0 {
        st
    } else {
        anchor_step(mode, shape, anchors, anchor_steps(mode, shape, anchors, st, n - 1), n - 1)
    }
}

/// The alpha endpoints and alpha indices of modes 4 and 5 after their
/// anchor check: when the first alpha index is in the upper half of its
/// codes, the alpha channels of the two endpoints of subset 0 are swapped
/// and the alpha indices mirrored.
pub open spec fn alpha_fixed(
    mode: usize,
    start: Seq<[u8; 4]>,
    end: Seq<[u8; 4]>,
    alpha: Seq<u8>,
) -> (Seq<[u8; 4]>, Seq<[u8; 4]>, Seq<u8>) {
    let ac = if mode == 4 {
        8int
    } else {
        4
    };
    if (mode == 4 || mode == 5) && alpha[0] >= ac / 2 {
        let a = start[0];
        let b = end[0];
        (
            start.update(0, [a[0], a[1], a[2], b[3]]),
            end.update(0, [b[0], b[1], b[2], a[3]]),
            Seq::new(16, |i: int| (ac - 1 - alpha[i]) as u8),
        )
    } else {
        (start, end, alpha)
    }
}

/// The subset map puts pixel 0 in subset 0 and each anchor pixel in its
/// own subset (for the subsets the mode has).
pub open spec fn anchors_in_own_subsets(ns: usize, shape: Seq<u8>, anchors: Seq<usize>) -> bool {
    &&& ns >= 2 ==> shape[0] == 0 && shape[anchors[0] as int] == 1
    &&& ns == 3 ==> shape[anchors[1] as int] == 2
}

/// After the anchor checks of subsets `0..n`, the indices stay below the
/// code count and the anchor index of each checked subset has its top bit
/// clear.
proof fn lemma_anchor_steps_clear(
    mode: usize,
    shape: Seq<u8>,
    anchors: Seq<usize>,
    st: AnchorState,
    n: int,
)
    requires
        mode < 8,
        0 <= n <= spec_mode_info(mode).num_subsets,
        shape.len() == 16,
        anchors.len() == 2,
        anchors[0] < 16,
        anchors[1] < 16,
        st.3.len() == 16,
        forall|i: int| 0 <= i < 16 ==> st.3[i] < code_count(spec_mode_info(mode).index_bits),
        anchors_in_own_subsets(spec_mode_info(mode).num_subsets, shape, anchors),
    ensures
        anchor_steps(mode, shape, anchors, st, n).3.len() == 16,
        forall|i: int|
            0 <= i < 16 ==> anchor_steps(mode, shape, anchors, st, n).3[i] < code_count(
                spec_mode_info(mode).index_bits,
            ),
        forall|s: int|
            0 <= s < n ==> 2 * anchor_steps(mode, shape, anchors, st, n).3[#[trigger] subset_anchor(
                anchors,
                s,
            )] < code_count(spec_mode_info(mode).index_bits),
    decreases n,
{
    let info = spec_mode_info(mode);
    lemma_info_bounds(mode);
    if n > 0 {
        lemma_anchor_steps_clear(mode, shape, anchors, st, n - 1);
        let prev = anchor_steps(mode, shape, anchors, st, n - 1);
        let next = anchor_steps(mode, shape, anchors, st, n);
        let ccs = code_count(info.index_bits);
        assert(next == anchor_step(mode, shape, anchors, prev, n - 1));
        let a = subset_anchor(anchors, n - 1);
        if prev.3[a] >= ccs / 2 {
            assert(in_subset(info.num_subsets, shape, n - 1, a));
            assert forall|s: int| 0 <= s < n - 1 implies !in_subset(
                info.num_subsets,
                shape,
                n - 1,
                #[trigger] subset_anchor(anchors, s),
            ) by {}
        }
        assert forall|s: int| 0 <= s < n implies 2 * next.3[#[trigger] subset_anchor(anchors, s)]
            < ccs by {
            if s < n - 1 {
                assert(2 * prev.3[subset_anchor(anchors, s)] < ccs);
            }
        }
    }
}

/// After `fix_bc7_anchor_indices`, the colour index of every anchor pixel
/// has its top bit clear, so that it fits the one-bit-shorter field, when
/// the subset map puts each anchor in its own subset.
pub proof fn lemma_anchor_fix_clears_anchors(
    mode: usize,
    shape: Seq<u8>,
    anchors: Seq<usize>,
    st: AnchorState,
)
    requires
        mode < 8,
        shape.len() == 16,
        anchors.len() == 2,
        anchors[0] < 16,
        anchors[1] < 16,
        st.3.len() == 16,
        forall|i: int| 0 <= i < 16 ==> st.3[i] < code_count(spec_mode_info(mode).index_bits),
        anchors_in_own_subsets(spec_mode_info(mode).num_subsets, shape, anchors),
    ensures
        forall|s: int|
            0 <= s < spec_mode_info(mode).num_subsets ==> 2 * anchor_steps(
                mode,
                shape,
                anchors,
                st,
                spec_mode_info(mode).num_subsets as int,
            ).3[#[trigger] subset_anchor(anchors, s)] < code_count(spec_mode_info(mode).index_bits),
{
    lemma_info_bounds(mode);
    lemma_anchor_steps_clear(mode, shape, anchors, st, spec_mode_info(mode).num_subsets as int);
}

/// Flips the subsets of a BC7 block of mode `mode` whose anchor index has
/// its top bit set (see `anchor_step`), subset by subset, and then, in
/// modes 4 and 5, the alpha indices (see `alpha_fixed`). `shape` gives the
/// subset of each pixel and `anchors` the anchor pixels of subsets 1 and 2
/// for the block's partition.
pub fn fix_bc7_anchor_indices(
    mode: usize,
    shape: &[u8; 16],
    anchors: &[usize; 2],
    snapped_start: &mut [[u8; 4]; 3],
    snapped_end: &mut [[u8; 4]; 3],
    p_bits: &mut [u8; 6],
    indices: &mut [u8; 16],
    alpha_indices: &mut [u8; 16],
)
    requires
        mode < 8,
        anchors[0] < 16,
        anchors[1] < 16,
        forall|i: int| 0 <= i < 16 ==> old(indices)[i] < code_count(spec_mode_info(mode).index_bits),
        mode == 4 ==> forall|i: int| 0 <= i < 16 ==> old(alpha_indices)[i] < 8,
        mode == 5 ==> forall|i: int| 0 <= i < 16 ==> old(alpha_indices)[i] < 4,
    ensures
        ({
            let st = anchor_steps(
                mode,
                shape@,
                anchors@,
                (old(snapped_start)@, old(snapped_end)@, old(p_bits)@, old(indices)@),
                spec_mode_info(mode).num_subsets as int,
            );
            let fa = alpha_fixed(mode, st.0, st.1, old(alpha_indices)@);
            &&& final(snapped_start)@ == fa.0
            &&& final(snapped_end)@ == fa.1
            &&& final(p_bits)@ == st.2
            &&& final(indices)@ == st.3
            &&& final(alpha_indices)@ == fa.2
        }),
{
    let info = bc7_mode_info(mode);
    let ib = info.index_bits;
    assert(2 <= ib <= 4 && 1 <= info.num_subsets <= 3 && info.endpoint_pbits <= 1) by {
        assert(mode == 0 || mode == 1 || mode == 2 || mode == 3 || mode == 4 || mode == 5 || mode
            == 6 || mode == 7);
    }
    let ccs: u8 = if ib == 2 {
        4
    } else if ib == 3 {
        8
    } else {
        16
    };
    let ghost init: AnchorState = (snapped_start@, snapped_end@, p_bits@, indices@);
    let mut s: usize = 0;
    while s < info.num_subsets
        invariant
            mode < 8,
            info == spec_mode_info(mode),
            ib == info.index_bits,
            2 <= ib <= 4,
            1 <= info.num_subsets <= 3,
            ccs == code_count(ib),
            s <= info.num_subsets,
            anchors[0] < 16,
            anchors[1] < 16,
            (snapped_start@, snapped_end@, p_bits@, indices@) == anchor_steps(
                mode,
                shape@,
                anchors@,
                init,
                s as int,
            ),
            forall|i: int| 0 <= i < 16 ==> indices[i] < ccs,
        decreases info.num_subsets - s,
    {
        let anchor_idx = if s == 0 {
            0
        } else {
            anchors[s - 1]
        };
        let ghost before: AnchorState = (snapped_start@, snapped_end@, p_bits@, indices@);
        if indices[anchor_idx] >= ccs / 2 {
            let a = snapped_start[s];
            let b = snapped_end[s];
            let keep_alpha = mode == 4 || mode == 5;
            let na = [b[0], b[1], b[2], if keep_alpha { a[3] } else { b[3] }];
            let nb = [a[0], a[1], a[2], if keep_alpha { b[3] } else { a[3] }];
            snapped_start[s] = na;
            snapped_end[s] = nb;
            if info.endpoint_pbits > 0 {
                let p0 = p_bits[2 * s];
                let p1 = p_bits[2 * s + 1];
                p_bits[2 * s] = p1;
                p_bits[2 * s + 1] = p0;
            }
            let mut i: usize = 0;
            while i < 16
                invariant
                    i <= 16,
                    s < 3,
                    ccs == code_count(ib),
                    2 <= ib <= 4,
                    info == spec_mode_info(mode),
                    indices@.len() == 16,
                    before.3.len() == 16,
                    forall|k: int| 0 <= k < 16 ==> before.3[k] < ccs,
                    forall|k: int|
                        0 <= k < i ==> #[trigger] indices@[k] == (if in_subset(
                            info.num_subsets,
                            shape@,
                            s as int,
                            k,
                        ) {
                            (ccs - 1 - before.3[k]) as u8
                        } else {
                            before.3[k]
                        }),
                    forall|k: int| i <= k < 16 ==> #[trigger] indices@[k] == before.3[k],
                decreases 16 - i,
            {
                let belongs = info.num_subsets == 1 || shape[i] as usize == s;
                if belongs {
                    indices[i] = (ccs - 1) - indices[i];
                }
                i += 1;
            }
            proof {
                let after = anchor_step(mode, shape@, anchors@, before, s as int);
                assert(indices@ =~= after.3);
                assert(snapped_start@ =~= after.0);
                assert(snapped_end@ =~= after.1);
                assert(p_bits@ =~= after.2);
            }
        }
        s += 1;
    }
    if mode == 4 || mode == 5 {
        let a_ccs: u8 = if mode == 4 {
            8
        } else {
            4
        };
        if alpha_indices[0] >= a_ccs / 2 {
            let a = snapped_start[0];
            let b = snapped_end[0];
            snapped_start[0] = [a[0], a[1], a[2], b[3]];
            snapped_end[0] = [b[0], b[1], b[2], a[3]];
            let ghost before = alpha_indices@;
            let mut i: usize = 0;
            while i < 16
                invariant
                    i <= 16,
                    a_ccs == (if mode == 4 { 8u8 } else { 4u8 }),
                    mode == 4 || mode == 5,
                    alpha_indices@.len() == 16,
                    mode == 4 ==> forall|k: int| 0 <= k < 16 ==> before[k] < 8,
                    mode == 5 ==> forall|k: int| 0 <= k < 16 ==> before[k] < 4,
                    forall|k: int|
                        0 <= k < i ==> #[trigger] alpha_indices@[k] == (a_ccs - 1 - before[k]) as u8,
                    forall|k: int| i <= k < 16 ==> #[trigger] alpha_indices@[k] == before[k],
                decreases 16 - i,
            {
                alpha_indices[i] = (a_ccs - 1) - alpha_indices[i];
                i += 1;
            }
            assert(alpha_indices@ =~= Seq::new(
                16,
                |k: int| ((if mode == 4 { 8int } else { 4 }) - 1 - before[k]) as u8,
            ));
        }
    }
}


/// The block and next free bit after writing `fields` (width, value) one
/// after another into an empty block from bit 0.
pub open spec fn pack_fields(fields: Seq<(u32, u32)>) -> (u128, int)
    decreases fields.len(),
{
    if fields.len() == 0 {
        (0u128, 0)
    } else {
        let (v, p) = pack_fields(fields.drop_last());
        let (w, x) = fields.last();
        (spec_write_bits(v, p as u32, w, x), p + w)
    }
}

/// Endpoint `j` of a block: the start (even `j`) or end (odd `j`) of
/// subset `j / 2`.
pub open spec fn endpoint_of(start: Seq<[u8; 4]>, end: Seq<[u8; 4]>, j: int) -> [u8; 4] {
    if j % 2 == 0 {
        start[j / 2]
    } else {
        end[j / 2]
    }
}

/// Channel `c` of the `2 * ns` endpoints, each cut to its top `bits` bits.
pub open spec fn channel_fields(
    start: Seq<[u8; 4]>,
    end: Seq<[u8; 4]>,
    ns: usize,
    bits: u32,
    c: int,
) -> Seq<(u32, u32)> {
    Seq::new(
        (2 * ns) as nat,
        |j: int| (bits, (endpoint_of(start, end, j)[c] >> ((8 - bits) as u8)) as u32),
    )
}

/// Sixteen indices of `ib` bits, one bit fewer at the anchors.
pub open spec fn index_fields(ib: u32, ns: usize, a1: usize, a2: usize, indices: Seq<u8>) -> Seq<
    (u32, u32),
> {
    Seq::new(16, |i: int| (index_width(ib as int, ns, a1, a2, i) as u32, indices[i] as u32))
}

/// The fields of a BC7 block, in storage order: the mode bit, partition,
/// rotation and index mode, the red, green and blue endpoint channels, the
/// alpha ones, the p-bits, then the indices (colour then alpha indices in
/// modes 4 and 5).
pub open spec fn bc7_layout(
    mode: usize,
    partition: usize,
    rotation: usize,
    idx_mode: usize,
    start: Seq<[u8; 4]>,
    end: Seq<[u8; 4]>,
    p_bits: Seq<u8>,
    indices: Seq<u8>,
    alpha_indices: Seq<u8>,
    anchors: Seq<usize>,
) -> Seq<(u32, u32)> {
    let info = spec_mode_info(mode);
    let ns = info.num_subsets;
    let header = seq![
        ((mode + 1) as u32, 1u32 << (mode as u32)),
        (info.partition_bits, partition as u32),
        (info.rotation_bits, rotation as u32),
        (info.index_selection_bits, idx_mode as u32),
    ];
    let colors = channel_fields(start, end, ns, info.color_bits, 0) + channel_fields(
        start,
        end,
        ns,
        info.color_bits,
        1,
    ) + channel_fields(start, end, ns, info.color_bits, 2);
    let alphas = if info.alpha_bits > 0 {
        channel_fields(start, end, ns, info.alpha_bits, 3)
    } else {
        Seq::empty()
    };
    let np = ns * (2 * info.endpoint_pbits + info.shared_pbits);
    let pbits = Seq::new(np as nat, |k: int| (1u32, p_bits[k] as u32));
    let idx = if mode == 4 {
        let (cw, aw): (u32, u32) = if idx_mode == 0 {
            (2, 3)
        } else {
            (3, 2)
        };
        index_fields(cw, 1, 0, 0, indices) + index_fields(aw, 1, 0, 0, alpha_indices)
    } else if mode == 5 {
        index_fields(2, 1, 0, 0, indices) + index_fields(2, 1, 0, 0, alpha_indices)
    } else {
        index_fields(info.index_bits, ns, anchors[0], anchors[1], indices)
    };
    header + colors + alphas + pbits + idx
}

/// Appends `piece` to `fields`.
pub(crate) fn push_piece(fields: &mut Vec<(u32, u32)>, piece: &Vec<(u32, u32)>)
    ensures
        final(fields)@ == old(fields)@ + piece@,
{
    let ghost before = fields@;
    let mut k: usize = 0;
    while k < piece.len()
        invariant
            k <= piece.len(),
            fields@ == before + piece@.take(k as int),
        decreases piece.len() - k,
    {
        fields.push(piece[k]);
        k += 1;
        assert(fields@ =~= before + piece@.take(k as int));
    }
    assert(piece@.take(k as int) =~= piece@);
}

/// Channel `c` of the `2 * ns` endpoints cut to `bits` bits (see
/// `channel_fields`).
fn channel_piece(start: &[[u8; 4]; 3], end: &[[u8; 4]; 3], ns: usize, bits: u32, c: usize) -> (r: Vec<
    (u32, u32),
>)
    requires
        1 <= ns <= 3,
        1 <= bits <= 8,
        c < 4,
    ensures
        r@ == channel_fields(start@, end@, ns, bits, c as int),
{
    let mut r: Vec<(u32, u32)> = Vec::new();
    let shift = (8 - bits) as u8;
    let mut j: usize = 0;
    while j < 2 * ns
        invariant
            1 <= ns <= 3,
            1 <= bits <= 8,
            c < 4,
            shift == 8 - bits,
            j <= 2 * ns,
            r@ == channel_fields(start@, end@, ns, bits, c as int).take(j as int),
        decreases 2 * ns - j,
    {
        let e = if j % 2 == 0 {
            start[j / 2]
        } else {
            end[j / 2]
        };
        r.push((bits, (e[c] >> shift) as u32));
        j += 1;
        assert(r@ =~= channel_fields(start@, end@, ns, bits, c as int).take(j as int));
    }
    assert(channel_fields(start@, end@, ns, bits, c as int).take(j as int) =~= channel_fields(
        start@,
        end@,
        ns,
        bits,
        c as int,
    ));
    r
}

/// Sixteen indices of `ib` bits with the given anchors (see
/// `index_fields`).
pub(crate) fn index_piece(ib: u32, ns: usize, a1: usize, a2: usize, indices: &[u8; 16]) -> (r: Vec<(u32, u32)>)
    requires
        2 <= ib <= 4,
    ensures
        r@ == index_fields(ib, ns, a1, a2, indices@),
{
    let mut r: Vec<(u32, u32)> = Vec::new();
    let mut i: usize = 0;
    while i < 16
        invariant
            2 <= ib <= 4,
            i <= 16,
            r@ == index_fields(ib, ns, a1, a2, indices@).take(i as int),
        decreases 16 - i,
    {
        let anchor = i == 0 || (ns >= 2 && i == a1) || (ns == 3 && i == a2);
        let w = if anchor {
            ib - 1
        } else {
            ib
        };
        r.push((w, indices[i] as u32));
        i += 1;
        assert(r@ =~= index_fields(ib, ns, a1, a2, indices@).take(i as int));
    }
    assert(index_fields(ib, ns, a1, a2, indices@).take(16) =~= index_fields(
        ib,
        ns,
        a1,
        a2,
        indices@,
    ));
    r
}

/// Fields no wider than 8 bits stay so when joined.
proof fn lemma_narrow_concat(a: Seq<(u32, u32)>, b: Seq<(u32, u32)>)
    requires
        forall|t: int| 0 <= t < a.len() ==> #[trigger] a[t].0 <= 8,
        forall|t: int| 0 <= t < b.len() ==> #[trigger] b[t].0 <= 8,
    ensures
        forall|t: int| 0 <= t < (a + b).len() ==> #[trigger] (a + b)[t].0 <= 8,
{
    assert forall|t: int| 0 <= t < (a + b).len() implies #[trigger] (a + b)[t].0 <= 8 by {
        if t < a.len() {
            assert((a + b)[t] == a[t]);
        } else {
            assert((a + b)[t] == b[t - a.len()]);
        }
    }
}

/// Field widths of every BC7 mode.
proof fn lemma_info_bounds(mode: usize)
    requires
        mode < 8,
    ensures
        ({
            let info = spec_mode_info(mode);
            &&& 1 <= info.num_subsets <= 3
            &&& 4 <= info.color_bits <= 7
            &&& info.alpha_bits <= 8
            &&& 2 <= info.index_bits <= 4
            &&& info.partition_bits <= 6
            &&& info.rotation_bits <= 2
            &&& info.index_selection_bits <= 1
            &&& info.num_subsets * (2 * info.endpoint_pbits + info.shared_pbits) <= 6
        }),
{
    let i = spec_mode_info(mode);
    assert(i.endpoint_pbits <= 1 && i.shared_pbits <= 1 && i.endpoint_pbits + i.shared_pbits <= 1
        && 1 <= i.num_subsets <= 3 && (i.num_subsets == 3 ==> i.shared_pbits == 0)) by {
        if mode == 0 {
        } else if mode == 1 {
        } else if mode == 2 {
        } else if mode == 3 {
        } else if mode == 4 {
        } else if mode == 5 {
        } else if mode == 6 {
        } else {
        }
    }
    assert(i.num_subsets * (2 * i.endpoint_pbits + i.shared_pbits) <= 6) by (nonlinear_arith)
        requires
            i.endpoint_pbits <= 1,
            i.shared_pbits <= 1,
            i.endpoint_pbits + i.shared_pbits <= 1,
            1 <= i.num_subsets <= 3,
            i.num_subsets == 3 ==> i.shared_pbits == 0,
    ;
    if mode == 0 {
    } else if mode == 1 {
    } else if mode == 2 {
    } else if mode == 3 {
    } else if mode == 4 {
    } else if mode == 5 {
    } else if mode == 6 {
    } else {
    }
}

/// A block layout has at most 100 fields, none wider than 8 bits.
proof fn lemma_layout_bounds(
    mode: usize,
    partition: usize,
    rotation: usize,
    idx_mode: usize,
    start: Seq<[u8; 4]>,
    end: Seq<[u8; 4]>,
    p_bits: Seq<u8>,
    indices: Seq<u8>,
    alpha_indices: Seq<u8>,
    anchors: Seq<usize>,
)
    requires
        mode < 8,
    ensures
        ({
            let l = bc7_layout(
                mode,
                partition,
                rotation,
                idx_mode,
                start,
                end,
                p_bits,
                indices,
                alpha_indices,
                anchors,
            );
            &&& l.len() <= 100
            &&& forall|t: int| 0 <= t < l.len() ==> #[trigger] l[t].0 <= 8
        }),
{
    let info = spec_mode_info(mode);
    lemma_info_bounds(mode);
    let ns = info.num_subsets;
    let header = seq![
        ((mode + 1) as u32, 1u32 << (mode as u32)),
        (info.partition_bits, partition as u32),
        (info.rotation_bits, rotation as u32),
        (info.index_selection_bits, idx_mode as u32),
    ];
    let c0 = channel_fields(start, end, ns, info.color_bits, 0);
    let c1 = channel_fields(start, end, ns, info.color_bits, 1);
    let c2 = channel_fields(start, end, ns, info.color_bits, 2);
    let alphas = if info.alpha_bits > 0 {
        channel_fields(start, end, ns, info.alpha_bits, 3)
    } else {
        Seq::empty()
    };
    let np = ns * (2 * info.endpoint_pbits + info.shared_pbits);
    let pbits = Seq::new(np as nat, |k: int| (1u32, p_bits[k] as u32));
    let idx = if mode == 4 {
        let (cw, aw): (u32, u32) = if idx_mode == 0 {
            (2, 3)
        } else {
            (3, 2)
        };
        let i1 = index_fields(cw, 1, 0, 0, indices);
        let i2 = index_fields(aw, 1, 0, 0, alpha_indices);
        lemma_narrow_concat(i1, i2);
        i1 + i2
    } else if mode == 5 {
        let i1 = index_fields(2, 1, 0, 0, indices);
        let i2 = index_fields(2, 1, 0, 0, alpha_indices);
        lemma_narrow_concat(i1, i2);
        i1 + i2
    } else {
        index_fields(info.index_bits, ns, anchors[0], anchors[1], indices)
    };
    lemma_narrow_concat(header, c0);
    lemma_narrow_concat(header + c0, c1);
    lemma_narrow_concat(header + c0 + c1, c2);
    lemma_narrow_concat(header + c0 + c1 + c2, alphas);
    lemma_narrow_concat(header + c0 + c1 + c2 + alphas, pbits);
    lemma_narrow_concat(header + c0 + c1 + c2 + alphas + pbits, idx);
    assert(bc7_layout(
        mode,
        partition,
        rotation,
        idx_mode,
        start,
        end,
        p_bits,
        indices,
        alpha_indices,
        anchors,
    ) == header + c0 + c1 + c2 + alphas + pbits + idx);
}

/// The fields of a block in storage order (see `bc7_layout`).
#[verifier::rlimit(50)]
fn layout_fields(
    mode: usize,
    partition: usize,
    rotation: usize,
    idx_mode: usize,
    start: &[[u8; 4]; 3],
    end: &[[u8; 4]; 3],
    p_bits: &[u8; 6],
    indices: &[u8; 16],
    alpha_indices: &[u8; 16],
    anchors: &[usize; 2],
) -> (r: Vec<(u32, u32)>)
    requires
        mode < 8,
    ensures
        r@ == bc7_layout(
            mode,
            partition,
            rotation,
            idx_mode,
            start@,
            end@,
            p_bits@,
            indices@,
            alpha_indices@,
            anchors@,
        ),
{
    let info = bc7_mode_info(mode);
    let ns = info.num_subsets;
    proof {
        lemma_info_bounds(mode);
    }
    let np = ns * (2 * info.endpoint_pbits as usize + info.shared_pbits as usize);
    let mut fields: Vec<(u32, u32)> = Vec::new();
    fields.push(((mode + 1) as u32, 1u32 << (mode as u32)));
    fields.push((info.partition_bits, partition as u32));
    fields.push((info.rotation_bits, rotation as u32));
    fields.push((info.index_selection_bits, idx_mode as u32));
    push_piece(&mut fields, &channel_piece(start, end, ns, info.color_bits, 0));
    push_piece(&mut fields, &channel_piece(start, end, ns, info.color_bits, 1));
    push_piece(&mut fields, &channel_piece(start, end, ns, info.color_bits, 2));
    if info.alpha_bits > 0 {
        push_piece(&mut fields, &channel_piece(start, end, ns, info.alpha_bits, 3));
    }
    push_piece(&mut fields, &pbit_piece(p_bits, np));
    if mode == 4 {
        let (cw, aw): (u32, u32) = if idx_mode == 0 {
            (2, 3)
        } else {
            (3, 2)
        };
        push_piece(&mut fields, &index_piece(cw, 1, 0, 0, indices));
        push_piece(&mut fields, &index_piece(aw, 1, 0, 0, alpha_indices));
    } else if mode == 5 {
        push_piece(&mut fields, &index_piece(2, 1, 0, 0, indices));
        push_piece(&mut fields, &index_piece(2, 1, 0, 0, alpha_indices));
    } else {
        push_piece(&mut fields, &index_piece(info.index_bits, ns, anchors[0], anchors[1], indices));
    }
    assert(fields@ =~= bc7_layout(
        mode,
        partition,
        rotation,
        idx_mode,
        start@,
        end@,
        p_bits@,
        indices@,
        alpha_indices@,
        anchors@,
    ));
    fields
}

/// The first `np` p-bits, one field of one bit each.
fn pbit_piece(p_bits: &[u8; 6], np: usize) -> (r: Vec<(u32, u32)>)
    requires
        np <= 6,
    ensures
        r@ == Seq::new(np as nat, |k: int| (1u32, p_bits@[k] as u32)),
{
    let mut r: Vec<(u32, u32)> = Vec::new();
    let mut k: usize = 0;
    while k < np
        invariant
            np <= 6,
            k <= np,
            r@ == Seq::new(np as nat, |t: int| (1u32, p_bits@[t] as u32)).take(k as int),
        decreases np - k,
    {
        r.push((1, p_bits[k] as u32));
        k += 1;
        assert(r@ =~= Seq::new(np as nat, |t: int| (1u32, p_bits@[t] as u32)).take(k as int));
    }
    assert(Seq::new(np as nat, |t: int| (1u32, p_bits@[t] as u32)).take(k as int) =~= Seq::new(
        np as nat,
        |t: int| (1u32, p_bits@[t] as u32),
    ));
    r
}

/// The block that `fields` pack into (see `pack_fields`).
pub(crate) fn pack(fields: &Vec<(u32, u32)>) -> (r: u128)
    requires
        fields@.len() <= 100,
        forall|t: int| 0 <= t < fields@.len() ==> #[trigger] fields@[t].0 <= 8,
    ensures
        r == pack_fields(fields@).0,
{
    let mut bs = BitStream128::new(0);
    let mut pos: u32 = 0;
    let mut i: usize = 0;
    while i < fields.len()
        invariant
            i <= fields@.len(),
            fields@.len() <= 100,
            forall|t: int| 0 <= t < fields@.len() ==> #[trigger] fields@[t].0 <= 8,
            pos <= 8 * i,
            (bs.0, pos as int) == pack_fields(fields@.take(i as int)),
        decreases fields.len() - i,
    {
        let (w, x) = fields[i];
        assert(fields@.take(i + 1).drop_last() =~= fields@.take(i as int));
        assert(fields@.take(i + 1).last() == fields@[i as int]);
        bs.write_bits(pos, w, x);
        pos = pos + w;
        i += 1;
    }
    assert(fields@.take(i as int) =~= fields@);
    bs.0
}

/// Writes a BC7 block of mode `mode` with the given header fields,
/// endpoints (cut to the mode's precision), p-bits and indices into
/// `out_block` (see `bc7_layout`). `anchors` are the anchor pixels of
/// subsets 1 and 2 of the partition, whose indices are stored with one bit
/// fewer.
pub fn write_bc7_block(
    mode: usize,
    partition: usize,
    rotation: usize,
    idx_mode: usize,
    start: &[[u8; 4]; 3],
    end: &[[u8; 4]; 3],
    p_bits: &[u8; 6],
    indices: &[u8; 16],
    alpha_indices: &[u8; 16],
    anchors: &[usize; 2],
    out_block: &mut [u8; 16],
)
    requires
        mode < 8,
    ensures
        final(out_block)@ == le_bytes_128(
            pack_fields(
                bc7_layout(
                    mode,
                    partition,
                    rotation,
                    idx_mode,
                    start@,
                    end@,
                    p_bits@,
                    indices@,
                    alpha_indices@,
                    anchors@,
                ),
            ).0,
        ),
{
    let fields = layout_fields(
        mode,
        partition,
        rotation,
        idx_mode,
        start,
        end,
        p_bits,
        indices,
        alpha_indices,
        anchors,
    );
    proof {
        lemma_layout_bounds(
            mode,
            partition,
            rotation,
            idx_mode,
            start@,
            end@,
            p_bits@,
            indices@,
            alpha_indices@,
            anchors@,
        );
    }
    let v = pack(&fields);
    *out_block = BitStream128::new(v).to_bytes();
}


/// Packed fields end at a bit position that is not negative.
proof fn lemma_pack_nonneg(s: Seq<(u32, u32)>)
    ensures
        pack_fields(s).1 >= 0,
    decreases s.len(),
{
    if s.len() > 0 {
        lemma_pack_nonneg(s.drop_last());
    }
}

/// Packing a prefix of `s` ends no later than packing all of `s`.
proof fn lemma_pack_prefix_pos(s: Seq<(u32, u32)>, k: int)
    requires
        0 <= k <= s.len(),
    ensures
        pack_fields(s.take(k)).1 <= pack_fields(s).1,
    decreases s.len(),
{
    if k < s.len() {
        assert(s.drop_last().take(k) =~= s.take(k));
        lemma_pack_prefix_pos(s.drop_last(), k);
    } else {
        assert(s.take(k) =~= s);
    }
}

/// Reading back field `k` of packed fields gives its value, cut to its
/// width, when the field lies inside the block.
pub proof fn lemma_pack_read(s: Seq<(u32, u32)>, k: int)
    requires
        0 <= k < s.len(),
        s[k].0 > 0,
        pack_fields(s.take(k)).1 + s[k].0 <= 128,
        pack_fields(s).1 <= 0xFFFF_FFFF,
    ensures
        spec_read_bits(pack_fields(s).0, pack_fields(s.take(k)).1 as u32, s[k].0) == ((
        s[k].1 as u128) & low_mask_128(s[k].0)) as u32,
    decreases s.len(),
{
    let p = pack_fields(s.take(k)).1;
    let d = s.drop_last();
    lemma_pack_prefix_pos(s, k);
    lemma_pack_nonneg(s.take(k));
    if s.len() == k + 1 {
        assert(d =~= s.take(k));
        lemma_read_after_write(pack_fields(d).0, p as u32, s[k].0, s[k].1);
    } else {
        assert(d.take(k) =~= s.take(k));
        assert(d[k] == s[k]);
        assert(d.take(k + 1).drop_last() =~= d.take(k));
        assert(d.take(k + 1).last() == s[k]);
        assert(pack_fields(d.take(k + 1)).1 == p + s[k].0);
        lemma_pack_prefix_pos(d, k + 1);
        lemma_pack_read(d, k);
        let (v, q) = pack_fields(d);
        if q < 128 {
            lemma_write_preserves_disjoint(v, q as u32, s.last().0, s.last().1, p as u32, s[k].0);
        }
    }
}

/// Bit `k` (at most `m`) of a block whose low `m + 1` bits hold `1 << m`
/// is set exactly when `k == m`.
proof fn lemma_mode_field_bits(v: u128, m: u32, k: u32)
    by (bit_vector)
    requires
        m < 8,
        k <= m,
        ((v >> 0u32) & (((1u128 << ((m + 1) as u128)) - 1) as u128)) as u32 == (((1u32
            << m) as u128) & (((1u128 << ((m + 1) as u128)) - 1) as u128)) as u32,
    ensures
        (((v >> k) & (((1u128 << 1u128) - 1) as u128)) as u32 != 0) == (k == m),
{
}

/// With the low `m + 1` bits of `v` holding `1 << m`, the first set mode
/// bit from `k` on is `m`.
proof fn lemma_first_mode(v: u128, m: u32, k: u32)
    requires
        m < 8,
        k <= m,
        spec_read_bits(v, 0, (m + 1) as u32) == (((1u32 << m) as u128) & low_mask_128((m + 1) as u32)) as u32,
    ensures
        first_mode_from(v, k as nat) == m,
    decreases m - k,
{
    lemma_mode_field_bits(v, m, k);
    if k < m {
        lemma_first_mode(v, m, (k + 1) as u32);
    }
}

/// A block written by `write_bc7_block` reads back with the mode it was
/// written with, and with its partition, rotation and index mode cut to
/// the widths of their fields.
pub proof fn lemma_bc7_header_read_back(
    mode: usize,
    partition: usize,
    rotation: usize,
    idx_mode: usize,
    start: Seq<[u8; 4]>,
    end: Seq<[u8; 4]>,
    p_bits: Seq<u8>,
    indices: Seq<u8>,
    alpha_indices: Seq<u8>,
    anchors: Seq<usize>,
    h: crate::bc7_fields::Bc7Header,
)
    requires
        mode < 8,
        is_bc7_header(
            from_le_bytes_128(
                le_bytes_128(
                    pack_fields(
                        bc7_layout(
                            mode,
                            partition,
                            rotation,
                            idx_mode,
                            start,
                            end,
                            p_bits,
                            indices,
                            alpha_indices,
                            anchors,
                        ),
                    ).0,
                ),
            ),
            h,
        ),
    ensures
        h.mode == mode,
        h.partition == (if spec_mode_info(mode).partition_bits > 0 {
            ((partition as u32) as u128 & low_mask_128(spec_mode_info(mode).partition_bits)) as u32
        } else {
            0
        }),
        h.rotation == (if spec_mode_info(mode).rotation_bits > 0 {
            ((rotation as u32) as u128 & low_mask_128(spec_mode_info(mode).rotation_bits)) as u32
        } else {
            0
        }),
        h.index_mode == (if spec_mode_info(mode).index_selection_bits > 0 {
            ((idx_mode as u32) as u128 & low_mask_128(spec_mode_info(mode).index_selection_bits)) as u32
        } else {
            0
        }),
{
    let info = spec_mode_info(mode);
    let l = bc7_layout(
        mode,
        partition,
        rotation,
        idx_mode,
        start,
        end,
        p_bits,
        indices,
        alpha_indices,
        anchors,
    );
    let v = pack_fields(l).0;
    lemma_bytes_roundtrip(v);
    lemma_layout_bounds(
        mode,
        partition,
        rotation,
        idx_mode,
        start,
        end,
        p_bits,
        indices,
        alpha_indices,
        anchors,
    );
    lemma_pack_total(l);
    lemma_info_bounds(mode);
    assert(l[0] == ((mode + 1) as u32, 1u32 << (mode as u32)));
    assert(l[1] == (info.partition_bits, partition as u32));
    assert(l[2] == (info.rotation_bits, rotation as u32));
    assert(l[3] == (info.index_selection_bits, idx_mode as u32));
    assert(l.take(1).drop_last() =~= l.take(0));
    assert(l.take(2).drop_last() =~= l.take(1));
    assert(l.take(3).drop_last() =~= l.take(2));
    assert(pack_fields(l.take(0)).1 == 0);
    assert(pack_fields(l.take(1)).1 == mode + 1);
    assert(pack_fields(l.take(2)).1 == mode + 1 + info.partition_bits);
    assert(pack_fields(l.take(3)).1 == mode + 1 + info.partition_bits + info.rotation_bits);
    lemma_pack_read(l, 0);
    lemma_first_mode(v, mode as u32, 0);
    assert(bc7_mode(v) == mode);
    if info.partition_bits > 0 {
        lemma_pack_read(l, 1);
    }
    if info.rotation_bits > 0 {
        lemma_pack_read(l, 2);
    }
    if info.index_selection_bits > 0 {
        lemma_pack_read(l, 3);
    }
}

/// Packing fields of at most 8 bits each ends within 8 bits per field.
pub(crate) proof fn lemma_pack_total(s: Seq<(u32, u32)>)
    requires
        forall|t: int| 0 <= t < s.len() ==> #[trigger] s[t].0 <= 8,
    ensures
        pack_fields(s).1 <= 8 * s.len(),
        pack_fields(s).1 >= 0,
    decreases s.len(),
{
    if s.len() > 0 {
        let d = s.drop_last();
        assert forall|t: int| 0 <= t < d.len() implies #[trigger] d[t].0 <= 8 by {
            assert(d[t] == s[t]);
        }
        lemma_pack_total(d);
    }
}

/// Packing two runs of fields one after the other ends where the sum of
/// their lengths says.
proof fn lemma_pack_append(a: Seq<(u32, u32)>, b: Seq<(u32, u32)>)
    ensures
        pack_fields(a + b).1 == pack_fields(a).1 + pack_fields(b).1,
    decreases b.len(),
{
    if b.len() == 0 {
        assert(a + b =~= a);
    } else {
        assert((a + b).drop_last() =~= a + b.drop_last());
        assert((a + b).last() == b.last());
        lemma_pack_append(a, b.drop_last());
    }
}

/// A run of `t` fields of `w` bits each takes `t * w` bits.
pub(crate) proof fn lemma_pack_uniform(s: Seq<(u32, u32)>, w: u32, t: int)
    requires
        0 <= t <= s.len(),
        forall|k: int| 0 <= k < s.len() ==> #[trigger] s[k].0 == w,
    ensures
        pack_fields(s.take(t)).1 == t * w,
    decreases t,
{
    if t > 0 {
        let st = s.take(t);
        assert(st.drop_last() =~= s.take(t - 1));
        assert(st.last() == s[t - 1]);
        assert(pack_fields(st).1 == pack_fields(st.drop_last()).1 + st.last().0);
        lemma_pack_uniform(s, w, t - 1);
        assert(t * w == (t - 1) * w + w) by (nonlinear_arith);
    } else {
        assert(s.take(t).len() == 0);
    }
}

/// The first `t` index fields end where the `t`-th index starts.
proof fn lemma_pack_indices(ib: u32, ns: usize, a1: usize, a2: usize, idx: Seq<u8>, start: int, t: int)
    requires
        0 <= t <= 16,
        1 <= ib <= 16,
    ensures
        start + pack_fields(index_fields(ib, ns, a1, a2, idx).take(t)).1 == index_offset(
            start,
            ib as int,
            ns,
            a1,
            a2,
            t,
        ),
    decreases t,
{
    let f = index_fields(ib, ns, a1, a2, idx);
    if t > 0 {
        let ft = f.take(t);
        assert(ft.drop_last() =~= f.take(t - 1));
        assert(ft.last() == f[t - 1]);
        assert(pack_fields(ft).1 == pack_fields(ft.drop_last()).1 + ft.last().0);
        lemma_pack_indices(ib, ns, a1, a2, idx, start, t - 1);
        assert(f[t - 1].0 == index_width(ib as int, ns, a1, a2, t - 1));
    } else {
        assert(f.take(t).len() == 0);
    }
}

/// Field `t` of `piece`, packed between `prefix` and `rest`, reads back as
/// its value cut to its width.
proof fn lemma_piece_read(
    prefix: Seq<(u32, u32)>,
    piece: Seq<(u32, u32)>,
    rest: Seq<(u32, u32)>,
    t: int,
)
    requires
        0 <= t < piece.len(),
        piece[t].0 > 0,
        pack_fields(prefix).1 + pack_fields(piece.take(t)).1 + piece[t].0 <= 128,
        pack_fields(prefix + piece + rest).1 <= 0xFFFF_FFFF,
    ensures
        spec_read_bits(
            pack_fields(prefix + piece + rest).0,
            (pack_fields(prefix).1 + pack_fields(piece.take(t)).1) as u32,
            piece[t].0,
        ) == ((piece[t].1 as u128) & low_mask_128(piece[t].0)) as u32,
{
    let l = prefix + piece + rest;
    let k = prefix.len() + t;
    assert(l.take(k) =~= prefix + piece.take(t));
    assert(l[k] == piece[t]);
    lemma_pack_append(prefix, piece.take(t));
    lemma_pack_read(l, k);
}

/// The index fields of a block: colour then alpha indices in modes 4 and
/// 5 (only pixel 0 is an anchor there), colour indices with the given
/// anchors otherwise.
pub open spec fn idx_part(
    mode: usize,
    idx_mode: usize,
    indices: Seq<u8>,
    alpha_indices: Seq<u8>,
    anchors: Seq<usize>,
) -> Seq<(u32, u32)> {
    let info = spec_mode_info(mode);
    if mode == 4 {
        let (cw, aw): (u32, u32) = if idx_mode == 0 {
            (2, 3)
        } else {
            (3, 2)
        };
        index_fields(cw, 1, 0, 0, indices) + index_fields(aw, 1, 0, 0, alpha_indices)
    } else if mode == 5 {
        index_fields(2, 1, 0, 0, indices) + index_fields(2, 1, 0, 0, alpha_indices)
    } else {
        index_fields(info.index_bits, info.num_subsets, anchors[0], anchors[1], indices)
    }
}

/// The mode, partition, rotation and index-mode fields of a block.
pub open spec fn header_fields(mode: usize, partition: usize, rotation: usize, idx_mode: usize) -> Seq<
    (u32, u32),
> {
    let info = spec_mode_info(mode);
    seq![
        ((mode + 1) as u32, 1u32 << (mode as u32)),
        (info.partition_bits, partition as u32),
        (info.rotation_bits, rotation as u32),
        (info.index_selection_bits, idx_mode as u32),
    ]
}

/// The alpha endpoint fields of a block (none when the mode stores no
/// alpha).
pub open spec fn alpha_fields(mode: usize, start: Seq<[u8; 4]>, end: Seq<[u8; 4]>) -> Seq<(u32, u32)> {
    let info = spec_mode_info(mode);
    if info.alpha_bits > 0 {
        channel_fields(start, end, info.num_subsets, info.alpha_bits, 3)
    } else {
        Seq::empty()
    }
}

/// The number of p-bits of mode `mode`.
pub open spec fn pbit_count(mode: usize) -> int {
    let info = spec_mode_info(mode);
    info.num_subsets * (2 * info.endpoint_pbits + info.shared_pbits)
}

/// The p-bit fields of a block.
pub open spec fn pbit_fields(mode: usize, p_bits: Seq<u8>) -> Seq<(u32, u32)> {
    Seq::new(pbit_count(mode) as nat, |k: int| (1u32, p_bits[k] as u32))
}

/// The layout of a block of a mode other than 4 and 5, piece by piece.
proof fn lemma_layout_parts(
    mode: usize,
    partition: usize,
    rotation: usize,
    idx_mode: usize,
    start: Seq<[u8; 4]>,
    end: Seq<[u8; 4]>,
    p_bits: Seq<u8>,
    indices: Seq<u8>,
    alpha_indices: Seq<u8>,
    anchors: Seq<usize>,
)
    requires
        mode < 8,
    ensures
        ({
            let info = spec_mode_info(mode);
            let ns = info.num_subsets;
            let cb = info.color_bits;
            bc7_layout(
                mode,
                partition,
                rotation,
                idx_mode,
                start,
                end,
                p_bits,
                indices,
                alpha_indices,
                anchors,
            ) == header_fields(mode, partition, rotation, idx_mode) + channel_fields(
                start,
                end,
                ns,
                cb,
                0,
            ) + channel_fields(start, end, ns, cb, 1) + channel_fields(start, end, ns, cb, 2)
                + alpha_fields(mode, start, end) + pbit_fields(mode, p_bits) + idx_part(
                mode,
                idx_mode,
                indices,
                alpha_indices,
                anchors,
            )
        }),
{
}

/// Four fields take the sum of their widths.
proof fn lemma_pack_four(a: (u32, u32), b: (u32, u32), c: (u32, u32), d: (u32, u32))
    ensures
        pack_fields(seq![a, b, c, d]).1 == a.0 + b.0 + c.0 + d.0,
{
    assert(pack_fields(Seq::<(u32, u32)>::empty()).1 == 0);
    assert(seq![a].drop_last() =~= Seq::<(u32, u32)>::empty());
    assert(seq![a].last() == a);
    assert(pack_fields(seq![a]).1 == a.0);
    assert(seq![a, b].drop_last() =~= seq![a]);
    assert(seq![a, b].last() == b);
    assert(pack_fields(seq![a, b]).1 == a.0 + b.0);
    assert(seq![a, b, c].drop_last() =~= seq![a, b]);
    assert(seq![a, b, c].last() == c);
    assert(pack_fields(seq![a, b, c]).1 == a.0 + b.0 + c.0);
    assert(seq![a, b, c, d].drop_last() =~= seq![a, b, c]);
    assert(seq![a, b, c, d].last() == d);
}

/// Joining three runs of fields does not depend on the grouping.
proof fn lemma_assoc(a: Seq<(u32, u32)>, b: Seq<(u32, u32)>, c: Seq<(u32, u32)>)
    ensures
        a + b + c == a + (b + c),
{
    assert(a + b + c =~= a + (b + c));
}

/// Where the pieces of a block layout end.
#[verifier::rlimit(50)]
proof fn lemma_layout_offsets(
    mode: usize,
    partition: usize,
    rotation: usize,
    idx_mode: usize,
    start: Seq<[u8; 4]>,
    end: Seq<[u8; 4]>,
    p_bits: Seq<u8>,
)
    requires
        mode < 8,
    ensures
        ({
            let info = spec_mode_info(mode);
            let ns = info.num_subsets;
            let cb = info.color_bits;
            let h = header_fields(mode, partition, rotation, idx_mode);
            let c0 = channel_fields(start, end, ns, cb, 0);
            let c1 = channel_fields(start, end, ns, cb, 1);
            let c2 = channel_fields(start, end, ns, cb, 2);
            &&& pack_fields(h).1 == header_len(mode)
            &&& pack_fields(h + c0).1 == header_len(mode) + 2 * ns * cb
            &&& pack_fields(h + c0 + c1).1 == header_len(mode) + 4 * ns * cb
            &&& pack_fields(h + c0 + c1 + c2).1 == header_len(mode) + 6 * ns * cb
            &&& pack_fields(h + c0 + c1 + c2 + alpha_fields(mode, start, end)).1 == pbit_start(mode)
            &&& pack_fields(
                h + c0 + c1 + c2 + alpha_fields(mode, start, end) + pbit_fields(mode, p_bits),
            ).1 == index_start(mode)
        }),
{
    let info = spec_mode_info(mode);
    lemma_info_bounds(mode);
    let ns = info.num_subsets;
    let n2 = 2 * ns;
    let cb = info.color_bits;
    let ab = info.alpha_bits;
    let h = header_fields(mode, partition, rotation, idx_mode);
    let c0 = channel_fields(start, end, ns, cb, 0);
    let c1 = channel_fields(start, end, ns, cb, 1);
    let c2 = channel_fields(start, end, ns, cb, 2);
    let al = alpha_fields(mode, start, end);
    let pb = pbit_fields(mode, p_bits);
    lemma_pack_four(h[0], h[1], h[2], h[3]);
    assert(h =~= seq![h[0], h[1], h[2], h[3]]);
    assert(pack_fields(h).1 == header_len(mode));
    lemma_pack_uniform(c0, cb, n2 as int);
    lemma_pack_uniform(c1, cb, n2 as int);
    lemma_pack_uniform(c2, cb, n2 as int);
    assert(c0.take(n2 as int) =~= c0);
    assert(c1.take(n2 as int) =~= c1);
    assert(c2.take(n2 as int) =~= c2);
    lemma_pack_append(h, c0);
    lemma_pack_append(h + c0, c1);
    lemma_pack_append(h + c0 + c1, c2);
    lemma_pack_append(h + c0 + c1 + c2, al);
    lemma_pack_append(h + c0 + c1 + c2 + al, pb);
    if ab > 0 {
        lemma_pack_uniform(al, ab, n2 as int);
        assert(al.take(n2 as int) =~= al);
    } else {
        assert(al.len() == 0);
    }
    lemma_pack_uniform(pb, 1, pbit_count(mode));
    assert(pb.take(pbit_count(mode)) =~= pb);
    assert(pbit_start(mode) == header_len(mode) + 6 * ns * cb + 2 * ns * ab) by (nonlinear_arith)
        requires
            pbit_start(mode) == header_len(mode) + 2 * ns * (3 * cb + ab),
    ;
    assert(2 * ns * cb + 2 * ns * cb == 4 * ns * cb && 4 * ns * cb + 2 * ns * cb == 6 * ns * cb)
        by (nonlinear_arith);
    assert(pack_fields(c0).1 == n2 * cb);
    assert(pack_fields(h + c0).1 == header_len(mode) + 2 * ns * cb);
    assert(pack_fields(h + c0 + c1).1 == header_len(mode) + 4 * ns * cb);
    assert(pack_fields(h + c0 + c1 + c2).1 == header_len(mode) + 6 * ns * cb);
    assert(pack_fields(al).1 == 2 * ns * ab) by {
        if ab > 0 {
            assert(pack_fields(al).1 == n2 * ab);
        } else {
            assert(2 * ns * ab == 0) by (nonlinear_arith) requires ab == 0;
        }
    }
    assert(pack_fields(h + c0 + c1 + c2 + al).1 == pbit_start(mode));
    assert(pack_fields(pb).1 == pbit_count(mode));
}

/// Endpoint channel `c` (red, green or blue) of endpoint `j` of a written
/// block reads back cut to its width.
#[verifier::rlimit(60)]
proof fn lemma_endpoint_read_back(
    mode: usize,
    partition: usize,
    rotation: usize,
    idx_mode: usize,
    start: Seq<[u8; 4]>,
    end: Seq<[u8; 4]>,
    p_bits: Seq<u8>,
    indices: Seq<u8>,
    alpha_indices: Seq<u8>,
    anchors: Seq<usize>,
    c: int,
    j: int,
)
    requires
        mode < 8,
        0 <= c < 3,
        0 <= j < 2 * spec_mode_info(mode).num_subsets,
    ensures
        raw_endpoint(
            pack_fields(
                bc7_layout(
                    mode,
                    partition,
                    rotation,
                    idx_mode,
                    start,
                    end,
                    p_bits,
                    indices,
                    alpha_indices,
                    anchors,
                ),
            ).0,
            mode,
            c,
            j,
        ) == (((endpoint_of(start, end, j)[c] >> ((8 - spec_mode_info(mode).color_bits) as u8))
            as u32 as u128) & low_mask_128(spec_mode_info(mode).color_bits)) as u32,
{
    let info = spec_mode_info(mode);
    lemma_info_bounds(mode);
    let ns = info.num_subsets;
    let n2 = 2 * ns;
    let cb = info.color_bits;
    let l = bc7_layout(
        mode,
        partition,
        rotation,
        idx_mode,
        start,
        end,
        p_bits,
        indices,
        alpha_indices,
        anchors,
    );
    lemma_layout_parts(
        mode,
        partition,
        rotation,
        idx_mode,
        start,
        end,
        p_bits,
        indices,
        alpha_indices,
        anchors,
    );
    lemma_layout_offsets(mode, partition, rotation, idx_mode, start, end, p_bits);
    lemma_layout_bounds(
        mode,
        partition,
        rotation,
        idx_mode,
        start,
        end,
        p_bits,
        indices,
        alpha_indices,
        anchors,
    );
    lemma_pack_total(l);
    let h = header_fields(mode, partition, rotation, idx_mode);
    let c0 = channel_fields(start, end, ns, cb, 0);
    let c1 = channel_fields(start, end, ns, cb, 1);
    let c2 = channel_fields(start, end, ns, cb, 2);
    let tail = alpha_fields(mode, start, end) + pbit_fields(mode, p_bits) + idx_part(
        mode,
        idx_mode,
        indices,
        alpha_indices,
        anchors,
    );
    lemma_mode_sizes(mode);
    assert(pbit_start(mode) <= index_start(mode));
    lemma_pack_uniform(channel_fields(start, end, ns, cb, c), cb, j);
    assert((c * n2 + j) * cb == c * n2 * cb + j * cb) by (nonlinear_arith);
    assert(c * n2 * cb + j * cb + cb <= 6 * ns * cb) by (nonlinear_arith)
        requires
            0 <= c < 3,
            0 <= j < n2,
            n2 == 2 * ns,
            0 < cb,
    ;
    let al = alpha_fields(mode, start, end);
    let pb = pbit_fields(mode, p_bits);
    let ix = idx_part(mode, idx_mode, indices, alpha_indices, anchors);
    lemma_assoc(h + c0 + c1 + c2, al, pb);
    lemma_assoc(h + c0 + c1 + c2, al + pb, ix);
    lemma_assoc(al, pb, ix);
    assert(l == h + c0 + c1 + c2 + tail);
    if c == 0 {
        lemma_assoc(h + c0 + c1, c2, tail);
        lemma_assoc(h + c0, c1, c2 + tail);
        lemma_assoc(h, c0, c1 + (c2 + tail));
        assert(l == h + c0 + (c1 + (c2 + tail)));
        lemma_piece_read(h, c0, c1 + (c2 + tail), j);
    } else if c == 1 {
        lemma_assoc(h + c0 + c1, c2, tail);
        lemma_assoc(h + c0, c1, c2 + tail);
        assert(l == (h + c0) + c1 + (c2 + tail));
        lemma_piece_read(h + c0, c1, c2 + tail, j);
    } else {
        lemma_piece_read(h + c0 + c1, c2, tail, j);
    }
}

/// The common setting of the read-back lemmas: the layout of a block of
/// a mode other than 4 and 5 split into its pieces, and the bounds on it.
proof fn lemma_read_back_setup(
    mode: usize,
    partition: usize,
    rotation: usize,
    idx_mode: usize,
    start: Seq<[u8; 4]>,
    end: Seq<[u8; 4]>,
    p_bits: Seq<u8>,
    indices: Seq<u8>,
    alpha_indices: Seq<u8>,
    anchors: Seq<usize>,
)
    requires
        mode < 8,
    ensures
        ({
            let info = spec_mode_info(mode);
            let ns = info.num_subsets;
            let cb = info.color_bits;
            let l = bc7_layout(
                mode,
                partition,
                rotation,
                idx_mode,
                start,
                end,
                p_bits,
                indices,
                alpha_indices,
                anchors,
            );
            let h = header_fields(mode, partition, rotation, idx_mode);
            let c0 = channel_fields(start, end, ns, cb, 0);
            let c1 = channel_fields(start, end, ns, cb, 1);
            let c2 = channel_fields(start, end, ns, cb, 2);
            let al = alpha_fields(mode, start, end);
            let pb = pbit_fields(mode, p_bits);
            let ix = idx_part(mode, idx_mode, indices, alpha_indices, anchors);
            &&& l == (h + c0 + c1 + c2) + al + (pb + ix)
            &&& l == (h + c0 + c1 + c2 + al) + pb + ix
            &&& l == (h + c0 + c1 + c2 + al + pb) + ix + Seq::<(u32, u32)>::empty()
            &&& pack_fields(l).1 <= 0xFFFF_FFFF
            &&& pack_fields(h + c0 + c1 + c2).1 == header_len(mode) + 6 * ns * cb
            &&& pack_fields(h + c0 + c1 + c2 + al).1 == pbit_start(mode)
            &&& pack_fields(h + c0 + c1 + c2 + al + pb).1 == index_start(mode)
            &&& pbit_start(mode) + pbit_count(mode) == index_start(mode)
            &&& index_start(mode) <= 100
            &&& 1 <= ns <= 3
            &&& 2 <= info.index_bits <= 4
            &&& info.alpha_bits <= 8
        }),
{
    let info = spec_mode_info(mode);
    lemma_info_bounds(mode);
    lemma_mode_sizes(mode);
    let ns = info.num_subsets;
    let cb = info.color_bits;
    let l = bc7_layout(
        mode,
        partition,
        rotation,
        idx_mode,
        start,
        end,
        p_bits,
        indices,
        alpha_indices,
        anchors,
    );
    lemma_layout_parts(
        mode,
        partition,
        rotation,
        idx_mode,
        start,
        end,
        p_bits,
        indices,
        alpha_indices,
        anchors,
    );
    lemma_layout_offsets(mode, partition, rotation, idx_mode, start, end, p_bits);
    lemma_layout_bounds(
        mode,
        partition,
        rotation,
        idx_mode,
        start,
        end,
        p_bits,
        indices,
        alpha_indices,
        anchors,
    );
    lemma_pack_total(l);
    let h = header_fields(mode, partition, rotation, idx_mode);
    let c0 = channel_fields(start, end, ns, cb, 0);
    let c1 = channel_fields(start, end, ns, cb, 1);
    let c2 = channel_fields(start, end, ns, cb, 2);
    let al = alpha_fields(mode, start, end);
    let pb = pbit_fields(mode, p_bits);
    let ix = idx_part(mode, idx_mode, indices, alpha_indices, anchors);
    lemma_assoc(h + c0 + c1 + c2, al, pb + ix);
    lemma_assoc(h + c0 + c1 + c2 + al, pb, ix);
    assert((h + c0 + c1 + c2 + al + pb) + ix + Seq::<(u32, u32)>::empty() =~= (h + c0 + c1 + c2
        + al + pb) + ix);
}

/// The alpha channel of endpoint `j` of a written block reads back cut to
/// its width.
proof fn lemma_alpha_read_back(
    mode: usize,
    partition: usize,
    rotation: usize,
    idx_mode: usize,
    start: Seq<[u8; 4]>,
    end: Seq<[u8; 4]>,
    p_bits: Seq<u8>,
    indices: Seq<u8>,
    alpha_indices: Seq<u8>,
    anchors: Seq<usize>,
    j: int,
)
    requires
        mode < 8,
        spec_mode_info(mode).alpha_bits > 0,
        0 <= j < 2 * spec_mode_info(mode).num_subsets,
    ensures
        raw_endpoint(
            pack_fields(
                bc7_layout(
                    mode,
                    partition,
                    rotation,
                    idx_mode,
                    start,
                    end,
                    p_bits,
                    indices,
                    alpha_indices,
                    anchors,
                ),
            ).0,
            mode,
            3,
            j,
        ) == (((endpoint_of(start, end, j)[3] >> ((8 - spec_mode_info(mode).alpha_bits) as u8))
            as u32 as u128) & low_mask_128(spec_mode_info(mode).alpha_bits)) as u32,
{
    let info = spec_mode_info(mode);
    let ns = info.num_subsets;
    let ab = info.alpha_bits;
    lemma_read_back_setup(
        mode,
        partition,
        rotation,
        idx_mode,
        start,
        end,
        p_bits,
        indices,
        alpha_indices,
        anchors,
    );
    let cb = info.color_bits;
    let h = header_fields(mode, partition, rotation, idx_mode);
    let c0 = channel_fields(start, end, ns, cb, 0);
    let c1 = channel_fields(start, end, ns, cb, 1);
    let c2 = channel_fields(start, end, ns, cb, 2);
    let al = alpha_fields(mode, start, end);
    let pb = pbit_fields(mode, p_bits);
    let ix = idx_part(mode, idx_mode, indices, alpha_indices, anchors);
    lemma_pack_uniform(al, ab, j);
    assert(j * ab + ab <= 2 * ns * ab) by (nonlinear_arith)
        requires
            0 <= j < 2 * ns,
            0 < ab,
    ;
    assert(pbit_start(mode) == header_len(mode) + 6 * ns * cb + 2 * ns * ab) by (nonlinear_arith)
        requires
            pbit_start(mode) == header_len(mode) + 2 * ns * (3 * cb + ab),
    ;
    assert(3 * (2 * ns) * cb == 6 * ns * cb) by (nonlinear_arith);
    lemma_piece_read(h + c0 + c1 + c2, al, pb + ix, j);
}

/// P-bit `k` of a written block reads back.
proof fn lemma_pbit_read_back(
    mode: usize,
    partition: usize,
    rotation: usize,
    idx_mode: usize,
    start: Seq<[u8; 4]>,
    end: Seq<[u8; 4]>,
    p_bits: Seq<u8>,
    indices: Seq<u8>,
    alpha_indices: Seq<u8>,
    anchors: Seq<usize>,
    k: int,
)
    requires
        mode < 8,
        0 <= k < pbit_count(mode),
    ensures
        spec_read_bits(
            pack_fields(
                bc7_layout(
                    mode,
                    partition,
                    rotation,
                    idx_mode,
                    start,
                    end,
                    p_bits,
                    indices,
                    alpha_indices,
                    anchors,
                ),
            ).0,
            (pbit_start(mode) + k) as u32,
            1,
        ) == ((p_bits[k] as u32 as u128) & low_mask_128(1)) as u32,
{
    let info = spec_mode_info(mode);
    let ns = info.num_subsets;
    lemma_read_back_setup(
        mode,
        partition,
        rotation,
        idx_mode,
        start,
        end,
        p_bits,
        indices,
        alpha_indices,
        anchors,
    );
    let cb = info.color_bits;
    let h = header_fields(mode, partition, rotation, idx_mode);
    let c0 = channel_fields(start, end, ns, cb, 0);
    let c1 = channel_fields(start, end, ns, cb, 1);
    let c2 = channel_fields(start, end, ns, cb, 2);
    let al = alpha_fields(mode, start, end);
    let pb = pbit_fields(mode, p_bits);
    let ix = idx_part(mode, idx_mode, indices, alpha_indices, anchors);
    lemma_pack_uniform(pb, 1, k);
    lemma_piece_read(h + c0 + c1 + c2 + al, pb, ix, k);
}

/// The colour index of pixel `i` of a written block reads back cut to its
/// width, when the index fields end inside the block.
proof fn lemma_index_read_back(
    mode: usize,
    partition: usize,
    rotation: usize,
    idx_mode: usize,
    start: Seq<[u8; 4]>,
    end: Seq<[u8; 4]>,
    p_bits: Seq<u8>,
    indices: Seq<u8>,
    alpha_indices: Seq<u8>,
    anchors: Seq<usize>,
    i: int,
)
    requires
        mode < 8,
        mode != 4 && mode != 5,
        0 <= i < 16,
        index_offset(
            index_start(mode),
            spec_mode_info(mode).index_bits as int,
            spec_mode_info(mode).num_subsets,
            anchors[0],
            anchors[1],
            16,
        ) <= 128,
    ensures
        run_index(
            pack_fields(
                bc7_layout(
                    mode,
                    partition,
                    rotation,
                    idx_mode,
                    start,
                    end,
                    p_bits,
                    indices,
                    alpha_indices,
                    anchors,
                ),
            ).0,
            index_start(mode),
            spec_mode_info(mode).index_bits as int,
            spec_mode_info(mode).num_subsets,
            anchors[0],
            anchors[1],
            i,
        ) == (((indices[i] as u32 as u128) & low_mask_128(
            index_width(
                spec_mode_info(mode).index_bits as int,
                spec_mode_info(mode).num_subsets,
                anchors[0],
                anchors[1],
                i,
            ) as u32,
        )) as u32) as u8,
{
    let info = spec_mode_info(mode);
    let ns = info.num_subsets;
    let ib = info.index_bits;
    lemma_read_back_setup(
        mode,
        partition,
        rotation,
        idx_mode,
        start,
        end,
        p_bits,
        indices,
        alpha_indices,
        anchors,
    );
    let cb = info.color_bits;
    let h = header_fields(mode, partition, rotation, idx_mode);
    let c0 = channel_fields(start, end, ns, cb, 0);
    let c1 = channel_fields(start, end, ns, cb, 1);
    let c2 = channel_fields(start, end, ns, cb, 2);
    let al = alpha_fields(mode, start, end);
    let pb = pbit_fields(mode, p_bits);
    let ix = index_fields(ib, ns, anchors[0], anchors[1], indices);
    let base = h + c0 + c1 + c2 + al + pb;
    assert(idx_part(mode, idx_mode, indices, alpha_indices, anchors) == ix);
    lemma_pack_indices(ib, ns, anchors[0], anchors[1], indices, index_start(mode), i);
    lemma_pack_indices(ib, ns, anchors[0], anchors[1], indices, index_start(mode), i + 1);
    lemma_index_offset_monotone(index_start(mode), ib as int, ns, anchors[0], anchors[1], i + 1, 16);
    assert(index_offset(index_start(mode), ib as int, ns, anchors[0], anchors[1], i + 1)
        == index_offset(index_start(mode), ib as int, ns, anchors[0], anchors[1], i) + index_width(
        ib as int,
        ns,
        anchors[0],
        anchors[1],
        i,
    ));
    assert(ix[i].0 == index_width(ib as int, ns, anchors[0], anchors[1], i));
    lemma_piece_read(base, ix, Seq::empty(), i);
}

/// The colour and alpha index widths of modes 4 and 5.
pub open spec fn split_pair(mode: usize, idx_mode: usize) -> (u32, u32) {
    if mode == 4 {
        if idx_mode == 0 {
            (2, 3)
        } else {
            (3, 2)
        }
    } else {
        (2, 2)
    }
}

/// In modes 4 and 5, the colour index (`alpha` false) or alpha index
/// (`alpha` true) of pixel `i` of a written block reads back cut to its
/// width.
proof fn lemma_split_index_read_back(
    mode: usize,
    partition: usize,
    rotation: usize,
    idx_mode: usize,
    start: Seq<[u8; 4]>,
    end: Seq<[u8; 4]>,
    p_bits: Seq<u8>,
    indices: Seq<u8>,
    alpha_indices: Seq<u8>,
    anchors: Seq<usize>,
    alpha: bool,
    i: int,
)
    requires
        mode == 4 || mode == 5,
        0 <= i < 16,
    ensures
        ({
            let (cw, aw) = split_pair(mode, idx_mode);
            let v = pack_fields(
                bc7_layout(
                    mode,
                    partition,
                    rotation,
                    idx_mode,
                    start,
                    end,
                    p_bits,
                    indices,
                    alpha_indices,
                    anchors,
                ),
            ).0;
            if alpha {
                run_index(v, index_start(mode) + 16 * cw - 1, aw as int, 1, 0, 0, i) == (((
                alpha_indices[i] as u32 as u128) & low_mask_128(
                    index_width(aw as int, 1, 0, 0, i) as u32,
                )) as u32) as u8
            } else {
                run_index(v, index_start(mode), cw as int, 1, 0, 0, i) == (((indices[i] as u32
                    as u128) & low_mask_128(index_width(cw as int, 1, 0, 0, i) as u32)) as u32) as u8
            }
        }),
{
    let info = spec_mode_info(mode);
    let ns = info.num_subsets;
    let (cw, aw) = split_pair(mode, idx_mode);
    lemma_read_back_setup(
        mode,
        partition,
        rotation,
        idx_mode,
        start,
        end,
        p_bits,
        indices,
        alpha_indices,
        anchors,
    );
    lemma_index_start(mode);
    let cb = info.color_bits;
    let h = header_fields(mode, partition, rotation, idx_mode);
    let c0 = channel_fields(start, end, ns, cb, 0);
    let c1 = channel_fields(start, end, ns, cb, 1);
    let c2 = channel_fields(start, end, ns, cb, 2);
    let al = alpha_fields(mode, start, end);
    let pb = pbit_fields(mode, p_bits);
    let base = h + c0 + c1 + c2 + al + pb;
    let ci = index_fields(cw, 1, 0, 0, indices);
    let ai = index_fields(aw, 1, 0, 0, alpha_indices);
    assert(idx_part(mode, idx_mode, indices, alpha_indices, anchors) == ci + ai);
    let s0 = index_start(mode);
    lemma_single_anchor_run(s0, cw as int);
    lemma_single_anchor_run(s0 + 16 * cw - 1, aw as int);
    lemma_pack_indices(cw, 1, 0, 0, indices, s0, 16);
    assert(ci.take(16) =~= ci);
    if alpha {
        let s1 = s0 + 16 * cw - 1;
        lemma_pack_indices(aw, 1, 0, 0, alpha_indices, s1, i);
        lemma_pack_indices(aw, 1, 0, 0, alpha_indices, s1, i + 1);
        lemma_index_offset_monotone(s1, aw as int, 1, 0, 0, i + 1, 16);
        assert(ai[i].0 == index_width(aw as int, 1, 0, 0, i));
        lemma_pack_append(base, ci);
        lemma_assoc(base, ci, ai);
        assert(base + ci + ai + Seq::<(u32, u32)>::empty() =~= base + ci + ai);
        lemma_piece_read(base + ci, ai, Seq::empty(), i);
    } else {
        lemma_pack_indices(cw, 1, 0, 0, indices, s0, i);
        lemma_pack_indices(cw, 1, 0, 0, indices, s0, i + 1);
        lemma_index_offset_monotone(s0, cw as int, 1, 0, 0, i + 1, 16);
        assert(ci[i].0 == index_width(cw as int, 1, 0, 0, i));
        lemma_assoc(base, ci, ai);
        lemma_piece_read(base, ci, ai, i);
    }
}

/// A BC7 block written by `write_bc7_block` reads back, as a decoder
/// reads it, with every colour and alpha endpoint channel, p-bit, colour
/// index and (in modes 4 and 5) alpha index that was written, each cut to
/// the width of its field, provided (outside modes 4 and 5) the index
/// fields that the anchors give end inside the block.
pub proof fn lemma_bc7_fields_read_back(
    mode: usize,
    partition: usize,
    rotation: usize,
    idx_mode: usize,
    start: Seq<[u8; 4]>,
    end: Seq<[u8; 4]>,
    p_bits: Seq<u8>,
    indices: Seq<u8>,
    alpha_indices: Seq<u8>,
    anchors: Seq<usize>,
)
    requires
        mode < 8,
        mode != 4 && mode != 5 ==> index_offset(
            index_start(mode),
            spec_mode_info(mode).index_bits as int,
            spec_mode_info(mode).num_subsets,
            anchors[0],
            anchors[1],
            16,
        ) <= 128,
    ensures
        ({
            let info = spec_mode_info(mode);
            let v = pack_fields(
                bc7_layout(
                    mode,
                    partition,
                    rotation,
                    idx_mode,
                    start,
                    end,
                    p_bits,
                    indices,
                    alpha_indices,
                    anchors,
                ),
            ).0;
            &&& forall|c: int, j: int|
                0 <= c < 3 && 0 <= j < 2 * info.num_subsets ==> #[trigger] raw_endpoint(v, mode, c, j)
                    == (((endpoint_of(start, end, j)[c] >> ((8 - info.color_bits) as u8)) as u32
                    as u128) & low_mask_128(info.color_bits)) as u32
            &&& info.alpha_bits > 0 ==> forall|j: int|
                0 <= j < 2 * info.num_subsets ==> #[trigger] raw_endpoint(v, mode, 3, j) == (((
                endpoint_of(start, end, j)[3] >> ((8 - info.alpha_bits) as u8)) as u32 as u128)
                & low_mask_128(info.alpha_bits)) as u32
            &&& forall|k: int|
                0 <= k < pbit_count(mode) ==> #[trigger] spec_read_bits(
                    v,
                    (pbit_start(mode) + k) as u32,
                    1,
                ) == ((p_bits[k] as u32 as u128) & low_mask_128(1)) as u32
            &&& mode != 4 && mode != 5 ==> forall|i: int|
                0 <= i < 16 ==> #[trigger] run_index(
                    v,
                    index_start(mode),
                    info.index_bits as int,
                    info.num_subsets,
                    anchors[0],
                    anchors[1],
                    i,
                ) == (((indices[i] as u32 as u128) & low_mask_128(
                    index_width(
                        info.index_bits as int,
                        info.num_subsets,
                        anchors[0],
                        anchors[1],
                        i,
                    ) as u32,
                )) as u32) as u8
            &&& (mode == 4 || mode == 5) ==> forall|i: int|
                0 <= i < 16 ==> #[trigger] run_index(
                    v,
                    index_start(mode),
                    split_pair(mode, idx_mode).0 as int,
                    1,
                    0,
                    0,
                    i,
                ) == (((indices[i] as u32 as u128) & low_mask_128(
                    index_width(split_pair(mode, idx_mode).0 as int, 1, 0, 0, i) as u32,
                )) as u32) as u8 && run_index(
                    v,
                    index_start(mode) + 16 * split_pair(mode, idx_mode).0 - 1,
                    split_pair(mode, idx_mode).1 as int,
                    1,
                    0,
                    0,
                    i,
                ) == (((alpha_indices[i] as u32 as u128) & low_mask_128(
                    index_width(split_pair(mode, idx_mode).1 as int, 1, 0, 0, i) as u32,
                )) as u32) as u8
        }),
{
    let info = spec_mode_info(mode);
    let v = pack_fields(
        bc7_layout(
            mode,
            partition,
            rotation,
            idx_mode,
            start,
            end,
            p_bits,
            indices,
            alpha_indices,
            anchors,
        ),
    ).0;
    assert forall|c: int, j: int| 0 <= c < 3 && 0 <= j < 2 * info.num_subsets implies #[trigger]
        raw_endpoint(v, mode, c, j) == (((endpoint_of(start, end, j)[c] >> ((8 - info.color_bits)
        as u8)) as u32 as u128) & low_mask_128(info.color_bits)) as u32 by {
        lemma_endpoint_read_back(
            mode,
            partition,
            rotation,
            idx_mode,
            start,
            end,
            p_bits,
            indices,
            alpha_indices,
            anchors,
            c,
            j,
        );
    }
    if info.alpha_bits > 0 {
        assert forall|j: int| 0 <= j < 2 * info.num_subsets implies #[trigger] raw_endpoint(
            v,
            mode,
            3,
            j,
        ) == (((endpoint_of(start, end, j)[3] >> ((8 - info.alpha_bits) as u8)) as u32 as u128)
            & low_mask_128(info.alpha_bits)) as u32 by {
            lemma_alpha_read_back(
                mode,
                partition,
                rotation,
                idx_mode,
                start,
                end,
                p_bits,
                indices,
                alpha_indices,
                anchors,
                j,
            );
        }
    }
    assert forall|k: int| 0 <= k < pbit_count(mode) implies #[trigger] spec_read_bits(
        v,
        (pbit_start(mode) + k) as u32,
        1,
    ) == ((p_bits[k] as u32 as u128) & low_mask_128(1)) as u32 by {
        lemma_pbit_read_back(
            mode,
            partition,
            rotation,
            idx_mode,
            start,
            end,
            p_bits,
            indices,
            alpha_indices,
            anchors,
            k,
        );
    }
    if mode != 4 && mode != 5 {
        assert forall|i: int| 0 <= i < 16 implies #[trigger] run_index(
            v,
            index_start(mode),
            info.index_bits as int,
            info.num_subsets,
            anchors[0],
            anchors[1],
            i,
        ) == (((indices[i] as u32 as u128) & low_mask_128(
            index_width(info.index_bits as int, info.num_subsets, anchors[0], anchors[1], i) as u32,
        )) as u32) as u8 by {
            lemma_index_read_back(
                mode,
                partition,
                rotation,
                idx_mode,
                start,
                end,
                p_bits,
                indices,
                alpha_indices,
                anchors,
                i,
            );
        }
    } else {
        assert forall|i: int| 0 <= i < 16 implies #[trigger] run_index(
            v,
            index_start(mode),
            split_pair(mode, idx_mode).0 as int,
            1,
            0,
            0,
            i,
        ) == (((indices[i] as u32 as u128) & low_mask_128(
            index_width(split_pair(mode, idx_mode).0 as int, 1, 0, 0, i) as u32,
        )) as u32) as u8 && run_index(
            v,
            index_start(mode) + 16 * split_pair(mode, idx_mode).0 - 1,
            split_pair(mode, idx_mode).1 as int,
            1,
            0,
            0,
            i,
        ) == (((alpha_indices[i] as u32 as u128) & low_mask_128(
            index_width(split_pair(mode, idx_mode).1 as int, 1, 0, 0, i) as u32,
        )) as u32) as u8 by {
            lemma_split_index_read_back(
                mode,
                partition,
                rotation,
                idx_mode,
                start,
                end,
                p_bits,
                indices,
                alpha_indices,
                anchors,
                false,
                i,
            );
            lemma_split_index_read_back(
                mode,
                partition,
                rotation,
                idx_mode,
                start,
                end,
                p_bits,
                indices,
                alpha_indices,
                anchors,
                true,
                i,
            );
        }
    }
}

/// Index offsets only grow.
proof fn lemma_index_offset_monotone(start: int, ib: int, ns: usize, a1: usize, a2: usize, i: int, j: int)
    requires
        0 <= i <= j,
        ib >= 1,
    ensures
        index_offset(start, ib, ns, a1, a2, i) <= index_offset(start, ib, ns, a1, a2, j),
    decreases j - i,
{
    if i < j {
        lemma_index_offset_monotone(start, ib, ns, a1, a2, i, j - 1);
    }
}
} // verus!
