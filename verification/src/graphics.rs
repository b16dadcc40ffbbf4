use vstd::prelude::*;

use crate::assets::ResourceHandle;

verus! {

/// A decoded sprite: its size in pixels and its RGBA pixel bytes, four per
/// pixel.  The driver uploads these to the rendering backend.
pub struct SpriteData {
    width: u32,
    height: u32,
    pixels: Vec<u8>,
}

impl SpriteData {
    /// The width in pixels.
    pub closed spec fn spec_width(&self) -> u32 {
        self.width
    }

    /// The height in pixels.
    pub closed spec fn spec_height(&self) -> u32 {
        self.height
    }

    /// The RGBA pixel bytes, row by row.
    pub closed spec fn spec_pixels(&self) -> Seq<u8> {
        self.pixels@
    }

    #[verifier::type_invariant]
    spec fn wf(self) -> bool {
        self.pixels@.len() == 4 * (self.width as nat) * (self.height as nat)
    }

    /// Builds a sprite from its size and RGBA bytes; rejects a pixel list
    /// whose length is not exactly four bytes per pixel.
    pub fn new(width: u32, height: u32, pixels: Vec<u8>) -> (r: Option<SpriteData>)
        ensures
            r is Some <==> pixels@.len() == 4 * (width as nat) * (height as nat),
            r matches Some(s) ==> s.spec_width() == width && s.spec_height() == height
                && s.spec_pixels() == pixels@,
    {
        proof {
            assert((width as u128) * (height as u128) <= 0xffff_ffff_ffff_ffffu128)
                by (nonlinear_arith)
                requires
                    width as u128 <= 0xffff_ffffu128,
                    height as u128 <= 0xffff_ffffu128,
            ;
            assert(4 * ((width as int) * (height as int)) == 4 * (width as int) * (height as int))
                by (nonlinear_arith);
        }
        if pixels.len() as u128 == 4u128 * ((width as u128) * (height as u128)) {
            Some(SpriteData { width, height, pixels })
        } else {
            None
        }
    }

    /// The width of the sprite.
    pub fn width(&self) -> (r: u32)
        ensures
            r == self.spec_width(),
    {
        self.width
    }

    /// The height of the sprite.
    pub fn height(&self) -> (r: u32)
        ensures
            r == self.spec_height(),
    {
        self.height
    }

    /// The RGBA pixel bytes, row by row, four per pixel.
    pub fn inner(&self) -> (r: &Vec<u8>)
        ensures
            r@ == self.spec_pixels(),
            r@.len() == 4 * (self.spec_width() as nat) * (self.spec_height() as nat),
    {
        proof {
            use_type_invariant(&*self);
        }
        &self.pixels
    }

}


/// One queued draw: the sprite it samples (`None` for the blank image), how
/// many vertices it appends, and its indices into those vertices.
pub struct DrawCommand {
    pub sprite: Option<ResourceHandle>,
    pub vert_count: usize,
    pub indices: Vec<u16>,
}

/// One batch: a run of consecutive queued draws sharing one sprite, as a
/// range of the combined index list.
pub struct DrawBatch {
    pub sprite: Option<ResourceHandle>,
    pub start: usize,
    pub count: usize,
}

/// The number of vertices the first `k` queued draws append.
pub open spec fn verts_before(cmds: Seq<DrawCommand>, k: int) -> int
    decreases k,
{
    if k <= 0 {
        0
    } else {
        verts_before(cmds, k - 1) + cmds[k - 1].vert_count
    }
}

/// The number of indices the first `k` queued draws contribute.
pub open spec fn indices_before(cmds: Seq<DrawCommand>, k: int) -> int
    decreases k,
{
    if k <= 0 {
        0
    } else {
        indices_before(cmds, k - 1) + cmds[k - 1].indices@.len()
    }
}

/// Which batch the draw at position `k` belongs to: a draw that shares its
/// sprite with its predecessor shares its batch.
pub open spec fn batch_of(cmds: Seq<DrawCommand>, k: int) -> int
    decreases k,
{
    if k <= 0 {
        0
    } else if cmds[k].sprite == cmds[k - 1].sprite {
        batch_of(cmds, k - 1)
    } else {
        batch_of(cmds, k - 1) + 1
    }
}

/// Whether every index of every queued draw refers to one of that draw's own
/// vertices.
pub open spec fn commands_indices_in_bounds(cmds: Seq<DrawCommand>) -> bool {
    forall|k: int, j: int|
        #![trigger cmds[k].indices@[j]]
        0 <= k < cmds.len() && 0 <= j < cmds[k].indices@.len() ==> (cmds[k].indices@[j] as int)
            < cmds[k].vert_count
}

fn same_sprite(a: Option<ResourceHandle>, b: Option<ResourceHandle>) -> (r: bool)
    ensures
        r == (a == b),
{
    match (a, b) {
        (None, None) => true,
        (Some(x), Some(y)) => x == y,
        _ => false,
    }
}

/// Merges the queued draws into one index list and its batches, as the
/// renderer commits a frame: each draw's indices are shifted by the number
/// of vertices the draws before it appended, and consecutive draws sharing a
/// sprite fold into one batch, batches covering the index list in order and
/// without gaps.
#[verifier::rlimit(100)]
pub fn batch_draw_commands(cmds: &Vec<DrawCommand>) -> (r: (Vec<u16>, Vec<DrawBatch>))
    requires
        verts_before(cmds@, cmds@.len() as int) <= u16::MAX as int,
        commands_indices_in_bounds(cmds@),
    ensures
        r.0@.len() == indices_before(cmds@, cmds@.len() as int),
        forall|k: int, j: int|
            #![trigger cmds@[k].indices@[j]]
            0 <= k < cmds@.len() && 0 <= j < cmds@[k].indices@.len() ==> r.0@[indices_before(
                cmds@,
                k,
            ) + j] == cmds@[k].indices@[j] + verts_before(cmds@, k),
        r.1@.len() == if cmds@.len() == 0 {
            0int
        } else {
            batch_of(cmds@, cmds@.len() - 1) + 1
        },
        forall|k: int|
            0 <= k < cmds@.len() ==> (#[trigger] r.1@[batch_of(cmds@, k)]).sprite
                == cmds@[k].sprite,
        forall|b: int|
            0 <= b < r.1@.len() ==> (#[trigger] r.1@[b]).start == if b == 0 {
                0int
            } else {
                r.1@[b - 1].start + r.1@[b - 1].count
            },
        cmds@.len() > 0 ==> r.1@.last().start + r.1@.last().count == indices_before(
            cmds@,
            cmds@.len() as int,
        ),
        forall|k: int|
            0 <= k < cmds@.len() ==> (#[trigger] r.1@[batch_of(cmds@, k)]).start
                <= indices_before(cmds@, k) && indices_before(cmds@, k + 1) <= r.1@[batch_of(
                cmds@,
                k,
            )].start + r.1@[batch_of(cmds@, k)].count,
{
    let n = cmds.len();
    let mut indices: Vec<u16> = Vec::new();
    let mut batches: Vec<DrawBatch> = Vec::new();
    if n == 0 {
        return (indices, batches);
    }
    let mut cur_sprite = cmds[0].sprite;
    let mut begin: usize = 0;
    let mut verts: usize = 0;
    let ghost gcmds = cmds@;
    let ghost mut bstart: int = 0;
    let mut k: usize = 0;
    while k < n
        invariant
            n == gcmds.len(),
            gcmds == cmds@,
            0 <= k <= n,
            n > 0,
            verts_before(gcmds, n as int) <= u16::MAX as int,
            commands_indices_in_bounds(gcmds),
            verts == verts_before(gcmds, k as int),
            indices@.len() == indices_before(gcmds, k as int),
            forall|k2: int, j2: int|
                #![trigger gcmds[k2].indices@[j2]]
                0 <= k2 < k && 0 <= j2 < gcmds[k2].indices@.len() ==> indices@[indices_before(
                    gcmds,
                    k2,
                ) + j2] == gcmds[k2].indices@[j2] + verts_before(gcmds, k2),
            k == 0 ==> batches@.len() == 0 && cur_sprite == gcmds[0].sprite && begin == 0
                && bstart == 0,
            k > 0 ==> {
                &&& batches@.len() == batch_of(gcmds, k - 1)
                &&& 0 <= bstart < k
                &&& batch_of(gcmds, bstart) == batch_of(gcmds, k - 1)
                &&& bstart == 0 || gcmds[bstart].sprite != gcmds[bstart - 1].sprite
                &&& begin == indices_before(gcmds, bstart)
                &&& cur_sprite == gcmds[k - 1].sprite
                &&& forall|t: int| bstart <= t < k ==> (#[trigger] gcmds[t]).sprite == cur_sprite
            },
            forall|b: int|
                0 <= b < batches@.len() ==> (#[trigger] batches@[b]).start == if b == 0 {
                    0int
                } else {
                    batches@[b - 1].start + batches@[b - 1].count
                },
            batches@.len() > 0 ==> batches@.last().start + batches@.last().count == begin,
            forall|k2: int|
                0 <= k2 < bstart ==> (#[trigger] batches@[batch_of(gcmds, k2)]).sprite
                    == gcmds[k2].sprite,
            forall|k2: int|
                0 <= k2 < bstart ==> (#[trigger] batches@[batch_of(gcmds, k2)]).start
                    <= indices_before(gcmds, k2) && indices_before(gcmds, k2 + 1)
                    <= batches@[batch_of(gcmds, k2)].start + batches@[batch_of(gcmds, k2)].count,
        decreases n - k,
    {
        let c_sprite = cmds[k].sprite;
        if k > 0 && !same_sprite(c_sprite, cur_sprite) {
            proof {
                lemma_indices_before_monotone(gcmds, bstart, k as int);
            }
            let count = indices.len() - begin;
            let ghost b0 = batches@;
            batches.push(DrawBatch { sprite: cur_sprite, start: begin, count });
            proof {
                assert(batch_of(gcmds, k as int) == batch_of(gcmds, k - 1) + 1);
                if bstart > 0 && b0.len() == 0 {
                    lemma_batch_of_nonneg(gcmds, bstart - 1);
                    assert(false);
                }
                assert forall|k2: int| 0 <= k2 < k implies {
                    &&& (#[trigger] batches@[batch_of(gcmds, k2)]).sprite == gcmds[k2].sprite
                    &&& batches@[batch_of(gcmds, k2)].start <= indices_before(gcmds, k2)
                    &&& indices_before(gcmds, k2 + 1) <= batches@[batch_of(gcmds, k2)].start
                        + batches@[batch_of(gcmds, k2)].count
                } by {
                    if k2 >= bstart {
                        lemma_batch_of_run(gcmds, bstart, k2);
                        assert(batch_of(gcmds, k2) == b0.len());
                        assert(batches@[batch_of(gcmds, k2)] == batches@.last());
                        lemma_indices_before_monotone(gcmds, bstart, k2);
                        lemma_indices_before_monotone(gcmds, k2 + 1, k as int);
                    } else {
                        lemma_batch_of_nonneg(gcmds, k2);
                        lemma_batch_of_monotone(gcmds, k2, bstart - 1);
                        assert(batch_of(gcmds, bstart) == batch_of(gcmds, bstart - 1) + 1);
                        assert(batches@[batch_of(gcmds, k2)] == b0[batch_of(gcmds, k2)]);
                    }
                }
                bstart = k as int;
            }
            cur_sprite = c_sprite;
            begin = indices.len();
        }
        let m = cmds[k].indices.len();
        let mut j: usize = 0;
        while j < m
            invariant
                n == gcmds.len(),
                gcmds == cmds@,
                0 <= k < n,
                m == gcmds[k as int].indices@.len(),
                0 <= j <= m,
                commands_indices_in_bounds(gcmds),
                verts_before(gcmds, n as int) <= u16::MAX as int,
                verts == verts_before(gcmds, k as int),
                indices@.len() == indices_before(gcmds, k as int) + j,
                forall|k2: int, j2: int|
                    #![trigger gcmds[k2].indices@[j2]]
                    0 <= k2 < k && 0 <= j2 < gcmds[k2].indices@.len() ==> indices@[indices_before(
                        gcmds,
                        k2,
                    ) + j2] == gcmds[k2].indices@[j2] + verts_before(gcmds, k2),
                forall|j2: int|
                    #![trigger gcmds[k as int].indices@[j2]]
                    0 <= j2 < j ==> indices@[indices_before(gcmds, k as int) + j2] == gcmds[
                        k as int].indices@[j2] + verts_before(gcmds, k as int),
            decreases m - j,
        {
            let ghost ind0 = indices@;
            proof {
                assert((gcmds[k as int].indices@[j as int] as int) < gcmds[k as int].vert_count);
                lemma_verts_before_monotone(gcmds, k as int + 1, n as int);
            }
            let idx = cmds[k].indices[j];
            indices.push(idx + verts as u16);
            proof {
                assert forall|k2: int, j2: int|
                    #![trigger gcmds[k2].indices@[j2]]
                    0 <= k2 < k && 0 <= j2 < gcmds[k2].indices@.len() implies indices@[
                indices_before(gcmds, k2) + j2] == gcmds[k2].indices@[j2] + verts_before(
                    gcmds,
                    k2,
                ) by {
                    lemma_indices_before_monotone(gcmds, 0, k2);
                    lemma_indices_before_monotone(gcmds, k2 + 1, k as int);
                    assert(indices@[indices_before(gcmds, k2) + j2] == ind0[indices_before(
                        gcmds,
                        k2,
                    ) + j2]);
                }
                assert forall|j2: int|
                    #![trigger gcmds[k as int].indices@[j2]]
                    0 <= j2 < j + 1 implies indices@[indices_before(gcmds, k as int) + j2]
                    == gcmds[k as int].indices@[j2] + verts_before(gcmds, k as int) by {
                    if j2 < j {
                        lemma_indices_before_monotone(gcmds, 0, k as int);
                        assert(indices@[indices_before(gcmds, k as int) + j2] == ind0[
                        indices_before(gcmds, k as int) + j2]);
                    } else {
                        assert(indices@.len() - 1 == indices_before(gcmds, k as int) + j2);
                        assert(indices@.last() == gcmds[k as int].indices@[j as int]
                            + verts_before(gcmds, k as int));
                    }
                }
            }
            j += 1;
        }
        proof {
            lemma_verts_before_monotone(gcmds, k as int + 1, n as int);
        }
        verts = verts + cmds[k].vert_count;
        k += 1;
    }
    proof {
        lemma_indices_before_monotone(gcmds, bstart, n as int);
    }
    let count = indices.len() - begin;
    let ghost b0 = batches@;
    batches.push(DrawBatch { sprite: cur_sprite, start: begin, count });
    proof {
        if bstart > 0 && b0.len() == 0 {
            lemma_batch_of_nonneg(gcmds, bstart - 1);
            assert(false);
        }
        assert forall|k2: int| 0 <= k2 < n implies {
            &&& (#[trigger] batches@[batch_of(gcmds, k2)]).sprite == gcmds[k2].sprite
            &&& batches@[batch_of(gcmds, k2)].start <= indices_before(gcmds, k2)
            &&& indices_before(gcmds, k2 + 1) <= batches@[batch_of(gcmds, k2)].start + batches@[
            batch_of(gcmds, k2)].count
        } by {
            if k2 >= bstart {
                lemma_batch_of_run(gcmds, bstart, k2);
                assert(batch_of(gcmds, k2) == b0.len());
                assert(batches@[batch_of(gcmds, k2)] == batches@.last());
                lemma_indices_before_monotone(gcmds, bstart, k2);
                lemma_indices_before_monotone(gcmds, k2 + 1, n as int);
            } else {
                lemma_batch_of_nonneg(gcmds, k2);
                lemma_batch_of_monotone(gcmds, k2, bstart - 1);
                assert(batch_of(gcmds, bstart) == batch_of(gcmds, bstart - 1) + 1);
                assert(batches@[batch_of(gcmds, k2)] == b0[batch_of(gcmds, k2)]);
            }
        }
    }
    (indices, batches)
}

proof fn lemma_batch_of_nonneg(cmds: Seq<DrawCommand>, b: int)
    ensures
        0 <= batch_of(cmds, b),
    decreases (if b >= 0 { b } else { 0int }),
{
    if b > 0 {
        lemma_batch_of_nonneg(cmds, b - 1);
    }
}

proof fn lemma_batch_of_monotone(cmds: Seq<DrawCommand>, a: int, b: int)
    requires
        a <= b,
    ensures
        batch_of(cmds, a) <= batch_of(cmds, b),
    decreases b - a,
{
    if a < b {
        lemma_batch_of_monotone(cmds, a, b - 1);
    }
}

proof fn lemma_verts_before_monotone(cmds: Seq<DrawCommand>, a: int, b: int)
    requires
        a <= b,
    ensures
        verts_before(cmds, a) <= verts_before(cmds, b),
    decreases b - a,
{
    if a < b {
        lemma_verts_before_monotone(cmds, a, b - 1);
    }
}

proof fn lemma_indices_before_monotone(cmds: Seq<DrawCommand>, a: int, b: int)
    requires
        a <= b,
    ensures
        indices_before(cmds, a) <= indices_before(cmds, b),
    decreases b - a,
{
    if a < b {
        lemma_indices_before_monotone(cmds, a, b - 1);
    }
}

/// Draws from the start of a same-sprite run up to any position in the run
/// belong to the run's batch.
proof fn lemma_batch_of_run(cmds: Seq<DrawCommand>, a: int, b: int)
    requires
        0 <= a <= b < cmds.len(),
        forall|t: int| a < t <= b ==> (#[trigger] cmds[t]).sprite == cmds[t - 1].sprite,
    ensures
        batch_of(cmds, b) == batch_of(cmds, a),
    decreases b - a,
{
    if a < b {
        lemma_batch_of_run(cmds, a, b - 1);
    }
}

} // verus!
