//! The puzzle worker: the single owner of the authoritative puzzle state.
//! It is a state machine driven by one command at a time; every
//! state-changing command yields at most one image update, and the update
//! is a value, so the worker's image never aliases a rendering resource.
//!
//! The shell around the library runs this machine on a dedicated thread
//! behind a channel: commands arrive in order, updates leave in order, and
//! the machine itself never blocks and never panics.

use vstd::prelude::*;
use vstd::multiset::Multiset;
use crate::my_image::{Image, all_black, is_crop_of, create_black_image};
use crate::tiles::{Tile, gen_tiles, spec_tile_width, spec_tile_height, spec_partition,
    lemma_partition_tiles_fit};
use rand::Rng;

verus! {

broadcast use vstd::multiset::group_multiset_axioms;

/// A command for the worker, processed strictly in arrival order.
/// The shell decodes a picked file before handing it over, so a load
/// carries the decoded pixels; a cancelled dialog or a failed decode never
/// reaches the worker.
pub enum ControlSignal {
    /// Replace the puzzle wholesale: a freshly decoded image and the grid size.
    Load(Image, u8, u8),
    /// Re-partition the retained image into a fresh all-hidden grid.
    Reset(u8, u8),
    /// Reveal one remaining tile chosen uniformly at random.
    RevealTile,
    /// Reveal the tile at grid row and column, if it is still hidden.
    RevealTileAt(u8, u8),
    /// Stop processing; the cooperative-cancellation path.
    Exit,
}

/// The value that crosses back to the rendering side: either a full
/// replacement or a patch covering exactly one tile's footprint.
pub enum ImageUpdate {
    Full(Image),
    Partial { x: u32, y: u32, image: Image },
}

/// The authoritative puzzle state, owned exclusively by the worker.
pub struct PuzzleState {
    pub original_image: Image,
    pub tile_data: crate::tiles::TileData,
    pub rows: u8,
    pub columns: u8,
}

impl PuzzleState {
    /// Well-formedness: the image buffer is intact and small enough that a
    /// placeholder of the same size can be allocated, the grid is nonempty,
    /// and every remaining tile's footprint lies inside the image.
    pub open spec fn wf(self) -> bool {
        &&& self.original_image.wf()
        &&& 4 * (self.original_image.width as int) * (self.original_image.height as int)
                <= usize::MAX as int
        &&& self.rows >= 1
        &&& self.columns >= 1
        &&& forall|i: int| 0 <= i < self.tile_data.tiles@.len()
                ==> (#[trigger] self.tile_data.tiles@[i]).x + self.tile_data.tile_width
                        <= self.original_image.width
                    && self.tile_data.tiles@[i].y + self.tile_data.tile_height
                        <= self.original_image.height
    }
}

/// The worker before any successful load, and after: only `Loaded` answers
/// reveal, reset and resize commands; in `Unloaded` they are no-ops.
pub enum WorkerState {
    Unloaded,
    Loaded(PuzzleState),
}

impl WorkerState {
    pub open spec fn wf(self) -> bool {
        match self {
            WorkerState::Unloaded => true,
            WorkerState::Loaded(ps) => ps.wf(),
        }
    }
}

/// Relies on rand::Rng::random_range over the thread-local generator of
/// rand::rng: on the nonempty range `0..n` it returns a uniformly sampled
/// value of that range, hence below `n`.
#[verifier::external_body]
fn random_below(n: usize) -> (r: usize)
    requires
        n > 0,
    ensures
        r < n,
{
    rand::rng().random_range(0..n)
}

/// One reveal step on the remaining-tile sequence: remove the chosen index
/// if it is in range, keep the sequence as it is otherwise.
pub open spec fn reveal_one(tiles: Seq<Tile>, choice: int) -> Seq<Tile> {
    if 0 <= choice < tiles.len() {
        tiles.remove(choice)
    } else {
        tiles
    }
}

/// The update is a full replacement by an opaque-black placeholder of the
/// given dimensions.
pub open spec fn full_black_update(upd: ImageUpdate, width: u32, height: u32) -> bool {
    match upd {
        ImageUpdate::Full(img) => {
            &&& img.width == width
            &&& img.height == height
            &&& img.wf()
            &&& all_black(img)
        },
        _ => false,
    }
}

/// The step from `pre` to `post` revealed exactly the tile at index `i`:
/// that tile left the remaining set, nothing else changed, and the emitted
/// update patches that tile's footprint with the crop of the original.
pub open spec fn reveals_index(
    pre: PuzzleState,
    post: PuzzleState,
    upd: Option<ImageUpdate>,
    i: int,
) -> bool {
    &&& 0 <= i < pre.tile_data.tiles@.len()
    &&& post.original_image == pre.original_image
    &&& post.rows == pre.rows
    &&& post.columns == pre.columns
    &&& post.tile_data.tile_width == pre.tile_data.tile_width
    &&& post.tile_data.tile_height == pre.tile_data.tile_height
    &&& post.tile_data.tiles@ == reveal_one(pre.tile_data.tiles@, i)
    &&& match upd {
        Some(ImageUpdate::Partial { x, y, image }) => {
            &&& x == pre.tile_data.tiles@[i].x
            &&& y == pre.tile_data.tiles@[i].y
            &&& is_crop_of(
                image,
                pre.original_image,
                x as int,
                y as int,
                pre.tile_data.tile_width as int,
                pre.tile_data.tile_height as int,
            )
        },
        _ => false,
    }
}

/// What a successful load leaves behind: the given image retained as the
/// source, a fresh row-major partition fully hidden, and a full black
/// placeholder emitted.
pub open spec fn load_post(
    post: WorkerState,
    image: Image,
    rows: u8,
    columns: u8,
    upd: ImageUpdate,
) -> bool {
    &&& post is Loaded
    &&& post->Loaded_0.original_image == image
    &&& post->Loaded_0.rows == rows
    &&& post->Loaded_0.columns == columns
    &&& post->Loaded_0.tile_data.tile_width == spec_tile_width(image.width, columns)
    &&& post->Loaded_0.tile_data.tile_height == spec_tile_height(image.height, rows)
    &&& post->Loaded_0.tile_data.tiles@ == spec_partition(image.width, image.height, rows, columns)
    &&& full_black_update(upd, image.width, image.height)
}

/// What a reset leaves behind: a no-op when nothing is loaded; otherwise
/// exactly a load of the image already held — the source is preserved.
pub open spec fn reset_post(
    pre: WorkerState,
    post: WorkerState,
    rows: u8,
    columns: u8,
    upd: Option<ImageUpdate>,
) -> bool {
    match pre {
        WorkerState::Unloaded => post == pre && upd is None,
        WorkerState::Loaded(ps) => match upd {
            Some(u) => load_post(post, ps.original_image, rows, columns, u),
            None => false,
        },
    }
}

/// What a random reveal leaves behind: a no-op without an event when
/// nothing is loaded or nothing remains hidden; otherwise some in-range
/// index was revealed.
pub open spec fn reveal_random_post(
    pre: WorkerState,
    post: WorkerState,
    upd: Option<ImageUpdate>,
) -> bool {
    match pre {
        WorkerState::Unloaded => post == pre && upd is None,
        WorkerState::Loaded(ps) => {
            if ps.tile_data.tiles@.len() == 0 {
                post == pre && upd is None
            } else {
                post is Loaded && exists|i: int| #[trigger] reveals_index(ps, post->Loaded_0, upd, i)
            }
        },
    }
}

/// The tile sits at exactly this pixel offset.
pub open spec fn tile_at_offset(t: Tile, tx: int, ty: int) -> bool {
    t.x == tx && t.y == ty
}

/// Some remaining tile sits at this pixel offset.
pub open spec fn has_tile_at(tiles: Seq<Tile>, tx: int, ty: int) -> bool {
    exists|j: int| 0 <= j < tiles.len() && tile_at_offset(#[trigger] tiles[j], tx, ty)
}

/// What a coordinate reveal leaves behind: the expected offset is re-derived
/// from the grid coordinate; if no remaining tile sits there (already
/// revealed, or out of range for the current partition) the command is a
/// no-op, otherwise the first such tile is revealed.
pub open spec fn reveal_at_post(
    pre: WorkerState,
    post: WorkerState,
    row: u8,
    column: u8,
    upd: Option<ImageUpdate>,
) -> bool {
    match pre {
        WorkerState::Unloaded => post == pre && upd is None,
        WorkerState::Loaded(ps) => {
            let tiles = ps.tile_data.tiles@;
            let tx = column as int * ps.tile_data.tile_width as int;
            let ty = row as int * ps.tile_data.tile_height as int;
            if has_tile_at(tiles, tx, ty) {
                post is Loaded && exists|j: int|
                    #[trigger] reveals_index(ps, post->Loaded_0, upd, j)
                    && tile_at_offset(tiles[j], tx, ty)
                    && (forall|k: int| 0 <= k < j ==> !tile_at_offset(#[trigger] tiles[k], tx, ty))
            } else {
                post == pre && upd is None
            }
        },
    }
}

/// Remove tile `i` from the remaining set and emit the patch that uncovers
/// its footprint with pixels cropped from the original image.
fn reveal_index(ps: &mut PuzzleState, i: usize) -> (upd: ImageUpdate)
    requires
        old(ps).wf(),
        i < old(ps).tile_data.tiles@.len(),
    ensures
        final(ps).wf(),
        reveals_index(*old(ps), *final(ps), Some(upd), i as int),
{
    let ghost old_tiles = ps.tile_data.tiles@;
    let tile = ps.tile_data.tiles.remove(i);
    proof {
        old_tiles.remove_ensures(i as int);
        assert forall|j: int| 0 <= j < ps.tile_data.tiles@.len()
            implies (#[trigger] ps.tile_data.tiles@[j]).x + ps.tile_data.tile_width
                    <= ps.original_image.width
                && ps.tile_data.tiles@[j].y + ps.tile_data.tile_height
                    <= ps.original_image.height by {
            if j < i as int {
                assert(ps.tile_data.tiles@[j] == old_tiles[j]);
            } else {
                assert(ps.tile_data.tiles@[j] == old_tiles[j + 1]);
            }
        }
    }
    let piece = ps.original_image.crop_imm(
        tile.x,
        tile.y,
        ps.tile_data.tile_width,
        ps.tile_data.tile_height,
    );
    ImageUpdate::Partial { x: tile.x, y: tile.y, image: piece }
}

/// Replace the puzzle wholesale with a freshly decoded image: partition it,
/// hide everything, and emit the all-hidden placeholder.
pub fn load(state: &mut WorkerState, image: Image, rows: u8, columns: u8) -> (upd: ImageUpdate)
    requires
        image.wf(),
        4 * (image.width as int) * (image.height as int) <= usize::MAX as int,
        rows >= 1,
        columns >= 1,
    ensures
        final(state).wf(),
        load_post(*final(state), image, rows, columns, upd),
{
    let width = image.width;
    let height = image.height;
    let td = gen_tiles(width, height, rows, columns);
    proof {
        lemma_partition_tiles_fit(width, height, rows, columns);
    }
    let black = create_black_image(width, height);
    *state = WorkerState::Loaded(PuzzleState { original_image: image, tile_data: td, rows, columns });
    ImageUpdate::Full(black)
}

/// Re-partition the retained original image into a fresh all-hidden grid;
/// the source image itself is kept. A no-op before any load.
pub fn reset(state: &mut WorkerState, rows: u8, columns: u8) -> (upd: Option<ImageUpdate>)
    requires
        old(state).wf(),
        rows >= 1,
        columns >= 1,
    ensures
        final(state).wf(),
        reset_post(*old(state), *final(state), rows, columns, upd),
{
    match state {
        WorkerState::Unloaded => None,
        WorkerState::Loaded(ps) => {
            let width = ps.original_image.width;
            let height = ps.original_image.height;
            let td = gen_tiles(width, height, rows, columns);
            ps.tile_data = td;
            ps.rows = rows;
            ps.columns = columns;
            proof {
                lemma_partition_tiles_fit(width, height, rows, columns);
            }
            let black = create_black_image(width, height);
            Some(ImageUpdate::Full(black))
        },
    }
}

/// Reveal one remaining tile chosen uniformly at random; a no-op without an
/// event when nothing is loaded or the puzzle is already fully revealed.
pub fn reveal_random(state: &mut WorkerState) -> (upd: Option<ImageUpdate>)
    requires
        old(state).wf(),
    ensures
        final(state).wf(),
        reveal_random_post(*old(state), *final(state), upd),
{
    let mut cur = WorkerState::Unloaded;
    core::mem::swap(state, &mut cur);
    match cur {
        WorkerState::Unloaded => None,
        WorkerState::Loaded(mut ps) => {
            let n = ps.tile_data.tiles.len();
            if n == 0 {
                *state = WorkerState::Loaded(ps);
                None
            } else {
                let i = random_below(n);
                let u = reveal_index(&mut ps, i);
                proof {
                    assert(reveals_index(old(state)->Loaded_0, ps, Some(u), i as int));
                }
                *state = WorkerState::Loaded(ps);
                proof {
                    assert((*state)->Loaded_0 == ps);
                    assert(exists|ii: int| #[trigger] reveals_index(
                        old(state)->Loaded_0, (*state)->Loaded_0, Some(u), ii));
                }
                Some(u)
            }
        },
    }
}

/// Reveal the still-hidden tile at this grid coordinate; a no-op without an
/// event when no remaining tile sits at the re-derived pixel offset.
pub fn reveal_at(state: &mut WorkerState, row: u8, column: u8) -> (upd: Option<ImageUpdate>)
    requires
        old(state).wf(),
    ensures
        final(state).wf(),
        reveal_at_post(*old(state), *final(state), row, column, upd),
{
    let mut cur = WorkerState::Unloaded;
    core::mem::swap(state, &mut cur);
    match cur {
        WorkerState::Unloaded => None,
        WorkerState::Loaded(mut ps) => {
            proof {
                assert(column as int * ps.tile_data.tile_width as int <= 255 * 0xffff_ffffint)
                    by (nonlinear_arith)
                    requires
                        column as int <= 255,
                        0 <= ps.tile_data.tile_width as int <= 0xffff_ffffint;
                assert(row as int * ps.tile_data.tile_height as int <= 255 * 0xffff_ffffint)
                    by (nonlinear_arith)
                    requires
                        row as int <= 255,
                        0 <= ps.tile_data.tile_height as int <= 0xffff_ffffint;
            }
            let tx: u64 = (column as u64) * (ps.tile_data.tile_width as u64);
            let ty: u64 = (row as u64) * (ps.tile_data.tile_height as u64);
            let ghost txi = column as int * ps.tile_data.tile_width as int;
            let ghost tyi = row as int * ps.tile_data.tile_height as int;
            let n = ps.tile_data.tiles.len();
            let mut j: usize = 0;
            let mut found: bool = false;
            while j < n && !found
                invariant
                    j <= n,
                    n == ps.tile_data.tiles@.len(),
                    tx == txi,
                    ty == tyi,
                    forall|k: int| 0 <= k < j
                        ==> !tile_at_offset(#[trigger] ps.tile_data.tiles@[k], txi, tyi),
                    found ==> j < n && tile_at_offset(ps.tile_data.tiles@[j as int], txi, tyi),
                decreases n - j + (if found { 0int } else { 1int }),
            {
                let t = ps.tile_data.tiles[j];
                if (t.x as u64) == tx && (t.y as u64) == ty {
                    found = true;
                } else {
                    j = j + 1;
                }
            }
            if found {
                let ghost pre_tiles = ps.tile_data.tiles@;
                let u = reveal_index(&mut ps, j);
                proof {
                    assert(reveals_index(old(state)->Loaded_0, ps, Some(u), j as int));
                    assert(tile_at_offset(pre_tiles[j as int], txi, tyi));
                    assert(has_tile_at(pre_tiles, txi, tyi));
                }
                *state = WorkerState::Loaded(ps);
                proof {
                    assert((*state)->Loaded_0 == ps);
                    assert(exists|jj: int|
                        #[trigger] reveals_index(old(state)->Loaded_0, (*state)->Loaded_0,
                            Some(u), jj)
                        && tile_at_offset(pre_tiles[jj], txi, tyi)
                        && (forall|k: int| 0 <= k < jj
                            ==> !tile_at_offset(#[trigger] pre_tiles[k], txi, tyi)));
                }
                Some(u)
            } else {
                assert(!has_tile_at(ps.tile_data.tiles@, txi, tyi));
                *state = WorkerState::Loaded(ps);
                None
            }
        },
    }
}

/// Process one command: dispatch to the matching operation. The second
/// component of the result is whether the worker keeps running; only `Exit`
/// clears it, and `Exit` changes nothing and emits nothing.
pub fn handle_signal(state: &mut WorkerState, signal: ControlSignal)
    -> (r: (Option<ImageUpdate>, bool))
    requires
        old(state).wf(),
        signal matches ControlSignal::Load(image, rows, columns)
            ==> image.wf() && rows >= 1 && columns >= 1
                && 4 * (image.width as int) * (image.height as int) <= usize::MAX as int,
        signal matches ControlSignal::Reset(rows, columns) ==> rows >= 1 && columns >= 1,
    ensures
        final(state).wf(),
        r.1 == !(signal is Exit),
        match signal {
            ControlSignal::Load(image, rows, columns) => match r.0 {
                Some(u) => load_post(*final(state), image, rows, columns, u),
                None => false,
            },
            ControlSignal::Reset(rows, columns) =>
                reset_post(*old(state), *final(state), rows, columns, r.0),
            ControlSignal::RevealTile =>
                reveal_random_post(*old(state), *final(state), r.0),
            ControlSignal::RevealTileAt(row, column) =>
                reveal_at_post(*old(state), *final(state), row, column, r.0),
            ControlSignal::Exit => *final(state) == *old(state) && r.0 is None,
        },
{
    match signal {
        ControlSignal::Load(image, rows, columns) => {
            let u = load(state, image, rows, columns);
            (Some(u), true)
        },
        ControlSignal::Reset(rows, columns) => (reset(state, rows, columns), true),
        ControlSignal::RevealTile => (reveal_random(state), true),
        ControlSignal::RevealTileAt(row, column) => (reveal_at(state, row, column), true),
        ControlSignal::Exit => (None, false),
    }
}

/// Law: a reveal never touches the source image. Whatever a random reveal
/// did to a loaded puzzle, the retained original image is the one it held
/// before.
pub proof fn lemma_reveal_random_preserves_source(
    pre: WorkerState,
    post: WorkerState,
    upd: Option<ImageUpdate>,
)
    requires
        pre is Loaded,
        reveal_random_post(pre, post, upd),
    ensures
        post is Loaded,
        post->Loaded_0.original_image == pre->Loaded_0.original_image,
{
    let ps = pre->Loaded_0;
    if ps.tile_data.tiles@.len() > 0 {
        let i = choose|i: int| reveals_index(ps, post->Loaded_0, upd, i);
        assert(reveals_index(ps, post->Loaded_0, upd, i));
    }
}

/// Law: a coordinate reveal never touches the source image either.
pub proof fn lemma_reveal_at_preserves_source(
    pre: WorkerState,
    post: WorkerState,
    row: u8,
    column: u8,
    upd: Option<ImageUpdate>,
)
    requires
        pre is Loaded,
        reveal_at_post(pre, post, row, column, upd),
    ensures
        post is Loaded,
        post->Loaded_0.original_image == pre->Loaded_0.original_image,
{
    let ps = pre->Loaded_0;
    let tx = column as int * ps.tile_data.tile_width as int;
    let ty = row as int * ps.tile_data.tile_height as int;
    if has_tile_at(ps.tile_data.tiles@, tx, ty) {
        let j = choose|j: int|
            #[trigger] reveals_index(ps, post->Loaded_0, upd, j)
            && tile_at_offset(ps.tile_data.tiles@[j], tx, ty)
            && (forall|k: int| 0 <= k < j
                ==> !tile_at_offset(#[trigger] ps.tile_data.tiles@[k], tx, ty));
        assert(reveals_index(ps, post->Loaded_0, upd, j));
    }
}

/// Law: reset preserves the source. After a load of some image and any
/// run of reveals — each of which keeps the original by the two lemmas
/// above — a reset re-partitions exactly that retained image; only the
/// hidden-tile set and the emitted placeholder are fresh.
pub proof fn lemma_reset_preserves_source(
    pre: WorkerState,
    post: WorkerState,
    rows: u8,
    columns: u8,
    upd: Option<ImageUpdate>,
)
    requires
        pre is Loaded,
        reset_post(pre, post, rows, columns, upd),
    ensures
        post is Loaded,
        post->Loaded_0.original_image == pre->Loaded_0.original_image,
        post->Loaded_0.tile_data.tiles@ == spec_partition(
            pre->Loaded_0.original_image.width,
            pre->Loaded_0.original_image.height,
            rows,
            columns,
        ),
{
}

// ------------------------------------------------------------------
// The reveal-run model: what any sequence of reveals does to the
// remaining-tile sequence, whichever indices chance or the user picked.
// ------------------------------------------------------------------

/// The tiles still hidden after a run of reveal steps.
pub open spec fn remaining_after(tiles: Seq<Tile>, choices: Seq<int>) -> Seq<Tile>
    decreases choices.len(),
{
    if choices.len() == 0 {
        tiles
    } else {
        remaining_after(reveal_one(tiles, choices[0]), choices.skip(1))
    }
}

/// The tiles emitted (revealed) during a run of reveal steps, in order.
pub open spec fn emitted_during(tiles: Seq<Tile>, choices: Seq<int>) -> Seq<Tile>
    decreases choices.len(),
{
    if choices.len() == 0 {
        Seq::empty()
    } else if 0 <= choices[0] < tiles.len() {
        seq![tiles[choices[0]]] + emitted_during(tiles.remove(choices[0]), choices.skip(1))
    } else {
        emitted_during(tiles, choices.skip(1))
    }
}

/// Every choice of the run is in range of the set remaining at its step —
/// as the choice of a random reveal on a nonempty set always is.
pub open spec fn choices_valid(tiles: Seq<Tile>, choices: Seq<int>) -> bool
    decreases choices.len(),
{
    choices.len() == 0
        || (0 <= choices[0] < tiles.len()
            && choices_valid(reveal_one(tiles, choices[0]), choices.skip(1)))
}

/// Law: reveal exhaustion. A run of exactly as many in-range reveals as
/// there are tiles empties the remaining set, and any further reveal step
/// is a no-op on the emptied set.
pub proof fn lemma_reveal_exhaustion(tiles: Seq<Tile>, choices: Seq<int>)
    requires
        choices_valid(tiles, choices),
        choices.len() == tiles.len(),
    ensures
        remaining_after(tiles, choices).len() == 0,
        forall|extra: int| #[trigger] reveal_one(remaining_after(tiles, choices), extra)
            == remaining_after(tiles, choices),
    decreases choices.len(),
{
    if choices.len() == 0 {
    } else {
        lemma_reveal_exhaustion(reveal_one(tiles, choices[0]), choices.skip(1));
    }
}

/// Law: conservation. Across any run, the tiles still remaining and the
/// tiles emitted together are exactly the tiles the run started from, as a
/// multiset: nothing appears, nothing vanishes.
pub proof fn lemma_reveal_conservation(tiles: Seq<Tile>, choices: Seq<int>)
    ensures
        remaining_after(tiles, choices).to_multiset()
            .add(emitted_during(tiles, choices).to_multiset())
            =~= tiles.to_multiset(),
    decreases choices.len(),
{
    broadcast use vstd::seq_lib::to_multiset_remove;
    broadcast use vstd::seq_lib::to_multiset_contains;
    broadcast use vstd::seq_lib::to_multiset_build;

    if choices.len() == 0 {
        assert(emitted_during(tiles, choices) =~= Seq::<Tile>::empty());
        assert(Seq::<Tile>::empty().to_multiset() =~= Multiset::<Tile>::empty()) by {
            assert forall|x: Tile| Seq::<Tile>::empty().to_multiset().count(x) == 0 by {
                assert(!Seq::<Tile>::empty().contains(x));
            }
        }
    } else if 0 <= choices[0] < tiles.len() {
        let i = choices[0];
        let t0 = tiles[i];
        let rest = tiles.remove(i);
        lemma_reveal_conservation(rest, choices.skip(1));
        let rem = remaining_after(rest, choices.skip(1));
        let em = emitted_during(rest, choices.skip(1));
        assert(remaining_after(tiles, choices) == rem);
        assert(emitted_during(tiles, choices) == seq![t0] + em);
        vstd::seq_lib::lemma_multiset_commutative(seq![t0], em);
        assert(seq![t0] =~= Seq::<Tile>::empty().push(t0));
        assert(Seq::<Tile>::empty().push(t0).to_multiset()
            =~= Seq::<Tile>::empty().to_multiset().insert(t0));
        assert(Seq::<Tile>::empty().to_multiset() =~= Multiset::<Tile>::empty()) by {
            assert forall|x: Tile| Seq::<Tile>::empty().to_multiset().count(x) == 0 by {
                assert(!Seq::<Tile>::empty().contains(x));
            }
        }
        assert(tiles.contains(t0));
        assert(tiles.to_multiset().count(t0) > 0);
        assert(rest.to_multiset() == tiles.to_multiset().remove(t0));
        assert forall|x: Tile|
            rem.to_multiset().add((seq![t0] + em).to_multiset()).count(x)
                == tiles.to_multiset().count(x) by {
            assert(rem.to_multiset().add(em.to_multiset()).count(x)
                == rest.to_multiset().count(x));
        }
    } else {
        lemma_reveal_conservation(tiles, choices.skip(1));
        assert(remaining_after(tiles, choices) == remaining_after(tiles, choices.skip(1)));
        assert(emitted_during(tiles, choices) == emitted_during(tiles, choices.skip(1)));
    }
}

/// Law: no duplicate reveal. Between one load or reset and the next, a run
/// that starts from pairwise-distinct tiles never emits the same tile
/// offset twice, whichever indices were picked.
pub proof fn lemma_no_duplicate_reveal(tiles: Seq<Tile>, choices: Seq<int>)
    requires
        tiles.no_duplicates(),
    ensures
        emitted_during(tiles, choices).no_duplicates(),
{
    broadcast use vstd::seq_lib::to_multiset_contains;

    lemma_reveal_conservation(tiles, choices);
    tiles.lemma_multiset_has_no_duplicates();
    let em = emitted_during(tiles, choices);
    let rem = remaining_after(tiles, choices);
    assert forall|x: Tile| em.to_multiset().contains(x)
        implies em.to_multiset().count(x) == 1 by {
        assert(rem.to_multiset().count(x) + em.to_multiset().count(x)
            == tiles.to_multiset().count(x));
        assert(em.contains(x));
        assert(tiles.to_multiset().count(x) > 0);
    }
    em.lemma_multiset_has_no_duplicates_conv();
}

} // verus!
