use vstd::prelude::*;

use crate::grid::{all_dead, cell, complement_board, flip, in_grid, is_complement_of, Grid};
use crate::life::{is_next_generation, is_stalled, step};
use crate::random::{cell_of_byte, filled_from, randomize_board, RandomSource};

verus! {

/// Frames shown per second.
pub const FPS: u32 = 10;

/// How long each frame is shown, in milliseconds.
pub const DELAY_MS: u32 = 1_000 / FPS;

/// Consecutive stalled frames after which the grid is reseeded.
pub const MAX_STALLED_FRAMES: u32 = 5;

/// Frames during which button B is ignored after it complemented the grid.
pub const COMPLEMENT_IGNORE_FRAMES: u32 = 5;

/// What a button press does to the grid.
pub enum BoardAction {
    Randomize,
    Complement,
}

/// Applies `action` when the button read `Some(true)`; a failed or negative read
/// does nothing. Returns whether the action ran, and the bytes drawn from `rng`
/// (none unless the grid was randomized).
pub fn execute_if_pressed<R: RandomSource>(
    pressed_result: Option<bool>,
    board: &mut Grid,
    rng: &mut R,
    action: BoardAction,
) -> (r: (bool, Vec<u8>))
    ensures
        r.0 == (pressed_result == Some(true)),
        !r.0 ==> *final(board) == *old(board),
        r.0 && action is Randomize ==> r.1@.len() == 25 && filled_from(*final(board), r.1@),
        r.0 && action is Complement ==> is_complement_of(*final(board), *old(board)),
        !(r.0 && action is Randomize) ==> r.1@.len() == 0 && *final(rng) == *old(rng),
{
    match pressed_result {
        Some(true) => {
            match action {
                BoardAction::Randomize => (true, randomize_board(board, rng)),
                BoardAction::Complement => {
                    complement_board(board);
                    (true, Vec::new())
                },
            }
        },
        _ => (false, Vec::new()),
    }
}

/// Cell `(r, c)` of `g` holds the flipped value of byte `5 * r + c`: the grid was
/// filled from `bytes` row by row, then complemented.
pub open spec fn complement_filled_from(g: Grid, bytes: Seq<u8>) -> bool {
    forall|r: int, c: int|
        in_grid(r, c) ==> #[trigger] cell(g, r, c) == flip(cell_of_byte(bytes[5 * r + c]))
}

/// Button B complements the grid on this frame: its ignore window is over and it
/// reads pressed.
pub open spec fn complement_fires(ignore: int, b_pressed: Option<bool>) -> bool {
    ignore == 0 && b_pressed == Some(true)
}

/// The ignore window after one frame.
pub open spec fn next_ignore(ignore: int, b_pressed: Option<bool>) -> int {
    if ignore > 0 {
        ignore - 1
    } else if b_pressed == Some(true) {
        COMPLEMENT_IGNORE_FRAMES as int
    } else {
        0
    }
}

/// The ignore window after a run of frames with the given reads of button B.
pub open spec fn ignore_after(ignore: int, reads: Seq<Option<bool>>) -> int
    decreases reads.len(),
{
    if reads.len() == 0 {
        ignore
    } else {
        next_ignore(ignore_after(ignore, reads.drop_last()), reads.last())
    }
}

/// The post-step stall check reseeds the grid on this frame.
pub open spec fn stall_reseeds(counter: int, stalled: bool) -> bool {
    stalled && counter + 1 >= MAX_STALLED_FRAMES
}

/// The stall counter after one frame.
pub open spec fn next_stall_counter(counter: int, stalled: bool) -> int {
    if !stalled || counter + 1 >= MAX_STALLED_FRAMES {
        0
    } else {
        counter + 1
    }
}

/// The stall counter after a run of frames with the given post-step stall results.
pub open spec fn stall_counter_after(counter: int, stalls: Seq<bool>) -> int
    decreases stalls.len(),
{
    if stalls.len() == 0 {
        counter
    } else {
        next_stall_counter(stall_counter_after(counter, stalls.drop_last()), stalls.last())
    }
}

/// The generation after `g` is all-dead.
pub open spec fn dead_after_step(g: Grid) -> bool {
    forall|h: Grid| is_next_generation(h, g) ==> all_dead(h)
}

/// While the ignore window is open it shrinks by one each frame, whatever button B reads.
pub proof fn lemma_ignore_countdown(ignore: int, reads: Seq<Option<bool>>)
    requires
        reads.len() <= ignore,
    ensures
        ignore_after(ignore, reads) == ignore - reads.len(),
    decreases reads.len(),
{
    if reads.len() > 0 {
        lemma_ignore_countdown(ignore, reads.drop_last());
    }
}

/// Once button B has complemented the grid, it cannot do so again during the next
/// `COMPLEMENT_IGNORE_FRAMES` frames, even if it reads pressed on every one of them;
/// on the frame after those it complements again exactly when it reads pressed.
pub proof fn lemma_ignore_window(ignore: int, fired_read: Option<bool>, reads: Seq<Option<bool>>)
    requires
        complement_fires(ignore, fired_read),
        reads.len() == COMPLEMENT_IGNORE_FRAMES + 1,
    ensures
        forall|j: int|
            0 <= j < COMPLEMENT_IGNORE_FRAMES ==> !complement_fires(
                #[trigger] ignore_after(next_ignore(ignore, fired_read), reads.take(j)),
                reads[j],
            ),
        complement_fires(
            ignore_after(next_ignore(ignore, fired_read), reads.take(COMPLEMENT_IGNORE_FRAMES as int)),
            reads[COMPLEMENT_IGNORE_FRAMES as int],
        ) == (reads[COMPLEMENT_IGNORE_FRAMES as int] == Some(true)),
{
    let start = next_ignore(ignore, fired_read);
    assert(start == COMPLEMENT_IGNORE_FRAMES);
    assert forall|j: int| 0 <= j < COMPLEMENT_IGNORE_FRAMES implies !complement_fires(
        #[trigger] ignore_after(start, reads.take(j)),
        reads[j],
    ) by {
        lemma_ignore_countdown(start, reads.take(j));
    }
    lemma_ignore_countdown(start, reads.take(COMPLEMENT_IGNORE_FRAMES as int));
}

/// While every frame stalls and the threshold is not reached, the counter rises by one per frame.
pub proof fn lemma_stall_countup(counter: int, stalls: Seq<bool>)
    requires
        0 <= counter,
        counter + stalls.len() < MAX_STALLED_FRAMES,
        forall|i: int| 0 <= i < stalls.len() ==> #[trigger] stalls[i],
    ensures
        stall_counter_after(counter, stalls) == counter + stalls.len(),
    decreases stalls.len(),
{
    if stalls.len() > 0 {
        lemma_stall_countup(counter, stalls.drop_last());
        assert(stalls[stalls.len() - 1]);
    }
}

/// Starting from zero, `MAX_STALLED_FRAMES` stalled frames in a row reseed the grid
/// exactly once, on the last of them, and leave the counter at zero. A frame that
/// does not stall never reseeds and always puts the counter back to zero.
pub proof fn lemma_stall_threshold(stalls: Seq<bool>)
    requires
        stalls.len() == MAX_STALLED_FRAMES,
        forall|i: int| 0 <= i < stalls.len() ==> #[trigger] stalls[i],
    ensures
        forall|k: int|
            0 <= k < MAX_STALLED_FRAMES ==> (stall_reseeds(
                #[trigger] stall_counter_after(0, stalls.take(k)),
                stalls[k],
            ) <==> k == MAX_STALLED_FRAMES - 1),
        stall_counter_after(0, stalls) == 0,
        forall|counter: int|
            #![trigger next_stall_counter(counter, false)]
            next_stall_counter(counter, false) == 0 && !stall_reseeds(counter, false),
{
    assert forall|k: int| 0 <= k < MAX_STALLED_FRAMES implies (stall_reseeds(
        #[trigger] stall_counter_after(0, stalls.take(k)),
        stalls[k],
    ) <==> k == MAX_STALLED_FRAMES - 1) by {
        lemma_stall_countup(0, stalls.take(k));
    }
    let last = MAX_STALLED_FRAMES - 1;
    lemma_stall_countup(0, stalls.take(last as int));
    assert(stalls.drop_last() =~= stalls.take(last as int));
    assert(stalls.last());
}

/// The state the frame loop carries from one frame to the next.
pub struct LifeState {
    pub board: Grid,
    pub stall_counter: u32,
    pub ignore_complement_counter: u32,
}

impl LifeState {
    /// The counters stay within their bounds.
    pub open spec fn wf(&self) -> bool {
        self.stall_counter < MAX_STALLED_FRAMES && self.ignore_complement_counter
            <= COMPLEMENT_IGNORE_FRAMES
    }

    /// A state showing `board`, with both counters at zero.
    pub fn new(board: Grid) -> (s: Self)
        ensures
            s.wf(),
            s.board == board,
            s.stall_counter == 0,
            s.ignore_complement_counter == 0,
    {
        LifeState { board, stall_counter: 0, ignore_complement_counter: 0 }
    }

    /// Reacts to the two buttons at the start of a frame. Button A randomizes the grid
    /// whenever it reads pressed. Button B is skipped while its ignore window runs,
    /// which shrinks by one; otherwise a pressed read complements the grid and opens
    /// the window again. Returns the bytes that button A drew, when it was pressed.
    pub fn handle_button_events<R: RandomSource>(
        &mut self,
        rng: &mut R,
        a_pressed: Option<bool>,
        b_pressed: Option<bool>,
    ) -> (drawn: Option<Vec<u8>>)
        requires
            old(self).wf(),
        ensures
            final(self).wf(),
            final(self).stall_counter == old(self).stall_counter,
            final(self).ignore_complement_counter == next_ignore(
                old(self).ignore_complement_counter as int,
                b_pressed,
            ),
            (drawn is Some) == (a_pressed == Some(true)),
            drawn is None ==> *final(rng) == *old(rng),
            drawn is None && !complement_fires(old(self).ignore_complement_counter as int, b_pressed)
                ==> final(self).board == old(self).board,
            drawn is None && complement_fires(old(self).ignore_complement_counter as int, b_pressed)
                ==> is_complement_of(final(self).board, old(self).board),
            drawn is Some ==> drawn->0@.len() == 25,
            drawn is Some && !complement_fires(old(self).ignore_complement_counter as int, b_pressed)
                ==> filled_from(final(self).board, drawn->0@),
            drawn is Some && complement_fires(old(self).ignore_complement_counter as int, b_pressed)
                ==> complement_filled_from(final(self).board, drawn->0@),
    {
        let (a_executed, bytes) = execute_if_pressed(
            a_pressed,
            &mut self.board,
            rng,
            BoardAction::Randomize,
        );
        let ghost randomized = self.board;
        if self.ignore_complement_counter > 0 {
            self.ignore_complement_counter = self.ignore_complement_counter - 1;
        } else {
            let (executed, _none) = execute_if_pressed(
                b_pressed,
                &mut self.board,
                rng,
                BoardAction::Complement,
            );
            if executed {
                self.ignore_complement_counter = COMPLEMENT_IGNORE_FRAMES;
                proof {
                    if a_executed {
                        assert forall|r: int, c: int| in_grid(r, c) implies #[trigger] cell(
                            self.board,
                            r,
                            c,
                        ) == flip(cell_of_byte(bytes@[5 * r + c])) by {
                            assert(cell(self.board, r, c) == flip(cell(randomized, r, c)));
                            assert(cell(randomized, r, c) == cell_of_byte(bytes@[5 * r + c]));
                        }
                    }
                }
            }
        }
        if a_executed {
            Some(bytes)
        } else {
            None
        }
    }

    /// Ends a frame once it has been shown: steps the grid one generation, then counts
    /// the frame as stalled when the new generation is all-dead, and reseeds the grid
    /// from `rng` once the count reaches `MAX_STALLED_FRAMES`. Returns the bytes of the
    /// reseed, when there was one.
    pub fn advance<R: RandomSource>(&mut self, rng: &mut R) -> (reseed: Option<Vec<u8>>)
        requires
            old(self).wf(),
        ensures
            final(self).wf(),
            final(self).ignore_complement_counter == old(self).ignore_complement_counter,
            (reseed is Some) == stall_reseeds(
                old(self).stall_counter as int,
                dead_after_step(old(self).board),
            ),
            final(self).stall_counter == next_stall_counter(
                old(self).stall_counter as int,
                dead_after_step(old(self).board),
            ),
            reseed is None ==> is_next_generation(final(self).board, old(self).board),
            reseed is None ==> *final(rng) == *old(rng),
            reseed is Some ==> reseed->0@.len() == 25 && filled_from(final(self).board, reseed->0@),
    {
        let ghost before = self.board;
        step(&mut self.board);
        let stalled = is_stalled(&self.board);
        proof {
            if stalled {
                assert forall|h: Grid| is_next_generation(h, before) implies all_dead(h) by {
                    crate::life::lemma_next_generation_unique(h, self.board, before);
                }
            }
        }
        if stalled {
            self.stall_counter = self.stall_counter + 1;
            if self.stall_counter >= MAX_STALLED_FRAMES {
                let drawn = randomize_board(&mut self.board, rng);
                self.stall_counter = 0;
                return Some(drawn);
            }
        } else {
            self.stall_counter = 0;
        }
        None
    }
}

} // verus!
