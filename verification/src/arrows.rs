use vstd::prelude::*;

verus! {

/// Width, in milliseconds, of the window after a note's timing during which
/// the scan still spawns it.
pub const SPAWN_WINDOW_MS: usize = 50;

/// How long a note is held: hit once, or held for a duration in milliseconds.
#[derive(Copy, Clone, Debug, PartialEq, Eq, Structural)]
pub enum ArrowKind {
    Short,
    Long { duration: usize },
}

/// One scheduled hit event on a channel at a given millisecond timestamp.
#[derive(Copy, Clone, Debug, PartialEq, Eq, Structural)]
pub struct Arrow {
    /// Index of the note channel this note belongs to.
    pub channel: usize,
    /// Timing in milliseconds of when the note should be hit.
    pub timing: usize,
    /// Either short or long.
    pub kind: ArrowKind,
}

/// Whether, at time `now`, a note scheduled at `timing` is due to be
/// spawned: its timing has passed, but by at most the spawn window.
pub open spec fn spec_is_due(timing: int, now: int) -> bool {
    timing <= now <= timing + SPAWN_WINDOW_MS
}

/// The notes the per-frame scan spawns at time `now`. The scan walks the
/// whole chart in order and keeps every note that is due and has a
/// configured channel; all other notes are skipped, wherever they stand.
pub open spec fn spec_due_notes(notes: Seq<Arrow>, channel_count: int, now: int) -> Seq<Arrow>
    decreases notes.len(),
{
    if notes.len() == 0 {
        Seq::empty()
    } else if notes.first().channel < channel_count && spec_is_due(
        notes.first().timing as int,
        now,
    ) {
        seq![notes.first()] + spec_due_notes(notes.drop_first(), channel_count, now)
    } else {
        spec_due_notes(notes.drop_first(), channel_count, now)
    }
}

/// Every note the scan returns is due at `now` and lies in a configured
/// channel, so a caller may index its channel configuration with it.
pub proof fn lemma_due_notes_valid(notes: Seq<Arrow>, channel_count: int, now: int)
    ensures
        forall|i: int|
            0 <= i < spec_due_notes(notes, channel_count, now).len() ==> (#[trigger] spec_due_notes(
                notes,
                channel_count,
                now,
            )[i]).channel < channel_count && spec_is_due(
                spec_due_notes(notes, channel_count, now)[i].timing as int,
                now,
            ),
    decreases notes.len(),
{
    if notes.len() > 0 {
        lemma_due_notes_valid(notes.drop_first(), channel_count, now);
    }
}

/// Scans the chart and returns the notes to spawn at time `now`, given how
/// many channels are configured.
pub fn due_notes(notes: &Vec<Arrow>, channel_count: usize, now: usize) -> (r: Vec<Arrow>)
    ensures
        r@ == spec_due_notes(notes@, channel_count as int, now as int),
        forall|j: int|
            0 <= j < r@.len() ==> (#[trigger] r@[j]).channel < channel_count && spec_is_due(
                r@[j].timing as int,
                now as int,
            ),
{
    let mut out: Vec<Arrow> = Vec::new();
    let mut i: usize = 0;
    proof {
        assert(notes@.skip(0) =~= notes@);
        assert(Seq::<Arrow>::empty() + spec_due_notes(notes@, channel_count as int, now as int)
            =~= spec_due_notes(notes@, channel_count as int, now as int));
    }
    while i < notes.len()
        invariant
            0 <= i <= notes@.len(),
            spec_due_notes(notes@, channel_count as int, now as int) == out@ + spec_due_notes(
                notes@.skip(i as int),
                channel_count as int,
                now as int,
            ),
        decreases notes@.len() - i,
    {
        let note = notes[i];
        proof {
            assert(notes@.skip(i as int).first() == notes@[i as int]);
            assert(notes@.skip(i as int).drop_first() =~= notes@.skip(i + 1));
        }
        if note.channel < channel_count && note.timing <= now && now - note.timing
            <= SPAWN_WINDOW_MS {
            proof {
                assert(out@ + (seq![note] + spec_due_notes(
                    notes@.skip(i + 1),
                    channel_count as int,
                    now as int,
                )) =~= out@.push(note) + spec_due_notes(
                    notes@.skip(i + 1),
                    channel_count as int,
                    now as int,
                ));
            }
            out.push(note);
        } else {
            // A note without a configured channel, or outside the spawn
            // window, is skipped and the scan goes on.
        }
        i = i + 1;
    }
    proof {
        assert(notes@.skip(notes@.len() as int) =~= Seq::<Arrow>::empty());
        assert(out@ + Seq::<Arrow>::empty() =~= out@);
        assert(out@ == spec_due_notes(notes@, channel_count as int, now as int));
        assert forall|j: int|
            0 <= j < out@.len() implies (#[trigger] out@[j]).channel < channel_count
            && spec_is_due(out@[j].timing as int, now as int) by {
            lemma_due_notes_valid(notes@, channel_count as int, now as int);
            assert(out@[j] == spec_due_notes(notes@, channel_count as int, now as int)[j]);
        }
    }
    out
}

} // verus!
