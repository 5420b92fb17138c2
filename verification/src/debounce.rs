//! The superseding-token pattern behind the two timed effects: debounced
//! autosave (armed on every edit) and the auto-dismissed undo toast (armed on
//! every soft delete). Arming hands out a fresh token and makes it current; a
//! timer that comes due fires only if its token is still the current one, so
//! a newer arming neutralises every older timer.

use vstd::prelude::*;

verus! {

/// Delay, in milliseconds, between the last edit and its autosave.
pub const AUTOSAVE_DELAY_MS: u64 = 1000;

/// Delay, in milliseconds, before a pending soft-delete is auto-discarded.
pub const UNDO_DISMISS_DELAY_MS: u64 = 5000;

/// The current token's successor; the count wraps around.
pub open spec fn wrap_inc(t: u32) -> u32 {
    if t == 0xffff_ffff {
        0u32
    } else {
        (t + 1) as u32
    }
}

/// A monotonically incrementing token cell.
pub struct TokenCell {
    token: u32,
}

impl TokenCell {
    /// The token a timer must hold to fire now.
    pub closed spec fn current(&self) -> u32 {
        self.token
    }

    pub fn new() -> (r: TokenCell)
        ensures
            r.current() == 0,
    {
        TokenCell { token: 0 }
    }

    /// Arms a timer: hands out a fresh token and makes it the current one,
    /// superseding every token handed out before.
    pub fn arm(&mut self) -> (t: u32)
        ensures
            t == final(self).current(),
            final(self).current() == wrap_inc(old(self).current()),
    {
        self.token = if self.token == 0xffff_ffff {
            0
        } else {
            self.token + 1
        };
        self.token
    }

    /// Whether a timer holding token `t` may fire: exactly when no arming
    /// has happened since `t` was handed out.
    pub fn is_current(&self, t: u32) -> (r: bool)
        ensures
            r == (t == self.current()),
    {
        t == self.token
    }
}

/// The instants at which debounced timers actually fire, given the edit
/// instants in order: the timer armed at `edits[i]` comes due one delay
/// later, and fires unless a later edit supersedes it before that.
pub open spec fn fire_times(edits: Seq<u64>, delay: u64) -> Seq<u64>
    decreases edits.len(),
{
    if edits.len() == 0 {
        Seq::empty()
    } else if edits.len() > 1 && !(edits[1] > edits[0] + delay) {
        fire_times(edits.drop_first(), delay)
    } else {
        seq![(edits[0] + delay) as u64] + fire_times(edits.drop_first(), delay)
    }
}

/// Replays a run of edits against the token rule and returns the instants at
/// which a save actually fires, as `fire_times` describes them.
pub fn debounce_fire_times(edits: &Vec<u64>, delay: u64) -> (r: Vec<u64>)
    requires
        forall|i: int| 0 <= i < edits@.len() - 1 ==> edits@[i] <= #[trigger] edits@[i + 1],
        forall|i: int| 0 <= i < edits@.len() ==> #[trigger] edits@[i] + delay <= u64::MAX,
    ensures
        r@ == fire_times(edits@, delay),
{
    let n = edits.len();
    let mut out: Vec<u64> = Vec::new();
    proof {
        assert(edits@.skip(0) =~= edits@);
        assert(Seq::<u64>::empty() + fire_times(edits@, delay) =~= fire_times(edits@, delay));
    }
    let mut i: usize = 0;
    while i < n
        invariant
            i <= n,
            n == edits@.len(),
            forall|k: int| 0 <= k < edits@.len() ==> #[trigger] edits@[k] + delay <= u64::MAX,
            fire_times(edits@, delay) == out@ + fire_times(edits@.skip(i as int), delay),
        decreases n - i,
    {
        let ghost t = edits@.skip(i as int);
        proof {
            assert(t[0] == edits@[i as int]);
            assert(t.drop_first() =~= edits@.skip(i + 1));
        }
        if i + 1 < n && !(edits[i + 1] > edits[i] + delay) {
            proof {
                assert(t.len() > 1 && t[1] == edits@[i + 1]);
                assert(fire_times(t, delay) == fire_times(edits@.skip(i + 1), delay));
            }
        } else {
            let ghost pre = out@;
            let due = edits[i] + delay;
            out.push(due);
            proof {
                assert(fire_times(t, delay) == seq![(t[0] + delay) as u64] + fire_times(
                    edits@.skip(i + 1),
                    delay,
                ));
                assert(pre + (seq![due] + fire_times(edits@.skip(i + 1), delay)) =~= out@
                    + fire_times(edits@.skip(i + 1), delay));
            }
        }
        i += 1;
    }
    proof {
        assert(fire_times(edits@.skip(n as int), delay) =~= Seq::<u64>::empty());
        assert(out@ + Seq::<u64>::empty() =~= out@);
    }
    out
}

/// Law: debounce coalescing. When every gap between consecutive edits is
/// within the delay, exactly one save fires, one delay after the last edit —
/// so it sees the content as of that last edit.
pub proof fn lemma_debounce_coalescing(edits: Seq<u64>, delay: u64)
    requires
        edits.len() > 0,
        forall|i: int| 0 <= i < edits.len() - 1 ==> #[trigger] edits[i + 1] <= edits[i] + delay,
    ensures
        fire_times(edits, delay) == seq![(edits.last() + delay) as u64],
    decreases edits.len(),
{
    if edits.len() == 1 {
        assert(fire_times(edits.drop_first(), delay) =~= Seq::<u64>::empty());
        assert(fire_times(edits, delay) =~= seq![(edits[0] + delay) as u64]);
    } else {
        let rest = edits.drop_first();
        assert(edits[1] <= edits[0] + delay) by {
            let z: int = 0;
            assert(edits[z + 1] <= edits[z] + delay);
        }
        assert forall|i: int| 0 <= i < rest.len() - 1 implies #[trigger] rest[i + 1] <= rest[i]
            + delay by {
            let j: int = i + 1;
            assert(edits[j + 1] <= edits[j] + delay);
            assert(rest[i + 1] == edits[j + 1]);
            assert(rest[i] == edits[j]);
        }
        lemma_debounce_coalescing(rest, delay);
        assert(rest.last() == edits.last());
    }
}

} // verus!
