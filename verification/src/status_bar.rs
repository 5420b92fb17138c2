//! The status bar's focus timer and word count: the countdown's state
//! machine, ticked once per elapsed second by the shell's scheduling, and the
//! word counter over note content.

use vstd::prelude::*;

verus! {

/// The focus timer's run state.
#[derive(Debug, Clone, Copy, PartialEq, Eq, Structural)]
pub enum TimerState {
    Stopped,
    Running,
    Paused,
}

/// The default focus span, in seconds.
pub const DEFAULT_FOCUS_SECONDS: u64 = 1500;

/// The focus countdown: how it stands now and what it counts down from.
#[derive(Debug, PartialEq, Clone, Copy)]
pub struct FocusTimer {
    pub state: TimerState,
    pub remaining_seconds: u64,
    pub initial_seconds: u64,
}

impl FocusTimer {
    /// A stopped timer set to the default focus span.
    pub fn new() -> (r: FocusTimer)
        ensures
            r.state == TimerState::Stopped,
            r.remaining_seconds == DEFAULT_FOCUS_SECONDS,
            r.initial_seconds == DEFAULT_FOCUS_SECONDS,
    {
        FocusTimer {
            state: TimerState::Stopped,
            remaining_seconds: DEFAULT_FOCUS_SECONDS,
            initial_seconds: DEFAULT_FOCUS_SECONDS,
        }
    }

    /// One elapsed second: a running timer counts down one, and stops when
    /// it reaches zero; a stopped or paused timer does not move.
    pub fn tick(&mut self)
        ensures
            final(self).initial_seconds == old(self).initial_seconds,
            old(self).state == TimerState::Running && old(self).remaining_seconds > 0 ==> {
                &&& final(self).remaining_seconds == old(self).remaining_seconds - 1
                &&& final(self).state == (if final(self).remaining_seconds == 0 {
                    TimerState::Stopped
                } else {
                    TimerState::Running
                })
            },
            old(self).state != TimerState::Running || old(self).remaining_seconds == 0
                ==> *final(self) == *old(self),
    {
        if self.state == TimerState::Running && self.remaining_seconds > 0 {
            self.remaining_seconds = self.remaining_seconds - 1;
            if self.remaining_seconds == 0 {
                self.state = TimerState::Stopped;
            }
        }
    }

    /// Starts or resumes the countdown; a finished timer starts over from
    /// its full span.
    pub fn start(&mut self)
        ensures
            final(self).state == TimerState::Running,
            final(self).initial_seconds == old(self).initial_seconds,
            final(self).remaining_seconds == (if old(self).remaining_seconds == 0 {
                old(self).initial_seconds
            } else {
                old(self).remaining_seconds
            }),
    {
        if self.remaining_seconds == 0 {
            self.remaining_seconds = self.initial_seconds;
        }
        self.state = TimerState::Running;
    }

    /// Pauses the countdown where it stands.
    pub fn pause(&mut self)
        ensures
            final(self).state == TimerState::Paused,
            final(self).remaining_seconds == old(self).remaining_seconds,
            final(self).initial_seconds == old(self).initial_seconds,
    {
        self.state = TimerState::Paused;
    }

    /// Picks a focus span: the timer stops and is set to the full span.
    pub fn set_preset(&mut self, seconds: u64)
        ensures
            final(self).state == TimerState::Stopped,
            final(self).remaining_seconds == seconds,
            final(self).initial_seconds == seconds,
    {
        self.initial_seconds = seconds;
        self.remaining_seconds = seconds;
        self.state = TimerState::Stopped;
    }
}

impl Default for FocusTimer {
    /// A stopped timer set to the default focus span.
    fn default() -> (r: Self)
        ensures
            r.state == TimerState::Stopped,
            r.remaining_seconds == DEFAULT_FOCUS_SECONDS,
            r.initial_seconds == DEFAULT_FOCUS_SECONDS,
    {
        FocusTimer::new()
    }
}

/// Whether a character separates words: any Unicode white space.
pub open spec fn is_word_space(c: char) -> bool {
    crate::title::is_unicode_space(c)
}

/// The number of words: maximal runs of non-blank characters.
pub open spec fn word_count_of(s: Seq<char>) -> int
    decreases s.len(),
{
    if s.len() == 0 {
        0
    } else {
        word_count_of(s.drop_last()) + if !is_word_space(s.last()) && (s.len() == 1 || is_word_space(
            s[s.len() - 2],
        )) {
            1int
        } else {
            0int
        }
    }
}

/// Counts the words of the content, as `word_count_of` describes.
pub fn word_count(content: &str) -> (r: usize)
    ensures
        r as int == word_count_of(content@),
{
    let v = crate::text::chars_of_str(content);
    let n = v.len();
    let mut count: usize = 0;
    let mut i: usize = 0;
    while i < n
        invariant
            i <= n,
            n == content@.len(),
            v@ == content@,
            count <= i,
            count as int == word_count_of(content@.take(i as int)),
        decreases n - i,
    {
        let starts_word = if i == 0 {
            !is_word_space_x(v[0])
        } else {
            !is_word_space_x(v[i]) && is_word_space_x(v[i - 1])
        };
        proof {
            let pre = content@.take(i + 1);
            assert(pre.drop_last() =~= content@.take(i as int));
            assert(pre.last() == content@[i as int]);
            if i > 0 {
                assert(pre[pre.len() - 2] == content@[i - 1]);
            }
        }
        if starts_word {
            count += 1;
        }
        i += 1;
    }
    proof {
        assert(content@.take(n as int) =~= content@);
    }
    count
}

fn is_word_space_x(c: char) -> (r: bool)
    ensures
        r == is_word_space(c),
{
    crate::title::is_unicode_space_x(c)
}

} // verus!
