//! How the threads leave a search: each counts itself out, the main thread waits
//! for the others, and only then publishes and reports.

use vstd::prelude::*;

verus! {

/// What a thread that leaves the search does next.
#[derive(Debug, Clone, Copy, PartialEq, Eq, Structural)]
pub enum Leave {
    /// Take one off the count of searching threads.
    CountDown,
    /// Wake the main thread: every thread has left.
    WakeMain,
    /// Look at the count.
    Look,
    /// Wait for as long as the count is the one seen.
    Wait(u32),
    /// Store the score, and set the count to zero to let commands in again.
    Publish,
    /// Report the result.
    Report,
    /// Wake the threads that wait for the result.
    Release,
    /// Nothing is left to do.
    Gone,
}

impl Leave {
    /// What comes after this, by the count seen: before the thread was taken off,
    /// or when it looked. The count is one more than the threads that search, so
    /// the last to be taken off sees two, and one is left when all have gone.
    pub open spec fn followed_by(self, is_main: bool, seen: int, reports: bool) -> Leave {
        match self {
            Leave::CountDown => if is_main {
                if seen == 2 {
                    Leave::Publish
                } else {
                    Leave::Look
                }
            } else if seen == 2 {
                Leave::WakeMain
            } else {
                Leave::Gone
            },
            Leave::WakeMain => Leave::Gone,
            Leave::Look => if seen == 1 {
                Leave::Publish
            } else {
                Leave::Wait(seen as u32)
            },
            Leave::Wait(_) => Leave::Look,
            Leave::Publish => if reports {
                Leave::Report
            } else {
                Leave::Release
            },
            Leave::Report => Leave::Release,
            Leave::Release => Leave::Gone,
            Leave::Gone => Leave::Gone,
        }
    }

    /// What comes after this. `seen` counts only after counting down and looking.
    pub fn next(self, thread_id: usize, seen: u32, reports: bool) -> (r: Leave)
        ensures
            r == self.followed_by(thread_id == 0, seen as int, reports),
    {
        match self {
            Leave::CountDown => {
                if thread_id == 0 {
                    if seen == 2 {
                        Leave::Publish
                    } else {
                        Leave::Look
                    }
                } else if seen == 2 {
                    Leave::WakeMain
                } else {
                    Leave::Gone
                }
            },
            Leave::WakeMain => Leave::Gone,
            Leave::Look => {
                if seen == 1 {
                    Leave::Publish
                } else {
                    Leave::Wait(seen)
                }
            },
            Leave::Wait(_) => Leave::Look,
            Leave::Publish => {
                if reports {
                    Leave::Report
                } else {
                    Leave::Release
                }
            },
            Leave::Report => Leave::Release,
            Leave::Release => Leave::Gone,
            Leave::Gone => Leave::Gone,
        }
    }
}

/// The count and what each thread does next. The main thread has the number zero.
pub struct Meeting {
    pub count: int,
    pub threads: Seq<Leave>,
}

/// The number of threads that have not been counted out.
pub open spec fn searching(threads: Seq<Leave>) -> int
    decreases threads.len(),
{
    if threads.len() == 0 {
        0
    } else {
        searching(threads.drop_last()) + if threads.last() is CountDown {
            1int
        } else {
            0
        }
    }
}

impl Meeting {
    /// As many threads as given are about to leave.
    pub open spec fn of(threads: nat) -> Meeting {
        Meeting {
            count: (threads + 1) as int,
            threads: Seq::new(threads, |i: int| Leave::CountDown),
        }
    }

    /// A thread does what is next for it.
    pub open spec fn after(self, i: int, reports: bool) -> Meeting {
        Meeting {
            count: match self.threads[i] {
                Leave::CountDown => self.count - 1,
                Leave::Publish => 0,
                _ => self.count,
            },
            threads: self.threads.update(
                i,
                self.threads[i].followed_by(i == 0, self.count, reports),
            ),
        }
    }

    /// Whether the main thread has published.
    pub open spec fn published(self) -> bool {
        self.threads[0] is Report || self.threads[0] is Release || self.threads[0] is Gone
    }

    /// The count is one more than the searching threads, until the main thread
    /// sets it to zero; by then nobody searches. The others publish and report
    /// nothing.
    pub open spec fn orderly(self) -> bool {
        &&& 0 < self.threads.len() < u32::MAX
        &&& self.published() ==> self.count == 0 && searching(self.threads) == 0
        &&& !self.published() ==> self.count == searching(self.threads) + 1
        &&& self.threads[0] is Publish ==> searching(self.threads) == 0
        &&& !(self.threads[0] is WakeMain)
        &&& self.threads[0] matches Leave::Wait(seen) ==> seen != 1
        &&& forall|i: int|
            0 < i < self.threads.len() ==> {
                ||| #[trigger] self.threads[i] is CountDown
                ||| self.threads[i] is WakeMain && searching(self.threads) == 0
                ||| self.threads[i] is Gone
            }
    }
}

proof fn lemma_searching_updated(threads: Seq<Leave>, i: int, x: Leave)
    requires
        0 <= i < threads.len(),
    ensures
        searching(threads.update(i, x)) == searching(threads) + (if x is CountDown {
            1int
        } else {
            0
        }) - (if threads[i] is CountDown {
            1int
        } else {
            0
        }),
    decreases threads.len(),
{
    let shorter = threads.drop_last();
    if i < shorter.len() {
        lemma_searching_updated(shorter, i, x);
        assert(threads.update(i, x).drop_last() =~= shorter.update(i, x));
    } else {
        assert(threads.update(i, x).drop_last() =~= shorter);
    }
}

proof fn lemma_searching_counts(threads: Seq<Leave>)
    ensures
        0 <= searching(threads) <= threads.len(),
        searching(threads) == 0 <==> (forall|i: int|
            0 <= i < threads.len() ==> !(#[trigger] threads[i] is CountDown)),
        (forall|i: int| 0 <= i < threads.len() ==> #[trigger] threads[i] is CountDown)
            ==> searching(threads) == threads.len(),
    decreases threads.len(),
{
    if threads.len() > 0 {
        let shorter = threads.drop_last();
        lemma_searching_counts(shorter);
        assert(forall|i: int| 0 <= i < shorter.len() ==> shorter[i] == threads[i]);
        if searching(threads) == 0 {
            assert forall|i: int| 0 <= i < threads.len() implies !(#[trigger]
            threads[i] is CountDown) by {
                if i < shorter.len() {
                    assert(!(shorter[i] is CountDown));
                }
            }
        }
        if forall|i: int| 0 <= i < threads.len() ==> !(#[trigger] threads[i] is CountDown) {
            assert forall|i: int| 0 <= i < shorter.len() implies !(#[trigger]
            shorter[i] is CountDown) by {
                assert(!(threads[i] is CountDown));
            }
            assert(!(threads[threads.len() - 1] is CountDown));
        }
        if forall|i: int| 0 <= i < threads.len() ==> #[trigger] threads[i] is CountDown {
            assert forall|i: int| 0 <= i < shorter.len() implies #[trigger]
            shorter[i] is CountDown by {
                assert(threads[i] is CountDown);
            }
            assert(threads[threads.len() - 1] is CountDown);
        }
    }
}

/// A search starts orderly if the count is one more than its threads.
pub proof fn a_meeting_starts_orderly(threads: nat)
    requires
        0 < threads < u32::MAX,
    ensures
        Meeting::of(threads).orderly(),
{
    lemma_searching_counts(Meeting::of(threads).threads);
}

/// Whichever thread goes on, and in whatever order they do, the meeting stays
/// orderly.
pub proof fn every_step_keeps_the_meeting_orderly(m: Meeting, i: int, reports: bool)
    requires
        m.orderly(),
        0 <= i < m.threads.len(),
    ensures
        m.after(i, reports).orderly(),
{
    let after = m.after(i, reports);
    lemma_searching_updated(
        m.threads,
        i,
        m.threads[i].followed_by(i == 0, m.count, reports),
    );
    lemma_searching_counts(m.threads);
    lemma_searching_counts(after.threads);
    assert forall|k: int| 0 < k < after.threads.len() implies {
        ||| #[trigger] after.threads[k] is CountDown
        ||| after.threads[k] is WakeMain && searching(after.threads) == 0
        ||| after.threads[k] is Gone
    } by {
        if k != i {
            assert(after.threads[k] == m.threads[k]);
        }
    }
}

/// A thread counts itself out once: nothing leads back to counting down.
pub proof fn nobody_counts_down_twice(leave: Leave, is_main: bool, seen: int, reports: bool)
    ensures
        !(leave.followed_by(is_main, seen, reports) is CountDown),
{
}

/// The main thread publishes exactly when it sees that nobody searches any more: on
/// counting itself out as the last, or on looking after the others. Until then it
/// looks, and waits for the count to change. Having published it reports if a report
/// is wanted, then releases the others, then is gone. Another thread is gone at once,
/// but for the last, which wakes the main thread first.
pub proof fn how_threads_leave(leave: Leave, is_main: bool, seen: u32, reports: bool)
    ensures
        ({
            let next = leave.followed_by(is_main, seen as int, reports);
            &&& next is Publish <==> is_main && leave is CountDown && seen == 2 || leave is Look
                && seen == 1
            &&& next is Look <==> is_main && leave is CountDown && seen != 2 || leave is Wait
            &&& next is Wait <==> leave is Look && seen != 1
            &&& next matches Leave::Wait(count) ==> count == seen
            &&& next is WakeMain <==> !is_main && leave is CountDown && seen == 2
            &&& next is Report <==> leave is Publish && reports
            &&& next is Release <==> leave is Report || leave is Publish && !reports
            &&& next is Gone <==> !is_main && leave is CountDown && seen != 2 || leave is WakeMain
                || leave is Release || leave is Gone
        }),
{
}

/// The main thread publishes, reports and releases only after every thread has
/// counted itself out, and no other thread does any of these. From publishing on
/// the count stays zero.
pub proof fn the_result_comes_last(m: Meeting, i: int)
    requires
        m.orderly(),
        0 <= i < m.threads.len(),
    ensures
        m.threads[i] is Publish || m.threads[i] is Report || m.threads[i] is Release ==> {
            &&& i == 0
            &&& forall|k: int| 0 <= k < m.threads.len() ==> !(#[trigger] m.threads[k] is CountDown)
        },
        m.published() ==> m.count == 0,
{
    lemma_searching_counts(m.threads);
}

/// The main thread is never left waiting: while the count is the one it waits on,
/// another thread has still to count itself out, and the last of them to do so
/// wakes it.
pub proof fn a_waiting_main_thread_is_woken(m: Meeting, i: int, reports: bool)
    requires
        m.orderly(),
        0 < i < m.threads.len(),
    ensures
        m.threads[0] matches Leave::Wait(seen) ==> m.count == seen ==> (exists|k: int|
            0 < k < m.threads.len() && #[trigger] m.threads[k] is CountDown),
        m.threads[i] is CountDown ==> (m.after(i, reports).threads[i] is WakeMain <==> searching(
            m.after(i, reports).threads,
        ) == 0),
{
    lemma_searching_counts(m.threads);
    lemma_searching_updated(m.threads, i, m.threads[i].followed_by(false, m.count, reports));
    if m.threads[0] is Wait && m.count == m.threads[0]->Wait_0 {
        let k = choose|k: int| 0 <= k < m.threads.len() && #[trigger] m.threads[k] is CountDown;
        assert(m.threads[k] is CountDown);
    }
}

} // verus!
