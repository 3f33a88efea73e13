//! Short messages to the user that go away by themselves.

use crate::outside::{nanos_since, now};
use vstd::prelude::*;

verus! {

/// How long a message is shown, in nanoseconds.
pub const TOAST_TTL_NANOS: u128 = 2_400_000_000;

/// The messages that are shown at most.
pub const MAX_TOASTS: usize = 4;

#[derive(Debug, Clone, Copy, PartialEq, Eq, Structural)]
pub enum ToastKind {
    Info,
    Success,
    Warning,
}

/// A message.
#[derive(Debug)]
pub struct Toast {
    pub text: String,
    pub kind: ToastKind,
    /// When it was first shown.
    pub shown_at: std::time::Instant,
}

/// What messages say.
pub open spec fn toast_texts(toasts: Seq<Toast>) -> Seq<(Seq<char>, ToastKind)> {
    Seq::new(toasts.len(), |i: int| (toasts[i].text@, toasts[i].kind))
}

/// The newest of some messages.
pub open spec fn newest<T>(all: Seq<T>) -> Seq<T> {
    if all.len() > MAX_TOASTS {
        all.subrange(all.len() - MAX_TOASTS, all.len() as int)
    } else {
        all
    }
}

/// The messages that are not too old.
pub open spec fn unexpired<T>(all: Seq<T>, ages: Seq<u128>) -> Seq<T>
    decreases all.len(),
{
    if all.len() == 0 {
        all
    } else if ages[all.len() - 1] < TOAST_TTL_NANOS {
        unexpired(all.drop_last(), ages).push(all.last())
    } else {
        unexpired(all.drop_last(), ages)
    }
}

proof fn lemma_unexpired_texts(all: Seq<Toast>, ages: Seq<u128>)
    ensures
        toast_texts(unexpired(all, ages)) == unexpired(toast_texts(all), ages),
    decreases all.len(),
{
    if all.len() == 0 {
        assert(toast_texts(all) =~= Seq::empty());
    } else {
        lemma_unexpired_texts(all.drop_last(), ages);
        assert(toast_texts(all).drop_last() =~= toast_texts(all.drop_last()));
        let kept = unexpired(all.drop_last(), ages);
        assert(toast_texts(kept.push(all.last())) =~= toast_texts(kept).push(
            toast_texts(all).last(),
        ));
    }
}

/// The messages that are shown, the oldest first.
#[derive(Debug)]
pub struct Toasts {
    pub toasts: Vec<Toast>,
}

impl Toasts {
    pub open spec fn texts(&self) -> Seq<(Seq<char>, ToastKind)> {
        toast_texts(self.toasts@)
    }

    pub fn new() -> (t: Self)
        ensures
            t.texts().len() == 0,
    {
        Toasts { toasts: Vec::new() }
    }

    /// Shows a message. Where there are too many the oldest goes. The others stay as they
    /// are.
    pub fn push_toast(&mut self, text: String, kind: ToastKind)
        ensures
            final(self).texts() == newest(old(self).texts().push((text@, kind))),
            exists|toast: Toast|
                toast.text@ == text@ && toast.kind == kind && final(self).toasts@ == newest(
                    #[trigger] old(self).toasts@.push(toast),
                ),
    {
        let toast = Toast { text, kind, shown_at: now() };
        let ghost all = self.toasts@.push(toast);
        self.toasts.push(toast);
        proof {
            assert(all.subrange(0, all.len() as int) =~= all);
        }
        while self.toasts.len() > MAX_TOASTS
            invariant
                self.toasts@.len() <= all.len(),
                self.toasts@ == all.subrange(all.len() - self.toasts@.len(), all.len() as int),
                all.len() > MAX_TOASTS ==> self.toasts@.len() >= MAX_TOASTS,
                all.len() <= MAX_TOASTS ==> self.toasts@ == all,
            decreases self.toasts@.len(),
        {
            let ghost now = self.toasts@;
            let _ = self.toasts.remove(0);
            proof {
                assert(self.toasts@ =~= now.drop_first());
                assert(self.toasts@ =~= all.subrange(
                    all.len() - self.toasts@.len(),
                    all.len() as int,
                ));
            }
        }
        proof {
            assert(self.toasts@ == newest(old(self).toasts@.push(toast)));
            assert(toast_texts(all) =~= old(self).texts().push((text@, kind)));
            assert(self.texts() =~= newest(toast_texts(all)));
        }
    }

    /// Drops the messages that are too old, by the age of each.
    pub fn expire_after(&mut self, ages: &Vec<u128>)
        requires
            ages@.len() == old(self).texts().len(),
        ensures
            final(self).toasts@ == unexpired(old(self).toasts@, ages@),
            final(self).texts() == unexpired(old(self).texts(), ages@),
    {
        let ghost all = self.toasts@;
        let mut rest: Vec<Toast> = Vec::new();
        std::mem::swap(&mut rest, &mut self.toasts);
        let mut kept: Vec<Toast> = Vec::new();
        let count: usize = ages.len();
        let mut i: usize = 0;
        proof {
            assert(all.subrange(0, 0) =~= Seq::empty());
            assert(kept@ =~= unexpired(all.subrange(0, 0), ages@));
            assert(rest@ =~= all.subrange(0, all.len() as int));
        }
        while rest.len() > 0
            invariant
                i + rest@.len() == all.len(),
                count == ages@.len() == all.len(),
                rest@ == all.subrange(i as int, all.len() as int),
                kept@ == unexpired(all.subrange(0, i as int), ages@),
            decreases rest@.len(),
        {
            let toast = rest.remove(0);
            proof {
                assert(all.subrange(0, i + 1).drop_last() =~= all.subrange(0, i as int));
                assert(all.subrange(0, i + 1).last() == toast);
                assert(rest@ =~= all.subrange(i + 1, all.len() as int));
            }
            if ages[i] < TOAST_TTL_NANOS {
                kept.push(toast);
            }
            i = i + 1;
        }
        proof {
            assert(all.subrange(0, i as int) =~= all);
            lemma_unexpired_texts(all, ages@);
        }
        self.toasts = kept;
    }

    /// Drops the messages that are too old.
    pub fn expire_toasts(&mut self)
        ensures
            exists|ages: Seq<u128>|
                ages.len() == old(self).texts().len() && final(self).texts()
                    == #[trigger] unexpired(old(self).texts(), ages) && final(self).toasts@
                    == unexpired(old(self).toasts@, ages),
    {
        let mut ages: Vec<u128> = Vec::new();
        let mut i: usize = 0;
        while i < self.toasts.len()
            invariant
                i <= self.toasts@.len(),
                ages@.len() == i,
            decreases self.toasts@.len() - i,
        {
            ages.push(nanos_since(&self.toasts[i].shown_at));
            i = i + 1;
        }
        self.expire_after(&ages);
    }

    /// The user takes a message away.
    pub fn dismiss(&mut self, index: usize)
        ensures
            final(self).texts() == (if index < old(self).texts().len() {
                old(self).texts().remove(index as int)
            } else {
                old(self).texts()
            }),
            final(self).toasts@ == (if index < old(self).toasts@.len() {
                old(self).toasts@.remove(index as int)
            } else {
                old(self).toasts@
            }),
    {
        if index < self.toasts.len() {
            let ghost before = self.texts();
            let _ = self.toasts.remove(index);
            proof {
                assert(self.texts() =~= before.remove(index as int));
            }
        }
    }
}

/// There are never more messages than may be shown.
pub proof fn toasts_are_bounded(all: Seq<(Seq<char>, ToastKind)>, text: Seq<char>, kind: ToastKind)
    ensures
        newest(all.push((text, kind))).len() <= MAX_TOASTS,
        newest(all.push((text, kind))).last() == (text, kind),
{
}

/// A new message is the last one, and of the others the latest stay, in their order.
pub proof fn the_latest_messages_stay<T>(all: Seq<T>, new: T, back: int)
    requires
        0 <= back < all.len(),
        back < MAX_TOASTS - 1,
    ensures
        newest(all.push(new)).last() == new,
        newest(all.push(new)).len() <= MAX_TOASTS,
        newest(all.push(new)).len() > back + 1,
        newest(all.push(new))[newest(all.push(new)).len() - 2 - back] == all[all.len() - 1 - back],
{
}

/// A message stays as long as it is younger than its time, whatever becomes of the others.
pub proof fn messages_go_when_their_time_is_over<T>(all: Seq<T>, ages: Seq<u128>, k: int)
    requires
        all.len() <= ages.len(),
        0 <= k < all.len(),
    ensures
        ages[k] < TOAST_TTL_NANOS ==> unexpired(all, ages).contains(all[k]),
        unexpired(all, ages).len() <= all.len(),
        (forall|i: int| 0 <= i < all.len() ==> #[trigger] ages[i] < TOAST_TTL_NANOS) ==> unexpired(
            all,
            ages,
        ) == all,
        (forall|i: int| 0 <= i < all.len() ==> #[trigger] ages[i] >= TOAST_TTL_NANOS)
            ==> unexpired(all, ages).len() == 0,
    decreases all.len(),
{
    let init = all.drop_last();
    let before = unexpired(init, ages);
    let after = unexpired(all, ages);
    if init.len() > 0 {
        let j = if k < init.len() {
            k
        } else {
            0
        };
        messages_go_when_their_time_is_over(init, ages, j);
    } else {
        assert(before =~= Seq::empty());
    }
    assert(init.push(all.last()) =~= all);
    if ages[k] < TOAST_TTL_NANOS {
        if k < init.len() {
            let i = choose|i: int| 0 <= i < before.len() && before[i] == init[k];
            assert(after[i] == all[k]);
        } else {
            assert(after[after.len() - 1] == all[k]);
        }
    }
}

} // verus!
