//! The rolling analysis window: the newest samples drained from the capture
//! ring slide in at the end, the oldest fall out at the front.
use vstd::prelude::*;

verus! {

/// The window `win` after `fresh` samples arrive: the last `win.len()` samples
/// of `win` followed by `fresh`.
pub open spec fn slid<T>(win: Seq<T>, fresh: Seq<T>) -> Seq<T> {
    let all = win + fresh;
    all.subrange(all.len() - win.len(), all.len() as int)
}

/// Slides the first `n` samples of `drained` into `window`, keeping its length:
/// when `n` reaches the window length the window holds the last samples of
/// `drained[..n]`, otherwise its contents move towards the front by `n` and
/// `drained[..n]` fills the end.
pub fn push_recent<T: Copy>(window: &mut [T], drained: &[T], n: usize)
    requires
        n <= drained@.len(),
    ensures
        final(window)@ == slid(old(window)@, drained@.take(n as int)),
        final(window)@.len() == old(window)@.len(),
        forall|k: int|
            0 <= k < old(window)@.len() ==> #[trigger] final(window)@[k] == if k + n < old(
                window,
            )@.len() {
                old(window)@[k + n]
            } else {
                drained@[k + n - old(window)@.len()]
            },
{
    let len = window.len();
    let take = if n < len {
        n
    } else {
        len
    };
    let keep = len - take;
    for i in 0..keep
        invariant
            len == window@.len(),
            len == old(window)@.len(),
            keep + take == len,
            forall|k: int| 0 <= k < i ==> window@[k] == old(window)@[k + take],
            forall|k: int| i <= k < len ==> window@[k] == old(window)@[k],
    {
        let v = window[i + take];
        window[i] = v;
    }
    for j in 0..take
        invariant
            len == window@.len(),
            len == old(window)@.len(),
            keep + take == len,
            take <= n <= drained@.len(),
            take == n || take == len,
            forall|k: int| 0 <= k < keep ==> window@[k] == old(window)@[k + take],
            forall|k: int| keep <= k < keep + j ==> window@[k] == drained@[n - take + (k - keep)],
    {
        window[keep + j] = drained[n - take + j];
    }
    let ghost fresh = drained@.take(n as int);
    assert(window@ =~= slid(old(window)@, fresh));
}

/// Sliding in `a` and then `b` leaves the same window as sliding in `a + b`
/// at once.
pub proof fn slid_compose<T>(win: Seq<T>, a: Seq<T>, b: Seq<T>)
    ensures
        slid(slid(win, a), b) == slid(win, a + b),
{
    assert(slid(slid(win, a), b) =~= slid(win, a + b));
}

/// Sliding in at least a window's worth of samples leaves exactly the newest
/// of them; sliding in fewer keeps the window's tail in front of them. Either
/// way the window keeps its length.
pub proof fn slid_contents<T>(win: Seq<T>, fresh: Seq<T>)
    ensures
        slid(win, fresh).len() == win.len(),
        fresh.len() >= win.len() ==> slid(win, fresh) == fresh.subrange(
            fresh.len() - win.len(),
            fresh.len() as int,
        ),
        fresh.len() < win.len() ==> slid(win, fresh) == win.subrange(
            fresh.len() as int,
            win.len() as int,
        ) + fresh,
{
    if fresh.len() >= win.len() {
        assert(slid(win, fresh) =~= fresh.subrange(fresh.len() - win.len(), fresh.len() as int));
    } else {
        assert(slid(win, fresh) =~= win.subrange(fresh.len() as int, win.len() as int) + fresh);
    }
}

} // verus!
