//! The notification queue: what arrives, what is shown, and when it goes.
//!
//! Times are milliseconds on the caller's monotonic clock.

use vstd::prelude::*;

verus! {

/// The notification daemon's settings file.
#[derive(Clone, Copy, Debug, PartialEq, Eq)]
pub struct Config {
    /// Surface size in logical pixels, anchored to the top-right corner.
    pub width: u32,
    pub height: u32,
    /// Distance from the screen edges, logical pixels.
    pub margin: i32,
}

impl Default for Config {
    fn default() -> (r: Config)
        ensures
            r == (Config { width: 380, height: 96, margin: 8 }),
    {
        Config { width: 380, height: 96, margin: 8 }
    }
}

impl crate::config::File for Config {
    const NAME: &'static str = "notification";
}

#[derive(Clone, Debug, PartialEq, Eq)]
pub struct Notification {
    pub app_name: String,
    pub summary: String,
    pub body: String,
    /// Milliseconds it stays shown; `None` keeps the notification until it is
    /// dismissed.
    pub timeout_ms: Option<u64>,
}

/// A queued notification and when it arrived.
#[derive(Clone, Debug, PartialEq, Eq)]
pub struct Shown {
    pub notification: Notification,
    pub received_ms: u64,
}

pub open spec fn expiry(s: Shown) -> Option<int> {
    match s.notification.timeout_ms {
        Some(t) => Some(s.received_ms + t),
        None => None,
    }
}

impl Shown {
    /// When it expires, if ever.
    pub fn expires_at(&self) -> (r: Option<u128>)
        ensures
            match r {
                Some(t) => expiry(*self) == Some(t as int),
                None => expiry(*self) is None,
            },
    {
        match self.notification.timeout_ms {
            Some(t) => Some(self.received_ms as u128 + t as u128),
            None => None,
        }
    }

    /// How long, at `now_ms`, until it expires (zero once it has), if it ever does:
    /// when to look at the queue again.
    pub fn remaining_ms(&self, now_ms: u64) -> (r: Option<u128>)
        ensures
            match r {
                Some(left) => expiry(*self) matches Some(t) && left == if t > now_ms {
                    t - now_ms
                } else {
                    0
                },
                None => expiry(*self) is None,
            },
    {
        match self.expires_at() {
            Some(t) => Some(if t > now_ms as u128 {
                t - now_ms as u128
            } else {
                0
            }),
            None => None,
        }
    }
}

/// Still shown at `now`: it never expires, or expires later.
pub open spec fn live(s: Shown, now: u64) -> bool {
    match expiry(s) {
        Some(t) => t > now,
        None => true,
    }
}

/// The items of `q` still shown at `now`, in order.
pub open spec fn retain_live(q: Seq<Shown>, now: u64) -> Seq<Shown>
    decreases q.len(),
{
    if q.len() == 0 {
        q
    } else if live(q.last(), now) {
        retain_live(q.drop_last(), now).push(q.last())
    } else {
        retain_live(q.drop_last(), now)
    }
}

/// `incoming`, received at `now`.
pub open spec fn received(incoming: Seq<Notification>, now: u64) -> Seq<Shown> {
    incoming.map_values(|n: Notification| Shown { notification: n, received_ms: now })
}

/// Takes in the notifications that arrived and drops the expired ones.
pub fn sync(queue: &mut Vec<Shown>, incoming: Vec<Notification>, now_ms: u64)
    ensures
        final(queue)@ == retain_live(old(queue)@ + received(incoming@, now_ms), now_ms),
{
    let ghost all = old(queue)@ + received(incoming@, now_ms);
    let mut items: Vec<Shown> = Vec::new();
    std::mem::swap(&mut items, queue);
    let mut arrivals = incoming;
    let ghost arr = arrivals@;
    let mut k: usize = 0;
    while arrivals.len() > 0
        invariant
            arrivals@.len() <= arr.len(),
            arrivals@ == arr.skip(arr.len() - arrivals@.len()),
            items@ == old(queue)@ + received(arr.take(arr.len() - arrivals@.len()), now_ms),
            arr == incoming@,
        decreases arrivals@.len(),
    {
        let ghost m = arr.len() - arrivals@.len();
        let n = arrivals.remove(0);
        assert(n == arr[m]);
        assert(arrivals@ =~= arr.skip(arr.len() - arrivals@.len()));
        items.push(Shown { notification: n, received_ms: now_ms });
        assert(arr.take(m + 1) =~= arr.take(m).push(n));
        assert(received(arr.take(m + 1), now_ms) =~= received(arr.take(m), now_ms).push(
            Shown { notification: n, received_ms: now_ms },
        ));
        assert(items@ =~= old(queue)@ + received(arr.take(m + 1), now_ms));
    }
    assert(arr.take(arr.len() as int) =~= arr);
    assert(items@ == all);
    let mut kept: Vec<Shown> = Vec::new();
    let mut rest = items;
    while rest.len() > 0
        invariant
            rest@.len() <= all.len(),
            rest@ == all.skip(all.len() - rest@.len()),
            kept@ == retain_live(all.take(all.len() - rest@.len()), now_ms),
        decreases rest@.len(),
    {
        let ghost m = all.len() - rest@.len();
        let s = rest.remove(0);
        assert(s == all[m]);
        assert(rest@ =~= all.skip(all.len() - rest@.len()));
        assert(all.take(m + 1).drop_last() =~= all.take(m));
        let keep = match s.notification.timeout_ms {
            Some(t) => s.received_ms as u128 + t as u128 > now_ms as u128,
            None => true,
        };
        if keep {
            kept.push(s);
        }
    }
    assert(all.take(all.len() as int) =~= all);
    *queue = kept;
}

/// Dismisses the notification shown first.
pub fn dismiss_first(queue: &mut Vec<Shown>)
    ensures
        final(queue)@ == if old(queue)@.len() > 0 {
            old(queue)@.drop_first()
        } else {
            old(queue)@
        },
{
    if queue.len() > 0 {
        let _ = queue.remove(0);
        assert(queue@ =~= old(queue)@.drop_first());
    }
}


/// After a sync, every queued notification is still live, and none of the live ones
/// was dropped.
pub proof fn law_sync_keeps_exactly_the_live(q: Seq<Shown>, now: u64)
    ensures
        forall|k: int| 0 <= k < retain_live(q, now).len() ==> live(#[trigger] retain_live(q, now)[k], now),
        forall|k: int| 0 <= k < q.len() && live(#[trigger] q[k], now) ==> retain_live(q, now).contains(q[k]),
        forall|k: int| 0 <= k < retain_live(q, now).len() ==> q.contains(#[trigger] retain_live(q, now)[k]),
    decreases q.len(),
{
    if q.len() > 0 {
        let d = q.drop_last();
        law_sync_keeps_exactly_the_live(d, now);
        let rd = retain_live(d, now);
        let x = q.last();
        if live(x, now) {
            let r = rd.push(x);
            assert(r[rd.len() as int] == x);
            assert forall|k: int| 0 <= k < r.len() implies live(#[trigger] r[k], now) by {
                if k < rd.len() {
                    assert(r[k] == rd[k]);
                }
            }
            assert forall|k: int| 0 <= k < q.len() && live(#[trigger] q[k], now) implies r.contains(q[k]) by {
                if k < q.len() - 1 {
                    assert(d[k] == q[k]);
                    assert(rd.contains(q[k]));
                    let j = choose|j: int| 0 <= j < rd.len() && rd[j] == q[k];
                    assert(r[j] == q[k]);
                }
            }
            assert forall|k: int| 0 <= k < r.len() implies q.contains(#[trigger] r[k]) by {
                if k < rd.len() {
                    assert(r[k] == rd[k]);
                    assert(d.contains(rd[k]));
                    let j = choose|j: int| 0 <= j < d.len() && d[j] == rd[k];
                    assert(q[j] == rd[k]);
                } else {
                    assert(q[q.len() - 1] == r[k]);
                }
            }
        } else {
            assert forall|k: int| 0 <= k < q.len() && live(#[trigger] q[k], now) implies rd.contains(q[k]) by {
                if k < q.len() - 1 {
                    assert(d[k] == q[k]);
                }
            }
            assert forall|k: int| 0 <= k < rd.len() implies q.contains(#[trigger] rd[k]) by {
                assert(d.contains(rd[k]));
                let j = choose|j: int| 0 <= j < d.len() && d[j] == rd[k];
                assert(q[j] == rd[k]);
            }
        }
    }
}
} // verus!
