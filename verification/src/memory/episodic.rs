use vstd::prelude::*;

verus! {

/// Relies on chrono::Local::now for the current wall-clock instant in
/// milliseconds; the result depends on the clock, so nothing is
/// promised of it. chrono aborts when the platform clock reads before
/// 1970, so this call returns only on a sanely set clock.
#[verifier::external_body]
fn now_millis() -> i64 {
    chrono::Local::now().timestamp_millis()
}

/// What recording an event at instant `t` does: the event joins at the
/// back, and with the log over its bound the oldest event leaves.
pub open spec fn spec_recorded(
    s: Seq<(i64, Seq<char>)>,
    t: i64,
    e: Seq<char>,
    max: int,
) -> Seq<(i64, Seq<char>)> {
    let p = s.push((t, e));
    if p.len() > max {
        p.drop_first()
    } else {
        p
    }
}

/// The events of `s` whose instants lie in `[a, b]`, in stored order.
pub open spec fn spec_between(s: Seq<(i64, Seq<char>)>, a: i64, b: i64) -> Seq<(i64, Seq<char>)>
    decreases s.len(),
{
    if s.len() == 0 {
        Seq::empty()
    } else {
        spec_between(s.drop_last(), a, b) + (if a <= s.last().0 <= b {
            seq![s.last()]
        } else {
            Seq::empty()
        })
    }
}

/// A bounded log of timestamped events, oldest first.
pub struct EpisodicMemory {
    events: Vec<(i64, String)>,
    max_size: usize,
}

impl View for EpisodicMemory {
    type V = Seq<(i64, Seq<char>)>;

    /// The events from oldest to newest, as instant and message.
    closed spec fn view(&self) -> Seq<(i64, Seq<char>)> {
        self.events@.map_values(|p: (i64, String)| (p.0, p.1@))
    }
}

impl EpisodicMemory {
    /// The bound the log was made with.
    pub closed spec fn spec_max_size(&self) -> usize {
        self.max_size
    }

    /// An empty log that will hold at most `max_size` events.
    pub fn new(max_size: usize) -> (r: EpisodicMemory)
        ensures
            r@ == Seq::<(i64, Seq<char>)>::empty(),
            r.spec_max_size() == max_size,
    {
        EpisodicMemory { events: Vec::new(), max_size }
    }

    /// Records an event at the present instant; whatever instant the
    /// clock hands back, the event joins at the back and the oldest
    /// leaves once the log is over its bound.
    pub fn record_event(&mut self, event: String)
        ensures
            exists|t: i64| final(self)@ == spec_recorded(
                old(self)@,
                t,
                event@,
                old(self).spec_max_size() as int,
            ),
            final(self).spec_max_size() == old(self).spec_max_size(),
    {
        let t = now_millis();
        let ghost before = self@;
        self.events.push((t, event));
        proof {
            assert(self@ =~= before.push((t, event@)));
        }
        if self.events.len() > self.max_size {
            let ghost mid = self@;
            self.events.remove(0);
            proof {
                assert(self@ =~= mid.drop_first());
            }
        }
        proof {
            assert(final(self)@ == spec_recorded(
                before,
                t,
                event@,
                old(self).spec_max_size() as int,
            ));
        }
    }

    /// The `count` most recent events, newest first.
    pub fn get_recent_events(&self, count: usize) -> (r: Vec<(i64, String)>)
        ensures
            r@.len() == (if count <= self@.len() {
                count as int
            } else {
                self@.len() as int
            }),
            forall|i: int|
                0 <= i < r@.len() ==> (#[trigger] r@[i]).0 == self@[self@.len() - 1 - i].0 && r@[
                    i
                ].1@ == self@[self@.len() - 1 - i].1,
    {
        let n: usize = self.events.len();
        let take: usize = if count <= n {
            count
        } else {
            n
        };
        let mut r: Vec<(i64, String)> = Vec::new();
        let mut i: usize = 0;
        while i < take
            invariant
                n == self.events@.len(),
                0 <= i <= take <= n,
                r@.len() == i,
                forall|k: int|
                    0 <= k < i ==> (#[trigger] r@[k]).0 == self@[n - 1 - k].0 && r@[k].1@ == self@[
                        n - 1 - k
                    ].1,
            decreases take - i,
        {
            let e = &self.events[n - 1 - i];
            r.push((e.0, e.1.clone()));
            i = i + 1;
        }
        r
    }

    /// The logged events whose instants lie in `[start, end]`, oldest
    /// first.
    pub fn get_events_between(&self, start: i64, end: i64) -> (r: Vec<(i64, String)>)
        ensures
            r@.map_values(|p: (i64, String)| (p.0, p.1@)) == spec_between(self@, start, end),
    {
        let n: usize = self.events.len();
        let mut r: Vec<(i64, String)> = Vec::new();
        let mut i: usize = 0;
        while i < n
            invariant
                n == self.events@.len(),
                0 <= i <= n,
                r@.map_values(|p: (i64, String)| (p.0, p.1@)) == spec_between(
                    self@.subrange(0, i as int),
                    start,
                    end,
                ),
            decreases n - i,
        {
            let e = &self.events[i];
            let ghost prev = r@.map_values(|p: (i64, String)| (p.0, p.1@));
            if start <= e.0 && e.0 <= end {
                r.push((e.0, e.1.clone()));
            }
            proof {
                let pre = self@.subrange(0, i as int);
                let cur = self@.subrange(0, i + 1);
                assert(cur.drop_last() =~= pre);
                assert(cur.last() == self@[i as int]);
                assert(r@.map_values(|p: (i64, String)| (p.0, p.1@)) =~= spec_between(
                    cur,
                    start,
                    end,
                ));
            }
            i = i + 1;
        }
        proof {
            assert(self@.subrange(0, n as int) =~= self@);
        }
        r
    }
}

} // verus!
