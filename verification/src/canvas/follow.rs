//! Whether a link followed in one panel is followed in all of them, and the
//! bookkeeping that tells a person's click apart from the echo of the last
//! push.
//!
//! Every panel we navigate loads, reports in, and looks exactly like someone
//! clicking a link, so a push writes down who it is waiting to hear from and
//! spends every report until that list empties. A redirect landing inside that
//! window is absorbed the same way, which is the right answer: each panel
//! follows the redirect itself, at its own width.

use vstd::prelude::*;
use crate::text::{same, texts};

verus! {

/// How long a pushed navigation is given to settle before a report counts as a
/// fresh instruction again, in milliseconds. A panel that never reports back,
/// because it failed to load, must not wedge following forever.
pub const FOLLOW_GUARD: u64 = 4000;

/// More broadcasts than this inside `FOLLOW_WINDOW` is not a person clicking.
pub const FOLLOW_BURST: usize = 6;

/// In milliseconds.
pub const FOLLOW_WINDOW: u64 = 5000;

/// What to do with a URL a panel just said it is showing.
#[derive(Debug, Clone, Copy, PartialEq, Eq, Structural)]
pub enum FollowAction {
    /// An echo of a navigation we pushed, a redirect off the back of one, or
    /// simply where the row already is.
    Ignore,
    /// Somebody followed a link. Take every other panel there.
    Broadcast,
    /// The panels are sending each other back and forth. Stop.
    GiveUp,
}

/// Times are in milliseconds, of any clock that does not run backwards.
#[derive(Debug)]
pub struct Follow {
    pub on: bool,
    pending: Option<Pending>,
    /// When the recent broadcasts happened, oldest first.
    history: Vec<u64>,
}

#[derive(Debug)]
struct Pending {
    awaiting: Vec<String>,
    at: u64,
}

/// A push that has not settled: who has not reported in, and when it was made.
#[verifier::ext_equal]
pub struct Waiting {
    pub on: Set<Seq<char>>,
    pub since: u64,
}

/// A [`Follow`], by what it decides with.
#[verifier::ext_equal]
pub struct Following {
    pub on: bool,
    pub waiting: Option<Waiting>,
    pub history: Seq<u64>,
}

impl View for Follow {
    type V = Following;

    closed spec fn view(&self) -> Following {
        Following {
            on: self.on,
            waiting: match self.pending {
                Some(p) => Some(Waiting { on: texts(p.awaiting@).to_set(), since: p.at }),
                None => None,
            },
            history: self.history@,
        }
    }
}

/// How long ago something was; nothing is in the future.
pub open spec fn since(now: u64, at: u64) -> int {
    if now < at {
        0
    } else {
        now - at
    }
}

/// The broadcasts that are still recent.
pub open spec fn recent(history: Seq<u64>, now: u64) -> Seq<u64>
    decreases history.len(),
{
    if history.len() == 0 {
        history
    } else {
        let d = recent(history.drop_last(), now);
        if since(now, history.last()) < FOLLOW_WINDOW {
            d.push(history.last())
        } else {
            d
        }
    }
}

/// A report judged by its URL alone, with nothing being waited for.
pub open spec fn judged(f: Following, href: Seq<char>, current: Seq<char>, now: u64) -> (
    Following,
    FollowAction,
) {
    let history = recent(f.history, now);
    if href == current {
        (f, FollowAction::Ignore)
    } else if history.len() >= FOLLOW_BURST {
        (
            Following { on: false, waiting: None, history: Seq::empty() },
            FollowAction::GiveUp,
        )
    } else {
        (Following { history: history.push(now), ..f }, FollowAction::Broadcast)
    }
}

/// What a report means: which state it leaves, and what to do.
pub open spec fn decided(
    f: Following,
    from: Seq<char>,
    href: Seq<char>,
    current: Seq<char>,
    panels: int,
    now: u64,
) -> (Following, FollowAction) {
    if !f.on || panels < 2 {
        (f, FollowAction::Ignore)
    } else {
        match f.waiting {
            // Still waiting on panels we pushed. Cross this one off; a report
            // is only an instruction again once the row has settled.
            Some(w) => if since(now, w.since) <= FOLLOW_GUARD {
                let left = w.on.remove(from);
                (
                    Following {
                        waiting: if left =~= Set::empty() {
                            None
                        } else {
                            Some(Waiting { on: left, since: w.since })
                        },
                        ..f
                    },
                    FollowAction::Ignore,
                )
            } else {
                // Past the deadline we have stopped waiting, so this report is
                // not owed to us and gets judged on its URL like any other.
                // Spending it as well would swallow the first click after a
                // panel that never reported back, which is the case the
                // deadline exists for.
                judged(Following { waiting: None, ..f }, href, current, now)
            },
            None => judged(f, href, current, now),
        }
    }
}

impl Default for Follow {
    fn default() -> (r: Self)
        ensures
            r@ == (Following { on: true, waiting: None, history: Seq::empty() }),
    {
        let r = Follow { on: true, pending: None, history: Vec::new() };
        assert(r@.history =~= Seq::<u64>::empty());
        r
    }
}

fn elapsed(now: u64, at: u64) -> (r: u64)
    ensures
        r == since(now, at),
{
    if now < at {
        0
    } else {
        now - at
    }
}

/// `v` without any `from` in it.
pub(crate) fn without(v: &Vec<String>, from: &str) -> (r: Vec<String>)
    ensures
        texts(r@).to_set() == texts(v@).to_set().remove(from@),
        (r@.len() == 0) == (texts(r@).to_set() =~= Set::<Seq<char>>::empty()),
{
    let mut out: Vec<String> = Vec::new();
    let ghost all = texts(v@);
    let mut i: usize = 0;
    assert(texts(out@).to_set() =~= all.take(0).to_set().remove(from@));
    while i < v.len()
        invariant
            i <= v@.len(),
            all == texts(v@),
            texts(out@).to_set() == all.take(i as int).to_set().remove(from@),
        decreases v@.len() - i,
    {
        let ghost before = texts(out@);
        let ghost prefix = all.take(i as int);
        assert(all.take(i + 1) =~= prefix.push(all[i as int]));
        assert(prefix.push(all[i as int]).to_set() =~= prefix.to_set().insert(all[i as int])) by {
            vstd::seq_lib::lemma_seq_contains_after_push(prefix, all[i as int], all[i as int]);
            assert forall|x: Seq<char>|
                prefix.push(all[i as int]).to_set().contains(x) == prefix.to_set().insert(
                    all[i as int],
                ).contains(x) by {
                vstd::seq_lib::lemma_seq_contains_after_push(prefix, all[i as int], x);
            }
        }
        if !same(v[i].as_str(), from) {
            let x = v[i].as_str().to_owned();
            out.push(x);
            assert(texts(out@) =~= before.push(x@));
            assert(before.push(x@).to_set() =~= before.to_set().insert(x@)) by {
                assert forall|y: Seq<char>|
                    before.push(x@).to_set().contains(y) == before.to_set().insert(
                        x@,
                    ).contains(y) by {
                    vstd::seq_lib::lemma_seq_contains_after_push(before, x@, y);
                }
            }
        }
        assert(texts(out@).to_set() =~= all.take(i + 1).to_set().remove(from@));
        i += 1;
    }
    assert(all.take(all.len() as int) =~= all);
    proof {
        if out@.len() > 0 {
            assert(texts(out@).to_set().contains(texts(out@)[0]));
        } else {
            assert(texts(out@).to_set() =~= Set::<Seq<char>>::empty());
        }
    }
    out
}

impl Follow {
    fn forget_old(&mut self, now: u64)
        ensures
            final(self)@ == (Following { history: recent(old(self)@.history, now), ..old(self)@ }),
    {
        let ghost start = self@;
        let mut kept: Vec<u64> = Vec::new();
        let mut i: usize = 0;
        assert(self.history@.take(0) =~= Seq::<u64>::empty());
        while i < self.history.len()
            invariant
                i <= self.history@.len(),
                self@ == start,
                kept@ == recent(self.history@.take(i as int), now),
            decreases self.history@.len() - i,
        {
            let ghost all = self.history@;
            proof {
                assert(all.take(i + 1).drop_last() =~= all.take(i as int));
                assert(all.take(i + 1).last() == all[i as int]);
            }
            if elapsed(now, self.history[i]) < FOLLOW_WINDOW {
                kept.push(self.history[i]);
            }
            i += 1;
        }
        assert(self.history@.take(self.history@.len() as int) =~= self.history@);
        self.history = kept;
    }

    fn judge(&mut self, href: &str, current: &str, now: u64) -> (r: FollowAction)
        ensures
            (final(self)@, r) == judged(old(self)@, href@, current@, now),
    {
        if same(href, current) {
            return FollowAction::Ignore;
        }
        // A site that redirects on width sends two panels chasing each other
        // forever. Nothing a person does looks like this.
        self.forget_old(now);
        if self.history.len() >= FOLLOW_BURST {
            self.on = false;
            self.history = Vec::new();
            self.pending = None;
            assert(self@.history =~= Seq::<u64>::empty());
            return FollowAction::GiveUp;
        }
        self.history.push(now);
        FollowAction::Broadcast
    }

    /// `href` is the URL the panel reports, `current` is where the row believes
    /// it is. `panels` is how many panels exist: one panel has nobody to tell.
    pub fn decide(
        &mut self,
        from: &str,
        href: &str,
        current: &str,
        panels: usize,
        now: u64,
    ) -> (r: FollowAction)
        ensures
            (final(self)@, r) == decided(old(self)@, from@, href@, current@, panels as int, now),
    {
        if !self.on || panels < 2 {
            return FollowAction::Ignore;
        }
        let ghost start = self@;
        let mut settled = false;
        let mut keep: Option<Pending> = None;
        if let Some(p) = &self.pending {
            if elapsed(now, p.at) <= FOLLOW_GUARD {
                let left = without(&p.awaiting, from);
                if left.len() > 0 {
                    keep = Some(Pending { awaiting: left, at: p.at });
                }
                settled = true;
            }
        }
        self.pending = keep;
        if settled {
            assert(self@ =~= decided(start, from@, href@, current@, panels as int, now).0);
            return FollowAction::Ignore;
        }
        assert(self@ =~= Following { waiting: None, ..start });
        self.judge(href, current, now)
    }

    /// Record a navigation pushed to `awaiting`, whether that came from a
    /// followed link or from the toolbar. Either way every one of those panels
    /// is about to report in.
    pub fn pushed(&mut self, awaiting: Vec<String>, now: u64)
        ensures
            final(self)@ == (Following {
                waiting: Some(Waiting { on: texts(awaiting@).to_set(), since: now }),
                ..old(self)@
            }),
    {
        self.pending = Some(Pending { awaiting, at: now });
    }

    /// Following is a mode, and a mode that silently stays stale is worse than
    /// one that resets.
    pub fn reset(&mut self, on: bool)
        ensures
            final(self)@ == (Following { on, waiting: None, history: Seq::empty() }),
    {
        self.on = on;
        self.pending = None;
        self.history = Vec::new();
        assert(self@.history =~= Seq::<u64>::empty());
    }

    /// Whether following is on.
    pub fn is_on(&self) -> (r: bool)
        ensures
            r == self@.on,
    {
        self.on
    }
}

/// What a run of reports of one URL, all at one time, comes to.
pub open spec fn decided_all(
    f: Following,
    from: Seq<Seq<char>>,
    href: Seq<char>,
    current: Seq<char>,
    panels: int,
    now: u64,
) -> Following
    decreases from.len(),
{
    if from.len() == 0 {
        f
    } else {
        decided(
            decided_all(f, from.drop_last(), href, current, panels, now),
            from.last(),
            href,
            current,
            panels,
            now,
        ).0
    }
}

/// The echo of a push is spent: until the last panel that was pushed has
/// reported in, or the guard has run out, every report is ignored, whatever it
/// says.
pub proof fn the_echo_of_a_push_is_ignored(
    f: Following,
    from: Seq<char>,
    href: Seq<char>,
    current: Seq<char>,
    panels: int,
    now: u64,
)
    requires
        f.waiting matches Some(w) && since(now, w.since) <= FOLLOW_GUARD,
    ensures
        decided(f, from, href, current, panels, now).1 == FollowAction::Ignore,
        decided(f, from, href, current, panels, now).0.history == f.history,
        decided(f, from, href, current, panels, now).0.on == f.on,
{
}

/// Once every panel that was pushed has reported in on the URL it was pushed
/// to, nothing is being waited for, and the next panel to report another URL is
/// followed, unless there were too many of those of late.
pub proof fn the_row_is_free_after_the_last_echo(
    f: Following,
    reports: Seq<Seq<char>>,
    url: Seq<char>,
    panels: int,
    now: u64,
    from: Seq<char>,
    next: Seq<char>,
)
    requires
        f.on,
        panels >= 2,
        f.waiting matches Some(w) && since(now, w.since) <= FOLLOW_GUARD && w.on.subset_of(
            reports.to_set(),
        ),
        reports.len() > 0,
        next != url,
        recent(f.history, now).len() < FOLLOW_BURST,
    ensures
        decided_all(f, reports, url, url, panels, now).waiting is None,
        decided(
            decided_all(f, reports, url, url, panels, now),
            from,
            next,
            url,
            panels,
            now,
        ).1 == FollowAction::Broadcast,
{
    lemma_echoes(f, reports, url, panels, now);
    let w = f.waiting->Some_0;
    let g = decided_all(f, reports, url, url, panels, now);
    if g.waiting is Some {
        let left = g.waiting->Some_0.on;
        assert(left =~= Set::empty());
    }
}

proof fn lemma_echoes(
    f: Following,
    reports: Seq<Seq<char>>,
    url: Seq<char>,
    panels: int,
    now: u64,
)
    requires
        f.on,
        panels >= 2,
        f.waiting matches Some(w) && since(now, w.since) <= FOLLOW_GUARD,
    ensures
        ({
            let g = decided_all(f, reports, url, url, panels, now);
            let w = f.waiting->Some_0;
            &&& g.on
            &&& g.history == f.history
            &&& reports.len() > 0 ==> match g.waiting {
                Some(v) => v.since == w.since && v.on == w.on.difference(reports.to_set())
                    && v.on != Set::<Seq<char>>::empty(),
                None => w.on.difference(reports.to_set()) =~= Set::empty(),
            }
        }),
    decreases reports.len(),
{
    let w = f.waiting->Some_0;
    if reports.len() > 0 {
        let d = reports.drop_last();
        lemma_echoes(f, d, url, panels, now);
        let before = decided_all(f, d, url, url, panels, now);
        let x = reports.last();
        assert(reports.to_set() =~= d.to_set().insert(x)) by {
            assert(reports =~= d.push(x));
            assert forall|y: Seq<char>|
                reports.to_set().contains(y) == d.to_set().insert(x).contains(y) by {
                vstd::seq_lib::lemma_seq_contains_after_push(d, x, y);
            }
        }
        if d.len() == 0 {
            assert(d.to_set() =~= Set::empty());
            assert(w.on.remove(x) =~= w.on.difference(reports.to_set()));
        } else {
            match before.waiting {
                Some(v) => {
                    assert(v.on.remove(x) =~= w.on.difference(reports.to_set()));
                },
                None => {
                    assert(w.on.difference(reports.to_set()) =~= Set::empty());
                },
            }
        }
    }
}

/// A report past the guard is judged on its URL: a click after a panel goes
/// quiet is still followed, and a late echo is still not a navigation.
pub proof fn a_quiet_panel_does_not_wedge_following(
    f: Following,
    from: Seq<char>,
    href: Seq<char>,
    current: Seq<char>,
    panels: int,
    now: u64,
)
    requires
        f.on,
        panels >= 2,
        f.waiting matches Some(w) && since(now, w.since) > FOLLOW_GUARD,
    ensures
        href == current ==> decided(f, from, href, current, panels, now).1
            == FollowAction::Ignore,
        href != current ==> decided(f, from, href, current, panels, now).1
            != FollowAction::Ignore,
        decided(f, from, href, current, panels, now).0.waiting is None,
{
}

proof fn lemma_recent(history: Seq<u64>, now: u64)
    ensures
        recent(history, now).len() <= history.len(),
    decreases history.len(),
{
    if history.len() > 0 {
        lemma_recent(history.drop_last(), now);
    }
}

/// Panels that keep sending each other elsewhere are stopped: no more than
/// [`FOLLOW_BURST`] broadcasts are ever remembered as recent, the one after
/// them turns following off, and while it is off nothing is followed.
pub proof fn panels_chasing_each_other_are_stopped(
    f: Following,
    from: Seq<char>,
    href: Seq<char>,
    current: Seq<char>,
    panels: int,
    now: u64,
)
    requires
        f.history.len() <= FOLLOW_BURST,
    ensures
        decided(f, from, href, current, panels, now).0.history.len() <= FOLLOW_BURST,
        decided(f, from, href, current, panels, now).1 == FollowAction::GiveUp ==> !decided(
            f,
            from,
            href,
            current,
            panels,
            now,
        ).0.on,
        !f.on ==> decided(f, from, href, current, panels, now) == (f, FollowAction::Ignore),
        panels < 2 ==> decided(f, from, href, current, panels, now) == (f, FollowAction::Ignore),
{
    lemma_recent(f.history, now);
}

/// What counts against a burst: the broadcasts of the last five seconds, and
/// those alone.
pub proof fn only_the_last_five_seconds_count(history: Seq<u64>, now: u64)
    ensures
        recent(history, now) == history.filter(|at: u64| now - at < 5000),
    decreases history.len(),
{
    reveal(Seq::filter);
    if history.len() > 0 {
        only_the_last_five_seconds_count(history.drop_last(), now);
    }
}

/// A row that is settled follows a link to anywhere else, the sixth time in a
/// row too; after six broadcasts in five seconds it gives up and stops following.
pub proof fn a_settled_row_follows_a_link(
    f: Following,
    from: Seq<char>,
    href: Seq<char>,
    current: Seq<char>,
    panels: int,
    now: u64,
)
    requires
        f.on,
        panels >= 2,
        f.waiting is None || now - f.waiting->0.since > 4000,
    ensures
        ({
            let lately = f.history.filter(|at: u64| now - at < 5000);
            let r = decided(f, from, href, current, panels, now);
            &&& href == current ==> r.1 == FollowAction::Ignore && r.0.on && r.0.history
                == f.history
            &&& href != current && lately.len() < 6 ==> r.1 == FollowAction::Broadcast && r.0.on
                && r.0.history == lately.push(now)
            &&& href != current && lately.len() >= 6 ==> r.1 == FollowAction::GiveUp && !r.0.on
                && r.0.waiting is None
        }),
{
    only_the_last_five_seconds_count(f.history, now);
}

/// While a row waits for the panels it sent, a report is no instruction: it only
/// crosses its panel off, and the row is settled once none is left.
pub proof fn a_row_in_motion_waits_for_its_panels(
    f: Following,
    from: Seq<char>,
    href: Seq<char>,
    current: Seq<char>,
    panels: int,
    now: u64,
)
    requires
        f.on,
        panels >= 2,
        f.waiting is Some,
        now - f.waiting->0.since <= 4000,
    ensures
        ({
            let r = decided(f, from, href, current, panels, now);
            let left = f.waiting->0.on.remove(from);
            &&& r.1 == FollowAction::Ignore
            &&& r.0.on && r.0.history == f.history
            &&& (forall|x: Seq<char>| !left.contains(x)) ==> r.0.waiting is None
            &&& (exists|x: Seq<char>| left.contains(x)) ==> r.0.waiting is Some
                && r.0.waiting->0.on == left && r.0.waiting->0.since == f.waiting->0.since
        }),
{
    let left = f.waiting->0.on.remove(from);
    if forall|x: Seq<char>| !left.contains(x) {
        assert(left =~= Set::empty());
    }
}

/// A row that does not follow, or has no other panel, ignores every report.
pub proof fn nothing_is_followed_when_it_is_off(
    f: Following,
    from: Seq<char>,
    href: Seq<char>,
    current: Seq<char>,
    panels: int,
    now: u64,
)
    requires
        !f.on || panels < 2,
    ensures
        decided(f, from, href, current, panels, now) == (f, FollowAction::Ignore),
{
}

} // verus!
