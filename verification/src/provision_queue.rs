//! One-at-a-time gate for provisioning work.
//!
//! A setup script that shares the machine with four others runs past its
//! timeout, and a timeout is a failed workspace. So there is exactly one slot,
//! and jobs are admitted in the order in which they asked.

use vstd::prelude::*;

use crate::list;
use crate::text;

verus! {

/// How many provisioning jobs may run at once. One: the machine does one install
/// at a time.
pub const SLOTS: usize = 1;

/// A held slot. Whoever has it may provision, until it is released.
#[derive(Debug)]
pub struct Slot(());

/// A place in the line.
#[derive(Debug, Clone, Copy, PartialEq, Eq, Structural)]
pub struct WaitTicket {
    pub number: u64,
}

/// What a job that asked for a slot gets.
#[derive(Debug)]
pub enum Admission {
    Now(Slot),
    Later(WaitTicket),
}

/// The queue: the slots in use, and the jobs in line, first come first.
#[derive(Debug)]
pub struct ProvisionQueue {
    running: usize,
    waiting: Vec<WaitTicket>,
    issued: u64,
}

impl ProvisionQueue {
    /// How many jobs run.
    pub closed spec fn running(self) -> nat {
        self.running as nat
    }

    /// The jobs in line, first come first.
    pub closed spec fn line(self) -> Seq<WaitTicket> {
        self.waiting@
    }

    /// How many tickets have been given out.
    pub closed spec fn issued(self) -> nat {
        self.issued as nat
    }

    /// Never more jobs than slots, nobody in line while a slot is free, and
    /// every ticket in line is older than the next one given out.
    pub open spec fn wf(self) -> bool {
        &&& self.running() <= SLOTS
        &&& self.line().len() > 0 ==> self.running() == SLOTS
        &&& self.line().len() <= self.issued()
        &&& forall|i: int|
            0 <= i < self.line().len() ==> (#[trigger] self.line()[i]).number < self.issued()
        &&& forall|i: int, j: int|
            0 <= i < j < self.line().len() ==> self.line()[i].number < self.line()[j].number
    }

    /// The sentence that explains a wait: it counts the running job and the
    /// line.
    pub open spec fn wait_words(self) -> Seq<char> {
        if self.running() + self.line().len() <= 1 {
            "waiting for another workspace to finish setting up"@
        } else {
            "waiting for "@ + text::dec(self.running() + self.line().len())
                + " workspaces ahead in the setup queue"@
        }
    }

    pub fn new() -> (r: ProvisionQueue)
        ensures
            r.wf(),
            r.running() == 0,
            r.line().len() == 0,
            r.issued() == 0,
    {
        ProvisionQueue { running: 0, waiting: Vec::new(), issued: 0 }
    }

    /// Whether one more can be told to wait: tickets are left, and the line can grow.
    pub fn has_room(&self) -> (r: bool)
        ensures
            r == (self.issued() < u64::MAX && self.line().len() < usize::MAX),
    {
        self.issued < u64::MAX && self.waiting.len() < usize::MAX
    }

    /// Take a slot only if one is free this instant.
    pub fn try_acquire(&mut self) -> (r: Option<Slot>)
        requires
            old(self).wf(),
        ensures
            final(self).wf(),
            r is Some <==> old(self).running() < SLOTS,
            final(self).running() == (if r is Some {
                old(self).running() + 1
            } else {
                old(self).running()
            }),
            final(self).line() == old(self).line(),
            final(self).issued() == old(self).issued(),
    {
        if self.running < SLOTS {
            self.running = self.running + 1;
            Some(Slot(()))
        } else {
            None
        }
    }

    /// Ask for a slot: take one that is free, or join the back of the line.
    pub fn acquire(&mut self) -> (r: Admission)
        requires
            old(self).wf(),
            old(self).issued() < u64::MAX,
        ensures
            final(self).wf(),
            match r {
                Admission::Now(_) => {
                    &&& old(self).running() < SLOTS
                    &&& final(self).running() == old(self).running() + 1
                    &&& final(self).line() == old(self).line()
                    &&& final(self).issued() == old(self).issued()
                },
                Admission::Later(t) => {
                    &&& old(self).running() == SLOTS
                    &&& final(self).running() == old(self).running()
                    &&& t.number == old(self).issued()
                    &&& final(self).line() == old(self).line().push(t)
                    &&& final(self).issued() == old(self).issued() + 1
                },
            },
    {
        match self.try_acquire() {
            Some(slot) => Admission::Now(slot),
            None => {
                let t = WaitTicket { number: self.issued };
                self.waiting.push(t);
                self.issued = self.issued + 1;
                Admission::Later(t)
            },
        }
    }

    /// Ask for a slot, with the sentence to say where that means waiting.
    pub fn acquire_announcing(&mut self) -> (r: (Option<String>, Admission))
        requires
            old(self).wf(),
            old(self).issued() < u64::MAX,
            old(self).line().len() < usize::MAX,
        ensures
            final(self).wf(),
            match r.1 {
                Admission::Now(_) => {
                    &&& r.0 is None
                    &&& old(self).running() < SLOTS
                    &&& final(self).running() == old(self).running() + 1
                    &&& final(self).line() == old(self).line()
                    &&& final(self).issued() == old(self).issued()
                },
                Admission::Later(t) => {
                    &&& r.0 matches Some(m) && m@ == old(self).wait_words()
                    &&& old(self).running() == SLOTS
                    &&& final(self).running() == old(self).running()
                    &&& t.number == old(self).issued()
                    &&& final(self).line() == old(self).line().push(t)
                    &&& final(self).issued() == old(self).issued() + 1
                },
            },
    {
        let message = self.wait_message();
        match self.acquire() {
            Admission::Now(slot) => (None, Admission::Now(slot)),
            Admission::Later(t) => (Some(message), Admission::Later(t)),
        }
    }

    /// Give a slot back. It goes to the first job in line, whose ticket is
    /// returned, or is free where nobody waits.
    pub fn release(&mut self, slot: Slot) -> (r: Option<(WaitTicket, Slot)>)
        requires
            old(self).wf(),
            old(self).running() > 0,
        ensures
            final(self).wf(),
            final(self).issued() == old(self).issued(),
            match r {
                Some((t, _)) => {
                    &&& old(self).line().len() > 0
                    &&& t == old(self).line()[0]
                    &&& final(self).line() == old(self).line().drop_first()
                    &&& final(self).running() == old(self).running()
                },
                None => {
                    &&& old(self).line().len() == 0
                    &&& final(self).line() == old(self).line()
                    &&& final(self).running() == old(self).running() - 1
                },
            },
    {
        if self.waiting.len() > 0 {
            let t = self.waiting.remove(0);
            assert(self.waiting@ =~= old(self).waiting@.drop_first());
            Some((t, slot))
        } else {
            self.running = self.running - 1;
            None
        }
    }

    /// A job in line gives up. It leaves no trace in the count.
    pub fn abandon(&mut self, ticket: WaitTicket)
        requires
            old(self).wf(),
        ensures
            final(self).wf(),
            final(self).running() == old(self).running(),
            final(self).issued() == old(self).issued(),
            final(self).line() == old(self).line().filter(|t: WaitTicket| t != ticket),
    {
        let other = |t: &WaitTicket| -> (b: bool)
            ensures
                b == (*t != ticket),
            { t.number != ticket.number };
        let ghost before = self.waiting@;
        list::keep(&mut self.waiting, other, Ghost(|t: WaitTicket| t != ticket));
        proof {
            lemma_filter_keeps_order(before, ticket, self.issued as nat);
        }
    }

    /// How many jobs would run before one that joins now.
    pub fn ahead(&self) -> (r: usize)
        requires
            self.wf(),
            self.line().len() < usize::MAX,
        ensures
            r == self.running() + self.line().len(),
    {
        self.running + self.waiting.len()
    }

    /// The one sentence that explains a wait.
    pub fn wait_message(&self) -> (r: String)
        requires
            self.wf(),
            self.line().len() < usize::MAX,
        ensures
            r@ == self.wait_words(),
    {
        let n = self.ahead();
        if n <= 1 {
            "waiting for another workspace to finish setting up".to_owned()
        } else {
            text::cat3(
                "waiting for ",
                &text::decimal(n as u64),
                " workspaces ahead in the setup queue",
            )
        }
    }
}

impl Default for ProvisionQueue {
    fn default() -> (r: Self)
        ensures
            r.wf(),
            r.running() == 0,
            r.line().len() == 0,
            r.issued() == 0,
    {
        Self::new()
    }
}

proof fn lemma_filter_keeps_order(s: Seq<WaitTicket>, ticket: WaitTicket, bound: nat)
    requires
        forall|i: int| 0 <= i < s.len() ==> (#[trigger] s[i]).number < bound,
        forall|i: int, j: int| 0 <= i < j < s.len() ==> s[i].number < s[j].number,
    ensures
        ({
            let t = s.filter(|t: WaitTicket| t != ticket);
            &&& t.len() <= s.len()
            &&& forall|i: int| 0 <= i < t.len() ==> (#[trigger] t[i]).number < bound
            &&& forall|i: int, j: int| 0 <= i < j < t.len() ==> t[i].number < t[j].number
        }),
    decreases s.len(),
{
    let p = |t: WaitTicket| t != ticket;
    reveal(Seq::filter);
    if s.len() > 0 {
        let last = s.last();
        lemma_filter_keeps_order(s.drop_last(), ticket, last.number as nat);
        lemma_filter_keeps_order(s.drop_last(), ticket, bound);
    }
}

/// A job that asked earlier is admitted earlier: the one that a release admits
/// has the lowest number in line.
pub proof fn jobs_are_admitted_in_order(q: ProvisionQueue, i: int)
    requires
        q.wf(),
        0 <= i < q.line().len(),
    ensures
        q.line()[0].number <= q.line()[i].number,
{
}

/// Whoever abandons the line is not in it any more, and nobody else leaves it.
pub proof fn abandoning_leaves_no_phantom(q: ProvisionQueue, ticket: WaitTicket, t: WaitTicket)
    ensures
        q.line().filter(|t: WaitTicket| t != ticket).contains(t) <==> q.line().contains(t) && t
            != ticket,
{
    let p = |t: WaitTicket| t != ticket;
    let kept = q.line().filter(p);
    if kept.contains(t) {
        let i = choose|i: int| 0 <= i < kept.len() && kept[i] == t;
        q.line().lemma_filter_pred(p, i);
        q.line().lemma_filter_contains_rev(p, t);
    }
    if q.line().contains(t) && t != ticket {
        let i = choose|i: int| 0 <= i < q.line().len() && q.line()[i] == t;
        q.line().lemma_filter_contains(p, i);
    }
}

/// Whoever waits is told how many are ahead: those that are set up and those that wait
/// already.
pub proof fn who_waits_is_told_how_long(q: ProvisionQueue)
    ensures
        q.running() + q.line().len() >= 2 ==> q.wait_words() == "waiting for "@ + text::dec(
            q.running() + q.line().len(),
        ) + " workspaces ahead in the setup queue"@,
        q.running() + q.line().len() <= 1 ==> q.wait_words()
            == "waiting for another workspace to finish setting up"@,
{
}

/// One workspace is set up at a time, and nobody waits while none is.
pub proof fn one_workspace_is_set_up_at_a_time(q: ProvisionQueue)
    requires
        q.wf(),
    ensures
        q.running() <= 1,
        q.line().len() > 0 ==> q.running() == 1,
{
}

} // verus!
