//! Per-agent trajectories: (state, action, reward) records with the tick,
//! position and trade outcome of each.
use vstd::prelude::*;
use crate::action::Action;
use crate::agent_state::{AgentState, AgentStateItems, DiscrRep, InvLevel, representation_of};
use crate::config::AgentConfig;
use crate::reward::Reward;
use crate::routing::ClammsInt2D;
use crate::trader::AgentOffer;

verus! {

/// One step of a trajectory: the observed state, the action taken, and the
/// reward that followed.
#[derive(Clone, Copy, Debug, PartialEq, Eq, Structural)]
pub struct SAR {
    pub state: AgentState,
    pub action: Action,
    pub reward: Reward,
}

impl SAR {
    pub fn new(state: AgentState, action: Action, reward: Reward) -> (r: SAR)
        ensures
            r.state == state,
            r.action == action,
            r.reward == reward,
    {
        SAR { state, action, reward }
    }

    /// The discretised state and the action: the key of this step's Q value.
    pub fn representation(&self, cfg: &AgentConfig) -> (r: (Vec<(AgentStateItems, InvLevel)>, Action))
        ensures
            r.0@ == representation_of(self.state, *cfg),
            r.1 == self.action,
    {
        (self.state.representation(cfg), self.action)
    }
}

/// An agent's record of the run, one entry per tick in each sequence.
#[derive(Clone, Debug)]
pub struct History {
    pub trajectory: Vec<SAR>,
    pub times: Vec<u64>,
    pub positions: Vec<ClammsInt2D>,
    pub trades: Vec<Option<AgentOffer>>,
}

/// Every `step`-th element of the first `n` of `s`, from the first.
pub open spec fn every_nth<T>(s: Seq<T>, n: int, step: int) -> Seq<T> {
    Seq::new(((n + step - 1) / step) as nat, |k: int| s[k * step])
}

impl History {
    pub open spec fn wf(&self) -> bool {
        &&& self.times@.len() == self.trajectory@.len()
        &&& self.positions@.len() == self.trajectory@.len()
        &&& self.trades@.len() == self.trajectory@.len()
    }

    pub fn new() -> (r: History)
        ensures
            r.wf(),
            r.trajectory@.len() == 0,
    {
        History { trajectory: Vec::new(), times: Vec::new(), positions: Vec::new(), trades: Vec::new() }
    }

    /// Appends one tick's record.
    pub fn push(&mut self, sar: SAR, time: u64, pos: ClammsInt2D, trade: Option<AgentOffer>)
        ensures
            final(self).trajectory@ == old(self).trajectory@.push(sar),
            final(self).times@ == old(self).times@.push(time),
            final(self).positions@ == old(self).positions@.push(pos),
            final(self).trades@ == old(self).trades@.push(trade),
            old(self).wf() ==> final(self).wf(),
    {
        self.trajectory.push(sar);
        self.times.push(time);
        self.positions.push(pos);
        self.trades.push(trade);
    }

    /// The state and action of the latest record, if any.
    pub fn last_state_action(&self) -> (r: Option<(AgentState, Action)>)
        ensures
            self.trajectory@.len() == 0 ==> r is None,
            self.trajectory@.len() > 0 ==> r == Some(
                (self.trajectory@.last().state, self.trajectory@.last().action),
            ),
    {
        let len = self.trajectory.len();
        if len > 0 {
            Some((self.trajectory[len - 1].state, self.trajectory[len - 1].action))
        } else {
            None
        }
    }

    pub fn len(&self) -> (r: usize)
        ensures
            r == self.trajectory@.len(),
    {
        self.trajectory.len()
    }

    /// A thinned copy that keeps every `step_size`-th tick, starting with the
    /// first, over the ticks that all four sequences hold.
    pub fn to_skipped_history(&self, step_size: usize) -> (r: History)
        requires
            step_size > 0,
        ensures
            r.wf(),
            ({
                let n = min4(
                    self.trajectory@.len() as int,
                    self.times@.len() as int,
                    self.positions@.len() as int,
                    self.trades@.len() as int,
                );
                &&& r.trajectory@ == every_nth(self.trajectory@, n, step_size as int)
                &&& r.times@ == every_nth(self.times@, n, step_size as int)
                &&& r.positions@ == every_nth(self.positions@, n, step_size as int)
                &&& r.trades@ == every_nth(self.trades@, n, step_size as int)
            }),
    {
        let mut n = self.trajectory.len();
        if self.times.len() < n {
            n = self.times.len();
        }
        if self.positions.len() < n {
            n = self.positions.len();
        }
        if self.trades.len() < n {
            n = self.trades.len();
        }
        let ghost gn = n as int;
        let ghost st = step_size as int;
        let mut acc = History::new();
        let mut i: usize = 0;
        let mut k: usize = 0;
        while i < n
            invariant
                acc.wf(),
                n as int == min4(
                    self.trajectory@.len() as int,
                    self.times@.len() as int,
                    self.positions@.len() as int,
                    self.trades@.len() as int,
                ),
                gn == n,
                st == step_size,
                step_size > 0,
                i <= n,
                k == 0 ==> i == 0,
                k > 0 ==> (k - 1) * st < n,
                i < n ==> i == k * st,
                i == n ==> k * st >= n,
                acc.trajectory@.len() == k,
                forall|j: int| 0 <= j < k ==> acc.trajectory@[j] == self.trajectory@[j * st],
                forall|j: int| 0 <= j < k ==> acc.times@[j] == self.times@[j * st],
                forall|j: int| 0 <= j < k ==> acc.positions@[j] == self.positions@[j * st],
                forall|j: int| 0 <= j < k ==> acc.trades@[j] == self.trades@[j * st],
            decreases n - i,
        {
            proof {
                assert(k <= k * st) by (nonlinear_arith) requires st > 0, k >= 0;
            }
            acc.push(self.trajectory[i], self.times[i], self.positions[i], self.trades[i]);
            k = k + 1;
            proof {
                assert(k * st == (k - 1) * st + st) by (nonlinear_arith);
            }
            if n - i <= step_size {
                i = n;
            } else {
                i = i + step_size;
            }
        }
        proof {
            lemma_ceil_div(gn, st, k as int, i as int);
        }
        assert(acc.trajectory@ =~= every_nth(self.trajectory@, gn, st));
        assert(acc.times@ =~= every_nth(self.times@, gn, st));
        assert(acc.positions@ =~= every_nth(self.positions@, gn, st));
        assert(acc.trades@ =~= every_nth(self.trades@, gn, st));
        acc
    }
}

pub open spec fn min4(a: int, b: int, c: int, d: int) -> int {
    let ab = if a < b { a } else { b };
    let cd = if c < d { c } else { d };
    if ab < cd { ab } else { cd }
}

proof fn lemma_ceil_div(n: int, st: int, k: int, i: int)
    requires
        st > 0,
        n >= 0,
        k >= 0,
        (k - 1) * st < n || k == 0,
        k * st >= n,
    ensures
        k == (n + st - 1) / st,
{
    if k == 0 {
        assert(n == 0);
        assert((st - 1) / st == 0) by (nonlinear_arith) requires st > 0;
    } else {
        assert(k * st <= n + st - 1) by (nonlinear_arith) requires (k - 1) * st < n, st > 0;
        assert((k + 1) * st > n + st - 1) by (nonlinear_arith) requires k * st >= n;
        assert((n + st - 1) / st == k) by (nonlinear_arith)
            requires k * st <= n + st - 1, (k + 1) * st > n + st - 1, st > 0;
    }
}

} // verus!
