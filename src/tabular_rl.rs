//! n-step SARSA over one Q table per policy.
use vstd::prelude::*;
use vstd::arithmetic::div_mod::lemma_fundamental_div_mod_converse;
use rand::rngs::StdRng;
use crate::action::Action;
use crate::agent_state::{AgentStateItems, DiscrRep, InvLevel, all_items, representation_of};
use crate::config::{AgentConfig, Q_PER_REWARD, RATE_SCALE, RLConfig};
use crate::history::{History, SAR};
use crate::q_table::{QKeyView, QTable, Q_LIMIT, is_state, pos_of, lemma_pos_of};

verus! {

/// The policy an agent follows: its own, or the shared policy 0.
pub open spec fn policy_of(multi_policy: bool, id: u32) -> u32 {
    if multi_policy { id } else { 0 }
}

/// The key of a trajectory step in a Q table.
pub open spec fn key_of(sar: SAR, cfg: AgentConfig) -> QKeyView {
    (representation_of(sar.state, cfg), sar.action)
}

/// A reward in Q-value units.
pub open spec fn reward_q(sar: SAR) -> int {
    sar.reward.val * Q_PER_REWARD
}

/// `x` scaled by `rate` parts per million, rounded down.
pub open spec fn scaled(x: int, rate: int) -> int {
    (x * rate) / (RATE_SCALE as int)
}

/// The n-step return `r_1 + g r_2 + ... + g^(n-1) r_n + g^n boot`, with the
/// discount `g` applied (and rounded down) one step at a time from the end.
pub open spec fn nstep_return(rewards: Seq<int>, boot: int, gamma: int) -> int
    decreases rewards.len(),
{
    if rewards.len() == 0 {
        boot
    } else {
        rewards[0] + scaled(nstep_return(rewards.drop_first(), boot, gamma), gamma)
    }
}

/// `q` moved by `alpha` (parts per million) towards `g`, saturated at `Q_LIMIT`.
pub open spec fn updated_q(q: int, g: int, alpha: int) -> int {
    let v = q + scaled(g - q, alpha);
    if v > Q_LIMIT { Q_LIMIT as int } else if v < -Q_LIMIT { -Q_LIMIT as int } else { v }
}

/// The rewards `r_{tau+1} .. r_{tau+n}` of a trajectory, in Q-value units.
pub open spec fn rewards_after(traj: Seq<SAR>, tau: int, n: int) -> Seq<int> {
    Seq::new(n as nat, |j: int| reward_q(traj[tau + j]))
}

/// One agent's backup on table `x`: the value of the step at `tau` moves
/// towards the n-step return bootstrapped from the step at `tau + n`.
pub open spec fn backup(
    tv: Seq<Map<QKeyView, int>>,
    x: int,
    traj: Seq<SAR>,
    tau: int,
    rl: RLConfig,
    cfg: AgentConfig,
) -> Seq<Map<QKeyView, int>> {
    let n = rl.SARSA_N as int;
    let m = tv[x];
    let k_tau = key_of(traj[tau], cfg);
    let g = nstep_return(rewards_after(traj, tau, n), m[key_of(traj[tau + n], cfg)], rl.GAMMA as int);
    tv.update(x, m.insert(k_tau, updated_q(m[k_tau], g, rl.ALPHA as int)))
}

/// The tables after agents `0 .. k` have made their backup, in id order.
pub open spec fn backups(
    tv: Seq<Map<QKeyView, int>>,
    ids: Seq<u32>,
    multi_policy: bool,
    trajs: Seq<Seq<SAR>>,
    tau: int,
    rl: RLConfig,
    cfg: AgentConfig,
    k: int,
) -> Seq<Map<QKeyView, int>>
    decreases k,
{
    if k <= 0 {
        tv
    } else {
        let prev = backups(tv, ids, multi_policy, trajs, tau, rl, cfg, k - 1);
        backup(prev, pos_of(ids, policy_of(multi_policy, (k - 1) as u32)), trajs[k - 1], tau, rl, cfg)
    }
}

/// A table whose keys cover every representation and every action.
pub open spec fn covers_all(t: QTable) -> bool {
    &&& t.items() == all_items()
    &&& forall|l: InvLevel| t.levels().contains(l)
    &&& forall|a: Action| t.actions().contains(a)
    &&& t.actions().len() <= u32::MAX
}

pub proof fn lemma_covered_key(t: QTable, sar: SAR, cfg: AgentConfig)
    requires
        covers_all(t),
    ensures
        is_state(t.items(), t.levels(), representation_of(sar.state, cfg)),
        t.view().contains_key(key_of(sar, cfg)),
{
    let r = representation_of(sar.state, cfg);
    assert forall|k: int| 0 <= k < r.len() implies (#[trigger] r[k]).0 == t.items()[k] && t.levels().contains(r[k].1) by {
        assert(t.levels().contains(r[k].1));
    }
    t.lemma_state_keys(r, sar.action);
}

/// The trajectories of a set of histories.
pub open spec fn trajectories(hs: Seq<History>) -> Seq<Seq<SAR>> {
    Seq::new(hs.len(), |i: int| hs[i].trajectory@)
}

/// Holds one Q table per policy id and runs the n-step SARSA backup.
pub struct SARSAModel {
    ids: Vec<u32>,
    tables: Vec<QTable>,
    multi_policy: bool,
    rl: RLConfig,
    checkpoint_itr: Option<i32>,
}

impl SARSAModel {
    pub closed spec fn ids(&self) -> Seq<u32> {
        self.ids@
    }

    pub closed spec fn tables(&self) -> Seq<QTable> {
        self.tables@
    }

    pub closed spec fn multi(&self) -> bool {
        self.multi_policy
    }

    pub closed spec fn rl(&self) -> RLConfig {
        self.rl
    }

    /// The tick count of the checkpoint this model was resumed from, if any.
    pub closed spec fn resumed_from(&self) -> Option<i32> {
        self.checkpoint_itr
    }

    /// The tables as maps, in the order of their ids.
    pub open spec fn tables_view(&self) -> Seq<Map<QKeyView, int>> {
        Seq::new(self.tables().len(), |i: int| self.tables()[i].view())
    }

    /// The index of the table that agent `id` follows.
    pub open spec fn table_of(&self, id: u32) -> int {
        pos_of(self.ids(), policy_of(self.multi(), id))
    }

    pub open spec fn wf(&self) -> bool {
        &&& self.ids().len() == self.tables().len()
        &&& forall|i: int| 0 <= i < self.tables().len() ==> #[trigger] self.tables()[i].wf()
        &&& self.rl().wf()
    }

    /// Whether every table covers every representation and action.
    pub open spec fn complete(&self) -> bool {
        forall|i: int| 0 <= i < self.tables().len() ==> covers_all(#[trigger] self.tables()[i])
    }

    /// Whether agent `id` has a table to follow.
    pub open spec fn has_policy(&self, id: u32) -> bool {
        self.ids().contains(policy_of(self.multi(), id))
    }

    /// One table per agent id, each holding the configured initial value for
    /// every combination of state levels and action.
    pub fn new(
        agent_ids: Vec<u32>,
        state_items: Vec<AgentStateItems>,
        state_levels: Vec<InvLevel>,
        actions: Vec<Action>,
        multi_policy: bool,
        rl: &RLConfig,
    ) -> (r: SARSAModel)
        requires
            rl.wf(),
            -Q_LIMIT <= rl.INIT_Q_VALUES <= Q_LIMIT,
            vstd::arithmetic::power::pow(state_levels@.len() as int, state_items@.len())
                * actions@.len() <= usize::MAX,
        ensures
            r.wf(),
            r.ids() == agent_ids@,
            r.multi() == multi_policy,
            r.rl() == *rl,
            r.resumed_from() is None,
            forall|i: int|
                0 <= i < r.tables().len() ==> {
                    let t = #[trigger] r.tables()[i];
                    &&& t.items() == state_items@
                    &&& t.levels() == state_levels@
                    &&& t.actions() == actions@
                    &&& forall|k: QKeyView|
                        t.view().contains_key(k) <==> crate::q_table::is_key(
                            state_items@,
                            state_levels@,
                            actions@,
                            k,
                        )
                    &&& forall|k: QKeyView| #[trigger] t.view().contains_key(k) ==> t.view()[k]
                        == rl.INIT_Q_VALUES
                },
    {
        let mut tables: Vec<QTable> = Vec::new();
        let mut i: usize = 0;
        while i < agent_ids.len()
            invariant
                i <= agent_ids@.len(),
                tables@.len() == i,
                -Q_LIMIT <= rl.INIT_Q_VALUES <= Q_LIMIT,
                vstd::arithmetic::power::pow(state_levels@.len() as int, state_items@.len())
                    * actions@.len() <= usize::MAX,
                forall|x: int|
                    0 <= x < i ==> {
                        let t = #[trigger] tables@[x];
                        &&& t.wf()
                        &&& t.items() == state_items@
                        &&& t.levels() == state_levels@
                        &&& t.actions() == actions@
                        &&& forall|k: QKeyView|
                            t.view().contains_key(k) <==> crate::q_table::is_key(
                                state_items@,
                                state_levels@,
                                actions@,
                                k,
                            )
                        &&& forall|k: QKeyView| #[trigger] t.view().contains_key(k)
                            ==> t.view()[k] == rl.INIT_Q_VALUES
                    },
            decreases agent_ids@.len() - i,
        {
            let t = QTable::new(
                copy_items(&state_items),
                copy_levels(&state_levels),
                copy_actions(&actions),
                rl.INIT_Q_VALUES,
            );
            tables.push(t);
            i += 1;
        }
        SARSAModel { ids: agent_ids, tables, multi_policy, rl: *rl, checkpoint_itr: None }
    }

    /// The agent ids that have a table, in table order.
    pub fn policy_ids(&self) -> (r: &Vec<u32>)
        ensures
            r@ == self.ids(),
    {
        &self.ids
    }

    pub fn multi_policy(&self) -> (r: bool)
        ensures
            r == self.multi(),
    {
        self.multi_policy
    }

    /// The tick count of the checkpoint this model was resumed from, if any.
    pub fn checkpoint_itr(&self) -> (r: Option<i32>)
        ensures
            r == self.resumed_from(),
    {
        self.checkpoint_itr
    }

    /// Marks this model as resumed from a checkpoint taken after `itr` ticks.
    pub fn resume_from(&mut self, itr: i32)
        ensures
            final(self).resumed_from() == Some(itr),
            final(self).ids() == old(self).ids(),
            final(self).tables() == old(self).tables(),
            final(self).multi() == old(self).multi(),
            final(self).rl() == old(self).rl(),
    {
        self.checkpoint_itr = Some(itr);
    }

    /// Stores a value in the table that agent `id` follows, as when a
    /// checkpoint is loaded.
    pub fn set_value_by_id(
        &mut self,
        id: u32,
        state: &Vec<(AgentStateItems, InvLevel)>,
        action: Action,
        value: i64,
    )
        requires
            old(self).wf(),
            old(self).has_policy(id),
            old(self).tables()[old(self).table_of(id)].view().contains_key((state@, action)),
            -Q_LIMIT <= value <= Q_LIMIT,
        ensures
            final(self).wf(),
            final(self).ids() == old(self).ids(),
            final(self).multi() == old(self).multi(),
            final(self).rl() == old(self).rl(),
            final(self).resumed_from() == old(self).resumed_from(),
            final(self).tables().len() == old(self).tables().len(),
            final(self).tables_view() == old(self).tables_view().update(
                old(self).table_of(id),
                old(self).tables_view()[old(self).table_of(id)].insert((state@, action), value as int),
            ),
            forall|i: int|
                0 <= i < final(self).tables().len() ==> (#[trigger] final(self).tables()[i]).items()
                    == old(self).tables()[i].items() && final(self).tables()[i].levels() == old(
                    self,
                ).tables()[i].levels() && final(self).tables()[i].actions() == old(
                    self,
                ).tables()[i].actions(),
    {
        let x = self.table_index(id);
        let mut table = self.tables.remove(x);
        table.set_value(state, action, value);
        self.tables.insert(x, table);
        assert(self.tables_view() =~= old(self).tables_view().update(
            old(self).table_of(id),
            old(self).tables_view()[old(self).table_of(id)].insert((state@, action), value as int),
        ));
    }

    /// The policy id that agent `id` follows.
    pub fn policy_id(&self, id: u32) -> (r: u32)
        ensures
            r == policy_of(self.multi(), id),
    {
        if self.multi_policy {
            id
        } else {
            0
        }
    }

    fn table_index(&self, id: u32) -> (r: usize)
        requires
            self.wf(),
            self.has_policy(id),
        ensures
            r == self.table_of(id),
            r < self.tables().len(),
    {
        let p = self.policy_id(id);
        proof {
            lemma_pos_of(self.ids@, p);
        }
        let mut i: usize = 0;
        assert(self.ids@.subrange(0, self.ids@.len() as int) =~= self.ids@);
        while i < self.ids.len()
            invariant
                self.wf(),
                p == policy_of(self.multi(), id),
                i <= self.ids@.len(),
                self.ids@.contains(p),
                forall|k: int| 0 <= k < i ==> self.ids@[k] != p,
                pos_of(self.ids@, p) == i + pos_of(self.ids@.subrange(i as int, self.ids@.len() as int), p),
            decreases self.ids@.len() - i,
        {
            let ghost rest = self.ids@.subrange(i as int, self.ids@.len() as int);
            if self.ids[i] == p {
                assert(rest[0] == p);
                return i;
            }
            proof {
                assert(rest.drop_first() =~= self.ids@.subrange(i + 1, self.ids@.len() as int));
            }
            i += 1;
        }
        proof {
            let k = choose|k: int| 0 <= k < self.ids@.len() && self.ids@[k] == p;
            assert(false);
        }
        0
    }

    /// The table that agent `id` follows.
    pub fn get_table_by_id(&self, id: u32) -> (r: &QTable)
        requires
            self.wf(),
            self.has_policy(id),
        ensures
            *r == self.tables()[self.table_of(id)],
    {
        let x = self.table_index(id);
        &self.tables[x]
    }

    /// Samples agent `id`'s next action epsilon-greedily from its table.
    pub fn sample_action_by_id(
        &self,
        id: u32,
        state: &Vec<(AgentStateItems, InvLevel)>,
        rng: &mut StdRng,
    ) -> (r: Action)
        requires
            self.wf(),
            self.complete(),
            self.has_policy(id),
            is_state(all_items(), crate::agent_state::all_levels(), state@),
        ensures
            self.tables()[self.table_of(id)].actions().contains(r),
            self.rl().EPSILON == 0 ==> exists|i: int|
                crate::q_table::is_greedy(
                    self.tables()[self.table_of(id)].view(),
                    self.tables()[self.table_of(id)].actions(),
                    state@,
                    i,
                ) && r == self.tables()[self.table_of(id)].actions()[i],
    {
        let x = self.table_index(id);
        let t = &self.tables[x];
        proof {
            assert(covers_all(self.tables@[x as int]));
            assert forall|k: int| 0 <= k < state@.len() implies (#[trigger] state@[k]).0 == t.items()[k]
                && t.levels().contains(state@[k].1) by {
                assert(t.levels().contains(state@[k].1));
            }
            assert(t.actions().contains(Action::ToFood));
        }
        let (a, _q) = t.sample_action(state, self.rl.EPSILON, rng);
        a
    }

    /// The n-step SARSA backup at tick `t`. Nothing changes before tick
    /// `n + 1`; from then on, with `tau = t - n - 1`, each agent in id order
    /// moves the value of its step `tau` towards its n-step return.
    pub fn step(&mut self, t: u64, histories: &Vec<History>, cfg: &AgentConfig)
        requires
            old(self).wf(),
            old(self).complete(),
            histories@.len() <= u32::MAX,
            forall|id: u32| id < histories@.len() ==> #[trigger] old(self).has_policy(id),
            t >= old(self).rl().SARSA_N + 1 ==> forall|i: int|
                0 <= i < histories@.len() ==> (#[trigger] histories@[i]).trajectory@.len() >= t,
        ensures
            final(self).wf(),
            final(self).complete(),
            final(self).ids() == old(self).ids(),
            final(self).multi() == old(self).multi(),
            final(self).rl() == old(self).rl(),
            final(self).resumed_from() == old(self).resumed_from(),
            forall|i: int|
                0 <= i < final(self).tables().len() ==> (#[trigger] final(self).tables()[i]).items()
                    == old(self).tables()[i].items() && final(self).tables()[i].levels() == old(
                    self,
                ).tables()[i].levels() && final(self).tables()[i].actions() == old(
                    self,
                ).tables()[i].actions(),
            t < old(self).rl().SARSA_N + 1 ==> final(self).tables_view() == old(self).tables_view(),
            t >= old(self).rl().SARSA_N + 1 ==> final(self).tables_view() == backups(
                old(self).tables_view(),
                old(self).ids(),
                old(self).multi(),
                trajectories(histories@),
                t - old(self).rl().SARSA_N - 1,
                old(self).rl(),
                *cfg,
                histories@.len() as int,
            ),
    {
        let n: u64 = self.rl.SARSA_N as u64;
        if t < n + 1 {
            return;
        }
        if histories.len() == 0 {
            return;
        }
        assert(histories@[0].trajectory@.len() >= t);
        let len0 = histories[0].trajectory.len();
        let tau: usize = (t - n - 1) as usize;
        let ghost tv0 = self.tables_view();
        let mut i: usize = 0;
        while i < histories.len()
            invariant
                self.wf(),
                self.complete(),
                self.ids() == old(self).ids(),
                self.multi() == old(self).multi(),
                self.rl() == old(self).rl(),
                self.resumed_from() == old(self).resumed_from(),
                self.tables().len() == old(self).tables().len(),
                forall|x: int|
                    0 <= x < self.tables().len() ==> (#[trigger] self.tables()[x]).items()
                        == old(self).tables()[x].items() && self.tables()[x].levels() == old(
                        self,
                    ).tables()[x].levels() && self.tables()[x].actions() == old(
                        self,
                    ).tables()[x].actions(),
                tv0 == old(self).tables_view(),
                n == self.rl().SARSA_N,
                tau == t - n - 1,
                histories@.len() <= u32::MAX,
                forall|id: u32| id < histories@.len() ==> #[trigger] old(self).has_policy(id),
                forall|j: int|
                    0 <= j < histories@.len() ==> (#[trigger] histories@[j]).trajectory@.len() >= t,
                i <= histories@.len(),
                self.tables_view() == backups(
                    tv0,
                    self.ids(),
                    self.multi(),
                    trajectories(histories@),
                    tau as int,
                    self.rl(),
                    *cfg,
                    i as int,
                ),
            decreases histories@.len() - i,
        {
            let ghost before = self.tables_view();
            assert(old(self).has_policy(i as u32));
            assert(histories@[i as int].trajectory@.len() >= t);
            let x = self.table_index(i as u32);
            let traj = &histories[i].trajectory;
            let traj_len = traj.len();
            let step_tau = traj[tau];
            let step_boot = traj[tau + n as usize];
            let key_tau = step_tau.state.representation(cfg);
            let key_boot = step_boot.state.representation(cfg);
            proof {
                lemma_covered_key(self.tables@[x as int], step_tau, *cfg);
                lemma_covered_key(self.tables@[x as int], step_boot, *cfg);
            }
            let q_tau = self.tables[x].value_of(&key_tau, step_tau.action).unwrap();
            let q_boot = self.tables[x].value_of(&key_boot, step_boot.action).unwrap();
            let g = nstep_return_of(traj, tau, n as usize, q_boot, self.rl.GAMMA);
            let q_new = update_value(q_tau, g, self.rl.ALPHA);
            let mut table = self.tables.remove(x);
            table.set_value(&key_tau, step_tau.action, q_new);
            self.tables.insert(x, table);
            i += 1;
            proof {
                assert(trajectories(histories@)[i - 1] == histories@[i - 1].trajectory@);
                assert(rewards_after(histories@[i - 1].trajectory@, tau as int, n as int)
                    =~= rewards_after(traj@, tau as int, n as int));
                assert(self.tables_view() =~= backup(before, x as int, traj@, tau as int, self.rl(), *cfg));
            }
        }
    }
}

/// The backups of one tick touch only step-`tau` entries: every entry whose
/// presence or value differs afterwards is, for some agent, the key of that
/// agent's step `tau` in the table the agent follows. With `tau = 0` (tick
/// `n + 1`) these are the agents' first steps.
pub proof fn lemma_backup_targets(
    tv: Seq<Map<QKeyView, int>>,
    ids: Seq<u32>,
    multi_policy: bool,
    trajs: Seq<Seq<SAR>>,
    tau: int,
    rl: RLConfig,
    cfg: AgentConfig,
    k: int,
)
    requires
        0 <= k <= trajs.len(),
        forall|i: int|
            0 <= i < k ==> 0 <= #[trigger] pos_of(ids, policy_of(multi_policy, i as u32)) < tv.len(),
    ensures
        backups(tv, ids, multi_policy, trajs, tau, rl, cfg, k).len() == tv.len(),
        forall|x: int, key: QKeyView|
            0 <= x < tv.len() && (#[trigger] backups(tv, ids, multi_policy, trajs, tau, rl, cfg, k)[x]
                .contains_key(key) != tv[x].contains_key(key) || backups(
                tv,
                ids,
                multi_policy,
                trajs,
                tau,
                rl,
                cfg,
                k,
            )[x][key] != tv[x][key]) ==> exists|i: int|
                0 <= i < k && pos_of(ids, policy_of(multi_policy, i as u32)) == x && key == key_of(
                    trajs[i][tau],
                    cfg,
                ),
    decreases k,
{
    if k > 0 {
        lemma_backup_targets(tv, ids, multi_policy, trajs, tau, rl, cfg, k - 1);
        let prev = backups(tv, ids, multi_policy, trajs, tau, rl, cfg, k - 1);
        let cur = backups(tv, ids, multi_policy, trajs, tau, rl, cfg, k);
        let y = pos_of(ids, policy_of(multi_policy, (k - 1) as u32));
        let kt = key_of(trajs[k - 1][tau], cfg);
        assert forall|x: int, key: QKeyView|
            0 <= x < tv.len() && (#[trigger] cur[x].contains_key(key) != tv[x].contains_key(key)
                || cur[x][key] != tv[x][key]) implies exists|i: int|
                0 <= i < k && pos_of(ids, policy_of(multi_policy, i as u32)) == x && key == key_of(
                    trajs[i][tau],
                    cfg,
                ) by {
            if x == y && key == kt {
                assert(pos_of(ids, policy_of(multi_policy, (k - 1) as u32)) == x);
            } else {
                assert(0 <= pos_of(ids, policy_of(multi_policy, (k - 1) as u32)) < tv.len());
                assert(cur[x].contains_key(key) == prev[x].contains_key(key));
                assert(cur[x][key] == prev[x][key]);
                assert(prev[x].contains_key(key) != tv[x].contains_key(key) || prev[x][key]
                    != tv[x][key]);
            }
        }
    }
}

/// Rounds `x * rate / RATE_SCALE` down.
fn scale_down(x: i128, rate: u32) -> (r: i128)
    requires
        -0x1_0000_0000_0000_0000i128 <= x <= 0x1_0000_0000_0000_0000i128,
    ensures
        r == scaled(x as int, rate as int),
{
    proof {
        assert(-0x1_0000_0000_0000_0000i128 * 0x1_0000_0000i128 <= x * rate <= 0x1_0000_0000_0000_0000i128 * 0x1_0000_0000i128) by (nonlinear_arith)
            requires -0x1_0000_0000_0000_0000i128 <= x <= 0x1_0000_0000_0000_0000i128, 0 <= rate <= 0x1_0000_0000i128;
    }
    let p: i128 = x * rate as i128;
    let s: i128 = RATE_SCALE as i128;
    if p >= 0 {
        p / s
    } else {
        let m: i128 = -p;
        let q: i128 = m / s;
        let rem: i128 = m % s;
        proof {
            lemma_fundamental_div_mod_converse(m as int, s as int, q as int, rem as int);
            assert(m == q * s + rem) by {
                vstd::arithmetic::div_mod::lemma_fundamental_div_mod(m as int, s as int);
            }
        }
        if rem == 0 {
            proof {
                lemma_fundamental_div_mod_converse(p as int, s as int, -q as int, 0);
            }
            -q
        } else {
            proof {
                lemma_fundamental_div_mod_converse(p as int, s as int, (-q - 1) as int, (s - rem) as int);
            }
            -q - 1
        }
    }
}

/// Scaling by a rate of at most one never grows a magnitude.
proof fn lemma_scaled_bound(x: int, rate: int)
    requires
        0 <= rate <= RATE_SCALE,
    ensures
        x >= 0 ==> 0 <= scaled(x, rate) <= x,
        x < 0 ==> x <= scaled(x, rate) <= 0,
{
    let s = RATE_SCALE as int;
    if x >= 0 {
        assert(0 <= x * rate <= x * s) by (nonlinear_arith) requires x >= 0, 0 <= rate <= s;
        assert((x * s) / s == x) by (nonlinear_arith) requires s > 0;
        vstd::arithmetic::div_mod::lemma_div_is_ordered(x * rate, x * s, s);
        vstd::arithmetic::div_mod::lemma_div_pos_is_pos(x * rate, s);
    } else {
        assert(x * s <= x * rate <= 0) by (nonlinear_arith) requires x < 0, 0 <= rate <= s;
        assert((x * s) / s == x) by (nonlinear_arith) requires s > 0;
        vstd::arithmetic::div_mod::lemma_div_is_ordered(x * s, x * rate, s);
        vstd::arithmetic::div_mod::lemma_div_is_ordered(x * rate, 0, s);
    }
}

proof fn lemma_nstep_return_bound(rewards: Seq<int>, boot: int, gamma: int, bound: int)
    requires
        0 <= gamma <= RATE_SCALE,
        forall|j: int| 0 <= j < rewards.len() ==> -bound <= #[trigger] rewards[j] <= bound,
    ensures
        -(Q_LIMIT + rewards.len() * bound) <= nstep_return(rewards, boot, gamma) <= Q_LIMIT
            + rewards.len() * bound || !(-Q_LIMIT <= boot <= Q_LIMIT),
    decreases rewards.len(),
{
    if rewards.len() > 0 && -Q_LIMIT <= boot <= Q_LIMIT {
        let rest = rewards.drop_first();
        assert forall|j: int| 0 <= j < rest.len() implies -bound <= #[trigger] rest[j] <= bound by {
            assert(rest[j] == rewards[j + 1]);
        }
        lemma_nstep_return_bound(rest, boot, gamma, bound);
        lemma_scaled_bound(nstep_return(rest, boot, gamma), gamma);
        assert(-bound <= rewards[0] <= bound);
        assert(rewards.len() * bound == rest.len() * bound + bound) by (nonlinear_arith)
            requires rewards.len() == rest.len() + 1;
    }
}

/// The n-step return from step `tau` of a trajectory, bootstrapped from `q_boot`.
fn nstep_return_of(traj: &Vec<SAR>, tau: usize, n: usize, q_boot: i64, gamma: u32) -> (r: i128)
    requires
        tau + n < traj@.len(),
        n <= 255,
        gamma <= RATE_SCALE,
        -Q_LIMIT <= q_boot <= Q_LIMIT,
    ensures
        r == nstep_return(rewards_after(traj@, tau as int, n as int), q_boot as int, gamma as int),
        -0x20_0000_0000_0000i128 <= r <= 0x20_0000_0000_0000i128,
{
    let ghost rs = rewards_after(traj@, tau as int, n as int);
    let bound: i128 = 0x800_0000_0000i128;
    let mut g: i128 = q_boot as i128;
    let mut j: usize = n;
    let len = traj.len();
    assert(rs.subrange(n as int, n as int) =~= Seq::<int>::empty());
    while j > 0
        invariant
            j <= n,
            n <= 255,
            tau + n < traj@.len(),
            gamma <= RATE_SCALE,
            -Q_LIMIT <= q_boot <= Q_LIMIT,
            rs == rewards_after(traj@, tau as int, n as int),
            bound == 0x800_0000_0000i128,
            len == traj@.len(),
            g == nstep_return(rs.subrange(j as int, n as int), q_boot as int, gamma as int),
            -(Q_LIMIT + (n - j) * bound) <= g <= Q_LIMIT + (n - j) * bound,
        decreases j,
    {
        j = j - 1;
        assert(tau + j < traj@.len());
        let rv: i32 = traj[tau + j].reward.val;
        let rq: i128 = rv as i128 * 1000;
        proof {
            assert((n - j - 1) * bound <= 255 * bound) by (nonlinear_arith)
                requires n - j - 1 <= 255, bound > 0;
            assert((n - j) * bound == (n - j - 1) * bound + bound) by (nonlinear_arith);
        }
        let d = scale_down(g, gamma);
        proof {
            lemma_scaled_bound(g as int, gamma as int);
            let sub = rs.subrange(j as int, n as int);
            assert(sub.drop_first() =~= rs.subrange(j + 1, n as int));
            assert(sub[0] == rq);
        }
        g = rq + d;
    }
    assert(rs.subrange(0, n as int) =~= rs);
    g
}

/// The updated Q value, saturated at `Q_LIMIT`.
fn update_value(q: i64, g: i128, alpha: u32) -> (r: i64)
    requires
        -Q_LIMIT <= q <= Q_LIMIT,
        -0x20_0000_0000_0000i128 <= g <= 0x20_0000_0000_0000i128,
        alpha <= RATE_SCALE,
    ensures
        r == updated_q(q as int, g as int, alpha as int),
        -Q_LIMIT <= r <= Q_LIMIT,
{
    let diff: i128 = g - q as i128;
    let step = scale_down(diff, alpha);
    proof {
        lemma_scaled_bound(diff as int, alpha as int);
    }
    let v: i128 = q as i128 + step;
    if v > Q_LIMIT as i128 {
        Q_LIMIT
    } else if v < -(Q_LIMIT as i128) {
        -Q_LIMIT
    } else {
        v as i64
    }
}

fn copy_items(v: &Vec<AgentStateItems>) -> (r: Vec<AgentStateItems>)
    ensures
        r@ == v@,
{
    let mut r: Vec<AgentStateItems> = Vec::new();
    let mut i: usize = 0;
    while i < v.len()
        invariant
            i <= v@.len(),
            r@ == v@.subrange(0, i as int),
        decreases v@.len() - i,
    {
        r.push(v[i]);
        i += 1;
        assert(r@ =~= v@.subrange(0, i as int));
    }
    assert(v@.subrange(0, v@.len() as int) =~= v@);
    r
}

fn copy_levels(v: &Vec<InvLevel>) -> (r: Vec<InvLevel>)
    ensures
        r@ == v@,
{
    let mut r: Vec<InvLevel> = Vec::new();
    let mut i: usize = 0;
    while i < v.len()
        invariant
            i <= v@.len(),
            r@ == v@.subrange(0, i as int),
        decreases v@.len() - i,
    {
        r.push(v[i]);
        i += 1;
        assert(r@ =~= v@.subrange(0, i as int));
    }
    assert(v@.subrange(0, v@.len() as int) =~= v@);
    r
}

fn copy_actions(v: &Vec<Action>) -> (r: Vec<Action>)
    ensures
        r@ == v@,
{
    let mut r: Vec<Action> = Vec::new();
    let mut i: usize = 0;
    while i < v.len()
        invariant
            i <= v@.len(),
            r@ == v@.subrange(0, i as int),
        decreases v@.len() - i,
    {
        r.push(v[i]);
        i += 1;
        assert(r@ =~= v@.subrange(0, i as int));
    }
    assert(v@.subrange(0, v@.len() as int) =~= v@);
    r
}

} // verus!
