//! The Q table: a value for every (discretised state, action) pair, laid
//! out densely so that a key is found by arithmetic rather than by hashing.
use vstd::prelude::*;
use vstd::arithmetic::power::{pow, lemma_pow_adds, lemma_pow_positive};
use vstd::arithmetic::div_mod::lemma_fundamental_div_mod_converse;
use crate::action::Action;
use crate::agent_state::{AgentStateItems, InvLevel};
use crate::config::RATE_SCALE;
use crate::random::draw_below;
use rand::rngs::StdRng;
use itertools::Itertools;

verus! {

/// The largest magnitude a Q value may take; updates saturate here.
pub const Q_LIMIT: i64 = 4503599627370496;

/// The view of a key: a state as (item, level) pairs, and an action.
pub type QKeyView = (Seq<(AgentStateItems, InvLevel)>, Action);

/// A key of the Q table.
#[derive(Clone, Debug, PartialEq, Eq)]
pub struct QKey(pub Vec<(AgentStateItems, InvLevel)>, pub Action);

impl View for QKey {
    type V = QKeyView;

    open spec fn view(&self) -> QKeyView {
        (self.0@, self.1)
    }
}

impl QKey {
    pub fn from_tuple(tup: (Vec<(AgentStateItems, InvLevel)>, Action)) -> (r: QKey)
        ensures
            r@ == (tup.0@, tup.1),
    {
        QKey(tup.0, tup.1)
    }
}

/// The position of the first `x` in `s`, or `s.len()` if there is none.
pub open spec fn pos_of<T>(s: Seq<T>, x: T) -> int
    decreases s.len(),
{
    if s.len() == 0 {
        0
    } else if s[0] == x {
        0
    } else {
        1 + pos_of(s.drop_first(), x)
    }
}

pub proof fn lemma_pos_of<T>(s: Seq<T>, x: T)
    ensures
        0 <= pos_of(s, x) <= s.len(),
        s.contains(x) ==> pos_of(s, x) < s.len() && s[pos_of(s, x)] == x,
        !s.contains(x) ==> pos_of(s, x) == s.len(),
    decreases s.len(),
{
    if s.len() > 0 && s[0] != x {
        lemma_pos_of(s.drop_first(), x);
        if s.contains(x) {
            let k = choose|k: int| 0 <= k < s.len() && s[k] == x;
            assert(s.drop_first()[k - 1] == x);
        }
        if s.drop_first().contains(x) {
            let k = choose|k: int| 0 <= k < s.drop_first().len() && s.drop_first()[k] == x;
            assert(s[k + 1] == x);
        }
    } else if s.len() > 0 {
        assert(s.contains(x)) by {
            assert(s[0] == x);
        }
    }
}

/// The row of a state: its levels read as digits, first item most significant.
pub open spec fn state_index(levels: Seq<InvLevel>, reps: Seq<(AgentStateItems, InvLevel)>) -> int
    decreases reps.len(),
{
    if reps.len() == 0 {
        0
    } else {
        state_index(levels, reps.drop_last()) * levels.len() + pos_of(levels, reps.last().1)
    }
}

/// Whether `reps` is a state of a table over `items` and `levels`: one pair
/// per item, in order, each with a configured level.
pub open spec fn is_state(
    items: Seq<AgentStateItems>,
    levels: Seq<InvLevel>,
    reps: Seq<(AgentStateItems, InvLevel)>,
) -> bool {
    &&& reps.len() == items.len()
    &&& forall|k: int|
        0 <= k < reps.len() ==> (#[trigger] reps[k]).0 == items[k] && levels.contains(reps[k].1)
}

/// Whether `k` is a key of a table over `items`, `levels` and `actions`.
pub open spec fn is_key(
    items: Seq<AgentStateItems>,
    levels: Seq<InvLevel>,
    actions: Seq<Action>,
    k: QKeyView,
) -> bool {
    is_state(items, levels, k.0) && actions.contains(k.1)
}

proof fn lemma_pow_step(b: int, e: nat)
    ensures
        pow(b, (e + 1) as nat) == b * pow(b, e),
        pow(b, 0) == 1,
{
    reveal(pow);
}

proof fn lemma_pow_mono(b: int, e1: nat, e2: nat)
    requires
        b > 0,
        e1 <= e2,
    ensures
        pow(b, e1) <= pow(b, e2),
{
    lemma_pow_adds(b, e1, (e2 - e1) as nat);
    lemma_pow_positive(b, e1);
    lemma_pow_positive(b, (e2 - e1) as nat);
    assert(pow(b, e1) * pow(b, (e2 - e1) as nat) >= pow(b, e1)) by (nonlinear_arith)
        requires pow(b, e1) > 0, pow(b, (e2 - e1) as nat) >= 1;
    assert((e1 + (e2 - e1) as nat) as nat == e2);
}

proof fn lemma_state_index_bound(levels: Seq<InvLevel>, reps: Seq<(AgentStateItems, InvLevel)>)
    requires
        forall|k: int| 0 <= k < reps.len() ==> levels.contains((#[trigger] reps[k]).1),
    ensures
        0 <= state_index(levels, reps) < pow(levels.len() as int, reps.len()),
    decreases reps.len(),
{
    lemma_pow_step(levels.len() as int, 0);
    if reps.len() > 0 {
        let prefix = reps.drop_last();
        assert forall|k: int| 0 <= k < prefix.len() implies levels.contains(prefix[k].1) by {
            assert(prefix[k] == reps[k]);
        }
        lemma_state_index_bound(levels, prefix);
        lemma_pos_of(levels, reps.last().1);
        assert(levels.contains(reps[reps.len() - 1].1));
        let s = state_index(levels, prefix);
        let d = pos_of(levels, reps.last().1);
        let l = levels.len() as int;
        let p = pow(l, prefix.len());
        lemma_pow_step(l, prefix.len());
        assert(reps.len() == (prefix.len() + 1) as nat);
        assert(pow(l, reps.len()) == l * p);
        assert(state_index(levels, reps) == s * l + d);
        assert(0 <= s * l + d < l * p) by (nonlinear_arith)
            requires 0 <= s < p, 0 <= d < l;
    }
}

proof fn lemma_state_index_injective(
    items: Seq<AgentStateItems>,
    levels: Seq<InvLevel>,
    r1: Seq<(AgentStateItems, InvLevel)>,
    r2: Seq<(AgentStateItems, InvLevel)>,
)
    requires
        is_state(items, levels, r1),
        is_state(items, levels, r2),
        state_index(levels, r1) == state_index(levels, r2),
    ensures
        r1 == r2,
    decreases r1.len(),
{
    if r1.len() > 0 {
        let items_p = items.drop_last();
        let pre1 = r1.drop_last();
        let pre2 = r2.drop_last();
        assert(is_state(items_p, levels, pre1)) by {
            assert forall|k: int| 0 <= k < pre1.len() implies (#[trigger] pre1[k]).0 == items_p[k] && levels.contains(
                pre1[k].1,
            ) by {
                assert(pre1[k] == r1[k]);
                assert(items_p[k] == items[k]);
            }
        }
        assert(is_state(items_p, levels, pre2)) by {
            assert forall|k: int| 0 <= k < pre2.len() implies (#[trigger] pre2[k]).0 == items_p[k] && levels.contains(
                pre2[k].1,
            ) by {
                assert(pre2[k] == r2[k]);
                assert(items_p[k] == items[k]);
            }
        }
        let last = r1.len() - 1;
        assert(r1[last] == r1.last());
        assert(r2[last] == r2.last());
        assert(levels.contains(r1[last].1));
        assert(levels.contains(r2[last].1));
        assert(r1[last].0 == items[last]);
        assert(r2[last].0 == items[last]);
        lemma_pos_of(levels, r1.last().1);
        lemma_pos_of(levels, r2.last().1);
        let l = levels.len() as int;
        let d1 = pos_of(levels, r1.last().1);
        let d2 = pos_of(levels, r2.last().1);
        let s1 = state_index(levels, pre1);
        let s2 = state_index(levels, pre2);
        lemma_state_index_bound(levels, pre1);
        lemma_state_index_bound(levels, pre2);
        lemma_fundamental_div_mod_converse(s1 * l + d1, l, s1, d1);
        lemma_fundamental_div_mod_converse(s2 * l + d2, l, s2, d2);
        lemma_state_index_injective(items_p, levels, pre1, pre2);
        assert(levels[d1] == r1.last().1);
        assert(levels[d2] == r2.last().1);
        assert(r1.last() == r2.last());
        assert(r1 =~= pre1.push(r1.last()));
        assert(r2 =~= pre2.push(r2.last()));
    }
}

/// The state of row `s` over the first `m` items: `s` read as level digits,
/// the first item most significant.
pub open spec fn decode_state(
    items: Seq<AgentStateItems>,
    levels: Seq<InvLevel>,
    s: int,
    m: int,
) -> Seq<(AgentStateItems, InvLevel)>
    decreases m,
{
    if m <= 0 {
        Seq::empty()
    } else {
        let l = levels.len() as int;
        decode_state(items, levels, s / l, m - 1).push((items[m - 1], levels[s % l]))
    }
}

proof fn lemma_pos_of_distinct<T>(s: Seq<T>, d: int)
    requires
        s.no_duplicates(),
        0 <= d < s.len(),
    ensures
        pos_of(s, s[d]) == d,
{
    lemma_pos_of(s, s[d]);
    assert(s.contains(s[d]));
}

proof fn lemma_decode_state(items: Seq<AgentStateItems>, levels: Seq<InvLevel>, s: int, m: int)
    requires
        levels.no_duplicates(),
        0 <= m <= items.len(),
        0 <= s < pow(levels.len() as int, m as nat),
    ensures
        is_state(items.subrange(0, m), levels, decode_state(items, levels, s, m)),
        state_index(levels, decode_state(items, levels, s, m)) == s,
    decreases m,
{
    let l = levels.len() as int;
    lemma_pow_step(l, 0);
    if m > 0 {
        lemma_pow_step(l, (m - 1) as nat);
        assert(pow(l, m as nat) == l * pow(l, (m - 1) as nat));
        if l <= 0 {
            assert(pow(l, m as nat) == 0) by (nonlinear_arith) requires l == 0, pow(l, m as nat) == l * pow(l, (m - 1) as nat);
        }
        vstd::arithmetic::div_mod::lemma_fundamental_div_mod(s, l);
        vstd::arithmetic::div_mod::lemma_mod_bound(s, l);
        vstd::arithmetic::div_mod::lemma_div_pos_is_pos(s, l);
        let pp = pow(l, (m - 1) as nat);
        let q = s / l;
        let rr = s % l;
        assert(q < pp) by (nonlinear_arith)
            requires s == l * q + rr, 0 <= rr, s < l * pp, l > 0;
        lemma_decode_state(items, levels, s / l, m - 1);
        let prev = decode_state(items, levels, s / l, m - 1);
        let r = decode_state(items, levels, s, m);
        assert(r.drop_last() =~= prev);
        lemma_pos_of_distinct(levels, s % l);
        assert(levels.contains(levels[s % l]));
        assert(r.last() == (items[m - 1], levels[s % l]));
        assert(state_index(levels, r) == state_index(levels, prev) * l + pos_of(levels, levels[s % l]));
        assert(state_index(levels, r) == s);
        assert forall|k: int| 0 <= k < r.len() implies (#[trigger] r[k]).0 == items.subrange(0, m)[k] && levels.contains(r[k].1) by {
            if k < m - 1 {
                assert(r[k] == prev[k]);
                assert(items.subrange(0, m - 1)[k] == items.subrange(0, m)[k]);
            }
        }
    }
}

/// A Q table over configured state items, levels and actions, holding one
/// value per key. Values are in thousandths of a reward unit.
#[derive(Clone, Debug)]
pub struct QTable {
    items: Vec<AgentStateItems>,
    levels: Vec<InvLevel>,
    actions: Vec<Action>,
    values: Vec<i64>,
}

impl QTable {
    pub closed spec fn items(&self) -> Seq<AgentStateItems> {
        self.items@
    }

    pub closed spec fn levels(&self) -> Seq<InvLevel> {
        self.levels@
    }

    pub closed spec fn actions(&self) -> Seq<Action> {
        self.actions@
    }

    closed spec fn slot(&self, k: QKeyView) -> int {
        state_index(self.levels@, k.0) * self.actions@.len() + pos_of(self.actions@, k.1)
    }

    /// The table as a map from key to value.
    pub closed spec fn view(&self) -> Map<QKeyView, int> {
        Map::new(
            |k: QKeyView| is_key(self.items@, self.levels@, self.actions@, k),
            |k: QKeyView| self.values@[self.slot(k)] as int,
        )
    }

    pub closed spec fn wf(&self) -> bool {
        &&& self.values@.len() == pow(self.levels@.len() as int, self.items@.len())
            * self.actions@.len()
        &&& forall|i: int| 0 <= i < self.values@.len() ==> -Q_LIMIT <= #[trigger] self.values@[i] <= Q_LIMIT
    }

    proof fn lemma_slot(&self, k: QKeyView)
        requires
            self.wf(),
            is_key(self.items@, self.levels@, self.actions@, k),
        ensures
            0 <= self.slot(k) < self.values@.len(),
            0 <= state_index(self.levels@, k.0) < pow(self.levels@.len() as int, self.items@.len()),
            0 <= pos_of(self.actions@, k.1) < self.actions@.len(),
            self.actions@[pos_of(self.actions@, k.1)] == k.1,
    {
        lemma_state_index_bound(self.levels@, k.0);
        lemma_pos_of(self.actions@, k.1);
        let s = state_index(self.levels@, k.0);
        let a = self.actions@.len() as int;
        let p = pow(self.levels@.len() as int, self.items@.len());
        let d = pos_of(self.actions@, k.1);
        assert(0 <= s * a + d < p * a) by (nonlinear_arith) requires 0 <= s < p, 0 <= d < a;
    }

    proof fn lemma_slot_injective(&self, k1: QKeyView, k2: QKeyView)
        requires
            self.wf(),
            is_key(self.items@, self.levels@, self.actions@, k1),
            is_key(self.items@, self.levels@, self.actions@, k2),
            self.slot(k1) == self.slot(k2),
        ensures
            k1 == k2,
    {
        self.lemma_slot(k1);
        self.lemma_slot(k2);
        let a = self.actions@.len() as int;
        let s1 = state_index(self.levels@, k1.0);
        let s2 = state_index(self.levels@, k2.0);
        lemma_fundamental_div_mod_converse(self.slot(k1), a, s1, pos_of(self.actions@, k1.1));
        lemma_fundamental_div_mod_converse(self.slot(k2), a, s2, pos_of(self.actions@, k2.1));
        lemma_state_index_injective(self.items@, self.levels@, k1.0, k2.0);
    }

    /// The key of slot `i`: its state row read as level digits, and its action.
    closed spec fn key_at(&self, i: int) -> QKeyView {
        let a = self.actions@.len() as int;
        (decode_state(self.items@, self.levels@, i / a, self.items@.len() as int), self.actions@[i % a])
    }

    proof fn lemma_key_at(&self, i: int)
        requires
            self.wf(),
            self.levels@.no_duplicates(),
            self.actions@.no_duplicates(),
            0 <= i < self.values@.len(),
        ensures
            is_key(self.items@, self.levels@, self.actions@, self.key_at(i)),
            self.slot(self.key_at(i)) == i,
    {
        let a = self.actions@.len() as int;
        let l = self.levels@.len() as int;
        let m = self.items@.len();
        let p = pow(l, m);
        assert(a > 0) by {
            if a == 0 {
                assert(self.values@.len() == p * 0);
            }
        }
        vstd::arithmetic::div_mod::lemma_fundamental_div_mod(i, a);
        let s = i / a;
        let d = i % a;
        assert(0 <= d < a) by {
            vstd::arithmetic::div_mod::lemma_mod_bound(i, a);
        }
        assert(0 <= s < p) by (nonlinear_arith)
            requires i == a * s + d, 0 <= d < a, 0 <= i < p * a, a > 0;
        lemma_decode_state(self.items@, self.levels@, s, m as int);
        assert(self.items@.subrange(0, m as int) =~= self.items@);
        assert(self.actions@.contains(self.actions@[d]));
        lemma_pos_of_distinct(self.actions@, d);
        let k = self.key_at(i);
        assert(k.0 == decode_state(self.items@, self.levels@, s, m as int));
        assert(k.1 == self.actions@[d]);
        assert(state_index(self.levels@, k.0) == s);
        assert(pos_of(self.actions@, k.1) == d);
        assert(self.slot(k) == s * a + d);
        assert(s * a + d == i) by (nonlinear_arith) requires i == a * s + d;
    }

    /// With no repeated level or action, a table holds exactly one key per
    /// slot: its number of keys is the number of level combinations times
    /// the number of actions.
    pub proof fn lemma_key_count(&self)
        requires
            self.wf(),
            self.levels().no_duplicates(),
            self.actions().no_duplicates(),
        ensures
            self.view().dom().finite(),
            self.view().dom().len() == pow(self.levels().len() as int, self.items().len()) * self.actions().len(),
    {
        let n = self.values@.len() as int;
        let range = vstd::set_lib::set_int_range(0, n);
        vstd::set_lib::lemma_int_range(0, n);
        let f = |i: int| self.key_at(i);
        assert forall|i: int, j: int| range.contains(i) && range.contains(j) && #[trigger] f(i) == #[trigger] f(j) implies i == j by {
            self.lemma_key_at(i);
            self.lemma_key_at(j);
        }
        assert(range.map(f) =~= self.view().dom()) by {
            assert forall|k: QKeyView| #[trigger] self.view().dom().contains(k) implies range.map(f).contains(k) by {
                self.lemma_slot(k);
                let i = self.slot(k);
                self.lemma_key_at(i);
                self.lemma_slot_injective(k, self.key_at(i));
                assert(range.contains(i) && f(i) == k);
            }
            assert forall|k: QKeyView| range.map(f).contains(k) implies #[trigger] self.view().dom().contains(k) by {
                let i = choose|i: int| range.contains(i) && f(i) == k;
                self.lemma_key_at(i);
            }
        }
        vstd::set_lib::lemma_map_size(range, self.view().dom(), f);
    }

    /// A table holding `init` for every combination of a level per item and
    /// an action, and nothing else.
    pub fn new(
        state_items: Vec<AgentStateItems>,
        state_levels: Vec<InvLevel>,
        actions: Vec<Action>,
        init: i64,
    ) -> (r: QTable)
        requires
            -Q_LIMIT <= init <= Q_LIMIT,
            pow(state_levels@.len() as int, state_items@.len()) * actions@.len() <= usize::MAX,
        ensures
            r.wf(),
            r.items() == state_items@,
            r.levels() == state_levels@,
            r.actions() == actions@,
            forall|k: QKeyView|
                r.view().contains_key(k) <==> is_key(state_items@, state_levels@, actions@, k),
            forall|k: QKeyView| #[trigger] r.view().contains_key(k) ==> r.view()[k] == init,
    {
        let ghost l = state_levels@.len() as int;
        let ghost m = state_items@.len();
        let ghost a = actions@.len() as int;
        let mut size: usize = actions.len();
        let mut j: usize = 0;
        proof {
            lemma_pow_step(l, 0);
        }
        while j < state_items.len()
            invariant
                j <= m,
                m == state_items@.len(),
                l == state_levels@.len(),
                a == actions@.len(),
                pow(l, m) * a <= usize::MAX,
                size == pow(l, j as nat) * a,
            decreases m - j,
        {
            proof {
                lemma_pow_step(l, j as nat);
                if l > 0 {
                    lemma_pow_mono(l, (j + 1) as nat, m);
                    assert(pow(l, (j + 1) as nat) * a <= pow(l, m) * a) by (nonlinear_arith)
                        requires pow(l, (j + 1) as nat) <= pow(l, m), a >= 0;
                } else {
                    assert(l == 0);
                    assert(l * pow(l, j as nat) == 0) by (nonlinear_arith) requires l == 0;
                }
                assert(size * l == pow(l, (j + 1) as nat) * a) by (nonlinear_arith)
                    requires size == pow(l, j as nat) * a, pow(l, (j + 1) as nat) == pow(l, j as nat) * l;
            }
            size = size * state_levels.len();
            j += 1;
        }
        let mut values: Vec<i64> = Vec::new();
        let mut i: usize = 0;
        while i < size
            invariant
                i <= size,
                values@.len() == i,
                forall|x: int| 0 <= x < i ==> values@[x] == init,
            decreases size - i,
        {
            values.push(init);
            i += 1;
        }
        let r = QTable { items: state_items, levels: state_levels, actions, values };
        assert forall|k: QKeyView| #[trigger] r.view().contains_key(k) implies r.view()[k] == init by {
            r.lemma_slot(k);
        }
        r
    }

    /// The row of `reps`, if it is a state of this table.
    fn state_row(&self, reps: &Vec<(AgentStateItems, InvLevel)>) -> (r: Option<usize>)
        requires
            self.wf(),
            self.actions@.len() > 0,
        ensures
            r is Some <==> is_state(self.items@, self.levels@, reps@),
            r matches Some(s) ==> s == state_index(self.levels@, reps@),
    {
        let m = self.items.len();
        if reps.len() != m {
            return None;
        }
        let ghost l = self.levels@.len() as int;
        let total = self.values.len();
        let mut s: usize = 0;
        let mut j: usize = 0;
        while j < m
            invariant
                self.wf(),
                self.actions@.len() > 0,
                m == self.items@.len(),
                reps@.len() == m,
                l == self.levels@.len(),
                total == self.values@.len(),
                j <= m,
                is_state(self.items@.subrange(0, j as int), self.levels@, reps@.subrange(0, j as int)),
                s == state_index(self.levels@, reps@.subrange(0, j as int)),
            decreases m - j,
        {
            let (item, lv) = reps[j];
            if item != self.items[j] {
                proof {
                    assert(reps@[j as int].0 != self.items@[j as int]);
                }
                return None;
            }
            let d = match level_pos(&self.levels, lv) {
                None => {
                    return None;
                },
                Some(d) => d,
            };
            let ghost pre = reps@.subrange(0, j as int);
            let ghost next = reps@.subrange(0, j + 1);
            proof {
                assert(next.drop_last() =~= pre);
                assert(next.last() == reps@[j as int]);
                assert forall|k: int| 0 <= k < next.len() implies self.levels@.contains((#[trigger] next[k]).1) by {
                    if k < j {
                        assert(next[k] == pre[k]);
                        assert(self.items@.subrange(0, j as int)[k] == self.items@[k]);
                    } else {
                        assert(next[k] == reps@[j as int]);
                    }
                }
                lemma_state_index_bound(self.levels@, next);
                lemma_pow_step(l, j as nat);
                lemma_pow_mono(l, (j + 1) as nat, m as nat);
                let a = self.actions@.len() as int;
                assert(pow(l, m as nat) <= pow(l, m as nat) * a) by (nonlinear_arith)
                    requires a >= 1, pow(l, m as nat) >= 0;
                assert(s * l + d < pow(l, (j + 1) as nat));
                assert(s * l + d < total);
            }
            s = s * self.levels.len() + d;
            j += 1;
            proof {
                assert(is_state(self.items@.subrange(0, j as int), self.levels@, next)) by {
                    assert forall|k: int| 0 <= k < next.len() implies (#[trigger] next[k]).0 == self.items@.subrange(0, j as int)[k] && self.levels@.contains(next[k].1) by {
                        assert(self.items@.subrange(0, j as int)[k] == self.items@[k]);
                        if k < j - 1 {
                            assert(next[k] == pre[k]);
                            assert(self.items@.subrange(0, j - 1)[k] == self.items@[k]);
                        } else {
                            assert(next[k] == reps@[j - 1]);
                        }
                    }
                }
            }
        }
        assert(reps@.subrange(0, m as int) =~= reps@);
        assert(self.items@.subrange(0, m as int) =~= self.items@);
        Some(s)
    }

    /// The value stored under `key`, or `None` if `key` is not a key of the table.
    pub fn get(&self, key: &QKey) -> (r: Option<i64>)
        requires
            self.wf(),
        ensures
            r is Some <==> self.view().contains_key(key@),
            r matches Some(v) ==> v == self.view()[key@] && -Q_LIMIT <= v <= Q_LIMIT,
    {
        self.value_of(&key.0, key.1)
    }

    /// The value stored under (`reps`, `action`), if that is a key of the table.
    pub fn value_of(&self, reps: &Vec<(AgentStateItems, InvLevel)>, action: Action) -> (r: Option<
        i64,
    >)
        requires
            self.wf(),
        ensures
            r is Some <==> self.view().contains_key((reps@, action)),
            r matches Some(v) ==> v == self.view()[(reps@, action)] && -Q_LIMIT <= v <= Q_LIMIT,
    {
        let ghost key: QKeyView = (reps@, action);
        if self.actions.len() == 0 {
            return None;
        }
        let s = match self.state_row(reps) {
            None => {
                return None;
            },
            Some(s) => s,
        };
        let d = match action_pos(&self.actions, action) {
            None => {
                return None;
            },
            Some(d) => d,
        };
        let total = self.values.len();
        proof {
            self.lemma_slot(key);
            assert(s * self.actions@.len() + d < total);
        }
        Some(self.values[s * self.actions.len() + d])
    }

    /// Stores `value` under `key`, a key of the table; nothing else changes.
    pub fn set(&mut self, key: &QKey, value: i64)
        requires
            old(self).wf(),
            old(self).view().contains_key(key@),
            -Q_LIMIT <= value <= Q_LIMIT,
        ensures
            final(self).wf(),
            final(self).view() == old(self).view().insert(key@, value as int),
            final(self).items() == old(self).items(),
            final(self).levels() == old(self).levels(),
            final(self).actions() == old(self).actions(),
    {
        self.set_value(&key.0, key.1, value)
    }

    /// Stores `value` under (`reps`, `action`), a key of the table.
    pub fn set_value(&mut self, reps: &Vec<(AgentStateItems, InvLevel)>, action: Action, value: i64)
        requires
            old(self).wf(),
            old(self).view().contains_key((reps@, action)),
            -Q_LIMIT <= value <= Q_LIMIT,
        ensures
            final(self).wf(),
            final(self).view() == old(self).view().insert((reps@, action), value as int),
            final(self).items() == old(self).items(),
            final(self).levels() == old(self).levels(),
            final(self).actions() == old(self).actions(),
    {
        let ghost key: QKeyView = (reps@, action);
        proof {
            self.lemma_slot(key);
        }
        let s = self.state_row(reps).unwrap();
        let d = action_pos(&self.actions, action).unwrap();
        let total = self.values.len();
        assert(s * self.actions@.len() + d < total);
        let idx = s * self.actions.len() + d;
        let ghost before = *self;
        self.values.set(idx, value);
        proof {
            assert forall|k: QKeyView| #[trigger] self.view().contains_key(k) implies self.view()[k]
                == before.view().insert(key, value as int)[k] by {
                before.lemma_slot(k);
                assert(self.slot(k) == before.slot(k));
                if k == key {
                    assert(before.slot(k) == idx);
                } else {
                    if before.slot(k) == idx {
                        before.lemma_slot_injective(k, key);
                    }
                }
            }
            assert(self.view() =~= before.view().insert(key, value as int));
        }
    }
}

/// Whether action index `i` is the greedy choice for state `reps`: its value
/// is the largest, and no earlier action has that value.
pub open spec fn is_greedy(
    view: Map<QKeyView, int>,
    actions: Seq<Action>,
    reps: Seq<(AgentStateItems, InvLevel)>,
    i: int,
) -> bool {
    &&& 0 <= i < actions.len()
    &&& forall|j: int| 0 <= j < actions.len() ==> view[(reps, actions[j])] <= view[(reps, actions[i])]
    &&& forall|j: int| 0 <= j < i ==> view[(reps, actions[j])] < view[(reps, actions[i])]
}

/// The action taken after the exploration draw: the greedy one unless the
/// draw falls below `epsilon`, then the action at `random_index`.
pub open spec fn epsilon_choice(
    actions: Seq<Action>,
    greedy: Action,
    draw: int,
    epsilon: int,
    random_index: int,
) -> Action {
    if draw < epsilon { actions[random_index] } else { greedy }
}

impl QTable {
    pub proof fn lemma_state_keys(&self, reps: Seq<(AgentStateItems, InvLevel)>, a: Action)
        requires
            is_state(self.items(), self.levels(), reps),
            self.actions().contains(a),
        ensures
            self.view().contains_key((reps, a)),
    {
    }

    /// The greedy action for `reps` with its value: the action with the
    /// largest value, the first one in table order on ties.
    pub fn greedy_action(&self, reps: &Vec<(AgentStateItems, InvLevel)>) -> (r: (Action, i64))
        requires
            self.wf(),
            self.actions().len() > 0,
            is_state(self.items(), self.levels(), reps@),
        ensures
            exists|i: int|
                is_greedy(self.view(), self.actions(), reps@, i) && r.0 == self.actions()[i] && r.1
                    == self.view()[(reps@, self.actions()[i])],
    {
        let n = self.actions.len();
        assert(self.actions@.contains(self.actions@[0]));
        let mut best: usize = 0;
        let mut best_q: i64 = self.value_of(reps, self.actions[0]).unwrap();
        let mut j: usize = 1;
        while j < n
            invariant
                self.wf(),
                n == self.actions@.len(),
                is_state(self.items(), self.levels(), reps@),
                1 <= j <= n,
                best < j,
                best_q == self.view()[(reps@, self.actions@[best as int])],
                forall|k: int| 0 <= k < j ==> self.view()[(reps@, self.actions@[k])] <= best_q,
                forall|k: int| 0 <= k < best ==> self.view()[(reps@, self.actions@[k])] < best_q,
            decreases n - j,
        {
            assert(self.actions@.contains(self.actions@[j as int]));
            let q = self.value_of(reps, self.actions[j]).unwrap();
            if q > best_q {
                best = j;
                best_q = q;
            }
            j += 1;
        }
        assert(is_greedy(self.view(), self.actions(), reps@, best as int));
        (self.actions[best], best_q)
    }

    /// Epsilon-greedy choice, given the exploration draw and the index of
    /// the random action.
    pub fn sample_action_with(
        &self,
        reps: &Vec<(AgentStateItems, InvLevel)>,
        draw: u32,
        epsilon: u32,
        random_index: u32,
    ) -> (r: (Action, i64))
        requires
            self.wf(),
            self.actions().len() > 0,
            is_state(self.items(), self.levels(), reps@),
            random_index < self.actions().len(),
        ensures
            exists|i: int|
                is_greedy(self.view(), self.actions(), reps@, i) && r.0 == epsilon_choice(
                    self.actions(),
                    self.actions()[i],
                    draw as int,
                    epsilon as int,
                    random_index as int,
                ) && r.1 == self.view()[(reps@, self.actions()[i])],
    {
        let (greedy, q) = self.greedy_action(reps);
        if draw < epsilon {
            (self.actions[random_index as usize], q)
        } else {
            (greedy, q)
        }
    }

    /// Epsilon-greedy action sampling: the greedy action, replaced with
    /// probability `epsilon` (in parts per million) by a uniformly random
    /// action of the table. Returns the action and the greedy value.
    pub fn sample_action(&self, reps: &Vec<(AgentStateItems, InvLevel)>, epsilon: u32, rng: &mut StdRng) -> (r: (Action, i64))
        requires
            self.wf(),
            self.actions().len() > 0,
            self.actions().len() <= u32::MAX,
            is_state(self.items(), self.levels(), reps@),
        ensures
            self.actions().contains(r.0),
            exists|i: int|
                is_greedy(self.view(), self.actions(), reps@, i) && r.1 == self.view()[(
                    reps@,
                    self.actions()[i],
                )] && (epsilon == 0 ==> r.0 == self.actions()[i]),
    {
        let draw = draw_below(rng, RATE_SCALE);
        let random_index = if draw < epsilon {
            draw_below(rng, self.actions.len() as u32)
        } else {
            0
        };
        let r = self.sample_action_with(reps, draw, epsilon, random_index);
        proof {
            let i = choose|i: int|
                is_greedy(self.view(), self.actions(), reps@, i) && r.0 == epsilon_choice(
                    self.actions(),
                    self.actions()[i],
                    draw as int,
                    epsilon as int,
                    random_index as int,
                ) && r.1 == self.view()[(reps@, self.actions()[i])];
            if draw < epsilon {
                assert(self.actions()[random_index as int] == r.0);
            } else {
                assert(self.actions()[i] == r.0);
            }
        }
        r
    }
}

/// Every choice of one level from each list, in lexicographic order with the
/// last list varying fastest; no lists give one empty choice.
pub open spec fn combinations(ls: Seq<Seq<InvLevel>>) -> Seq<Seq<InvLevel>>
    decreases ls.len(),
{
    if ls.len() == 0 {
        seq![Seq::<InvLevel>::empty()]
    } else {
        let prev = combinations(ls.drop_last());
        let last = ls.last();
        Seq::new(prev.len() * last.len(), |k: int| prev[k / last.len() as int].push(last[k % last.len() as int]))
    }
}

/// The views of a list of level lists.
pub open spec fn level_lists(v: Seq<Vec<InvLevel>>) -> Seq<Seq<InvLevel>> {
    Seq::new(v.len(), |i: int| v[i]@)
}

/// Relies on itertools' `multi_cartesian_product`: every choice of one item
/// per list, in lexicographic order (the last list fastest), and a single
/// empty choice when there are no lists.
#[verifier::external_body]
fn cartesian_levels(lists: Vec<Vec<InvLevel>>) -> (r: Vec<Vec<InvLevel>>)
    ensures
        r@.len() == combinations(level_lists(lists@)).len(),
        forall|k: int| 0 <= k < r@.len() ==> (#[trigger] r@[k])@ == combinations(level_lists(lists@))[k],
{
    lists.into_iter().map(|v| v.into_iter()).multi_cartesian_product().collect()
}

/// The rows of a table in order: every choice of one level for each state
/// item, from the levels configured for that item.
pub fn level_combinations(levels_per_item: Vec<Vec<InvLevel>>) -> (r: Vec<Vec<InvLevel>>)
    ensures
        r@.len() == combinations(level_lists(levels_per_item@)).len(),
        forall|k: int| 0 <= k < r@.len() ==> (#[trigger] r@[k])@ == combinations(level_lists(levels_per_item@))[k],
{
    cartesian_levels(levels_per_item)
}

/// The position of the first `x` in `levels`.
fn level_pos(levels: &Vec<InvLevel>, x: InvLevel) -> (r: Option<usize>)
    ensures
        r is None <==> !levels@.contains(x),
        r matches Some(d) ==> d == pos_of(levels@, x) && d < levels@.len(),
{
    proof {
        lemma_pos_of(levels@, x);
    }
    let mut i: usize = 0;
    assert(levels@.subrange(0, levels@.len() as int) =~= levels@);
    while i < levels.len()
        invariant
            i <= levels@.len(),
            forall|k: int| 0 <= k < i ==> levels@[k] != x,
            pos_of(levels@, x) == i + pos_of(levels@.subrange(i as int, levels@.len() as int), x),
        decreases levels@.len() - i,
    {
        let ghost rest = levels@.subrange(i as int, levels@.len() as int);
        if levels[i] == x {
            return Some(i);
        }
        proof {
            assert(rest.drop_first() =~= levels@.subrange(i + 1, levels@.len() as int));
        }
        i += 1;
    }
    None
}

/// The position of the first `x` in `actions`.
fn action_pos(actions: &Vec<Action>, x: Action) -> (r: Option<usize>)
    ensures
        r is None <==> !actions@.contains(x),
        r matches Some(d) ==> d == pos_of(actions@, x) && d < actions@.len(),
{
    proof {
        lemma_pos_of(actions@, x);
    }
    let mut i: usize = 0;
    assert(actions@.subrange(0, actions@.len() as int) =~= actions@);
    while i < actions.len()
        invariant
            i <= actions@.len(),
            forall|k: int| 0 <= k < i ==> actions@[k] != x,
            pos_of(actions@, x) == i + pos_of(actions@.subrange(i as int, actions@.len() as int), x),
        decreases actions@.len() - i,
    {
        let ghost rest = actions@.subrange(i as int, actions@.len() as int);
        if actions[i] == x {
            return Some(i);
        }
        proof {
            assert(rest.drop_first() =~= actions@.subrange(i + 1, actions@.len() as int));
        }
        i += 1;
    }
    None
}

} // verus!
