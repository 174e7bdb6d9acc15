//! A pane manifest taken twice: the second changes nothing.
use vstd::prelude::*;
use crate::agents::{AgentView, acknowledged, put, with_location};
use crate::dashboard::{
    after_focus, agent_on_pane, discovered_all, discovered_id, discovered_in, discovered_panes, discovery_fold,
    discovery_step, fresh_agent, in_view_flags, index_on_pane, is_candidate, keeps_discovery, live_terminals,
    manifest_agents, manifest_changes, on_pane_flags, paneless_or_live, pruned, reconciled, refreshed, view_of,
    Discovery, PaneId,
};
use crate::model::{all_panes, PaneInfo, TabInfo};
use crate::detect::starts_codex;
use crate::dashboard::command_views;
use crate::text::{decimal, digit};

verus! {

proof fn lemma_decimal_len(n: nat)
    ensures
        decimal(n).len() >= 1,
        n >= 10 ==> decimal(n).len() >= 2,
    decreases n,
{
    if n >= 10 {
        lemma_decimal_len(n / 10);
    }
}

proof fn lemma_decimal_injective(n: nat, m: nat)
    requires
        decimal(n) == decimal(m),
    ensures
        n == m,
    decreases n,
{
    lemma_decimal_len(n);
    lemma_decimal_len(m);
    if n < 10 && m < 10 {
        assert(decimal(n)[0] == digit(n));
        assert(decimal(m)[0] == digit(m));
    } else if n >= 10 && m >= 10 {
        let a = decimal(n / 10).push(digit(n % 10));
        let b = decimal(m / 10).push(digit(m % 10));
        assert(a.last() == b.last());
        assert(a.drop_last() =~= decimal(n / 10));
        assert(b.drop_last() =~= decimal(m / 10));
        lemma_decimal_injective(n / 10, m / 10);
    }
}

/// Two panes get the same discovered id only when they are the same pane.
proof fn lemma_discovered_id_injective(p: u32, q: u32)
    requires
        discovered_id(p) == discovered_id(q),
    ensures
        p == q,
{
    let prefix = "discovered:pane:"@;
    assert((prefix + decimal(p as nat)).skip(prefix.len() as int) =~= decimal(p as nat));
    assert((prefix + decimal(q as nat)).skip(prefix.len() as int) =~= decimal(q as nat));
    lemma_decimal_injective(p as nat, q as nat);
}

/// The first agent on a pane is found at `index_on_pane`, and none before it.
proof fn lemma_first_on_pane(s: Seq<AgentView>, q: u32)
    ensures
        index_on_pane(s, q) <= s.len(),
        (index_on_pane(s, q) < s.len()) == (agent_on_pane(s, q) is Some),
        index_on_pane(s, q) < s.len() ==> agent_on_pane(s, q) == Some(s[index_on_pane(s, q) as int])
            && s[index_on_pane(s, q) as int].pane_id == Some(q),
        forall|k: int| 0 <= k < index_on_pane(s, q) ==> #[trigger] s[k].pane_id != Some(q),
    decreases s.len(),
{
    if s.len() > 0 && s[0].pane_id != Some(q) {
        let d = s.drop_first();
        lemma_first_on_pane(d, q);
        assert forall|k: int| 0 <= k < index_on_pane(s, q) implies #[trigger] s[k].pane_id != Some(q) by {
            if k > 0 {
                assert(s[k] == d[k - 1]);
            }
        }
        if index_on_pane(d, q) < d.len() {
            assert(s[index_on_pane(s, q) as int] == d[index_on_pane(d, q) as int]);
        }
    }
}

/// An agent on pane `q` means some agent is found on it.
proof fn lemma_some_on_pane(s: Seq<AgentView>, q: u32, j: int)
    requires
        0 <= j < s.len(),
        s[j].pane_id == Some(q),
    ensures
        agent_on_pane(s, q) is Some,
{
    lemma_first_on_pane(s, q);
}

/// Two lists with the same panes, index by index, find the first agent on a
/// pane at the same index.
proof fn lemma_same_panes_same_index(s: Seq<AgentView>, t: Seq<AgentView>, q: u32)
    requires
        s.len() == t.len(),
        forall|i: int| 0 <= i < s.len() ==> #[trigger] s[i].pane_id == t[i].pane_id,
    ensures
        index_on_pane(s, q) == index_on_pane(t, q),
    decreases s.len(),
{
    if s.len() > 0 && s[0].pane_id != Some(q) {
        let (ds, dt) = (s.drop_first(), t.drop_first());
        assert forall|i: int| 0 <= i < ds.len() implies #[trigger] ds[i].pane_id == dt[i].pane_id by {
            assert(ds[i] == s[i + 1] && dt[i] == t[i + 1]);
        }
        lemma_same_panes_same_index(ds, dt, q);
    }
}

/// Reading results changes only statuses.
proof fn lemma_reading_keeps_agents(s: Seq<AgentView>, flags: Seq<bool>)
    requires
        flags.len() == s.len(),
    ensures
        acknowledged(s, flags).len() == s.len(),
        forall|i: int|
            0 <= i < s.len() ==> (#[trigger] acknowledged(s, flags)[i]).id == s[i].id
                && acknowledged(s, flags)[i].pane_id == s[i].pane_id && acknowledged(s, flags)[i].tab_id
                == s[i].tab_id && acknowledged(s, flags)[i].tab_position == s[i].tab_position,
{
}

/// Every agent whose id is the discovered id of one of `panes` runs on that pane.
pub open spec fn discovered_ids_fit(s: Seq<AgentView>, panes: Set<u32>) -> bool {
    forall|k: int, n: u32|
        #![trigger s[k], discovered_id(n)]
        0 <= k < s.len() && s[k].id == discovered_id(n) && panes.contains(n) ==> s[k].pane_id == Some(n)
}

/// Storing an agent under an id no agent has: it is found on its pane
/// (which had none), and every other pane finds what it found before.
proof fn lemma_put_new_agent(s: Seq<AgentView>, a: AgentView, q: u32)
    requires
        forall|k: int| 0 <= k < s.len() ==> #[trigger] s[k].id != a.id,
        a.pane_id is Some,
        agent_on_pane(s, a.pane_id->0) is None,
    ensures
        agent_on_pane(put(s, a), q) == if a.pane_id == Some(q) {
            Some(a)
        } else {
            agent_on_pane(s, q)
        },
    decreases s.len(),
{
    let r = put(s, a);
    if s.len() == 0 {
        assert(r =~= seq![a]);
        assert(r[0] == a);
        assert(r.drop_first() =~= Seq::<AgentView>::empty());
        assert(agent_on_pane(r.drop_first(), q) is None);
    } else if crate::text::seq_lt(a.id, s[0].id) {
        assert(s[0].id != a.id);
        assert(r =~= seq![a] + s);
        assert(r[0] == a);
        assert(r.drop_first() =~= s);
    } else {
        let d = s.drop_first();
        assert(s[0].id != a.id);
        assert(r =~= seq![s[0]] + put(d, a));
        assert(r[0] == s[0]);
        assert(r.drop_first() =~= put(d, a));
        assert forall|k: int| 0 <= k < d.len() implies #[trigger] d[k].id != a.id by {
            assert(d[k] == s[k + 1]);
        }
        assert(s[0].pane_id != a.pane_id);
        lemma_put_new_agent(d, a, q);
    }
    assert(agent_on_pane(r, q) == if r[0].pane_id == Some(q) {
        Some(r[0])
    } else {
        agent_on_pane(r.drop_first(), q)
    });
}

/// The tab location that the last discovery of pane `q` gives it.
pub open spec fn last_location(ds: Seq<Discovery>, q: u32) -> Option<(Option<usize>, usize)>
    decreases ds.len(),
{
    if ds.len() == 0 {
        None
    } else {
        match last_location(ds.drop_first(), q) {
            Some(l) => Some(l),
            None => if ds[0].0 == q {
                Some((ds[0].2, ds[0].3))
            } else {
                None
            },
        }
    }
}

/// Pane `q` has no last location exactly when no discovery names it.
proof fn lemma_last_location_none(ds: Seq<Discovery>, q: u32)
    ensures
        (last_location(ds, q) is None) == (forall|k: int| 0 <= k < ds.len() ==> #[trigger] ds[k].0 != q),
    decreases ds.len(),
{
    if ds.len() > 0 {
        let d = ds.drop_first();
        lemma_last_location_none(d, q);
        if last_location(ds, q) is None {
            assert forall|k: int| 0 <= k < ds.len() implies #[trigger] ds[k].0 != q by {
                if k > 0 {
                    assert(ds[k] == d[k - 1]);
                }
            }
        } else if last_location(d, q) is Some {
            let k = choose|k: int| 0 <= k < d.len() && #[trigger] d[k].0 == q;
            assert(ds[k + 1] == d[k]);
        }
    }
}

/// Agent `i` with its location set by the last discovery of its pane, when
/// it is the first agent on that pane.
pub open spec fn relocated(s: Seq<AgentView>, ds: Seq<Discovery>, i: int) -> AgentView {
    match s[i].pane_id {
        Some(q) => if index_on_pane(s, q) == i {
            match last_location(ds, q) {
                Some(l) => with_location(s[i], l.0, Some(l.1)),
                None => s[i],
            }
        } else {
            s[i]
        },
        None => s[i],
    }
}

/// Discoveries of panes that all have an agent only move the first agent on
/// each pane to the location of its last discovery.
proof fn lemma_fold_over_known_panes(s: Seq<AgentView>, ds: Seq<Discovery>)
    requires
        forall|k: int| 0 <= k < ds.len() ==> index_on_pane(s, #[trigger] ds[k].0) < s.len(),
    ensures
        discovery_fold(s, ds) == Seq::new(s.len(), |i: int| relocated(s, ds, i)),
    decreases ds.len(),
{
    if ds.len() == 0 {
        assert(discovery_fold(s, ds) =~= Seq::new(s.len(), |i: int| relocated(s, ds, i)));
    } else {
        let d0 = ds[0];
        let rest = ds.drop_first();
        let k = index_on_pane(s, d0.0);
        assert(index_on_pane(s, ds[0].0) < s.len());
        lemma_first_on_pane(s, d0.0);
        let t = discovery_step(s, d0);
        assert(t == s.update(k as int, with_location(s[k as int], d0.2, Some(d0.3))));
        assert forall|i: int| 0 <= i < t.len() implies #[trigger] t[i].pane_id == s[i].pane_id by {}
        assert forall|q: u32| index_on_pane(t, q) == index_on_pane(s, q) by {
            lemma_same_panes_same_index(t, s, q);
        }
        assert forall|j: int| 0 <= j < rest.len() implies index_on_pane(t, #[trigger] rest[j].0) < t.len() by {
            assert(rest[j] == ds[j + 1]);
        }
        lemma_fold_over_known_panes(t, rest);
        assert forall|i: int| 0 <= i < s.len() implies relocated(t, rest, i) == relocated(s, ds, i) by {
            match s[i].pane_id {
                Some(q) => {
                    if index_on_pane(s, q) == i {
                        if i == k {
                            assert(q == d0.0);
                        } else {
                            assert(q != d0.0);
                        }
                    } else {
                        if i == k {
                            assert(s[k as int].pane_id == Some(d0.0));
                        }
                    }
                },
                None => {
                    if i == k {
                        assert(s[k as int].pane_id == Some(d0.0));
                    }
                },
            }
        }
        assert(discovery_fold(s, ds) =~= Seq::new(s.len(), |i: int| relocated(s, ds, i)));
    }
}

/// One discovery of a pane in `panes`, applied to agents whose ids for
/// those panes name the pane they run on:
/// the pane's first agent takes the discovery's location (a fresh agent
/// where it had none); every other pane finds what it found; the agents are
/// the old ones, or the fresh one; those ids still name their panes.
proof fn lemma_step(s: Seq<AgentView>, d: Discovery, panes: Set<u32>)
    requires
        discovered_ids_fit(s, panes),
        panes.contains(d.0),
    ensures
        agent_on_pane(discovery_step(s, d), d.0) matches Some(a) && a.tab_id == d.2 && a.tab_position == Some(d.3),
        forall|q: u32| q != d.0 ==> #[trigger] agent_on_pane(discovery_step(s, d), q) == agent_on_pane(s, q),
        forall|i: int|
            0 <= i < discovery_step(s, d).len() ==> (exists|j: int|
                0 <= j < s.len() && s[j].id == (#[trigger] discovery_step(s, d)[i]).id && s[j].pane_id
                    == discovery_step(s, d)[i].pane_id) || (discovery_step(s, d)[i].id == discovered_id(d.0)
                && discovery_step(s, d)[i].pane_id == Some(d.0)),
        discovered_ids_fit(discovery_step(s, d), panes),
{
    let k = index_on_pane(s, d.0);
    let t = discovery_step(s, d);
    lemma_first_on_pane(s, d.0);
    if k < s.len() {
        assert(t == s.update(k as int, with_location(s[k as int], d.2, Some(d.3))));
        assert forall|i: int| 0 <= i < t.len() implies #[trigger] t[i].pane_id == s[i].pane_id by {}
        lemma_same_panes_same_index(t, s, d.0);
        lemma_first_on_pane(t, d.0);
        assert forall|q: u32| q != d.0 implies #[trigger] agent_on_pane(t, q) == agent_on_pane(s, q) by {
            lemma_same_panes_same_index(t, s, q);
            lemma_first_on_pane(t, q);
            lemma_first_on_pane(s, q);
            if index_on_pane(s, q) < s.len() {
                assert(index_on_pane(s, q) != k);
            }
        }
        assert forall|i: int| 0 <= i < t.len() implies (exists|j: int|
            0 <= j < s.len() && s[j].id == (#[trigger] t[i]).id && s[j].pane_id == t[i].pane_id) || (t[i].id
            == discovered_id(d.0) && t[i].pane_id == Some(d.0)) by {
            assert(s[i].id == t[i].id && s[i].pane_id == t[i].pane_id);
        }
        assert forall|j: int, n: u32| #![trigger t[j], discovered_id(n)]
            0 <= j < t.len() && t[j].id == discovered_id(n) && panes.contains(n) implies t[j].pane_id == Some(n) by {
            assert(s[j].id == t[j].id);
        }
    } else {
        let a = fresh_agent(d.0, d.1, d.2, Some(d.3));
        assert(t == put(s, a));
        assert forall|j: int| 0 <= j < s.len() implies #[trigger] s[j].id != a.id by {
            if s[j].id == a.id {
                assert(s[j].id == discovered_id(d.0));
                lemma_some_on_pane(s, d.0, j);
            }
        }
        assert forall|q: u32| #[trigger] agent_on_pane(t, q) == if a.pane_id == Some(q) {
            Some(a)
        } else {
            agent_on_pane(s, q)
        } by {
            lemma_put_new_agent(s, a, q);
        }
        crate::laws::lemma_put_members(s, a);
        assert forall|i: int| 0 <= i < t.len() implies (exists|j: int|
            0 <= j < s.len() && s[j].id == (#[trigger] t[i]).id && s[j].pane_id == t[i].pane_id) || (t[i].id
            == discovered_id(d.0) && t[i].pane_id == Some(d.0)) by {
            if t[i] != a {
                let j = choose|j: int| 0 <= j < s.len() && s[j] == t[i];
            }
        }
        assert forall|j: int, n: u32| #![trigger t[j], discovered_id(n)]
            0 <= j < t.len() && t[j].id == discovered_id(n) && panes.contains(n) implies t[j].pane_id == Some(n) by {
            if t[j] == a {
                lemma_discovered_id_injective(d.0, n);
            } else {
                let m = choose|m: int| 0 <= m < s.len() && s[m] == t[j];
            }
        }
    }
}


/// The first agent on pane `q` is at location `l`.
pub open spec fn placed_at(s: Seq<AgentView>, q: u32, l: (Option<usize>, usize)) -> bool {
    agent_on_pane(s, q) matches Some(a) && a.tab_id == l.0 && a.tab_position == Some(l.1)
}

/// All discoveries, each of a pane in `panes`, applied to agents whose ids
/// for those panes name the pane they run on:
/// every discovered pane ends with an agent, at the location of its last
/// discovery; panes that had an agent keep one; panes no discovery names
/// find what they found; the agents are old ones or fresh ones for
/// discovered panes; those ids still name their panes.
proof fn lemma_fold(s: Seq<AgentView>, ds: Seq<Discovery>, panes: Set<u32>)
    requires
        discovered_ids_fit(s, panes),
        forall|k: int| 0 <= k < ds.len() ==> panes.contains(#[trigger] ds[k].0),
    ensures
        forall|k: int| 0 <= k < ds.len() ==> agent_on_pane(discovery_fold(s, ds), #[trigger] ds[k].0) is Some,
        forall|q: u32| agent_on_pane(s, q) is Some ==> #[trigger] agent_on_pane(discovery_fold(s, ds), q) is Some,
        forall|q: u32|
            #[trigger] last_location(ds, q) is Some ==> placed_at(discovery_fold(s, ds), q, last_location(ds, q)->0),
        forall|i: int|
            0 <= i < discovery_fold(s, ds).len() ==> (exists|j: int|
                0 <= j < s.len() && s[j].id == (#[trigger] discovery_fold(s, ds)[i]).id && s[j].pane_id
                    == discovery_fold(s, ds)[i].pane_id) || (exists|k: int|
                0 <= k < ds.len() && discovery_fold(s, ds)[i].id == discovered_id(#[trigger] ds[k].0)
                    && discovery_fold(s, ds)[i].pane_id == Some(ds[k].0)),
        discovered_ids_fit(discovery_fold(s, ds), panes),
        forall|q: u32|
            (forall|k: int| 0 <= k < ds.len() ==> #[trigger] ds[k].0 != q) ==> #[trigger] agent_on_pane(
                discovery_fold(s, ds),
                q,
            ) == agent_on_pane(s, q),
    decreases ds.len(),
{
    if ds.len() > 0 {
        let d0 = ds[0];
        let rest = ds.drop_first();
        let t = discovery_step(s, d0);
        let r = discovery_fold(s, ds);
        assert(r == discovery_fold(t, rest));
        lemma_step(s, d0, panes);
        assert forall|k: int| 0 <= k < rest.len() implies panes.contains(#[trigger] rest[k].0) by {
            assert(rest[k] == ds[k + 1]);
        }
        lemma_fold(t, rest, panes);
        assert forall|k: int| 0 <= k < ds.len() implies agent_on_pane(r, #[trigger] ds[k].0) is Some by {
            if k > 0 {
                assert(ds[k] == rest[k - 1]);
            }
        }
        assert forall|q: u32| agent_on_pane(s, q) is Some implies #[trigger] agent_on_pane(r, q) is Some by {
            if q != d0.0 {
                assert(agent_on_pane(t, q) == agent_on_pane(s, q));
            }
        }
        assert forall|q: u32| #[trigger] last_location(ds, q) is Some implies placed_at(r, q, last_location(ds, q)->0) by {
            if last_location(rest, q) is None {
                lemma_last_location_none(rest, q);
                assert(q == d0.0);
            }
        }
        assert forall|i: int| 0 <= i < r.len() implies (exists|j: int|
            0 <= j < s.len() && s[j].id == (#[trigger] r[i]).id && s[j].pane_id == r[i].pane_id) || (exists|k: int|
            0 <= k < ds.len() && r[i].id == discovered_id(#[trigger] ds[k].0) && r[i].pane_id == Some(ds[k].0)) by {
            if exists|k: int|
                0 <= k < rest.len() && r[i].id == discovered_id(#[trigger] rest[k].0) && r[i].pane_id == Some(
                    rest[k].0,
                ) {
                let k = choose|k: int|
                    0 <= k < rest.len() && r[i].id == discovered_id(#[trigger] rest[k].0) && r[i].pane_id == Some(
                        rest[k].0,
                    );
                assert(ds[k + 1] == rest[k]);
            } else {
                let j = choose|j: int| 0 <= j < t.len() && t[j].id == (#[trigger] r[i]).id && t[j].pane_id == r[i].pane_id;
                assert(t[j] == discovery_step(s, d0)[j]);
                if !(t[j].id == discovered_id(d0.0) && t[j].pane_id == Some(d0.0)) {
                    let m = choose|m: int|
                        0 <= m < s.len() && s[m].id == (#[trigger] discovery_step(s, d0)[j]).id && s[m].pane_id
                            == discovery_step(s, d0)[j].pane_id;
                } else {
                    assert(ds[0].0 == d0.0);
                }
            }
        }
        assert forall|q: u32|
            (forall|k: int| 0 <= k < ds.len() ==> #[trigger] ds[k].0 != q) implies #[trigger] agent_on_pane(r, q)
            == agent_on_pane(s, q) by {
            assert(ds[0].0 != q);
            assert forall|k: int| 0 <= k < rest.len() implies #[trigger] rest[k].0 != q by {
                assert(rest[k] == ds[k + 1]);
            }
        }
    }
}


/// Discovery `d` names a candidate pane of `panes`.
pub open spec fn names_candidate(panes: Seq<PaneInfo>, agents: Seq<AgentView>, d: Discovery) -> bool {
    exists|j: int| 0 <= j < panes.len() && is_candidate(#[trigger] panes[j], agents) && panes[j].id == d.0
}

/// Some discovery names pane `id`.
pub open spec fn pane_discovered(ds: Seq<Discovery>, id: u32) -> bool {
    exists|k: int| 0 <= k < ds.len() && (#[trigger] ds[k]).0 == id
}

/// The discoveries among a tab's panes are its candidate panes.
proof fn lemma_discovered_in(panes: Seq<PaneInfo>, tab: Option<TabInfo>, position: usize, agents: Seq<AgentView>)
    ensures
        forall|k: int|
            0 <= k < discovered_in(panes, tab, position, agents).len() ==> names_candidate(
                panes,
                agents,
                #[trigger] discovered_in(panes, tab, position, agents)[k],
            ),
        forall|j: int|
            0 <= j < panes.len() && is_candidate(#[trigger] panes[j], agents) ==> pane_discovered(
                discovered_in(panes, tab, position, agents),
                panes[j].id,
            ),
    decreases panes.len(),
{
    if panes.len() > 0 {
        let d = panes.drop_last();
        lemma_discovered_in(d, tab, position, agents);
        let dd = discovered_in(d, tab, position, agents);
        let di = discovered_in(panes, tab, position, agents);
        assert forall|k: int| 0 <= k < di.len() implies names_candidate(panes, agents, #[trigger] di[k]) by {
            if k < dd.len() {
                assert(di[k] == dd[k]);
                assert(names_candidate(d, agents, dd[k]));
                let j = choose|j: int| 0 <= j < d.len() && is_candidate(#[trigger] d[j], agents) && d[j].id == dd[k].0;
                assert(panes[j] == d[j]);
            } else {
                assert(di == dd.push(crate::dashboard::discovery_for(panes.last(), tab, position)));
                assert(panes[panes.len() - 1] == panes.last());
            }
        }
        assert forall|j: int| 0 <= j < panes.len() && is_candidate(#[trigger] panes[j], agents) implies pane_discovered(
            di,
            panes[j].id,
        ) by {
            if j < d.len() {
                assert(d[j] == panes[j]);
                assert(pane_discovered(dd, d[j].id));
                let k = choose|k: int| 0 <= k < dd.len() && (#[trigger] dd[k]).0 == d[j].id;
                assert(di[k] == dd[k]);
            } else {
                assert(di[dd.len() as int] == crate::dashboard::discovery_for(panes.last(), tab, position));
            }
        }
    }
}

/// Panes that are candidates alike give the same discoveries.
proof fn lemma_discovered_in_same(
    panes: Seq<PaneInfo>,
    tab: Option<TabInfo>,
    position: usize,
    a: Seq<AgentView>,
    b: Seq<AgentView>,
)
    requires
        forall|j: int| 0 <= j < panes.len() ==> is_candidate(#[trigger] panes[j], a) == is_candidate(panes[j], b),
    ensures
        discovered_in(panes, tab, position, a) == discovered_in(panes, tab, position, b),
    decreases panes.len(),
{
    if panes.len() > 0 {
        let d = panes.drop_last();
        assert forall|j: int| 0 <= j < d.len() implies is_candidate(#[trigger] d[j], a) == is_candidate(d[j], b) by {
            assert(d[j] == panes[j]);
        }
        lemma_discovered_in_same(d, tab, position, a, b);
        assert(panes.last() == panes[panes.len() - 1]);
    }
}

/// The panes of the last tab of the manifest close its list of panes.
proof fn lemma_all_panes_last(entries: Seq<(usize, Vec<PaneInfo>)>)
    requires
        entries.len() > 0,
    ensures
        all_panes(entries) == all_panes(entries.drop_last()) + entries.last().1@,
{
    let n = entries.len() - 1;
    crate::model::lemma_all_panes_split(entries, n);
    assert(entries.take(n + 1) =~= entries);
    assert(entries.take(n) =~= entries.drop_last());
}

/// The discoveries of the manifest are its candidate panes.
proof fn lemma_discovered_all(entries: Seq<(usize, Vec<PaneInfo>)>, tabs: Seq<TabInfo>, agents: Seq<AgentView>)
    ensures
        forall|k: int|
            0 <= k < discovered_all(entries, tabs, agents).len() ==> names_candidate(
                all_panes(entries),
                agents,
                #[trigger] discovered_all(entries, tabs, agents)[k],
            ),
        forall|j: int|
            0 <= j < all_panes(entries).len() && is_candidate(#[trigger] all_panes(entries)[j], agents)
                ==> pane_discovered(discovered_all(entries, tabs, agents), all_panes(entries)[j].id),
    decreases entries.len(),
{
    if entries.len() > 0 {
        let d = entries.drop_last();
        let e = entries.last();
        lemma_discovered_all(d, tabs, agents);
        lemma_discovered_in(e.1@, crate::dashboard::tab_at(tabs, e.0), e.0, agents);
        lemma_all_panes_last(entries);
        let all = all_panes(entries);
        let ad = all_panes(d);
        let pe = e.1@;
        let dsd = discovered_all(d, tabs, agents);
        let die = discovered_in(pe, crate::dashboard::tab_at(tabs, e.0), e.0, agents);
        let ds = discovered_all(entries, tabs, agents);
        assert(ds == dsd + die);
        assert forall|k: int| 0 <= k < ds.len() implies names_candidate(all, agents, #[trigger] ds[k]) by {
            if k < dsd.len() {
                assert(ds[k] == dsd[k]);
                assert(names_candidate(ad, agents, dsd[k]));
                let j = choose|j: int| 0 <= j < ad.len() && is_candidate(#[trigger] ad[j], agents) && ad[j].id == dsd[k].0;
                assert(all[j] == ad[j]);
            } else {
                assert(ds[k] == die[k - dsd.len()]);
                assert(names_candidate(pe, agents, die[k - dsd.len()]));
                let j = choose|j: int|
                    0 <= j < pe.len() && is_candidate(#[trigger] pe[j], agents) && pe[j].id == die[k - dsd.len()].0;
                assert(all[ad.len() + j] == pe[j]);
            }
        }
        assert forall|j: int| 0 <= j < all.len() && is_candidate(#[trigger] all[j], agents) implies pane_discovered(
            ds,
            all[j].id,
        ) by {
            if j < ad.len() {
                assert(all[j] == ad[j]);
                assert(pane_discovered(dsd, ad[j].id));
                let k = choose|k: int| 0 <= k < dsd.len() && (#[trigger] dsd[k]).0 == ad[j].id;
                assert(ds[k] == dsd[k]);
            } else {
                assert(all[j] == pe[j - ad.len()]);
                assert(pane_discovered(die, pe[j - ad.len()].id));
                let k = choose|k: int| 0 <= k < die.len() && (#[trigger] die[k]).0 == pe[j - ad.len()].id;
                assert(ds[dsd.len() + k] == die[k]);
            }
        }
    }
}

/// Panes that are candidates alike give the same discoveries, manifest-wide.
proof fn lemma_discovered_all_same(
    entries: Seq<(usize, Vec<PaneInfo>)>,
    tabs: Seq<TabInfo>,
    a: Seq<AgentView>,
    b: Seq<AgentView>,
)
    requires
        forall|j: int|
            0 <= j < all_panes(entries).len() ==> is_candidate(#[trigger] all_panes(entries)[j], a) == is_candidate(
                all_panes(entries)[j],
                b,
            ),
    ensures
        discovered_all(entries, tabs, a) == discovered_all(entries, tabs, b),
    decreases entries.len(),
{
    if entries.len() > 0 {
        let d = entries.drop_last();
        let e = entries.last();
        lemma_all_panes_last(entries);
        let all = all_panes(entries);
        let ad = all_panes(d);
        let pe = e.1@;
        assert forall|j: int| 0 <= j < ad.len() implies is_candidate(#[trigger] ad[j], a) == is_candidate(ad[j], b) by {
            assert(all[j] == ad[j]);
        }
        assert forall|j: int| 0 <= j < pe.len() implies is_candidate(#[trigger] pe[j], a) == is_candidate(pe[j], b) by {
            assert(all[ad.len() + j] == pe[j]);
        }
        lemma_discovered_all_same(d, tabs, a, b);
        lemma_discovered_in_same(pe, crate::dashboard::tab_at(tabs, e.0), e.0, a, b);
    }
}


/// A member of a filtered sequence is a member of the sequence.
pub(crate) proof fn lemma_filter_source(s: Seq<AgentView>, pred: spec_fn(AgentView) -> bool, k: int)
    requires
        0 <= k < s.filter(pred).len(),
    ensures
        exists|j: int| 0 <= j < s.len() && s[j] == s.filter(pred)[k],
        pred(s.filter(pred)[k]),
    decreases s.len(),
{
    reveal(Seq::filter);
    s.lemma_filter_pred(pred, k);
    let d = s.drop_last();
    if pred(s.last()) && k == s.filter(pred).len() - 1 {
        assert(s[s.len() - 1] == s.filter(pred)[k]);
    } else {
        assert(s.filter(pred)[k] == d.filter(pred)[k]);
        lemma_filter_source(d, pred, k);
        let m = choose|m: int| 0 <= m < d.len() && d[m] == d.filter(pred)[k];
        assert(s[m] == d[m]);
    }
}

/// Filtering keeps everything when everything passes.
proof fn lemma_filter_all(s: Seq<AgentView>, pred: spec_fn(AgentView) -> bool)
    requires
        forall|i: int| 0 <= i < s.len() ==> pred(#[trigger] s[i]),
    ensures
        s.filter(pred) == s,
    decreases s.len(),
{
    reveal(Seq::filter);
    if s.len() > 0 {
        let d = s.drop_last();
        assert forall|i: int| 0 <= i < d.len() implies pred(#[trigger] d[i]) by {
            assert(d[i] == s[i]);
        }
        lemma_filter_all(d, pred);
        assert(pred(s[s.len() - 1]));
        assert(s.filter(pred) =~= s);
    }
}

/// Reading the current view changes statuses only.
proof fn lemma_refresh_keeps_places(s: Seq<AgentView>, tabs: Seq<TabInfo>, entries: Seq<(usize, Vec<PaneInfo>)>)
    ensures
        refreshed(s, tabs, entries).len() == s.len(),
        forall|i: int|
            0 <= i < s.len() ==> (#[trigger] refreshed(s, tabs, entries)[i]).id == s[i].id && refreshed(
                s,
                tabs,
                entries,
            )[i].pane_id == s[i].pane_id && refreshed(s, tabs, entries)[i].tab_id == s[i].tab_id && refreshed(
                s,
                tabs,
                entries,
            )[i].tab_position == s[i].tab_position,
{
    match view_of(tabs, entries) {
        Some((position, pane, surface)) => {
            let f = after_focus(s, pane);
            match pane {
                PaneId::Terminal(p) => lemma_reading_keeps_agents(s, on_pane_flags(s, p)),
                PaneId::Plugin(_) => {},
            }
            if surface {
                let t = crate::dashboard::tab_id_at(tabs, position);
                let visible = crate::dashboard::visible_terminals(crate::model::panes_at(entries, position));
                lemma_reading_keeps_agents(f, in_view_flags(f, t, position, visible));
            }
        },
        None => {},
    }
}

/// Terminal pane ids do not repeat across the manifest.
pub open spec fn terminal_ids_unique(entries: Seq<(usize, Vec<PaneInfo>)>) -> bool {
    forall|i: int, j: int|
        #![trigger all_panes(entries)[i], all_panes(entries)[j]]
        0 <= i < all_panes(entries).len() && 0 <= j < all_panes(entries).len() && !all_panes(entries)[i].is_plugin
            && !all_panes(entries)[j].is_plugin && all_panes(entries)[i].id == all_panes(entries)[j].id ==> i == j
}

/// The owner taking the same pane manifest a second time changes nothing and
/// asks for no redraw (the agents of closed panes are already gone, the Codex
/// panes already found and placed, the view already read) when no terminal
/// pane id repeats in the manifest and no agent with a discovered id runs on
/// another pane while both that pane and the pane its id names are found.
pub proof fn law_same_manifest_twice_changes_nothing_for_distinct_ids(
    agents: Seq<AgentView>,
    tabs: Seq<TabInfo>,
    entries: Seq<(usize, Vec<PaneInfo>)>,
)
    requires
        terminal_ids_unique(entries),
        no_discovered_agent_on_another_found_pane(agents, discovered_all(entries, tabs, pruned(agents, entries))),
    ensures
        manifest_agents(manifest_agents(agents, tabs, entries), tabs, entries) == manifest_agents(
            agents,
            tabs,
            entries,
        ),
        !manifest_changes(manifest_agents(agents, tabs, entries), tabs, entries),
{
    let live = live_terminals(entries);
    let pl = paneless_or_live(live);
    let s1 = pruned(agents, entries);
    let all = all_panes(entries);
    let ds = discovered_all(entries, tabs, s1);
    let keep = keeps_discovery(discovered_panes(ds));
    let f = s1.filter(keep);
    assert forall|k: int, n: u32| #![trigger f[k], discovered_id(n)]
        0 <= k < f.len() && f[k].id == discovered_id(n) && discovered_panes(ds).contains(n) implies f[k].pane_id == Some(n) by {
        lemma_filter_source(s1, keep, k);
        let j = choose|j: int| 0 <= j < s1.len() && s1[j] == f[k];
        lemma_filter_source(agents, pl, j);
        let m = choose|m: int| 0 <= m < agents.len() && agents[m] == s1[j];
        let prefix = "discovered:pane:"@;
        assert(prefix.is_prefix_of(discovered_id(n))) by {
            assert((prefix + decimal(n as nat)).subrange(0, prefix.len() as int) =~= prefix);
        }
        assert(agents[m].id == discovered_id(n));
    }
    assert forall|k: int| 0 <= k < ds.len() implies discovered_panes(ds).contains(#[trigger] ds[k].0) by {}
    lemma_fold(f, ds, discovered_panes(ds));
    let s2 = discovery_fold(f, ds);
    assert(s2 == reconciled(s1, ds));
    let s3 = refreshed(s2, tabs, entries);
    assert(s3 == manifest_agents(agents, tabs, entries));
    lemma_refresh_keeps_places(s2, tabs, entries);
    lemma_discovered_all(entries, tabs, s1);
    // Every agent kept runs without a pane or on a live terminal.
    assert forall|i: int| 0 <= i < s3.len() implies pl(#[trigger] s3[i]) by {
        if exists|j: int| 0 <= j < f.len() && f[j].id == s2[i].id && f[j].pane_id == s2[i].pane_id {
            let j = choose|j: int| 0 <= j < f.len() && f[j].id == s2[i].id && f[j].pane_id == s2[i].pane_id;
            lemma_filter_source(s1, keep, j);
            let m = choose|m: int| 0 <= m < s1.len() && s1[m] == f[j];
            lemma_filter_source(agents, pl, m);
        } else {
            assert(s2[i] == discovery_fold(f, ds)[i]);
            let k = choose|k: int|
                0 <= k < ds.len() && s2[i].id == discovered_id(#[trigger] ds[k].0) && s2[i].pane_id == Some(ds[k].0);
            assert(names_candidate(all, s1, ds[k]));
            let j = choose|j: int| 0 <= j < all.len() && is_candidate(#[trigger] all[j], s1) && all[j].id == ds[k].0;
        }
    }
    lemma_filter_all(s3, pl);
    assert(pruned(s3, entries) == s3);
    // Every pane is a candidate after as before.
    assert forall|j: int| 0 <= j < all.len() implies is_candidate(#[trigger] all[j], s3) == is_candidate(all[j], s1) by {
        let p = all[j];
        if !p.is_plugin && !p.exited {
            let q = p.id;
            lemma_same_panes_same_index(s3, s2, q);
            lemma_first_on_pane(s3, q);
            lemma_first_on_pane(s2, q);
            if is_candidate(p, s1) {
                assert(pane_discovered(ds, q));
                let k = choose|k: int| 0 <= k < ds.len() && (#[trigger] ds[k]).0 == q;
                assert(agent_on_pane(s2, ds[k].0) is Some);
            }
            if agent_on_pane(s2, q) is Some {
                let idx = index_on_pane(s2, q) as int;
                assert(s2[idx].pane_id == Some(q));
                assert(s2[idx] == discovery_fold(f, ds)[idx]);
                if exists|j2: int| 0 <= j2 < f.len() && f[j2].id == s2[idx].id && f[j2].pane_id == s2[idx].pane_id {
                    let j2 = choose|j2: int| 0 <= j2 < f.len() && f[j2].id == s2[idx].id && f[j2].pane_id == s2[idx].pane_id;
                    lemma_filter_source(s1, keep, j2);
                    let m = choose|m: int| 0 <= m < s1.len() && s1[m] == f[j2];
                    lemma_some_on_pane(s1, q, m);
                } else {
                    let k = choose|k: int|
                        0 <= k < ds.len() && s2[idx].id == discovered_id(#[trigger] ds[k].0) && s2[idx].pane_id == Some(
                            ds[k].0,
                        );
                    assert(names_candidate(all, s1, ds[k]));
                    let j3 = choose|j3: int| 0 <= j3 < all.len() && is_candidate(#[trigger] all[j3], s1) && all[j3].id == ds[k].0;
                    assert(j3 == j);
                }
            }
        }
    }
    lemma_discovered_all_same(entries, tabs, s3, s1);
    assert(discovered_all(entries, tabs, s3) == ds);
    // Discovered agents already sit on discovered panes.
    assert forall|i: int| 0 <= i < s3.len() implies keep(#[trigger] s3[i]) by {
        assert(s2[i] == discovery_fold(f, ds)[i]);
        if exists|j: int| 0 <= j < f.len() && f[j].id == s2[i].id && f[j].pane_id == s2[i].pane_id {
            let j = choose|j: int| 0 <= j < f.len() && f[j].id == s2[i].id && f[j].pane_id == s2[i].pane_id;
            lemma_filter_source(s1, keep, j);
        } else {
            let k = choose|k: int|
                0 <= k < ds.len() && s2[i].id == discovered_id(#[trigger] ds[k].0) && s2[i].pane_id == Some(ds[k].0);
            assert(discovered_panes(ds).contains(ds[k].0));
        }
    }
    lemma_filter_all(s3, keep);
    // Every discovered pane has its agent, already at its place.
    assert forall|k: int| 0 <= k < ds.len() implies index_on_pane(s3, #[trigger] ds[k].0) < s3.len() by {
        lemma_same_panes_same_index(s3, s2, ds[k].0);
        lemma_first_on_pane(s2, ds[k].0);
    }
    lemma_fold_over_known_panes(s3, ds);
    assert forall|i: int| 0 <= i < s3.len() implies relocated(s3, ds, i) == s3[i] by {
        match s3[i].pane_id {
            Some(q) => {
                if index_on_pane(s3, q) == i && last_location(ds, q) is Some {
                    lemma_same_panes_same_index(s3, s2, q);
                    lemma_first_on_pane(s2, q);
                    assert(placed_at(s2, q, last_location(ds, q)->0));
                }
            },
            None => {},
        }
    }
    assert(discovery_fold(s3, ds) =~= s3);
    assert(reconciled(s3, ds) == s3);
    crate::laws::law_reading_the_view_settles(s2, tabs, entries);
}

/// No agent with a discovered id runs on another pane while both that pane
/// and the pane its id names are discovered.
pub open spec fn no_discovered_agent_on_another_found_pane(s: Seq<AgentView>, ds: Seq<Discovery>) -> bool {
    forall|k: int, n: u32|
        #![trigger s[k], discovered_id(n)]
        0 <= k < s.len() && s[k].id == discovered_id(n) && s[k].pane_id is Some && discovered_panes(ds).contains(
            s[k].pane_id->0,
        ) && discovered_panes(ds).contains(n) ==> s[k].pane_id == Some(n)
}

/// Reconciling the agents a second time with the same discoveries changes
/// nothing, unless an agent with a discovered id runs on another pane while
/// both that pane and the pane its id names are discovered.
pub proof fn law_reconciling_twice_changes_nothing(s: Seq<AgentView>, ds: Seq<Discovery>)
    requires
        no_discovered_agent_on_another_found_pane(s, ds),
    ensures
        reconciled(reconciled(s, ds), ds) == reconciled(s, ds),
{
    let panes = discovered_panes(ds);
    let keep = keeps_discovery(panes);
    let f = s.filter(keep);
    assert forall|k: int, n: u32| #![trigger f[k], discovered_id(n)]
        0 <= k < f.len() && f[k].id == discovered_id(n) && panes.contains(n) implies f[k].pane_id == Some(n) by {
        lemma_filter_source(s, keep, k);
        let m = choose|m: int| 0 <= m < s.len() && s[m] == f[k];
        let prefix = "discovered:pane:"@;
        assert(prefix.is_prefix_of(discovered_id(n))) by {
            assert((prefix + decimal(n as nat)).subrange(0, prefix.len() as int) =~= prefix);
        }
        assert(s[m].id == discovered_id(n));
    }
    assert forall|k: int| 0 <= k < ds.len() implies panes.contains(#[trigger] ds[k].0) by {}
    lemma_fold(f, ds, panes);
    let r = discovery_fold(f, ds);
    assert(r == reconciled(s, ds));
    assert forall|i: int| 0 <= i < r.len() implies keep(#[trigger] r[i]) by {
        if exists|j: int| 0 <= j < f.len() && f[j].id == r[i].id && f[j].pane_id == r[i].pane_id {
            let j = choose|j: int| 0 <= j < f.len() && f[j].id == r[i].id && f[j].pane_id == r[i].pane_id;
            lemma_filter_source(s, keep, j);
        } else {
            let k = choose|k: int|
                0 <= k < ds.len() && r[i].id == discovered_id(#[trigger] ds[k].0) && r[i].pane_id == Some(ds[k].0);
            assert(discovered_panes(ds).contains(ds[k].0));
        }
    }
    lemma_filter_all(r, keep);
    assert forall|k: int| 0 <= k < ds.len() implies index_on_pane(r, #[trigger] ds[k].0) < r.len() by {
        lemma_first_on_pane(r, ds[k].0);
    }
    lemma_fold_over_known_panes(r, ds);
    assert forall|i: int| 0 <= i < r.len() implies relocated(r, ds, i) == r[i] by {
        match r[i].pane_id {
            Some(q) => {
                if index_on_pane(r, q) == i && last_location(ds, q) is Some {
                    lemma_first_on_pane(r, q);
                    assert(placed_at(r, q, last_location(ds, q)->0));
                }
            },
            None => {},
        }
    }
    assert(discovery_fold(r, ds) =~= r);
}

/// Every agent after the discoveries runs on the pane of an agent it was
/// given, or on a discovered pane.
proof fn lemma_fold_panes(s: Seq<AgentView>, ds: Seq<Discovery>)
    ensures
        forall|i: int|
            0 <= i < discovery_fold(s, ds).len() ==> (exists|j: int|
                0 <= j < s.len() && s[j].pane_id == (#[trigger] discovery_fold(s, ds)[i]).pane_id) || (exists|k: int|
                0 <= k < ds.len() && discovery_fold(s, ds)[i].pane_id == Some(#[trigger] ds[k].0)),
    decreases ds.len(),
{
    if ds.len() > 0 {
        let d0 = ds[0];
        let rest = ds.drop_first();
        let t = discovery_step(s, d0);
        let r = discovery_fold(s, ds);
        assert(r == discovery_fold(t, rest));
        lemma_fold_panes(t, rest);
        let k0 = index_on_pane(s, d0.0);
        let a = fresh_agent(d0.0, d0.1, d0.2, Some(d0.3));
        if k0 >= s.len() {
            assert(t == put(s, a));
            crate::laws::lemma_put_members(s, a);
        }
        assert forall|i: int| 0 <= i < r.len() implies (exists|j: int|
            0 <= j < s.len() && s[j].pane_id == (#[trigger] r[i]).pane_id) || (exists|k: int|
            0 <= k < ds.len() && r[i].pane_id == Some(#[trigger] ds[k].0)) by {
            if exists|k: int| 0 <= k < rest.len() && r[i].pane_id == Some(#[trigger] rest[k].0) {
                let k = choose|k: int| 0 <= k < rest.len() && r[i].pane_id == Some(#[trigger] rest[k].0);
                assert(ds[k + 1] == rest[k]);
            } else {
                let m = choose|m: int| 0 <= m < t.len() && t[m].pane_id == (#[trigger] r[i]).pane_id;
                if k0 < s.len() {
                    assert(t[m].pane_id == s[m].pane_id);
                } else {
                    if t[m] == a {
                        assert(ds[0].0 == d0.0);
                    } else {
                        assert(s.contains(t[m]));
                        let j = choose|j: int| 0 <= j < s.len() && s[j] == t[m];
                    }
                }
            }
        }
    }
}

/// Closed panes lose their agents: after the owner takes a pane manifest,
/// every agent that has a pane runs on a live terminal pane of that
/// manifest (not a plugin, not exited).
pub proof fn law_closed_panes_lose_their_agents(
    agents: Seq<AgentView>,
    tabs: Seq<TabInfo>,
    entries: Seq<(usize, Vec<PaneInfo>)>,
    i: int,
)
    requires
        0 <= i < manifest_agents(agents, tabs, entries).len(),
        manifest_agents(agents, tabs, entries)[i].pane_id is Some,
    ensures
        exists|j: int|
            0 <= j < all_panes(entries).len() && !(#[trigger] all_panes(entries)[j]).is_plugin && !all_panes(entries)[j].exited
                && Some(all_panes(entries)[j].id) == manifest_agents(agents, tabs, entries)[i].pane_id,
{
    let live = live_terminals(entries);
    let pl = paneless_or_live(live);
    let s1 = pruned(agents, entries);
    let all = all_panes(entries);
    let ds = discovered_all(entries, tabs, s1);
    let keep = keeps_discovery(discovered_panes(ds));
    let f = s1.filter(keep);
    let s2 = discovery_fold(f, ds);
    assert(s2 == reconciled(s1, ds));
    lemma_refresh_keeps_places(s2, tabs, entries);
    let q = manifest_agents(agents, tabs, entries)[i].pane_id;
    assert(s2[i].pane_id == q);
    lemma_fold_panes(f, ds);
    lemma_discovered_all(entries, tabs, s1);
    if exists|k: int| 0 <= k < ds.len() && s2[i].pane_id == Some(#[trigger] ds[k].0) {
        let k = choose|k: int| 0 <= k < ds.len() && s2[i].pane_id == Some(#[trigger] ds[k].0);
        assert(names_candidate(all, s1, ds[k]));
        let j = choose|j: int| 0 <= j < all.len() && is_candidate(#[trigger] all[j], s1) && all[j].id == ds[k].0;
        assert(!all[j].is_plugin && !all[j].exited);
    } else {
        let m = choose|m: int| 0 <= m < f.len() && f[m].pane_id == (#[trigger] s2[i]).pane_id;
        lemma_filter_source(s1, keep, m);
        let n = choose|n: int| 0 <= n < s1.len() && s1[n] == f[m];
        lemma_filter_source(agents, pl, n);
        assert(pl(s1[n]));
        assert(live.contains(q->0));
        let j = choose|j: int| 0 <= j < all.len() && !all[j].is_plugin && !all[j].exited && #[trigger] all[j].id == q->0;
    }
}

/// Codex panes are found: after the owner takes a pane manifest, every live
/// terminal pane whose command starts Codex has an agent, when every agent
/// with a discovered id runs on the pane that id names.
pub proof fn law_codex_panes_are_found(
    agents: Seq<AgentView>,
    tabs: Seq<TabInfo>,
    entries: Seq<(usize, Vec<PaneInfo>)>,
    j: int,
)
    requires
        forall|k: int, n: u32|
            #![trigger agents[k], discovered_id(n)]
            0 <= k < agents.len() && agents[k].id == discovered_id(n) && agents[k].pane_id is Some ==> agents[k].pane_id
                == Some(n),
        0 <= j < all_panes(entries).len(),
        !all_panes(entries)[j].is_plugin,
        !all_panes(entries)[j].exited,
        starts_codex(command_views(all_panes(entries)[j].terminal_command)),
    ensures
        exists|m: int|
            0 <= m < manifest_agents(agents, tabs, entries).len() && (#[trigger] manifest_agents(agents, tabs, entries)[m]).pane_id
                == Some(all_panes(entries)[j].id),
{
    let live = live_terminals(entries);
    let pl = paneless_or_live(live);
    let s1 = pruned(agents, entries);
    let all = all_panes(entries);
    let ds = discovered_all(entries, tabs, s1);
    let panes = discovered_panes(ds);
    let keep = keeps_discovery(panes);
    let f = s1.filter(keep);
    assert forall|k: int, n: u32| #![trigger f[k], discovered_id(n)]
        0 <= k < f.len() && f[k].id == discovered_id(n) && panes.contains(n) implies f[k].pane_id == Some(n) by {
        lemma_filter_source(s1, keep, k);
        let i = choose|i: int| 0 <= i < s1.len() && s1[i] == f[k];
        lemma_filter_source(agents, pl, i);
        let m = choose|m: int| 0 <= m < agents.len() && agents[m] == s1[i];
        let prefix = "discovered:pane:"@;
        assert(prefix.is_prefix_of(discovered_id(n))) by {
            assert((prefix + decimal(n as nat)).subrange(0, prefix.len() as int) =~= prefix);
        }
        assert(agents[m].id == discovered_id(n));
    }
    assert forall|k: int| 0 <= k < ds.len() implies panes.contains(#[trigger] ds[k].0) by {}
    lemma_fold(f, ds, panes);
    let s2 = discovery_fold(f, ds);
    assert(s2 == reconciled(s1, ds));
    lemma_discovered_all(entries, tabs, s1);
    assert(is_candidate(all[j], s1));
    assert(pane_discovered(ds, all[j].id));
    let k = choose|k: int| 0 <= k < ds.len() && (#[trigger] ds[k]).0 == all[j].id;
    assert(agent_on_pane(s2, ds[k].0) is Some);
    lemma_first_on_pane(s2, ds[k].0);
    let m = index_on_pane(s2, ds[k].0) as int;
    lemma_refresh_keeps_places(s2, tabs, entries);
    assert(manifest_agents(agents, tabs, entries)[m].pane_id == s2[m].pane_id);
}

} // verus!
