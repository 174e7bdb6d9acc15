//! What holds of the agent table across reports, and of the tab names'
//! badges, whatever the inputs.
use vstd::prelude::*;
use crate::agents::{
    AgentView, acknowledged, ids_increasing, lemma_masked_filter, lemma_masked_members, lookup, not_id, off_pane, put,
    with_status,
};
use crate::text::{lemma_seq_lt_irreflexive, seq_lt};
use crate::dashboard::{
    after_focus, after_view, applied, has_unread, in_view_flags, on_pane_flags, paneless_or_live, refresh_reads,
    refreshed, view_of, view_reads,
};
use crate::dashboard::{PaneId, agent_on_pane, located, position_of_terminal, tab_id_at, activity_effect, agent_tab_label, active_tab, focused_pane, contents_effect, discovered_id};
use crate::model::{PaneInfo, TabInfo};
use crate::status::Status;
use crate::tabbar::{badge_rules, badge_split};

verus! {

/// Filtering twice by the same predicate keeps what filtering once kept.
proof fn lemma_filter_twice(s: Seq<AgentView>, pred: spec_fn(AgentView) -> bool)
    ensures
        s.filter(pred).filter(pred) == s.filter(pred),
    decreases s.len(),
{
    reveal(Seq::filter);
    if s.len() > 0 {
        let d = s.drop_last();
        lemma_filter_twice(d, pred);
        if pred(s.last()) {
            let f = d.filter(pred).push(s.last());
            assert(f.drop_last() =~= d.filter(pred));
            assert(f.filter(pred) =~= f.drop_last().filter(pred).push(s.last()));
        }
    }
}

/// Pruning the agents of closed panes a second time, with the same live
/// panes, changes nothing: a second manifest with the same panes removes no
/// further row.
pub proof fn law_pruning_closed_panes_settles(agents: Seq<AgentView>, live: Set<u32>)
    ensures
        agents.filter(paneless_or_live(live)).filter(paneless_or_live(live)) == agents.filter(
            paneless_or_live(live),
        ),
{
    lemma_filter_twice(agents, paneless_or_live(live));
}

/// Storing a report makes it the one found under its id, and leaves what is
/// found under every other id as it was.
pub proof fn law_report_is_found_under_its_id(s: Seq<AgentView>, a: AgentView, id: Seq<char>)
    ensures
        lookup(put(s, a), id) == if id == a.id {
            Some(a)
        } else {
            lookup(s, id)
        },
    decreases s.len(),
{
    let p = put(s, a);
    if s.len() == 0 {
        assert(p =~= seq![a]);
        assert(p.drop_first() =~= Seq::<AgentView>::empty());
        assert(lookup(p.drop_first(), id) is None);
    } else if s[0].id == a.id {
        assert(p =~= seq![a] + s.drop_first());
        assert(p[0] == a);
        assert(p.drop_first() =~= s.drop_first());
    } else if crate::text::seq_lt(a.id, s[0].id) {
        assert(p =~= seq![a] + s);
        assert(p[0] == a);
        assert(p.drop_first() =~= s);
    } else {
        let rest = put(s.drop_first(), a);
        assert(p =~= seq![s[0]] + rest);
        assert(p[0] == s[0]);
        assert(p.drop_first() =~= rest);
        law_report_is_found_under_its_id(s.drop_first(), a, id);
    }
    assert(lookup(p, id) == if p[0].id == id { Some(p[0]) } else { lookup(p.drop_first(), id) });
}

/// Every report kept after storing `a` is `a` or was kept before.
pub(crate) proof fn lemma_put_members(s: Seq<AgentView>, a: AgentView)
    ensures
        put(s, a).contains(a),
        forall|k: int| 0 <= k < put(s, a).len() ==> #[trigger] put(s, a)[k] == a || s.contains(put(s, a)[k]),
    decreases s.len(),
{
    if s.len() == 0 {
        assert(put(s, a)[0] == a);
    } else if s[0].id == a.id {
        let p = seq![a] + s.drop_first();
        assert(p[0] == a);
        assert forall|k: int| 0 <= k < p.len() implies #[trigger] p[k] == a || s.contains(p[k]) by {
            if k > 0 {
                assert(p[k] == s[k]);
            }
        }
    } else if crate::text::seq_lt(a.id, s[0].id) {
        let p = seq![a] + s;
        assert(p[0] == a);
        assert forall|k: int| 0 <= k < p.len() implies #[trigger] p[k] == a || s.contains(p[k]) by {
            if k > 0 {
                assert(p[k] == s[k - 1]);
            }
        }
    } else {
        let d = s.drop_first();
        lemma_put_members(d, a);
        let rest = put(d, a);
        let p = seq![s[0]] + rest;
        let j = choose|j: int| 0 <= j < rest.len() && rest[j] == a;
        assert(p[j + 1] == a);
        assert forall|k: int| 0 <= k < p.len() implies #[trigger] p[k] == a || s.contains(p[k]) by {
            if k == 0 {
                assert(s[0] == p[0]);
            } else {
                assert(p[k] == rest[k - 1]);
                if rest[k - 1] != a {
                    assert(d.contains(rest[k - 1]));
                    let m = choose|m: int| 0 <= m < d.len() && d[m] == rest[k - 1];
                    assert(s[m + 1] == p[k]);
                }
            }
        }
    }
}

/// The report a status report is stored as: a completed result for the
/// focused pane is stored as already read.
pub open spec fn stored_as(a: AgentView, focused: Option<u32>) -> AgentView {
    if a.status == Status::Done && a.pane_id is Some && a.pane_id == focused {
        with_status(a, Status::Idle)
    } else {
        a
    }
}

/// A status report is found under its id afterwards; and its pane then
/// holds no other agent.
pub proof fn law_report_replaces_its_pane(agents: Seq<AgentView>, focused: Option<u32>, a: AgentView)
    requires
        !a.remove,
    ensures
        lookup(applied(agents, focused, a), a.id) == Some(stored_as(a, focused)),
        applied(agents, focused, a).contains(stored_as(a, focused)),
        a.pane_id is Some ==> forall|k: int|
            0 <= k < applied(agents, focused, a).len() && #[trigger] applied(agents, focused, a)[k].pane_id
                == a.pane_id ==> applied(agents, focused, a)[k] == stored_as(a, focused),
{
    let b = stored_as(a, focused);
    let s = match a.pane_id {
        Some(p) => agents.filter(off_pane(p)),
        None => agents,
    };
    assert(applied(agents, focused, a) == put(s, b));
    law_report_is_found_under_its_id(s, b, a.id);
    lemma_put_members(s, b);
    if a.pane_id is Some {
        let p = a.pane_id->0;
        let r = put(s, b);
        assert forall|k: int| 0 <= k < r.len() && #[trigger] r[k].pane_id == a.pane_id implies r[k] == b by {
            if r[k] != b {
                assert(s.contains(r[k]));
                let m = choose|m: int| 0 <= m < s.len() && s[m] == r[k];
                agents.lemma_filter_pred(off_pane(p), m);
            }
        }
    }
}

/// In a table whose ids increase, the agent under `id` is the one at the
/// index that holds `id`.
proof fn lemma_lookup_at(s: Seq<AgentView>, id: Seq<char>, k: int)
    requires
        ids_increasing(s),
        0 <= k < s.len(),
        s[k].id == id,
    ensures
        lookup(s, id) == Some(s[k]),
    decreases s.len(),
{
    if k > 0 {
        assert(seq_lt(s[0].id, s[k].id));
        lemma_seq_lt_irreflexive(id);
        let d = s.drop_first();
        assert forall|i: int, j: int| 0 <= i < j < d.len() implies seq_lt(#[trigger] d[i].id, #[trigger] d[j].id) by {
            assert(d[i] == s[i + 1] && d[j] == s[j + 1]);
        }
        assert(d[k - 1] == s[k]);
        lemma_lookup_at(d, id, k - 1);
    }
}

/// What is found under `id` sits in the table under that id.
proof fn lemma_lookup_found(s: Seq<AgentView>, id: Seq<char>)
    ensures
        lookup(s, id) matches Some(x) ==> exists|k: int| 0 <= k < s.len() && s[k] == x && s[k].id == id,
        lookup(s, id) is None ==> forall|k: int| 0 <= k < s.len() ==> #[trigger] s[k].id != id,
    decreases s.len(),
{
    if s.len() > 0 {
        let d = s.drop_first();
        lemma_lookup_found(d, id);
        if s[0].id != id {
            if lookup(d, id) is Some {
                let k = choose|k: int| 0 <= k < d.len() && d[k] == lookup(d, id)->0 && d[k].id == id;
                assert(s[k + 1] == d[k]);
            } else {
                assert forall|k: int| 0 <= k < s.len() implies #[trigger] s[k].id != id by {
                    if k > 0 {
                        assert(s[k] == d[k - 1]);
                    }
                }
            }
        }
    }
}

/// A status report leaves every other agent found as it was, unless that
/// agent runs on the report's pane (which the report takes over).
pub proof fn law_other_agents_stay(agents: Seq<AgentView>, focused: Option<u32>, a: AgentView, id: Seq<char>)
    requires
        ids_increasing(agents),
        !a.remove,
        id != a.id,
        !(a.pane_id is Some && lookup(agents, id) is Some && lookup(agents, id)->0.pane_id == a.pane_id),
    ensures
        lookup(applied(agents, focused, a), id) == lookup(agents, id),
{
    let s = match a.pane_id {
        Some(p) => agents.filter(off_pane(p)),
        None => agents,
    };
    if a.pane_id is Some {
        let p = a.pane_id->0;
        let pred = off_pane(p);
        let keep = Seq::new(agents.len(), |i: int| pred(agents[i]));
        lemma_masked_filter(agents, keep, pred);
        lemma_masked_members(agents, keep);
        lemma_lookup_found(agents, id);
        if lookup(agents, id) is Some {
            let k = choose|k: int| 0 <= k < agents.len() && agents[k] == lookup(agents, id)->0 && agents[k].id == id;
            agents.lemma_filter_contains(pred, k);
            let j = choose|j: int| 0 <= j < s.len() && s[j] == agents[k];
            lemma_lookup_at(s, id, j);
        } else {
            lemma_lookup_found(s, id);
            if lookup(s, id) is Some {
                let j = choose|j: int| 0 <= j < s.len() && s[j] == lookup(s, id)->0 && s[j].id == id;
                crate::settle::lemma_filter_source(agents, pred, j);
            }
        }
    }
    law_report_is_found_under_its_id(s, stored_as(a, focused), id);
}

/// A removal report leaves no agent under its id, nor any on its pane.
pub proof fn law_removal_forgets_the_agent(agents: Seq<AgentView>, focused: Option<u32>, a: AgentView)
    requires
        a.remove,
    ensures
        forall|k: int|
            0 <= k < applied(agents, focused, a).len() ==> #[trigger] applied(agents, focused, a)[k].id != a.id
                && (a.pane_id is Some ==> applied(agents, focused, a)[k].pane_id != a.pane_id),
{
    let s = agents.filter(not_id(a.id));
    let r = applied(agents, focused, a);
    assert forall|k: int| 0 <= k < r.len() implies #[trigger] r[k].id != a.id && (a.pane_id is Some
        ==> r[k].pane_id != a.pane_id) by {
        match a.pane_id {
            Some(p) => {
                s.lemma_filter_pred(off_pane(p), k);
                crate::settle::lemma_filter_source(s, off_pane(p), k);
                let m = choose|m: int| 0 <= m < s.len() && s[m] == r[k];
                agents.lemma_filter_pred(not_id(a.id), m);
            },
            None => {
                agents.lemma_filter_pred(not_id(a.id), k);
            },
        }
    }
}

/// Observing panes only marks completed results as read: every other report
/// keeps its status, and a completed one becomes idle or stays done.
pub proof fn law_reading_only_clears_done(s: Seq<AgentView>, flags: Seq<bool>, i: int)
    requires
        flags.len() == s.len(),
        0 <= i < s.len(),
    ensures
        acknowledged(s, flags).len() == s.len(),
        s[i].status != Status::Done ==> acknowledged(s, flags)[i] == s[i],
        s[i].status == Status::Done ==> acknowledged(s, flags)[i] == s[i] || acknowledged(s, flags)[i]
            == with_status(s[i], Status::Idle),
        !flags[i] ==> acknowledged(s, flags)[i] == s[i],
{
}

/// A tab name that starts with a badge's emoji prefix renders that badge's
/// marker, in its colour for selected or unselected tabs, before the rest of
/// the name.
pub proof fn law_badge_prefix_is_replaced(i: int, rest: Seq<char>, selected: bool)
    requires
        0 <= i < badge_rules().len(),
    ensures
        badge_split(badge_rules()[i].0 + rest, selected) == (
            Some((badge_rules()[i].1, if selected { badge_rules()[i].3 } else { badge_rules()[i].2 })),
            rest,
        ),
{
    reveal_strlit("[🟠 ↻] ");
    reveal_strlit("[🔴 ↻] ");
    reveal_strlit("[🔴 !] ");
    reveal_strlit("[🔵 ✓] ");
    reveal_strlit("[🟡 !] ");
    reveal_strlit("[🔴 ✕] ");
    reveal_strlit("[🟡 Ⅱ] ");
    let rules = badge_rules();
    let name = rules[i].0 + rest;
    assert(rules[i].0.is_prefix_of(name)) by {
        assert(name.subrange(0, rules[i].0.len() as int) =~= rules[i].0);
    }
    assert forall|k: int| 0 <= k < i implies !(#[trigger] rules[k].0).is_prefix_of(name) by {
        if rules[k].0.is_prefix_of(name) {
            let n = rules[k].0.len() as int;
            assert(rules[k].0[1] == name.subrange(0, n)[1]);
            assert(rules[k].0[3] == name.subrange(0, n)[3]);
            assert(name[1] == rules[i].0[1]);
            assert(name[3] == rules[i].0[3]);
        }
    }
    lemma_badge_from(name, rules, i, selected);
    assert(name.skip(rules[i].0.len() as int) =~= rest);
}

/// Walking the rules from the first, none before rule `i` matches a name
/// that starts with rule `i`'s prefix.
proof fn lemma_badge_from(
    name: Seq<char>,
    rules: Seq<(Seq<char>, Seq<char>, (u8, u8, u8), (u8, u8, u8))>,
    i: int,
    selected: bool,
)
    requires
        0 <= i < rules.len(),
        rules[i].0.is_prefix_of(name),
        forall|k: int| 0 <= k < i ==> !(#[trigger] rules[k].0).is_prefix_of(name),
    ensures
        crate::tabbar::badge_from(name, rules, selected) == (
            Some((rules[i].1, if selected { rules[i].3 } else { rules[i].2 })),
            name.skip(rules[i].0.len() as int),
        ),
    decreases i,
{
    if i > 0 {
        assert(!rules[0].0.is_prefix_of(name));
        let d = rules.drop_first();
        assert forall|k: int| 0 <= k < i - 1 implies !(#[trigger] d[k].0).is_prefix_of(name) by {
            assert(d[k] == rules[k + 1]);
        }
        lemma_badge_from(name, d, i - 1, selected);
    }
}


/// Marking results as read changes statuses only, so whatever flags are
/// computed from panes and tabs come out the same.
proof fn lemma_reading_keeps_places(s: Seq<AgentView>, flags: Seq<bool>)
    requires
        flags.len() == s.len(),
    ensures
        forall|p: u32| #[trigger] on_pane_flags(acknowledged(s, flags), p) == on_pane_flags(s, p),
        forall|t: Option<usize>, position: usize, visible: Set<u32>|
            #[trigger] in_view_flags(acknowledged(s, flags), t, position, visible) == in_view_flags(
                s,
                t,
                position,
                visible,
            ),
{
    let a = acknowledged(s, flags);
    assert forall|p: u32| #[trigger] on_pane_flags(a, p) == on_pane_flags(s, p) by {
        assert(on_pane_flags(a, p) =~= on_pane_flags(s, p));
    }
    assert forall|t: Option<usize>, position: usize, visible: Set<u32>|
        #[trigger] in_view_flags(a, t, position, visible) == in_view_flags(s, t, position, visible) by {
        assert(in_view_flags(a, t, position, visible) =~= in_view_flags(s, t, position, visible));
    }
}

/// Reading with flags that hold no unread result changes nothing.
proof fn lemma_nothing_to_read(s: Seq<AgentView>, flags: Seq<bool>)
    requires
        flags.len() == s.len(),
        !has_unread(s, flags),
    ensures
        acknowledged(s, flags) == s,
{
    assert(acknowledged(s, flags) =~= s);
}

/// After reading with some flags, no flagged result is unread; and reading
/// never makes a result unread.
proof fn lemma_read_results_stay_read(s: Seq<AgentView>, flags: Seq<bool>, other: Seq<bool>)
    requires
        flags.len() == s.len(),
        other.len() == s.len(),
    ensures
        !has_unread(acknowledged(s, flags), flags),
        has_unread(acknowledged(s, flags), other) ==> has_unread(s, other),
{
    let a = acknowledged(s, flags);
    if has_unread(a, other) {
        let i = choose|i: int| 0 <= i < other.len() && other[i] && #[trigger] a[i].status == Status::Done;
        assert(s[i].status == Status::Done);
    }
}

/// Reading the same view twice reads nothing new: a second read finds no
/// unread result in view and changes no agent.
pub proof fn law_reading_the_view_settles(
    s: Seq<AgentView>,
    tabs: Seq<crate::model::TabInfo>,
    entries: Seq<(usize, Vec<crate::model::PaneInfo>)>,
)
    ensures
        refreshed(refreshed(s, tabs, entries), tabs, entries) == refreshed(s, tabs, entries),
        !refresh_reads(refreshed(s, tabs, entries), tabs, entries),
{
    match view_of(tabs, entries) {
        Some((position, pane, surface)) => {
            let t = crate::dashboard::tab_id_at(tabs, position);
            let visible = crate::dashboard::visible_terminals(crate::model::panes_at(entries, position));
            lemma_view_settles(s, pane, surface, t, position, visible);
        },
        None => {},
    }
}

proof fn lemma_focus_settles(s: Seq<AgentView>, pane: PaneId)
    ensures
        after_focus(after_focus(s, pane), pane) == after_focus(s, pane),
        !crate::dashboard::focus_reads(after_focus(s, pane), pane),
        forall|t: Option<usize>, position: usize, visible: Set<u32>|
            #[trigger] in_view_flags(after_focus(s, pane), t, position, visible) == in_view_flags(
                s,
                t,
                position,
                visible,
            ),
        forall|p: u32| #[trigger] on_pane_flags(after_focus(s, pane), p) == on_pane_flags(s, p),
{
    match pane {
        PaneId::Terminal(p) => {
            let flags = on_pane_flags(s, p);
            let f = acknowledged(s, flags);
            lemma_reading_keeps_places(s, flags);
            lemma_read_results_stay_read(s, flags, flags);
            assert(on_pane_flags(f, p) == flags);
            lemma_nothing_to_read(f, flags);
        },
        PaneId::Plugin(_) => {},
    }
}

proof fn lemma_view_settles(
    s: Seq<AgentView>,
    pane: PaneId,
    surface: bool,
    t: Option<usize>,
    position: usize,
    visible: Set<u32>,
)
    ensures
        after_view(after_view(s, pane, surface, t, position, visible), pane, surface, t, position, visible)
            == after_view(s, pane, surface, t, position, visible),
        !view_reads(after_view(s, pane, surface, t, position, visible), pane, surface, t, position, visible),
{
    let f = after_focus(s, pane);
    lemma_focus_settles(s, pane);
    if surface {
        let vf = in_view_flags(f, t, position, visible);
        let a = acknowledged(f, vf);
        lemma_reading_keeps_places(f, vf);
        lemma_read_results_stay_read(f, vf, vf);
        match pane {
            PaneId::Terminal(p) => {
                let pf = on_pane_flags(f, p);
                assert(!has_unread(f, pf));
                lemma_read_results_stay_read(f, vf, pf);
                assert(on_pane_flags(a, p) == pf);
                lemma_nothing_to_read(a, pf);
                assert(after_focus(a, pane) == a);
            },
            PaneId::Plugin(_) => {},
        }
        assert(in_view_flags(a, t, position, visible) == vf);
        lemma_nothing_to_read(a, vf);
    }
}

/// Publishing again, with nothing changed since the last publication, reaches
/// no one and makes no checkpoint due.
pub proof fn law_second_publish_reaches_no_one(app: crate::dashboard::App)
    requires
        crate::sync::in_sync(app),
    ensures
        crate::sync::publish_recipients(app) == Set::<u32>::empty(),
        crate::sync::published_as(app.last_published, app.agents@, crate::dashboard::opt_view(app.error)),
{
    assert(crate::sync::publish_recipients(app) =~= Set::<u32>::empty());
}

/// The first agent on `pane`, when there is one, is an agent on `pane`.
proof fn lemma_agent_on_pane_is_on_it(s: Seq<AgentView>, pane: u32)
    ensures
        agent_on_pane(s, pane) matches Some(a) ==> exists|k: int| 0 <= k < s.len() && s[k] == a && a.pane_id == Some(pane),
    decreases s.len(),
{
    if s.len() > 0 && s[0].pane_id != Some(pane) {
        lemma_agent_on_pane_is_on_it(s.drop_first(), pane);
        if agent_on_pane(s, pane) is Some {
            let a = agent_on_pane(s, pane)->0;
            let k = choose|k: int| 0 <= k < s.drop_first().len() && s.drop_first()[k] == a && a.pane_id == Some(pane);
            assert(s[k + 1] == a);
        }
    } else if s.len() > 0 {
        assert(s[0] == s[0]);
    }
}

/// The first manifest entry that holds terminal pane `pane` gives its position.
proof fn lemma_position_of_terminal(entries: Seq<(usize, Vec<PaneInfo>)>, pane: u32, e: int, j: int)
    requires
        0 <= e < entries.len(),
        0 <= j < entries[e].1@.len(),
        !entries[e].1@[j].is_plugin,
        entries[e].1@[j].id == pane,
        forall|f: int, m: int|
            0 <= f < e && 0 <= m < entries[f].1@.len() ==> #[trigger] entries[f].1@[m].is_plugin || entries[f].1@[m].id != pane,
    ensures
        position_of_terminal(entries, pane) == Some(entries[e].0),
    decreases e,
{
    if e == 0 {
        assert(crate::dashboard::has_terminal(entries[0].1@, pane));
    } else {
        assert(!crate::dashboard::has_terminal(entries[0].1@, pane)) by {
            if crate::dashboard::has_terminal(entries[0].1@, pane) {
                let m = choose|m: int| 0 <= m < entries[0].1@.len() && !entries[0].1@[m].is_plugin && #[trigger] entries[0].1@[m].id == pane;
                assert(entries[0].1@[m].is_plugin || entries[0].1@[m].id != pane);
            }
        }
        let d = entries.drop_first();
        assert forall|f: int, m: int| 0 <= f < e - 1 && 0 <= m < d[f].1@.len() implies #[trigger] d[f].1@[m].is_plugin || d[f].1@[m].id != pane by {
            assert(d[f] == entries[f + 1]);
            assert(entries[f + 1].1@[m].is_plugin || entries[f + 1].1@[m].id != pane);
        }
        assert(d[e - 1] == entries[e]);
        lemma_position_of_terminal(d, pane, e - 1, j);
    }
}

/// The first tab at `position` gives its id.
proof fn lemma_tab_id_at(tabs: Seq<TabInfo>, position: usize, t: int)
    requires
        0 <= t < tabs.len(),
        tabs[t].position == position,
        forall|u: int| 0 <= u < t ==> #[trigger] tabs[u].position != position,
    ensures
        tab_id_at(tabs, position) == Some(tabs[t].tab_id),
    decreases t,
{
    if t > 0 {
        let d = tabs.drop_first();
        assert(tabs[0].position != position);
        assert forall|u: int| 0 <= u < t - 1 implies #[trigger] d[u].position != position by {
            assert(d[u] == tabs[u + 1]);
        }
        assert(d[t - 1] == tabs[t]);
        lemma_tab_id_at(d, position, t - 1);
    }
}

/// A report on a terminal pane that carries no location of its own, where
/// no agent on that pane records one, takes the tab whose manifest entry
/// holds the pane: that entry's position, and the id of the tab at that
/// position. It is stored so, under its id.
pub proof fn law_report_takes_the_tab_holding_its_pane(
    agents: Seq<AgentView>,
    focused: Option<u32>,
    entries: Seq<(usize, Vec<PaneInfo>)>,
    tabs: Seq<TabInfo>,
    a: AgentView,
    e: int,
    j: int,
    t: int,
)
    requires
        !a.remove,
        a.pane_id is Some,
        a.tab_id is None,
        a.tab_position is None,
        forall|k: int|
            0 <= k < agents.len() && #[trigger] agents[k].pane_id == a.pane_id ==> agents[k].tab_id is None
                && agents[k].tab_position is None,
        0 <= e < entries.len(),
        0 <= j < entries[e].1@.len(),
        !entries[e].1@[j].is_plugin,
        a.pane_id == Some(entries[e].1@[j].id),
        forall|f: int, m: int|
            0 <= f < e && 0 <= m < entries[f].1@.len() ==> #[trigger] entries[f].1@[m].is_plugin || Some(
                entries[f].1@[m].id,
            ) != a.pane_id,
        0 <= t < tabs.len(),
        tabs[t].position == entries[e].0,
        forall|u: int| 0 <= u < t ==> #[trigger] tabs[u].position != entries[e].0,
    ensures
        located(agents, entries, tabs, a).tab_position == Some(entries[e].0),
        located(agents, entries, tabs, a).tab_id == Some(tabs[t].tab_id),
        lookup(applied(agents, focused, located(agents, entries, tabs, a)), a.id) matches Some(r) && r.tab_position
            == Some(entries[e].0) && r.tab_id == Some(tabs[t].tab_id),
{
    let q = a.pane_id->0;
    lemma_agent_on_pane_is_on_it(agents, q);
    if agent_on_pane(agents, q) is Some {
        let k = choose|k: int| 0 <= k < agents.len() && agents[k] == agent_on_pane(agents, q)->0 && agents[k].pane_id == Some(q);
        assert(agents[k].pane_id == a.pane_id);
    }
    assert forall|f: int, m: int| 0 <= f < e && 0 <= m < entries[f].1@.len() implies #[trigger] entries[f].1@[m].is_plugin || entries[f].1@[m].id != q by {
        assert(entries[f].1@[m].is_plugin || Some(entries[f].1@[m].id) != a.pane_id);
    }
    lemma_position_of_terminal(entries, q, e, j);
    lemma_tab_id_at(tabs, entries[e].0, t);
    let b = located(agents, entries, tabs, a);
    law_report_replaces_its_pane(agents, focused, b);
}

/// Viewing a tab never reads the results of an agent that its report places
/// in another tab (both tabs known by their stable ids), unless the agent's
/// pane is among the visible ones: its status stays as it was.
pub proof fn law_viewing_a_tab_leaves_other_tabs_unread(
    s: Seq<AgentView>,
    tab_id: Option<usize>,
    position: usize,
    visible: Set<u32>,
    i: int,
)
    requires
        0 <= i < s.len(),
        s[i].tab_id is Some,
        tab_id is Some,
        s[i].tab_id != tab_id,
        !(s[i].pane_id is Some && visible.contains(s[i].pane_id->0)),
    ensures
        acknowledged(s, in_view_flags(s, tab_id, position, visible))[i] == s[i],
{
    let flags = in_view_flags(s, tab_id, position, visible);
    assert(!flags[i]);
}

/// Viewing a tab where every agent's report places it in another tab (both
/// known by their stable ids) and none of their panes is visible reads
/// nothing, and finds nothing unread.
pub proof fn law_viewing_a_tab_of_no_agent_reads_nothing(
    s: Seq<AgentView>,
    tab_id: Option<usize>,
    position: usize,
    visible: Set<u32>,
)
    requires
        tab_id is Some,
        forall|k: int|
            0 <= k < s.len() ==> (#[trigger] s[k]).tab_id is Some && s[k].tab_id != tab_id && !(s[k].pane_id is Some
                && visible.contains(s[k].pane_id->0)),
    ensures
        acknowledged(s, in_view_flags(s, tab_id, position, visible)) == s,
        !has_unread(s, in_view_flags(s, tab_id, position, visible)),
{
    let flags = in_view_flags(s, tab_id, position, visible);
    assert forall|k: int| 0 <= k < s.len() implies !#[trigger] flags[k] by {
        assert(s[k].tab_id is Some);
    }
    assert(acknowledged(s, flags) =~= s);
}

/// The first agent on a pane, counted from the start of the table.
proof fn lemma_first_agent_on_pane(s: Seq<AgentView>, pane: u32, k: int)
    requires
        0 <= k < s.len(),
        s[k].pane_id == Some(pane),
        forall|m: int| 0 <= m < k ==> #[trigger] s[m].pane_id != Some(pane),
    ensures
        agent_on_pane(s, pane) == Some(s[k]),
    decreases k,
{
    if k > 0 {
        let d = s.drop_first();
        assert(s[0].pane_id != Some(pane));
        assert forall|m: int| 0 <= m < k - 1 implies #[trigger] d[m].pane_id != Some(pane) by {
            assert(d[m] == s[m + 1]);
        }
        assert(d[k - 1] == s[k]);
        lemma_first_agent_on_pane(d, pane, k - 1);
    }
}

/// A report on a pane that carries no location of its own takes the
/// location recorded by the first agent on that pane, when it records one.
pub proof fn law_report_takes_the_location_known_for_its_pane(
    agents: Seq<AgentView>,
    focused: Option<u32>,
    entries: Seq<(usize, Vec<PaneInfo>)>,
    tabs: Seq<TabInfo>,
    a: AgentView,
    k: int,
)
    requires
        !a.remove,
        a.pane_id is Some,
        a.tab_id is None,
        a.tab_position is None,
        0 <= k < agents.len(),
        agents[k].pane_id == a.pane_id,
        forall|m: int| 0 <= m < k ==> #[trigger] agents[m].pane_id != a.pane_id,
        agents[k].tab_id is Some || agents[k].tab_position is Some,
    ensures
        located(agents, entries, tabs, a).tab_id == agents[k].tab_id,
        located(agents, entries, tabs, a).tab_position == agents[k].tab_position,
        lookup(applied(agents, focused, located(agents, entries, tabs, a)), a.id) matches Some(r) && r.tab_id
            == agents[k].tab_id && r.tab_position == agents[k].tab_position,
{
    lemma_first_agent_on_pane(agents, a.pane_id->0, k);
    law_report_replaces_its_pane(agents, focused, located(agents, entries, tabs, a));
}

/// A report that carries its own location keeps it, whatever is known of
/// its pane.
pub proof fn law_report_keeps_its_own_location(
    agents: Seq<AgentView>,
    entries: Seq<(usize, Vec<PaneInfo>)>,
    tabs: Seq<TabInfo>,
    a: AgentView,
)
    ensures
        a.tab_id is Some ==> located(agents, entries, tabs, a).tab_id == a.tab_id,
        a.tab_position is Some ==> located(agents, entries, tabs, a).tab_position == a.tab_position,
        located(agents, entries, tabs, a).id == a.id,
        located(agents, entries, tabs, a).status == a.status,
        located(agents, entries, tabs, a).pane_id == a.pane_id,
{
}

/// Viewing a tab reads every completed result of the agents that its report
/// places in that very tab (by stable id), of those whose tab is known only
/// by position when that is the viewed position, and of those whose pane is
/// visible.
pub proof fn law_viewing_a_tab_reads_its_results(
    s: Seq<AgentView>,
    tab_id: Option<usize>,
    position: usize,
    visible: Set<u32>,
    i: int,
)
    requires
        0 <= i < s.len(),
        s[i].status == Status::Done,
        (s[i].tab_id is Some && s[i].tab_id == tab_id) || (s[i].tab_id is None && s[i].tab_position == Some(position))
            || (tab_id is None && s[i].tab_position == Some(position)) || (s[i].pane_id is Some && visible.contains(
            s[i].pane_id->0,
        )),
    ensures
        acknowledged(s, in_view_flags(s, tab_id, position, visible))[i].status == Status::Idle,
        has_unread(s, in_view_flags(s, tab_id, position, visible)),
{
    let flags = in_view_flags(s, tab_id, position, visible);
    assert(flags[i]);
    assert(s[i].status == Status::Done);
}

/// Focusing a terminal pane reads the completed results of the agents on
/// it, and only theirs; focusing a plugin pane reads nothing.
pub proof fn law_focusing_a_pane_reads_its_results_only(s: Seq<AgentView>, pane: PaneId, i: int)
    requires
        0 <= i < s.len(),
    ensures
        after_focus(s, pane).len() == s.len(),
        (pane matches PaneId::Terminal(q) && s[i].pane_id == Some(q) && s[i].status == Status::Done) ==> after_focus(
            s,
            pane,
        )[i] == (AgentView { status: Status::Idle, ..s[i] }),
        !(pane matches PaneId::Terminal(q) && s[i].pane_id == Some(q) && s[i].status == Status::Done) ==> after_focus(
            s,
            pane,
        )[i] == s[i],
{
}

/// A screen that shows Codex at work marks every agent on its pane running
/// and remembers the pane; agents on other panes keep their status.
pub proof fn law_working_screen_marks_its_pane_running(s: Seq<AgentView>, recovered: Set<u32>, pane: u32, i: int)
    requires
        0 <= i < s.len(),
    ensures
        activity_effect(s, recovered, pane, Some(true)).0.len() == s.len(),
        activity_effect(s, recovered, pane, Some(true)).1 == recovered.insert(pane),
        s[i].pane_id == Some(pane) ==> activity_effect(s, recovered, pane, Some(true)).0[i] == (AgentView {
            status: Status::Running,
            ..s[i]
        }),
        s[i].pane_id != Some(pane) ==> activity_effect(s, recovered, pane, Some(true)).0[i] == s[i],
{
}

/// The prompt coming back on a screen marks the agents on its pane done
/// only where work was read from that pane's screen before, and then
/// forgets that reading; elsewhere, and on an unrecognised screen, nothing
/// changes.
pub proof fn law_prompt_ends_only_work_read_from_the_screen(
    s: Seq<AgentView>,
    recovered: Set<u32>,
    pane: u32,
    i: int,
)
    requires
        0 <= i < s.len(),
    ensures
        !recovered.contains(pane) ==> activity_effect(s, recovered, pane, Some(false)) == (s, recovered),
        recovered.contains(pane) ==> activity_effect(s, recovered, pane, Some(false)).1 == recovered.remove(pane),
        recovered.contains(pane) && s[i].pane_id == Some(pane) ==> activity_effect(s, recovered, pane, Some(false)).0[i]
            == (AgentView { status: Status::Done, ..s[i] }),
        s[i].pane_id != Some(pane) ==> activity_effect(s, recovered, pane, Some(false)).0[i] == s[i],
        activity_effect(s, recovered, pane, None) == (s, recovered),
{
}

/// The tab name shown for an agent whose report names a stable tab id is
/// the name of the first tab with that id, when that name is not blank; a
/// dash when no tab has that id.
pub proof fn law_agent_shows_the_name_of_its_tab(tabs: Seq<TabInfo>, a: AgentView, t: int)
    requires
        a.tab_id is Some,
        0 <= t < tabs.len(),
        Some(tabs[t].tab_id) == a.tab_id,
        forall|u: int| 0 <= u < t ==> Some(#[trigger] tabs[u].tab_id) != a.tab_id,
        crate::text::trim(tabs[t].name@).len() > 0,
    ensures
        agent_tab_label(tabs, a) == tabs[t].name@,
    decreases t,
{
    if t > 0 {
        let d = tabs.drop_first();
        assert forall|u: int| 0 <= u < t - 1 implies Some(#[trigger] d[u].tab_id) != a.tab_id by {
            assert(d[u] == tabs[u + 1]);
        }
        assert(d[t - 1] == tabs[t]);
        law_agent_shows_the_name_of_its_tab(d, a, t - 1);
        assert(tabs[0].tab_id != a.tab_id->0);
    }
}

/// An agent whose stable tab id no tab has shows a dash for its tab.
pub proof fn law_agent_of_a_gone_tab_shows_a_dash(tabs: Seq<TabInfo>, a: AgentView)
    requires
        a.tab_id is Some,
        forall|u: int| 0 <= u < tabs.len() ==> Some(#[trigger] tabs[u].tab_id) != a.tab_id,
    ensures
        agent_tab_label(tabs, a) == "—"@,
    decreases tabs.len(),
{
    if tabs.len() > 0 {
        let d = tabs.drop_first();
        assert forall|u: int| 0 <= u < d.len() implies Some(#[trigger] d[u].tab_id) != a.tab_id by {
            assert(d[u] == tabs[u + 1]);
        }
        assert(tabs[0].tab_id != a.tab_id->0);
        law_agent_of_a_gone_tab_shows_a_dash(d, a);
    }
}

/// The first active tab is an active tab of the list.
proof fn lemma_active_tab_is_active(tabs: Seq<TabInfo>)
    ensures
        active_tab(tabs) matches Some(t) ==> exists|k: int| 0 <= k < tabs.len() && tabs[k] == t && t.active,
    decreases tabs.len(),
{
    if tabs.len() > 0 && !tabs[0].active {
        lemma_active_tab_is_active(tabs.drop_first());
        if active_tab(tabs) is Some {
            let t = active_tab(tabs)->0;
            let k = choose|k: int| 0 <= k < tabs.drop_first().len() && tabs.drop_first()[k] == t && t.active;
            assert(tabs[k + 1] == t);
        }
    } else if tabs.len() > 0 {
        assert(tabs[0] == tabs[0]);
    }
}

/// The focused pane found is a focused pane of the list.
proof fn lemma_focused_pane_is_focused(panes: Seq<PaneInfo>, floating: bool)
    ensures
        focused_pane(panes, floating) matches Some(p) ==> exists|k: int| 0 <= k < panes.len() && panes[k] == p && p.is_focused,
    decreases panes.len(),
{
    if panes.len() > 0 && !(panes[0].is_focused && !panes[0].is_suppressed && panes[0].is_floating == floating) {
        lemma_focused_pane_is_focused(panes.drop_first(), floating);
        if focused_pane(panes, floating) is Some {
            let p = focused_pane(panes, floating)->0;
            let k = choose|k: int| 0 <= k < panes.drop_first().len() && panes.drop_first()[k] == p && p.is_focused;
            assert(panes[k + 1] == p);
        }
    } else if panes.len() > 0 {
        assert(panes[0] == panes[0]);
    }
}

/// The panes of a position are the panes of one manifest entry, or none.
proof fn lemma_panes_at_entry(entries: Seq<(usize, Vec<PaneInfo>)>, position: usize)
    ensures
        crate::model::panes_at(entries, position).len() == 0 || exists|e: int|
            0 <= e < entries.len() && crate::model::panes_at(entries, position) == entries[e].1@,
    decreases entries.len(),
{
    if entries.len() > 0 && entries[0].0 != position {
        lemma_panes_at_entry(entries.drop_first(), position);
        if crate::model::panes_at(entries, position).len() > 0 {
            let e = choose|e: int| 0 <= e < entries.drop_first().len() && crate::model::panes_at(entries, position) == entries.drop_first()[e].1@;
            assert(entries[e + 1] == entries.drop_first()[e]);
        }
    }
}

/// While the active tab shows its floating layer (a full-screen overlay over
/// the Codex panes), reading the current view reads nothing of an agent
/// whose pane is not focused: its result stays unread until the overlay
/// closes.
pub proof fn law_overlay_keeps_results_unread(
    s: Seq<AgentView>,
    tabs: Seq<TabInfo>,
    entries: Seq<(usize, Vec<PaneInfo>)>,
    i: int,
)
    requires
        0 <= i < s.len(),
        forall|k: int| 0 <= k < tabs.len() && (#[trigger] tabs[k]).active ==> tabs[k].are_floating_panes_visible,
        forall|e: int, j: int|
            0 <= e < entries.len() && 0 <= j < entries[e].1@.len() && (#[trigger] entries[e].1@[j]).is_focused
                ==> Some(entries[e].1@[j].id) != s[i].pane_id,
    ensures
        refreshed(s, tabs, entries).len() == s.len(),
        refreshed(s, tabs, entries)[i] == s[i],
{
    lemma_active_tab_is_active(tabs);
    match active_tab(tabs) {
        Some(t) => {
            let k = choose|k: int| 0 <= k < tabs.len() && tabs[k] == t && t.active;
            assert(tabs[k].active);
            let panes = crate::model::panes_at(entries, t.position);
            lemma_focused_pane_is_focused(panes, t.are_floating_panes_visible);
            lemma_panes_at_entry(entries, t.position);
            match focused_pane(panes, t.are_floating_panes_visible) {
                Some(p) => {
                    let m = choose|m: int| 0 <= m < panes.len() && panes[m] == p && p.is_focused;
                    let e = choose|e: int| 0 <= e < entries.len() && panes == entries[e].1@;
                    assert(entries[e].1@[m] == p);
                    assert(Some(p.id) != s[i].pane_id);
                },
                None => {},
            }
        },
        None => {},
    }
}

/// The first active tab, found by its index.
proof fn lemma_first_active_tab(tabs: Seq<TabInfo>, t: int)
    requires
        0 <= t < tabs.len(),
        tabs[t].active,
        forall|u: int| 0 <= u < t ==> !(#[trigger] tabs[u]).active,
    ensures
        active_tab(tabs) == Some(tabs[t]),
    decreases t,
{
    if t > 0 {
        let d = tabs.drop_first();
        assert(!tabs[0].active);
        assert forall|u: int| 0 <= u < t - 1 implies !(#[trigger] d[u]).active by {
            assert(d[u] == tabs[u + 1]);
        }
        assert(d[t - 1] == tabs[t]);
        lemma_first_active_tab(d, t - 1);
    }
}

/// A list with a focused, shown pane on the layer in view has a focused pane.
proof fn lemma_some_focused_pane(panes: Seq<PaneInfo>, floating: bool, m: int)
    requires
        0 <= m < panes.len(),
        panes[m].is_focused,
        !panes[m].is_suppressed,
        panes[m].is_floating == floating,
    ensures
        focused_pane(panes, floating) is Some,
    decreases m,
{
    if m > 0 && !(panes[0].is_focused && !panes[0].is_suppressed && panes[0].is_floating == floating) {
        assert(panes.drop_first()[m - 1] == panes[m]);
        lemma_some_focused_pane(panes.drop_first(), floating, m - 1);
    }
}

/// With the Codex panes of the active tab in view (its floating layer
/// hidden, a tiled pane focused), reading the current view reads the
/// completed results of every agent that its report places in that tab by
/// stable id.
pub proof fn law_viewing_the_codex_panes_reads_the_tab(
    s: Seq<AgentView>,
    tabs: Seq<TabInfo>,
    entries: Seq<(usize, Vec<PaneInfo>)>,
    t: int,
    m: int,
    i: int,
)
    requires
        0 <= t < tabs.len(),
        tabs[t].active,
        forall|u: int| 0 <= u < t ==> !(#[trigger] tabs[u]).active,
        forall|u: int| 0 <= u < t ==> (#[trigger] tabs[u]).position != tabs[t].position,
        !tabs[t].are_floating_panes_visible,
        0 <= m < crate::model::panes_at(entries, tabs[t].position).len(),
        crate::model::panes_at(entries, tabs[t].position)[m].is_focused,
        !crate::model::panes_at(entries, tabs[t].position)[m].is_suppressed,
        !crate::model::panes_at(entries, tabs[t].position)[m].is_floating,
        0 <= i < s.len(),
        s[i].tab_id == Some(tabs[t].tab_id),
        s[i].status == Status::Done,
    ensures
        refreshed(s, tabs, entries)[i].status == Status::Idle,
{
    lemma_first_active_tab(tabs, t);
    let panes = crate::model::panes_at(entries, tabs[t].position);
    lemma_some_focused_pane(panes, false, m);
    lemma_tab_id_at(tabs, tabs[t].position, t);
}

/// A screen that shows Codex at work on a pane that no agent runs on yet
/// gives that pane a discovered agent, running, under the pane's
/// discovered id.
pub proof fn law_working_screen_discovers_an_agent(
    s: Seq<AgentView>,
    recovered: Set<u32>,
    focused: Option<u32>,
    entries: Seq<(usize, Vec<PaneInfo>)>,
    tabs: Seq<TabInfo>,
    pane: u32,
)
    requires
        forall|k: int| 0 <= k < s.len() ==> (#[trigger] s[k]).pane_id != Some(pane),
    ensures
        exists|k: int|
            0 <= k < contents_effect(s, recovered, focused, entries, tabs, pane, Some(true)).0.len() && {
                let a = #[trigger] contents_effect(s, recovered, focused, entries, tabs, pane, Some(true)).0[k];
                &&& a.pane_id == Some(pane)
                &&& a.status == Status::Running
                &&& a.id == discovered_id(pane)
            },
{
    lemma_agent_on_pane_is_on_it(s, pane);
    assert(agent_on_pane(s, pane) is None) by {
        if agent_on_pane(s, pane) is Some {
            let k = choose|k: int| 0 <= k < s.len() && s[k] == agent_on_pane(s, pane)->0 && agent_on_pane(s, pane)->0.pane_id == Some(pane);
            assert(s[k].pane_id != Some(pane));
        }
    }
    let (tab_id, position) = crate::dashboard::known_location(s, entries, tabs, pane);
    let b = located(s, entries, tabs, crate::dashboard::fresh_agent(pane, crate::dashboard::worktree_at(tabs, position), tab_id, position));
    law_report_replaces_its_pane(s, focused, b);
    let first = applied(s, focused, b);
    let st = stored_as(b, focused);
    assert(first.contains(st));
    let k = choose|k: int| 0 <= k < first.len() && first[k] == st;
    let r = contents_effect(s, recovered, focused, entries, tabs, pane, Some(true)).0;
    assert(r[k].pane_id == Some(pane) && r[k].status == Status::Running && r[k].id == discovered_id(pane));
}

} // verus!
