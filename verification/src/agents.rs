//! Agent reports and the table that holds one report per agent id, ordered by id.
use vstd::prelude::*;
use crate::status::Status;
use crate::text::{chars_of, compare_chars, equal_chars, seq_lt, Order, lemma_seq_lt_irreflexive,
    lemma_seq_lt_asymmetric, lemma_seq_lt_transitive, lemma_seq_lt_total};

verus! {

/// What one agent last reported, with where its pane was found.
pub struct AgentReport {
    /// The agent's identity: a Codex session id or a discovered pane's key.
    pub id: String,
    /// The name shown for the agent.
    pub agent: String,
    pub status: Status,
    pub task: String,
    pub worktree: String,
    /// The terminal pane that runs the agent, when it is known.
    pub pane_id: Option<u32>,
    /// The stable id of the tab that holds the pane.
    pub tab_id: Option<usize>,
    /// The position of that tab, for reports that carry no stable id.
    pub tab_position: Option<usize>,
    /// A report that asks for the agent to be forgotten.
    pub remove: bool,
}

/// The content of a report, with its text as character sequences.
pub struct AgentView {
    pub id: Seq<char>,
    pub agent: Seq<char>,
    pub status: Status,
    pub task: Seq<char>,
    pub worktree: Seq<char>,
    pub pane_id: Option<u32>,
    pub tab_id: Option<usize>,
    pub tab_position: Option<usize>,
    pub remove: bool,
}

impl View for AgentReport {
    type V = AgentView;

    open spec fn view(&self) -> AgentView {
        AgentView {
            id: self.id@,
            agent: self.agent@,
            status: self.status,
            task: self.task@,
            worktree: self.worktree@,
            pane_id: self.pane_id,
            tab_id: self.tab_id,
            tab_position: self.tab_position,
            remove: self.remove,
        }
    }
}

/// The contents of a list of reports.
pub open spec fn report_views(s: Seq<AgentReport>) -> Seq<AgentView> {
    s.map_values(|r: AgentReport| r@)
}

impl AgentReport {
    /// A copy of the report.
    pub fn duplicate(&self) -> (r: AgentReport)
        ensures
            r == *self,
    {
        AgentReport {
            id: self.id.clone(),
            agent: self.agent.clone(),
            status: self.status,
            task: self.task.clone(),
            worktree: self.worktree.clone(),
            pane_id: self.pane_id,
            tab_id: self.tab_id,
            tab_position: self.tab_position,
            remove: self.remove,
        }
    }
}

/// `r` with its status replaced.
pub open spec fn with_status(r: AgentView, status: Status) -> AgentView {
    AgentView { status: status, ..r }
}

/// `r` with its tab location replaced.
pub open spec fn with_location(r: AgentView, tab_id: Option<usize>, tab_position: Option<usize>) -> AgentView {
    AgentView { tab_id: tab_id, tab_position: tab_position, ..r }
}

/// Ids strictly increase along the list, so each id occurs once.
pub open spec fn ids_increasing(s: Seq<AgentView>) -> bool {
    forall|i: int, j: int| 0 <= i < j < s.len() ==> seq_lt(#[trigger] s[i].id, #[trigger] s[j].id)
}

/// `s` with `a` stored under its id: it replaces the report with that id, or
/// is placed before the first report with a larger id.
pub open spec fn put(s: Seq<AgentView>, a: AgentView) -> Seq<AgentView>
    decreases s.len(),
{
    if s.len() == 0 {
        seq![a]
    } else if s[0].id == a.id {
        seq![a] + s.drop_first()
    } else if seq_lt(a.id, s[0].id) {
        seq![a] + s
    } else {
        seq![s[0]] + put(s.drop_first(), a)
    }
}

/// The report stored under `id`, if any.
pub open spec fn lookup(s: Seq<AgentView>, id: Seq<char>) -> Option<AgentView>
    decreases s.len(),
{
    if s.len() == 0 {
        None
    } else if s[0].id == id {
        Some(s[0])
    } else {
        lookup(s.drop_first(), id)
    }
}

/// The reports of `s` whose flag in `keep` is set, in order.
pub open spec fn masked(s: Seq<AgentView>, keep: Seq<bool>) -> Seq<AgentView>
    decreases s.len(),
{
    if s.len() == 0 {
        seq![]
    } else {
        let p = masked(s.drop_last(), keep.drop_last());
        if keep.last() {
            p.push(s.last())
        } else {
            p
        }
    }
}

/// Masking keeps only members of the list, and keeps ids in order.
pub proof fn lemma_masked_members(s: Seq<AgentView>, keep: Seq<bool>)
    requires
        keep.len() == s.len(),
    ensures
        forall|k: int| 0 <= k < masked(s, keep).len() ==> s.contains(#[trigger] masked(s, keep)[k]),
        ids_increasing(s) ==> ids_increasing(masked(s, keep)),
    decreases s.len(),
{
    if s.len() > 0 {
        let d = s.drop_last();
        lemma_masked_members(d, keep.drop_last());
        let p = masked(d, keep.drop_last());
        assert forall|k: int| 0 <= k < p.len() implies s.contains(#[trigger] p[k]) by {
            assert(d.contains(p[k]));
            let j = choose|j: int| 0 <= j < d.len() && d[j] == p[k];
            assert(s[j] == p[k]);
        }
        if keep.last() {
            let q = p.push(s.last());
            assert forall|k: int| 0 <= k < q.len() implies s.contains(#[trigger] q[k]) by {
                if k < p.len() {
                    assert(q[k] == p[k]);
                } else {
                    assert(s[s.len() - 1] == q[k]);
                }
            }
            if ids_increasing(s) {
                assert forall|a: int, b: int| 0 <= a < b < q.len() implies seq_lt(
                    #[trigger] q[a].id,
                    #[trigger] q[b].id,
                ) by {
                    if b == q.len() - 1 {
                        assert(d.contains(p[a]));
                        let j = choose|j: int| 0 <= j < d.len() && d[j] == p[a];
                        assert(s[j] == q[a]);
                        assert(s[s.len() - 1] == q[b]);
                    } else {
                        assert(q[a] == p[a]);
                        assert(q[b] == p[b]);
                    }
                }
            }
        }
    }
}

/// Masking with the flags of a predicate keeps what `filter` keeps.
pub proof fn lemma_masked_filter(
    s: Seq<AgentView>,
    keep: Seq<bool>,
    pred: spec_fn(AgentView) -> bool,
)
    requires
        keep.len() == s.len(),
        forall|i: int| 0 <= i < s.len() ==> keep[i] == pred(#[trigger] s[i]),
    ensures
        masked(s, keep) == s.filter(pred),
    decreases s.len(),
{
    reveal(Seq::filter);
    if s.len() > 0 {
        let d = s.drop_last();
        let kd = keep.drop_last();
        assert forall|i: int| 0 <= i < d.len() implies kd[i] == pred(#[trigger] d[i]) by {
            assert(s[i] == d[i]);
        }
        lemma_masked_filter(d, kd, pred);
        assert(keep.last() == pred(s.last()));
    }
}

/// The position of `a` in `s` when `i` reports precede it.
pub proof fn lemma_put_split(s: Seq<AgentView>, a: AgentView, i: int)
    requires
        0 <= i <= s.len(),
        forall|k: int| 0 <= k < i ==> seq_lt(#[trigger] s[k].id, a.id),
        i < s.len() ==> !seq_lt(s[i].id, a.id),
    ensures
        i < s.len() && s[i].id == a.id ==> put(s, a) == s.take(i).push(a) + s.skip(i + 1),
        !(i < s.len() && s[i].id == a.id) ==> put(s, a) == s.take(i).push(a) + s.skip(i),
    decreases i,
{
    if i == 0 {
        if s.len() > 0 {
            if s[0].id == a.id {
                assert(s.skip(1) =~= s.drop_first());
                assert(s.take(0).push(a) + s.skip(1) =~= seq![a] + s.drop_first());
            } else {
                lemma_seq_lt_total(s[0].id, a.id);
                assert(s.take(0).push(a) + s.skip(0) =~= seq![a] + s);
            }
        } else {
            assert(s.take(0).push(a) + s.skip(0) =~= seq![a]);
        }
    } else {
        let t = s.drop_first();
        assert(seq_lt(s[0].id, a.id));
        lemma_seq_lt_irreflexive(a.id);
        lemma_seq_lt_asymmetric(s[0].id, a.id);
        assert(s[0].id != a.id);
        assert forall|k: int| 0 <= k < i - 1 implies seq_lt(#[trigger] t[k].id, a.id) by {
            assert(t[k] == s[k + 1]);
        }
        lemma_put_split(t, a, i - 1);
        if i < s.len() && s[i].id == a.id {
            assert(s.take(i).push(a) + s.skip(i + 1) =~= seq![s[0]] + (t.take(i - 1).push(a)
                + t.skip(i)));
        } else {
            assert(s.take(i).push(a) + s.skip(i) =~= seq![s[0]] + (t.take(i - 1).push(a) + t.skip(
                i - 1,
            )));
        }
    }
}

/// Reports stored under another id than `id`.
pub open spec fn not_id(id: Seq<char>) -> spec_fn(AgentView) -> bool {
    |r: AgentView| r.id != id
}

/// Reports of agents that do not run in pane `pane`.
pub open spec fn off_pane(pane: u32) -> spec_fn(AgentView) -> bool {
    |r: AgentView| r.pane_id != Some(pane)
}

/// `s` with every completed report whose flag is set marked as read (idle).
pub open spec fn acknowledged(s: Seq<AgentView>, flags: Seq<bool>) -> Seq<AgentView> {
    Seq::new(
        s.len(),
        |i: int|
            if flags[i] && s[i].status == Status::Done {
                with_status(s[i], Status::Idle)
            } else {
                s[i]
            },
    )
}

/// `s` with the status of every report whose flag is set replaced by `status`.
pub open spec fn restatused(s: Seq<AgentView>, flags: Seq<bool>, status: Status) -> Seq<AgentView> {
    Seq::new(s.len(), |i: int| if flags[i] { with_status(s[i], status) } else { s[i] })
}

/// Agent reports keyed by id, iterated in increasing id order.
pub struct AgentTable {
    entries: Vec<AgentReport>,
}

impl View for AgentTable {
    type V = Seq<AgentView>;

    closed spec fn view(&self) -> Seq<AgentView> {
        report_views(self.entries@)
    }
}

impl AgentTable {
    #[verifier::type_invariant]
    spec fn inv(self) -> bool {
        ids_increasing(report_views(self.entries@))
    }

    /// The empty table.
    pub fn new() -> (r: AgentTable)
        ensures
            r@ == Seq::<AgentView>::empty(),
    {
        let r = AgentTable { entries: Vec::new() };
        assert(report_views(r.entries@) =~= Seq::<AgentView>::empty());
        r
    }

    /// The number of agents.
    pub fn len(&self) -> (r: usize)
        ensures
            r == self@.len(),
    {
        self.entries.len()
    }

    /// Whether the table holds no agent.
    pub fn is_empty(&self) -> (r: bool)
        ensures
            r == (self@.len() == 0),
    {
        self.entries.len() == 0
    }

    /// The reports in increasing id order.
    pub fn values(&self) -> (r: &[AgentReport])
        ensures
            report_views(r@) == self@,
            r@.len() == self@.len(),
            forall|i: int| 0 <= i < r@.len() ==> #[trigger] r@[i]@ == self@[i],
            ids_increasing(self@),
    {
        proof {
            use_type_invariant(self);
        }
        self.entries.as_slice()
    }

    /// The index of the report stored under `id`.
    pub fn position(&self, id: &str) -> (r: Option<usize>)
        ensures
            ids_increasing(self@),
            r matches Some(i) ==> i < self@.len() && self@[i as int].id == id@,
            r is None ==> forall|k: int| 0 <= k < self@.len() ==> #[trigger] self@[k].id != id@,
            r matches Some(i) ==> lookup(self@, id@) == Some(self@[i as int]),
            r is None ==> lookup(self@, id@) is None,
    {
        proof {
            use_type_invariant(self);
        }
        let ghost vs = self@;
        let key = chars_of(id);
        let mut i: usize = 0;
        assert(vs.skip(0) =~= vs);
        while i < self.entries.len()
            invariant
                i <= vs.len(),
                vs == report_views(self.entries@),
                key@ == id@,
                ids_increasing(vs),
                forall|k: int| 0 <= k < i ==> #[trigger] vs[k].id != id@,
                lookup(vs, id@) == lookup(vs.skip(i as int), id@),
            decreases vs.len() - i,
        {
            let here = chars_of(self.entries[i].id.as_str());
            assert(vs.skip(i as int).drop_first() =~= vs.skip(i + 1));
            assert(vs[i as int] == self.entries@[i as int]@);
            if compare_chars(&here, &key) == Order::Equal {
                assert(vs.skip(i as int)[0] == vs[i as int]);
                return Some(i);
            }
            i = i + 1;
        }
        None
    }

    /// The report stored under `id`.
    pub fn get(&self, id: &str) -> (r: Option<&AgentReport>)
        ensures
            r matches Some(a) ==> lookup(self@, id@) == Some(a@),
            r is None ==> lookup(self@, id@) is None,
    {
        match self.position(id) {
            Some(i) => Some(&self.entries[i]),
            None => None,
        }
    }

    /// Whether a report is stored under `id`.
    pub fn contains_key(&self, id: &str) -> (r: bool)
        ensures
            r == (lookup(self@, id@) is Some),
    {
        self.position(id).is_some()
    }

    /// A copy of the table.
    pub fn duplicate(&self) -> (r: AgentTable)
        ensures
            r@ == self@,
    {
        proof {
            use_type_invariant(self);
        }
        let mut entries: Vec<AgentReport> = Vec::new();
        let mut i: usize = 0;
        while i < self.entries.len()
            invariant
                i <= self.entries@.len(),
                entries@ =~= self.entries@.take(i as int),
            decreases self.entries@.len() - i,
        {
            entries.push(self.entries[i].duplicate());
            i = i + 1;
        }
        assert(self.entries@.take(self.entries@.len() as int) =~= self.entries@);
        AgentTable { entries }
    }

    /// Whether both tables hold the same reports.
    pub fn same_as(&self, other: &AgentTable) -> (r: bool)
        ensures
            r == (self@ == other@),
    {
        if self.entries.len() != other.entries.len() {
            assert(self@.len() != other@.len());
            return false;
        }
        let mut i: usize = 0;
        while i < self.entries.len()
            invariant
                i <= self.entries@.len(),
                self.entries@.len() == other.entries@.len(),
                forall|k: int| 0 <= k < i ==> #[trigger] self@[k] == other@[k],
            decreases self.entries@.len() - i,
        {
            let a = &self.entries[i];
            let b = &other.entries[i];
            let same = equal_chars(&chars_of(a.id.as_str()), &chars_of(b.id.as_str()))
                && equal_chars(&chars_of(a.agent.as_str()), &chars_of(b.agent.as_str()))
                && a.status == b.status
                && equal_chars(&chars_of(a.task.as_str()), &chars_of(b.task.as_str()))
                && equal_chars(&chars_of(a.worktree.as_str()), &chars_of(b.worktree.as_str()))
                && a.pane_id == b.pane_id
                && a.tab_id == b.tab_id
                && a.tab_position == b.tab_position
                && a.remove == b.remove;
            assert(self@[i as int] == a@);
            assert(other@[i as int] == b@);
            if !same {
                return false;
            }
            i = i + 1;
        }
        assert(self@ =~= other@);
        true
    }

    /// Stores `a` under its id, replacing any report with that id.
    pub fn insert(&mut self, a: AgentReport)
        ensures
            final(self)@ == put(old(self)@, a@),
    {
        proof {
            use_type_invariant(&*self);
        }
        let ghost s = self@;
        let ghost av = a@;
        let key = chars_of(a.id.as_str());
        let n = self.entries.len();
        let mut i: usize = 0;
        let mut found = false;
        let mut scanning = true;
        while i < n && scanning
            invariant
                i <= n,
                n == s.len(),
                s == report_views(self.entries@),
                key@ == av.id,
                ids_increasing(s),
                forall|k: int| 0 <= k < i ==> seq_lt(#[trigger] s[k].id, av.id),
                scanning ==> !found,
                !scanning ==> i < n && !seq_lt(s[i as int].id, av.id) && (found == (s[i as int].id
                    == av.id)),
            decreases n - i, if scanning { 1int } else { 0int },
        {
            let here = chars_of(self.entries[i].id.as_str());
            assert(s[i as int] == self.entries@[i as int]@);
            let o = compare_chars(&here, &key);
            if o == Order::Less {
                i = i + 1;
            } else {
                proof {
                    lemma_seq_lt_irreflexive(av.id);
                    if seq_lt(here@, key@) {
                        lemma_seq_lt_asymmetric(here@, key@);
                    }
                }
                scanning = false;
                found = o == Order::Equal;
            }
        }
        let mut entries: Vec<AgentReport> = Vec::new();
        std::mem::swap(&mut entries, &mut self.entries);
        let ghost olde = entries@;
        if found {
            entries.set(i, a);
            proof {
                lemma_put_split(s, av, i as int);
                assert(report_views(entries@) =~= s.take(i as int).push(av) + s.skip(i + 1));
            }
        } else {
            entries.insert(i, a);
            proof {
                lemma_put_split(s, av, i as int);
                assert(report_views(entries@) =~= s.take(i as int).push(av) + s.skip(i as int));
            }
        }
        proof {
            let e = report_views(entries@);
            assert forall|x: int, y: int| 0 <= x < y < e.len() implies seq_lt(
                #[trigger] e[x].id,
                #[trigger] e[y].id,
            ) by {
                if y == i {
                    assert(e[x] == s[x]);
                } else if x == i {
                    let sy = if found { y } else { y - 1 };
                    assert(e[y] == s[sy]);
                    if found {
                        assert(seq_lt(s[i as int].id, s[sy].id));
                    } else if i < n {
                        lemma_seq_lt_total(s[i as int].id, av.id);
                        assert(seq_lt(av.id, s[i as int].id));
                        if sy > i {
                            lemma_seq_lt_transitive(av.id, s[i as int].id, s[sy].id);
                        }
                    }
                } else if x < i && y > i {
                    let sy = if found { y } else { y - 1 };
                    assert(e[x] == s[x]);
                    assert(e[y] == s[sy]);
                } else if x > i {
                    let sx = if found { x } else { x - 1 };
                    let sy = if found { y } else { y - 1 };
                    assert(e[x] == s[sx]);
                    assert(e[y] == s[sy]);
                } else {
                    assert(e[x] == s[x]);
                    assert(e[y] == s[y]);
                }
            }
        }
        self.entries = entries;
    }

    /// Keeps the reports whose flag is set, in order.
    pub fn keep_where(&mut self, keep: &Vec<bool>)
        requires
            keep@.len() == old(self)@.len(),
        ensures
            final(self)@ == masked(old(self)@, keep@),
    {
        proof {
            use_type_invariant(&*self);
        }
        let ghost s = self@;
        let mut kept: Vec<AgentReport> = Vec::new();
        let n = self.entries.len();
        let mut i: usize = 0;
        assert(s.take(0) =~= Seq::<AgentView>::empty());
        assert(keep@.take(0) =~= Seq::<bool>::empty());
        assert(report_views(kept@) =~= Seq::<AgentView>::empty());
        while i < n
            invariant
                i <= n,
                n == s.len(),
                s == report_views(self.entries@),
                keep@.len() == n,
                report_views(kept@) == masked(s.take(i as int), keep@.take(i as int)),
            decreases n - i,
        {
            assert(s.take(i + 1).drop_last() =~= s.take(i as int));
            assert(keep@.take(i + 1).drop_last() =~= keep@.take(i as int));
            assert(s[i as int] == self.entries@[i as int]@);
            if keep[i] {
                let ghost before = kept@;
                kept.push(self.entries[i].duplicate());
                assert(report_views(kept@) =~= report_views(before).push(s[i as int]));
            }
            i = i + 1;
        }
        assert(s.take(n as int) =~= s);
        assert(keep@.take(n as int) =~= keep@);
        proof {
            lemma_masked_members(s, keep@);
        }
        self.entries = kept;
    }

    /// Forgets the report stored under `id`.
    pub fn remove(&mut self, id: &str)
        ensures
            final(self)@ == old(self)@.filter(not_id(id@)),
    {
        let key = chars_of(id);
        let mut keep: Vec<bool> = Vec::new();
        let mut i: usize = 0;
        while i < self.entries.len()
            invariant
                i <= self.entries@.len(),
                key@ == id@,
                keep@.len() == i,
                forall|k: int| 0 <= k < i ==> keep@[k] == not_id(id@)(#[trigger] self@[k]),
            decreases self.entries@.len() - i,
        {
            let here = chars_of(self.entries[i].id.as_str());
            assert(self@[i as int] == self.entries@[i as int]@);
            keep.push(compare_chars(&here, &key) != Order::Equal);
            i = i + 1;
        }
        proof {
            lemma_masked_filter(self@, keep@, not_id(id@));
        }
        self.keep_where(&keep);
    }

    /// Forgets every agent that runs in pane `pane`.
    pub fn remove_pane(&mut self, pane: u32)
        ensures
            final(self)@ == old(self)@.filter(off_pane(pane)),
    {
        let mut keep: Vec<bool> = Vec::new();
        let mut i: usize = 0;
        while i < self.entries.len()
            invariant
                i <= self.entries@.len(),
                keep@.len() == i,
                forall|k: int| 0 <= k < i ==> keep@[k] == off_pane(pane)(#[trigger] self@[k]),
            decreases self.entries@.len() - i,
        {
            assert(self@[i as int] == self.entries@[i as int]@);
            let on = match self.entries[i].pane_id {
                Some(p) => p == pane,
                None => false,
            };
            keep.push(!on);
            i = i + 1;
        }
        proof {
            lemma_masked_filter(self@, keep@, off_pane(pane));
        }
        self.keep_where(&keep);
    }

    /// Marks as read (idle) every completed report whose flag is set; true
    /// when one was completed.
    pub fn acknowledge_where(&mut self, flags: &Vec<bool>) -> (r: bool)
        requires
            flags@.len() == old(self)@.len(),
        ensures
            final(self)@ == acknowledged(old(self)@, flags@),
            r == exists|i: int| 0 <= i < flags@.len() && flags@[i] && #[trigger] old(self)@[i].status == Status::Done,
    {
        let ghost s = self@;
        let mut changed = false;
        let mut i: usize = 0;
        while i < flags.len()
            invariant
                i <= flags@.len(),
                flags@.len() == s.len(),
                self@.len() == s.len(),
                forall|k: int| 0 <= k < i ==> #[trigger] self@[k] == acknowledged(s, flags@)[k],
                forall|k: int| i <= k < s.len() ==> #[trigger] self@[k] == s[k],
                changed == exists|k: int| 0 <= k < i && flags@[k] && #[trigger] s[k].status == Status::Done,
            decreases flags@.len() - i,
        {
            assert(self@[i as int] == self.entries@[i as int]@);
            let done = match self.entries[i].status {
                Status::Done => true,
                _ => false,
            };
            if flags[i] && done {
                assert(s[i as int].status == Status::Done);
                self.set_status(i, Status::Idle);
                changed = true;
            } else {
                assert(!(flags@[i as int] && s[i as int].status == Status::Done));
            }
            i = i + 1;
        }
        assert(self@ =~= acknowledged(s, flags@));
        changed
    }

    /// Gives `status` to every report whose flag is set; true when one of
    /// them had another status.
    pub fn set_status_where(&mut self, flags: &Vec<bool>, status: Status) -> (r: bool)
        requires
            flags@.len() == old(self)@.len(),
        ensures
            final(self)@ == restatused(old(self)@, flags@, status),
            r == exists|i: int| 0 <= i < flags@.len() && flags@[i] && #[trigger] old(self)@[i].status != status,
    {
        let ghost s = self@;
        let mut changed = false;
        let mut i: usize = 0;
        while i < flags.len()
            invariant
                i <= flags@.len(),
                flags@.len() == s.len(),
                self@.len() == s.len(),
                forall|k: int| 0 <= k < i ==> #[trigger] self@[k] == restatused(s, flags@, status)[k],
                forall|k: int| i <= k < s.len() ==> #[trigger] self@[k] == s[k],
                changed == exists|k: int| 0 <= k < i && flags@[k] && #[trigger] s[k].status != status,
            decreases flags@.len() - i,
        {
            assert(self@[i as int] == self.entries@[i as int]@);
            if flags[i] {
                let differs = self.entries[i].status != status;
                assert(differs == (s[i as int].status != status));
                self.set_status(i, status);
                if differs {
                    changed = true;
                }
            } else {
                assert(!(flags@[i as int] && s[i as int].status != status));
            }
            i = i + 1;
        }
        assert(self@ =~= restatused(s, flags@, status));
        changed
    }

    /// Replaces the status of the report at index `i`.
    pub fn set_status(&mut self, i: usize, status: Status)
        requires
            i < old(self)@.len(),
        ensures
            final(self)@ == old(self)@.update(i as int, with_status(old(self)@[i as int], status)),
    {
        proof {
            use_type_invariant(&*self);
        }
        let ghost s = self@;
        let mut entries: Vec<AgentReport> = Vec::new();
        std::mem::swap(&mut entries, &mut self.entries);
        let mut a = entries.remove(i);
        a.status = status;
        entries.insert(i, a);
        assert(report_views(entries@) =~= s.update(i as int, with_status(s[i as int], status)));
        self.entries = entries;
    }

    /// Replaces the tab location of the report at index `i`.
    pub fn set_location(&mut self, i: usize, tab_id: Option<usize>, tab_position: Option<usize>)
        requires
            i < old(self)@.len(),
        ensures
            final(self)@ == old(self)@.update(
                i as int,
                with_location(old(self)@[i as int], tab_id, tab_position),
            ),
    {
        proof {
            use_type_invariant(&*self);
        }
        let ghost s = self@;
        let mut entries: Vec<AgentReport> = Vec::new();
        std::mem::swap(&mut entries, &mut self.entries);
        let mut a = entries.remove(i);
        a.tab_id = tab_id;
        a.tab_position = tab_position;
        entries.insert(i, a);
        assert(report_views(entries@) =~= s.update(i as int, with_location(s[i as int], tab_id, tab_position)));
        self.entries = entries;
    }
}

} // verus!
