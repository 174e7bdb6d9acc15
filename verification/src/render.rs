//! The dashboard's text: one row per agent, or a note when there is none.
use vstd::prelude::*;
use crate::agents::AgentView;
use crate::dashboard::{App, agent_tab_label};
use crate::detect::views;
use crate::status::{status_color, status_label, status_symbol};
use crate::text::{chars_of, decimal, decimal_chars, pad_right, padded, push_all, string_of, truncate, truncated};

verus! {

/// The key help shown under the dashboard.
pub open spec fn hint() -> Seq<char> {
    "r: refresh agents · Esc: hide dashboard"@
}

/// The heading of the agent table.
pub open spec fn header() -> Seq<char> {
    padded("TAB"@, 20) + "  "@ + padded("WORKTREE"@, 20) + "  "@ + padded("AGENT"@, 18) + "  "@
        + padded("STATUS"@, 12) + "  TASK"@
}

/// The name shown for an agent: with its pane, when it has one.
pub open spec fn agent_label(a: AgentView) -> Seq<char> {
    match a.pane_id {
        Some(p) => a.agent + " (p"@ + decimal(p as nat) + ")"@,
        None => a.agent,
    }
}

/// One row of the agent table.
pub open spec fn agent_row(tabs: Seq<crate::model::TabInfo>, a: AgentView) -> Seq<char> {
    padded(truncated(agent_tab_label(tabs, a), 20), 20) + "  "@ + padded(truncated(a.worktree, 20), 20) + "  "@
        + padded(truncated(agent_label(a), 18), 18) + "  \u{1b}["@ + decimal(status_color(a.status) as nat) + "m"@
        + seq![status_symbol(a.status)] + " "@ + padded(status_label(a.status), 9) + "\u{1b}[0m  "@
        + truncated(a.task, 80)
}

/// The lines of the dashboard: the error, or a note when no agent is known,
/// or the table of agents; then the key help.
pub open spec fn dashboard_text(app: App) -> Seq<Seq<char>> {
    match app.error {
        Some(e) => seq!["\u{1b}[91m✕ "@ + e@ + "\u{1b}[0m"@, hint()],
        None => if app.agents@.len() == 0 {
            seq!["Waiting for a Codex status report…"@, hint()]
        } else {
            seq![header()] + app.agents@.map_values(|a: AgentView| agent_row(app.tabs@, a)) + seq![seq![], hint()]
        },
    }
}

/// Appends `text` padded to `width` characters.
fn push_padded(line: &mut Vec<char>, text: &Vec<char>, width: usize)
    ensures
        final(line)@ == old(line)@ + padded(text@, width as nat),
{
    let p = pad_right(text, width);
    push_all(line, &p);
}

/// Appends the text of a literal.
fn push_str(line: &mut Vec<char>, text: &str)
    ensures
        final(line)@ == old(line)@ + text@,
{
    let t = chars_of(text);
    push_all(line, &t);
}

impl App {
    /// One row of the agent table.
    pub fn agent_row(&self, agent: &crate::agents::AgentReport) -> (r: String)
        ensures
            r@ == agent_row(self.tabs@, agent@),
    {
        let mut line: Vec<char> = Vec::new();
        let tab = self.agent_tab_name(agent);
        push_padded(&mut line, &chars_of(truncate(tab.as_str(), 20).as_str()), 20);
        push_str(&mut line, "  ");
        push_padded(&mut line, &chars_of(truncate(agent.worktree.as_str(), 20).as_str()), 20);
        push_str(&mut line, "  ");
        let mut label = chars_of(agent.agent.as_str());
        match agent.pane_id {
            Some(p) => {
                push_str(&mut label, " (p");
                push_all(&mut label, &decimal_chars(p as u64));
                push_str(&mut label, ")");
            },
            None => {},
        }
        let label_text = string_of(label.as_slice());
        push_padded(&mut line, &chars_of(truncate(label_text.as_str(), 18).as_str()), 18);
        push_str(&mut line, "  \u{1b}[");
        push_all(&mut line, &decimal_chars(agent.status.ansi_color() as u64));
        push_str(&mut line, "m");
        push_str(&mut line, agent.status.symbol());
        push_str(&mut line, " ");
        push_padded(&mut line, &chars_of(agent.status.label()), 9);
        push_str(&mut line, "\u{1b}[0m  ");
        push_all(&mut line, &chars_of(truncate(agent.task.as_str(), 80).as_str()));
        proof {
            assert(line@ =~= agent_row(self.tabs@, agent@));
        }
        string_of(line.as_slice())
    }

    /// The lines the dashboard prints (see `dashboard_text`).
    pub fn dashboard_lines(&self) -> (r: Vec<String>)
        ensures
            views(r@) == dashboard_text(*self),
    {
        let mut out: Vec<String> = Vec::new();
        match &self.error {
            Some(e) => {
                let mut line = chars_of("\u{1b}[91m✕ ");
                push_all(&mut line, &chars_of(e.as_str()));
                push_str(&mut line, "\u{1b}[0m");
                out.push(string_of(line.as_slice()));
                out.push(string_of(chars_of("r: refresh agents · Esc: hide dashboard").as_slice()));
                assert(views(out@) =~= dashboard_text(*self));
                return out;
            },
            None => {},
        }
        if self.agents.is_empty() {
            out.push(string_of(chars_of("Waiting for a Codex status report…").as_slice()));
            out.push(string_of(chars_of("r: refresh agents · Esc: hide dashboard").as_slice()));
            assert(views(out@) =~= dashboard_text(*self));
            return out;
        }
        let mut head: Vec<char> = Vec::new();
        push_padded(&mut head, &chars_of("TAB"), 20);
        push_str(&mut head, "  ");
        push_padded(&mut head, &chars_of("WORKTREE"), 20);
        push_str(&mut head, "  ");
        push_padded(&mut head, &chars_of("AGENT"), 18);
        push_str(&mut head, "  ");
        push_padded(&mut head, &chars_of("STATUS"), 12);
        push_str(&mut head, "  TASK");
        assert(head@ =~= header());
        out.push(string_of(head.as_slice()));
        let values = self.agents.values();
        let mut i: usize = 0;
        while i < values.len()
            invariant
                i <= values@.len(),
                values@.len() == self.agents@.len(),
                forall|k: int| 0 <= k < values@.len() ==> #[trigger] values@[k]@ == self.agents@[k],
                views(out@) =~= seq![header()] + self.agents@.take(i as int).map_values(|a: AgentView| agent_row(self.tabs@, a)),
            decreases values@.len() - i,
        {
            let row = self.agent_row(&values[i]);
            let ghost before = views(out@);
            out.push(row);
            assert(self.agents@.take(i + 1) =~= self.agents@.take(i as int).push(values@[i as int]@));
            assert(views(out@) =~= before.push(row@));
            i = i + 1;
        }
        assert(self.agents@.take(self.agents@.len() as int) =~= self.agents@);
        out.push(String::new());
        out.push(string_of(chars_of("r: refresh agents · Esc: hide dashboard").as_slice()));
        assert(views(out@) =~= dashboard_text(*self));
        out
    }
}

} // verus!
