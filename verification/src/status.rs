//! The lifecycle states an agent can report, and how each one is shown.
use vstd::prelude::*;

verus! {

/// The state of one Codex agent, as reported by its lifecycle hooks.
#[derive(Clone, Copy, Debug, PartialEq, Eq, Structural)]
pub enum Status {
    Running,
    Idle,
    Input,
    Stuck,
    Error,
    Done,
    Paused,
}

/// The lower-case word that names a status in reports and in the dashboard.
pub open spec fn status_label(s: Status) -> Seq<char> {
    match s {
        Status::Running => seq!['r', 'u', 'n', 'n', 'i', 'n', 'g'],
        Status::Idle => seq!['i', 'd', 'l', 'e'],
        Status::Input => seq!['i', 'n', 'p', 'u', 't'],
        Status::Stuck => seq!['s', 't', 'u', 'c', 'k'],
        Status::Error => seq!['e', 'r', 'r', 'o', 'r'],
        Status::Done => seq!['d', 'o', 'n', 'e'],
        Status::Paused => seq!['p', 'a', 'u', 's', 'e', 'd'],
    }
}

/// The one-character marker drawn before a status in the dashboard.
pub open spec fn status_symbol(s: Status) -> char {
    match s {
        Status::Running => '●',
        Status::Idle => '○',
        Status::Input => '!',
        Status::Stuck => '✕',
        Status::Error => '✕',
        Status::Done => '✓',
        Status::Paused => 'Ⅱ',
    }
}

/// The SGR foreground code used to colour a status.
pub open spec fn status_color(s: Status) -> u8 {
    match s {
        Status::Running => 32,
        Status::Idle => 90,
        Status::Input => 33,
        Status::Stuck => 31,
        Status::Error => 91,
        Status::Done => 34,
        Status::Paused => 35,
    }
}

impl Status {
    /// The lower-case name of the status.
    pub fn label(self) -> (r: &'static str)
        ensures
            r@ == status_label(self),
    {
        let r = match self {
            Status::Running => "running",
            Status::Idle => "idle",
            Status::Input => "input",
            Status::Stuck => "stuck",
            Status::Error => "error",
            Status::Done => "done",
            Status::Paused => "paused",
        };
        proof {
            reveal_strlit("running");
            reveal_strlit("idle");
            reveal_strlit("input");
            reveal_strlit("stuck");
            reveal_strlit("error");
            reveal_strlit("done");
            reveal_strlit("paused");
        }
        r
    }

    /// The marker drawn in front of the status.
    pub fn symbol(self) -> (r: &'static str)
        ensures
            r@ == seq![status_symbol(self)],
    {
        let r = match self {
            Status::Running => "●",
            Status::Idle => "○",
            Status::Input => "!",
            Status::Stuck | Status::Error => "✕",
            Status::Done => "✓",
            Status::Paused => "Ⅱ",
        };
        proof {
            reveal_strlit("●");
            reveal_strlit("○");
            reveal_strlit("!");
            reveal_strlit("✕");
            reveal_strlit("✓");
            reveal_strlit("Ⅱ");
        }
        r
    }

    /// The SGR colour code of the status.
    pub fn ansi_color(self) -> (r: u8)
        ensures
            r == status_color(self),
    {
        match self {
            Status::Running => 32,
            Status::Idle => 90,
            Status::Input => 33,
            Status::Stuck => 31,
            Status::Error => 91,
            Status::Done => 34,
            Status::Paused => 35,
        }
    }
}

} // verus!
