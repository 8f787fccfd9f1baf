//! The command line of the agenda generator: which agenda to write.

use vstd::prelude::*;

use crate::strmap::{compare_text, TextOrder};

verus! {

/// The agendas the generator can write.
#[derive(PartialEq, Eq, Structural, Clone, Copy, Debug)]
pub enum AgendaKind {
    /// The agenda of the libs team meeting.
    Libs,
    /// The agenda of the error handling project group meeting.
    PgEh,
}

/// The arguments of the agenda generator.
#[derive(Clone, Copy, Debug)]
pub struct Args {
    pub agenda: AgendaKind,
}

/// The agenda named `name` on the command line, where `name` is one: names are
/// written as the variants are.
pub open spec fn agenda_named(name: Seq<char>) -> Option<AgendaKind> {
    if name == "Libs"@ {
        Some(AgendaKind::Libs)
    } else if name == "PgEh"@ {
        Some(AgendaKind::PgEh)
    } else {
        None
    }
}

impl AgendaKind {
    /// The agenda named `name` on the command line.
    pub fn from_name(name: &str) -> (res: Option<AgendaKind>)
        ensures
            res == agenda_named(name@),
    {
        if compare_text(name, "Libs") == TextOrder::Equal {
            Some(AgendaKind::Libs)
        } else if compare_text(name, "PgEh") == TextOrder::Equal {
            Some(AgendaKind::PgEh)
        } else {
            None
        }
    }
}

impl Args {
    /// The arguments where none are given: the libs agenda.
    pub fn default_args() -> (res: Args)
        ensures
            res.agenda == AgendaKind::Libs,
    {
        Args { agenda: AgendaKind::Libs }
    }
}

} // verus!
