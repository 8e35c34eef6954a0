//! The agent that a workspace's sessions run. It is stored, never guessed from
//! the name of a binary.

use vstd::prelude::*;

use crate::text;

verus! {

#[derive(Debug, Clone, Copy, PartialEq, Eq, Structural)]
pub enum Agent {
    /// What every workspace ran before there was a choice.
    Claude,
    Codex,
}

impl Default for Agent {
    fn default() -> (r: Self)
        ensures
            r == Agent::Claude,
    {
        Agent::Claude
    }
}

/// How the agent that is not codex is called. Its command, the paths that it keeps its
/// files at, and the texts that name it are all made of this one name.
#[derive(Debug)]
pub struct AgentName {
    /// Its name in a sentence.
    pub title: String,
}

impl AgentName {
    /// The command that runs it: its name in small letters.
    pub open spec fn called(self) -> Seq<char> {
        text::ascii_lower(self.title@)
    }

    /// The directory of settings that it keeps in others.
    pub open spec fn dir(self) -> Seq<char> {
        "."@ + self.called()
    }

    /// The file of notes that it reads where it starts: its name in capitals.
    pub open spec fn notes(self) -> Seq<char> {
        text::ascii_upper(self.title@) + ".md"@
    }

    /// The command that runs it.
    pub fn command(&self) -> (r: String)
        ensures
            r@ == self.called(),
    {
        text::ascii_lowered(&self.title)
    }

    /// The directory of settings that it keeps in others.
    pub fn settings_dir(&self) -> (r: String)
        ensures
            r@ == self.dir(),
    {
        text::cat(".", &self.command())
    }

    /// The file of notes that it reads where it starts.
    pub fn notes_file(&self) -> (r: String)
        ensures
            r@ == self.notes(),
    {
        text::cat(&text::ascii_raised(&self.title), ".md")
    }
}

impl Agent {
    /// The binary that the agent runs as, where the workspace names no other.
    pub fn default_binary(self, name: &AgentName) -> (r: String)
        ensures
            r@ == (match self {
                Agent::Claude => name.called(),
                Agent::Codex => "codex"@,
            }),
    {
        match self {
            Agent::Claude => name.command(),
            Agent::Codex => "codex".to_owned(),
        }
    }

    /// The agent's name in a sentence.
    pub fn label<'a>(self, name: &'a AgentName) -> (r: &'a str)
        ensures
            r@ == (match self {
                Agent::Claude => name.title@,
                Agent::Codex => "codex"@,
            }),
    {
        match self {
            Agent::Claude => name.title.as_str(),
            Agent::Codex => "codex",
        }
    }
}

/// The agent's directory is its name behind a dot, and the notes that it reads are in a
/// file of its name, all in capitals.
pub proof fn the_files_of_an_agent(name: AgentName, i: int)
    requires
        0 <= i < name.title@.len(),
    ensures
        name.dir().len() == name.title@.len() + 1 && name.dir()[0] == '.',
        name.dir().skip(1) == name.called(),
        name.called().len() == name.title@.len(),
        !('A' <= name.called()[i] <= 'Z'),
        name.notes() == text::ascii_upper(name.title@) + ".md"@,
{
    reveal_strlit(".");
    assert(name.dir().skip(1) =~= name.called());
    text::letters_change_case(name.title@, i);
}

} // verus!
