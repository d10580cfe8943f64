//! What a project declares its development tools in.

use vstd::prelude::*;

verus! {

/// What a project declares its development tools in.
#[derive(Debug, Clone, Copy, PartialEq, Eq, PartialOrd, Ord, Structural)]
pub enum Manager {
    /// A Nix flake: an input pinned at a tag and its package in the devshell.
    Flake,
    /// mise: one `[tools]` entry in its configuration file.
    Mise,
    /// asdf: one line in `.tool-versions`.
    Asdf,
    /// devbox: one entry in the `packages` array of `devbox.json`.
    Devbox,
}

/// The kebab-case word for a manager.
pub open spec fn manager_word(m: Manager) -> Seq<char> {
    match m {
        Manager::Flake => "flake"@,
        Manager::Mise => "mise"@,
        Manager::Asdf => "asdf"@,
        Manager::Devbox => "devbox"@,
    }
}

/// The files a manager reads at a project root, in search order.
pub open spec fn manager_files(m: Manager) -> Seq<Seq<char>> {
    match m {
        Manager::Flake => seq!["flake.nix"@],
        Manager::Mise => seq!["mise.toml"@, ".mise.toml"@],
        Manager::Asdf => seq![".tool-versions"@],
        Manager::Devbox => seq!["devbox.json"@],
    }
}

impl Manager {
    /// Every manager, in report order.
    pub fn all() -> (r: [Manager; 4])
        ensures
            r@ == seq![Manager::Flake, Manager::Mise, Manager::Asdf, Manager::Devbox],
    {
        let r = [Manager::Flake, Manager::Mise, Manager::Asdf, Manager::Devbox];
        assert(r@ =~= seq![Manager::Flake, Manager::Mise, Manager::Asdf, Manager::Devbox]);
        r
    }

    /// The kebab-case word the command line and the report use.
    pub fn as_str(self) -> (r: &'static str)
        ensures
            r@ == manager_word(self),
    {
        match self {
            Manager::Flake => "flake",
            Manager::Mise => "mise",
            Manager::Asdf => "asdf",
            Manager::Devbox => "devbox",
        }
    }

    /// The files the manager reads at a project root, in search order.
    /// The first is the one a seed writes.
    pub fn files(self) -> (r: Vec<&'static str>)
        ensures
            r@.map_values(|f: &str| f@) == manager_files(self),
    {
        let r = match self {
            Manager::Flake => vec!["flake.nix"],
            Manager::Mise => vec!["mise.toml", ".mise.toml"],
            Manager::Asdf => vec![".tool-versions"],
            Manager::Devbox => vec!["devbox.json"],
        };
        assert(r@.map_values(|f: &str| f@) =~= manager_files(self));
        r
    }

    /// The lock beside the manager file, where the manager keeps one.
    pub fn lock_file(self) -> (r: Option<&'static str>)
        ensures
            self is Flake ==> (r matches Some(l) && l@ == "flake.lock"@),
            !(self is Flake) ==> r is None,
    {
        match self {
            Manager::Flake => Some("flake.lock"),
            _ => None,
        }
    }
}

} // verus!
