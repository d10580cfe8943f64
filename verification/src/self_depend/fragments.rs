//! The fragment a manager needs to take this tool, and the shell loader
//! that keeps its pin fresh.

use vstd::prelude::*;

use crate::self_depend::manager::Manager;
use crate::self_depend::registry::CRATE_NAME;
use crate::self_depend::tag::{semver_model, semver_text, SemVer};
use crate::self_depend::venue::{verdict, verdict_of, Venue, Verdict};
use crate::self_depend::{BINARY_NAME, ENVRC, SYNC_LINE};
use crate::text::{append, owned};

verus! {

/// The name the flake input and the devshell reference share.
pub const FLAKE_INPUT: &'static str = "spec-driven-docs";

/// One fragment, with where it goes.
#[derive(Debug, Clone, PartialEq, Eq)]
pub struct Fragment {
    /// The file the fragment belongs in, relative to the project root.
    pub file: String,
    /// The line the fragment is placed near.
    pub anchor: String,
    /// Where, relative to the anchor.
    pub placement: String,
    /// The fragment.
    pub text: String,
}

/// A fragment as plain values: file, anchor, placement and text.
pub open spec fn fragment_view(f: Fragment) -> (Seq<char>, Seq<char>, Seq<char>, Seq<char>) {
    (f.file@, f.anchor@, f.placement@, f.text@)
}

/// The flake reference for one tag of the repository `slug` names.
pub open spec fn flake_ref(slug: Seq<char>, version: Seq<char>) -> Seq<char> {
    "github:"@ + slug + "/v"@ + version
}

/// The flake input a flake fragment declares.
pub open spec fn flake_input_text(slug: Seq<char>, version: Seq<char>) -> Seq<char> {
    FLAKE_INPUT@ + " = {\n  url = \""@ + flake_ref(slug, version)
        + "\";\n  inputs.nixpkgs.follows = \"nixpkgs\";\n};\n"@
}

/// The devshell package a flake fragment adds.
pub open spec fn flake_package_text() -> Seq<char> {
    FLAKE_INPUT@ + ".packages.${system}.default\n"@
}

/// The mise entry for the crate.
pub open spec fn mise_crate_text(version: Seq<char>) -> Seq<char> {
    "\"cargo:"@ + CRATE_NAME@ + "\" = \""@ + version + "\"\n"@
}

/// The mise entry for a release archive.
pub open spec fn mise_archive_text(slug: Seq<char>, version: Seq<char>) -> Seq<char> {
    "\"ubi:"@ + slug + "\" = { version = \""@ + version + "\", exe = \""@ + BINARY_NAME@ + "\" }\n"@
}

/// The devbox package for a flake.
pub open spec fn devbox_text(slug: Seq<char>, version: Seq<char>) -> Seq<char> {
    "\""@ + flake_ref(slug, version) + "#default\"\n"@
}

/// The fragments one rendering pair needs, or none for a manual pair.
pub open spec fn fragments_of(manager: Manager, venue: Venue, slug: Seq<char>, version: Seq<char>) -> Seq<
    (Seq<char>, Seq<char>, Seq<char>, Seq<char>),
> {
    match (manager, venue) {
        (Manager::Flake, Venue::Flake) => seq![
            ("flake.nix"@, "inputs = {"@, "inside the inputs attribute set"@, flake_input_text(slug, version)),
            (
                "flake.nix"@,
                "packages = ["@,
                "inside the devshell's packages list, with `"@ + FLAKE_INPUT@
                    + "` added to the outputs arguments"@,
                flake_package_text(),
            ),
        ],
        (Manager::Mise, Venue::Crates) => seq![
            ("mise.toml"@, "[tools]"@, "under the tools table"@, mise_crate_text(version)),
        ],
        (Manager::Mise, Venue::GithubRelease) => seq![
            ("mise.toml"@, "[tools]"@, "under the tools table"@, mise_archive_text(slug, version)),
        ],
        (Manager::Devbox, Venue::Flake) => seq![
            ("devbox.json"@, "\"packages\": ["@, "inside the packages array"@, devbox_text(slug, version)),
        ],
        _ => Seq::empty(),
    }
}

fn flake_ref_of(slug: &str, version: &str) -> (r: String)
    ensures
        r@ == flake_ref(slug@, version@),
{
    let mut r = owned("github:");
    append(&mut r, slug);
    append(&mut r, "/v");
    append(&mut r, version);
    r
}

fn fragment(file: &str, anchor: &str, placement: &str, text: String) -> (f: Fragment)
    ensures
        fragment_view(f) == (file@, anchor@, placement@, text@),
{
    Fragment { file: owned(file), anchor: owned(anchor), placement: owned(placement), text }
}

/// The fragments one rendering pair needs for `version` of the tool the
/// repository `slug` serves: where each goes and its text. A manual pair
/// renders nothing.
pub fn render(manager: Manager, venue: Venue, version: &SemVer, slug: &str) -> (r: Vec<Fragment>)
    ensures
        r@.map_values(|f: Fragment| fragment_view(f)) == fragments_of(
            manager,
            venue,
            slug@,
            semver_text(semver_model(*version)),
        ),
{
    let v = version.to_text();
    let ghost vt = v@;
    let mut out: Vec<Fragment> = Vec::new();
    if !matches!(verdict(manager, venue), Verdict::Renders) {
        assert(out@.map_values(|f: Fragment| fragment_view(f)) =~= fragments_of(manager, venue, slug@, vt));
        return out;
    }
    match (manager, venue) {
        (Manager::Flake, Venue::Flake) => {
            let r = flake_ref_of(slug, v.as_str());
            let mut input = owned(FLAKE_INPUT);
            append(&mut input, " = {\n  url = \"");
            append(&mut input, r.as_str());
            append(&mut input, "\";\n  inputs.nixpkgs.follows = \"nixpkgs\";\n};\n");
            out.push(fragment("flake.nix", "inputs = {", "inside the inputs attribute set", input));
            let mut placement = owned("inside the devshell's packages list, with `");
            append(&mut placement, FLAKE_INPUT);
            append(&mut placement, "` added to the outputs arguments");
            let mut package = owned(FLAKE_INPUT);
            append(&mut package, ".packages.${system}.default\n");
            out.push(fragment("flake.nix", "packages = [", placement.as_str(), package));
        },
        (Manager::Mise, Venue::Crates) => {
            let mut text = owned("\"cargo:");
            append(&mut text, CRATE_NAME);
            append(&mut text, "\" = \"");
            append(&mut text, v.as_str());
            append(&mut text, "\"\n");
            out.push(fragment("mise.toml", "[tools]", "under the tools table", text));
        },
        (Manager::Mise, Venue::GithubRelease) => {
            let mut text = owned("\"ubi:");
            append(&mut text, slug);
            append(&mut text, "\" = { version = \"");
            append(&mut text, v.as_str());
            append(&mut text, "\", exe = \"");
            append(&mut text, BINARY_NAME);
            append(&mut text, "\" }\n");
            out.push(fragment("mise.toml", "[tools]", "under the tools table", text));
        },
        (Manager::Devbox, Venue::Flake) => {
            let r = flake_ref_of(slug, v.as_str());
            let mut text = owned("\"");
            append(&mut text, r.as_str());
            append(&mut text, "#default\"\n");
            out.push(fragment("devbox.json", "\"packages\": [", "inside the packages array", text));
        },
        _ => {},
    }
    assert(out@.map_values(|f: Fragment| fragment_view(f)) =~= fragments_of(manager, venue, slug@, vt));
    out
}

/// The whole flake a seed writes.
pub open spec fn flake_seed(slug: Seq<char>, version: Seq<char>) -> Seq<char> {
    "{\n  description = \"Development shell\";\n\n  inputs = {\n    nixpkgs.url = \"github:NixOS/nixpkgs/nixos-unstable\";\n    "@
        + FLAKE_INPUT@ + " = {\n      # Moved by `"@ + SYNC_LINE@ + "` from "@ + ENVRC@
        + ": the tag in this URL is the\n      # version, and flake.lock is the content pin.\n      url = \""@
        + flake_ref(slug, version)
        + "\";\n      inputs.nixpkgs.follows = \"nixpkgs\";\n    };\n  };\n\n  outputs =\n    { nixpkgs, "@
        + FLAKE_INPUT@
        + ", ... }:\n    let\n      system = \"x86_64-linux\";\n      pkgs = nixpkgs.legacyPackages.${system};\n    in\n    {\n      devShells.${system}.default = pkgs.mkShell {\n        packages = [\n          "@
        + FLAKE_INPUT@ + ".packages.${system}.default\n        ];\n      };\n    };\n}\n"@
}

/// The whole devbox file a seed writes.
pub open spec fn devbox_seed(slug: Seq<char>, version: Seq<char>) -> Seq<char> {
    "{\n  \"packages\": [\n    \""@ + flake_ref(slug, version) + "#default\"\n  ]\n}\n"@
}

/// The manager file a seed writes for one rendering pair, and its
/// contents; nothing for a manual pair.
pub open spec fn seed_of(manager: Manager, venue: Venue, slug: Seq<char>, version: Seq<char>) -> Option<
    (Seq<char>, Seq<char>),
> {
    match (manager, venue) {
        (Manager::Flake, Venue::Flake) => Some(("flake.nix"@, flake_seed(slug, version))),
        (Manager::Mise, Venue::Crates) => Some(("mise.toml"@, "[tools]\n"@ + mise_crate_text(version))),
        (Manager::Mise, Venue::GithubRelease) => Some(
            ("mise.toml"@, "[tools]\n"@ + mise_archive_text(slug, version)),
        ),
        (Manager::Devbox, Venue::Flake) => Some(("devbox.json"@, devbox_seed(slug, version))),
        _ => None,
    }
}

/// The whole manager file a seed writes for one rendering pair: the
/// manager's first file, holding the pin at `version`; nothing for a
/// manual pair.
pub fn seed(manager: Manager, venue: Venue, version: &SemVer, slug: &str) -> (r: Option<(String, String)>)
    ensures
        match seed_of(manager, venue, slug@, semver_text(semver_model(*version))) {
            Some((file, contents)) => r matches Some(p) && p.0@ == file && p.1@ == contents,
            None => r is None,
        },
{
    if !matches!(verdict(manager, venue), Verdict::Renders) {
        return None;
    }
    let files = manager.files();
    assert(files@.map_values(|f: &str| f@).len() == files@.len());
    if files.len() == 0 {
        return None;
    }
    let file = owned(files[0]);
    assert(file@ == crate::self_depend::manager::manager_files(manager)[0]);
    let v = version.to_text();
    match (manager, venue) {
        (Manager::Flake, Venue::Flake) => {
            let r = flake_ref_of(slug, v.as_str());
            let mut c = owned(
                "{\n  description = \"Development shell\";\n\n  inputs = {\n    nixpkgs.url = \"github:NixOS/nixpkgs/nixos-unstable\";\n    ",
            );
            append(&mut c, FLAKE_INPUT);
            append(&mut c, " = {\n      # Moved by `");
            append(&mut c, SYNC_LINE);
            append(&mut c, "` from ");
            append(&mut c, ENVRC);
            append(
                &mut c,
                ": the tag in this URL is the\n      # version, and flake.lock is the content pin.\n      url = \"",
            );
            append(&mut c, r.as_str());
            append(
                &mut c,
                "\";\n      inputs.nixpkgs.follows = \"nixpkgs\";\n    };\n  };\n\n  outputs =\n    { nixpkgs, ",
            );
            append(&mut c, FLAKE_INPUT);
            append(
                &mut c,
                ", ... }:\n    let\n      system = \"x86_64-linux\";\n      pkgs = nixpkgs.legacyPackages.${system};\n    in\n    {\n      devShells.${system}.default = pkgs.mkShell {\n        packages = [\n          ",
            );
            append(&mut c, FLAKE_INPUT);
            append(&mut c, ".packages.${system}.default\n        ];\n      };\n    };\n}\n");
            Some((file, c))
        },
        (Manager::Mise, _) => {
            let rendered = render(manager, venue, version, slug);
            let mut c = owned("[tools]\n");
            assert(rendered@.map_values(|f: Fragment| fragment_view(f)).len() == rendered@.len());
            assert(rendered@.len() == 1);
            let mut i: usize = 0;
            while i < rendered.len()
                invariant
                    i <= rendered.len(),
                    rendered@.map_values(|f: Fragment| fragment_view(f)) == fragments_of(
                        manager,
                        venue,
                        slug@,
                        semver_text(semver_model(*version)),
                    ),
                    manager == Manager::Mise,
                    venue == Venue::Crates || venue == Venue::GithubRelease,
                    i == 0 ==> c@ == "[tools]\n"@,
                    rendered@.len() == 1,
                    i == 1 ==> c@ == "[tools]\n"@ + rendered@[0].text@,
                decreases rendered.len() - i,
            {
                append(&mut c, rendered[i].text.as_str());
                i += 1;
            }
            assert(fragment_view(rendered@[0]) == fragments_of(manager, venue, slug@, semver_text(semver_model(*version)))[0]);
            Some((file, c))
        },
        (Manager::Devbox, Venue::Flake) => {
            let r = flake_ref_of(slug, v.as_str());
            let mut c = owned("{\n  \"packages\": [\n    \"");
            append(&mut c, r.as_str());
            append(&mut c, "#default\"\n  ]\n}\n");
            Some((file, c))
        },
        _ => None,
    }
}

/// The shell-entry line, as a fragment: the sync line, after the line
/// that loads the environment.
pub fn envrc_fragment() -> (f: Fragment)
    ensures
        f.file@ == ENVRC@,
        f.anchor@ == "use flake"@,
        f.placement@ == "after the line that loads the environment"@,
        f.text@ == SYNC_LINE@ + "\n"@,
{
    let mut text = owned(SYNC_LINE);
    append(&mut text, "\n");
    Fragment {
        file: owned(ENVRC),
        anchor: owned("use flake"),
        placement: owned("after the line that loads the environment"),
        text,
    }
}

/// The whole shell loader a seed writes, for the flake pair alone: it
/// loads the flake, says what the sync line does, and runs it once.
pub fn envrc_seed() -> (s: String)
    ensures
        s@ == "use flake\n\n# Move the "@ + CRATE_NAME@
            + " pin to its latest release. The verb owns the\n# transaction over flake.nix and flake.lock, attempts at most once a day,\n# stays silent, exits 0 on every outcome, and leaves a diff for review.\n"@
            + SYNC_LINE@ + "\n"@,
{
    let mut s = owned("use flake\n\n# Move the ");
    append(&mut s, CRATE_NAME);
    append(
        &mut s,
        " pin to its latest release. The verb owns the\n# transaction over flake.nix and flake.lock, attempts at most once a day,\n# stays silent, exits 0 on every outcome, and leaves a diff for review.\n",
    );
    append(&mut s, SYNC_LINE);
    append(&mut s, "\n");
    s
}

} // verus!
