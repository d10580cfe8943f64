//! Render a registry of gates as the managed pre-commit block.
//!
//! The registry is the one declaration and this is its one delivery: the
//! block an instance's configuration carries, rendered at install time and
//! never committed anywhere in between. A gate reaches an instance because
//! it is in the registry, so it cannot reach the payload and miss the
//! wiring. The registry's rows are handed in; where the output lands is
//! the caller's.

use vstd::prelude::*;

use crate::self_depend::{strip_leading, strip_trailing};
use crate::text::{
    append, chars_of, first_index_from, joined, first_occurrence, owned, push_char, replace_all,
    replace_text,
};

verus! {

/// The pre-commit language every entry declares.
pub const LANGUAGE: &'static str = "system";

/// The line that opens the managed block.
pub const BEGIN: &'static str = "# BEGIN spec-driven-docs managed";

/// The line that closes the managed block.
pub const END: &'static str = "# END spec-driven-docs managed";

/// Everything a render depends on.
#[derive(Debug, Clone)]
pub struct RenderOptions {
    /// What replaces `{docs_root}` in wiring patterns — the literal root
    /// the instance's profile selected.
    pub docs_root: String,
    /// The command prefix an entry invokes, e.g. `sdd` or `cargo run -q --`.
    pub entry: String,
    /// The sequence-item indentation of the consumer's `repos:` entries.
    pub indent: String,
}

impl Default for RenderOptions {
    fn default() -> (o: RenderOptions)
        ensures
            o.docs_root@ == "_docs"@,
            o.entry@ == "sdd"@,
            o.indent@ == "  "@,
    {
        RenderOptions { docs_root: owned("_docs"), entry: owned("sdd"), indent: owned("  ") }
    }
}

/// One row of a registry of gates, as far as its wiring goes.
#[derive(Debug, Clone)]
pub struct Gate {
    /// Its identifier.
    pub id: String,
    /// The name a person reads.
    pub name: String,
    /// The globs of the files it judges.
    pub files: Vec<String>,
    /// The globs of the files it leaves alone.
    pub exclude: Vec<String>,
    /// The pre-commit file types it takes, where it names them.
    pub types: Option<String>,
    /// Whether it runs on every commit, taking no filenames.
    pub always_run: bool,
}

/// A single-quoted YAML scalar, an apostrophe escaped by doubling it.
pub open spec fn quoted_spec(value: Seq<char>) -> Seq<char> {
    "'"@ + replace_all(value, "'"@, "''"@) + "'"@
}

/// A single-quoted YAML scalar; an apostrophe is escaped by doubling it.
pub fn quoted(value: &str) -> (r: String)
    ensures
        r@ == quoted_spec(value@),
{
    proof {
        reveal_strlit("'");
    }
    let mut r = owned("'");
    append(&mut r, replace_text(value, "'", "''").as_str());
    append(&mut r, "'");
    r
}

/// A wiring pattern with the documentation root put in.
pub open spec fn substituted(pattern: Seq<char>, docs_root: Seq<char>) -> Seq<char> {
    replace_all(pattern, "{docs_root}"@, docs_root)
}

/// A wiring pattern with the documentation root put in.
pub fn substitute_root(pattern: &str, docs_root: &str) -> (r: String)
    ensures
        r@ == substituted(pattern@, docs_root@),
{
    proof {
        reveal_strlit("{docs_root}");
    }
    replace_text(pattern, "{docs_root}", docs_root)
}

/// Whether a character means something in a regex.
pub open spec fn regex_special(c: char) -> bool {
    c == '.' || c == '^' || c == '$' || c == '+' || c == '(' || c == ')' || c == '|' || c == '['
        || c == ']' || c == '{' || c == '}' || c == '\\' || c == '*' || c == '?'
}

/// One literal character, as a regex writes it.
pub open spec fn escaped_char(c: char) -> Seq<char> {
    if regex_special(c) {
        seq!['\\', c]
    } else {
        seq![c]
    }
}

fn escape(out: &mut String, ch: char)
    ensures
        final(out)@ == old(out)@ + escaped_char(ch),
{
    if ch == '.' || ch == '^' || ch == '$' || ch == '+' || ch == '(' || ch == ')' || ch == '|'
        || ch == '[' || ch == ']' || ch == '{' || ch == '}' || ch == '\\' || ch == '*' || ch == '?' {
        push_char(out, '\\');
    }
    push_char(out, ch);
    assert(out@ =~= old(out)@ + escaped_char(ch));
}

/// The regex body one glob projects onto, read token by token: `**/`
/// matches any leading directories, `**` anything, `*` and `?` within one
/// component, a class is kept with `!` read as negation, a brace is an
/// alternation of its comma-separated branches, and everything else is a
/// literal.
pub open spec fn glob_body(g: Seq<char>) -> Seq<char>
    decreases g.len(), 0int,
{
    if g.len() == 0 {
        Seq::empty()
    } else if g[0] == '*' && g.len() > 1 && g[1] == '*' {
        if g.len() > 2 && g[2] == '/' {
            "(?:.*/)?"@ + glob_body(g.skip(3))
        } else {
            ".*"@ + glob_body(g.skip(2))
        }
    } else if g[0] == '*' {
        "[^/]*"@ + glob_body(g.skip(1))
    } else if g[0] == '?' {
        "[^/]"@ + glob_body(g.skip(1))
    } else if g[0] == '[' {
        match first_index_from(g, ']', 0) {
            Some(c) => if 0 < c < g.len() {
                (if g.len() > 1 && g[1] == '!' {
                    "[^"@ + g.subrange(2, c)
                } else {
                    "["@ + g.subrange(1, c)
                }) + "]"@ + glob_body(g.skip(c + 1))
            } else {
                Seq::empty()
            },
            None => "\\["@ + glob_body(g.skip(1)),
        }
    } else if g[0] == '{' {
        match first_index_from(g, '}', 0) {
            Some(c) => if 0 < c < g.len() {
                "(?:"@ + branches(g.subrange(1, c)) + ")"@ + glob_body(g.skip(c + 1))
            } else {
                Seq::empty()
            },
            None => "\\{"@ + glob_body(g.skip(1)),
        }
    } else {
        escaped_char(g[0]) + glob_body(g.skip(1))
    }
}

/// The anchored regex one glob projects onto.
pub open spec fn glob_regex(g: Seq<char>) -> Seq<char>
    decreases g.len(), 1int,
{
    "^"@ + glob_body(g) + "$"@
}

/// The alternation of a brace's comma-separated branches, each branch's
/// regex with its anchors trimmed.
pub open spec fn branches(s: Seq<char>) -> Seq<char>
    decreases s.len(), 2int,
{
    match first_index_from(s, ',', 0) {
        None => strip_trailing(strip_leading(glob_regex(s), "^"@), "$"@),
        Some(k) => if 0 <= k < s.len() {
            strip_trailing(strip_leading(glob_regex(s.take(k)), "^"@), "$"@) + "|"@ + branches(
                s.skip(k + 1),
            )
        } else {
            Seq::empty()
        },
    }
}

fn sub_chars(v: &Vec<char>, from: usize, to: usize) -> (r: Vec<char>)
    requires
        from <= to <= v.len(),
    ensures
        r@ == v@.subrange(from as int, to as int),
{
    let mut r: Vec<char> = Vec::new();
    let mut i = from;
    while i < to
        invariant
            from <= i <= to <= v.len(),
            r@ == v@.subrange(from as int, i as int),
        decreases to - i,
    {
        r.push(v[i]);
        assert(v@.subrange(from as int, i + 1) =~= v@.subrange(from as int, i as int).push(v@[i as int]));
        i += 1;
    }
    r
}

fn push_all(out: &mut String, v: &Vec<char>)
    ensures
        final(out)@ == old(out)@ + v@,
{
    let s = crate::text::string_of_all(v);
    append(out, s.as_str());
}

/// A branch's regex with its anchors trimmed.
fn unanchored(g: &Vec<char>) -> (r: Vec<char>)
    ensures
        r@ == strip_trailing(strip_leading(glob_regex(g@), "^"@), "$"@),
    decreases g@.len(), 2int,
{
    let whole = glob_to_regex(g);
    let v = chars_of(whole.as_str());
    let caret = chars_of("^");
    let dollar = chars_of("$");
    let start = crate::self_depend::strip_all_leading(&v, 0, &caret);
    assert(v@.skip(0) =~= v@);
    let end = crate::self_depend::strip_all_trailing(&v, start, v.len(), &dollar);
    assert(v@.subrange(start as int, v.len() as int) =~= v@.skip(start as int));
    sub_chars(&v, start, end)
}

/// The alternation of a brace's comma-separated branches.
fn branches_regex(s: &Vec<char>) -> (r: String)
    ensures
        r@ == branches(s@),
    decreases s@.len(), 3int,
{
    proof {
        crate::text::lemma_first_index_from(s@, ',', 0);
    }
    match crate::text::find_char_from(s, ',', 0) {
        None => {
            let piece = unanchored(s);
            crate::text::string_of_all(&piece)
        },
        Some(k) => {
            let head = sub_chars(s, 0, k);
            let tail = sub_chars(s, k + 1, s.len());
            assert(head@ =~= s@.take(k as int));
            assert(tail@ =~= s@.skip(k + 1));
            let piece = unanchored(&head);
            let mut r = crate::text::string_of_all(&piece);
            append(&mut r, "|");
            let rest = branches_regex(&tail);
            append(&mut r, rest.as_str());
            r
        },
    }
}

/// Project one glob onto a Python regex for pre-commit's `files:` field.
///
/// The rendered selection matches every path the matcher judges and may
/// match more: the matcher stays authoritative at runtime and drops the
/// excess, which makes a lossy projection cost a wasted invocation and
/// never a missed violation. The grammar handled is `*`, `**`, `?`, a
/// character class, a brace alternation, and literals.
pub fn glob_to_regex(g: &Vec<char>) -> (r: String)
    ensures
        r@ == glob_regex(g@),
    decreases g@.len(), 1int,
{
    let mut out = owned("^");
    let ghost start = out@;
    let mut i: usize = 0;
    proof {
        reveal_strlit("^");
        assert(g@.skip(0) =~= g@);
        assert(out@.skip(1) =~= Seq::<char>::empty());
    }
    while i < g.len()
        invariant
            i <= g.len(),
            start == "^"@,
            glob_body(g@) == out@.skip(1) + glob_body(g@.skip(i as int)),
            out@.len() >= 1,
            out@.take(1) == start,
        decreases g.len() - i,
    {
        let rest = sub_chars(g, i, g.len());
        assert(rest@ =~= g@.skip(i as int));
        let ghost before = out@;
        let step: usize;
        if rest[0] == '*' && rest.len() > 1 && rest[1] == '*' {
            if rest.len() > 2 && rest[2] == '/' {
                append(&mut out, "(?:.*/)?");
                step = 3;
            } else {
                append(&mut out, ".*");
                step = 2;
            }
        } else if rest[0] == '*' {
            append(&mut out, "[^/]*");
            step = 1;
        } else if rest[0] == '?' {
            append(&mut out, "[^/]");
            step = 1;
        } else if rest[0] == '[' {
            proof {
                crate::text::lemma_first_index_from(rest@, ']', 0);
            }
            match crate::text::find_char_from(&rest, ']', 0) {
                Some(c) => {
                    if rest.len() > 1 && rest[1] == '!' {
                        append(&mut out, "[^");
                        push_all(&mut out, &sub_chars(&rest, 2, c));
                    } else {
                        append(&mut out, "[");
                        push_all(&mut out, &sub_chars(&rest, 1, c));
                    }
                    append(&mut out, "]");
                    step = c + 1;
                },
                None => {
                    append(&mut out, "\\[");
                    step = 1;
                },
            }
        } else if rest[0] == '{' {
            proof {
                crate::text::lemma_first_index_from(rest@, '}', 0);
            }
            match crate::text::find_char_from(&rest, '}', 0) {
                Some(c) => {
                    append(&mut out, "(?:");
                    let inner = sub_chars(&rest, 1, c);
                    let alternatives = branches_regex(&inner);
                    append(&mut out, alternatives.as_str());
                    append(&mut out, ")");
                    step = c + 1;
                },
                None => {
                    append(&mut out, "\\{");
                    step = 1;
                },
            }
        } else {
            escape(&mut out, rest[0]);
            step = 1;
        }
        proof {
            assert(rest@.skip(step as int) =~= g@.skip(i + step));
            assert(out@.skip(1) =~= before.skip(1) + (out@.subrange(before.len() as int, out@.len() as int)));
            assert(out@.take(1) =~= before.take(1));
        }
        i = i + step;
    }
    append(&mut out, "$");
    proof {
        assert(g@.skip(i as int).len() == 0);
        assert(out@ =~= glob_regex(g@));
    }
    out
}

/// The regex each glob projects onto, the root put in first.
pub open spec fn projected(globs: Seq<Seq<char>>, docs_root: Seq<char>) -> Seq<Seq<char>> {
    globs.map_values(|g: Seq<char>| glob_regex(substituted(g, docs_root)))
}

/// Regexes with their anchors trimmed, joined into one alternation body.
pub open spec fn alternation(rs: Seq<Seq<char>>) -> Seq<char>
    decreases rs.len(),
{
    if rs.len() == 0 {
        Seq::empty()
    } else if rs.len() == 1 {
        strip_trailing(strip_leading(rs[0], "^"@), "$"@)
    } else {
        alternation(rs.drop_last()) + "|"@ + strip_trailing(strip_leading(rs.last(), "^"@), "$"@)
    }
}

/// The one regex many globs render as: none for no globs, the glob's own
/// regex for one, and one anchored alternation for more.
pub open spec fn patterns_of(globs: Seq<Seq<char>>, docs_root: Seq<char>) -> Option<Seq<char>> {
    let rs = projected(globs, docs_root);
    if rs.len() == 0 {
        None
    } else if rs.len() == 1 {
        Some(rs[0])
    } else {
        Some("^(?:"@ + alternation(rs) + ")$"@)
    }
}

/// Project many globs onto one alternation, as pre-commit takes one regex.
pub fn render_patterns(globs: &[&str], docs_root: &str) -> (r: Option<String>)
    ensures
        match r {
            Some(x) => patterns_of(globs@.map_values(|g: &str| g@), docs_root@) == Some(x@),
            None => patterns_of(globs@.map_values(|g: &str| g@), docs_root@) is None,
        },
{
    let ghost gv = globs@.map_values(|g: &str| g@);
    let ghost rs = projected(gv, docs_root@);
    if globs.len() == 0 {
        return None;
    }
    let first = glob_to_regex(&chars_of(substitute_root(globs[0], docs_root).as_str()));
    assert(rs[0] == first@);
    if globs.len() == 1 {
        return Some(first);
    }
    let mut body = String::new();
    let mut i: usize = 0;
    let caret = chars_of("^");
    let dollar = chars_of("$");
    while i < globs.len()
        invariant
            i <= globs.len(),
            gv == globs@.map_values(|g: &str| g@),
            rs == projected(gv, docs_root@),
            rs.len() == globs@.len(),
            caret@ == "^"@,
            dollar@ == "$"@,
            body@ == alternation(rs.take(i as int)),
        decreases globs.len() - i,
    {
        let one = glob_to_regex(&chars_of(substitute_root(globs[i], docs_root).as_str()));
        assert(rs[i as int] == one@);
        let v = chars_of(one.as_str());
        let start = crate::self_depend::strip_all_leading(&v, 0, &caret);
        assert(v@.skip(0) =~= v@);
        let end = crate::self_depend::strip_all_trailing(&v, start, v.len(), &dollar);
        assert(v@.subrange(start as int, v.len() as int) =~= v@.skip(start as int));
        if i > 0 {
            append(&mut body, "|");
        }
        push_all(&mut body, &sub_chars(&v, start, end));
        proof {
            let t = rs.take(i + 1);
            assert(t.drop_last() =~= rs.take(i as int));
            assert(t.last() == one@);
            if i == 0 {
                assert(rs.take(0).len() == 0);
            }
            assert(body@ =~= alternation(t));
        }
        i += 1;
    }
    assert(rs.take(i as int) =~= rs);
    let mut r = owned("^(?:");
    append(&mut r, body.as_str());
    append(&mut r, ")$");
    Some(r)
}

/// The lines that open a gate's entry: its id, name, entry and language.
pub open spec fn head_text(gate: Gate, indent: Seq<char>, entry: Seq<char>) -> Seq<char> {
    let item = indent + "    - "@;
    let field = indent + "      "@;
    item + "id: "@ + gate.id@ + "\n"@ + field + "name: "@ + quoted_spec(gate.name@) + "\n"@ + field
        + "entry: "@ + entry + " gate "@ + gate.id@ + "\n"@ + field + "language: "@ + LANGUAGE@
        + "\n"@
}

/// One selector line, where the globs render as anything.
pub open spec fn selector_text(field: Seq<char>, key: Seq<char>, globs: Seq<String>, docs_root: Seq<char>) -> Seq<char> {
    match patterns_of(crate::text::views_of(globs), docs_root) {
        Some(f) => field + key + quoted_spec(f) + "\n"@,
        None => Seq::empty(),
    }
}

/// The lines one gate renders as, with the item and field indentation
/// of the options. A gate that always runs takes no filenames, so it
/// carries no selector lines.
pub open spec fn gate_text(gate: Gate, indent: Seq<char>, entry: Seq<char>, docs_root: Seq<char>) -> Seq<char> {
    let field = indent + "      "@;
    let files: Seq<char> = if !gate.always_run {
        selector_text(field, "files: "@, gate.files@, docs_root)
    } else {
        Seq::empty()
    };
    let types: Seq<char> = match gate.types {
        Some(t) => field + "types: ["@ + t@ + "]\n"@,
        None => Seq::empty(),
    };
    let exclude: Seq<char> = if !gate.always_run {
        selector_text(field, "exclude: "@, gate.exclude@, docs_root)
    } else {
        Seq::empty()
    };
    let always: Seq<char> = if gate.always_run {
        field + "always_run: true\n"@ + field + "pass_filenames: false\n"@
    } else {
        Seq::empty()
    };
    head_text(gate, indent, entry) + files + types + exclude + always
}

fn head_lines(gate: &Gate, options: &RenderOptions) -> (r: String)
    ensures
        r@ == head_text(*gate, options.indent@, options.entry@),
{
    let mut text = owned(options.indent.as_str());
    append(&mut text, "    - ");
    append(&mut text, "id: ");
    append(&mut text, gate.id.as_str());
    append(&mut text, "\n");
    append(&mut text, options.indent.as_str());
    append(&mut text, "      ");
    append(&mut text, "name: ");
    append(&mut text, quoted(gate.name.as_str()).as_str());
    append(&mut text, "\n");
    append(&mut text, options.indent.as_str());
    append(&mut text, "      ");
    append(&mut text, "entry: ");
    append(&mut text, options.entry.as_str());
    append(&mut text, " gate ");
    append(&mut text, gate.id.as_str());
    append(&mut text, "\n");
    append(&mut text, options.indent.as_str());
    append(&mut text, "      ");
    append(&mut text, "language: ");
    append(&mut text, LANGUAGE);
    append(&mut text, "\n");
    assert(text@ =~= head_text(*gate, options.indent@, options.entry@));
    text
}

fn selector_line(field: &str, key: &str, globs: &Vec<String>, docs_root: &str) -> (r: String)
    ensures
        r@ == selector_text(field@, key@, globs@, docs_root@),
{
    let refs = str_refs(globs);
    match render_patterns(&refs, docs_root) {
        Some(f) => {
            let mut text = owned(field);
            append(&mut text, key);
            append(&mut text, quoted(f.as_str()).as_str());
            append(&mut text, "\n");
            text
        },
        None => String::new(),
    }
}

/// Every gate's lines, in registry order.
pub open spec fn gates_text(gates: Seq<Gate>, indent: Seq<char>, entry: Seq<char>, docs_root: Seq<char>) -> Seq<char>
    decreases gates.len(),
{
    if gates.len() == 0 {
        Seq::empty()
    } else {
        gates_text(gates.drop_last(), indent, entry, docs_root) + gate_text(gates.last(), indent, entry, docs_root)
    }
}

fn str_refs(v: &Vec<String>) -> (r: Vec<&str>)
    ensures
        r@.map_values(|g: &str| g@) == crate::text::views_of(v@),
{
    let mut r: Vec<&str> = Vec::new();
    let mut i: usize = 0;
    while i < v.len()
        invariant
            i <= v.len(),
            r@.len() == i,
            forall|j: int| 0 <= j < i ==> #[trigger] r@[j]@ == v@[j]@,
        decreases v.len() - i,
    {
        r.push(v[i].as_str());
        i += 1;
    }
    assert(r@.map_values(|g: &str| g@) =~= crate::text::views_of(v@));
    r
}

fn render_gate(out: &mut String, gate: &Gate, options: &RenderOptions)
    ensures
        final(out)@ == old(out)@ + gate_text(*gate, options.indent@, options.entry@, options.docs_root@),
{
    let mut field = owned(options.indent.as_str());
    append(&mut field, "      ");
    let head = head_lines(gate, options);
    let files = if !gate.always_run {
        selector_line(field.as_str(), "files: ", &gate.files, options.docs_root.as_str())
    } else {
        String::new()
    };
    let mut types = String::new();
    if let Some(t) = &gate.types {
        append(&mut types, field.as_str());
        append(&mut types, "types: [");
        append(&mut types, t.as_str());
        append(&mut types, "]\n");
    }
    let exclude = if !gate.always_run {
        selector_line(field.as_str(), "exclude: ", &gate.exclude, options.docs_root.as_str())
    } else {
        String::new()
    };
    let mut always = String::new();
    if gate.always_run {
        append(&mut always, field.as_str());
        append(&mut always, "always_run: true\n");
        append(&mut always, field.as_str());
        append(&mut always, "pass_filenames: false\n");
    }
    let ghost before = out@;
    append(out, head.as_str());
    append(out, files.as_str());
    append(out, types.as_str());
    append(out, exclude.as_str());
    append(out, always.as_str());
    assert(out@ =~= before + (head@ + files@ + types@ + exclude@ + always@));
}

/// Render each gate's entry alone, without the markers or the verifier.
pub fn render_gates(options: &RenderOptions, gates: &[Gate]) -> (r: String)
    ensures
        r@ == gates_text(gates@, options.indent@, options.entry@, options.docs_root@),
{
    let mut out = String::new();
    let mut i: usize = 0;
    while i < gates.len()
        invariant
            i <= gates.len(),
            out@ == gates_text(gates@.take(i as int), options.indent@, options.entry@, options.docs_root@),
        decreases gates.len() - i,
    {
        render_gate(&mut out, &gates[i], options);
        proof {
            let t = gates@.take(i + 1);
            assert(t.drop_last() =~= gates@.take(i as int));
            assert(t.last() == gates@[i as int]);
        }
        i += 1;
    }
    assert(gates@.take(i as int) =~= gates@);
    out
}

/// The complete managed block: the markers, the verifier hook, and every
/// gate.
pub open spec fn block_text(gates: Seq<Gate>, indent: Seq<char>, entry: Seq<char>, docs_root: Seq<char>) -> Seq<char> {
    BEGIN@ + "\n"@ + indent + "- repo: local\n"@ + indent + "  hooks:\n"@ + indent
        + "    - id: spec-driven-docs-verify\n"@ + indent
        + "      name: verify spec-driven docs instance\n"@ + indent + "      entry: "@ + entry
        + " verify\n"@ + indent + "      language: "@ + LANGUAGE@ + "\n"@ + indent
        + "      always_run: true\n"@ + indent + "      pass_filenames: false\n"@ + gates_text(
        gates,
        indent,
        entry,
        docs_root,
    ) + END@ + "\n"@
}

/// Render the complete managed block an instance's configuration carries:
/// markers, the verifier hook, and every gate of the registry handed in.
pub fn render_block(options: &RenderOptions, gates: &[Gate]) -> (r: String)
    ensures
        r@ == block_text(gates@, options.indent@, options.entry@, options.docs_root@),
{
    let indent = options.indent.as_str();
    let mut out = owned(BEGIN);
    append(&mut out, "\n");
    append(&mut out, indent);
    append(&mut out, "- repo: local\n");
    append(&mut out, indent);
    append(&mut out, "  hooks:\n");
    append(&mut out, indent);
    append(&mut out, "    - id: spec-driven-docs-verify\n");
    append(&mut out, indent);
    append(&mut out, "      name: verify spec-driven docs instance\n");
    append(&mut out, indent);
    append(&mut out, "      entry: ");
    append(&mut out, options.entry.as_str());
    append(&mut out, " verify\n");
    append(&mut out, indent);
    append(&mut out, "      language: ");
    append(&mut out, LANGUAGE);
    append(&mut out, "\n");
    append(&mut out, indent);
    append(&mut out, "      always_run: true\n");
    append(&mut out, indent);
    append(&mut out, "      pass_filenames: false\n");
    append(&mut out, render_gates(options, gates).as_str());
    append(&mut out, END);
    append(&mut out, "\n");
    assert(out@ =~= block_text(gates@, options.indent@, options.entry@, options.docs_root@));
    out
}

/// The pieces of a brace's body between its commas, as `str::split(',')`
/// yields them: one more piece than there are commas, empty ones kept.
pub open spec fn comma_branches(s: Seq<char>) -> Seq<Seq<char>>
    decreases s.len(),
{
    if s.len() == 0 {
        seq![Seq::<char>::empty()]
    } else {
        let parts = comma_branches(s.drop_last());
        if s.last() == ',' {
            parts.push(Seq::empty())
        } else {
            parts.update(parts.len() - 1, parts.last().push(s.last()))
        }
    }
}

/// One branch's regex with its anchors trimmed, as it stands inside an
/// alternation.
pub open spec fn branch_regex(b: Seq<char>) -> Seq<char> {
    strip_trailing(strip_leading(glob_regex(b), "^"@), "$"@)
}

proof fn lemma_comma_branches_len(s: Seq<char>)
    ensures
        comma_branches(s).len() >= 1,
    decreases s.len(),
{
    if s.len() > 0 {
        lemma_comma_branches_len(s.drop_last());
    }
}

proof fn lemma_no_comma(s: Seq<char>)
    requires
        forall|j: int| 0 <= j < s.len() ==> s[j] != ',',
    ensures
        comma_branches(s) == seq![s],
    decreases s.len(),
{
    if s.len() > 0 {
        lemma_no_comma(s.drop_last());
        assert(s.last() != ',');
        assert(s.drop_last().push(s.last()) =~= s);
        assert(seq![s.drop_last()].update(0, s.drop_last().push(s.last())) =~= seq![s]);
    } else {
        assert(s =~= Seq::<char>::empty());
    }
}

proof fn lemma_first_comma(p: Seq<char>, q: Seq<char>)
    requires
        forall|j: int| 0 <= j < p.len() ==> p[j] != ',',
    ensures
        comma_branches(p + seq![','] + q) == seq![p] + comma_branches(q),
    decreases q.len(),
{
    let s = p + seq![','] + q;
    lemma_comma_branches_len(q);
    if q.len() == 0 {
        assert(s.drop_last() =~= p);
        lemma_no_comma(p);
        assert(seq![p].push(Seq::<char>::empty()) =~= seq![p] + comma_branches(q));
    } else {
        assert(s.drop_last() =~= p + seq![','] + q.drop_last());
        lemma_first_comma(p, q.drop_last());
        lemma_comma_branches_len(q.drop_last());
        let qd = comma_branches(q.drop_last());
        assert(s.last() == q.last());
        if q.last() == ',' {
            assert((seq![p] + qd).push(Seq::<char>::empty()) =~= seq![p] + qd.push(Seq::<char>::empty()));
        } else {
            let whole = seq![p] + qd;
            assert(whole.update(whole.len() - 1, whole.last().push(s.last())) =~= seq![p] + qd.update(
                qd.len() - 1,
                qd.last().push(q.last()),
            ));
        }
    }
}

proof fn lemma_joined_front(a: Seq<char>, rest: Seq<Seq<char>>, sep: Seq<char>)
    requires
        rest.len() >= 1,
    ensures
        joined(seq![a] + rest, sep) == a + sep + joined(rest, sep),
    decreases rest.len(),
{
    let all = seq![a] + rest;
    if rest.len() == 1 {
        assert(all.drop_last() =~= seq![a]);
        assert(all.last() == rest[0]);
        assert(joined(seq![a], sep) == a);
        assert(joined(rest, sep) == rest[0]);
        assert(joined(all, sep) == joined(all.drop_last(), sep) + sep + all.last());
    } else {
        assert(all.drop_last() =~= seq![a] + rest.drop_last());
        lemma_joined_front(a, rest.drop_last(), sep);
        assert(all.last() == rest.last());
        assert(joined(all, sep) == joined(all.drop_last(), sep) + sep + all.last());
        assert(joined(rest, sep) == joined(rest.drop_last(), sep) + sep + rest.last());
        assert(joined(all, sep) =~= a + sep + joined(rest, sep));
    }
}

/// A brace renders as an alternation of exactly its comma-separated
/// branches, in order: as many alternatives as branches, each the regex
/// of its own branch with the anchors trimmed, joined by `|`.
pub proof fn law_a_brace_alternates_every_branch(s: Seq<char>)
    ensures
        branches(s) == joined(comma_branches(s).map_values(|b: Seq<char>| branch_regex(b)), "|"@),
        comma_branches(s).len() == 1 + s.filter(|c: char| c == ',').len(),
    decreases s.len(),
{
    lemma_branch_count(s);
    crate::text::lemma_first_index_from(s, ',', 0);
    match first_index_from(s, ',', 0) {
        None => {
            lemma_no_comma(s);
            assert(comma_branches(s).map_values(|b: Seq<char>| branch_regex(b)) =~= seq![branch_regex(s)]);
        },
        Some(k) => {
            let p = s.take(k);
            let q = s.skip(k + 1);
            assert(s =~= p + seq![','] + q);
            lemma_first_comma(p, q);
            law_a_brace_alternates_every_branch(q);
            lemma_comma_branches_len(q);
            let mq = comma_branches(q).map_values(|b: Seq<char>| branch_regex(b));
            assert(comma_branches(s).map_values(|b: Seq<char>| branch_regex(b)) =~= seq![branch_regex(p)] + mq);
            lemma_joined_front(branch_regex(p), mq, "|"@);
        },
    }
}

proof fn lemma_branch_count(s: Seq<char>)
    ensures
        comma_branches(s).len() == 1 + s.filter(|c: char| c == ',').len(),
    decreases s.len(),
{
    reveal(Seq::filter);
    if s.len() > 0 {
        lemma_branch_count(s.drop_last());
    }
}

proof fn lemma_close_at(g: Seq<char>, c: int, from: int)
    requires
        0 <= from <= c < g.len(),
        g[c] == '}',
        forall|j: int| from <= j < c ==> g[j] != '}',
    ensures
        first_index_from(g, '}', from) == Some(c),
    decreases c - from,
{
    if from < c {
        lemma_close_at(g, c, from + 1);
    }
}

/// A glob's brace renders, in place, as a non-capturing group of the
/// alternation of its branches, and the rest of the glob renders after
/// it as it would alone.
pub proof fn law_a_brace_renders_as_a_group_of_its_branches(body: Seq<char>, rest: Seq<char>)
    requires
        forall|j: int| 0 <= j < body.len() ==> body[j] != '}',
    ensures
        glob_body(seq!['{'] + body + seq!['}'] + rest) == "(?:"@ + joined(
            comma_branches(body).map_values(|b: Seq<char>| branch_regex(b)),
            "|"@,
        ) + ")"@ + glob_body(rest),
{
    let g = seq!['{'] + body + seq!['}'] + rest;
    let c: int = body.len() as int + 1;
    assert(g[0] == '{');
    assert(g[c] == '}');
    assert forall|j: int| 0 <= j < c implies g[j] != '}' by {
        if j > 0 {
            assert(g[j] == body[j - 1]);
        }
    }
    lemma_close_at(g, c, 0);
    assert(g.subrange(1, c) =~= body);
    assert(g.skip(c + 1) =~= rest);
    law_a_brace_alternates_every_branch(body);
}

} // verus!
