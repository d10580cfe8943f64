//! Render the managed documentation block for a root `AGENTS.md`.
//!
//! The block is the canonical documentation-routing section, wrapped in the
//! `AGENTS.md` markers with the profile's documentation root substituted and
//! the project's writing-style selection rendered as one route line, or as
//! no line where the selection is `none`. The installer places it; this
//! only produces the bytes. The snippet is the embedded one the caller
//! hands in, so the block and the snippet cannot drift.

use vstd::prelude::*;

use crate::instance_config::{route_of, WritingStyle};
use crate::self_depend::pin::{lines, lines_of};
use crate::self_depend::strip_trailing;
use crate::text::{replace_all, replace_text};
use crate::text::{append, owned, push_char};

verus! {

/// The line that opens the managed block.
pub const AGENTS_BEGIN: &'static str = "<!-- BEGIN spec-driven-docs docs -->";

/// The line that closes the managed block.
pub const AGENTS_END: &'static str = "<!-- END spec-driven-docs docs -->";

/// The list item that stands for the route in the snippet.
pub const ROUTE_PLACEHOLDER: &'static str = "- {writing_style}";

/// The route line for a selection, where it routes anywhere.
pub open spec fn route_line_of(w: WritingStyle) -> Option<Seq<char>> {
    match route_of(w) {
        Some(route) => Some("- Read the writing style before you author or edit prose: "@ + route + "."@),
        None => None,
    }
}

/// The one route line the block carries for a selection, or `None` where
/// the selection installs no route.
pub fn route_line(selection: &WritingStyle) -> (r: Option<String>)
    ensures
        match r {
            Some(x) => route_line_of(*selection) == Some(x@),
            None => route_line_of(*selection) is None,
        },
{
    match selection.route() {
        Some(route) => {
            let mut r = owned("- Read the writing style before you author or edit prose: ");
            append(&mut r, route.as_str());
            append(&mut r, ".");
            Some(r)
        },
        None => None,
    }
}

/// The snippet's lines, each followed by a newline, the placeholder line
/// replaced by the route line or dropped where there is none.
pub open spec fn block_body(ls: Seq<Seq<char>>, w: WritingStyle) -> Seq<char>
    decreases ls.len(),
{
    if ls.len() == 0 {
        Seq::empty()
    } else {
        let line = ls.last();
        block_body(ls.drop_last(), w) + if line == ROUTE_PLACEHOLDER@ {
            match route_line_of(w) {
                Some(route) => route + "\n"@,
                None => Seq::empty(),
            }
        } else {
            line + "\n"@
        }
    }
}

/// The marked block for a snippet, a documentation root and a selection.
pub open spec fn agents_block(snippet: Seq<char>, docs_root: Seq<char>, w: WritingStyle) -> Seq<char> {
    let ls = lines_of(replace_all(snippet, "{docs_root}"@, docs_root));
    AGENTS_BEGIN@ + "\n"@ + strip_trailing(block_body(ls, w), "\n"@) + "\n"@ + AGENTS_END@ + "\n"@
}

/// The complete marked block for the given snippet, documentation root
/// and writing-style selection, newline-terminated.
pub fn render_block(snippet: &str, docs_root: &str, selection: &WritingStyle) -> (r: String)
    ensures
        r@ == agents_block(snippet@, docs_root@, *selection),
{
    proof {
        reveal_strlit("{docs_root}");
    }
    let text = replace_text(snippet, "{docs_root}", docs_root);
    let ls = lines(text.as_str());
    let ghost lv = ls@.map_values(|l: Vec<char>| l@);
    let placeholder = crate::text::chars_of(ROUTE_PLACEHOLDER);
    let route = route_line(selection);
    let mut body = String::new();
    let mut i: usize = 0;
    while i < ls.len()
        invariant
            i <= ls.len(),
            lv == ls@.map_values(|l: Vec<char>| l@),
            placeholder@ == ROUTE_PLACEHOLDER@,
            match route {
                Some(x) => route_line_of(*selection) == Some(x@),
                None => route_line_of(*selection) is None,
            },
            body@ == block_body(lv.take(i as int), *selection),
        decreases ls.len() - i,
    {
        assert(lv[i as int] == ls@[i as int]@);
        let ghost before = body@;
        if crate::text::same_chars(&ls[i], &placeholder) {
            match &route {
                Some(line) => {
                    append(&mut body, line.as_str());
                    push_char(&mut body, '\n');
                },
                None => {},
            }
        } else {
            let piece = crate::text::string_of_all(&ls[i]);
            append(&mut body, piece.as_str());
            push_char(&mut body, '\n');
        }
        proof {
            reveal_strlit("\n");
            let t = lv.take(i + 1);
            assert(t.drop_last() =~= lv.take(i as int));
            assert(t.last() == lv[i as int]);
            assert(body@ =~= block_body(t, *selection));
        }
        i += 1;
    }
    assert(lv.take(i as int) =~= lv);
    let bv = crate::text::chars_of(body.as_str());
    let mut end = bv.len();
    proof {
        reveal_strlit("\n");
        assert(bv@.subrange(0, end as int) =~= bv@);
    }
    while end > 0 && bv[end - 1] == '\n'
        invariant
            end <= bv.len(),
            strip_trailing(bv@, "\n"@) == strip_trailing(bv@.subrange(0, end as int), "\n"@),
        decreases end,
    {
        proof {
            reveal_strlit("\n");
            let s = bv@.subrange(0, end as int);
            assert(s.subrange(s.len() - 1, s.len() as int) =~= "\n"@);
            assert(s.take(s.len() - 1) =~= bv@.subrange(0, end - 1));
        }
        end -= 1;
    }
    proof {
        reveal_strlit("\n");
        let s = bv@.subrange(0, end as int);
        if end > 0 {
            assert(s.subrange(s.len() - 1, s.len() as int) != "\n"@) by {
                assert(s.subrange(s.len() - 1, s.len() as int)[0] == bv@[end - 1]);
            }
        }
    }
    let trimmed = crate::text::string_of(&bv, 0, end);
    let mut r = owned(AGENTS_BEGIN);
    append(&mut r, "\n");
    append(&mut r, trimmed.as_str());
    append(&mut r, "\n");
    append(&mut r, AGENTS_END);
    append(&mut r, "\n");
    r
}

} // verus!
