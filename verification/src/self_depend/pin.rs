//! Where a manager file pins this tool.

use vstd::prelude::*;

use crate::self_depend::manager::Manager;
use crate::self_depend::tag::{parse_semver, semver_model, semver_reading, semver_text, without_v, SemVer};
use crate::self_depend::venue::Venue;
use crate::text::{
    append, chars_of, find_text, first_index_from, first_occurrence, has_prefix, is_space, owned, string_of,
};

verus! {

/// The pieces of a text between its newlines, empty ones included.
pub open spec fn split_newlines(s: Seq<char>) -> Seq<Seq<char>>
    decreases s.len(),
{
    match crate::text::first_index_from(s, '\n', 0) {
        None => seq![s],
        Some(i) => if 0 <= i < s.len() {
            seq![s.take(i)] + split_newlines(s.skip(i + 1))
        } else {
            seq![s]
        },
    }
}

/// A line without the carriage return that ends it, where one does.
pub open spec fn without_return(l: Seq<char>) -> Seq<char> {
    if l.len() > 0 && l.last() == '\r' {
        l.drop_last()
    } else {
        l
    }
}

/// The lines of a text, as `str::lines` yields them: split at each
/// newline, a carriage return before a newline removed, and the piece
/// after the last newline kept as it is unless it is empty.
pub open spec fn lines_of(s: Seq<char>) -> Seq<Seq<char>> {
    let pieces = split_newlines(s);
    let ended = pieces.drop_last().map_values(|l: Seq<char>| without_return(l));
    if pieces.last().len() == 0 {
        ended
    } else {
        ended.push(pieces.last())
    }
}

/// A text without its leading white space.
pub open spec fn trimmed_start(s: Seq<char>) -> Seq<char> {
    crate::text::trim_start_spec(s)
}

/// Whether a character may stand in an attribute name.
pub open spec fn ident_char(c: char) -> bool {
    ('a' <= c <= 'z') || ('A' <= c <= 'Z') || ('0' <= c <= '9') || c == '-' || c == '_'
}

/// The attribute a line opens before `suffix`: the name at the start of
/// the trimmed line, made of identifier characters, neither `url` nor
/// `inputs`; and, unless the suffix is `.url`, followed by `{` once the
/// suffix and white space after it are read past.
pub open spec fn attribute_before_spec(line: Seq<char>, suffix: Seq<char>) -> Option<Seq<char>> {
    let trimmed = trimmed_start(line);
    match first_occurrence(trimmed, suffix) {
        None => None,
        Some(end) => {
            let name = trimmed.take(end);
            let rest = trimmed_start(
                crate::self_depend::strip_leading(trimmed.skip(end), suffix),
            );
            if name.len() == 0 || !(forall|i: int| 0 <= i < name.len() ==> ident_char(#[trigger] name[i]))
                || name == "url"@ || name == "inputs"@ {
                None
            } else if suffix != ".url"@ && !(rest.len() > 0 && rest[0] == '{') {
                None
            } else {
                Some(name)
            }
        },
    }
}

/// The last line before `at`, searching backwards, that opens an
/// attribute before `suffix`.
pub open spec fn attribute_above(lines: Seq<Seq<char>>, at: int, suffix: Seq<char>) -> Option<Seq<char>>
    decreases at,
{
    if at <= 0 {
        None
    } else {
        match attribute_before_spec(lines[at - 1], suffix) {
            Some(n) => Some(n),
            None => attribute_above(lines, at - 1, suffix),
        }
    }
}

/// The first line that holds `needle`.
pub open spec fn line_holding(lines: Seq<Seq<char>>, needle: Seq<char>, from: int) -> Option<int>
    decreases lines.len() - from,
{
    if from < 0 || from >= lines.len() {
        None
    } else if first_occurrence(lines[from], needle) is Some {
        Some(from)
    } else {
        line_holding(lines, needle, from + 1)
    }
}

/// The name of the flake input whose URL names this tool: read from the
/// line holding the URL where it reads `name.url = ...`, and otherwise from
/// the nearest line above that opens `name = {`, first with a space before
/// the `=` and then without.
pub open spec fn input_name_of(flake: Seq<char>, slug: Seq<char>) -> Option<Seq<char>> {
    let needle = "github:"@ + slug + "/"@;
    let lines = lines_of(flake);
    match line_holding(lines, needle, 0) {
        None => None,
        Some(at) => match attribute_before_spec(lines[at], ".url"@) {
            Some(n) => Some(n),
            None => match attribute_above(lines, at, " ="@) {
                Some(n) => Some(n),
                None => attribute_above(lines, at, "="@),
            },
        },
    }
}

pub(crate) fn lines(text: &str) -> (r: Vec<Vec<char>>)
    ensures
        r@.map_values(|l: Vec<char>| l@) == lines_of(text@),
{
    let v = chars_of(text);
    let mut out: Vec<Vec<char>> = Vec::new();
    let mut start: usize = 0;
    let ghost mut pieces: Seq<Seq<char>> = Seq::empty();
    assert(v@.skip(0) =~= v@);
    loop
        invariant
            start <= v.len(),
            v@ == text@,
            split_newlines(v@) == pieces + split_newlines(v@.skip(start as int)),
            out@.map_values(|l: Vec<char>| l@) == pieces.map_values(|l: Seq<char>| without_return(l)),
        decreases v.len() - start,
    {
        let ghost rest = v@.skip(start as int);
        let mut end = start;
        while end < v.len() && v[end] != '\n'
            invariant
                start <= end <= v.len(),
                rest == v@.skip(start as int),
                forall|j: int| start <= j < end ==> v@[j] != '\n',
            decreases v.len() - end,
        {
            end += 1;
        }
        proof {
            crate::text::lemma_first_index_from(rest, '\n', 0);
            assert forall|j: int| 0 <= j < end - start implies rest[j] != '\n' by {
                assert(rest[j] == v@[start + j]);
            }
        }
        let ghost piece = v@.subrange(start as int, end as int);
        if end == v.len() {
            proof {
                if crate::text::first_index_from(rest, '\n', 0) is Some {
                    let q = crate::text::first_index_from(rest, '\n', 0)->0;
                    assert(rest[q] == v@[start + q]);
                }
                assert(rest =~= piece);
                assert(split_newlines(rest) == seq![piece]);
                let all = pieces.push(piece);
                assert(split_newlines(v@) =~= all);
                assert(all.drop_last() =~= pieces);
            }
            if end > start {
                let mut line: Vec<char> = Vec::new();
                let mut k = start;
                while k < end
                    invariant
                        start <= k <= end <= v.len(),
                        line@ == v@.subrange(start as int, k as int),
                    decreases end - k,
                {
                    line.push(v[k]);
                    assert(v@.subrange(start as int, k + 1) =~= v@.subrange(start as int, k as int).push(v@[k as int]));
                    k += 1;
                }
                let ghost before = out@;
                out.push(line);
                assert(out@.map_values(|l: Vec<char>| l@) =~= before.map_values(|l: Vec<char>| l@).push(piece));
            }
            return out;
        }
        let mut line: Vec<char> = Vec::new();
        let mut k = start;
        let stop = if end > start && v[end - 1] == '\r' { end - 1 } else { end };
        while k < stop
            invariant
                start <= k <= stop <= end <= v.len(),
                line@ == v@.subrange(start as int, k as int),
            decreases stop - k,
        {
            line.push(v[k]);
            assert(v@.subrange(start as int, k + 1) =~= v@.subrange(start as int, k as int).push(v@[k as int]));
            k += 1;
        }
        proof {
            assert(line@ =~= without_return(piece)) by {
                if end > start && v@[end - 1] == '\r' {
                    assert(piece.drop_last() =~= v@.subrange(start as int, end - 1));
                }
            }
            assert(rest[end - start] == '\n');
            if crate::text::first_index_from(rest, '\n', 0) != Some(end - start) {
                let q = crate::text::first_index_from(rest, '\n', 0)->0;
                assert(rest[q] == v@[start + q]);
            }
            assert(rest.take(end - start) =~= piece);
            assert(rest.skip(end - start + 1) =~= v@.skip(end + 1));
            assert(split_newlines(rest) == seq![piece] + split_newlines(v@.skip(end + 1)));
        }
        let ghost before = out@;
        out.push(line);
        proof {
            let old_pieces = pieces;
            pieces = pieces.push(piece);
            assert(out@.map_values(|l: Vec<char>| l@) =~= before.map_values(|l: Vec<char>| l@).push(line@));
            assert(pieces.map_values(|l: Seq<char>| without_return(l)) =~= old_pieces.map_values(|l: Seq<char>| without_return(l)).push(without_return(piece)));
            assert(old_pieces + (seq![piece] + split_newlines(v@.skip(end + 1))) =~= pieces + split_newlines(v@.skip(end + 1)));
        }
        start = end + 1;
    }
}

fn skip_space(v: &Vec<char>, from: usize) -> (r: usize)
    requires
        from <= v.len(),
    ensures
        from <= r <= v.len(),
        v@.skip(r as int) == trimmed_start(v@.skip(from as int)),
{
    let mut i = from;
    while i < v.len() && crate::text::space(v[i])
        invariant
            from <= i <= v.len(),
            forall|j: int| from <= j < i ==> is_space(#[trigger] v@[j]),
        decreases v.len() - i,
    {
        i += 1;
    }
    proof {
        let s = v@.skip(from as int);
        assert forall|j: int| 0 <= j < i - from implies is_space(#[trigger] s[j]) by {
            assert(s[j] == v@[from + j]);
        }
        if i < v.len() {
            assert(s[i - from] == v@[i as int]);
        }
        crate::text::lemma_leading_space_from(s, i - from);
        assert(s.skip(i - from) =~= v@.skip(i as int));
    }
    i
}

fn attribute_before(line: &Vec<char>, suffix: &Vec<char>) -> (r: Option<String>)
    ensures
        match r {
            Some(n) => attribute_before_spec(line@, suffix@) == Some(n@),
            None => attribute_before_spec(line@, suffix@) is None,
        },
{
    let t = skip_space(line, 0);
    assert(line@.skip(0) =~= line@);
    let trimmed = crate::text::string_of(line, t, line.len());
    let tv = chars_of(trimmed.as_str());
    assert(tv@ =~= trimmed_start(line@));
    let end = match find_text(&tv, suffix) {
        Some(e) => e,
        None => {
            return None;
        },
    };
    proof {
        crate::text::lemma_occurrence_bounds(tv@, suffix@, 0);
    }
    let mut ident = end > 0;
    let mut i: usize = 0;
    while i < end
        invariant
            end <= tv.len(),
            i <= end,
            ident == (end > 0 && forall|j: int| 0 <= j < i ==> ident_char(#[trigger] tv@[j])),
        decreases end - i,
    {
        let c = tv[i];
        if !(('a' <= c && c <= 'z') || ('A' <= c && c <= 'Z') || ('0' <= c && c <= '9') || c == '-' || c == '_') {
            ident = false;
        }
        i += 1;
    }
    let name = string_of(&tv, 0, end);
    proof {
        let nm = tv@.take(end as int);
        assert(name@ =~= nm);
        assert(ident == (nm.len() > 0 && forall|j: int| 0 <= j < nm.len() ==> ident_char(#[trigger] nm[j]))) by {
            if ident {
                assert forall|j: int| 0 <= j < nm.len() implies ident_char(#[trigger] nm[j]) by {
                    assert(nm[j] == tv@[j]);
                }
            } else if nm.len() > 0 {
                let j = choose|j: int| 0 <= j < end && !ident_char(#[trigger] tv@[j]);
                assert(nm[j] == tv@[j]);
            }
        }
    }
    if !ident || crate::text::same_text(name.as_str(), "url") || crate::text::same_text(name.as_str(), "inputs") {
        return None;
    }
    let dot_url = chars_of(".url");
    if !crate::text::same_chars(suffix, &dot_url) {
        let after = crate::self_depend::strip_all_leading(&tv, end, suffix);
        let k = skip_space(&tv, after);
        proof {
            assert(tv@.skip(end as int) =~= tv@.skip(end as int));
        }
        if !(k < tv.len() && tv[k] == '{') {
            proof {
                let rest = trimmed_start(crate::self_depend::strip_leading(tv@.skip(end as int), suffix@));
                assert(rest =~= tv@.skip(k as int));
                if k < tv.len() {
                    assert(rest[0] == tv@[k as int]);
                }
            }
            return None;
        }
        proof {
            let rest = trimmed_start(crate::self_depend::strip_leading(tv@.skip(end as int), suffix@));
            assert(rest =~= tv@.skip(k as int));
            assert(rest[0] == tv@[k as int]);
        }
    }
    Some(name)
}

/// The name of the flake input whose URL names this tool.
///
/// The input is found by the URL it names, never by its name: a consumer
/// calls the input whatever it likes. The name is read from the attribute
/// that holds the URL, either `name.url = "..."` or `name = { url = ... }`.
/// `slug` is the `owner/repo` the canon's home names.
pub fn input_name(flake: &str, slug: &str) -> (r: Option<String>)
    ensures
        match r {
            Some(n) => input_name_of(flake@, slug@) == Some(n@),
            None => input_name_of(flake@, slug@) is None,
        },
{
    let mut needle_text = owned("github:");
    append(&mut needle_text, slug);
    append(&mut needle_text, "/");
    let needle = chars_of(needle_text.as_str());
    let ls = lines(flake);
    let ghost lv = ls@.map_values(|l: Vec<char>| l@);
    let mut at: usize = 0;
    while at < ls.len()
        invariant
            at <= ls.len(),
            lv == ls@.map_values(|l: Vec<char>| l@),
            lv == lines_of(flake@),
            needle@ == "github:"@ + slug@ + "/"@,
            line_holding(lv, needle@, 0) == line_holding(lv, needle@, at as int),
        ensures
            at <= ls.len(),
            lv == ls@.map_values(|l: Vec<char>| l@),
            line_holding(lv, needle@, 0) == line_holding(lv, needle@, at as int),
            at < ls.len() ==> first_occurrence(lv[at as int], needle@) is Some,
        decreases ls.len() - at,
    {
        assert(lv[at as int] == ls@[at as int]@);
        if find_text(&ls[at], &needle).is_some() {
            break;
        }
        at += 1;
    }
    if at == ls.len() {
        return None;
    }
    assert(lv[at as int] == ls@[at as int]@);
    let dot_url = chars_of(".url");
    if let Some(name) = attribute_before(&ls[at], &dot_url) {
        return Some(name);
    }
    let spaced = chars_of(" =");
    let bare = chars_of("=");
    assert(line_holding(lv, needle@, at as int) == Some(at as int));
    let mut k = at;
    while k > 0
        invariant
            k <= at < ls.len(),
            lv == ls@.map_values(|l: Vec<char>| l@),
            lv == lines_of(flake@),
            needle@ == "github:"@ + slug@ + "/"@,
            line_holding(lv, needle@, 0) == Some(at as int),
            attribute_before_spec(lv[at as int], ".url"@) is None,
            spaced@ == " ="@,
            bare@ == "="@,
            attribute_above(lv, at as int, spaced@) == attribute_above(lv, k as int, spaced@),
        decreases k,
    {
        assert(lv[k - 1] == ls@[k - 1]@);
        if let Some(name) = attribute_before(&ls[k - 1], &spaced) {
            return Some(name);
        }
        k -= 1;
    }
    let mut k = at;
    while k > 0
        invariant
            k <= at < ls.len(),
            lv == ls@.map_values(|l: Vec<char>| l@),
            lv == lines_of(flake@),
            needle@ == "github:"@ + slug@ + "/"@,
            line_holding(lv, needle@, 0) == Some(at as int),
            attribute_before_spec(lv[at as int], ".url"@) is None,
            spaced@ == " ="@,
            bare@ == "="@,
            attribute_above(lv, at as int, spaced@) is None,
            attribute_above(lv, at as int, bare@) == attribute_above(lv, k as int, bare@),
        decreases k,
    {
        assert(lv[k - 1] == ls@[k - 1]@);
        if let Some(name) = attribute_before(&ls[k - 1], &bare) {
            return Some(name);
        }
        k -= 1;
    }
    None
}


/// The lines of a text each with its line ending, as
/// `str::split_inclusive('\n')` yields them.
pub open spec fn inclusive_lines(s: Seq<char>) -> Seq<Seq<char>>
    decreases s.len(),
{
    if s.len() == 0 {
        Seq::empty()
    } else {
        match first_index_from(s, '\n', 0) {
            Some(i) => if 0 <= i < s.len() {
                seq![s.take(i + 1)] + inclusive_lines(s.skip(i + 1))
            } else {
                seq![s]
            },
            None => seq![s],
        }
    }
}

/// The first position at or after `from` holding one of `stops`.
pub open spec fn first_stop(s: Seq<char>, stops: Seq<char>, from: int) -> Option<int>
    decreases s.len() - from,
{
    if from < 0 || from >= s.len() {
        None
    } else if stops.contains(s[from]) {
        Some(from)
    } else {
        first_stop(s, stops, from + 1)
    }
}

/// The span of the version in a line that names the flake reference
/// `github:<slug>/`: from after that reference up to the first of `stops`
/// or the end of the line, where it is not empty.
pub open spec fn reference_span(line: Seq<char>, slug: Seq<char>, stops: Seq<char>) -> Option<(int, int)> {
    let needle = "github:"@ + slug + "/"@;
    match first_occurrence(line, needle) {
        None => None,
        Some(p) => {
            let start = p + needle.len();
            let end = match first_stop(line, stops, start) {
                Some(q) => q,
                None => line.len() as int,
            };
            if end > start {
                Some((start, end))
            } else {
                None
            }
        },
    }
}

/// The span between the first pair of double quotes after `marker`.
pub open spec fn quoted_after(line: Seq<char>, marker: Seq<char>) -> Option<(int, int)> {
    match first_occurrence(line, marker) {
        None => None,
        Some(p) => match first_index_from(line, '"', p + marker.len()) {
            None => None,
            Some(o) => match first_index_from(line, '"', o + 1) {
                None => None,
                Some(c) => Some((o + 1, c)),
            },
        },
    }
}

/// Where one line of a manager's file pins this tool, and the venue the
/// form names, where the line pins it.
pub open spec fn located(manager: Manager, line: Seq<char>, slug: Seq<char>) -> Option<(int, int, Option<Venue>)> {
    match manager {
        Manager::Flake => match reference_span(line, slug, seq!['"', '#', '?', '\'']) {
            Some((a, b)) => Some((a, b, Some(Venue::Flake))),
            None => None,
        },
        Manager::Devbox => match reference_span(line, slug, seq!['#', '"']) {
            Some((a, b)) => Some((a, b, Some(Venue::Flake))),
            None => None,
        },
        Manager::Mise => {
            let t = crate::text::trim_start_spec(line);
            if has_prefix(t, "\"cargo:"@ + crate::self_depend::registry::CRATE_NAME@ + "\""@) {
                match quoted_after(line, "="@) {
                    Some((a, b)) => Some((a, b, Some(Venue::Crates))),
                    None => None,
                }
            } else if has_prefix(t, "\"ubi:"@ + slug + "\""@) {
                match quoted_after(line, "version"@) {
                    Some((a, b)) => Some((a, b, Some(Venue::GithubRelease))),
                    None => None,
                }
            } else {
                None
            }
        },
        Manager::Asdf => {
            let ws = crate::text::words(line);
            if ws.len() < 1 || (ws[0] != crate::self_depend::registry::CRATE_NAME@ && ws[0]
                != crate::self_depend::BINARY_NAME@) || ws.len() < 2 {
                None
            } else {
                match first_occurrence(line, ws[1]) {
                    Some(st) => Some((st, st + ws[1].len(), None)),
                    None => None,
                }
            }
        },
    }
}

/// One pin as plain values: the version, its spelling, the venue, the
/// line it stands on, counted from one, and its span in the text, counted
/// in characters.
pub struct PinModel {
    /// The version the pin names.
    pub version: (u64, u64, u64, Seq<char>, Seq<char>),
    /// How the file spells it.
    pub spelled: Seq<char>,
    /// The venue the form names.
    pub venue: Option<Venue>,
    /// The line, counted from one.
    pub line: int,
    /// Where the spelling starts.
    pub start: int,
    /// Where it ends.
    pub end: int,
}

/// The pin one line holds, where its spelling is a version.
pub open spec fn pin_at(line: Seq<char>, k: int, base: int, manager: Manager, slug: Seq<char>) -> Option<PinModel> {
    match located(manager, line, slug) {
        None => None,
        Some((a, b, venue)) => {
            let spelled = line.subrange(a, b);
            match semver_reading(without_v(spelled)) {
                None => None,
                Some(version) => Some(
                    PinModel { version, spelled, venue, line: k + 1, start: base + a, end: base + b },
                ),
            }
        },
    }
}

/// The pins of the lines from the `k`th on, the `k`th starting at `base`.
pub open spec fn pins_from(ls: Seq<Seq<char>>, k: int, base: int, manager: Manager, slug: Seq<char>) -> Seq<PinModel>
    decreases ls.len() - k,
{
    if k < 0 || k >= ls.len() {
        Seq::empty()
    } else {
        let rest = pins_from(ls, k + 1, base + ls[k].len(), manager, slug);
        match pin_at(ls[k], k, base, manager, slug) {
            Some(p) => seq![p] + rest,
            None => rest,
        }
    }
}

/// Every pin a manager file holds, in order.
pub open spec fn pins_of(manager: Manager, text: Seq<char>, slug: Seq<char>) -> Seq<PinModel> {
    pins_from(inclusive_lines(text), 0, 0, manager, slug)
}

/// How many bytes the first `n` characters of a text take in UTF-8.
pub open spec fn byte_offset(text: Seq<char>, n: int) -> nat {
    vstd::utf8::encode_utf8(text.take(n)).len()
}

/// Where a manager file pins this tool.
#[derive(Debug)]
pub struct Pin {
    /// The version the pin names.
    pub version: SemVer,
    /// The version as the file spells it, `v` prefix and all.
    pub spelled: String,
    /// The venue the pin's form names, where it names one.
    pub venue: Option<Venue>,
    /// The line the pin stands on, counted from one.
    pub line: usize,
    /// How many lines pin this tool.
    pub lines: usize,
    /// The byte span of the spelling in the file.
    pub span: (usize, usize),
}

/// Whether a read pin is the first of the pins, counted among `n`.
pub open spec fn pin_is(pin: Pin, p: PinModel, n: nat, text: Seq<char>) -> bool {
    &&& semver_model(pin.version) == p.version
    &&& pin.spelled@ == p.spelled
    &&& pin.venue == p.venue
    &&& pin.line == p.line
    &&& pin.lines == n
    &&& pin.span == (byte_offset(text, p.start) as usize, byte_offset(text, p.end) as usize)
}

/// What the first `n` positions after `from` in `s` shift to.
proof fn lemma_index_shift(s: Seq<char>, c: char, i: int, f: int)
    requires
        0 <= i <= s.len(),
        0 <= f,
    ensures
        first_index_from(s.skip(i), c, f) == match first_index_from(s, c, i + f) {
            Some(j) => Some(j - i),
            None => None,
        },
    decreases s.len() - i - f,
{
    if i + f < s.len() {
        assert(s.skip(i)[f] == s[i + f]);
        if s[i + f] != c {
            lemma_index_shift(s, c, i, f + 1);
        }
    }
}

/// The first position at or after `from` holding one of `stops`.
fn find_stop(v: &Vec<char>, stops: &Vec<char>, from: usize) -> (r: usize)
    requires
        from <= v.len(),
    ensures
        match first_stop(v@, stops@, from as int) {
            Some(q) => r == q,
            None => r == v.len(),
        },
        from <= r <= v.len(),
{
    let mut i = from;
    while i < v.len()
        invariant
            from <= i <= v.len(),
            first_stop(v@, stops@, from as int) == first_stop(v@, stops@, i as int),
        decreases v.len() - i,
    {
        let mut hit = false;
        let mut j: usize = 0;
        while j < stops.len()
            invariant
                j <= stops.len(),
                i < v.len(),
                hit == exists|q: int| 0 <= q < j && stops@[q] == v@[i as int],
            decreases stops.len() - j,
        {
            if stops[j] == v[i] {
                hit = true;
            }
            j += 1;
        }
        if hit {
            return i;
        }
        i += 1;
    }
    i
}

/// The span of the version after the flake reference, where there is one.
fn reference_span_of(line: &Vec<char>, slug: &str, stops: &Vec<char>) -> (r: Option<(usize, usize)>)
    ensures
        match reference_span(line@, slug@, stops@) {
            Some((a, b)) => r == Some((a as usize, b as usize)) && 0 <= a <= b <= line@.len(),
            None => r is None,
        },
{
    let mut needle_text = owned("github:");
    append(&mut needle_text, slug);
    append(&mut needle_text, "/");
    let needle = chars_of(needle_text.as_str());
    let n = line.len();
    match find_text(line, &needle) {
        None => None,
        Some(p) => {
            proof {
                crate::text::lemma_occurrence_bounds(line@, needle@, 0);
                assert(crate::text::occurs_at(line@, needle@, p as int));
            }
            let start = p + needle.len();
            let end = find_stop(line, stops, start);
            if end > start {
                Some((start, end))
            } else {
                None
            }
        },
    }
}

/// The span between the first pair of double quotes after `marker`.
fn quoted_after_of(line: &Vec<char>, marker: &str) -> (r: Option<(usize, usize)>)
    ensures
        match quoted_after(line@, marker@) {
            Some((a, b)) => r == Some((a as usize, b as usize)) && 0 <= a <= b <= line@.len(),
            None => r is None,
        },
{
    let m = chars_of(marker);
    let n = line.len();
    match find_text(line, &m) {
        None => None,
        Some(p) => {
            proof {
                crate::text::lemma_occurrence_bounds(line@, m@, 0);
                assert(crate::text::occurs_at(line@, m@, p as int));
            }
            let at = p + m.len();
            match crate::text::find_char_from(line, '"', at) {
                None => None,
                Some(o) => {
                    proof {
                        crate::text::lemma_first_index_from(line@, '"', at as int);
                    }
                    assert(o < line.len());
                    match crate::text::find_char_from(line, '"', o + 1) {
                        None => None,
                        Some(c) => {
                            proof {
                                crate::text::lemma_first_index_from(line@, '"', o + 1);
                            }
                            Some((o + 1, c))
                        },
                    }
                },
            }
        },
    }
}

/// Where one line of a manager's file pins this tool.
fn locate(manager: Manager, line: &Vec<char>, slug: &str) -> (r: Option<(usize, usize, Option<Venue>)>)
    ensures
        match located(manager, line@, slug@) {
            Some((a, b, venue)) => r == Some((a as usize, b as usize, venue)) && 0 <= a <= b <= line@.len(),
            None => r is None,
        },
{
    match manager {
        Manager::Flake => {
            let stops: Vec<char> = vec!['"', '#', '?', '\''];
            assert(stops@ =~= seq!['"', '#', '?', '\'']);
            match reference_span_of(line, slug, &stops) {
                Some((a, b)) => Some((a, b, Some(Venue::Flake))),
                None => None,
            }
        },
        Manager::Devbox => {
            let stops: Vec<char> = vec!['#', '"'];
            assert(stops@ =~= seq!['#', '"']);
            match reference_span_of(line, slug, &stops) {
                Some((a, b)) => Some((a, b, Some(Venue::Flake))),
                None => None,
            }
        },
        Manager::Mise => {
            let t = chars_of(crate::text::trim_start(crate::text::string_of_all(line).as_str()).as_str());
            assert(t@.subrange(0, t@.len() as int) =~= t@);
            let mut registry = owned("\"cargo:");
            append(&mut registry, crate::self_depend::registry::CRATE_NAME);
            append(&mut registry, "\"");
            let mut archive = owned("\"ubi:");
            append(&mut archive, slug);
            append(&mut archive, "\"");
            if crate::text::prefix_at(&t, 0, &chars_of(registry.as_str())) {
                match quoted_after_of(line, "=") {
                    Some((a, b)) => Some((a, b, Some(Venue::Crates))),
                    None => None,
                }
            } else if crate::text::prefix_at(&t, 0, &chars_of(archive.as_str())) {
                match quoted_after_of(line, "version") {
                    Some((a, b)) => Some((a, b, Some(Venue::GithubRelease))),
                    None => None,
                }
            } else {
                None
            }
        },
        Manager::Asdf => {
            let ws = crate::text::split_words(line);
            let ghost wv = ws@.map_values(|w: Vec<char>| w@);
            if ws.len() < 1 {
                return None;
            }
            assert(wv[0] == ws@[0]@);
            let crate_name = chars_of(crate::self_depend::registry::CRATE_NAME);
            let binary = chars_of(crate::self_depend::BINARY_NAME);
            if !crate::text::same_chars(&ws[0], &crate_name) && !crate::text::same_chars(&ws[0], &binary) {
                return None;
            }
            if ws.len() < 2 {
                return None;
            }
            assert(wv[1] == ws@[1]@);
            let n = line.len();
            match find_text(line, &ws[1]) {
                None => None,
                Some(st) => {
                    proof {
                        crate::text::lemma_occurrence_bounds(line@, ws@[1]@, 0);
                        assert(crate::text::occurs_at(line@, ws@[1]@, st as int));
                    }
                    Some((st, st + ws[1].len(), None))
                },
            }
        },
    }
}

/// The first pin a text holds, its character span, and how many lines
/// pin this tool.
#[verifier::rlimit(60)]
fn read_at(manager: Manager, text: &str, slug: &str) -> (r: Option<(Pin, usize, usize)>)
    ensures
        match r {
            Some((pin, a, b)) => pins_of(manager, text@, slug@).len() > 0 && pin_is(
                pin,
                pins_of(manager, text@, slug@)[0],
                pins_of(manager, text@, slug@).len(),
                text@,
            ) && a == pins_of(manager, text@, slug@)[0].start && b == pins_of(manager, text@, slug@)[0].end
                && a <= b <= text@.len(),
            None => pins_of(manager, text@, slug@).len() == 0,
        },
{
    let v = chars_of(text);
    let ghost ls = inclusive_lines(v@);
    let ghost all = pins_of(manager, text@, slug@);
    let mut i: usize = 0;
    let mut k: usize = 0;
    let mut found: Option<(Pin, usize, usize)> = None;
    let mut count: usize = 0;
    let ghost mut done: Seq<PinModel> = Seq::empty();
    assert(v@.skip(0) =~= v@);
    assert(ls.skip(0) =~= ls);
    assert(done + pins_from(ls, 0, 0, manager, slug@) =~= pins_from(ls, 0, 0, manager, slug@));
    while i < v.len()
        invariant
            i <= v.len(),
            k <= i,
            v@ == text@,
            ls == inclusive_lines(v@),
            all == pins_from(ls, 0, 0, manager, slug@),
            k <= ls.len(),
            inclusive_lines(v@.skip(i as int)) == ls.skip(k as int),
            all == done + pins_from(ls, k as int, i as int, manager, slug@),
            count == done.len(),
            count <= k,
            done.len() == 0 ==> found is None,
            done.len() > 0 ==> (found matches Some((pin, a, b)) && semver_model(pin.version) == done[0].version
                && pin.spelled@ == done[0].spelled && pin.venue == done[0].venue && pin.line == done[0].line
                && a == done[0].start && b == done[0].end && a <= b <= v@.len() && pin.span == (
                byte_offset(v@, a as int) as usize,
                byte_offset(v@, b as int) as usize,
            )),
        decreases v.len() - i,
    {
        let ghost rest = v@.skip(i as int);
        proof {
            lemma_index_shift(v@, '\n', i as int, 0);
            crate::text::lemma_first_index_from(v@, '\n', i as int);
        }
        let e = match crate::text::find_char_from(&v, '\n', i) {
            Some(j) => j + 1,
            None => v.len(),
        };
        proof {
            if first_index_from(v@, '\n', i as int) is Some {
                let idx = first_index_from(v@, '\n', i as int)->0;
                assert(first_index_from(rest, '\n', 0) == Some(idx - i));
                assert(rest.take(idx - i + 1) =~= v@.subrange(i as int, e as int));
                assert(rest.skip(idx - i + 1) =~= v@.skip(e as int));
                assert(inclusive_lines(rest) == seq![v@.subrange(i as int, e as int)] + inclusive_lines(v@.skip(e as int)));
            } else {
                assert(first_index_from(rest, '\n', 0) is None);
                assert(rest =~= v@.subrange(i as int, e as int));
                assert(v@.skip(e as int) =~= Seq::<char>::empty());
                assert(inclusive_lines(v@.skip(e as int)) =~= Seq::<Seq<char>>::empty());
                assert(inclusive_lines(rest) =~= seq![v@.subrange(i as int, e as int)] + inclusive_lines(v@.skip(e as int)));
            }
            assert(ls.skip(k as int).len() > 0);
            assert(ls.skip(k as int)[0] == ls[k as int]);
            assert(ls[k as int] == v@.subrange(i as int, e as int));
            assert(ls.skip(k + 1) =~= ls.skip(k as int).drop_first());
            assert(ls.skip(k + 1) =~= inclusive_lines(v@.skip(e as int)));
        }
        let mut line: Vec<char> = Vec::new();
        let mut q = i;
        while q < e
            invariant
                i <= q <= e <= v.len(),
                line@ == v@.subrange(i as int, q as int),
            decreases e - q,
        {
            line.push(v[q]);
            assert(v@.subrange(i as int, q + 1) =~= v@.subrange(i as int, q as int).push(v@[q as int]));
            q += 1;
        }
        assert(line@ == ls[k as int]);
        let ghost step = pin_at(ls[k as int], k as int, i as int, manager, slug@);
        assert(pins_from(ls, k as int, i as int, manager, slug@) == match step {
            Some(p) => seq![p] + pins_from(ls, k + 1, e as int, manager, slug@),
            None => pins_from(ls, k + 1, e as int, manager, slug@),
        });
        match locate(manager, &line, slug) {
            Some((a, b, venue)) => {
                let spelled = string_of(&line, a, b);
                let sv = chars_of(spelled.as_str());
                let bare = if sv.len() > 0 && sv[0] == 'v' {
                    string_of(&sv, 1, sv.len())
                } else {
                    string_of(&sv, 0, sv.len())
                };
                assert(bare@ =~= without_v(spelled@));
                match parse_semver(bare.as_str()) {
                    Some(version) => {
                        proof {
                            assert(done + (seq![step->0] + pins_from(ls, k + 1, e as int, manager, slug@)) =~= done.push(step->0) + pins_from(ls, k + 1, e as int, manager, slug@));
                            done = done.push(step->0);
                        }
                        if count == 0 {
                            let start_bytes = string_of(&v, 0, i + a).as_str().len();
                            let end_bytes = string_of(&v, 0, i + b).as_str().len();
                            proof {
                                assert(v@.subrange(0, i + a) =~= v@.take(i + a));
                                assert(v@.subrange(0, i + b) =~= v@.take(i + b));
                            }
                            found = Some((
                                Pin { version, spelled, venue, line: k + 1, lines: 0, span: (start_bytes, end_bytes) },
                                i + a,
                                i + b,
                            ));
                        }
                        count = count + 1;
                    },
                    None => {},
                }
            },
            None => {},
        }
        i = e;
        k = k + 1;
    }
    proof {
        assert(v@.skip(i as int) =~= Seq::<char>::empty());
        assert(inclusive_lines(v@.skip(i as int)) =~= Seq::<Seq<char>>::empty());
        assert(ls.skip(k as int).len() == 0);
        assert(pins_from(ls, k as int, i as int, manager, slug@) =~= Seq::<PinModel>::empty());
        assert(all =~= done);
    }
    match found {
        None => None,
        Some((mut pin, a, b)) => {
            pin.lines = count;
            Some((pin, a, b))
        },
    }
}

/// Where a manager file pins this tool: the first line that does, and
/// how many lines do. A second pin is counted rather than read, so the
/// caller can refuse a file that pins twice. `slug` is the `owner/repo`
/// the canon's home names.
pub fn read(manager: Manager, text: &str, slug: &str) -> (r: Option<Pin>)
    ensures
        match r {
            Some(pin) => pins_of(manager, text@, slug@).len() > 0 && pin_is(
                pin,
                pins_of(manager, text@, slug@)[0],
                pins_of(manager, text@, slug@).len(),
                text@,
            ),
            None => pins_of(manager, text@, slug@).len() == 0,
        },
{
    match read_at(manager, text, slug) {
        Some((pin, _, _)) => Some(pin),
        None => None,
    }
}

/// A version spelled in the form a held spelling uses: with a leading
/// `v` where the held one has it.
pub open spec fn respelled(held: Seq<char>, to: SemVer) -> Seq<char> {
    if held.len() > 0 && held[0] == 'v' {
        "v"@ + semver_text(semver_model(to))
    } else {
        semver_text(semver_model(to))
    }
}

/// Move the first pin to `to`, in the spelling the file already uses,
/// and leave every other character as it was.
pub fn rewrite(manager: Manager, text: &str, to: &SemVer, slug: &str) -> (r: Result<(String, Pin), String>)
    ensures
        match r {
            Ok((moved, pin)) => pins_of(manager, text@, slug@).len() > 0 && pin_is(
                pin,
                pins_of(manager, text@, slug@)[0],
                pins_of(manager, text@, slug@).len(),
                text@,
            ) && moved@ == text@.take(pins_of(manager, text@, slug@)[0].start) + respelled(
                pins_of(manager, text@, slug@)[0].spelled,
                *to,
            ) + text@.skip(pins_of(manager, text@, slug@)[0].end),
            Err(m) => pins_of(manager, text@, slug@).len() == 0 && m@ == "the file no longer records a pin"@,
        },
{
    let (held, a, b) = match read_at(manager, text, slug) {
        Some(found) => found,
        None => {
            return Err(owned("the file no longer records a pin"));
        },
    };
    let hv = chars_of(held.spelled.as_str());
    let spelled = if hv.len() > 0 && hv[0] == 'v' {
        let mut t = owned("v");
        append(&mut t, to.to_text().as_str());
        proof {
            reveal_strlit("v");
        }
        t
    } else {
        to.to_text()
    };
    let v = chars_of(text);
    let mut moved = string_of(&v, 0, a);
    append(&mut moved, spelled.as_str());
    append(&mut moved, string_of(&v, b, v.len()).as_str());
    proof {
        assert(v@.subrange(0, a as int) =~= v@.take(a as int));
        assert(v@.subrange(b as int, v@.len() as int) =~= v@.skip(b as int));
    }
    Ok((moved, held))
}

/// Whether two texts are equal, ASCII letters compared without case.
pub open spec fn same_ignoring_case(a: Seq<char>, b: Seq<char>) -> bool {
    crate::self_depend::registry::ascii_lower(a) == crate::self_depend::registry::ascii_lower(b)
}

/// A string value, where the value is one.
pub open spec fn text_of(v: Option<crate::json_doc::JsonModel>) -> Option<Seq<char>> {
    match v {
        Some(crate::json_doc::JsonModel::Text(s)) => Some(s),
        _ => None,
    }
}

/// The revision a lock node records, where the node's original reference
/// names this repository and the node records one.
pub open spec fn node_rev(node: crate::json_doc::JsonModel, owner: Seq<char>, repo: Seq<char>) -> Option<Seq<char>> {
    match crate::json_doc::member(node, "original"@) {
        None => None,
        Some(original) => {
            let same_owner = match text_of(crate::json_doc::member(original, "owner"@)) {
                Some(held) => same_ignoring_case(held, owner),
                None => false,
            };
            let same_repo = match text_of(crate::json_doc::member(original, "repo"@)) {
                Some(held) => same_ignoring_case(held, repo),
                None => false,
            };
            if same_owner && same_repo {
                match crate::json_doc::member(node, "locked"@) {
                    Some(locked) => text_of(crate::json_doc::member(locked, "rev"@)),
                    None => None,
                }
            } else {
                None
            }
        },
    }
}

/// The first node, in the order the lock's map keeps them, that records a
/// revision of this repository.
pub open spec fn first_rev(nodes: Seq<(Seq<char>, crate::json_doc::JsonModel)>, owner: Seq<char>, repo: Seq<char>) -> Option<Seq<char>>
    decreases nodes.len(),
{
    if nodes.len() == 0 {
        None
    } else {
        match node_rev(nodes[0].1, owner, repo) {
            Some(r) => Some(r),
            None => first_rev(nodes.drop_first(), owner, repo),
        }
    }
}

/// The revision a flake lock records for this repository.
pub open spec fn locked_rev_of(lock: Seq<char>, owner: Seq<char>, repo: Seq<char>) -> Option<Seq<char>> {
    match crate::json_doc::json_read(lock) {
        Err(_) => None,
        Ok(v) => match crate::json_doc::member(v, "nodes"@) {
            Some(crate::json_doc::JsonModel::Object(nodes)) => first_rev(nodes, owner, repo),
            _ => None,
        },
    }
}

/// Whether two texts are equal, ASCII letters compared without case.
fn same_ignoring_case_of(a: &str, b: &str) -> (r: bool)
    ensures
        r == same_ignoring_case(a@, b@),
{
    let x = chars_of(a);
    let y = chars_of(b);
    if x.len() != y.len() {
        proof {
            assert(crate::self_depend::registry::ascii_lower(a@).len() != crate::self_depend::registry::ascii_lower(b@).len());
        }
        return false;
    }
    let mut i: usize = 0;
    while i < x.len()
        invariant
            i <= x.len(),
            x.len() == y.len(),
            x@ == a@,
            y@ == b@,
            forall|j: int| 0 <= j < i ==> #[trigger] crate::self_depend::registry::ascii_lower(x@)[j]
                == crate::self_depend::registry::ascii_lower(y@)[j],
        decreases x.len() - i,
    {
        let c = x[i];
        let d = y[i];
        let lc = if 'A' <= c && c <= 'Z' { ((c as u32) + 32) as u8 as char } else { c };
        let ld = if 'A' <= d && d <= 'Z' { ((d as u32) + 32) as u8 as char } else { d };
        proof {
            if 'A' <= c <= 'Z' {
                assert(((c as u32) + 32) as u8 as char == ((c as u32) + 32) as char);
            }
            if 'A' <= d <= 'Z' {
                assert(((d as u32) + 32) as u8 as char == ((d as u32) + 32) as char);
            }
            assert(crate::self_depend::registry::ascii_lower(x@)[i as int] == lc);
            assert(crate::self_depend::registry::ascii_lower(y@)[i as int] == ld);
        }
        if lc != ld {
            return false;
        }
        i += 1;
    }
    assert(crate::self_depend::registry::ascii_lower(a@) =~= crate::self_depend::registry::ascii_lower(b@));
    true
}

/// A string value, where the value is one.
fn text_value(v: Option<&crate::json_doc::Json>) -> (r: Option<&str>)
    ensures
        match v {
            Some(j) => match text_of(Some(j@)) {
                Some(s) => r matches Some(t) && t@ == s,
                None => r is None,
            },
            None => r is None,
        },
{
    match v {
        Some(crate::json_doc::Json::Text(s)) => Some(s.as_str()),
        _ => None,
    }
}

/// The revision one lock node records for this repository.
fn node_rev_of(node: &crate::json_doc::Json, owner: &str, repo: &str) -> (r: Option<String>)
    ensures
        match node_rev(node@, owner@, repo@) {
            Some(s) => r matches Some(t) && t@ == s,
            None => r is None,
        },
{
    let original = match crate::json_doc::get(node, "original") {
        Some(o) => o,
        None => {
            return None;
        },
    };
    let same_owner = match text_value(crate::json_doc::get(original, "owner")) {
        Some(held) => same_ignoring_case_of(held, owner),
        None => false,
    };
    let same_repo = match text_value(crate::json_doc::get(original, "repo")) {
        Some(held) => same_ignoring_case_of(held, repo),
        None => false,
    };
    if !(same_owner && same_repo) {
        return None;
    }
    match crate::json_doc::get(node, "locked") {
        Some(locked) => match text_value(crate::json_doc::get(locked, "rev")) {
            Some(r) => Some(owned(r)),
            None => None,
        },
        None => None,
    }
}

/// The revision a flake lock records for this repository: the first node,
/// in the order the lock's map keeps them, whose original reference names
/// the repository, ASCII case aside, and which records one. `source` is the
/// canon's home.
pub fn locked_rev(lock: &str, source: &str) -> (r: Option<String>)
    ensures
        match locked_rev_of(lock@, crate::self_depend::coordinates_of(source@).0, crate::self_depend::coordinates_of(source@).1) {
            Some(s) => r matches Some(t) && t@ == s,
            None => r is None,
        },
{
    let value = match crate::json_doc::read_json(lock) {
        Ok(v) => v,
        Err(_) => {
            return None;
        },
    };
    let nodes = match crate::json_doc::get(&value, "nodes") {
        Some(crate::json_doc::Json::Object(nodes)) => nodes,
        _ => {
            return None;
        },
    };
    let (owner, repo) = crate::self_depend::coordinates(source);
    proof {
        crate::json_doc::lemma_json_entries(nodes@);
    }
    let ghost e = crate::json_doc::json_entries(nodes@);
    let mut i: usize = 0;
    assert(e.skip(0) =~= e);
    assert(locked_rev_of(lock@, owner@, repo@) == first_rev(e, owner@, repo@));
    while i < nodes.len()
        invariant
            i <= nodes.len(),
            (owner@, repo@) == crate::self_depend::coordinates_of(source@),
            locked_rev_of(lock@, owner@, repo@) == first_rev(e, owner@, repo@),
            e == crate::json_doc::json_entries(nodes@),
            e.len() == nodes@.len(),
            forall|j: int| 0 <= j < nodes@.len() ==> #[trigger] e[j] == (nodes@[j].0@, nodes@[j].1@),
            first_rev(e, owner@, repo@) == first_rev(e.skip(i as int), owner@, repo@),
        decreases nodes.len() - i,
    {
        assert(e.skip(i as int)[0] == e[i as int]);
        assert(e.skip(i as int).drop_first() =~= e.skip(i + 1));
        assert(e[i as int] == (nodes@[i as int].0@, nodes@[i as int].1@));
        match node_rev_of(&nodes[i].1, owner.as_str(), repo.as_str()) {
            Some(r) => {
                return Some(r);
            },
            None => {},
        }
        i += 1;
    }
    assert(e.skip(i as int) =~= Seq::<(Seq<char>, crate::json_doc::JsonModel)>::empty());
    None
}

} // verus!
