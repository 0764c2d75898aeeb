//! What the command line prints.

use crate::api::{CollectionInfo, FoundView, IndexResult, SearchHit};
use crate::path::{path_text, HostPath};
use crate::text::{chars_of, decimal, push_decimal, views};
use crate::types::{IndexState, IndexStatus};
use vstd::prelude::*;
use vstd::string::StringExecFns;

verus! {

pub open spec fn mode_note(lexical_only: bool) -> Seq<char> {
    if lexical_only {
        " (lexical-only)"@
    } else {
        ""@
    }
}

fn push_mode_note(text: &mut String, lexical_only: bool)
    ensures
        final(text)@ == old(text)@ + mode_note(lexical_only),
{
    if lexical_only {
        text.append(" (lexical-only)");
    } else {
        text.append("");
    }
}

/// What is printed after an index build.
pub fn index_summary(result: &IndexResult) -> (r: String)
    ensures
        r@ == "Indexed "@ + decimal(result.files_indexed as nat) + " files into "@ + decimal(
            result.chunks_created as nat,
        ) + " chunks in "@ + decimal(result.duration_ms as nat) + "ms"@ + mode_note(
            result.lexical_only,
        ),
{
    let mut text = "Indexed ".to_owned();
    push_decimal(&mut text, result.files_indexed as u64);
    text.append(" files into ");
    push_decimal(&mut text, result.chunks_created as u64);
    text.append(" chunks in ");
    push_decimal(&mut text, result.duration_ms);
    text.append("ms");
    push_mode_note(&mut text, result.lexical_only);
    text
}

/// What is printed after an update.
pub fn update_summary(result: &IndexResult) -> (r: String)
    ensures
        r@ == "Updated "@ + decimal(result.files_indexed as nat) + " files ("@ + decimal(
            result.chunks_created as nat,
        ) + " chunks) in "@ + decimal(result.duration_ms as nat) + "ms"@ + mode_note(
            result.lexical_only,
        ),
{
    let mut text = "Updated ".to_owned();
    push_decimal(&mut text, result.files_indexed as u64);
    text.append(" files (");
    push_decimal(&mut text, result.chunks_created as u64);
    text.append(" chunks) in ");
    push_decimal(&mut text, result.duration_ms);
    text.append("ms");
    push_mode_note(&mut text, result.lexical_only);
    text
}

/// What is printed of a warning.
pub fn warning_line(warning: &str) -> (r: String)
    ensures
        r@ == "warning: "@ + warning@,
{
    let mut text = "warning: ".to_owned();
    text.append(warning);
    text
}

pub open spec fn state_text(state: IndexState) -> Seq<char> {
    match state {
        IndexState::Idle => "Idle"@,
        IndexState::Indexing => "Indexing"@,
        IndexState::Completed => "Completed"@,
        IndexState::Failed => "Failed"@,
    }
}

/// The name of a state.
pub fn state_name(state: IndexState) -> (r: &'static str)
    ensures
        r@ == state_text(state),
{
    match state {
        IndexState::Idle => "Idle",
        IndexState::Indexing => "Indexing",
        IndexState::Completed => "Completed",
        IndexState::Failed => "Failed",
    }
}

/// What is printed of a status.
pub fn status_text(status: &IndexStatus) -> (r: String)
    ensures
        r@ == "state: "@ + state_text(status.status) + "\nfiles: "@ + decimal(
            status.processed_files as nat,
        ) + "/"@ + decimal(status.total_files as nat) + "\nchunks: "@ + decimal(
            status.total_chunks as nat,
        ) + "\nembeddings: "@ + decimal(status.embeddings_generated as nat) + "\nvectors: "@
            + decimal(status.vectors_inserted as nat),
{
    let mut text = "state: ".to_owned();
    text.append(state_name(status.status));
    text.append("\nfiles: ");
    push_decimal(&mut text, status.processed_files as u64);
    text.append("/");
    push_decimal(&mut text, status.total_files as u64);
    text.append("\nchunks: ");
    push_decimal(&mut text, status.total_chunks as u64);
    text.append("\nembeddings: ");
    push_decimal(&mut text, status.embeddings_generated as u64);
    text.append("\nvectors: ");
    push_decimal(&mut text, status.vectors_inserted as u64);
    text
}

/// What is printed after an index was cleared.
pub fn cleared_text(path: &HostPath, json: bool) -> (r: String)
    ensures
        r@ == if json {
            "{\"cleared\": true}"@
        } else {
            "Cleared index for "@ + path_text(path@)
        },
{
    if json {
        return "{\"cleared\": true}".to_owned();
    }
    let mut text = "Cleared index for ".to_owned();
    text.append(path.to_text().as_str());
    text
}

/// What is printed of a collection.
pub open spec fn collection_text(name: Seq<char>, row_count: u64) -> Seq<char> {
    name + "  ("@ + decimal(row_count as nat) + " rows)"@
}

/// What is printed of all collections, a line each.
pub fn collection_lines(collections: &[CollectionInfo]) -> (r: Vec<String>)
    ensures
        collections@.len() == 0 ==> views(r@) == seq!["No collections."@],
        collections@.len() > 0 ==> views(r@) == Seq::new(
            collections@.len(),
            |i: int| collection_text(collections@[i].name@, collections@[i].row_count),
        ),
{
    let mut lines: Vec<String> = Vec::new();
    if collections.len() == 0 {
        lines.push("No collections.".to_owned());
        assert(views(lines@) =~= seq!["No collections."@]);
        return lines;
    }
    let mut i: usize = 0;
    while i < collections.len()
        invariant
            i <= collections@.len(),
            lines@.len() == i,
            forall|k: int|
                0 <= k < i ==> (#[trigger] lines@[k])@ == collection_text(
                    collections@[k].name@,
                    collections@[k].row_count,
                ),
        decreases collections@.len() - i,
    {
        let mut line = collections[i].name.clone();
        line.append("  (");
        push_decimal(&mut line, collections[i].row_count);
        line.append(" rows)");
        lines.push(line);
        i += 1;
    }
    assert(views(lines@) =~= Seq::new(
        collections@.len(),
        |k: int| collection_text(collections@[k].name@, collections@[k].row_count),
    ));
    lines
}

/// The place of the first line feed of `s` at or after `from`, or the end.
pub open spec fn line_end(s: Seq<char>, from: int) -> int
    decreases s.len() - from,
{
    if from < 0 || from >= s.len() || s[from] == '\n' {
        from
    } else {
        line_end(s, from + 1)
    }
}

/// A line without the carriage return before its line feed.
pub open spec fn bare_line(line: Seq<char>) -> Seq<char> {
    if line.len() > 0 && line.last() == '\r' {
        line.drop_last()
    } else {
        line
    }
}

/// The lines of `s` from `from` on. A line feed ends a line, with a carriage
/// return before it or without.
pub open spec fn lines_from(s: Seq<char>, from: int) -> Seq<Seq<char>>
    decreases s.len() - from,
{
    if from < 0 || from >= s.len() {
        Seq::empty()
    } else {
        let to = line_end(s, from);
        if from <= to < s.len() {
            seq![bare_line(s.subrange(from, to))] + lines_from(s, to + 1)
        } else {
            seq![s.subrange(from, s.len() as int)]
        }
    }
}

/// What is printed of the content of a hit: its lines, indented.
pub fn content_lines(content: &str) -> (r: Vec<String>)
    ensures
        views(r@) == lines_from(content@, 0).map_values(|line: Seq<char>| "  "@ + line),
{
    let chars = chars_of(content);
    let ghost indent = |line: Seq<char>| "  "@ + line;
    let ghost all = lines_from(chars@, 0).map_values(indent);
    let mut lines: Vec<String> = Vec::new();
    let mut from: usize = 0;
    assert(views(lines@) + lines_from(chars@, 0).map_values(indent) =~= all);
    while from < chars.len()
        invariant
            from <= chars@.len(),
            views(lines@) + lines_from(chars@, from as int).map_values(indent) == all,
            indent == (|line: Seq<char>| "  "@ + line),
        decreases chars@.len() - from,
    {
        let mut line = "  ".to_owned();
        let mut to: usize = from;
        while to < chars.len() && chars[to] != '\n'
            invariant
                from <= to <= chars@.len(),
                line_end(chars@, to as int) == line_end(chars@, from as int),
            decreases chars@.len() - to,
        {
            to += 1;
        }
        let ended = to < chars.len();
        let stop: usize = if ended && to > from && chars[to - 1] == '\r' {
            to - 1
        } else {
            to
        };
        let mut i: usize = from;
        while i < stop
            invariant
                from <= i <= stop <= chars@.len(),
                line@ == "  "@ + chars@.subrange(from as int, i as int),
            decreases stop - i,
        {
            line.push(chars[i]);
            i += 1;
            assert(line@ =~= "  "@ + chars@.subrange(from as int, i as int));
        }
        proof {
            let whole = chars@.subrange(from as int, to as int);
            assert(line_end(chars@, from as int) == to);
            if ended {
                assert(bare_line(whole) =~= chars@.subrange(from as int, stop as int));
            } else {
                assert(to == chars@.len());
            }
            let rest = if ended {
                lines_from(chars@, to + 1)
            } else {
                Seq::empty()
            };
            let first = chars@.subrange(from as int, stop as int);
            assert(lines_from(chars@, from as int) =~= seq![first] + rest);
            assert(lines_from(chars@, from as int).map_values(indent) =~= seq![indent(first)]
                + rest.map_values(indent));
            crate::text::lemma_views_push(lines@, line);
            assert(views(lines@).push(line@) + rest.map_values(indent) =~= views(lines@) + (
            seq![indent(first)] + rest.map_values(indent)));
            if !ended {
                assert(lines_from(chars@, chars@.len() as int) =~= rest);
            }
        }
        lines.push(line);
        from = if ended {
            to + 1
        } else {
            to
        };
    }
    assert(views(lines@) =~= all);
    lines
}

/// What is printed above the content of a hit, with its score as text.
pub open spec fn hit_text(hit: FoundView, score: Seq<char>) -> Seq<char> {
    hit.relative_path + ":"@ + decimal(hit.start_line as nat) + "-"@ + decimal(hit.end_line as nat)
        + "  ["@ + score + "] "@ + hit.language
}

/// The line above the content of a hit; `score` is its score as text.
pub fn hit_line(hit: &SearchHit, score: &str) -> (r: String)
    ensures
        r@ == hit_text(hit@, score@),
{
    let mut text = hit.relative_path.clone();
    text.append(":");
    push_decimal(&mut text, hit.start_line as u64);
    text.append("-");
    push_decimal(&mut text, hit.end_line as u64);
    text.append("  [");
    text.append(score);
    text.append("] ");
    text.append(hit.language.as_str());
    text
}

proof fn lemma_line_end_behind(lead: Seq<char>, s: Seq<char>, from: int)
    requires
        0 <= from <= s.len(),
    ensures
        line_end(lead + s, lead.len() + from) == lead.len() + line_end(s, from),
    decreases s.len() - from,
{
    if from < s.len() {
        assert((lead + s)[lead.len() + from] == s[from]);
        if s[from] != '\n' {
            lemma_line_end_behind(lead, s, from + 1);
        }
    }
}

proof fn lemma_line_end_bounds(s: Seq<char>, from: int)
    requires
        0 <= from <= s.len(),
    ensures
        from <= line_end(s, from) <= s.len(),
    decreases s.len() - from,
{
    if from < s.len() && s[from] != '\n' {
        lemma_line_end_bounds(s, from + 1);
    }
}

proof fn lemma_lines_behind(lead: Seq<char>, s: Seq<char>, from: int)
    requires
        0 <= from <= s.len(),
    ensures
        lines_from(lead + s, lead.len() + from) =~= lines_from(s, from),
    decreases s.len() - from,
{
    if from < s.len() {
        let n = lead.len() as int;
        lemma_line_end_behind(lead, s, from);
        lemma_line_end_bounds(s, from);
        let to = line_end(s, from);
        assert((lead + s).subrange(n + from, n + to) =~= s.subrange(from, to));
        if to < s.len() {
            lemma_lines_behind(lead, s, to + 1);
        }
    }
}

proof fn lemma_line_end_found(s: Seq<char>, from: int, to: int)
    requires
        0 <= from <= to <= s.len(),
        forall|i: int| from <= i < to ==> #[trigger] s[i] != '\n',
        to < s.len() ==> s[to] == '\n',
    ensures
        line_end(s, from) == to,
    decreases to - from,
{
    if from < to {
        assert(s[from] != '\n');
        lemma_line_end_found(s, from + 1, to);
    }
}

/// A text begins with the line before its first line feed, without a carriage return
/// at the end of that, and goes on with the lines behind it.
pub proof fn law_line_feed_ends_a_line(line: Seq<char>, rest: Seq<char>)
    requires
        !line.contains('\n'),
    ensures
        line.len() == 0 || line.last() != '\r' ==> lines_from(line + seq!['\n'] + rest, 0) == seq![
            line,
        ] + lines_from(rest, 0),
        lines_from(line + seq!['\r', '\n'] + rest, 0) == seq![line] + lines_from(rest, 0),
{
    let plain = line + seq!['\n'] + rest;
    let returned = line + seq!['\r', '\n'] + rest;
    let n = line.len() as int;
    assert forall|i: int| 0 <= i < n implies #[trigger] plain[i] != '\n' && returned[i] != '\n' by {
        assert(line.contains(line[i]));
    }
    assert(plain[n] == '\n');
    lemma_line_end_found(plain, 0, n);
    assert(returned[n] == '\r' && returned[n + 1] == '\n');
    assert forall|i: int| 0 <= i < n + 1 implies #[trigger] returned[i] != '\n' by {
        if i < n {
            assert(plain[i] != '\n');
        }
    }
    lemma_line_end_found(returned, 0, n + 1);
    assert(plain.subrange(0, n) =~= line);
    assert(returned.subrange(0, n + 1) =~= line.push('\r'));
    assert(line.push('\r').drop_last() =~= line);
    lemma_lines_behind(line + seq!['\n'], rest, 0);
    lemma_lines_behind(line + seq!['\r', '\n'], rest, 0);
}

/// A text without a line feed is one line, as it is; an empty text is none.
pub proof fn law_last_line_is_kept_whole(line: Seq<char>)
    requires
        !line.contains('\n'),
    ensures
        line.len() > 0 ==> lines_from(line, 0) == seq![line],
        line.len() == 0 ==> lines_from(line, 0).len() == 0,
{
    assert forall|i: int| 0 <= i < line.len() implies #[trigger] line[i] != '\n' by {
        assert(line.contains(line[i]));
    }
    lemma_line_end_found(line, 0, line.len() as int);
    assert(line.subrange(0, line.len() as int) =~= line);
}

/// The names of the states tell them apart, and a note is made exactly of a
/// lexical-only run.
pub proof fn law_states_and_modes_are_told_apart(a: IndexState, b: IndexState, lexical_only: bool)
    ensures
        state_text(a) == state_text(b) ==> a == b,
        state_text(IndexState::Idle) == "Idle"@,
        state_text(IndexState::Indexing) == "Indexing"@,
        state_text(IndexState::Completed) == "Completed"@,
        state_text(IndexState::Failed) == "Failed"@,
        lexical_only ==> mode_note(lexical_only) == " (lexical-only)"@,
        !lexical_only ==> mode_note(lexical_only).len() == 0,
{
    reveal_strlit("Idle");
    reveal_strlit("Indexing");
    reveal_strlit("Completed");
    reveal_strlit("Failed");
    reveal_strlit("");
    assert("Idle"@.len() == 4 && "Indexing"@.len() == 8 && "Completed"@.len() == 9
        && "Failed"@.len() == 6);
}

/// The line of a collection begins with its name and ends with its row count, and that
/// of a hit with its place and its language; the score stands in brackets between.
pub proof fn law_lines_name_what_they_are_of(
    name: Seq<char>,
    row_count: u64,
    hit: FoundView,
    score: Seq<char>,
)
    ensures
        collection_text(name, row_count) == name + "  ("@ + decimal(row_count as nat) + " rows)"@,
        hit_text(hit, score) == hit.relative_path + ":"@ + decimal(hit.start_line as nat) + "-"@
            + decimal(hit.end_line as nat) + "  ["@ + score + "] "@ + hit.language,
{
}

} // verus!
