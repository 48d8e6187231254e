//! The class blocks of a diagram: the public methods that a regular
//! expression finds in a source, written as a PlantUML class.

use vstd::prelude::*;
use crate::text::{occurs_at, chars_of_string, chars_of, contains_text, find_first, lemma_first_index, no_chars, one_char, replace_text, replaced, has_text, text_of};
use crate::spacing::{normalize_blanks, normalized_blanks};
use crate::names::{alias_of, alias_spec, class_name_of, class_name_spec, simple_name_of, simple_part};
use crate::table::{distinct_keys, inserted, inserted_all, inserted_keeps_keys_distinct, insert_entry, insert_entries};

verus! {

/// Why no diagram could be drawn.
#[derive(Debug, Clone, Copy, PartialEq, Eq)]
pub enum DiagramError {
    /// The regular expression of a kind of declaration does not compile.
    InvalidPattern,
    /// A match of the regular expression lacks the return type, the name
    /// or the parameters of a method (capture groups 3, 4 and 5).
    MissingGroup,
}

#[verifier::external_type_specification]
#[verifier::external_body]
pub struct ExRegexError(regex::Error);

/// The capture groups that the `regex` crate reports for `pattern` over
/// `haystack`: for each match, from left to right, the text of each group
/// (group 0 first) where the group took part in the match; `None` where the
/// pattern does not compile.
pub uninterp spec fn regex_captures(pattern: Seq<char>, haystack: Seq<char>) -> Option<Seq<Seq<Option<Seq<char>>>>>;

/// Compiles `pattern` with `regex::Regex::new` and collects what
/// `Regex::captures_iter` finds in `haystack`, each group's text taken with
/// `Match::as_str`.  The contract claims that the result is
/// `regex_captures(pattern, haystack)`, a function of the two texts alone,
/// and that `Regex::new` fails exactly where that is `None`; it says
/// nothing of how the crate matches.
#[verifier::external_body]
fn capture_groups(pattern: &str, haystack: &str) -> (r: Result<Vec<Vec<Option<String>>>, regex::Error>)
    ensures
        match r {
            Ok(caps) => regex_captures(pattern@, haystack@) == Some(caps.deep_view()),
            Err(_) => regex_captures(pattern@, haystack@) is None,
        },
{
    let re = regex::Regex::new(pattern)?;
    Ok(re.captures_iter(haystack).map(|c| c.iter().map(|g| g.map(|m| m.as_str().to_string())).collect()).collect())
}

/// Group `i` of a match, if the match has it.
pub open spec fn group(c: Seq<Option<Seq<char>>>, i: int) -> Option<Seq<char>> {
    if 0 <= i < c.len() {
        c[i]
    } else {
        None
    }
}

/// The methods that the matches `caps` describe, as a table from method
/// name to parameters and return type (groups 4, 5 and 3); a later match
/// of the same name replaces an earlier one.  `None` where a match lacks
/// one of the three groups.
pub open spec fn method_rows(caps: Seq<Seq<Option<Seq<char>>>>) -> Option<Seq<(Seq<char>, (Seq<char>, Seq<char>))>>
    decreases caps.len(),
{
    if caps.len() == 0 {
        Some(Seq::empty())
    } else {
        match method_rows(caps.drop_last()) {
            None => None,
            Some(rows) => {
                let c = caps.last();
                match (group(c, 3), group(c, 4), group(c, 5)) {
                    (Some(ret), Some(name), Some(args)) => Some(inserted(rows, name, (args, ret))),
                    _ => None,
                }
            },
        }
    }
}

/// The diagram line of one method: `\t+name(args): ret` and a line feed.
pub open spec fn method_line(row: (Seq<char>, (Seq<char>, Seq<char>))) -> Seq<char> {
    "\t+"@ + row.0 + "("@ + row.1.0 + "): "@ + row.1.1 + "\n"@
}

/// The diagram lines of all methods of `rows`, in order.
pub open spec fn method_lines(rows: Seq<(Seq<char>, (Seq<char>, Seq<char>))>) -> Seq<char>
    decreases rows.len(),
{
    if rows.len() == 0 {
        Seq::empty()
    } else {
        method_lines(rows.drop_last()) + method_line(rows.last())
    }
}

/// The block template of a declaration drawn as `keyword`.
pub open spec fn block_template(keyword: Seq<char>) -> Seq<char> {
    "\n"@ + keyword + " \"CLASS_NAME_MARKER\" as CLASS_FINDER_MARKER {\nFUNCTION_MARKER}\n"@
}

/// What stands for `as CLASS_FINDER_MARKER` in the block of class `name`:
/// `as` and its alias where the name is dotted, else nothing.
pub open spec fn finder_clause(name: Seq<char>) -> Seq<char> {
    if name.contains('.') {
        "as "@ + alias_spec(name)
    } else {
        Seq::empty()
    }
}

/// The block of class `name` drawn as `keyword` with methods `rows`: the
/// template with its three markers replaced in turn.
pub open spec fn class_block_spec(keyword: Seq<char>, name: Seq<char>, rows: Seq<(Seq<char>, (Seq<char>, Seq<char>))>) -> Seq<char> {
    replaced(
        replaced(
            replaced(block_template(keyword), "CLASS_NAME_MARKER"@, simple_part(name)),
            "FUNCTION_MARKER"@,
            method_lines(rows),
        ),
        "as CLASS_FINDER_MARKER"@,
        finder_clause(name),
    )
}

/// The text in which methods are searched: blanks normalised, then the
/// line breaks removed.
pub open spec fn search_text(contents: Seq<char>) -> Seq<char> {
    replaced(replaced(normalized_blanks(contents), "\r\n"@, Seq::empty()), seq!['\n'], Seq::empty())
}

/// The block that the source at `key` with text `contents` gives for the
/// kind of declaration that `marker` announces, found with `pattern` and
/// drawn as `keyword`: none where `contents` lacks `marker`.
pub open spec fn class_entry_spec(marker: Seq<char>, pattern: Seq<char>, keyword: Seq<char>, key: Seq<char>, contents: Seq<char>) -> Result<Option<(Seq<char>, Seq<char>)>, DiagramError> {
    if !has_text(contents, marker) {
        Ok(None)
    } else {
        match regex_captures(pattern, search_text(contents)) {
            None => Err(DiagramError::InvalidPattern),
            Some(caps) => match method_rows(caps) {
                None => Err(DiagramError::MissingGroup),
                Some(rows) => {
                    let name = class_name_spec(key);
                    Ok(Some((name, class_block_spec(keyword, name, rows))))
                },
            },
        }
    }
}

/// The blocks that the sources of `done` give, in order; the first error
/// met, if any.
pub open spec fn class_entries_spec(marker: Seq<char>, pattern: Seq<char>, keyword: Seq<char>, done: Seq<(Seq<char>, Seq<char>)>) -> Result<Seq<(Seq<char>, Seq<char>)>, DiagramError>
    decreases done.len(),
{
    if done.len() == 0 {
        Ok(Seq::empty())
    } else {
        match class_entries_spec(marker, pattern, keyword, done.drop_last()) {
            Err(e) => Err(e),
            Ok(rows) => match class_entry_spec(marker, pattern, keyword, done.last().0, done.last().1) {
                Err(e) => Err(e),
                Ok(None) => Ok(rows),
                Ok(Some(row)) => Ok(rows.push(row)),
            },
        }
    }
}

/// The view of a found block.
pub open spec fn entry_view(r: Result<Option<(String, String)>, DiagramError>) -> Result<Option<(Seq<char>, Seq<char>)>, DiagramError> {
    match r {
        Ok(None) => Ok(None),
        Ok(Some((n, b))) => Ok(Some((n@, b@))),
        Err(e) => Err(e),
    }
}

/// The view of found blocks.
pub open spec fn entries_view(r: Result<Vec<(String, String)>, DiagramError>) -> Result<Seq<(Seq<char>, Seq<char>)>, DiagramError> {
    match r {
        Ok(rows) => Ok(rows.deep_view()),
        Err(e) => Err(e),
    }
}

/// A match without its groups spoils every longer list of matches.
proof fn lemma_rows_fail_extends(caps: Seq<Seq<Option<Seq<char>>>>, j: int)
    requires
        0 <= j <= caps.len(),
        method_rows(caps.take(j)) is None,
    ensures
        method_rows(caps) is None,
    decreases caps.len(),
{
    if j == caps.len() {
        assert(caps.take(j) =~= caps);
    } else {
        assert(caps.drop_last().take(j) =~= caps.take(j));
        lemma_rows_fail_extends(caps.drop_last(), j);
    }
}

/// The first failing source decides the error of every longer list.
proof fn lemma_entries_fail_extends(marker: Seq<char>, pattern: Seq<char>, keyword: Seq<char>, done: Seq<(Seq<char>, Seq<char>)>, j: int, e: DiagramError)
    requires
        0 <= j <= done.len(),
        class_entries_spec(marker, pattern, keyword, done.take(j)) == Err::<Seq<(Seq<char>, Seq<char>)>, DiagramError>(e),
    ensures
        class_entries_spec(marker, pattern, keyword, done) == Err::<Seq<(Seq<char>, Seq<char>)>, DiagramError>(e),
    decreases done.len(),
{
    if j == done.len() {
        assert(done.take(j) =~= done);
    } else {
        assert(done.drop_last().take(j) =~= done.take(j));
        lemma_entries_fail_extends(marker, pattern, keyword, done.drop_last(), j, e);
    }
}

/// The method table that the matches `caps` describe.
pub fn methods_from_captures(caps: &Vec<Vec<Option<String>>>) -> (r: Result<Vec<(String, (String, String))>, DiagramError>)
    ensures
        match r {
            Ok(rows) => method_rows(caps.deep_view()) == Some(rows.deep_view()),
            Err(e) => method_rows(caps.deep_view()) is None && e == DiagramError::MissingGroup,
        },
{
    let ghost all = caps.deep_view();
    let mut rows: Vec<(String, (String, String))> = Vec::new();
    assert(rows.deep_view() =~= Seq::<(Seq<char>, (Seq<char>, Seq<char>))>::empty());
    assert(all.take(0) =~= Seq::<Seq<Option<Seq<char>>>>::empty());
    let mut i: usize = 0;
    while i < caps.len()
        invariant
            i <= caps.len(),
            all == caps.deep_view(),
            method_rows(all.take(i as int)) == Some(rows.deep_view()),
        decreases caps.len() - i,
    {
        assert(all.take(i + 1).drop_last() =~= all.take(i as int));
        let c = &caps[i];
        assert(all[i as int] == c.deep_view());
        assert(all.take(i + 1).last() == c.deep_view());
        if c.len() <= 5 {
            proof {
                lemma_rows_fail_extends(all, i + 1);
            }
            return Err(DiagramError::MissingGroup);
        }
        match (&c[3], &c[4], &c[5]) {
            (Some(ret), Some(name), Some(args)) => {
                assert(group(c.deep_view(), 3) == Some(ret@));
                assert(group(c.deep_view(), 4) == Some(name@));
                assert(group(c.deep_view(), 5) == Some(args@));
                insert_entry(&mut rows, name.clone(), (args.clone(), ret.clone()));
            },
            _ => {
                assert(group(c.deep_view(), 3) is None || group(c.deep_view(), 4) is None
                    || group(c.deep_view(), 5) is None);
                proof {
                    lemma_rows_fail_extends(all, i + 1);
                }
                return Err(DiagramError::MissingGroup);
            },
        }
        i = i + 1;
    }
    assert(all.take(caps.len() as int) =~= all);
    Ok(rows)
}

/// The diagram lines of the methods of `rows`.
pub fn method_listing(rows: &Vec<(String, (String, String))>) -> (out: Vec<char>)
    ensures
        out@ == method_lines(rows.deep_view()),
{
    let ghost all = rows.deep_view();
    let mut out: Vec<char> = Vec::new();
    assert(out@ =~= method_lines(all.take(0)));
    let mut i: usize = 0;
    while i < rows.len()
        invariant
            i <= rows.len(),
            all == rows.deep_view(),
            out@ == method_lines(all.take(i as int)),
        decreases rows.len() - i,
    {
        assert(all.take(i + 1).drop_last() =~= all.take(i as int));
        let row = &rows[i];
        assert(all[i as int] == (row.0@, (row.1.0@, row.1.1@)));
        out.extend_from_slice(&chars_of("\t+"));
        out.extend_from_slice(&chars_of_string(&row.0));
        out.push('(');
        out.extend_from_slice(&chars_of_string(&row.1.0));
        out.extend_from_slice(&chars_of("): "));
        out.extend_from_slice(&chars_of_string(&row.1.1));
        out.push('\n');
        proof {
            reveal_strlit("(");
            reveal_strlit("\n");
        }
        assert(out@ =~= method_lines(all.take(i as int)) + method_line(all[i as int]));
        i = i + 1;
    }
    assert(all.take(rows.len() as int) =~= all);
    out
}

/// The block of class `name` drawn as `keyword` with the methods `rows`.
pub fn class_block(keyword: &[char], name: &[char], rows: &Vec<(String, (String, String))>) -> (out: Vec<char>)
    ensures
        out@ == class_block_spec(keyword@, name@, rows.deep_view()),
{
    let mut template = chars_of("\n");
    template.extend_from_slice(keyword);
    template.extend_from_slice(&chars_of(" \"CLASS_NAME_MARKER\" as CLASS_FINDER_MARKER {\nFUNCTION_MARKER}\n"));
    assert(template@ =~= block_template(keyword@));
    let name_marker = chars_of("CLASS_NAME_MARKER");
    let function_marker = chars_of("FUNCTION_MARKER");
    let finder_marker = chars_of("as CLASS_FINDER_MARKER");
    proof {
        reveal_strlit("CLASS_NAME_MARKER");
        reveal_strlit("FUNCTION_MARKER");
        reveal_strlit("as CLASS_FINDER_MARKER");
        lemma_first_index(name@, '.');
    }
    let finder = match find_first(name, '.') {
        Some(k) => {
            assert(name@[k as int] == '.');
            let mut f = chars_of("as ");
            f.extend_from_slice(&alias_of(name));
            assert(f@ =~= finder_clause(name@));
            f
        },
        None => {
            assert(!name@.contains('.'));
            no_chars()
        },
    };
    let a = replace_text(&template, &name_marker, &simple_name_of(name));
    let b = replace_text(&a, &function_marker, &method_listing(rows));
    replace_text(&b, &finder_marker, &finder)
}

/// The text of `contents` in which methods are searched.
pub fn searchable_text(contents: &[char]) -> (out: Vec<char>)
    ensures
        out@ == search_text(contents@),
{
    let normal = normalize_blanks(contents);
    let crlf = chars_of("\r\n");
    proof {
        reveal_strlit("\r\n");
    }
    let joined = replace_text(&normal, &crlf, &no_chars());
    replace_text(&joined, &one_char('\n'), &no_chars())
}

/// The block that the source at `key` with text `contents` gives for the
/// kind of declaration that `marker` announces, found with `pattern` and
/// drawn as `keyword`.
pub fn class_entry(marker: &str, pattern: &str, keyword: &str, key: &String, contents: &String) -> (r: Result<Option<(String, String)>, DiagramError>)
    ensures
        entry_view(r) == class_entry_spec(marker@, pattern@, keyword@, key@, contents@),
{
    let text = chars_of_string(contents);
    if !contains_text(&text, &chars_of(marker)) {
        return Ok(None);
    }
    let haystack = text_of(&searchable_text(&text));
    match capture_groups(pattern, haystack.as_str()) {
        Err(_) => Err(DiagramError::InvalidPattern),
        Ok(caps) => match methods_from_captures(&caps) {
            Err(e) => Err(e),
            Ok(rows) => {
                let name = class_name_of(&chars_of_string(key));
                let block = class_block(&chars_of(keyword), &name, &rows);
                Ok(Some((text_of(&name), text_of(&block))))
            },
        },
    }
}

/// The blocks that `sources` give for one kind of declaration, in order.
pub fn class_entries(marker: &str, pattern: &str, keyword: &str, sources: &Vec<(String, String)>) -> (r: Result<Vec<(String, String)>, DiagramError>)
    ensures
        entries_view(r) == class_entries_spec(marker@, pattern@, keyword@, sources.deep_view()),
{
    let ghost all = sources.deep_view();
    let mut rows: Vec<(String, String)> = Vec::new();
    assert(rows.deep_view() =~= Seq::<(Seq<char>, Seq<char>)>::empty());
    assert(all.take(0) =~= Seq::<(Seq<char>, Seq<char>)>::empty());
    let mut i: usize = 0;
    while i < sources.len()
        invariant
            i <= sources.len(),
            all == sources.deep_view(),
            class_entries_spec(marker@, pattern@, keyword@, all.take(i as int)) == Ok::<Seq<(Seq<char>, Seq<char>)>, DiagramError>(rows.deep_view()),
        decreases sources.len() - i,
    {
        assert(all.take(i + 1).drop_last() =~= all.take(i as int));
        assert(all.take(i + 1).last() == (sources@[i as int].0@, sources@[i as int].1@));
        match class_entry(marker, pattern, keyword, &sources[i].0, &sources[i].1) {
            Err(e) => {
                proof {
                    lemma_entries_fail_extends(marker@, pattern@, keyword@, all, i + 1, e);
                }
                return Err(e);
            },
            Ok(None) => {},
            Ok(Some((n, b))) => {
                let ghost before = rows.deep_view();
                let ghost row = (n@, b@);
                rows.push((n, b));
                assert(rows.deep_view() =~= before.push(row));
            },
        }
        i = i + 1;
    }
    assert(all.take(sources.len() as int) =~= all);
    Ok(rows)
}

/// Adds to `table` the blocks that `sources` give for one kind of
/// declaration; leaves it as it was where a source fails.
pub fn add_file_data(marker: &str, pattern: &str, keyword: &str, sources: &Vec<(String, String)>, table: &mut Vec<(String, String)>) -> (r: Result<(), DiagramError>)
    ensures
        match class_entries_spec(marker@, pattern@, keyword@, sources.deep_view()) {
            Ok(rows) => r is Ok && final(table).deep_view() == inserted_all(old(table).deep_view(), rows),
            Err(e) => r == Err::<(), DiagramError>(e) && final(table).deep_view() == old(table).deep_view(),
        },
{
    match class_entries(marker, pattern, keyword, sources) {
        Err(e) => Err(e),
        Ok(rows) => {
            insert_entries(table, rows);
            Ok(())
        },
    }
}

/// A class lists each method name once.
pub proof fn method_names_distinct(caps: Seq<Seq<Option<Seq<char>>>>)
    ensures
        method_rows(caps) matches Some(rows) ==> distinct_keys(rows),
    decreases caps.len(),
{
    if caps.len() > 0 {
        method_names_distinct(caps.drop_last());
        if let Some(rows) = method_rows(caps.drop_last()) {
            let c = caps.last();
            if let (Some(ret), Some(name), Some(args)) = (group(c, 3), group(c, 4), group(c, 5)) {
                inserted_keeps_keys_distinct(rows, name, (args, ret));
            }
        }
    }
}

/// The listing of methods holds the line of every row, one after another:
/// with no rows it is empty, a row added at the end adds its line at the
/// end, and the line of each row stands right after the lines of the rows
/// before it.
pub proof fn method_listing_lists_every_row(rows: Seq<(Seq<char>, (Seq<char>, Seq<char>))>)
    ensures
        method_lines(Seq::<(Seq<char>, (Seq<char>, Seq<char>))>::empty()) == Seq::<char>::empty(),
        forall|r: (Seq<char>, (Seq<char>, Seq<char>))| #[trigger] method_lines(rows.push(r)) == method_lines(rows) + method_line(r),
        forall|i: int| 0 <= i < rows.len() ==> occurs_at(
            method_lines(rows),
            method_line(#[trigger] rows[i]),
            method_lines(rows.take(i)).len() as int,
        ),
    decreases rows.len(),
{
    assert forall|r: (Seq<char>, (Seq<char>, Seq<char>))| #[trigger] method_lines(rows.push(r)) == method_lines(rows) + method_line(r) by {
        assert(rows.push(r).drop_last() =~= rows);
        assert(rows.push(r).last() == r);
    }
    if rows.len() > 0 {
        let prev = rows.drop_last();
        method_listing_lists_every_row(prev);
        let whole = method_lines(rows);
        assert(whole == method_lines(prev) + method_line(rows.last()));
        assert forall|i: int| 0 <= i < rows.len() implies occurs_at(
            whole,
            method_line(#[trigger] rows[i]),
            method_lines(rows.take(i)).len() as int,
        ) by {
            let line = method_line(rows[i]);
            if i == rows.len() - 1 {
                assert(rows.take(i) =~= prev);
                assert(whole.subrange(method_lines(prev).len() as int, whole.len() as int) =~= line);
            } else {
                assert(prev[i] == rows[i]);
                assert(prev.take(i) =~= rows.take(i));
                let at = method_lines(rows.take(i)).len() as int;
                assert(occurs_at(method_lines(prev), line, at));
                assert(whole.subrange(at, at + line.len()) =~= method_lines(prev).subrange(at, at + line.len()));
            }
        }
    }
}

/// The number of sources among `sources` whose text holds `marker`.
pub open spec fn marked_sources(sources: Seq<(Seq<char>, Seq<char>)>, marker: Seq<char>) -> nat
    decreases sources.len(),
{
    if sources.len() == 0 {
        0
    } else {
        marked_sources(sources.drop_last(), marker) + if has_text(sources.last().1, marker) {
            1nat
        } else {
            0nat
        }
    }
}

/// The class entry of a source is no block exactly where its text lacks
/// the marker, and a block is always under the class of its source.
proof fn lemma_entry_shape(marker: Seq<char>, pattern: Seq<char>, keyword: Seq<char>, key: Seq<char>, contents: Seq<char>)
    ensures
        class_entry_spec(marker, pattern, keyword, key, contents) == Ok::<Option<(Seq<char>, Seq<char>)>, DiagramError>(None)
            <==> !has_text(contents, marker),
        class_entry_spec(marker, pattern, keyword, key, contents) matches Ok(Some(row)) ==> row.0 == class_name_spec(key),
{
}

proof fn lemma_entries_step(marker: Seq<char>, pattern: Seq<char>, keyword: Seq<char>, sources: Seq<(Seq<char>, Seq<char>)>)
    requires
        sources.len() > 0,
        class_entries_spec(marker, pattern, keyword, sources) is Ok,
    ensures
        class_entries_spec(marker, pattern, keyword, sources.drop_last()) is Ok,
        has_text(sources.last().1, marker) ==> class_entries_spec(marker, pattern, keyword, sources).unwrap()
            == class_entries_spec(marker, pattern, keyword, sources.drop_last()).unwrap().push(
                (class_name_spec(sources.last().0), class_entries_spec(marker, pattern, keyword, sources).unwrap().last().1)),
        !has_text(sources.last().1, marker) ==> class_entries_spec(marker, pattern, keyword, sources).unwrap()
            == class_entries_spec(marker, pattern, keyword, sources.drop_last()).unwrap(),
{
    lemma_entry_shape(marker, pattern, keyword, sources.last().0, sources.last().1);
}

/// Where the blocks of a kind of declaration are found, there are as many
/// as there are sources whose text holds the kind's marker: every such
/// source gives a block, methods found or not.
pub proof fn one_block_per_marked_source(marker: Seq<char>, pattern: Seq<char>, keyword: Seq<char>, sources: Seq<(Seq<char>, Seq<char>)>)
    ensures
        class_entries_spec(marker, pattern, keyword, sources) matches Ok(rows) ==> rows.len() == marked_sources(sources, marker),
    decreases sources.len(),
{
    if sources.len() > 0 && class_entries_spec(marker, pattern, keyword, sources) is Ok {
        lemma_entries_step(marker, pattern, keyword, sources);
        one_block_per_marked_source(marker, pattern, keyword, sources.drop_last());
    }
}

/// Where the blocks of a kind of declaration are found, each source whose
/// text holds the kind's marker has a block under its class name.
pub proof fn marked_sources_have_blocks(marker: Seq<char>, pattern: Seq<char>, keyword: Seq<char>, sources: Seq<(Seq<char>, Seq<char>)>)
    ensures
        class_entries_spec(marker, pattern, keyword, sources) matches Ok(rows) ==> forall|j: int|
            0 <= j < sources.len() && has_text(#[trigger] sources[j].1, marker) ==> exists|m: int|
                0 <= m < rows.len() && (#[trigger] rows[m]).0 == class_name_spec(sources[j].0),
    decreases sources.len(),
{
    if sources.len() > 0 && class_entries_spec(marker, pattern, keyword, sources) is Ok {
        let prev = sources.drop_last();
        lemma_entries_step(marker, pattern, keyword, sources);
        marked_sources_have_blocks(marker, pattern, keyword, prev);
        let rows = class_entries_spec(marker, pattern, keyword, sources).unwrap();
        let before = class_entries_spec(marker, pattern, keyword, prev).unwrap();
        assert forall|j: int| 0 <= j < sources.len() && has_text(#[trigger] sources[j].1, marker)
            implies exists|m: int| 0 <= m < rows.len() && (#[trigger] rows[m]).0 == class_name_spec(sources[j].0) by {
            if j == sources.len() - 1 {
                assert(rows[before.len() as int].0 == class_name_spec(sources[j].0));
            } else {
                assert(prev[j] == sources[j]);
                assert(has_text(prev[j].1, marker));
                let m = choose|m: int| 0 <= m < before.len() && (#[trigger] before[m]).0 == class_name_spec(prev[j].0);
                assert(rows[m] == before[m]);
            }
        }
    }
}

/// Where the blocks of a kind of declaration are found, each block is that
/// of a source whose text holds the kind's marker.
pub proof fn blocks_come_from_marked_sources(marker: Seq<char>, pattern: Seq<char>, keyword: Seq<char>, sources: Seq<(Seq<char>, Seq<char>)>)
    ensures
        class_entries_spec(marker, pattern, keyword, sources) matches Ok(rows) ==> forall|m: int|
            0 <= m < rows.len() ==> exists|j: int| 0 <= j < sources.len()
                && has_text(#[trigger] sources[j].1, marker) && (#[trigger] rows[m]).0 == class_name_spec(sources[j].0),
    decreases sources.len(),
{
    if sources.len() > 0 && class_entries_spec(marker, pattern, keyword, sources) is Ok {
        let prev = sources.drop_last();
        lemma_entries_step(marker, pattern, keyword, sources);
        blocks_come_from_marked_sources(marker, pattern, keyword, prev);
        let rows = class_entries_spec(marker, pattern, keyword, sources).unwrap();
        let before = class_entries_spec(marker, pattern, keyword, prev).unwrap();
        assert forall|m: int| 0 <= m < rows.len() implies exists|j: int| 0 <= j < sources.len()
            && has_text(#[trigger] sources[j].1, marker) && (#[trigger] rows[m]).0 == class_name_spec(sources[j].0) by {
            if m < before.len() {
                assert(rows[m] == before[m]);
                let j = choose|j: int| 0 <= j < prev.len() && has_text(#[trigger] prev[j].1, marker)
                    && (#[trigger] before[m]).0 == class_name_spec(prev[j].0);
                assert(prev[j] == sources[j]);
            } else {
                let n = sources.len() - 1;
                assert(has_text(sources[n].1, marker));
            }
        }
    }
}
} // verus!
