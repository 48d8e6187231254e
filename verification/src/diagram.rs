//! Packages of class blocks, and the PlantUML document of each top-level
//! package with the blocks it needs and the dependency arrows.

use vstd::prelude::*;
use crate::text::{has_text, occurs_at, chars_of_string, begins_with, chars_of, lines, lines_of, one_char, replace_text, replaced, starts_with_text, text_of, lemma_chars_deep_view};
use crate::names::{top_part_has_no_dot, diagram_file_name_of_dotless, alias_of, alias_spec, diagram_file_name, diagram_file_name_spec, package_of, package_part, top_package_of, top_part};
use crate::deps::{dependency_table, dependency_table_spec};
use crate::table::{
    add_text, added_all, added_all_members, distinct_keys, find_key, insert_entry, inserted,
    inserted_all, inserted_all_keeps_keys_distinct, inserted_keeps_keys_distinct, lemma_key_index,
    lookup,
};
use crate::declarations::{DiagramError, add_file_data, class_entries_spec};

verus! {

/// The lines of `ls`, each after a tab and followed by a line feed.
pub open spec fn indented_lines(ls: Seq<Seq<char>>) -> Seq<char>
    decreases ls.len(),
{
    if ls.len() == 0 {
        Seq::empty()
    } else {
        indented_lines(ls.drop_last()) + seq!['\t'] + ls.last() + seq!['\n']
    }
}

/// `block` indented by one tab, line by line.
pub open spec fn indented(block: Seq<char>) -> Seq<char> {
    indented_lines(lines_of(block))
}

/// The opening line of the definition of package `pkg`.
pub open spec fn package_header(pkg: Seq<char>) -> Seq<char> {
    "package "@ + pkg + " {\n"@
}

/// `defs` after the block `block` is added to the definition of `pkg`,
/// which is opened first where `defs` has none.
pub open spec fn with_block(defs: Seq<(Seq<char>, Seq<char>)>, pkg: Seq<char>, block: Seq<char>) -> Seq<(Seq<char>, Seq<char>)> {
    let start = match lookup(defs, pkg) {
        Some(d) => d,
        None => package_header(pkg),
    };
    inserted(defs, pkg, start + indented(block))
}

/// Whether the class `name` has a place in a grouping limited to `only`:
/// it belongs to a package, and where `only` is given, its name (with
/// backslashes read as dots) is among `only`.
pub open spec fn grouped_class(name: Seq<char>, only: Option<Seq<Seq<char>>>) -> bool {
    &&& package_part(name).len() > 0
    &&& match only {
        None => true,
        Some(names) => names.contains(replaced(name, seq!['\\'], seq!['.'])),
    }
}

/// The package definitions that the class blocks `classes` make, limited
/// to the classes of `only` where it is given.
pub open spec fn grouped(classes: Seq<(Seq<char>, Seq<char>)>, only: Option<Seq<Seq<char>>>) -> Seq<(Seq<char>, Seq<char>)>
    decreases classes.len(),
{
    if classes.len() == 0 {
        Seq::empty()
    } else {
        let rest = grouped(classes.drop_last(), only);
        let (name, block) = classes.last();
        if grouped_class(name, only) {
            with_block(rest, package_part(name), block)
        } else {
            rest
        }
    }
}

/// The rows of `rows` whose keys begin with `top`, in order.
pub open spec fn rows_under<V>(rows: Seq<(Seq<char>, V)>, top: Seq<char>) -> Seq<(Seq<char>, V)>
    decreases rows.len(),
{
    if rows.len() == 0 {
        Seq::empty()
    } else {
        let rest = rows_under(rows.drop_last(), top);
        if begins_with(rows.last().0, top) {
            rest.push(rows.last())
        } else {
            rest
        }
    }
}

/// The names among `names` that do not begin with `top`, in order.
pub open spec fn names_outside(names: Seq<Seq<char>>, top: Seq<char>) -> Seq<Seq<char>>
    decreases names.len(),
{
    if names.len() == 0 {
        Seq::empty()
    } else {
        let rest = names_outside(names.drop_last(), top);
        if begins_with(names.last(), top) {
            rest
        } else {
            rest.push(names.last())
        }
    }
}

/// The classes outside `top` that the dependency rows `rows` name, each
/// once.
pub open spec fn outside_targets(rows: Seq<(Seq<char>, Seq<Seq<char>>)>, top: Seq<char>) -> Seq<Seq<char>>
    decreases rows.len(),
{
    if rows.len() == 0 {
        Seq::empty()
    } else {
        added_all(outside_targets(rows.drop_last(), top), names_outside(rows.last().1, top))
    }
}

/// The package definitions of `defs`, each closed with a brace and a line
/// feed, one after the other.
pub open spec fn closed_definitions(defs: Seq<(Seq<char>, Seq<char>)>) -> Seq<char>
    decreases defs.len(),
{
    if defs.len() == 0 {
        Seq::empty()
    } else {
        closed_definitions(defs.drop_last()) + defs.last().1 + "}\n"@
    }
}

/// The arrow from class `from` to class `to`.
pub open spec fn arrow(from: Seq<char>, to: Seq<char>) -> Seq<char> {
    alias_spec(from) + " --> "@ + alias_spec(to) + seq!['\n']
}

/// The arrows from class `from` to each of `tos`.
pub open spec fn arrows_from(from: Seq<char>, tos: Seq<Seq<char>>) -> Seq<char>
    decreases tos.len(),
{
    if tos.len() == 0 {
        Seq::empty()
    } else {
        arrows_from(from, tos.drop_last()) + arrow(from, tos.last())
    }
}

/// The arrows of all dependency rows `rows`.
pub open spec fn arrows(rows: Seq<(Seq<char>, Seq<Seq<char>>)>) -> Seq<char>
    decreases rows.len(),
{
    if rows.len() == 0 {
        Seq::empty()
    } else {
        arrows(rows.drop_last()) + arrows_from(rows.last().0, rows.last().1)
    }
}

/// The body of the diagram of top package `top`: the definitions of the
/// packages under it, those of the packages of outside classes that its
/// classes depend on, and the arrows of its classes.
pub open spec fn diagram_body(classes: Seq<(Seq<char>, Seq<char>)>, deps: Seq<(Seq<char>, Seq<Seq<char>>)>, top: Seq<char>) -> Seq<char> {
    let inside = rows_under(deps, top);
    closed_definitions(rows_under(grouped(classes, None), top))
        + closed_definitions(grouped(classes, Some(outside_targets(inside, top))))
        + arrows(inside)
}

/// A PlantUML document with body `body`.
pub open spec fn uml_document_spec(body: Seq<char>) -> Seq<char> {
    "@startuml\n"@ + body + "@enduml"@
}

/// The distinct top-level packages of `packages`, in order of first
/// appearance.
pub open spec fn top_packages(packages: Seq<Seq<char>>) -> Seq<Seq<char>> {
    added_all(Seq::empty(), packages.map_values(|p: Seq<char>| top_part(p)))
}

/// The three kinds of declaration that are drawn: the text that announces
/// each in a source, the pattern that finds its public methods, and the
/// word that draws it.
pub open spec fn declaration_kinds_spec() -> Seq<(Seq<char>, Seq<char>, Seq<char>)> {
    seq![
        ("public class"@, class_pattern_text(), "class"@),
        ("public abstract class"@, abstract_class_pattern_text(), "abstract class"@),
        ("public interface"@, interface_pattern_text(), "interface"@),
    ]
}

/// The class blocks of `sources` for the kinds of declaration of `kinds`,
/// added in turn to a table; the first error met, if any.
pub open spec fn class_table_from(kinds: Seq<(Seq<char>, Seq<char>, Seq<char>)>, sources: Seq<(Seq<char>, Seq<char>)>) -> Result<Seq<(Seq<char>, Seq<char>)>, DiagramError>
    decreases kinds.len(),
{
    if kinds.len() == 0 {
        Ok(Seq::empty())
    } else {
        match class_table_from(kinds.drop_last(), sources) {
            Err(e) => Err(e),
            Ok(table) => {
                let (marker, pattern, keyword) = kinds.last();
                match class_entries_spec(marker, pattern, keyword, sources) {
                    Err(e) => Err(e),
                    Ok(rows) => Ok(inserted_all(table, rows)),
                }
            },
        }
    }
}

/// The table of all class blocks of `sources`.
pub open spec fn class_table_spec(sources: Seq<(Seq<char>, Seq<char>)>) -> Result<Seq<(Seq<char>, Seq<char>)>, DiagramError> {
    class_table_from(declaration_kinds_spec(), sources)
}

/// The diagrams of a project: for each top-level package of `packages`,
/// the file name and the document.
pub open spec fn diagrams_spec(packages: Seq<Seq<char>>, sources: Seq<(Seq<char>, Seq<char>)>, base: Seq<char>) -> Result<Seq<(Seq<char>, Seq<char>)>, DiagramError> {
    match class_table_spec(sources) {
        Err(e) => Err(e),
        Ok(classes) => {
            let deps = dependency_table_spec(sources, base);
            Ok(top_packages(packages).map_values(|top: Seq<char>| (
                diagram_file_name_spec(top),
                uml_document_spec(diagram_body(classes, deps, top)),
            )))
        },
    }
}

/// The pattern of the public methods of a class.
pub fn class_pattern() -> (p: &'static str)
    ensures
        p@ == class_pattern_text(),
{
    r"public\s+(static\s+)?(final\s+)?([\w\[\]<>]+[\s\*]+)+(\w+)\s*\(([^)]+)\)(\s*throws\s+[^{]+)?\s*\{"
}

/// The pattern of the first public method of an abstract class.
pub fn abstract_class_pattern() -> (p: &'static str)
    ensures
        p@ == abstract_class_pattern_text(),
{
    r"public\s+abstract\s+class\s+\w+\s*[^{]*\{(?:[^{}]*\{[^{}]*\}[^{}]*)*?\s*public\s+(static\s+)?(final\s+)?([\w\[\]<>]+[\s\*]+)+(\w+)\s*\((.*?)\)(\s*throws\s+[^{]+)?\s*\{"
}

/// The pattern of the first method of an interface.
pub fn interface_pattern() -> (p: &'static str)
    ensures
        p@ == interface_pattern_text(),
{
    r"public\s+interface\s+\w+\s*\{[^{}]*?\s*((?:static\s+)?(?:final\s+)?)(([\w\[\]<>]+[\s\*]*)+)\s+(\w+)\s*\((.*?)\)(\s*throws\s+[^{]+)?\s*;"
}

/// The text of `class_pattern`.
pub open spec fn class_pattern_text() -> Seq<char> {
    r"public\s+(static\s+)?(final\s+)?([\w\[\]<>]+[\s\*]+)+(\w+)\s*\(([^)]+)\)(\s*throws\s+[^{]+)?\s*\{"@
}

/// The text of `abstract_class_pattern`.
pub open spec fn abstract_class_pattern_text() -> Seq<char> {
    r"public\s+abstract\s+class\s+\w+\s*[^{]*\{(?:[^{}]*\{[^{}]*\}[^{}]*)*?\s*public\s+(static\s+)?(final\s+)?([\w\[\]<>]+[\s\*]+)+(\w+)\s*\((.*?)\)(\s*throws\s+[^{]+)?\s*\{"@
}

/// The text of `interface_pattern`.
pub open spec fn interface_pattern_text() -> Seq<char> {
    r"public\s+interface\s+\w+\s*\{[^{}]*?\s*((?:static\s+)?(?:final\s+)?)(([\w\[\]<>]+[\s\*]*)+)\s+(\w+)\s*\((.*?)\)(\s*throws\s+[^{]+)?\s*;"@
}


/// `block` indented by one tab, line by line.
pub fn indent_block(block: &[char]) -> (out: Vec<char>)
    ensures
        out@ == indented(block@),
{
    let ls = lines(block);
    let ghost all = lines_of(block@);
    let mut out: Vec<char> = Vec::new();
    assert(out@ =~= indented_lines(all.take(0)));
    let mut i: usize = 0;
    while i < ls.len()
        invariant
            i <= ls.len(),
            ls.deep_view() == all,
            out@ == indented_lines(all.take(i as int)),
        decreases ls.len() - i,
    {
        assert(all.take(i + 1).drop_last() =~= all.take(i as int));
        proof {
            lemma_chars_deep_view(ls@[i as int]);
        }
        out.push('\t');
        out.extend_from_slice(&ls[i]);
        out.push('\n');
        assert(out@ =~= indented_lines(all.take(i + 1)));
        i = i + 1;
    }
    assert(all.take(ls.len() as int) =~= all);
    out
}

/// Adds `block` to the definition of package `pkg` in `defs`, opening the
/// definition first where there is none.
pub fn add_block_to_package(defs: &mut Vec<(String, String)>, pkg: &[char], block: &[char])
    ensures
        final(defs).deep_view() == with_block(old(defs).deep_view(), pkg@, block@),
{
    let key = text_of(pkg);
    let ghost d = defs.deep_view();
    proof {
        lemma_key_index(d, pkg@);
    }
    let mut start = match find_key(defs, &key) {
        Some(i) => {
            assert(d[i as int] == (defs@[i as int].0@, defs@[i as int].1@));
            chars_of_string(&defs[i].1)
        },
        None => {
            let mut h = chars_of("package ");
            h.extend_from_slice(pkg);
            h.extend_from_slice(&chars_of(" {\n"));
            assert(h@ =~= package_header(pkg@));
            h
        },
    };
    assert(start@ == match lookup(d, pkg@) {
        Some(v) => v,
        None => package_header(pkg@),
    });
    let ghost opened = start@;
    start.extend_from_slice(&indent_block(block));
    assert(start@ =~= opened + indented(block@));
    insert_entry(defs, key, text_of(&start));
}

/// Whether `items` holds the text `x`.
pub fn holds_text(items: &Vec<String>, x: &[char]) -> (b: bool)
    ensures
        b == items.deep_view().contains(x@),
{
    let ghost d = items.deep_view();
    let target = text_of(x);
    let mut j: usize = 0;
    while j < items.len()
        invariant
            j <= items.len(),
            d == items.deep_view(),
            target@ == x@,
            forall|m: int| 0 <= m < j ==> d[m] != x@,
        decreases items.len() - j,
    {
        if items[j] == target {
            assert(d[j as int] == x@);
            return true;
        }
        j = j + 1;
    }
    false
}

/// The view of an optional list of names.
pub open spec fn names_view(only: Option<&Vec<String>>) -> Option<Seq<Seq<char>>> {
    match only {
        None => None,
        Some(v) => Some(v.deep_view()),
    }
}

/// Groups the class blocks `classes` into package definitions, limited to
/// the classes of `only` where it is given.
pub fn group_by_package(classes: &Vec<(String, String)>, only: Option<&Vec<String>>) -> (out: Vec<(String, String)>)
    ensures
        out.deep_view() == grouped(classes.deep_view(), names_view(only)),
{
    let ghost all = classes.deep_view();
    let mut out: Vec<(String, String)> = Vec::new();
    assert(out.deep_view() =~= grouped(all.take(0), names_view(only)));
    let mut i: usize = 0;
    while i < classes.len()
        invariant
            i <= classes.len(),
            all == classes.deep_view(),
            out.deep_view() == grouped(all.take(i as int), names_view(only)),
        decreases classes.len() - i,
    {
        assert(all.take(i + 1).drop_last() =~= all.take(i as int));
        let name = chars_of_string(&classes[i].0);
        let block = chars_of_string(&classes[i].1);
        assert(all[i as int] == (name@, block@));
        let pkg = package_of(&name);
        let wanted = if pkg.len() == 0 {
            false
        } else {
            match only {
                None => true,
                Some(names) => holds_text(names, &replace_text(&name, &one_char('\\'), &one_char('.'))),
            }
        };
        if wanted {
            add_block_to_package(&mut out, &pkg, &block);
        }
        i = i + 1;
    }
    assert(all.take(classes.len() as int) =~= all);
    out
}

/// The names of `names` that do not begin with `top`, added to `acc`.
fn add_names_outside(acc: &mut Vec<String>, names: &Vec<String>, top: &[char])
    ensures
        final(acc).deep_view() == added_all(old(acc).deep_view(), names_outside(names.deep_view(), top@)),
{
    let ghost start = acc.deep_view();
    let ghost all = names.deep_view();
    assert(names_outside(all.take(0), top@) =~= Seq::<Seq<char>>::empty());
    let mut i: usize = 0;
    while i < names.len()
        invariant
            i <= names.len(),
            all == names.deep_view(),
            acc.deep_view() == added_all(start, names_outside(all.take(i as int), top@)),
        decreases names.len() - i,
    {
        assert(all.take(i + 1).drop_last() =~= all.take(i as int));
        let name = chars_of_string(&names[i]);
        assert(all[i as int] == name@);
        let ghost before = names_outside(all.take(i as int), top@);
        if !starts_with_text(&name, top) {
            assert(names_outside(all.take(i + 1), top@) == before.push(name@));
            assert(before.push(name@).drop_last() =~= before);
            add_text(acc, names[i].clone());
        }
        i = i + 1;
    }
    assert(all.take(names.len() as int) =~= all);
}

/// The dependency rows of the classes under `top`, and the classes
/// outside `top` that they name.
fn rows_and_targets(deps: &Vec<(String, Vec<String>)>, top: &[char]) -> (out: (Vec<(String, Vec<String>)>, Vec<String>))
    ensures
        out.0.deep_view() == rows_under(deps.deep_view(), top@),
        out.1.deep_view() == outside_targets(rows_under(deps.deep_view(), top@), top@),
{
    let ghost all = deps.deep_view();
    let mut rows: Vec<(String, Vec<String>)> = Vec::new();
    let mut targets: Vec<String> = Vec::new();
    assert(rows.deep_view() =~= rows_under(all.take(0), top@));
    assert(targets.deep_view() =~= Seq::<Seq<char>>::empty());
    let mut i: usize = 0;
    while i < deps.len()
        invariant
            i <= deps.len(),
            all == deps.deep_view(),
            rows.deep_view() == rows_under(all.take(i as int), top@),
            targets.deep_view() == outside_targets(rows.deep_view(), top@),
        decreases deps.len() - i,
    {
        assert(all.take(i + 1).drop_last() =~= all.take(i as int));
        let name = chars_of_string(&deps[i].0);
        assert(all[i as int].0 == name@);
        if starts_with_text(&name, top) {
            let ghost before = rows.deep_view();
            let ghost row = all[i as int];
            add_names_outside(&mut targets, &deps[i].1, top);
            rows.push((deps[i].0.clone(), deps[i].1.clone()));
            assert(rows.deep_view() =~= before.push(row));
            assert(rows.deep_view().drop_last() =~= before);
        }
        i = i + 1;
    }
    assert(all.take(deps.len() as int) =~= all);
    (rows, targets)
}

/// The package definitions of `defs` (those under `top` where it is
/// given), each closed with a brace and a line feed, added to `out`.
fn close_definitions(out: &mut Vec<char>, defs: &Vec<(String, String)>, top: Option<&[char]>)
    ensures
        final(out)@ == old(out)@ + closed_definitions(match top {
            None => defs.deep_view(),
            Some(t) => rows_under(defs.deep_view(), t@),
        }),
{
    let ghost start = out@;
    let ghost all = defs.deep_view();
    let ghost pick = |d: Seq<(Seq<char>, Seq<char>)>| match top {
        None => d,
        Some(t) => rows_under(d, t@),
    };
    assert(all.take(0) =~= Seq::<(Seq<char>, Seq<char>)>::empty());
    assert(out@ =~= start + closed_definitions(pick(all.take(0))));
    let mut i: usize = 0;
    while i < defs.len()
        invariant
            i <= defs.len(),
            all == defs.deep_view(),
            pick == (|d: Seq<(Seq<char>, Seq<char>)>| match top {
                None => d,
                Some(t) => rows_under(d, t@),
            }),
            out@ == start + closed_definitions(pick(all.take(i as int))),
        decreases defs.len() - i,
    {
        assert(all.take(i + 1).drop_last() =~= all.take(i as int));
        let name = chars_of_string(&defs[i].0);
        assert(all[i as int] == (name@, defs@[i as int].1@));
        let wanted = match top {
            None => true,
            Some(t) => starts_with_text(&name, t),
        };
        if wanted {
            let ghost before = pick(all.take(i as int));
            assert(pick(all.take(i + 1)) == before.push(all[i as int]));
            assert(before.push(all[i as int]).drop_last() =~= before);
            out.extend_from_slice(&chars_of_string(&defs[i].1));
            out.extend_from_slice(&chars_of("}\n"));
            assert(out@ =~= start + closed_definitions(pick(all.take(i + 1))));
        }
        i = i + 1;
    }
    assert(all.take(defs.len() as int) =~= all);
}

/// The arrows of the dependency rows `rows`, added to `out`.
fn draw_arrows(out: &mut Vec<char>, rows: &Vec<(String, Vec<String>)>)
    ensures
        final(out)@ == old(out)@ + arrows(rows.deep_view()),
{
    let ghost start = out@;
    let ghost all = rows.deep_view();
    assert(out@ =~= start + arrows(all.take(0)));
    let mut i: usize = 0;
    while i < rows.len()
        invariant
            i <= rows.len(),
            all == rows.deep_view(),
            out@ == start + arrows(all.take(i as int)),
        decreases rows.len() - i,
    {
        assert(all.take(i + 1).drop_last() =~= all.take(i as int));
        let from = chars_of_string(&rows[i].0);
        let from_alias = alias_of(&from);
        let tos = &rows[i].1;
        let ghost tv = tos.deep_view();
        assert(all[i as int] == (from@, tv));
        let ghost mid = out@;
        assert(tv.take(0) =~= Seq::<Seq<char>>::empty());
        assert(out@ =~= mid + arrows_from(from@, tv.take(0)));
        let mut j: usize = 0;
        while j < tos.len()
            invariant
                j <= tos.len(),
                tv == tos.deep_view(),
                from_alias@ == alias_spec(from@),
                out@ == mid + arrows_from(from@, tv.take(j as int)),
            decreases tos.len() - j,
        {
            assert(tv.take(j + 1).drop_last() =~= tv.take(j as int));
            let to = chars_of_string(&tos[j]);
            assert(tv[j as int] == to@);
            out.extend_from_slice(&from_alias);
            out.extend_from_slice(&chars_of(" --> "));
            out.extend_from_slice(&alias_of(&to));
            out.push('\n');
            assert(out@ =~= mid + arrows_from(from@, tv.take(j + 1)));
            j = j + 1;
        }
        assert(tv.take(tos.len() as int) =~= tv);
        assert(out@ =~= start + arrows(all.take(i + 1)));
        i = i + 1;
    }
    assert(all.take(rows.len() as int) =~= all);
}

/// The body of the diagram of top package `top`, given the class blocks
/// `classes`, their package definitions `defs` and the dependency table
/// `deps`.
pub fn diagram_body_of(classes: &Vec<(String, String)>, defs: &Vec<(String, String)>, deps: &Vec<(String, Vec<String>)>, top: &[char]) -> (out: Vec<char>)
    requires
        defs.deep_view() == grouped(classes.deep_view(), None),
    ensures
        out@ == diagram_body(classes.deep_view(), deps.deep_view(), top@),
{
    let mut out: Vec<char> = Vec::new();
    close_definitions(&mut out, defs, Some(top));
    let (inside, targets) = rows_and_targets(deps, top);
    let depended = group_by_package(classes, Some(&targets));
    close_definitions(&mut out, &depended, None);
    draw_arrows(&mut out, &inside);
    assert(out@ =~= diagram_body(classes.deep_view(), deps.deep_view(), top@));
    out
}

/// A PlantUML document with body `body`.
pub fn uml_document(body: &str) -> (out: String)
    ensures
        out@ == uml_document_spec(body@),
{
    let mut text = chars_of("@startuml\n");
    text.extend_from_slice(&chars_of(body));
    text.extend_from_slice(&chars_of("@enduml"));
    assert(text@ =~= uml_document_spec(body@));
    text_of(&text)
}

/// The distinct top-level packages of `packages`, in order of first
/// appearance.
pub fn top_packages_of(packages: &Vec<String>) -> (out: Vec<String>)
    ensures
        out.deep_view() == top_packages(packages.deep_view()),
{
    let ghost all = packages.deep_view();
    let ghost tops = all.map_values(|p: Seq<char>| top_part(p));
    let mut out: Vec<String> = Vec::new();
    assert(tops.take(0) =~= Seq::<Seq<char>>::empty());
    assert(out.deep_view() =~= added_all(Seq::empty(), tops.take(0)));
    let mut i: usize = 0;
    while i < packages.len()
        invariant
            i <= packages.len(),
            all == packages.deep_view(),
            tops == all.map_values(|p: Seq<char>| top_part(p)),
            out.deep_view() == added_all(Seq::empty(), tops.take(i as int)),
        decreases packages.len() - i,
    {
        assert(tops.take(i + 1).drop_last() =~= tops.take(i as int));
        let top = top_package_of(&chars_of_string(&packages[i]));
        assert(tops.take(i + 1).last() == top@);
        add_text(&mut out, text_of(&top));
        i = i + 1;
    }
    assert(tops.take(packages.len() as int) =~= tops);
    out
}

/// The view of a table of texts or of the error that stopped it.
pub open spec fn table_view(r: Result<Vec<(String, String)>, DiagramError>) -> Result<Seq<(Seq<char>, Seq<char>)>, DiagramError> {
    match r {
        Ok(t) => Ok(t.deep_view()),
        Err(e) => Err(e),
    }
}

/// The table of all class blocks of `sources`: the blocks of classes, of
/// abstract classes and of interfaces, added in that order.
pub fn class_table(sources: &Vec<(String, String)>) -> (r: Result<Vec<(String, String)>, DiagramError>)
    ensures
        table_view(r) == class_table_spec(sources.deep_view()),
{
    let ghost kinds = declaration_kinds_spec();
    let ghost srcs = sources.deep_view();
    assert(kinds.drop_last().drop_last().drop_last() =~= Seq::<(Seq<char>, Seq<char>, Seq<char>)>::empty());
    assert(kinds.drop_last().drop_last().last() == kinds[0]);
    assert(kinds.drop_last().last() == kinds[1]);
    assert(kinds.last() == kinds[2]);
    let ghost t0 = class_table_from(kinds.drop_last().drop_last().drop_last(), srcs);
    let ghost t1 = class_table_from(kinds.drop_last().drop_last(), srcs);
    let ghost t2 = class_table_from(kinds.drop_last(), srcs);
    assert(t0 == Ok::<Seq<(Seq<char>, Seq<char>)>, DiagramError>(Seq::empty()));
    let mut table: Vec<(String, String)> = Vec::new();
    assert(table.deep_view() =~= Seq::<(Seq<char>, Seq<char>)>::empty());
    match add_file_data("public class", class_pattern(), "class", sources, &mut table) {
        Err(e) => {
            return Err(e);
        },
        Ok(()) => {},
    }
    assert(t1 == Ok::<Seq<(Seq<char>, Seq<char>)>, DiagramError>(table.deep_view()));
    match add_file_data("public abstract class", abstract_class_pattern(), "abstract class", sources, &mut table) {
        Err(e) => {
            return Err(e);
        },
        Ok(()) => {},
    }
    assert(t2 == Ok::<Seq<(Seq<char>, Seq<char>)>, DiagramError>(table.deep_view()));
    match add_file_data("public interface", interface_pattern(), "interface", sources, &mut table) {
        Err(e) => {
            return Err(e);
        },
        Ok(()) => {},
    }
    Ok(table)
}

/// The diagram of one top package, as file name and document.
pub open spec fn diagram_of(classes: Seq<(Seq<char>, Seq<char>)>, deps: Seq<(Seq<char>, Seq<Seq<char>>)>, top: Seq<char>) -> (Seq<char>, Seq<char>) {
    (diagram_file_name_spec(top), uml_document_spec(diagram_body(classes, deps, top)))
}

/// The diagrams of the project whose package directories are `packages`,
/// whose Java sources are `sources` (source key and text, keys distinct)
/// and whose classes import their project's classes from package `base`:
/// for each top-level package, the name of its diagram file and the
/// diagram.
pub fn diagrams(packages: &Vec<String>, sources: &Vec<(String, String)>, base: &str) -> (r: Result<Vec<(String, String)>, DiagramError>)
    ensures
        table_view(r) == diagrams_spec(packages.deep_view(), sources.deep_view(), base@),
{
    let classes = match class_table(sources) {
        Err(e) => {
            return Err(e);
        },
        Ok(t) => t,
    };
    let deps = dependency_table(sources, base);
    let defs = group_by_package(&classes, None);
    let tops = top_packages_of(packages);
    let ghost cv = classes.deep_view();
    let ghost dv = deps.deep_view();
    let ghost tv = tops.deep_view();
    let mut out: Vec<(String, String)> = Vec::new();
    assert(out.deep_view() =~= tv.take(0).map_values(|top: Seq<char>| diagram_of(cv, dv, top)));
    let mut i: usize = 0;
    while i < tops.len()
        invariant
            i <= tops.len(),
            tv == tops.deep_view(),
            cv == classes.deep_view(),
            dv == deps.deep_view(),
            defs.deep_view() == grouped(cv, None),
            out.deep_view() == tv.take(i as int).map_values(|top: Seq<char>| diagram_of(cv, dv, top)),
        decreases tops.len() - i,
    {
        let top = chars_of_string(&tops[i]);
        assert(tv[i as int] == top@);
        let body = diagram_body_of(&classes, &defs, &deps, &top);
        let document = uml_document(text_of(&body).as_str());
        let file = text_of(&diagram_file_name(&top));
        let ghost before = out.deep_view();
        let ghost row = (file@, document@);
        out.push((file, document));
        assert(out.deep_view() =~= before.push(row));
        assert(out.deep_view() =~= tv.take(i + 1).map_values(|top: Seq<char>| diagram_of(cv, dv, top)));
        i = i + 1;
    }
    assert(tv.take(tops.len() as int) =~= tv);
    assert(out.deep_view() =~= tv.map_values(|top: Seq<char>| diagram_of(cv, dv, top)));
    assert(tv.map_values(|top: Seq<char>| diagram_of(cv, dv, top)) =~= tv.map_values(|top: Seq<char>| (
        diagram_file_name_spec(top),
        uml_document_spec(diagram_body(cv, dv, top)),
    )));
    Ok(out)
}

/// Each top-level package of the project gets exactly one diagram, and no
/// two diagrams share a file name: the file of top package `t` is `t` with
/// `.puml` appended.
pub proof fn one_diagram_file_per_top_package(packages: Seq<Seq<char>>, sources: Seq<(Seq<char>, Seq<char>)>, base: Seq<char>)
    ensures
        top_packages(packages).no_duplicates(),
        forall|i: int| 0 <= i < top_packages(packages).len() ==> diagram_file_name_spec(
            #[trigger] top_packages(packages)[i],
        ) == top_packages(packages)[i] + ".puml"@,
        match diagrams_spec(packages, sources, base) {
            Ok(ds) => {
                &&& ds.len() == top_packages(packages).len()
                &&& forall|i: int, j: int|
                    0 <= i < ds.len() && 0 <= j < ds.len() && i != j ==> #[trigger] ds[i].0 != #[trigger] ds[j].0
            },
            Err(_) => true,
        },
{
    let tops = top_packages(packages);
    let xs = packages.map_values(|p: Seq<char>| top_part(p));
    added_all_members(Seq::empty(), xs);
    assert forall|i: int| 0 <= i < tops.len() implies !(#[trigger] tops[i]).contains('.')
        && diagram_file_name_spec(tops[i]) == tops[i] + ".puml"@ by {
        assert(tops.contains(tops[i]));
        assert(xs.contains(tops[i]));
        let k = choose|k: int| 0 <= k < xs.len() && xs[k] == tops[i];
        top_part_has_no_dot(packages[k]);
        diagram_file_name_of_dotless(tops[i]);
    }
    assert forall|i: int, j: int| 0 <= i < tops.len() && 0 <= j < tops.len() && i != j
        implies diagram_file_name_spec(tops[i]) != diagram_file_name_spec(tops[j]) by {
        let a = tops[i] + ".puml"@;
        let b = tops[j] + ".puml"@;
        if a == b {
            assert(a.len() == tops[i].len() + ".puml"@.len());
            assert(b.len() == tops[j].len() + ".puml"@.len());
            assert(tops[i].len() == tops[j].len());
            assert(a.take(tops[i].len() as int) =~= tops[i]);
            assert(b.take(tops[j].len() as int) =~= tops[j]);
        }
    }
}

/// The class table names each class once.
pub proof fn class_table_keys_distinct(sources: Seq<(Seq<char>, Seq<char>)>)
    ensures
        class_table_spec(sources) matches Ok(table) ==> distinct_keys(table),
{
    lemma_class_table_from_distinct(declaration_kinds_spec(), sources);
}

proof fn lemma_class_table_from_distinct(kinds: Seq<(Seq<char>, Seq<char>, Seq<char>)>, sources: Seq<(Seq<char>, Seq<char>)>)
    ensures
        class_table_from(kinds, sources) matches Ok(table) ==> distinct_keys(table),
    decreases kinds.len(),
{
    if kinds.len() > 0 {
        lemma_class_table_from_distinct(kinds.drop_last(), sources);
        if let Ok(table) = class_table_from(kinds.drop_last(), sources) {
            let (marker, pattern, keyword) = kinds.last();
            if let Ok(rows) = class_entries_spec(marker, pattern, keyword, sources) {
                inserted_all_keeps_keys_distinct(table, rows);
            }
        }
    }
}

/// Each package is defined once in a grouping of class blocks.
pub proof fn packages_defined_once(classes: Seq<(Seq<char>, Seq<char>)>, only: Option<Seq<Seq<char>>>)
    ensures
        distinct_keys(grouped(classes, only)),
    decreases classes.len(),
{
    if classes.len() > 0 {
        packages_defined_once(classes.drop_last(), only);
        let rest = grouped(classes.drop_last(), only);
        let (name, block) = classes.last();
        let pkg = package_part(name);
        let start = match lookup(rest, pkg) {
            Some(d) => d,
            None => package_header(pkg),
        };
        inserted_keeps_keys_distinct(rest, pkg, start + indented(block));
    }
}

proof fn lemma_has_text_in_sum(a: Seq<char>, b: Seq<char>, p: Seq<char>)
    ensures
        has_text(a, p) ==> has_text(a + b, p),
        has_text(b, p) ==> has_text(a + b, p),
{
    if has_text(a, p) {
        let i = choose|i: int| occurs_at(a, p, i);
        assert((a + b).subrange(i, i + p.len()) =~= a.subrange(i, i + p.len()));
        assert(occurs_at(a + b, p, i));
    }
    if has_text(b, p) {
        let i = choose|i: int| occurs_at(b, p, i);
        let j = a.len() + i;
        assert((a + b).subrange(j, j + p.len()) =~= b.subrange(i, i + p.len()));
        assert(occurs_at(a + b, p, j));
    }
}

proof fn lemma_closed_holds_each(defs: Seq<(Seq<char>, Seq<char>)>)
    ensures
        forall|j: int| 0 <= j < defs.len() ==> has_text(closed_definitions(defs), (#[trigger] defs[j]).1 + "}\n"@),
    decreases defs.len(),
{
    if defs.len() > 0 {
        let prev = defs.drop_last();
        lemma_closed_holds_each(prev);
        let last = defs.last().1 + "}\n"@;
        assert(closed_definitions(defs) =~= closed_definitions(prev) + last);
        assert forall|j: int| 0 <= j < defs.len() implies has_text(closed_definitions(defs), (#[trigger] defs[j]).1 + "}\n"@) by {
            lemma_has_text_in_sum(closed_definitions(prev), last, defs[j].1 + "}\n"@);
            if j == defs.len() - 1 {
                assert(last.subrange(0, last.len() as int) =~= last);
                assert(occurs_at(last, defs[j].1 + "}\n"@, 0));
            } else {
                assert(prev[j] == defs[j]);
            }
        }
    }
}

proof fn lemma_rows_under_holds(rows: Seq<(Seq<char>, Seq<char>)>, top: Seq<char>)
    ensures
        forall|i: int| 0 <= i < rows.len() && begins_with((#[trigger] rows[i]).0, top)
            ==> rows_under(rows, top).contains(rows[i]),
    decreases rows.len(),
{
    if rows.len() > 0 {
        let prev = rows.drop_last();
        lemma_rows_under_holds(prev, top);
        let under = rows_under(prev, top);
        assert forall|i: int| 0 <= i < rows.len() && begins_with((#[trigger] rows[i]).0, top)
            implies rows_under(rows, top).contains(rows[i]) by {
            if i == rows.len() - 1 {
                assert(under.push(rows[i])[under.len() as int] == rows[i]);
            } else {
                assert(prev[i] == rows[i]);
                let k = choose|k: int| 0 <= k < under.len() && under[k] == rows[i];
                if begins_with(rows.last().0, top) {
                    assert(under.push(rows.last())[k] == rows[i]);
                }
            }
        }
    }
}

/// The diagram of a top-level package shows, each closed with a brace, the
/// definition of every package whose name begins with the top package's
/// name, the top package itself included.
pub proof fn diagram_shows_packages_under_top(classes: Seq<(Seq<char>, Seq<char>)>, deps: Seq<(Seq<char>, Seq<Seq<char>>)>, top: Seq<char>)
    ensures
        forall|i: int| 0 <= i < grouped(classes, None).len() && begins_with((#[trigger] grouped(classes, None)[i]).0, top)
            ==> has_text(diagram_body(classes, deps, top), grouped(classes, None)[i].1 + "}\n"@),
{
    let defs = grouped(classes, None);
    let under = rows_under(defs, top);
    lemma_rows_under_holds(defs, top);
    lemma_closed_holds_each(under);
    let inside = rows_under(deps, top);
    let rest = closed_definitions(grouped(classes, Some(outside_targets(inside, top)))) + arrows(inside);
    assert(diagram_body(classes, deps, top) =~= closed_definitions(under) + rest);
    assert forall|i: int| 0 <= i < defs.len() && begins_with((#[trigger] defs[i]).0, top)
        implies has_text(diagram_body(classes, deps, top), defs[i].1 + "}\n"@) by {
        let k = choose|k: int| 0 <= k < under.len() && under[k] == defs[i];
        assert(has_text(closed_definitions(under), under[k].1 + "}\n"@));
        lemma_has_text_in_sum(closed_definitions(under), rest, defs[i].1 + "}\n"@);
    }
}

/// The three patterns are fixed texts: the return type of a method may
/// hold letters, digits, underscores, brackets and angle brackets, so that
/// array and generic return types are found.
pub proof fn declaration_patterns_are_fixed()
    ensures
        class_pattern_text() == "public\\s+(static\\s+)?(final\\s+)?([\\w\\[\\]<>]+[\\s\\*]+)+(\\w+)\\s*\\(([^)]+)\\)(\\s*throws\\s+[^{]+)?\\s*\\{"@,
        abstract_class_pattern_text() == "public\\s+abstract\\s+class\\s+\\w+\\s*[^{]*\\{(?:[^{}]*\\{[^{}]*\\}[^{}]*)*?\\s*public\\s+(static\\s+)?(final\\s+)?([\\w\\[\\]<>]+[\\s\\*]+)+(\\w+)\\s*\\((.*?)\\)(\\s*throws\\s+[^{]+)?\\s*\\{"@,
        interface_pattern_text() == "public\\s+interface\\s+\\w+\\s*\\{[^{}]*?\\s*((?:static\\s+)?(?:final\\s+)?)(([\\w\\[\\]<>]+[\\s\\*]*)+)\\s+(\\w+)\\s*\\((.*?)\\)(\\s*throws\\s+[^{]+)?\\s*;"@,
        has_text(class_pattern_text(), "([\\w\\[\\]<>]+[\\s\\*]+)+(\\w+)"@),
{
    reveal_strlit("public\\s+(static\\s+)?(final\\s+)?([\\w\\[\\]<>]+[\\s\\*]+)+(\\w+)\\s*\\(([^)]+)\\)(\\s*throws\\s+[^{]+)?\\s*\\{");
    reveal_strlit(r"public\s+(static\s+)?(final\s+)?([\w\[\]<>]+[\s\*]+)+(\w+)\s*\(([^)]+)\)(\s*throws\s+[^{]+)?\s*\{");
    reveal_strlit("public\\s+abstract\\s+class\\s+\\w+\\s*[^{]*\\{(?:[^{}]*\\{[^{}]*\\}[^{}]*)*?\\s*public\\s+(static\\s+)?(final\\s+)?([\\w\\[\\]<>]+[\\s\\*]+)+(\\w+)\\s*\\((.*?)\\)(\\s*throws\\s+[^{]+)?\\s*\\{");
    reveal_strlit(r"public\s+abstract\s+class\s+\w+\s*[^{]*\{(?:[^{}]*\{[^{}]*\}[^{}]*)*?\s*public\s+(static\s+)?(final\s+)?([\w\[\]<>]+[\s\*]+)+(\w+)\s*\((.*?)\)(\s*throws\s+[^{]+)?\s*\{");
    reveal_strlit("public\\s+interface\\s+\\w+\\s*\\{[^{}]*?\\s*((?:static\\s+)?(?:final\\s+)?)(([\\w\\[\\]<>]+[\\s\\*]*)+)\\s+(\\w+)\\s*\\((.*?)\\)(\\s*throws\\s+[^{]+)?\\s*;");
    reveal_strlit(r"public\s+interface\s+\w+\s*\{[^{}]*?\s*((?:static\s+)?(?:final\s+)?)(([\w\[\]<>]+[\s\*]*)+)\s+(\w+)\s*\((.*?)\)(\s*throws\s+[^{]+)?\s*;");
    reveal_strlit("([\\w\\[\\]<>]+[\\s\\*]+)+(\\w+)");
    assert(class_pattern_text() =~= "public\\s+(static\\s+)?(final\\s+)?([\\w\\[\\]<>]+[\\s\\*]+)+(\\w+)\\s*\\(([^)]+)\\)(\\s*throws\\s+[^{]+)?\\s*\\{"@);
    assert(abstract_class_pattern_text() =~= "public\\s+abstract\\s+class\\s+\\w+\\s*[^{]*\\{(?:[^{}]*\\{[^{}]*\\}[^{}]*)*?\\s*public\\s+(static\\s+)?(final\\s+)?([\\w\\[\\]<>]+[\\s\\*]+)+(\\w+)\\s*\\((.*?)\\)(\\s*throws\\s+[^{]+)?\\s*\\{"@);
    assert(interface_pattern_text() =~= "public\\s+interface\\s+\\w+\\s*\\{[^{}]*?\\s*((?:static\\s+)?(?:final\\s+)?)(([\\w\\[\\]<>]+[\\s\\*]*)+)\\s+(\\w+)\\s*\\((.*?)\\)(\\s*throws\\s+[^{]+)?\\s*;"@);
    let g = "([\\w\\[\\]<>]+[\\s\\*]+)+(\\w+)"@;
    assert(class_pattern_text().subrange(32, 32 + g.len() as int) =~= g);
    assert(occurs_at(class_pattern_text(), g, 32));
}

} // verus!
