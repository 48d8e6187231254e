//! Which classes each class depends on: its imports from the base package,
//! and the classes of its own package whose simple names it mentions.

use vstd::prelude::*;
use crate::text::{chars_of, chars_of_string, contains_text, has_text, lines, lines_of, no_chars, one_char, replace_text, replaced, same_text, text_of, lemma_chars_deep_view};
use crate::names::{class_name_of, class_name_spec, package_of, package_part, simple_name_of, simple_part};
use crate::table::{add_text, added_all, added_all_members, distinct_keys, insert_entry, inserted, inserted_keeps_keys_distinct, lemma_key_index, lookup, lookup_after_insert};

verus! {

/// A line that imports from the base package `base`: it holds the word
/// `import` and the base package's name.
pub open spec fn is_import_line(line: Seq<char>, base: Seq<char>) -> bool {
    has_text(line, "import"@) && has_text(line, base)
}

/// The class that an import line names: the line without `import `, without
/// the base package's name and without semicolons.
pub open spec fn import_target(line: Seq<char>, base: Seq<char>) -> Seq<char> {
    replaced(replaced(replaced(line, "import "@, Seq::empty()), base, Seq::empty()), seq![';'], Seq::empty())
}

/// The classes that the import lines among `lines` name, in order.
pub open spec fn imports_in(lines: Seq<Seq<char>>, base: Seq<char>) -> Seq<Seq<char>>
    decreases lines.len(),
{
    if lines.len() == 0 {
        Seq::empty()
    } else {
        let rest = imports_in(lines.drop_last(), base);
        if is_import_line(lines.last(), base) {
            rest.push(import_target(lines.last(), base))
        } else {
            rest
        }
    }
}

/// Whether class `name`, whose text is `contents`, uses class `other` of
/// its own package: same package, the simple name of `other` occurs in
/// `contents`, and `other` is another class.
pub open spec fn uses_sibling(name: Seq<char>, contents: Seq<char>, other: Seq<char>) -> bool {
    &&& package_part(name) == package_part(other)
    &&& has_text(contents, simple_part(other))
    &&& name != other
}

/// The classes among `sources` (pairs of source key and text) that class
/// `name` with text `contents` uses from its own package, in order.
pub open spec fn siblings_used(name: Seq<char>, contents: Seq<char>, sources: Seq<(Seq<char>, Seq<char>)>) -> Seq<Seq<char>>
    decreases sources.len(),
{
    if sources.len() == 0 {
        Seq::empty()
    } else {
        let rest = siblings_used(name, contents, sources.drop_last());
        let other = class_name_spec(sources.last().0);
        if uses_sibling(name, contents, other) {
            rest.push(other)
        } else {
            rest
        }
    }
}

/// The classes that the source at `key` with text `contents` depends on,
/// among `sources`: its imports, then the classes of its package that it
/// uses, each once.
pub open spec fn dependencies_of(key: Seq<char>, contents: Seq<char>, sources: Seq<(Seq<char>, Seq<char>)>, base: Seq<char>) -> Seq<Seq<char>> {
    added_all(
        added_all(Seq::empty(), imports_in(lines_of(contents), base)),
        siblings_used(class_name_spec(key), contents, sources),
    )
}

/// The dependency table of the first sources in `done`, each checked
/// against all of `sources`: class name to dependencies.
pub open spec fn dependency_rows(done: Seq<(Seq<char>, Seq<char>)>, sources: Seq<(Seq<char>, Seq<char>)>, base: Seq<char>) -> Seq<(Seq<char>, Seq<Seq<char>>)>
    decreases done.len(),
{
    if done.len() == 0 {
        Seq::empty()
    } else {
        let (k, c) = done.last();
        inserted(
            dependency_rows(done.drop_last(), sources, base),
            class_name_spec(k),
            dependencies_of(k, c, sources, base),
        )
    }
}

/// The dependency table of `sources`: each class name with the classes it
/// depends on.
pub open spec fn dependency_table_spec(sources: Seq<(Seq<char>, Seq<char>)>, base: Seq<char>) -> Seq<(Seq<char>, Seq<Seq<char>>)> {
    dependency_rows(sources, sources, base)
}

/// Whether `line` imports from the base package `base`.
pub fn is_import(line: &[char], base: &[char]) -> (b: bool)
    ensures
        b == is_import_line(line@, base@),
{
    let word = chars_of("import");
    contains_text(line, &word) && contains_text(line, base)
}

/// The class that import line `line` names.
pub fn imported_class(line: &[char], base: &[char]) -> (out: Vec<char>)
    ensures
        out@ == import_target(line@, base@),
{
    let keyword = chars_of("import ");
    proof {
        reveal_strlit("import ");
    }
    let a = replace_text(line, &keyword, &no_chars());
    let b = if base.len() == 0 {
        a
    } else {
        replace_text(&a, base, &no_chars())
    };
    replace_text(&b, &one_char(';'), &no_chars())
}

/// The classes that the source at `key` with text `contents` depends on,
/// given all `sources` of the project and its base package `base`.
pub fn dependencies(key: &String, contents: &String, sources: &Vec<(String, String)>, base: &[char]) -> (out: Vec<String>)
    ensures
        out.deep_view() == dependencies_of(key@, contents@, sources.deep_view(), base@),
{
    let text = chars_of_string(contents);
    let name = class_name_of(&chars_of_string(key));
    let all_lines = lines(&text);
    let ghost ls = lines_of(contents@);
    let mut out: Vec<String> = Vec::new();
    assert(out.deep_view() =~= Seq::<Seq<char>>::empty());
    let mut i: usize = 0;
    while i < all_lines.len()
        invariant
            i <= all_lines.len(),
            all_lines.deep_view() == ls,
            out.deep_view() == added_all(Seq::empty(), imports_in(ls.take(i as int), base@)),
        decreases all_lines.len() - i,
    {
        assert(ls.take(i + 1).drop_last() =~= ls.take(i as int));
        proof {
            lemma_chars_deep_view(all_lines@[i as int]);
        }
        let ghost before = imports_in(ls.take(i as int), base@);
        if is_import(&all_lines[i], base) {
            let target = imported_class(&all_lines[i], base);
            assert(imports_in(ls.take(i + 1), base@) == before.push(target@));
            assert(before.push(target@).drop_last() =~= before);
            add_text(&mut out, text_of(&target));
        }
        i = i + 1;
    }
    assert(ls.take(all_lines.len() as int) =~= ls);
    let ghost srcs = sources.deep_view();
    let ghost imported = out.deep_view();
    let mut j: usize = 0;
    while j < sources.len()
        invariant
            j <= sources.len(),
            srcs == sources.deep_view(),
            name@ == class_name_spec(key@),
            text@ == contents@,
            out.deep_view() == added_all(imported, siblings_used(name@, contents@, srcs.take(j as int))),
        decreases sources.len() - j,
    {
        assert(srcs.take(j + 1).drop_last() =~= srcs.take(j as int));
        let other = class_name_of(&chars_of_string(&sources[j].0));
        let ghost before = siblings_used(name@, contents@, srcs.take(j as int));
        if same_text(&package_of(&name), &package_of(&other))
            && contains_text(&text, &simple_name_of(&other))
            && !same_text(&name, &other)
        {
            assert(siblings_used(name@, contents@, srcs.take(j + 1)) == before.push(other@));
            assert(before.push(other@).drop_last() =~= before);
            add_text(&mut out, text_of(&other));
        }
        j = j + 1;
    }
    assert(srcs.take(sources.len() as int) =~= srcs);
    out
}

/// The dependency table of `sources` (pairs of source key and text, keys
/// distinct) in a project whose base package is `base`: each class name
/// with the classes it depends on.
pub fn dependency_table(sources: &Vec<(String, String)>, base: &str) -> (out: Vec<(String, Vec<String>)>)
    ensures
        out.deep_view() == dependency_table_spec(sources.deep_view(), base@),
{
    let b = chars_of(base);
    let ghost srcs = sources.deep_view();
    let mut out: Vec<(String, Vec<String>)> = Vec::new();
    assert(out.deep_view() =~= dependency_rows(srcs.take(0), srcs, base@));
    let mut i: usize = 0;
    while i < sources.len()
        invariant
            i <= sources.len(),
            srcs == sources.deep_view(),
            b@ == base@,
            out.deep_view() == dependency_rows(srcs.take(i as int), srcs, base@),
        decreases sources.len() - i,
    {
        assert(srcs.take(i + 1).drop_last() =~= srcs.take(i as int));
        let deps = dependencies(&sources[i].0, &sources[i].1, sources, &b);
        let name = class_name_of(&chars_of_string(&sources[i].0));
        insert_entry(&mut out, text_of(&name), deps);
        i = i + 1;
    }
    assert(srcs.take(sources.len() as int) =~= srcs);
    out
}

/// The dependency table names each class once, and lists each class that
/// a class depends on once.
pub proof fn dependency_table_well_formed(sources: Seq<(Seq<char>, Seq<char>)>, base: Seq<char>)
    ensures
        distinct_keys(dependency_table_spec(sources, base)),
        forall|i: int| 0 <= i < dependency_table_spec(sources, base).len()
            ==> (#[trigger] dependency_table_spec(sources, base)[i]).1.no_duplicates(),
{
    lemma_rows_well_formed(sources, sources, base);
}

proof fn lemma_rows_well_formed(done: Seq<(Seq<char>, Seq<char>)>, sources: Seq<(Seq<char>, Seq<char>)>, base: Seq<char>)
    ensures
        distinct_keys(dependency_rows(done, sources, base)),
        forall|i: int| 0 <= i < dependency_rows(done, sources, base).len()
            ==> (#[trigger] dependency_rows(done, sources, base)[i]).1.no_duplicates(),
    decreases done.len(),
{
    if done.len() > 0 {
        let prev = dependency_rows(done.drop_last(), sources, base);
        lemma_rows_well_formed(done.drop_last(), sources, base);
        let (k, c) = done.last();
        let v = dependencies_of(k, c, sources, base);
        let empty = Seq::<Seq<char>>::empty();
        added_all_members(empty, imports_in(lines_of(c), base));
        added_all_members(added_all(empty, imports_in(lines_of(c), base)), siblings_used(class_name_spec(k), c, sources));
        inserted_keeps_keys_distinct(prev, class_name_spec(k), v);
        lemma_key_index(prev, class_name_spec(k));
    }
}

/// A class is never among the classes of its own package that it uses.
pub proof fn no_class_uses_itself(name: Seq<char>, contents: Seq<char>, sources: Seq<(Seq<char>, Seq<char>)>)
    ensures
        !siblings_used(name, contents, sources).contains(name),
    decreases sources.len(),
{
    if sources.len() > 0 {
        no_class_uses_itself(name, contents, sources.drop_last());
        let rest = siblings_used(name, contents, sources.drop_last());
        let other = class_name_spec(sources.last().0);
        if uses_sibling(name, contents, other) && rest.push(other).contains(name) {
            let j = choose|j: int| 0 <= j < rest.len() + 1 && rest.push(other)[j] == name;
            if j < rest.len() {
                assert(rest[j] == name);
            }
        }
    }
}

proof fn lemma_siblings_members(name: Seq<char>, contents: Seq<char>, sources: Seq<(Seq<char>, Seq<char>)>)
    ensures
        forall|d: Seq<char>| siblings_used(name, contents, sources).contains(d) <==> exists|j: int|
            0 <= j < sources.len() && d == class_name_spec(#[trigger] sources[j].0) && uses_sibling(name, contents, d),
    decreases sources.len(),
{
    if sources.len() > 0 {
        let prev = sources.drop_last();
        lemma_siblings_members(name, contents, prev);
        let rest = siblings_used(name, contents, prev);
        let other = class_name_spec(sources.last().0);
        assert forall|d: Seq<char>| siblings_used(name, contents, sources).contains(d) <==> exists|j: int|
            0 <= j < sources.len() && d == class_name_spec(#[trigger] sources[j].0) && uses_sibling(name, contents, d) by {
            if siblings_used(name, contents, sources).contains(d) {
                if rest.contains(d) {
                    let j = choose|j: int| 0 <= j < prev.len() && d == class_name_spec(#[trigger] prev[j].0) && uses_sibling(name, contents, d);
                    assert(sources[j] == prev[j]);
                } else {
                    assert(uses_sibling(name, contents, other));
                    let k = choose|k: int| 0 <= k < rest.len() + 1 && rest.push(other)[k] == d;
                    if k < rest.len() {
                        assert(rest[k] == d);
                    }
                    assert(d == class_name_spec(sources[sources.len() - 1].0));
                }
            }
            if exists|j: int| 0 <= j < sources.len() && d == class_name_spec(#[trigger] sources[j].0) && uses_sibling(name, contents, d) {
                let j = choose|j: int| 0 <= j < sources.len() && d == class_name_spec(#[trigger] sources[j].0) && uses_sibling(name, contents, d);
                if j < sources.len() - 1 {
                    assert(prev[j] == sources[j]);
                    assert(rest.contains(d));
                    if uses_sibling(name, contents, other) {
                        let k = choose|k: int| 0 <= k < rest.len() && rest[k] == d;
                        assert(rest.push(other)[k] == d);
                    }
                } else {
                    assert(rest.push(other)[rest.len() as int] == d);
                }
            }
        }
    }
}

proof fn lemma_imports_members(ls: Seq<Seq<char>>, base: Seq<char>)
    ensures
        forall|d: Seq<char>| imports_in(ls, base).contains(d) <==> exists|j: int|
            0 <= j < ls.len() && is_import_line(#[trigger] ls[j], base) && d == import_target(ls[j], base),
    decreases ls.len(),
{
    if ls.len() > 0 {
        let prev = ls.drop_last();
        lemma_imports_members(prev, base);
        let rest = imports_in(prev, base);
        let last = ls.last();
        assert forall|d: Seq<char>| imports_in(ls, base).contains(d) <==> exists|j: int|
            0 <= j < ls.len() && is_import_line(#[trigger] ls[j], base) && d == import_target(ls[j], base) by {
            if imports_in(ls, base).contains(d) {
                if rest.contains(d) {
                    let j = choose|j: int| 0 <= j < prev.len() && is_import_line(#[trigger] prev[j], base) && d == import_target(prev[j], base);
                    assert(ls[j] == prev[j]);
                } else {
                    let k = choose|k: int| 0 <= k < rest.len() + 1 && rest.push(import_target(last, base))[k] == d;
                    if k < rest.len() {
                        assert(rest[k] == d);
                    }
                    assert(is_import_line(ls[ls.len() - 1], base));
                }
            }
            if exists|j: int| 0 <= j < ls.len() && is_import_line(#[trigger] ls[j], base) && d == import_target(ls[j], base) {
                let j = choose|j: int| 0 <= j < ls.len() && is_import_line(#[trigger] ls[j], base) && d == import_target(ls[j], base);
                if j < ls.len() - 1 {
                    assert(prev[j] == ls[j]);
                    assert(rest.contains(d));
                    if is_import_line(last, base) {
                        let k = choose|k: int| 0 <= k < rest.len() && rest[k] == d;
                        assert(rest.push(import_target(last, base))[k] == d);
                    }
                } else {
                    assert(rest.push(import_target(last, base))[rest.len() as int] == d);
                }
            }
        }
    }
}

proof fn lemma_rows_lookup(done: Seq<(Seq<char>, Seq<char>)>, sources: Seq<(Seq<char>, Seq<char>)>, base: Seq<char>, i: int)
    requires
        0 <= i < done.len(),
        forall|a: int, b: int| 0 <= a < done.len() && 0 <= b < done.len() && a != b
            ==> class_name_spec(#[trigger] done[a].0) != class_name_spec(#[trigger] done[b].0),
    ensures
        lookup(dependency_rows(done, sources, base), class_name_spec(done[i].0))
            == Some(dependencies_of(done[i].0, done[i].1, sources, base)),
    decreases done.len(),
{
    let prev_done = done.drop_last();
    let prev = dependency_rows(prev_done, sources, base);
    lemma_rows_well_formed(prev_done, sources, base);
    let (k, c) = done.last();
    let v = dependencies_of(k, c, sources, base);
    lookup_after_insert(prev, class_name_spec(k), v, class_name_spec(done[i].0));
    if i < done.len() - 1 {
        assert(prev_done[i] == done[i]);
        assert(class_name_spec(done[i].0) != class_name_spec(done[done.len() - 1].0));
        assert forall|a: int, b: int| 0 <= a < prev_done.len() && 0 <= b < prev_done.len() && a != b
            implies class_name_spec(#[trigger] prev_done[a].0) != class_name_spec(#[trigger] prev_done[b].0) by {
            assert(prev_done[a] == done[a] && prev_done[b] == done[b]);
        }
        lemma_rows_lookup(prev_done, sources, base, i);
    }
}

/// Where the sources name distinct classes, the row of each class in the
/// dependency table holds exactly: the class that each of its import lines
/// from the base package names, and each other class of the project, listed
/// anywhere among the sources, that is in its package and whose simple name
/// its text mentions.
pub proof fn dependency_row_members(sources: Seq<(Seq<char>, Seq<char>)>, base: Seq<char>, i: int)
    requires
        0 <= i < sources.len(),
        forall|a: int, b: int| 0 <= a < sources.len() && 0 <= b < sources.len() && a != b
            ==> class_name_spec(#[trigger] sources[a].0) != class_name_spec(#[trigger] sources[b].0),
    ensures
        lookup(dependency_table_spec(sources, base), class_name_spec(sources[i].0)) is Some,
        forall|d: Seq<char>|
            #![trigger lookup(dependency_table_spec(sources, base), class_name_spec(sources[i].0)).unwrap().contains(d)]
            lookup(dependency_table_spec(sources, base), class_name_spec(sources[i].0)).unwrap().contains(d) <==> (
            (exists|l: Seq<char>| lines_of(sources[i].1).contains(l) && is_import_line(l, base) && d == import_target(l, base))
            || (exists|j: int| 0 <= j < sources.len() && d == class_name_spec(#[trigger] sources[j].0)
                && package_part(d) == package_part(class_name_spec(sources[i].0))
                && has_text(sources[i].1, simple_part(d))
                && d != class_name_spec(sources[i].0))),
{
    let (k, c) = sources[i];
    let name = class_name_spec(k);
    lemma_rows_lookup(sources, sources, base, i);
    let ls = lines_of(c);
    let imports = imports_in(ls, base);
    let sibs = siblings_used(name, c, sources);
    let empty = Seq::<Seq<char>>::empty();
    added_all_members(empty, imports);
    added_all_members(added_all(empty, imports), sibs);
    lemma_imports_members(ls, base);
    lemma_siblings_members(name, c, sources);
    let row = lookup(dependency_table_spec(sources, base), name).unwrap();
    assert(row == dependencies_of(k, c, sources, base));
    assert forall|d: Seq<char>| row.contains(d) <==> (
        (exists|l: Seq<char>| ls.contains(l) && is_import_line(l, base) && d == import_target(l, base))
        || (exists|j: int| 0 <= j < sources.len() && d == class_name_spec(#[trigger] sources[j].0)
            && package_part(d) == package_part(name) && has_text(c, simple_part(d)) && d != name)) by {
        if imports.contains(d) {
            let j = choose|j: int| 0 <= j < ls.len() && is_import_line(#[trigger] ls[j], base) && d == import_target(ls[j], base);
            assert(ls.contains(ls[j]));
        }
        if exists|l: Seq<char>| ls.contains(l) && is_import_line(l, base) && d == import_target(l, base) {
            let l = choose|l: Seq<char>| ls.contains(l) && is_import_line(l, base) && d == import_target(l, base);
            let j = choose|j: int| 0 <= j < ls.len() && ls[j] == l;
            assert(is_import_line(ls[j], base));
            assert(imports.contains(d));
        }
    }
}

} // verus!
