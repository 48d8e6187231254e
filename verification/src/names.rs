//! Names derived from paths: source keys, class names, packages.

use vstd::prelude::*;
use crate::text::{
    chars_of, find_first, find_last, first_index, last_index, lemma_first_index, lemma_last_index,
    no_chars, one_char, replace_text, replaced, same_text, slice_text, text_of, has_text, occurs_at,
    replace_without_occurrence,
};

verus! {

/// The part of `name` before its last dot; empty where it has none.
pub open spec fn package_part(name: Seq<char>) -> Seq<char> {
    let k = last_index(name, '.');
    if k < 0 {
        Seq::empty()
    } else {
        name.take(k)
    }
}

/// The part of `name` after its last dot; all of it where it has none.
pub open spec fn simple_part(name: Seq<char>) -> Seq<char> {
    let k = last_index(name, '.');
    if k < 0 {
        name
    } else {
        name.skip(k + 1)
    }
}

/// The part of `name` before its first dot; all of it where it has none.
pub open spec fn top_part(name: Seq<char>) -> Seq<char> {
    let k = first_index(name, '.');
    if k < 0 {
        name
    } else {
        name.take(k)
    }
}

/// The dotted class name of the source file at `key` (a path with `/`):
/// slashes become dots, then every `.java` is removed.
pub open spec fn class_name_spec(key: Seq<char>) -> Seq<char> {
    replaced(replaced(key, seq!['/'], seq!['.']), ".java"@, Seq::empty())
}

/// `name` with its dots removed: the alias by which a diagram refers to it.
pub open spec fn alias_spec(name: Seq<char>) -> Seq<char> {
    replaced(name, seq!['.'], Seq::empty())
}

/// The file name of the diagram of top package `top`.
pub open spec fn diagram_file_name_spec(top: Seq<char>) -> Seq<char> {
    replaced(top, seq!['.'], seq!['_']) + ".puml"@
}

/// `path` with the project root and the separator after it removed.
pub open spec fn without_root(path: Seq<char>, root: Seq<char>) -> Seq<char> {
    replaced(path, root + seq!['\\'], Seq::empty())
}

/// The package name of the directory at `path` below `root`.
pub open spec fn directory_package_spec(path: Seq<char>, root: Seq<char>) -> Seq<char> {
    replaced(without_root(path, root), seq!['\\'], seq!['.'])
}

/// The key of the source file at `path` below `root`, with `/` separators.
pub open spec fn source_key_spec(path: Seq<char>, root: Seq<char>) -> Seq<char> {
    replaced(without_root(path, root), seq!['\\'], seq!['/'])
}

/// The part of `name` before its last dot, as `split('.')` less its last
/// piece, joined again with dots.
pub fn package_of(name: &[char]) -> (out: Vec<char>)
    ensures
        out@ == package_part(name@),
{
    proof {
        lemma_last_index(name@, '.');
    }
    match find_last(name, '.') {
        None => Vec::new(),
        Some(k) => slice_text(name, 0, k),
    }
}

/// The part of `name` after its last dot: the simple name of a class.
pub fn simple_name_of(name: &[char]) -> (out: Vec<char>)
    ensures
        out@ == simple_part(name@),
{
    proof {
        lemma_last_index(name@, '.');
    }
    match find_last(name, '.') {
        None => slice_text(name, 0, name.len()),
        Some(k) => {
            let n = name.len();
            assert(k < n);
            slice_text(name, k + 1, n)
        },
    }
}

/// The part of `name` before its first dot: its top-level package.
pub fn top_package_of(name: &[char]) -> (out: Vec<char>)
    ensures
        out@ == top_part(name@),
{
    proof {
        lemma_first_index(name@, '.');
    }
    match find_first(name, '.') {
        None => slice_text(name, 0, name.len()),
        Some(k) => slice_text(name, 0, k),
    }
}

/// The dotted class name of the source file at `key`.
pub fn class_name_of(key: &[char]) -> (out: Vec<char>)
    ensures
        out@ == class_name_spec(key@),
{
    let dotted = replace_text(key, &one_char('/'), &one_char('.'));
    let java = chars_of(".java");
    proof {
        reveal_strlit(".java");
    }
    replace_text(&dotted, &java, &no_chars())
}

/// The alias of `name` in a diagram: `name` without its dots.
pub fn alias_of(name: &[char]) -> (out: Vec<char>)
    ensures
        out@ == alias_spec(name@),
{
    replace_text(name, &one_char('.'), &no_chars())
}

/// The file name of the diagram of top package `top`: dots become
/// underscores and `.puml` is appended.
pub fn diagram_file_name(top: &[char]) -> (out: Vec<char>)
    ensures
        out@ == diagram_file_name_spec(top@),
{
    let mut out = replace_text(top, &one_char('.'), &one_char('_'));
    let ext = chars_of(".puml");
    out.extend_from_slice(&ext);
    assert(out@ =~= diagram_file_name_spec(top@));
    out
}

fn strip_root(path: &[char], root: &[char]) -> (out: Vec<char>)
    ensures
        out@ == without_root(path@, root@),
{
    let mut prefix = slice_text(root, 0, root.len());
    prefix.push('\\');
    assert(prefix@ =~= root@ + seq!['\\']);
    replace_text(path, &prefix, &no_chars())
}

/// The package name of the directory at `path` below the project `root`:
/// the root and its separator removed, backslashes turned into dots.
pub fn directory_package(path: &str, root: &str) -> (out: String)
    ensures
        out@ == directory_package_spec(path@, root@),
{
    let p = chars_of(path);
    let r = chars_of(root);
    let rel = strip_root(&p, &r);
    let name = replace_text(&rel, &one_char('\\'), &one_char('.'));
    text_of(&name)
}

/// The key of the source file at `path` below the project `root`: the root
/// and its separator removed, backslashes turned into slashes.
pub fn source_key(path: &str, root: &str) -> (out: String)
    ensures
        out@ == source_key_spec(path@, root@),
{
    let p = chars_of(path);
    let r = chars_of(root);
    let rel = strip_root(&p, &r);
    let key = replace_text(&rel, &one_char('\\'), &one_char('/'));
    text_of(&key)
}

/// Whether the file named `file_name` is a Java source: it ends in `.java`.
pub fn is_java_source(file_name: &str) -> (b: bool)
    ensures
        b == (file_name@.len() >= ".java"@.len()
            && file_name@.skip(file_name@.len() - ".java"@.len()) == ".java"@),
{
    let name = chars_of(file_name);
    let ext = chars_of(".java");
    if name.len() < ext.len() {
        return false;
    }
    let tail = slice_text(&name, name.len() - ext.len(), name.len());
    assert(tail@ =~= name@.skip(name@.len() - ext@.len()));
    same_text(&tail, &ext)
}

/// Splitting at the last dot and joining again gives the name back.
pub proof fn package_and_simple_name_rejoin(name: Seq<char>)
    requires
        last_index(name, '.') >= 0,
    ensures
        package_part(name) + seq!['.'] + simple_part(name) == name,
        !simple_part(name).contains('.'),
{
    lemma_last_index(name, '.');
    let k = last_index(name, '.');
    assert(package_part(name) + seq!['.'] + simple_part(name) =~= name);
    assert forall|j: int| 0 <= j < simple_part(name).len() implies simple_part(name)[j] != '.' by {
        assert(simple_part(name)[j] == name[k + 1 + j]);
    }
}

/// A top-level package name holds no dot.
pub proof fn top_part_has_no_dot(name: Seq<char>)
    ensures
        !top_part(name).contains('.'),
{
    lemma_first_index(name, '.');
    if top_part(name).contains('.') {
        let j = choose|j: int| 0 <= j < top_part(name).len() && top_part(name)[j] == '.';
        assert(name[j] == '.');
    }
}

/// The diagram file of a name without dots is the name with `.puml`.
pub proof fn diagram_file_name_of_dotless(top: Seq<char>)
    requires
        !top.contains('.'),
    ensures
        diagram_file_name_spec(top) == top + ".puml"@,
{
    if has_text(top, seq!['.']) {
        let i = choose|i: int| occurs_at(top, seq!['.'], i);
        assert(top.subrange(i, i + 1)[0] == top[i]);
        assert(top[i] == '.');
    }
    replace_without_occurrence(top, seq!['.'], seq!['_']);
}

} // verus!
