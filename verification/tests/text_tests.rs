use java_uml::text::{
    chars_of, contains_text, find_first, find_last, lines, occurs_at_index, replace_text, same_text,
    slice_text, starts_with_text, text_of,
};
use java_uml::spacing::normalize_blanks;

fn cs(s: &str) -> Vec<char> {
    s.chars().collect()
}

fn st(v: &[char]) -> String {
    v.iter().collect()
}

#[test]
fn chars_round_trip() {
    assert_eq!(chars_of("añb"), vec!['a', 'ñ', 'b']);
    assert_eq!(text_of(&['x', 'ÿ', 'z']), "xÿz");
    assert_eq!(text_of(&[]), "");
}

#[test]
fn replace_every_occurrence() {
    assert_eq!(st(&replace_text(&cs("a.b.c"), &cs("."), &cs(""))), "abc");
    assert_eq!(st(&replace_text(&cs("a.b"), &cs("."), &cs("::"))), "a::b");
}

#[test]
fn replace_takes_matches_from_the_left_without_overlap() {
    assert_eq!(st(&replace_text(&cs("aaa"), &cs("aa"), &cs("b"))), "ba");
    assert_eq!(st(&replace_text(&cs("aaaa"), &cs("aa"), &cs("a"))), "aa");
}

#[test]
fn replace_without_match_is_identity() {
    assert_eq!(st(&replace_text(&cs("hello"), &cs("xyz"), &cs("q"))), "hello");
    assert_eq!(st(&replace_text(&cs(""), &cs("x"), &cs("q"))), "");
    assert_eq!(st(&replace_text(&cs("ab"), &cs("abc"), &cs("q"))), "ab");
}

#[test]
fn replacement_can_bring_in_the_pattern() {
    assert_eq!(st(&replace_text(&cs("ab"), &cs("a"), &cs("aa"))), "aab");
}

#[test]
fn search_in_text() {
    assert!(contains_text(&cs("public class Foo"), &cs("class")));
    assert!(!contains_text(&cs("public interface Foo"), &cs("class")));
    assert!(contains_text(&cs("abc"), &cs("")));
    assert!(!contains_text(&cs(""), &cs("a")));
    assert!(occurs_at_index(&cs("abcd"), &cs("cd"), 2));
    assert!(!occurs_at_index(&cs("abcd"), &cs("cd"), 1));
    assert!(!occurs_at_index(&cs("abcd"), &cs("cde"), 2));
    assert!(starts_with_text(&cs("app.model"), &cs("app")));
    assert!(!starts_with_text(&cs("ap"), &cs("app")));
    assert!(same_text(&cs("x.y"), &cs("x.y")));
    assert!(!same_text(&cs("x.y"), &cs("x.z")));
    assert!(!same_text(&cs("x"), &cs("xx")));
}

#[test]
fn first_and_last_positions() {
    assert_eq!(find_first(&cs("a.b.c"), '.'), Some(1));
    assert_eq!(find_last(&cs("a.b.c"), '.'), Some(3));
    assert_eq!(find_first(&cs("abc"), '.'), None);
    assert_eq!(find_last(&cs(""), '.'), None);
    assert_eq!(st(&slice_text(&cs("abcdef"), 1, 4)), "bcd");
}

#[test]
fn lines_as_str_lines_gives_them() {
    let got: Vec<String> = lines(&cs("a\r\nb\n\nc")).iter().map(|l| st(l)).collect();
    assert_eq!(got, vec!["a", "b", "", "c"]);
    let want: Vec<String> = "a\r\nb\n\nc".lines().map(|l| l.to_string()).collect();
    assert_eq!(got, want);
}

#[test]
fn lines_edge_cases() {
    assert!(lines(&cs("")).is_empty());
    let one: Vec<String> = lines(&cs("\n")).iter().map(|l| st(l)).collect();
    assert_eq!(one, vec![""]);
    let cr: Vec<String> = lines(&cs("a\r")).iter().map(|l| st(l)).collect();
    assert_eq!(cr, vec!["a\r"]);
    let trailing: Vec<String> = lines(&cs("x\ny\n")).iter().map(|l| st(l)).collect();
    assert_eq!(trailing, vec!["x", "y"]);
}

#[test]
fn lines_rejoin_gives_text_back() {
    for s in ["a\nb", "a\nb\n", "\n\nz", "only"] {
        let mut joined = String::new();
        for l in lines(&cs(s)) {
            joined.push_str(&st(&l));
            joined.push('\n');
        }
        let want = if s.ends_with('\n') { s.to_string() } else { format!("{}\n", s) };
        assert_eq!(joined, want);
    }
}

#[test]
fn blanks_are_normalized() {
    assert_eq!(st(&normalize_blanks(&cs("a\t  b   c"))), "a b c");
    assert_eq!(st(&normalize_blanks(&cs("\t\t"))), "");
    assert_eq!(st(&normalize_blanks(&cs("  x  \n  y"))), " x \n y");
    assert_eq!(st(&normalize_blanks(&cs(" \t "))), " ");
}

#[test]
fn normalizing_twice_changes_nothing() {
    let once = normalize_blanks(&cs("p  \t q    r\t\ts"));
    assert_eq!(normalize_blanks(&once), once);
    assert!(!st(&once).contains("  "));
    assert!(!st(&once).contains('\t'));
}
