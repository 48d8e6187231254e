use java_uml::table::{add_text, find_key, insert_entry};
use java_uml::deps::{dependencies, dependency_table, imported_class, is_import};
use java_uml::declarations::{
    add_file_data, class_block, class_entry, methods_from_captures, searchable_text, DiagramError,
};
use java_uml::diagram::{
    class_pattern, diagrams, indent_block, top_packages_of, uml_document,
};

fn cs(s: &str) -> Vec<char> {
    s.chars().collect()
}

fn st(v: &[char]) -> String {
    v.iter().collect()
}

fn s(x: &str) -> String {
    x.to_string()
}

const BASE: &str = "com.softwarearchitecture.";

fn sample_sources() -> Vec<(String, String)> {
    vec![
        (s("app/model/User.java"), s("package com.softwarearchitecture.app.model;\n\npublic class User {\n\tprivate String name;\n\tpublic String getName() {\n\t\treturn name;\n\t}\n\tpublic void setName(String name) {\n\t\tthis.name = name;\n\t}\n}\n")),
        (s("app/service/UserService.java"), s("package com.softwarearchitecture.app.service;\n\nimport com.softwarearchitecture.app.model.User;\nimport com.softwarearchitecture.lib.util.Strings;\nimport java.util.List;\n\npublic interface UserService {\n    User find(String id);\n}\n")),
        (s("app/service/UserServiceImpl.java"), s("package com.softwarearchitecture.app.service;\n\npublic class UserServiceImpl implements UserService {\n    public User find(String id) {\n        return null;\n    }\n}\n")),
        (s("lib/util/Strings.java"), s("package com.softwarearchitecture.lib.util;\n\npublic abstract class Strings {\n    public static String trim(String s) {\n        return s;\n    }\n}\n")),
    ]
}

#[test]
fn table_read_after_write() {
    let mut t: Vec<(String, u32)> = Vec::new();
    insert_entry(&mut t, s("a"), 1);
    insert_entry(&mut t, s("b"), 2);
    insert_entry(&mut t, s("a"), 3);
    assert_eq!(t, vec![(s("a"), 3), (s("b"), 2)]);
    assert_eq!(find_key(&t, &s("a")), Some(0));
    assert_eq!(find_key(&t, &s("b")), Some(1));
    assert_eq!(find_key(&t, &s("c")), None);
}

#[test]
fn list_keeps_each_text_once() {
    let mut items: Vec<String> = Vec::new();
    add_text(&mut items, s("x"));
    add_text(&mut items, s("y"));
    add_text(&mut items, s("x"));
    assert_eq!(items, vec![s("x"), s("y")]);
}

#[test]
fn import_lines() {
    assert!(is_import(&cs("import com.softwarearchitecture.app.User;"), &cs(BASE)));
    assert!(!is_import(&cs("import java.util.List;"), &cs(BASE)));
    assert!(!is_import(&cs("// com.softwarearchitecture.x"), &cs(BASE)));
    assert_eq!(st(&imported_class(&cs("import com.softwarearchitecture.app.User;"), &cs(BASE))), "app.User");
    assert_eq!(st(&imported_class(&cs("import static com.softwarearchitecture.a.B;;"), &cs(BASE))), "static a.B");
    assert_eq!(st(&imported_class(&cs("importx;"), &cs(""))), "importx");
}

#[test]
fn dependencies_of_a_class() {
    let srcs = sample_sources();
    let d = dependencies(&srcs[1].0, &srcs[1].1, &srcs, &cs(BASE));
    assert_eq!(d, vec![s("app.model.User"), s("lib.util.Strings")]);
    let d2 = dependencies(&srcs[2].0, &srcs[2].1, &srcs, &cs(BASE));
    assert_eq!(d2, vec![s("app.service.UserService")]);
}

#[test]
fn a_class_is_not_its_own_dependency() {
    let srcs = vec![(s("p/A.java"), s("class A { A a; }"))];
    let d = dependencies(&srcs[0].0, &srcs[0].1, &srcs, &cs(BASE));
    assert!(d.is_empty());
}

#[test]
fn repeated_imports_count_once() {
    let srcs = vec![(s("p/A.java"), s("import com.softwarearchitecture.q.B;\nimport com.softwarearchitecture.q.B;\n"))];
    let d = dependencies(&srcs[0].0, &srcs[0].1, &srcs, &cs(BASE));
    assert_eq!(d, vec![s("q.B")]);
}

#[test]
fn dependency_table_of_sample() {
    let t = dependency_table(&sample_sources(), BASE);
    assert_eq!(t, vec![
        (s("app.model.User"), vec![]),
        (s("app.service.UserService"), vec![s("app.model.User"), s("lib.util.Strings")]),
        (s("app.service.UserServiceImpl"), vec![s("app.service.UserService")]),
        (s("lib.util.Strings"), vec![]),
    ]);
}

#[test]
fn search_text_drops_line_breaks() {
    assert_eq!(st(&searchable_text(&cs("a  b\r\n\tc\nd"))), "a bcd");
}

#[test]
fn class_entry_of_a_class() {
    let contents = s("package x;\npublic class Foo {\n    public int add(int a, int b) {\n        return a + b;\n    }\n}\n");
    let r = class_entry("public class", class_pattern(), "class", &s("com/x/Foo.java"), &contents);
    assert_eq!(r, Ok(Some((s("com.x.Foo"), s("\nclass \"Foo\" as comxFoo {\n\t+add(int a, int b): int \n}\n")))));
}

#[test]
fn class_entry_without_marker() {
    let r = class_entry("public class", class_pattern(), "class", &s("A.java"), &s("interface A {}"));
    assert_eq!(r, Ok(None));
}

#[test]
fn class_entry_with_invalid_pattern() {
    let r = class_entry("class", "(unclosed", "class", &s("A.java"), &s("class A {}"));
    assert_eq!(r, Err(DiagramError::InvalidPattern));
}

#[test]
fn class_entry_with_too_few_groups() {
    let r = class_entry("class", r"class (\w+)", "class", &s("A.java"), &s("class A {}"));
    assert_eq!(r, Err(DiagramError::MissingGroup));
}

#[test]
fn class_entry_with_no_match_has_no_methods() {
    let r = class_entry("public class", class_pattern(), "class", &s("Top.java"), &s("public class Top {}"));
    assert_eq!(r, Ok(Some((s("Top"), s("\nclass \"Top\"  {\n}\n")))));
}

#[test]
fn later_method_of_same_name_wins() {
    let caps = vec![
        vec![Some(s("m0")), None, None, Some(s("int ")), Some(s("f")), Some(s("int a"))],
        vec![Some(s("m1")), None, None, Some(s("long ")), Some(s("g")), Some(s("x y"))],
        vec![Some(s("m2")), None, None, Some(s("void ")), Some(s("f")), Some(s("String s"))],
    ];
    let rows = methods_from_captures(&caps).unwrap();
    assert_eq!(rows, vec![(s("f"), (s("String s"), s("void "))), (s("g"), (s("x y"), s("long ")))]);
    let missing = vec![vec![Some(s("m")), None, None, None, Some(s("f")), Some(s("a"))]];
    assert_eq!(methods_from_captures(&missing), Err(DiagramError::MissingGroup));
}

#[test]
fn class_block_with_markers_replaced() {
    let rows = vec![(s("run"), (s("String x"), s("void ")))];
    assert_eq!(st(&class_block(&cs("interface"), &cs("a.b.Task"), &rows)), "\ninterface \"Task\" as abTask {\n\t+run(String x): void \n}\n");
    assert_eq!(st(&class_block(&cs("class"), &cs("Main"), &Vec::new())), "\nclass \"Main\"  {\n}\n");
}

#[test]
fn add_file_data_leaves_table_on_error() {
    let mut table = vec![(s("k"), s("v"))];
    let r = add_file_data("class", "(", "class", &vec![(s("A.java"), s("class A"))], &mut table);
    assert_eq!(r, Err(DiagramError::InvalidPattern));
    assert_eq!(table, vec![(s("k"), s("v"))]);
}

#[test]
fn indented_block() {
    assert_eq!(st(&indent_block(&cs("\nclass X {\n}\n"))), "\t\n\tclass X {\n\t}\n");
}

#[test]
fn document_frame() {
    assert_eq!(uml_document("A --> B\n"), "@startuml\nA --> B\n@enduml");
    assert_eq!(uml_document(""), "@startuml\n@enduml");
}

#[test]
fn top_packages_once_each() {
    let t = top_packages_of(&vec![s("app"), s("app.model"), s("lib.util"), s("lib")]);
    assert_eq!(t, vec![s("app"), s("lib")]);
}

#[test]
fn sample_project_diagrams() {
    let packages = vec![s("app"), s("app.model"), s("app.service"), s("lib"), s("lib.util")];
    let d = diagrams(&packages, &sample_sources(), BASE).unwrap();
    assert_eq!(d, vec![
        (s("app.puml"), s("@startuml\npackage app.model {\n\t\n\tclass \"User\" as appmodelUser {\n\t\t+setName(String name): void \n\t}\n}\npackage app.service {\n\t\n\tclass \"UserServiceImpl\" as appserviceUserServiceImpl {\n\t\t+find(String id): User \n\t}\n\t\n\tinterface \"UserService\" as appserviceUserService {\n\t\t+find(String id): User\n\t}\n}\npackage lib.util {\n\t\n\tabstract class \"Strings\" as libutilStrings {\n\t\t+trim(String s): String \n\t}\n}\nappserviceUserService --> appmodelUser\nappserviceUserService --> libutilStrings\nappserviceUserServiceImpl --> appserviceUserService\n@enduml")),
        (s("lib.puml"), s("@startuml\npackage lib.util {\n\t\n\tabstract class \"Strings\" as libutilStrings {\n\t\t+trim(String s): String \n\t}\n}\n@enduml")),
    ]);
}

#[test]
fn empty_project_has_no_diagrams() {
    let d = diagrams(&Vec::new(), &Vec::new(), BASE).unwrap();
    assert!(d.is_empty());
    let d2 = diagrams(&vec![s("solo")], &Vec::new(), BASE).unwrap();
    assert_eq!(d2, vec![(s("solo.puml"), s("@startuml\n@enduml"))]);
}
