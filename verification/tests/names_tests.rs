use java_uml::names::{
    alias_of, class_name_of, diagram_file_name, directory_package, is_java_source, package_of,
    simple_name_of, source_key, top_package_of,
};

fn cs(s: &str) -> Vec<char> {
    s.chars().collect()
}

fn st(v: &[char]) -> String {
    v.iter().collect()
}

#[test]
fn package_and_simple_name() {
    assert_eq!(st(&package_of(&cs("app.model.User"))), "app.model");
    assert_eq!(st(&simple_name_of(&cs("app.model.User"))), "User");
    assert_eq!(st(&package_of(&cs("User"))), "");
    assert_eq!(st(&simple_name_of(&cs("User"))), "User");
    assert_eq!(st(&package_of(&cs(".x"))), "");
    assert_eq!(st(&simple_name_of(&cs("a."))), "");
    assert_eq!(st(&package_of(&cs(""))), "");
}

#[test]
fn package_and_simple_name_rejoin() {
    let name = "com.a.b.C";
    let joined = format!("{}.{}", st(&package_of(&cs(name))), st(&simple_name_of(&cs(name))));
    assert_eq!(joined, name);
}

#[test]
fn top_package() {
    assert_eq!(st(&top_package_of(&cs("app.model"))), "app");
    assert_eq!(st(&top_package_of(&cs("lib"))), "lib");
    assert_eq!(st(&top_package_of(&cs(""))), "");
}

#[test]
fn class_names_and_aliases() {
    assert_eq!(st(&class_name_of(&cs("app/model/User.java"))), "app.model.User");
    assert_eq!(st(&class_name_of(&cs("Main.java"))), "Main");
    assert_eq!(st(&class_name_of(&cs("a/x.javax.java"))), "a.xx");
    assert_eq!(st(&alias_of(&cs("app.model.User"))), "appmodelUser");
    assert_eq!(st(&diagram_file_name(&cs("app"))), "app.puml");
    assert_eq!(st(&diagram_file_name(&cs("a.b"))), "a_b.puml");
}

#[test]
fn paths_below_the_project_root() {
    assert_eq!(directory_package("proj\\app\\model", "proj"), "app.model");
    assert_eq!(source_key("proj\\app\\User.java", "proj"), "app/User.java");
    assert_eq!(directory_package("app\\model", ""), "appmodel");
    assert_eq!(source_key("app/User.java", ""), "app/User.java");
}

#[test]
fn java_sources() {
    assert!(is_java_source("User.java"));
    assert!(is_java_source(".java"));
    assert!(!is_java_source("User.jav"));
    assert!(!is_java_source("java"));
    assert!(!is_java_source("User.java.bak"));
}
