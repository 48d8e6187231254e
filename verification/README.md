# java_uml

Draws PlantUML class diagrams of a Java project: one diagram per top-level
package, holding the classes, abstract classes and interfaces of its
packages with their public methods, the packages of the outside classes it
depends on, and an arrow for each dependency (imports from the project's
base package, and classes of the same package whose simple name a class
mentions).

- `src/` is the library, verified with Verus: text handling (`text`,
  `spacing`), names (`names`), ordered tables (`table`), dependencies
  (`deps`), class blocks found with the `regex` crate (`declarations`) and
  the documents (`diagram`).
- `app/main.rs` walks the project directory, reads the sources and writes
  the `.puml` files.
