use knob::manifest::{
    join_all, parse_dependencies, parse_dependency, parse_dependency_manifest, parse_toml,
    platform_key, read_dependency_manifest, read_project, resolve_dependency, select_target,
    DependencyManifest, DependencySource,
};
use knob::types::{BuildTarget, ConfigError};

fn list(items: &[&str]) -> Vec<String> {
    items.iter().map(|s| s.to_string()).collect()
}

fn named(name: &str) -> BuildTarget {
    BuildTarget {
        entrypoint: "main.c".to_string(),
        name: name.to_string(),
        compiler_args: Vec::new(),
        linker_args: Vec::new(),
        dependencies: Vec::new(),
    }
}

fn found(path: &str, manifest: Option<&str>) -> DependencySource {
    DependencySource { path: path.to_string(), manifest: manifest.map(|m| m.to_string()) }
}

const LIBRARY: &str = "
build = \"make\"
clean = \"make clean\"
headers = \"include\"

[Libraries]
zlib = \"out/libz.a\"
alpha = \"out/liba.a\"

[Objects]
extra = \"out/extra.o\"
";

const LOOSE: &str = "
build = \"cc -c one.c two.c\"
clean = \"rm -f one.o two.o\"
headers = \".\"

[Objects]
two = \"two.o\"
one = \"one.o\"
";

const PROJECT: &str = "
output = \"build\"
dependencies = \".deps\"
sources = \"src\"

[Platform.osx]
compiler = \"clang\"
linker = \"clang++\"
compiler_args = [\"-std=c11\"]
linker_args = [\"-framework\", \"Cocoa\"]

[Platform.linux]
compiler = \"gcc\"
linker = \"g++\"
compiler_args = [\"-std=c11\", \"-O2\"]
linker_args = []

[Target.game]
entrypoint = \"main.cpp\"
compiler_args = [\"-DGAME\"]
linker_args = [\"-lsdl3\"]
deps = [\"sdl\", \"zlib\"]
";

#[test]
fn dependency_manifest_is_read_field_by_field() {
    let manifest = parse_dependency_manifest(LIBRARY).unwrap();
    assert_eq!(manifest.build, "make");
    assert_eq!(manifest.clean, "make clean");
    assert_eq!(manifest.headers, "include");
    assert_eq!(manifest.objects, list(&["out/extra.o"]));
}

#[test]
fn dependency_manifest_keeps_the_order_of_its_tables() {
    let manifest = parse_dependency_manifest(LIBRARY).unwrap();
    assert_eq!(manifest.libraries, list(&["out/libz.a", "out/liba.a"]));
    let manifest = parse_dependency_manifest(LOOSE).unwrap();
    assert_eq!(manifest.objects, list(&["two.o", "one.o"]));
    assert!(manifest.libraries.is_empty());
}

#[test]
fn dependency_manifest_may_leave_both_tables_out() {
    let text = "build = \"b\"\nclean = \"c\"\nheaders = \"h\"\n";
    let manifest = parse_dependency_manifest(text).unwrap();
    assert!(manifest.libraries.is_empty());
    assert!(manifest.objects.is_empty());
}

#[test]
fn dependency_manifest_that_is_no_toml_is_malformed() {
    assert_eq!(
        parse_dependency_manifest("build = \n[[[").unwrap_err(),
        ConfigError::Malformed
    );
}

#[test]
fn dependency_manifest_without_a_required_field() {
    assert_eq!(
        parse_dependency_manifest("clean = \"c\"\nheaders = \"h\"\n").unwrap_err(),
        ConfigError::MissingField
    );
    assert_eq!(
        parse_dependency_manifest("build = \"b\"\nheaders = \"h\"\n").unwrap_err(),
        ConfigError::MissingField
    );
    assert_eq!(
        parse_dependency_manifest("build = \"b\"\nclean = \"c\"\n").unwrap_err(),
        ConfigError::MissingField
    );
    assert_eq!(parse_dependency_manifest("").unwrap_err(), ConfigError::MissingField);
}

#[test]
fn dependency_manifest_with_a_field_of_the_wrong_kind() {
    assert_eq!(
        parse_dependency_manifest("build = 1\nclean = \"c\"\nheaders = \"h\"\n").unwrap_err(),
        ConfigError::Malformed
    );
    assert_eq!(
        parse_dependency_manifest(
            "build = \"b\"\nclean = \"c\"\nheaders = \"h\"\nLibraries = \"libz.a\"\n"
        )
        .unwrap_err(),
        ConfigError::Malformed
    );
    assert_eq!(
        parse_dependency_manifest(
            "build = \"b\"\nclean = \"c\"\nheaders = \"h\"\n[Objects]\na = 1\n"
        )
        .unwrap_err(),
        ConfigError::Malformed
    );
}

#[test]
fn dependency_manifest_reports_the_tables_before_the_fields() {
    assert_eq!(
        parse_dependency_manifest("Libraries = 3\n").unwrap_err(),
        ConfigError::Malformed
    );
}

#[test]
fn resolve_takes_the_paths_from_the_root() {
    let manifest = DependencyManifest {
        build: "make".to_string(),
        clean: "make clean".to_string(),
        headers: "include".to_string(),
        libraries: list(&["out/libz.a", "/opt/lib/libabs.a"]),
        objects: list(&["a.o"]),
    };
    let shared = resolve_dependency("/p/.deps/z", &manifest);
    assert_eq!(shared.root, "/p/.deps/z");
    assert_eq!(shared.build, "make");
    assert_eq!(shared.clean, "make clean");
    assert_eq!(shared.headers, "/p/.deps/z/include");
    assert_eq!(shared.libs, list(&["/p/.deps/z/out/libz.a", "/opt/lib/libabs.a"]));
    assert_eq!(shared.objs, list(&["/p/.deps/z/a.o"]));
    assert!(!shared.is_loose());
}

#[test]
fn join_all_joins_each_path() {
    assert_eq!(join_all("/r", &list(&["a", "b/c", "/d"])), list(&["/r/a", "/r/b/c", "/d"]));
    assert_eq!(join_all("/r", &Vec::new()), Vec::<String>::new());
}

#[test]
fn parse_dependency_reads_and_resolves() {
    let shared = parse_dependency(&found("/p/.deps/loose", Some(LOOSE))).unwrap();
    assert_eq!(shared.root, "/p/.deps/loose");
    assert_eq!(shared.headers, "/p/.deps/loose/.");
    assert_eq!(shared.objs, list(&["/p/.deps/loose/two.o", "/p/.deps/loose/one.o"]));
    assert!(shared.is_loose());
}

#[test]
fn parse_dependency_without_a_manifest() {
    assert_eq!(
        parse_dependency(&found("/p/.deps/none", None)).unwrap_err(),
        ConfigError::MissingManifest
    );
}

#[test]
fn parse_dependencies_passes_over_the_directory_itself() {
    let entries = vec![
        found("/p/.deps", None),
        found("/p/.deps/z", Some(LIBRARY)),
        found("/p/.deps/loose", Some(LOOSE)),
    ];
    let shared = parse_dependencies("/p/.deps", &entries).unwrap();
    assert_eq!(shared.len(), 2);
    assert_eq!(shared[0].root, "/p/.deps/z");
    assert_eq!(shared[0].libs, list(&["/p/.deps/z/out/libz.a", "/p/.deps/z/out/liba.a"]));
    assert!(!shared[0].is_loose());
    assert_eq!(shared[1].root, "/p/.deps/loose");
    assert!(shared[1].is_loose());
}

#[test]
fn parse_dependencies_of_an_empty_directory() {
    assert!(parse_dependencies("/p/.deps", &Vec::new()).unwrap().is_empty());
    assert!(parse_dependencies("/p/.deps", &vec![found("/p/.deps", None)]).unwrap().is_empty());
}

#[test]
fn parse_dependencies_is_all_or_nothing() {
    let entries = vec![
        found("/p/.deps/z", Some(LIBRARY)),
        found("/p/.deps/broken", Some("build = \"b\"\n")),
        found("/p/.deps/none", None),
    ];
    assert_eq!(
        parse_dependencies("/p/.deps", &entries).unwrap_err(),
        ConfigError::MissingField
    );
    let entries = vec![found("/p/.deps/none", None), found("/p/.deps/z", Some(LIBRARY))];
    assert_eq!(
        parse_dependencies("/p/.deps", &entries).unwrap_err(),
        ConfigError::MissingManifest
    );
}

#[test]
fn platform_key_of_each_host() {
    assert_eq!(platform_key("macos"), Some("osx"));
    assert_eq!(platform_key("windows"), Some("win32"));
    assert_eq!(platform_key("linux"), Some("linux"));
    assert_eq!(platform_key("freebsd"), None);
    assert_eq!(platform_key(""), None);
}

#[test]
fn select_target_wants_exactly_one() {
    assert_eq!(select_target(vec![named("game")]).unwrap().name, "game");
    assert_eq!(select_target(Vec::new()).unwrap_err(), ConfigError::NoTarget);
    assert_eq!(
        select_target(vec![named("a"), named("b")]).unwrap_err(),
        ConfigError::MultipleTargets
    );
}

#[test]
fn project_manifest_for_linux() {
    let (dirs, platform, target) = parse_toml(PROJECT, "linux").unwrap();
    assert_eq!(dirs.output, "build");
    assert_eq!(dirs.dependencies, ".deps");
    assert_eq!(dirs.sources, "src");
    assert_eq!(platform.compiler, "gcc");
    assert_eq!(platform.linker, "g++");
    assert_eq!(platform.compiler_args, list(&["-std=c11", "-O2"]));
    assert!(platform.linker_args.is_empty());
    assert_eq!(target.name, "game");
    assert_eq!(target.entrypoint, "main.cpp");
    assert_eq!(target.compiler_args, list(&["-DGAME"]));
    assert_eq!(target.linker_args, list(&["-lsdl3"]));
    assert_eq!(target.dependencies, list(&["sdl", "zlib"]));
}

#[test]
fn project_manifest_for_macos() {
    let (_, platform, _) = parse_toml(PROJECT, "macos").unwrap();
    assert_eq!(platform.compiler, "clang");
    assert_eq!(platform.linker_args, list(&["-framework", "Cocoa"]));
}

#[test]
fn project_manifest_without_a_profile_for_the_host() {
    assert_eq!(parse_toml(PROJECT, "windows").unwrap_err(), ConfigError::MissingField);
}

#[test]
fn project_manifest_for_an_unknown_host() {
    assert_eq!(parse_toml(PROJECT, "plan9").unwrap_err(), ConfigError::UnknownHost);
}

#[test]
fn project_manifest_that_is_no_toml() {
    assert_eq!(parse_toml("output = [", "linux").unwrap_err(), ConfigError::Malformed);
}

#[test]
fn project_manifest_with_two_targets() {
    let text = format!(
        "{}\n[Target.tool]\nentrypoint = \"tool.c\"\ncompiler_args = []\nlinker_args = []\ndeps = []\n",
        PROJECT
    );
    assert_eq!(parse_toml(&text, "linux").unwrap_err(), ConfigError::MultipleTargets);
}

#[test]
fn project_manifest_without_a_target() {
    let text = "
output = \"build\"
dependencies = \".deps\"
sources = \"src\"

[Platform.linux]
compiler = \"gcc\"
linker = \"g++\"
compiler_args = []
linker_args = []

[Target]
";
    assert_eq!(parse_toml(text, "linux").unwrap_err(), ConfigError::NoTarget);
}

#[test]
fn project_manifest_without_a_required_field() {
    assert_eq!(parse_toml("", "linux").unwrap_err(), ConfigError::MissingField);
    let text = "output = \"build\"\ndependencies = \".deps\"\nsources = \"src\"\n";
    assert_eq!(parse_toml(text, "linux").unwrap_err(), ConfigError::MissingField);
    let text = "
output = \"build\"
dependencies = \".deps\"
sources = \"src\"

[Platform.linux]
compiler = \"gcc\"
linker = \"g++\"
compiler_args = []
linker_args = []

[Target.game]
entrypoint = \"main.cpp\"
compiler_args = []
linker_args = []
";
    assert_eq!(parse_toml(text, "linux").unwrap_err(), ConfigError::MissingField);
}

#[test]
fn project_manifest_with_a_field_of_the_wrong_kind() {
    let text = "output = 1\ndependencies = \".deps\"\nsources = \"src\"\n";
    assert_eq!(parse_toml(text, "linux").unwrap_err(), ConfigError::Malformed);
    let text = "
output = \"build\"
dependencies = \".deps\"
sources = \"src\"

[Platform.linux]
compiler = \"gcc\"
linker = \"g++\"
compiler_args = [1, 2]
linker_args = []
";
    assert_eq!(parse_toml(text, "linux").unwrap_err(), ConfigError::Malformed);
    let text = "
output = \"build\"
dependencies = \".deps\"
sources = \"src\"
Target = \"game\"

[Platform.linux]
compiler = \"gcc\"
linker = \"g++\"
compiler_args = []
linker_args = []
";
    assert_eq!(parse_toml(text, "linux").unwrap_err(), ConfigError::Malformed);
}

#[test]
fn project_manifest_reads_every_target_before_it_counts_them() {
    let text = format!("{}\n[Target.tool]\nentrypoint = \"tool.c\"\n", PROJECT);
    assert_eq!(parse_toml(&text, "linux").unwrap_err(), ConfigError::MissingField);
}

fn text(value: &str) -> toml::Value {
    toml::Value::String(value.to_string())
}

fn array(values: &[&str]) -> toml::Value {
    toml::Value::Array(values.iter().map(|v| text(v)).collect())
}

fn table(entries: Vec<(&str, toml::Value)>) -> toml::Table {
    let mut made = toml::Table::new();
    for (key, value) in entries {
        made.insert(key.to_string(), value);
    }
    made
}

fn profile() -> toml::Value {
    toml::Value::Table(table(vec![
        ("compiler", text("cc")),
        ("linker", text("ld")),
        ("compiler_args", array(&["-g"])),
        ("linker_args", array(&[])),
    ]))
}

fn declared_target(entrypoint: &str) -> toml::Value {
    toml::Value::Table(table(vec![
        ("entrypoint", text(entrypoint)),
        ("compiler_args", array(&[])),
        ("linker_args", array(&["-lz"])),
        ("deps", array(&["z"])),
    ]))
}

fn project_with(targets: Vec<(&str, toml::Value)>) -> toml::Table {
    table(vec![
        ("output", text("out")),
        ("dependencies", text("deps")),
        ("sources", text("src")),
        ("Platform", toml::Value::Table(table(vec![("win32", profile())]))),
        ("Target", toml::Value::Table(table(targets))),
    ])
}

#[test]
fn read_dependency_manifest_from_a_table() {
    let doc = table(vec![
        ("headers", text("inc")),
        ("clean", text("rm -rf out")),
        ("build", text("ninja")),
        (
            "Objects",
            toml::Value::Table(table(vec![("b", text("b.o")), ("a", text("a.o"))])),
        ),
    ]);
    let manifest = read_dependency_manifest(&doc).unwrap();
    assert_eq!(manifest.build, "ninja");
    assert_eq!(manifest.clean, "rm -rf out");
    assert_eq!(manifest.headers, "inc");
    assert_eq!(manifest.objects, list(&["b.o", "a.o"]));
    assert!(manifest.libraries.is_empty());
}

#[test]
fn read_dependency_manifest_turns_down_other_kinds() {
    let doc = table(vec![
        ("headers", toml::Value::Boolean(true)),
        ("clean", text("c")),
        ("build", text("b")),
    ]);
    assert_eq!(read_dependency_manifest(&doc).unwrap_err(), ConfigError::Malformed);
    let doc = table(vec![
        ("headers", text("h")),
        ("clean", text("c")),
        ("build", text("b")),
        ("Libraries", array(&["liba.a"])),
    ]);
    assert_eq!(read_dependency_manifest(&doc).unwrap_err(), ConfigError::Malformed);
    let doc = table(vec![
        ("headers", text("h")),
        ("clean", text("c")),
        ("build", text("b")),
        (
            "Libraries",
            toml::Value::Table(table(vec![("a", toml::Value::Integer(3))])),
        ),
    ]);
    assert_eq!(read_dependency_manifest(&doc).unwrap_err(), ConfigError::Malformed);
    assert_eq!(
        read_dependency_manifest(&toml::Table::new()).unwrap_err(),
        ConfigError::MissingField
    );
}

#[test]
fn read_project_from_a_table() {
    let doc = project_with(vec![("tool", declared_target("tool.c"))]);
    let (dirs, platform, target) = read_project(&doc, "windows").unwrap();
    assert_eq!(dirs.output, "out");
    assert_eq!(dirs.dependencies, "deps");
    assert_eq!(dirs.sources, "src");
    assert_eq!(platform.compiler, "cc");
    assert_eq!(platform.linker, "ld");
    assert_eq!(platform.compiler_args, list(&["-g"]));
    assert!(platform.linker_args.is_empty());
    assert_eq!(target.name, "tool");
    assert_eq!(target.entrypoint, "tool.c");
    assert_eq!(target.linker_args, list(&["-lz"]));
    assert_eq!(target.dependencies, list(&["z"]));
}

#[test]
fn read_project_counts_the_targets() {
    let doc = project_with(Vec::new());
    assert_eq!(read_project(&doc, "windows").unwrap_err(), ConfigError::NoTarget);
    let doc = project_with(vec![("a", declared_target("a.c")), ("b", declared_target("b.c"))]);
    assert_eq!(read_project(&doc, "windows").unwrap_err(), ConfigError::MultipleTargets);
}

#[test]
fn read_project_wants_a_table_for_each_target() {
    let doc = project_with(vec![("a", text("a.c"))]);
    assert_eq!(read_project(&doc, "windows").unwrap_err(), ConfigError::Malformed);
}

#[test]
fn read_project_looks_for_the_profile_of_the_host() {
    let doc = project_with(vec![("tool", declared_target("tool.c"))]);
    assert_eq!(read_project(&doc, "linux").unwrap_err(), ConfigError::MissingField);
    assert_eq!(read_project(&doc, "beos").unwrap_err(), ConfigError::UnknownHost);
}
