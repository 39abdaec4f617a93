//! What lies between the files of a project and the compiler: which files
//! are sources and which are headers, where the compiler looks for headers,
//! where the linker looks for libraries, and the command that compiles one
//! file.

use crate::paths::{
    extension, extension_of, flatten, flatten_of, is_ancestor, join, join_of, lemma_join_apart,
    lemma_parent_is_shorter, lemma_walk_up, lies_between, parent, parent_of, text_eq, walk_up,
    SEPARATOR,
};
use crate::types::{BuildShared, Invocation, InvocationView, SharedView};
use vstd::prelude::*;
use vstd::string::StringExecFns;

verus! {

/// Whether `path` names a source file: its extension is `c`, `cpp`, `c++`
/// or `mm`.
pub open spec fn source_like(path: Seq<char>) -> bool {
    match extension_of(path) {
        Some(ext) => ext == "c"@ || ext == "cpp"@ || ext == "c++"@ || ext == "mm"@,
        None => false,
    }
}

/// Whether `path` names a header: its extension is `h`, `hpp` or `h++`.
pub open spec fn header_like(path: Seq<char>) -> bool {
    match extension_of(path) {
        Some(ext) => ext == "h"@ || ext == "hpp"@ || ext == "h++"@,
        None => false,
    }
}

/// The sources among `files`, in the order of `files`.
pub open spec fn sources_among(files: Seq<Seq<char>>) -> Seq<Seq<char>> {
    files.filter(|path: Seq<char>| source_like(path))
}

/// The headers among `files`, in the order of `files`.
pub open spec fn headers_among(files: Seq<Seq<char>>) -> Seq<Seq<char>> {
    files.filter(|path: Seq<char>| header_like(path))
}

/// `list`, with `item` at its end unless `list` holds it already.
pub open spec fn with_unique(list: Seq<Seq<char>>, item: Seq<char>) -> Seq<Seq<char>> {
    if list.contains(item) {
        list
    } else {
        list.push(item)
    }
}

/// `list`, followed by those of `items` that it does not hold yet, each once
/// and in the order of `items`.
pub open spec fn with_all_unique(list: Seq<Seq<char>>, items: Seq<Seq<char>>) -> Seq<Seq<char>>
    decreases items.len(),
{
    if items.len() == 0 {
        list
    } else {
        with_unique(with_all_unique(list, items.drop_last()), items.last())
    }
}

/// The directories from which the headers can be reached: for each header,
/// every directory on the way up from it, ending before `root`. Each
/// directory stands once, where it was first come upon.
pub open spec fn include_paths(root: Seq<char>, headers: Seq<Seq<char>>) -> Seq<Seq<char>>
    decreases headers.len(),
{
    if headers.len() == 0 {
        Seq::empty()
    } else {
        with_all_unique(include_paths(root, headers.drop_last()), walk_up(headers.last(), root))
    }
}

/// Whether `path` names a source file.
pub fn is_source(path: &str) -> (yes: bool)
    ensures
        yes == source_like(path@),
{
    match extension(path) {
        None => false,
        Some(ext) => text_eq(ext.as_str(), "c") || text_eq(ext.as_str(), "cpp") || text_eq(
            ext.as_str(),
            "c++",
        ) || text_eq(ext.as_str(), "mm"),
    }
}

/// Whether `path` names a header.
pub fn is_header(path: &str) -> (yes: bool)
    ensures
        yes == header_like(path@),
{
    match extension(path) {
        None => false,
        Some(ext) => text_eq(ext.as_str(), "h") || text_eq(ext.as_str(), "hpp") || text_eq(
            ext.as_str(),
            "h++",
        ),
    }
}

/// Picks the sources among the files that a walk of the sources tree found,
/// keeping their order.
pub fn find_sources(files: &Vec<String>) -> (sources: Vec<String>)
    ensures
        sources.deep_view() == sources_among(files.deep_view()),
{
    let mut sources: Vec<String> = Vec::new();
    let mut at: usize = 0;
    let ghost all = files.deep_view();
    proof {
        reveal(Seq::filter);
        assert(all.take(0) =~= Seq::<Seq<char>>::empty());
        assert(sources.deep_view() =~= sources_among(all.take(0)));
    }
    while at < files.len()
        invariant
            at <= files.len(),
            all == files.deep_view(),
            sources.deep_view() == sources_among(all.take(at as int)),
        decreases files.len() - at,
    {
        let ghost before = sources.deep_view();
        proof {
            reveal(Seq::filter);
            assert(all.take(at + 1).drop_last() =~= all.take(at as int));
            assert(all.take(at + 1).last() == files@[at as int]@);
        }
        if is_source(files[at].as_str()) {
            sources.push(files[at].clone());
            assert(sources.deep_view() =~= before.push(files@[at as int]@));
        }
        at = at + 1;
    }
    assert(all.take(at as int) =~= all);
    sources
}

/// Picks the headers among the files that a walk of the sources tree found,
/// keeping their order.
pub fn find_headers(files: &Vec<String>) -> (headers: Vec<String>)
    ensures
        headers.deep_view() == headers_among(files.deep_view()),
{
    let mut headers: Vec<String> = Vec::new();
    let mut at: usize = 0;
    let ghost all = files.deep_view();
    proof {
        reveal(Seq::filter);
        assert(all.take(0) =~= Seq::<Seq<char>>::empty());
        assert(headers.deep_view() =~= headers_among(all.take(0)));
    }
    while at < files.len()
        invariant
            at <= files.len(),
            all == files.deep_view(),
            headers.deep_view() == headers_among(all.take(at as int)),
        decreases files.len() - at,
    {
        let ghost before = headers.deep_view();
        proof {
            reveal(Seq::filter);
            assert(all.take(at + 1).drop_last() =~= all.take(at as int));
            assert(all.take(at + 1).last() == files@[at as int]@);
        }
        if is_header(files[at].as_str()) {
            headers.push(files[at].clone());
            assert(headers.deep_view() =~= before.push(files@[at as int]@));
        }
        at = at + 1;
    }
    assert(all.take(at as int) =~= all);
    headers
}

/// Whether `list` holds `item`.
pub fn holds(list: &Vec<String>, item: &str) -> (yes: bool)
    ensures
        yes == list.deep_view().contains(item@),
{
    let mut at: usize = 0;
    while at < list.len()
        invariant
            at <= list.len(),
            forall|i: int| 0 <= i < at ==> list.deep_view()[i] != item@,
        decreases list.len() - at,
    {
        if text_eq(list[at].as_str(), item) {
            assert(list.deep_view()[at as int] == item@);
            return true;
        }
        at = at + 1;
    }
    false
}

/// Puts `item` at the end of `list` unless `list` holds it already.
pub fn push_unique(list: &mut Vec<String>, item: String)
    ensures
        final(list).deep_view() == with_unique(old(list).deep_view(), item@),
{
    if !holds(list, item.as_str()) {
        let ghost before = list.deep_view();
        list.push(item);
        assert(list.deep_view() =~= before.push(item@));
    }
}

/// Infers where the compiler has to look for the headers.
///
/// From each header the way leads up, directory by directory, and ends
/// before `root`; a header that does not lie under `root` is followed to the
/// top. Every directory passed stands in the result once, in the order in
/// which it was first passed. So a file may name a header relative to any
/// directory between the header and the root.
pub fn generate_include_paths(root: &str, headers: &Vec<String>) -> (dirs: Vec<String>)
    ensures
        dirs.deep_view() == include_paths(root@, headers.deep_view()),
        dirs.deep_view().no_duplicates(),
        !dirs.deep_view().contains(root@),
        forall|dir: Seq<char>|
            dirs.deep_view().contains(dir) <==> exists|i: int|
                0 <= i < headers.len() && #[trigger] lies_between(
                    dir,
                    root@,
                    headers.deep_view()[i],
                ),
{
    let mut dirs: Vec<String> = Vec::new();
    let mut at: usize = 0;
    let ghost all = headers.deep_view();
    proof {
        assert(all.take(0) =~= Seq::<Seq<char>>::empty());
        assert(dirs.deep_view() =~= include_paths(root@, all.take(0)));
    }
    while at < headers.len()
        invariant
            at <= headers.len(),
            all == headers.deep_view(),
            dirs.deep_view() == include_paths(root@, all.take(at as int)),
        decreases headers.len() - at,
    {
        let ghost base = dirs.deep_view();
        let ghost way = walk_up(headers@[at as int]@, root@);
        let ghost mut passed: Seq<Seq<char>> = Seq::empty();
        let mut above = parent(headers[at].as_str());
        proof {
            assert(all.take(at + 1).drop_last() =~= all.take(at as int));
            assert(all.take(at + 1).last() == headers@[at as int]@);
            assert(passed + way =~= way);
        }
        loop
            invariant_except_break
                dirs.deep_view() == with_all_unique(base, passed),
                match above.deep_view() {
                    None => way == passed,
                    Some(dir) => way == passed + if dir == root@ {
                        Seq::<Seq<char>>::empty()
                    } else {
                        seq![dir] + walk_up(dir, root@)
                    },
                },
            ensures
                dirs.deep_view() == with_all_unique(base, way),
            decreases
                    match above.deep_view() {
                        None => 0,
                        Some(dir) => dir.len() + 1,
                    },
        {
            let dir = match above {
                None => {
                    break ;
                },
                Some(dir) => dir,
            };
            if text_eq(dir.as_str(), root) {
                proof {
                    assert(passed + Seq::<Seq<char>>::empty() =~= passed);
                }
                break ;
            }
            above = parent(dir.as_str());
            proof {
                lemma_parent_is_shorter(dir@);
                let longer = passed.push(dir@);
                assert(longer.drop_last() =~= passed);
                assert(longer.last() == dir@);
                assert(passed + (seq![dir@] + walk_up(dir@, root@)) =~= longer + walk_up(
                    dir@,
                    root@,
                ));
                assert(longer + Seq::<Seq<char>>::empty() =~= longer);
                match parent_of(dir@) {
                    None => {
                        assert(longer + walk_up(dir@, root@) =~= longer);
                    },
                    Some(next) => {},
                }
                passed = longer;
            }
            push_unique(&mut dirs, dir);
        }
        at = at + 1;
    }
    proof {
        assert(all.take(at as int) =~= all);
        lemma_include_paths(root@, all);
    }
    dirs
}

/// The flag that makes the linker search the directory of `library`.
pub open spec fn search_flag(library: Seq<char>) -> Seq<char>
    recommends
        parent_of(library) is Some,
{
    "-L"@ + parent_of(library)->0
}

/// One search flag for each of `libraries`, in their order.
pub open spec fn search_flags(libraries: Seq<Seq<char>>) -> Seq<Seq<char>> {
    Seq::new(libraries.len(), |i: int| search_flag(libraries[i]))
}

/// The header roots that the dependencies declare, in their order.
pub open spec fn header_roots(shared: Seq<SharedView>) -> Seq<Seq<char>> {
    Seq::new(shared.len(), |i: int| shared[i].headers)
}

/// Every directory in which the compiler looks for headers: those inferred
/// from the headers of the project, then the header roots of the
/// dependencies that are not among them yet.
pub open spec fn include_dirs(
    root: Seq<char>,
    headers: Seq<Seq<char>>,
    shared: Seq<SharedView>,
) -> Seq<Seq<char>> {
    with_all_unique(include_paths(root, headers), header_roots(shared))
}

/// Each of `dirs` as a directory of the project's own headers.
pub open spec fn user_flags(dirs: Seq<Seq<char>>) -> Seq<Seq<char>> {
    Seq::new(dirs.len(), |i: int| "-I"@ + dirs[i])
}

/// Each of `dirs` as a directory of system headers: the flag, then the
/// directory.
pub open spec fn system_flags(dirs: Seq<Seq<char>>) -> Seq<Seq<char>> {
    Seq::new(
        2 * dirs.len(),
        |i: int|
            if i % 2 == 0 {
                "-isystem"@
            } else {
                dirs[i / 2]
            },
    )
}

/// The arguments that name `dirs` to the compiler. Each directory is named
/// twice: once for the project's own headers and once as a directory of
/// system headers, in which the compiler reports nothing.
pub open spec fn include_args(dirs: Seq<Seq<char>>) -> Seq<Seq<char>> {
    user_flags(dirs) + system_flags(dirs)
}

/// The object file that `source` is compiled to: in `build`, under the path
/// of the source with a dot for every separator and `.o` behind it.
pub open spec fn object_of(build: Seq<char>, source: Seq<char>) -> Seq<char> {
    join_of(build, flatten_of(source) + ".o"@)
}

/// The compilation of one file: the command to run, and the object file
/// that the command writes.
#[derive(Debug, Clone)]
pub struct CompileStep {
    pub command: Invocation,
    pub object: String,
}

/// What a `CompileStep` holds.
#[verifier::ext_equal]
pub struct StepView {
    pub command: InvocationView,
    pub object: Seq<char>,
}

impl DeepView for CompileStep {
    type V = StepView;

    open spec fn deep_view(&self) -> StepView {
        StepView { command: self.command@, object: self.object@ }
    }
}

impl View for CompileStep {
    type V = StepView;

    open spec fn view(&self) -> StepView {
        self.deep_view()
    }
}

/// The compilation of `source` by `compiler` into `build`: `-c`, the
/// source, the arguments `args`, `-o`, the object.
pub open spec fn compile_step(
    compiler: Seq<char>,
    source: Seq<char>,
    build: Seq<char>,
    args: Seq<Seq<char>>,
) -> StepView {
    StepView {
        command: InvocationView {
            directory: None,
            binary: compiler,
            args: seq!["-c"@, source] + args + seq!["-o"@, object_of(build, source)],
            echo: true,
            stream: true,
        },
        object: object_of(build, source),
    }
}

/// Makes the search flags of the linker: for each library file, in order,
/// `-L` and the directory that holds the file. Which libraries are linked
/// is not said here: the arguments of the platform and the target name them.
pub fn generate_library_args(libs: &Vec<String>) -> (args: Vec<String>)
    requires
        forall|i: int| 0 <= i < libs.len() ==> parent_of(#[trigger] libs.deep_view()[i]) is Some,
    ensures
        args.deep_view() == search_flags(libs.deep_view()),
{
    let mut args: Vec<String> = Vec::new();
    let mut at: usize = 0;
    while at < libs.len()
        invariant
            at <= libs.len(),
            forall|i: int|
                0 <= i < libs.len() ==> parent_of(#[trigger] libs.deep_view()[i]) is Some,
            args@.len() == at,
            forall|i: int| 0 <= i < at ==> (#[trigger] args@[i])@ == search_flag(libs@[i]@),
        decreases libs.len() - at,
    {
        assert(parent_of(libs.deep_view()[at as int]) is Some);
        let dir = parent(libs[at].as_str()).unwrap();
        let mut flag = String::from_str("-L");
        flag.append(dir.as_str());
        args.push(flag);
        at = at + 1;
    }
    assert(args.deep_view() =~= search_flags(libs.deep_view()));
    args
}

/// Makes the arguments of the compiler: `compiler_args`, then the include
/// arguments.
///
/// `files` is what a walk of the sources tree found. The directories are
/// those inferred from the headers among `files`, and the header roots of
/// the dependencies. Each is named twice, first all of them with `-I`, then
/// all of them with `-isystem`.
pub fn generate_include_args(
    root: &str,
    files: &Vec<String>,
    shared: &Vec<BuildShared>,
    compiler_args: &Vec<String>,
) -> (args: Vec<String>)
    ensures
        args.deep_view() == compiler_args.deep_view() + include_args(
            include_dirs(root@, headers_among(files.deep_view()), shared.deep_view()),
        ),
{
    let headers = find_headers(files);
    let mut dirs = generate_include_paths(root, &headers);
    let ghost inferred = dirs.deep_view();
    let ghost roots = header_roots(shared.deep_view());
    let mut at: usize = 0;
    assert(roots.take(0) =~= Seq::<Seq<char>>::empty());
    while at < shared.len()
        invariant
            at <= shared.len(),
            roots == header_roots(shared.deep_view()),
            dirs.deep_view() == with_all_unique(inferred, roots.take(at as int)),
        decreases shared.len() - at,
    {
        proof {
            assert(roots.take(at + 1).drop_last() =~= roots.take(at as int));
            assert(roots.take(at + 1).last() == shared@[at as int].headers@);
        }
        push_unique(&mut dirs, shared[at].headers.clone());
        at = at + 1;
    }
    assert(roots.take(at as int) =~= roots);
    let ghost base = compiler_args.deep_view();
    let ghost all = dirs.deep_view();
    let mut args = compiler_args.clone();
    assert(args.deep_view() =~= base);
    at = 0;
    while at < dirs.len()
        invariant
            at <= dirs.len(),
            all == dirs.deep_view(),
            args.deep_view() =~= base + user_flags(all).take(at as int),
        decreases dirs.len() - at,
    {
        let ghost before = args.deep_view();
        let mut flag = String::from_str("-I");
        flag.append(dirs[at].as_str());
        args.push(flag);
        assert(args.deep_view() =~= before.push("-I"@ + all[at as int]));
        at = at + 1;
    }
    assert(user_flags(all).take(at as int) =~= user_flags(all));
    at = 0;
    while at < dirs.len()
        invariant
            at <= dirs.len(),
            all == dirs.deep_view(),
            args.deep_view() =~= base + user_flags(all) + system_flags(all).take(2 * at),
        decreases dirs.len() - at,
    {
        let ghost before = args.deep_view();
        args.push(String::from_str("-isystem"));
        args.push(dirs[at].clone());
        assert(args.deep_view() =~= before.push("-isystem"@).push(all[at as int]));
        at = at + 1;
    }
    assert(system_flags(all).take(2 * at) =~= system_flags(all));
    assert(args.deep_view() =~= base + include_args(all));
    args
}

/// Says how one file is compiled.
///
/// The object goes into `build`. Its name is the whole path of the source
/// with a dot for every separator, and `.o` behind it, so that files of one
/// name in different directories get different objects. The compiler is run
/// once, as `-c <source> <args> -o <object>`.
pub fn compile(compiler: &str, source: &str, build: &str, args: &Vec<String>) -> (step: CompileStep)
    ensures
        step@ == compile_step(compiler@, source@, build@, args.deep_view()),
{
    let mut name = flatten(source);
    name.append(".o");
    let object = join(build, name.as_str());
    let ghost given = args.deep_view();
    let mut all: Vec<String> = Vec::new();
    all.push(String::from_str("-c"));
    all.push(String::from_str(source));
    assert(all.deep_view() =~= seq!["-c"@, source@]);
    let mut at: usize = 0;
    while at < args.len()
        invariant
            at <= args.len(),
            given == args.deep_view(),
            all.deep_view() =~= seq!["-c"@, source@] + given.take(at as int),
        decreases args.len() - at,
    {
        let ghost before = all.deep_view();
        all.push(args[at].clone());
        assert(all.deep_view() =~= before.push(given[at as int]));
        at = at + 1;
    }
    assert(given.take(at as int) =~= given);
    let ghost before = all.deep_view();
    all.push(String::from_str("-o"));
    all.push(object.clone());
    assert(all.deep_view() =~= before + seq!["-o"@, object@]);
    let step = CompileStep {
        command: Invocation {
            directory: None,
            binary: String::from_str(compiler),
            args: all,
            echo: true,
            stream: true,
        },
        object,
    };
    assert(step@ =~= compile_step(compiler@, source@, build@, args.deep_view()));
    step
}

/// Adding items one by one keeps what was there, adds what was not, and
/// never makes a duplicate.
pub proof fn lemma_with_all_unique(list: Seq<Seq<char>>, items: Seq<Seq<char>>)
    ensures
        forall|item: Seq<char>|
            with_all_unique(list, items).contains(item) <==> list.contains(item) || items.contains(
                item,
            ),
        list.no_duplicates() ==> with_all_unique(list, items).no_duplicates(),
    decreases items.len(),
{
    if items.len() > 0 {
        let front = items.drop_last();
        let before = with_all_unique(list, front);
        let after = with_all_unique(list, items);
        lemma_with_all_unique(list, front);
        assert forall|item: Seq<char>| after.contains(item) <==> list.contains(item)
            || items.contains(item) by {
            if after.contains(item) {
                let i: int = choose|i: int| 0 <= i < after.len() && after[i] == item;
                if i < before.len() {
                    assert(before[i] == item);
                    assert(before.contains(item));
                    if front.contains(item) {
                        let j: int = choose|j: int| 0 <= j < front.len() && front[j] == item;
                        assert(items[j] == item);
                    }
                } else {
                    assert(items[items.len() - 1] == item);
                }
            }
            if list.contains(item) {
                assert(before.contains(item));
                let i: int = choose|i: int| 0 <= i < before.len() && before[i] == item;
                assert(after[i] == item);
            }
            if items.contains(item) {
                let j: int = choose|j: int| 0 <= j < items.len() && items[j] == item;
                if j < front.len() {
                    assert(front[j] == item);
                    assert(front.contains(item));
                    assert(before.contains(item));
                    let i: int = choose|i: int| 0 <= i < before.len() && before[i] == item;
                    assert(after[i] == item);
                } else if before.contains(item) {
                } else {
                    assert(after[before.len() as int] == item);
                }
            }
        }
    }
}

/// The inferred include paths are exactly the directories that lie between
/// some header and the root; none of them is the root, and none stands
/// twice.
pub proof fn lemma_include_paths(root: Seq<char>, headers: Seq<Seq<char>>)
    ensures
        include_paths(root, headers).no_duplicates(),
        !include_paths(root, headers).contains(root),
        forall|dir: Seq<char>|
            include_paths(root, headers).contains(dir) <==> exists|i: int|
                0 <= i < headers.len() && #[trigger] lies_between(dir, root, headers[i]),
    decreases headers.len(),
{
    let dirs = include_paths(root, headers);
    if headers.len() > 0 {
        let front = headers.drop_last();
        let before = include_paths(root, front);
        let way = walk_up(headers.last(), root);
        lemma_include_paths(root, front);
        lemma_walk_up(headers.last(), root);
        lemma_with_all_unique(before, way);
        assert forall|dir: Seq<char>| dirs.contains(dir) <==> exists|i: int|
            0 <= i < headers.len() && #[trigger] lies_between(dir, root, headers[i]) by {
            if dirs.contains(dir) {
                if before.contains(dir) {
                    let i: int = choose|i: int|
                        0 <= i < front.len() && #[trigger] lies_between(dir, root, front[i]);
                    assert(lies_between(dir, root, headers[i]));
                } else {
                    assert(way.contains(dir));
                    assert(lies_between(dir, root, headers[headers.len() - 1]));
                }
            }
            if exists|i: int|
                0 <= i < headers.len() && #[trigger] lies_between(dir, root, headers[i]) {
                let i: int = choose|i: int|
                    0 <= i < headers.len() && #[trigger] lies_between(dir, root, headers[i]);
                if i < front.len() {
                    assert(lies_between(dir, root, front[i]));
                    assert(before.contains(dir));
                } else {
                    assert(way.contains(dir));
                }
            }
        }
    } else {
        assert forall|dir: Seq<char>| !dirs.contains(dir) by {}
    }
}

/// Where every header lies under the root, the inferred include paths are
/// exactly the directories above a header and below the root: the
/// directory of each header and all that lie between it and the root.
pub proof fn lemma_include_paths_under_root(root: Seq<char>, headers: Seq<Seq<char>>)
    requires
        forall|i: int| 0 <= i < headers.len() ==> is_ancestor(root, #[trigger] headers[i]),
    ensures
        forall|dir: Seq<char>|
            include_paths(root, headers).contains(dir) <==> exists|i: int|
                0 <= i < headers.len() && #[trigger] is_ancestor(dir, headers[i]) && is_ancestor(
                    root,
                    dir,
                ),
{
    lemma_include_paths(root, headers);
    assert forall|dir: Seq<char>| include_paths(root, headers).contains(dir) <==> exists|i: int|
        0 <= i < headers.len() && #[trigger] is_ancestor(dir, headers[i]) && is_ancestor(
            root,
            dir,
        ) by {
        if include_paths(root, headers).contains(dir) {
            let i: int = choose|i: int|
                0 <= i < headers.len() && #[trigger] lies_between(dir, root, headers[i]);
            assert(is_ancestor(dir, headers[i]) && is_ancestor(root, dir));
        }
        if exists|i: int|
            0 <= i < headers.len() && #[trigger] is_ancestor(dir, headers[i]) && is_ancestor(
                root,
                dir,
            ) {
            let i: int = choose|i: int|
                0 <= i < headers.len() && #[trigger] is_ancestor(dir, headers[i]) && is_ancestor(
                    root,
                    dir,
                );
            assert(lies_between(dir, root, headers[i]));
        }
    }
}

/// Sources with different flat names are compiled to different objects;
/// so are, in particular, files of one name in directories whose names
/// differ in more than separators and dots.
pub proof fn lemma_objects_apart(build: Seq<char>, one: Seq<char>, other: Seq<char>)
    requires
        flatten_of(one) != flatten_of(other),
    ensures
        object_of(build, one) != object_of(build, other),
{
    reveal_strlit(".o");
    let a = flatten_of(one) + ".o"@;
    let b = flatten_of(other) + ".o"@;
    if a == b {
        assert(a.take(flatten_of(one).len() as int) =~= flatten_of(one));
        assert(b.take(flatten_of(other).len() as int) =~= flatten_of(other));
        assert(a.len() == flatten_of(one).len() + 2);
        assert(b.len() == flatten_of(other).len() + 2);
    }
    assert(a.len() > 0 && a[0] != SEPARATOR) by {
        if flatten_of(one).len() > 0 {
            assert(a[0] == flatten_of(one)[0]);
        } else {
            assert(a[0] == ".o"@[0]);
        }
    }
    assert(b.len() > 0 && b[0] != SEPARATOR) by {
        if flatten_of(other).len() > 0 {
            assert(b[0] == flatten_of(other)[0]);
        } else {
            assert(b[0] == ".o"@[0]);
        }
    }
    lemma_join_apart(build, a, b);
}

} // verus!
