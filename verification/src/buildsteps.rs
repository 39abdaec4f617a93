//! The three steps of a build: the shared dependencies, the compilation of
//! the project, and the link.
//!
//! No step runs anything. Each says which commands are to be run, in which
//! directory and in which order; running them, and giving up at the first
//! that fails, is the caller's part.

use crate::compileutils::{
    compile, compile_step, find_sources, generate_include_args, generate_library_args,
    headers_among, include_args, include_dirs, object_of, search_flags, sources_among,
    CompileStep, StepView,
};
use crate::paths::{join, join_of, parent, parent_of, text_eq};
use crate::types::{
    BuildDirs, BuildPlatform, BuildShared, BuildTarget, DirsView, Invocation, InvocationView,
    PlatformView, SharedView, TargetView,
};
use vstd::prelude::*;
use vstd::string::StringExecFns;

verus! {

/// How one dependency is built: its build command, handed to the shell in
/// the directory of the dependency.
pub open spec fn build_step(shared: SharedView) -> InvocationView {
    InvocationView {
        directory: Some(shared.root),
        binary: "bash"@,
        args: seq!["-c"@, shared.build],
        echo: false,
        stream: true,
    }
}

/// The build of every dependency, in their order.
pub open spec fn build_steps(shared: Seq<SharedView>) -> Seq<InvocationView> {
    Seq::new(shared.len(), |i: int| build_step(shared[i]))
}

/// The objects that the loose dependencies declare, dependency after
/// dependency and each in its declared order. The objects of a library
/// dependency are not among them.
pub open spec fn loose_objects(shared: Seq<SharedView>) -> Seq<Seq<char>>
    decreases shared.len(),
{
    if shared.len() == 0 {
        Seq::empty()
    } else if shared.last().is_loose() {
        loose_objects(shared.drop_last()) + shared.last().objs
    } else {
        loose_objects(shared.drop_last())
    }
}

/// The word that tells the archiver of the host to replace or create.
pub open spec fn archive_flag(host: Seq<char>) -> Seq<char> {
    if host == "macos"@ {
        "-r"@
    } else {
        "r"@
    }
}

/// How `objects` are archived into `libdependencies.a` in `root`; nothing
/// where there is no object.
pub open spec fn archive_step(root: Seq<char>, host: Seq<char>, objects: Seq<Seq<char>>) -> Option<
    InvocationView,
> {
    if objects.len() == 0 {
        None
    } else {
        Some(
            InvocationView {
                directory: Some(root),
                binary: "ar"@,
                args: seq![archive_flag(host), "libdependencies.a"@] + objects,
                echo: false,
                stream: false,
            },
        )
    }
}

/// What building the shared dependencies takes: one build for each of
/// them, then at most one archive.
#[derive(Debug, Clone)]
pub struct SharedPlan {
    pub builds: Vec<Invocation>,
    pub archive: Option<Invocation>,
}

/// What a `SharedPlan` holds.
#[verifier::ext_equal]
pub struct SharedPlanView {
    pub builds: Seq<InvocationView>,
    pub archive: Option<InvocationView>,
}

impl DeepView for SharedPlan {
    type V = SharedPlanView;

    open spec fn deep_view(&self) -> SharedPlanView {
        SharedPlanView { builds: self.builds.deep_view(), archive: self.archive.deep_view() }
    }
}

impl View for SharedPlan {
    type V = SharedPlanView;

    open spec fn view(&self) -> SharedPlanView {
        self.deep_view()
    }
}

/// Whether one of the dependencies is loose.
pub open spec fn any_loose(shared: Seq<SharedView>) -> bool {
    exists|i: int| 0 <= i < shared.len() && (#[trigger] shared[i]).is_loose()
}

/// The library files that the library dependencies declare, dependency
/// after dependency and each in its declared order.
pub open spec fn library_files(shared: Seq<SharedView>) -> Seq<Seq<char>>
    decreases shared.len(),
{
    if shared.len() == 0 {
        Seq::empty()
    } else if shared.last().is_loose() {
        library_files(shared.drop_last())
    } else {
        library_files(shared.drop_last()) + shared.last().libs
    }
}

/// Whether the link can be planned: every library file of every dependency
/// lies in a directory.
pub open spec fn linkable(shared: Seq<SharedView>) -> bool {
    forall|i: int, j: int|
        0 <= i < shared.len() && 0 <= j < shared[i].libs.len() ==> parent_of(
            #[trigger] shared[i].libs[j],
        ) is Some
}

/// How many of the dependencies are library dependencies.
pub open spec fn library_count(shared: Seq<SharedView>) -> nat
    decreases shared.len(),
{
    if shared.len() == 0 {
        0
    } else if shared.last().is_loose() {
        library_count(shared.drop_last())
    } else {
        library_count(shared.drop_last()) + 1
    }
}

/// What makes the linker take the archive of loose objects: the root as a
/// search directory and the archive as a library, where a dependency is
/// loose; nothing where none is.
pub open spec fn archive_flags(root: Seq<char>, shared: Seq<SharedView>) -> Seq<Seq<char>> {
    if any_loose(shared) {
        seq!["-L"@ + root, "-ldependencies"@]
    } else {
        Seq::empty()
    }
}

/// The arguments of the linker, in the order that the linker needs: the
/// binary to write, the search directories of the libraries, the archive of
/// loose objects, the arguments of the platform, those of the target, and
/// the objects last.
pub open spec fn link_args(
    root: Seq<char>,
    platform: PlatformView,
    shared: Seq<SharedView>,
    target: TargetView,
    objects: Seq<Seq<char>>,
) -> Seq<Seq<char>> {
    seq!["-o"@, join_of(root, target.name)] + search_flags(library_files(shared)) + archive_flags(
        root,
        shared,
    ) + platform.linker_args + target.linker_args + objects
}

/// How the binary is linked: by the linker of the platform, in the root.
pub open spec fn link_step(
    root: Seq<char>,
    platform: PlatformView,
    shared: Seq<SharedView>,
    target: TargetView,
    objects: Seq<Seq<char>>,
) -> InvocationView {
    InvocationView {
        directory: Some(root),
        binary: platform.linker,
        args: link_args(root, platform, shared, target, objects),
        echo: false,
        stream: true,
    }
}

/// The arguments that every compilation of the project gets: those of the
/// platform, those of the target, and the include arguments.
pub open spec fn merged_args(
    root: Seq<char>,
    platform: PlatformView,
    shared: Seq<SharedView>,
    target: TargetView,
    files: Seq<Seq<char>>,
) -> Seq<Seq<char>> {
    platform.compiler_args + target.compiler_args + include_args(
        include_dirs(root, headers_among(files), shared),
    )
}

/// The compilations of a project: one for each source among `files`, in
/// their order, and that of the entrypoint last.
pub open spec fn compile_steps(
    root: Seq<char>,
    platform: PlatformView,
    shared: Seq<SharedView>,
    dirs: DirsView,
    target: TargetView,
    files: Seq<Seq<char>>,
) -> Seq<StepView> {
    let sources = sources_among(files);
    let args = merged_args(root, platform, shared, target, files);
    Seq::new(
        sources.len() + 1,
        |i: int|
            if i < sources.len() {
                compile_step(platform.compiler, sources[i], dirs.output, args)
            } else {
                compile_step(platform.compiler, target.entrypoint, dirs.output, args)
            },
    )
}

/// The objects that `steps` write, in the order of the steps.
pub open spec fn objects_of(steps: Seq<StepView>) -> Seq<Seq<char>> {
    Seq::new(steps.len(), |i: int| steps[i].object)
}

/// How one dependency is cleaned: its clean command, handed to the shell
/// in the directory of the dependency.
pub open spec fn clean_step(shared: SharedView) -> InvocationView {
    InvocationView {
        directory: Some(shared.root),
        binary: "bash"@,
        args: seq!["-c"@, shared.clean],
        echo: false,
        stream: false,
    }
}

/// The cleaning of every dependency, in their order.
pub open spec fn clean_steps(shared: Seq<SharedView>) -> Seq<InvocationView> {
    Seq::new(shared.len(), |i: int| clean_step(shared[i]))
}

/// What a build leaves behind: the output directory, the archive of loose
/// objects, the compile database and the binary.
pub open spec fn artifacts_of(root: Seq<char>, dirs: DirsView, target: TargetView) -> Seq<
    Seq<char>,
> {
    seq![
        dirs.output,
        join_of(root, "libdependencies.a"@),
        join_of(root, "compile_commands.json"@),
        join_of(root, target.name),
    ]
}

/// Plans the build of the shared dependencies.
///
/// Each dependency is built by its own command, run by the shell in the
/// directory of the dependency, in the order of `shared`. The objects of the
/// loose dependencies are collected; if there is any, they are archived into
/// `libdependencies.a` in `root`, with the flag that the archiver of `host`
/// takes. There is an archive step exactly when some loose dependency
/// declares an object.
pub fn build_shared(root: &str, shared: &Vec<BuildShared>, host: &str) -> (plan: SharedPlan)
    ensures
        plan@.builds == build_steps(shared.deep_view()),
        plan@.archive == archive_step(root@, host@, loose_objects(shared.deep_view())),
        plan.archive is Some <==> exists|i: int|
            0 <= i < shared.len() && (#[trigger] shared.deep_view()[i]).is_loose()
                && shared.deep_view()[i].objs.len() > 0,
{
    let ghost all = shared.deep_view();
    let mut builds: Vec<Invocation> = Vec::new();
    let mut objects: Vec<String> = Vec::new();
    let mut at: usize = 0;
    proof {
        assert(all.take(0) =~= Seq::<SharedView>::empty());
        assert(objects.deep_view() =~= loose_objects(all.take(0)));
    }
    while at < shared.len()
        invariant
            at <= shared.len(),
            all == shared.deep_view(),
            builds@.len() == at,
            forall|i: int| 0 <= i < at ==> (#[trigger] builds@[i])@ == build_step(all[i]),
            objects.deep_view() == loose_objects(all.take(at as int)),
        decreases shared.len() - at,
    {
        let dep = &shared[at];
        proof {
            assert(all.take(at + 1).drop_last() =~= all.take(at as int));
            assert(all.take(at + 1).last() == dep@);
        }
        let mut args: Vec<String> = Vec::new();
        args.push(String::from_str("-c"));
        args.push(dep.build.clone());
        assert(args.deep_view() =~= seq!["-c"@, dep.build@]);
        builds.push(
            Invocation {
                directory: Some(dep.root.clone()),
                binary: String::from_str("bash"),
                args,
                echo: false,
                stream: true,
            },
        );
        if dep.is_loose() {
            append_texts(&mut objects, &dep.objs);
        }
        at = at + 1;
    }
    proof {
        assert(all.take(at as int) =~= all);
        assert(builds.deep_view() =~= build_steps(all));
        lemma_loose_objects(all);
    }
    let archive = if objects.len() == 0 {
        None
    } else {
        let mut args: Vec<String> = Vec::new();
        if text_eq(host, "macos") {
            args.push(String::from_str("-r"));
        } else {
            args.push(String::from_str("r"));
        }
        args.push(String::from_str("libdependencies.a"));
        assert(args.deep_view() =~= seq![archive_flag(host@), "libdependencies.a"@]);
        append_texts(&mut args, &objects);
        Some(
            Invocation {
                directory: Some(String::from_str(root)),
                binary: String::from_str("ar"),
                args,
                echo: false,
                stream: false,
            },
        )
    };
    SharedPlan { builds, archive }
}

/// Makes the arguments that every compilation of the project gets: those
/// of the platform, then those of the target, then the include arguments
/// for the headers among `files` and the header roots of the dependencies.
pub fn merge_compile_args(
    root: &str,
    platform: &BuildPlatform,
    shared: &Vec<BuildShared>,
    target: &BuildTarget,
    files: &Vec<String>,
) -> (args: Vec<String>)
    ensures
        args.deep_view() == merged_args(
            root@,
            platform@,
            shared.deep_view(),
            target@,
            files.deep_view(),
        ),
{
    let mut base: Vec<String> = platform.compiler_args.clone();
    append_texts(&mut base, &target.compiler_args);
    generate_include_args(root, files, shared, &base)
}

/// Plans the compilation of a project.
///
/// `files` is what a walk of the sources tree found. Every source among
/// them is compiled, in their order, and the entrypoint of the target after
/// all of them. Each compilation is run on its own and gets the arguments of
/// the platform, those of the target and the include arguments; its object
/// goes into the output directory. For `n` sources there are `n + 1` steps.
pub fn compile_project(
    root: &str,
    platform: &BuildPlatform,
    shared: &Vec<BuildShared>,
    dirs: &BuildDirs,
    target: &BuildTarget,
    files: &Vec<String>,
) -> (steps: Vec<CompileStep>)
    ensures
        steps.deep_view() == compile_steps(
            root@,
            platform@,
            shared.deep_view(),
            dirs@,
            target@,
            files.deep_view(),
        ),
        steps.len() == sources_among(files.deep_view()).len() + 1,
        steps.deep_view().last().object == object_of(dirs.output@, target.entrypoint@),
        forall|i: int|
            0 <= i < steps.len() - 1 ==> (#[trigger] steps.deep_view()[i]).object == object_of(
                dirs.output@,
                sources_among(files.deep_view())[i],
            ),
{
    let sources = find_sources(files);
    let args = merge_compile_args(root, platform, shared, target, files);
    let ghost wanted = compile_steps(
        root@,
        platform@,
        shared.deep_view(),
        dirs@,
        target@,
        files.deep_view(),
    );
    let mut steps: Vec<CompileStep> = Vec::new();
    let mut at: usize = 0;
    while at < sources.len()
        invariant
            at <= sources.len(),
            sources.deep_view() == sources_among(files.deep_view()),
            wanted == compile_steps(
                root@,
                platform@,
                shared.deep_view(),
                dirs@,
                target@,
                files.deep_view(),
            ),
            args.deep_view() == merged_args(
                root@,
                platform@,
                shared.deep_view(),
                target@,
                files.deep_view(),
            ),
            steps@.len() == at,
            forall|i: int| 0 <= i < at ==> (#[trigger] steps@[i])@ == wanted[i],
        decreases sources.len() - at,
    {
        let step = compile(
            platform.compiler.as_str(),
            sources[at].as_str(),
            dirs.output.as_str(),
            &args,
        );
        assert(sources.deep_view()[at as int] == sources@[at as int]@);
        steps.push(step);
        at = at + 1;
    }
    let last = compile(
        platform.compiler.as_str(),
        target.entrypoint.as_str(),
        dirs.output.as_str(),
        &args,
    );
    steps.push(last);
    assert(steps.deep_view() =~= wanted);
    steps
}

/// Takes the objects out of the steps of a compilation, in their order.
pub fn step_objects(steps: &Vec<CompileStep>) -> (objects: Vec<String>)
    ensures
        objects.deep_view() == objects_of(steps.deep_view()),
{
    let mut objects: Vec<String> = Vec::new();
    let mut at: usize = 0;
    while at < steps.len()
        invariant
            at <= steps.len(),
            objects@.len() == at,
            forall|i: int| 0 <= i < at ==> (#[trigger] objects@[i])@ == steps@[i].object@,
        decreases steps.len() - at,
    {
        objects.push(steps[at].object.clone());
        at = at + 1;
    }
    assert(objects.deep_view() =~= objects_of(steps.deep_view()));
    objects
}

/// Tells whether the link can be planned: whether every library file of
/// every dependency lies in a directory.
pub fn can_link(shared: &Vec<BuildShared>) -> (yes: bool)
    ensures
        yes == linkable(shared.deep_view()),
{
    let ghost all = shared.deep_view();
    let mut at: usize = 0;
    while at < shared.len()
        invariant
            at <= shared.len(),
            all == shared.deep_view(),
            forall|i: int, j: int|
                0 <= i < at && 0 <= j < all[i].libs.len() ==> parent_of(
                    #[trigger] all[i].libs[j],
                ) is Some,
        decreases shared.len() - at,
    {
        let dep = &shared[at];
        let mut inner: usize = 0;
        while inner < dep.libs.len()
            invariant
                inner <= dep.libs.len(),
                at < shared.len(),
                all == shared.deep_view(),
                dep@ == all[at as int],
                forall|j: int|
                    0 <= j < inner ==> parent_of(#[trigger] all[at as int].libs[j]) is Some,
            decreases dep.libs.len() - inner,
        {
            assert(dep.libs.deep_view()[inner as int] == all[at as int].libs[inner as int]);
            if parent(dep.libs[inner].as_str()).is_none() {
                assert(parent_of(all[at as int].libs[inner as int]) is None);
                return false;
            }
            inner = inner + 1;
        }
        at = at + 1;
    }
    true
}

/// Plans the link of the binary `<root>/<name of the target>`.
///
/// For each library file of each library dependency the linker gets its
/// directory to search. Where a dependency is loose it gets the root to
/// search and the archive of loose objects to link, whatever the archive
/// holds. Then follow the arguments of the platform, those of the target,
/// and the objects, in this order. The linker runs in `root`.
///
/// Every library file must lie in a directory; `can_link` tells whether
/// that is so.
pub fn link_binary(
    root: &str,
    platform: &BuildPlatform,
    shared: &Vec<BuildShared>,
    target: &BuildTarget,
    objs: &Vec<String>,
) -> (command: Invocation)
    requires
        linkable(shared.deep_view()),
    ensures
        command@ == link_step(
            root@,
            platform@,
            shared.deep_view(),
            target@,
            objs.deep_view(),
        ),
{
    let ghost all = shared.deep_view();
    let mut libraries: Vec<String> = Vec::new();
    let mut loose: bool = false;
    let mut at: usize = 0;
    proof {
        assert(all.take(0) =~= Seq::<SharedView>::empty());
        assert(libraries.deep_view() =~= library_files(all.take(0)));
    }
    while at < shared.len()
        invariant
            at <= shared.len(),
            all == shared.deep_view(),
            forall|i: int, j: int|
                0 <= i < all.len() && 0 <= j < all[i].libs.len() ==> parent_of(
                    #[trigger] all[i].libs[j],
                ) is Some,
            libraries.deep_view() == library_files(all.take(at as int)),
            forall|k: int|
                0 <= k < libraries.deep_view().len() ==> parent_of(
                    #[trigger] libraries.deep_view()[k],
                ) is Some,
            loose <==> any_loose(all.take(at as int)),
        decreases shared.len() - at,
    {
        let dep = &shared[at];
        proof {
            assert(all.take(at + 1).drop_last() =~= all.take(at as int));
            assert(all.take(at + 1).last() == dep@);
            assert(all[at as int] == dep@);
        }
        if dep.is_loose() {
            loose = true;
            assert(all.take(at + 1)[at as int].is_loose());
        } else {
            let ghost before = libraries.deep_view();
            append_texts(&mut libraries, &dep.libs);
            assert forall|k: int| 0 <= k < libraries.deep_view().len() implies parent_of(
                #[trigger] libraries.deep_view()[k],
            ) is Some by {
                if k >= before.len() {
                    assert(libraries.deep_view()[k] == all[at as int].libs[k - before.len()]);
                }
            }
            assert(!any_loose(all.take(at as int)) ==> !any_loose(all.take(at + 1))) by {
                if any_loose(all.take(at + 1)) {
                    let i: int = choose|i: int|
                        0 <= i < all.take(at + 1).len() && (#[trigger] all.take(
                            at + 1,
                        )[i]).is_loose();
                    assert(all.take(at as int)[i].is_loose());
                }
            }
        }
        proof {
            if any_loose(all.take(at as int)) {
                let i: int = choose|i: int|
                    0 <= i < all.take(at as int).len() && (#[trigger] all.take(
                        at as int,
                    )[i]).is_loose();
                assert(all.take(at + 1)[i].is_loose());
            }
        }
        at = at + 1;
    }
    assert(all.take(at as int) =~= all);
    let mut args: Vec<String> = Vec::new();
    args.push(String::from_str("-o"));
    args.push(join(root, target.name.as_str()));
    assert(args.deep_view() =~= seq!["-o"@, join_of(root@, target.name@)]);
    let flags = generate_library_args(&libraries);
    append_texts(&mut args, &flags);
    let ghost searched = args.deep_view();
    if loose {
        let mut flag = String::from_str("-L");
        flag.append(root);
        args.push(flag);
        args.push(String::from_str("-ldependencies"));
        assert(args.deep_view() =~= searched + seq!["-L"@ + root@, "-ldependencies"@]);
    } else {
        assert(args.deep_view() =~= searched + Seq::<Seq<char>>::empty());
    }
    append_texts(&mut args, &platform.linker_args);
    append_texts(&mut args, &target.linker_args);
    append_texts(&mut args, objs);
    Invocation {
        directory: Some(String::from_str(root)),
        binary: platform.linker.clone(),
        args,
        echo: false,
        stream: true,
    }
}

/// Plans the cleaning of the shared dependencies: each by its own clean
/// command, run by the shell in the directory of the dependency, in the
/// order of `shared`.
pub fn clean_shared(shared: &Vec<BuildShared>) -> (steps: Vec<Invocation>)
    ensures
        steps.deep_view() == clean_steps(shared.deep_view()),
{
    let mut steps: Vec<Invocation> = Vec::new();
    let mut at: usize = 0;
    while at < shared.len()
        invariant
            at <= shared.len(),
            steps@.len() == at,
            forall|i: int| 0 <= i < at ==> (#[trigger] steps@[i])@ == clean_step(shared@[i]@),
        decreases shared.len() - at,
    {
        let dep = &shared[at];
        let mut args: Vec<String> = Vec::new();
        args.push(String::from_str("-c"));
        args.push(dep.clean.clone());
        assert(args.deep_view() =~= seq!["-c"@, dep.clean@]);
        steps.push(
            Invocation {
                directory: Some(dep.root.clone()),
                binary: String::from_str("bash"),
                args,
                echo: false,
                stream: false,
            },
        );
        at = at + 1;
    }
    assert(steps.deep_view() =~= clean_steps(shared.deep_view()));
    steps
}

/// Lists what a build leaves behind, for the caller to remove: the output
/// directory, and in the root the archive of loose objects, the compile
/// database and the binary.
pub fn artifacts(root: &str, dirs: &BuildDirs, target: &BuildTarget) -> (paths: Vec<String>)
    ensures
        paths.deep_view() == artifacts_of(root@, dirs@, target@),
{
    let mut paths: Vec<String> = Vec::new();
    paths.push(dirs.output.clone());
    paths.push(join(root, "libdependencies.a"));
    paths.push(join(root, "compile_commands.json"));
    paths.push(join(root, target.name.as_str()));
    assert(paths.deep_view() =~= artifacts_of(root@, dirs@, target@));
    paths
}

/// Puts a copy of each of `more` at the end of `list`.
pub fn append_texts(list: &mut Vec<String>, more: &Vec<String>)
    ensures
        final(list).deep_view() == old(list).deep_view() + more.deep_view(),
{
    let ghost before = list.deep_view();
    let mut at: usize = 0;
    assert(more.deep_view().take(0) =~= Seq::<Seq<char>>::empty());
    while at < more.len()
        invariant
            at <= more.len(),
            list.deep_view() == before + more.deep_view().take(at as int),
        decreases more.len() - at,
    {
        let ghost so_far = list.deep_view();
        list.push(more[at].clone());
        assert(list.deep_view() =~= so_far.push(more.deep_view()[at as int]));
        assert(more.deep_view().take(at + 1) =~= more.deep_view().take(at as int).push(
            more.deep_view()[at as int],
        ));
        at = at + 1;
    }
    assert(more.deep_view().take(at as int) =~= more.deep_view());
}

/// There are loose objects exactly when a loose dependency declares one.
pub proof fn lemma_loose_objects(shared: Seq<SharedView>)
    ensures
        loose_objects(shared).len() > 0 <==> exists|i: int|
            0 <= i < shared.len() && (#[trigger] shared[i]).is_loose() && shared[i].objs.len() > 0,
    decreases shared.len(),
{
    if shared.len() > 0 {
        let front = shared.drop_last();
        lemma_loose_objects(front);
        if loose_objects(shared).len() > 0 {
            if loose_objects(front).len() > 0 {
                let i: int = choose|i: int|
                    0 <= i < front.len() && (#[trigger] front[i]).is_loose() && front[i].objs.len()
                        > 0;
                assert(shared[i].is_loose() && shared[i].objs.len() > 0);
            } else {
                assert(shared[shared.len() - 1].is_loose());
            }
        }
        if exists|i: int|
            0 <= i < shared.len() && (#[trigger] shared[i]).is_loose() && shared[i].objs.len() > 0 {
            let i: int = choose|i: int|
                0 <= i < shared.len() && (#[trigger] shared[i]).is_loose() && shared[i].objs.len()
                    > 0;
            if i < front.len() {
                assert(front[i].is_loose() && front[i].objs.len() > 0);
            }
        }
    }
}

/// Where every loose dependency declares an object, the loose objects are
/// archived exactly when a dependency is loose.
pub proof fn lemma_archive_iff_loose(root: Seq<char>, host: Seq<char>, shared: Seq<SharedView>)
    requires
        forall|i: int|
            0 <= i < shared.len() && (#[trigger] shared[i]).is_loose() ==> shared[i].objs.len() > 0,
    ensures
        archive_step(root, host, loose_objects(shared)) is Some <==> any_loose(shared),
{
    lemma_loose_objects(shared);
}

/// Where every dependency names a library, nothing is archived.
pub proof fn lemma_no_archive_without_loose(
    root: Seq<char>,
    host: Seq<char>,
    shared: Seq<SharedView>,
)
    requires
        forall|i: int| 0 <= i < shared.len() ==> (#[trigger] shared[i]).libs.len() >= 1,
    ensures
        archive_step(root, host, loose_objects(shared)) is None,
{
    lemma_loose_objects(shared);
}

/// The arguments of the linker, place by place: `-o` and the binary; one
/// search flag for each library file; the two words for the archive of
/// loose objects where a dependency is loose, and nothing in their place
/// where none is; the arguments of the platform; those of the target; the
/// objects.
pub proof fn lemma_link_args(
    root: Seq<char>,
    platform: PlatformView,
    shared: Seq<SharedView>,
    target: TargetView,
    objects: Seq<Seq<char>>,
)
    ensures
        ({
            let args = link_args(root, platform, shared, target, objects);
            let flags = search_flags(library_files(shared));
            let pair = archive_flags(root, shared);
            let start: int = flags.len() as int + 2;
            let first: int = start + pair.len();
            let second: int = first + platform.linker_args.len();
            let third: int = second + target.linker_args.len();
            &&& args.len() == third + objects.len()
            &&& args[0] == "-o"@
            &&& args[1] == join_of(root, target.name)
            &&& flags.len() == library_files(shared).len()
            &&& args.subrange(2, start) == flags
            &&& any_loose(shared) ==> pair.len() == 2 && args[start] == "-L"@ + root && args[start
                + 1] == "-ldependencies"@
            &&& !any_loose(shared) ==> pair.len() == 0
            &&& args.subrange(first, second) == platform.linker_args
            &&& args.subrange(second, third) == target.linker_args
            &&& args.subrange(third, args.len() as int) == objects
        }),
{
    let args = link_args(root, platform, shared, target, objects);
    let flags = search_flags(library_files(shared));
    let pair = archive_flags(root, shared);
    let start: int = flags.len() as int + 2;
    let first: int = start + pair.len();
    let second: int = first + platform.linker_args.len();
    let third: int = second + target.linker_args.len();
    assert(args.subrange(2, start) =~= flags);
    assert(args.subrange(first, second) =~= platform.linker_args);
    assert(args.subrange(second, third) =~= target.linker_args);
    assert(args.subrange(third, args.len() as int) =~= objects);
}

/// Where every library dependency names one library, the linker gets as
/// many search flags as there are library dependencies.
pub proof fn lemma_flag_per_library(shared: Seq<SharedView>)
    requires
        forall|i: int|
            0 <= i < shared.len() && !(#[trigger] shared[i]).is_loose() ==> shared[i].libs.len()
                == 1,
    ensures
        search_flags(library_files(shared)).len() == library_count(shared),
    decreases shared.len(),
{
    if shared.len() > 0 {
        let front = shared.drop_last();
        assert forall|i: int|
            0 <= i < front.len() && !(#[trigger] front[i]).is_loose() implies front[i].libs.len()
            == 1 by {
            assert(front[i] == shared[i]);
        }
        lemma_flag_per_library(front);
        assert(shared.last() == shared[shared.len() - 1]);
    }
}

} // verus!
