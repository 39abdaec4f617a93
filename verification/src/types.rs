//! The project model: directories, platform, target, shared dependencies,
//! compile records and the commands that a build hands to the outside.
//!
//! Every type is plain data. Its view (`@`) is the same value with each
//! string read as a `Seq<char>`; the contracts of the library speak of views.

use vstd::prelude::*;

verus! {

/// The three directories of a project.
#[derive(Debug, Clone)]
pub struct BuildDirs {
    pub dependencies: String,
    pub sources: String,
    pub output: String,
}

/// What a `BuildDirs` holds.
#[verifier::ext_equal]
pub struct DirsView {
    pub dependencies: Seq<char>,
    pub sources: Seq<char>,
    pub output: Seq<char>,
}

impl DeepView for BuildDirs {
    type V = DirsView;

    open spec fn deep_view(&self) -> DirsView {
        DirsView {
            dependencies: self.dependencies@,
            sources: self.sources@,
            output: self.output@,
        }
    }
}

impl View for BuildDirs {
    type V = DirsView;

    open spec fn view(&self) -> DirsView {
        self.deep_view()
    }
}

/// The tools of the host and the arguments that every use of them gets.
#[derive(Debug, Clone)]
pub struct BuildPlatform {
    pub compiler: String,
    pub linker: String,
    pub compiler_args: Vec<String>,
    pub linker_args: Vec<String>,
}

/// What a `BuildPlatform` holds.
#[verifier::ext_equal]
pub struct PlatformView {
    pub compiler: Seq<char>,
    pub linker: Seq<char>,
    pub compiler_args: Seq<Seq<char>>,
    pub linker_args: Seq<Seq<char>>,
}

impl DeepView for BuildPlatform {
    type V = PlatformView;

    open spec fn deep_view(&self) -> PlatformView {
        PlatformView {
            compiler: self.compiler@,
            linker: self.linker@,
            compiler_args: self.compiler_args.deep_view(),
            linker_args: self.linker_args.deep_view(),
        }
    }
}

impl View for BuildPlatform {
    type V = PlatformView;

    open spec fn view(&self) -> PlatformView {
        self.deep_view()
    }
}

/// The one executable that a project builds.
#[derive(Debug, Clone)]
pub struct BuildTarget {
    pub entrypoint: String,
    pub name: String,
    pub compiler_args: Vec<String>,
    pub linker_args: Vec<String>,
    pub dependencies: Vec<String>,
}

/// What a `BuildTarget` holds.
#[verifier::ext_equal]
pub struct TargetView {
    pub entrypoint: Seq<char>,
    pub name: Seq<char>,
    pub compiler_args: Seq<Seq<char>>,
    pub linker_args: Seq<Seq<char>>,
    pub dependencies: Seq<Seq<char>>,
}

impl DeepView for BuildTarget {
    type V = TargetView;

    open spec fn deep_view(&self) -> TargetView {
        TargetView {
            entrypoint: self.entrypoint@,
            name: self.name@,
            compiler_args: self.compiler_args.deep_view(),
            linker_args: self.linker_args.deep_view(),
            dependencies: self.dependencies.deep_view(),
        }
    }
}

impl View for BuildTarget {
    type V = TargetView;

    open spec fn view(&self) -> TargetView {
        self.deep_view()
    }
}

/// A component that is built outside the project and linked into it.
///
/// One that names libraries is a library dependency: its objects are never
/// collected. One that names none is loose: its objects go into the archive
/// of loose objects.
#[derive(Debug, Clone)]
pub struct BuildShared {
    pub root: String,
    pub clean: String,
    pub build: String,
    pub headers: String,
    pub objs: Vec<String>,
    pub libs: Vec<String>,
}

/// What a `BuildShared` holds.
#[verifier::ext_equal]
pub struct SharedView {
    pub root: Seq<char>,
    pub clean: Seq<char>,
    pub build: Seq<char>,
    pub headers: Seq<char>,
    pub objs: Seq<Seq<char>>,
    pub libs: Seq<Seq<char>>,
}

impl SharedView {
    /// A dependency is loose when it names no library.
    pub open spec fn is_loose(self) -> bool {
        self.libs.len() == 0
    }
}

impl DeepView for BuildShared {
    type V = SharedView;

    open spec fn deep_view(&self) -> SharedView {
        SharedView {
            root: self.root@,
            clean: self.clean@,
            build: self.build@,
            headers: self.headers@,
            objs: self.objs.deep_view(),
            libs: self.libs.deep_view(),
        }
    }
}

impl View for BuildShared {
    type V = SharedView;

    open spec fn view(&self) -> SharedView {
        self.deep_view()
    }
}

impl BuildShared {
    /// Whether the dependency is loose: it is, exactly when its list of
    /// libraries is empty.
    pub fn is_loose(&self) -> (loose: bool)
        ensures
            loose == self@.is_loose(),
            loose <==> self.libs@.len() == 0,
    {
        self.libs.len() == 0
    }
}

/// One compiler run that an earlier build made.
///
/// `arguments` is the whole command line: the compiler first, then what it
/// was given.
#[derive(Debug, Clone)]
pub struct CompileCommand {
    pub directory: String,
    pub arguments: Vec<String>,
    pub file: String,
    pub output: String,
}

/// What a `CompileCommand` holds.
#[verifier::ext_equal]
pub struct RecordView {
    pub directory: Seq<char>,
    pub arguments: Seq<Seq<char>>,
    pub file: Seq<char>,
    pub output: Seq<char>,
}

impl DeepView for CompileCommand {
    type V = RecordView;

    open spec fn deep_view(&self) -> RecordView {
        RecordView {
            directory: self.directory@,
            arguments: self.arguments.deep_view(),
            file: self.file@,
            output: self.output@,
        }
    }
}

impl View for CompileCommand {
    type V = RecordView;

    open spec fn view(&self) -> RecordView {
        self.deep_view()
    }
}

/// The compile database: the runs of an earlier build, in the order in which
/// they were made.
#[derive(Debug, Clone)]
pub struct CompileCommands(pub Vec<CompileCommand>);

impl DeepView for CompileCommands {
    type V = Seq<RecordView>;

    open spec fn deep_view(&self) -> Seq<RecordView> {
        self.0.deep_view()
    }
}

impl View for CompileCommands {
    type V = Seq<RecordView>;

    open spec fn view(&self) -> Seq<RecordView> {
        self.deep_view()
    }
}

/// A command for the caller to run: the library decides what is run, the
/// caller runs it.
#[derive(Debug, Clone)]
pub struct Invocation {
    /// The directory to run in, or `None` for the one the caller is in.
    pub directory: Option<String>,
    pub binary: String,
    pub args: Vec<String>,
    /// Whether the command line is shown before it runs.
    pub echo: bool,
    /// Whether the command writes to the caller's own output.
    pub stream: bool,
}

/// What an `Invocation` holds.
#[verifier::ext_equal]
pub struct InvocationView {
    pub directory: Option<Seq<char>>,
    pub binary: Seq<char>,
    pub args: Seq<Seq<char>>,
    pub echo: bool,
    pub stream: bool,
}

impl DeepView for Invocation {
    type V = InvocationView;

    open spec fn deep_view(&self) -> InvocationView {
        InvocationView {
            directory: self.directory.deep_view(),
            binary: self.binary@,
            args: self.args.deep_view(),
            echo: self.echo,
            stream: self.stream,
        }
    }
}

impl View for Invocation {
    type V = InvocationView;

    open spec fn view(&self) -> InvocationView {
        self.deep_view()
    }
}

/// Why a manifest was turned down.
#[derive(Debug, Clone, Copy, PartialEq, Eq, Structural)]
pub enum ConfigError {
    /// A dependency directory holds no manifest.
    MissingManifest,
    /// The text is not TOML, or a field holds a value of the wrong kind.
    Malformed,
    /// A field that must be there is not.
    MissingField,
    /// The host has no platform profile under any name.
    UnknownHost,
    /// The manifest declares no target.
    NoTarget,
    /// The manifest declares more than one target.
    MultipleTargets,
}

} // verus!
