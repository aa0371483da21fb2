//! An environment's directory, the commands that install into it and run code
//! against it, what the outcome of such a command means, and what disposal
//! removes.
use vstd::prelude::*;

use crate::scan::{missing, rip_deps, split_words, views, absent, scanned, words};

verus! {

/// What went wrong when a command could not be run to its end.
#[derive(Clone, Copy, Debug, PartialEq, Eq, Structural)]
pub enum ErrorKind {
    /// The command could not be launched.
    Spawn,
    /// The command was launched but could not be waited on.
    Wait,
    /// A path cannot be handed to a command as text.
    Path,
    /// Reading input or cleaning up the file system failed.
    Io,
}

/// An error of an environment operation: its kind and the cause in words.
#[derive(Debug)]
pub struct Error {
    pub kind: ErrorKind,
    pub message: String,
}

impl Error {
    /// An error of kind `kind` with the cause `message`.
    pub fn new(kind: ErrorKind, message: String) -> (r: Error)
        ensures
            r.kind == kind,
            r.message == message,
    {
        Error { kind, message }
    }

    /// The cause in words.
    pub fn to_string(&self) -> (r: String)
        ensures
            r@ == self.message@,
    {
        self.message.clone()
    }
}

/// A result whose error is `Error`.
pub type PyResult<T> = Result<T, Error>;

/// How a command run ended, as the caller of the process saw it.
pub enum RunReport {
    /// The process could not be created; the cause in words.
    SpawnFailed(String),
    /// The process could not be waited on; the cause in words.
    WaitFailed(String),
    /// The process exited, with its exit code if it had one.
    Exited(Option<i32>),
}

/// What a run means to the caller: `Ok(true)` when the command exited with
/// code 0, `Ok(false)` when it ran and reported failure, an error when it
/// could not be run to its end.
pub fn run_outcome(report: RunReport) -> (r: PyResult<bool>)
    ensures
        match report {
            RunReport::SpawnFailed(m) => r == PyResult::<bool>::Err(
                Error { kind: ErrorKind::Spawn, message: m },
            ),
            RunReport::WaitFailed(m) => r == PyResult::<bool>::Err(
                Error { kind: ErrorKind::Wait, message: m },
            ),
            RunReport::Exited(code) => r == PyResult::<bool>::Ok(code == Some(0i32)),
        },
{
    match report {
        RunReport::SpawnFailed(m) => Err(Error { kind: ErrorKind::Spawn, message: m }),
        RunReport::WaitFailed(m) => Err(Error { kind: ErrorKind::Wait, message: m }),
        RunReport::Exited(code) => match code {
            Some(c) => Ok(c == 0),
            None => Ok(false),
        },
    }
}

/// One external command: the program, its arguments, and the variables set
/// for that process alone.
pub struct Invocation {
    pub program: String,
    pub args: Vec<String>,
    pub env: Vec<(String, String)>,
}

/// The name of the package directory under an environment's root.
pub open spec fn site_name() -> Seq<char> {
    "site-packages"@
}

/// The package directory of an environment rooted at `root`: `root` joined
/// with `site-packages`, with a `/` between them unless `root` is empty or
/// already ends in one.
pub open spec fn site_dir(root: Seq<char>) -> Seq<char> {
    if root.len() == 0 || root.last() == '/' {
        root + site_name()
    } else {
        root + seq!['/'] + site_name()
    }
}

/// The arguments of the interpreter that installs `package` into the
/// environment rooted at `root`.
pub open spec fn install_argv(root: Seq<char>, package: Seq<char>) -> Seq<Seq<char>> {
    seq!["-m"@, "pip"@, "install"@, package, "--target"@, site_dir(root)]
}

/// The arguments of the interpreter that runs `code`.
pub open spec fn execute_argv(code: Seq<char>) -> Seq<Seq<char>> {
    seq!["-c"@, code]
}

/// The variables set for the interpreter that runs code in the environment
/// rooted at `root`: its module search path is the package directory.
pub open spec fn execute_vars(root: Seq<char>) -> Seq<(Seq<char>, Seq<char>)> {
    seq![("PYTHONPATH"@, site_dir(root))]
}

/// The characters of each pair of strings.
pub open spec fn pair_views(v: Seq<(String, String)>) -> Seq<(Seq<char>, Seq<char>)> {
    v.map_values(|p: (String, String)| (p.0@, p.1@))
}

/// An environment as its contracts see it: the root directory and whether it
/// survives disposal.
pub ghost struct EnvView {
    pub root: Seq<char>,
    pub persistent: bool,
}

/// What disposing of an environment removes: its root directory, unless it
/// is persistent.
pub open spec fn removal(v: EnvView) -> Option<Seq<char>> {
    if v.persistent {
        None
    } else {
        Some(v.root)
    }
}

/// A Python environment rooted at a directory, with a sink for each line of
/// standard output and of standard error of the commands it runs.
pub struct PyEnv<O, E> {
    path: String,
    std_out: O,
    std_err: E,
    persistent: bool,
}

impl<O, E> View for PyEnv<O, E> {
    type V = EnvView;

    closed spec fn view(&self) -> EnvView {
        EnvView { root: self.path@, persistent: self.persistent }
    }
}

impl<O, E> PyEnv<O, E> {
    /// The sinks for standard output and standard error.
    pub closed spec fn sinks(&self) -> (O, E) {
        (self.std_out, self.std_err)
    }

    /// An environment rooted at `path` that sends output lines to `std_out`
    /// and error lines to `std_err`. It is persistent: disposal keeps the
    /// directory.
    pub fn new(path: String, std_out: O, std_err: E) -> (r: Self)
        ensures
            r@ == (EnvView { root: path@, persistent: true }),
            r.sinks() == (std_out, std_err),
    {
        PyEnv { path, std_out, std_err, persistent: true }
    }

    /// Sets whether disposal keeps the directory; only the last value set
    /// before disposal counts.
    pub fn persistent(&mut self, persistent: bool) -> (r: &Self)
        ensures
            final(self)@ == (EnvView { persistent, ..old(self)@ }),
            final(self).sinks() == old(self).sinks(),
            *r == *final(self),
    {
        self.persistent = persistent;
        self
    }

    /// The root directory.
    pub fn path(&self) -> (r: &str)
        ensures
            r@ == self@.root,
    {
        self.path.as_str()
    }

    /// Whether disposal keeps the directory.
    pub fn is_persistent(&self) -> (r: bool)
        ensures
            r == self@.persistent,
    {
        self.persistent
    }

    /// The sink for lines of standard output.
    pub fn std_out(&self) -> (r: &O)
        ensures
            *r == self.sinks().0,
    {
        &self.std_out
    }

    /// The sink for lines of standard error.
    pub fn std_err(&self) -> (r: &E)
        ensures
            *r == self.sinks().1,
    {
        &self.std_err
    }

    /// The package directory: the root joined with `site-packages`.
    pub fn site_packages(&self) -> (r: String)
        ensures
            r@ == site_dir(self@.root),
    {
        let root = self.path.as_str();
        let n = root.unicode_len();
        let mut dir = self.path.clone();
        if n > 0 && root.get_char(n - 1) != '/' {
            dir.append("/");
            proof {
                reveal_strlit("/");
            }
        }
        dir.append("site-packages");
        assert(dir@ =~= site_dir(self@.root));
        dir
    }

    /// The command that installs `package_name` into the package directory:
    /// `python -m pip install <package_name> --target <package directory>`.
    pub fn install_invocation(&self, package_name: &str) -> (r: Invocation)
        ensures
            r.program@ == "python"@,
            views(r.args@) == install_argv(self@.root, package_name@),
            r.env@.len() == 0,
    {
        let mut args: Vec<String> = Vec::new();
        args.push(String::from_str("-m"));
        args.push(String::from_str("pip"));
        args.push(String::from_str("install"));
        args.push(package_name.to_owned());
        args.push(String::from_str("--target"));
        args.push(self.site_packages());
        assert(views(args@) =~= install_argv(self@.root, package_name@));
        Invocation { program: String::from_str("python"), args, env: Vec::new() }
    }

    /// The command that runs `code`: `python -c <code>`, with the package
    /// directory as the module search path of that process alone.
    pub fn execute_invocation(&self, code: &str) -> (r: Invocation)
        ensures
            r.program@ == "python"@,
            views(r.args@) == execute_argv(code@),
            pair_views(r.env@) == execute_vars(self@.root),
    {
        let mut args: Vec<String> = Vec::new();
        args.push(String::from_str("-c"));
        args.push(code.to_owned());
        let mut env: Vec<(String, String)> = Vec::new();
        env.push((String::from_str("PYTHONPATH"), self.site_packages()));
        assert(views(args@) =~= execute_argv(code@));
        assert(pair_views(env@) =~= execute_vars(self@.root));
        Invocation { program: String::from_str("python"), args, env }
    }

    /// The directory that disposal removes: the root, unless the environment
    /// is persistent.
    pub fn dispose_target(&self) -> (r: Option<String>)
        ensures
            r is Some <==> removal(self@) is Some,
            r is Some ==> r->0@ == removal(self@)->0,
    {
        if self.persistent {
            None
        } else {
            Some(self.path.clone())
        }
    }
}

/// The modules that `code` imports and that `installed`, the names of the
/// directories in the package directory, does not hold; each once, in the
/// order of first mention.
pub fn unmet_dependencies(code: &str, installed: &Vec<String>) -> (r: Vec<String>)
    ensures
        views(r@) == absent(scanned(code@), views(installed@)),
{
    let deps = rip_deps(code);
    missing(&deps, installed)
}

/// The packages that a reply to the install prompt asks for: its words. An
/// empty or blank reply asks for none.
pub fn install_requests(reply: &str) -> (r: Vec<String>)
    ensures
        views(r@) == words(reply@),
{
    split_words(reply)
}

/// Disposal removes the root exactly when the environment is not persistent:
/// a fresh environment is kept, and one set not persistent is removed.
pub proof fn lemma_disposal_follows_persistence(root: Seq<char>)
    ensures
        removal(EnvView { root, persistent: true }) is None,
        removal(EnvView { root, persistent: false }) == Some(root),
{
}

/// What an install puts into an environment is what every later run of code
/// in it sees: the install's target is the search path of each execution,
/// whatever the code.
pub proof fn lemma_installs_reach_executions(
    root: Seq<char>,
    package: Seq<char>,
    first: Seq<char>,
    second: Seq<char>,
)
    ensures
        install_argv(root, package)[5] == execute_vars(root)[0].1,
        execute_argv(first)[0] == execute_argv(second)[0],
        execute_vars(root)[0] == ("PYTHONPATH"@, site_dir(root)),
{
}

} // verus!
