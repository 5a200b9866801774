//! Service definitions: the persisted description of one unit of work
//! (oneshot, longrun, bundle or virtual), its scripts and its environment,
//! together with spec-level equality over these definitions and verified
//! deep copies. Equality over definitions is what reload uses to decide
//! whether a running service may keep its state.

use vstd::prelude::*;

verus! {

/// How a script's `execute` string is turned into an executable and
/// arguments: through `bash -c`, through `sh -c`, or directly as a
/// whitespace-separated command line.
#[derive(Clone, Copy, Debug, PartialEq, Eq, Structural)]
pub enum ScriptPrefix {
    Bash,
    Path,
    Sh,
}

/// A runlevel partitions services into cohorts managed independently.
#[derive(Clone, Copy, Debug, PartialEq, Eq, Structural)]
pub enum RunLevel {
    Boot,
    Default,
    Shutdown,
}

/// One script of a service: the command text plus the identity to run it as.
pub struct Script {
    pub prefix: ScriptPrefix,
    pub execute: String,
    pub user: Option<String>,
    pub group: Option<String>,
}

/// The environment mapping of a service; entries override the daemon's own
/// environment on key collision.
pub struct ScriptEnvironment {
    pub contents: Vec<(String, String)>,
}

/// A resolved script configuration as handed to the executor helpers.
pub struct ScriptConfig {
    pub contents: Vec<(String, String)>,
}

/// A service that runs to completion; `Up` means "exited 0".
pub struct Oneshot {
    pub name: String,
    pub dependencies: Vec<String>,
    pub runlevel: RunLevel,
    pub start: Script,
    pub stop: Option<Script>,
    pub environment: ScriptEnvironment,
}

/// A service that stays running; `Up` means "signalled ready".
pub struct Longrun {
    pub name: String,
    pub dependencies: Vec<String>,
    pub runlevel: RunLevel,
    pub run: Script,
    pub finish: Option<Script>,
    pub environment: ScriptEnvironment,
}

/// A grouping abstraction without scripts.
pub struct Bundle {
    pub name: String,
    pub dependencies: Vec<String>,
    pub runlevel: RunLevel,
}

/// A name other services can depend on, without scripts of its own.
pub struct Virtual {
    pub name: String,
    pub dependencies: Vec<String>,
    pub runlevel: RunLevel,
}

/// A declared unit of work.
pub enum Service {
    Oneshot(Oneshot),
    Longrun(Longrun),
    Bundle(Bundle),
    Virtual(Virtual),
}

impl Service {
    /// The declared name, as a sequence of characters.
    pub open spec fn spec_name(self) -> Seq<char> {
        match self {
            Service::Oneshot(s) => s.name@,
            Service::Longrun(s) => s.name@,
            Service::Bundle(s) => s.name@,
            Service::Virtual(s) => s.name@,
        }
    }

    /// The declared dependency names.
    pub open spec fn spec_dependencies(self) -> Seq<String> {
        match self {
            Service::Oneshot(s) => s.dependencies@,
            Service::Longrun(s) => s.dependencies@,
            Service::Bundle(s) => s.dependencies@,
            Service::Virtual(s) => s.dependencies@,
        }
    }

    /// Only services with scripts are launched by `start_all`; bundles and
    /// virtual services never start on their own.
    pub open spec fn spec_should_start(self) -> bool {
        match self {
            Service::Oneshot(_) => true,
            Service::Longrun(_) => true,
            Service::Bundle(_) => false,
            Service::Virtual(_) => false,
        }
    }

    pub open spec fn spec_runlevel(self) -> RunLevel {
        match self {
            Service::Oneshot(s) => s.runlevel,
            Service::Longrun(s) => s.runlevel,
            Service::Bundle(s) => s.runlevel,
            Service::Virtual(s) => s.runlevel,
        }
    }

    pub fn name(&self) -> (r: &String)
        ensures
            r@ == self.spec_name(),
    {
        match self {
            Service::Oneshot(s) => &s.name,
            Service::Longrun(s) => &s.name,
            Service::Bundle(s) => &s.name,
            Service::Virtual(s) => &s.name,
        }
    }

    pub fn dependencies(&self) -> (r: &Vec<String>)
        ensures
            r@ == self.spec_dependencies(),
    {
        match self {
            Service::Oneshot(s) => &s.dependencies,
            Service::Longrun(s) => &s.dependencies,
            Service::Bundle(s) => &s.dependencies,
            Service::Virtual(s) => &s.dependencies,
        }
    }

    pub fn should_start(&self) -> (r: bool)
        ensures
            r == self.spec_should_start(),
    {
        match self {
            Service::Oneshot(_) => true,
            Service::Longrun(_) => true,
            Service::Bundle(_) => false,
            Service::Virtual(_) => false,
        }
    }

    pub fn runlevel(&self) -> (r: RunLevel)
        ensures
            r == self.spec_runlevel(),
    {
        match self {
            Service::Oneshot(s) => s.runlevel,
            Service::Longrun(s) => s.runlevel,
            Service::Bundle(s) => s.runlevel,
            Service::Virtual(s) => s.runlevel,
        }
    }
}

/// Spec equality of optional strings, by character content.
pub open spec fn opt_string_eq(a: Option<String>, b: Option<String>) -> bool {
    match (a, b) {
        (Option::None, Option::None) => true,
        (Option::Some(x), Option::Some(y)) => x@ == y@,
        _ => false,
    }
}

/// Spec equality of string sequences, pointwise by character content.
pub open spec fn strvec_eq(a: Seq<String>, b: Seq<String>) -> bool {
    a.len() == b.len() && forall|i: int| 0 <= i < a.len() ==> a[i]@ == b[i]@
}

/// Spec equality of key/value pair sequences, pointwise by content.
pub open spec fn pairs_eq(a: Seq<(String, String)>, b: Seq<(String, String)>) -> bool {
    a.len() == b.len() && forall|i: int|
        0 <= i < a.len() ==> a[i].0@ == b[i].0@ && a[i].1@ == b[i].1@
}

/// Spec equality of scripts.
pub open spec fn script_eq(a: Script, b: Script) -> bool {
    &&& a.prefix == b.prefix
    &&& a.execute@ == b.execute@
    &&& opt_string_eq(a.user, b.user)
    &&& opt_string_eq(a.group, b.group)
}

/// Spec equality of optional scripts.
pub open spec fn opt_script_eq(a: Option<Script>, b: Option<Script>) -> bool {
    match (a, b) {
        (Option::None, Option::None) => true,
        (Option::Some(x), Option::Some(y)) => script_eq(x, y),
        _ => false,
    }
}

/// Spec equality of two service definitions. Reload treats a live service
/// whose old and new definitions are equal under this relation as unchanged.
pub open spec fn service_eq(a: Service, b: Service) -> bool {
    match (a, b) {
        (Service::Oneshot(x), Service::Oneshot(y)) => {
            &&& x.name@ == y.name@
            &&& strvec_eq(x.dependencies@, y.dependencies@)
            &&& x.runlevel == y.runlevel
            &&& script_eq(x.start, y.start)
            &&& opt_script_eq(x.stop, y.stop)
            &&& pairs_eq(x.environment.contents@, y.environment.contents@)
        },
        (Service::Longrun(x), Service::Longrun(y)) => {
            &&& x.name@ == y.name@
            &&& strvec_eq(x.dependencies@, y.dependencies@)
            &&& x.runlevel == y.runlevel
            &&& script_eq(x.run, y.run)
            &&& opt_script_eq(x.finish, y.finish)
            &&& pairs_eq(x.environment.contents@, y.environment.contents@)
        },
        (Service::Bundle(x), Service::Bundle(y)) => {
            &&& x.name@ == y.name@
            &&& strvec_eq(x.dependencies@, y.dependencies@)
            &&& x.runlevel == y.runlevel
        },
        (Service::Virtual(x), Service::Virtual(y)) => {
            &&& x.name@ == y.name@
            &&& strvec_eq(x.dependencies@, y.dependencies@)
            &&& x.runlevel == y.runlevel
        },
        _ => false,
    }
}

/// Two equal service definitions carry the same name.
pub proof fn lemma_service_eq_name(a: Service, b: Service)
    requires
        service_eq(a, b),
    ensures
        a.spec_name() == b.spec_name(),
{
}

pub fn string_eq(a: &String, b: &String) -> (r: bool)
    ensures
        r == (a@ == b@),
{
    a.eq(b)
}

pub fn opt_string_eq_exec(a: &Option<String>, b: &Option<String>) -> (r: bool)
    ensures
        r == opt_string_eq(*a, *b),
{
    match (a, b) {
        (Option::None, Option::None) => true,
        (Option::Some(x), Option::Some(y)) => string_eq(x, y),
        _ => false,
    }
}

pub fn strvec_eq_exec(a: &Vec<String>, b: &Vec<String>) -> (r: bool)
    ensures
        r == strvec_eq(a@, b@),
{
    if a.len() != b.len() {
        return false;
    }
    let mut i: usize = 0;
    while i < a.len()
        invariant
            a@.len() == b@.len(),
            i <= a@.len(),
            forall|j: int| 0 <= j < i ==> a@[j]@ == b@[j]@,
        decreases a@.len() - i,
    {
        if !string_eq(&a[i], &b[i]) {
            return false;
        }
        i += 1;
    }
    true
}

pub fn pairs_eq_exec(a: &Vec<(String, String)>, b: &Vec<(String, String)>) -> (r: bool)
    ensures
        r == pairs_eq(a@, b@),
{
    if a.len() != b.len() {
        return false;
    }
    let mut i: usize = 0;
    while i < a.len()
        invariant
            a@.len() == b@.len(),
            i <= a@.len(),
            forall|j: int| 0 <= j < i ==> a@[j].0@ == b@[j].0@ && a@[j].1@ == b@[j].1@,
        decreases a@.len() - i,
    {
        if !string_eq(&a[i].0, &b[i].0) || !string_eq(&a[i].1, &b[i].1) {
            return false;
        }
        i += 1;
    }
    true
}

pub fn script_eq_exec(a: &Script, b: &Script) -> (r: bool)
    ensures
        r == script_eq(*a, *b),
{
    let prefix_eq = match (a.prefix, b.prefix) {
        (ScriptPrefix::Bash, ScriptPrefix::Bash) => true,
        (ScriptPrefix::Path, ScriptPrefix::Path) => true,
        (ScriptPrefix::Sh, ScriptPrefix::Sh) => true,
        _ => false,
    };
    prefix_eq && string_eq(&a.execute, &b.execute) && opt_string_eq_exec(&a.user, &b.user)
        && opt_string_eq_exec(&a.group, &b.group)
}

pub fn opt_script_eq_exec(a: &Option<Script>, b: &Option<Script>) -> (r: bool)
    ensures
        r == opt_script_eq(*a, *b),
{
    match (a, b) {
        (Option::None, Option::None) => true,
        (Option::Some(x), Option::Some(y)) => script_eq_exec(x, y),
        _ => false,
    }
}

/// Decides spec equality of two service definitions.
pub fn service_eq_exec(a: &Service, b: &Service) -> (r: bool)
    ensures
        r == service_eq(*a, *b),
{
    match (a, b) {
        (Service::Oneshot(x), Service::Oneshot(y)) => {
            string_eq(&x.name, &y.name) && strvec_eq_exec(&x.dependencies, &y.dependencies)
                && x.runlevel == y.runlevel && script_eq_exec(&x.start, &y.start)
                && opt_script_eq_exec(&x.stop, &y.stop)
                && pairs_eq_exec(&x.environment.contents, &y.environment.contents)
        },
        (Service::Longrun(x), Service::Longrun(y)) => {
            string_eq(&x.name, &y.name) && strvec_eq_exec(&x.dependencies, &y.dependencies)
                && x.runlevel == y.runlevel && script_eq_exec(&x.run, &y.run)
                && opt_script_eq_exec(&x.finish, &y.finish)
                && pairs_eq_exec(&x.environment.contents, &y.environment.contents)
        },
        (Service::Bundle(x), Service::Bundle(y)) => {
            string_eq(&x.name, &y.name) && strvec_eq_exec(&x.dependencies, &y.dependencies)
                && x.runlevel == y.runlevel
        },
        (Service::Virtual(x), Service::Virtual(y)) => {
            string_eq(&x.name, &y.name) && strvec_eq_exec(&x.dependencies, &y.dependencies)
                && x.runlevel == y.runlevel
        },
        _ => false,
    }
}

pub fn clone_string(s: &String) -> (r: String)
    ensures
        r@ == s@,
{
    s.clone()
}

pub fn clone_opt_string(s: &Option<String>) -> (r: Option<String>)
    ensures
        opt_string_eq(r, *s),
{
    match s {
        Option::None => Option::None,
        Option::Some(x) => Option::Some(clone_string(x)),
    }
}

pub fn clone_strvec(v: &Vec<String>) -> (r: Vec<String>)
    ensures
        strvec_eq(r@, v@),
{
    let mut r: Vec<String> = Vec::new();
    let mut i: usize = 0;
    while i < v.len()
        invariant
            i <= v@.len(),
            r@.len() == i,
            forall|j: int| 0 <= j < i ==> r@[j]@ == v@[j]@,
        decreases v@.len() - i,
    {
        r.push(clone_string(&v[i]));
        i += 1;
    }
    r
}

pub fn clone_pairs(v: &Vec<(String, String)>) -> (r: Vec<(String, String)>)
    ensures
        pairs_eq(r@, v@),
{
    let mut r: Vec<(String, String)> = Vec::new();
    let mut i: usize = 0;
    while i < v.len()
        invariant
            i <= v@.len(),
            r@.len() == i,
            forall|j: int| 0 <= j < i ==> r@[j].0@ == v@[j].0@ && r@[j].1@ == v@[j].1@,
        decreases v@.len() - i,
    {
        r.push((clone_string(&v[i].0), clone_string(&v[i].1)));
        i += 1;
    }
    r
}

pub fn clone_script(s: &Script) -> (r: Script)
    ensures
        script_eq(r, *s),
{
    Script {
        prefix: s.prefix,
        execute: clone_string(&s.execute),
        user: clone_opt_string(&s.user),
        group: clone_opt_string(&s.group),
    }
}

pub fn clone_opt_script(s: &Option<Script>) -> (r: Option<Script>)
    ensures
        opt_script_eq(r, *s),
{
    match s {
        Option::None => Option::None,
        Option::Some(x) => Option::Some(clone_script(x)),
    }
}

/// A deep copy of a service definition, equal to the original under
/// [`service_eq`].
pub fn clone_service(s: &Service) -> (r: Service)
    ensures
        service_eq(r, *s),
{
    match s {
        Service::Oneshot(x) => Service::Oneshot(Oneshot {
            name: clone_string(&x.name),
            dependencies: clone_strvec(&x.dependencies),
            runlevel: x.runlevel,
            start: clone_script(&x.start),
            stop: clone_opt_script(&x.stop),
            environment: ScriptEnvironment { contents: clone_pairs(&x.environment.contents) },
        }),
        Service::Longrun(x) => Service::Longrun(Longrun {
            name: clone_string(&x.name),
            dependencies: clone_strvec(&x.dependencies),
            runlevel: x.runlevel,
            run: clone_script(&x.run),
            finish: clone_opt_script(&x.finish),
            environment: ScriptEnvironment { contents: clone_pairs(&x.environment.contents) },
        }),
        Service::Bundle(x) => Service::Bundle(Bundle {
            name: clone_string(&x.name),
            dependencies: clone_strvec(&x.dependencies),
            runlevel: x.runlevel,
        }),
        Service::Virtual(x) => Service::Virtual(Virtual {
            name: clone_string(&x.name),
            dependencies: clone_strvec(&x.dependencies),
            runlevel: x.runlevel,
        }),
    }
}

} // verus!
