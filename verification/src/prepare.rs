//! From a package's configuration to a package that can be published.
//!
//! A package must state its version and its exports, and its name must
//! have the form `@scope/package`. What a configuration lacks is reported
//! before any archive is built or any request is sent.

use crate::manifest::export_target;
use crate::package::{
    distinct_specifiers, is_scoped_name, pairs_view, split_package_name, PreparedPublishPackage,
    PublishableTarball,
};
use crate::text::{same_text, texts};
use vstd::prelude::*;
use vstd::string::*;

verus! {

/// The `exports` entry of a configuration file.
pub enum ExportsConfig {
    /// There is no such entry.
    Missing,
    /// A single path: the package's only export.
    Single(String),
    /// A table from export specifier to path.
    Table(Vec<(String, String)>),
    /// Something that is neither a path nor a table.
    Other,
}

/// What the pipeline reads from the configuration file of a package.
pub struct PackageConfig {
    /// URL of the configuration file.
    pub specifier: String,
    /// Base name of the configuration file.
    pub file_name: String,
    pub version: Option<String>,
    pub exports: ExportsConfig,
}

/// Where a package lives in the registry.
pub struct PackageCoordinates {
    pub scope: String,
    pub package: String,
    pub version: String,
}

/// Why a package cannot be prepared.
pub enum PrepareError {
    /// The configuration states no version.
    MissingVersion { specifier: String },
    /// The configuration states no exports. `suggestion` is the entry point
    /// that the message proposes.
    MissingExports { package_name: String, specifier: String, version: String, suggestion: String },
    /// The package name is not of the form `@scope/package`.
    InvalidName,
}

/// What a [`PrepareError`] denotes.
pub enum PrepareProblem {
    MissingVersion { specifier: Seq<char> },
    MissingExports {
        package_name: Seq<char>,
        specifier: Seq<char>,
        version: Seq<char>,
        suggestion: Seq<char>,
    },
    InvalidName,
}

impl View for PrepareError {
    type V = PrepareProblem;

    open spec fn view(&self) -> PrepareProblem {
        match self {
            PrepareError::MissingVersion { specifier } => PrepareProblem::MissingVersion {
                specifier: specifier@,
            },
            PrepareError::MissingExports { package_name, specifier, version, suggestion } => {
                PrepareProblem::MissingExports {
                    package_name: package_name@,
                    specifier: specifier@,
                    version: version@,
                    suggestion: suggestion@,
                }
            },
            PrepareError::InvalidName => PrepareProblem::InvalidName,
        }
    }
}

impl PrepareProblem {
    /// The text that reports the problem.
    pub open spec fn message(self) -> Seq<char> {
        match self {
            PrepareProblem::MissingVersion { specifier } => specifier
                + " is missing 'version' field"@,
            PrepareProblem::MissingExports { package_name, specifier, version, suggestion } => {
                "You did not specify an entrypoint to \""@ + package_name + "\" package in "@
                    + specifier
                    + ". Add `exports` mapping in the configuration file, eg:\n{\n  \"name\": \""@
                    + package_name + "\",\n  \"version\": \""@ + version
                    + "\",\n  \"exports\": \""@ + suggestion + "\"\n}"@
            },
            PrepareProblem::InvalidName => {
                "Invalid package name, use '@<scope_name>/<package_name> format"@
            },
        }
    }
}

impl PrepareError {
    /// Renders the error for the user.
    pub fn message(&self) -> (text: String)
        ensures
            text@ == self@.message(),
    {
        match self {
            PrepareError::MissingVersion { specifier } => {
                let mut text = String::from_str(specifier.as_str());
                text.append(" is missing 'version' field");
                text
            },
            PrepareError::MissingExports { package_name, specifier, version, suggestion } => {
                let mut text = String::from_str("You did not specify an entrypoint to \"");
                text.append(package_name.as_str());
                text.append("\" package in ");
                text.append(specifier.as_str());
                text.append(
                    ". Add `exports` mapping in the configuration file, eg:\n{\n  \"name\": \"",
                );
                text.append(package_name.as_str());
                text.append("\",\n  \"version\": \"");
                text.append(version.as_str());
                text.append("\",\n  \"exports\": \"");
                text.append(suggestion.as_str());
                text.append("\"\n}");
                text
            },
            PrepareError::InvalidName => String::from_str(
                "Invalid package name, use '@<scope_name>/<package_name> format",
            ),
        }
    }
}

/// The entry point to propose: the first of `mod.ts`, `mod.js`, `index.ts`
/// and `index.js` that is present at the package root, or a placeholder.
pub open spec fn suggestion_text(present: Seq<Seq<char>>) -> Seq<char> {
    if present.contains("mod.ts"@) {
        "mod.ts"@
    } else if present.contains("mod.js"@) {
        "mod.js"@
    } else if present.contains("index.ts"@) {
        "index.ts"@
    } else if present.contains("index.js"@) {
        "index.js"@
    } else {
        "<path_to_entrypoint>"@
    }
}

fn lists(present: &Vec<String>, name: &str) -> (found: bool)
    ensures
        found == texts(present@).contains(name@),
{
    let mut i: usize = 0;
    while i < present.len()
        invariant
            i <= present@.len(),
            forall|k: int| 0 <= k < i ==> present@[k]@ != name@,
        decreases present@.len() - i,
    {
        if same_text(present[i].as_str(), name) {
            assert(texts(present@)[i as int] == name@);
            return true;
        }
        i += 1;
    }
    assert forall|k: int| 0 <= k < texts(present@).len() implies texts(present@)[k] != name@ by {
        assert(present@[k]@ != name@);
    }
    false
}

/// Picks the entry point to propose, given the names of the files that are
/// present at the package root.
pub fn suggested_entrypoint(present: &Vec<String>) -> (suggestion: &'static str)
    ensures
        suggestion@ == suggestion_text(texts(present@)),
{
    if lists(present, "mod.ts") {
        "mod.ts"
    } else if lists(present, "mod.js") {
        "mod.js"
    } else if lists(present, "index.ts") {
        "index.ts"
    } else if lists(present, "index.js") {
        "index.js"
    } else {
        "<path_to_entrypoint>"
    }
}

/// What is wrong with a configuration, if anything. The version is looked
/// at first, then the exports, then the name.
pub open spec fn config_problem(
    package_name: Seq<char>,
    config: PackageConfig,
    present: Seq<Seq<char>>,
) -> Option<PrepareProblem> {
    if config.version is None {
        Some(PrepareProblem::MissingVersion { specifier: config.specifier@ })
    } else if config.exports is Missing {
        Some(
            PrepareProblem::MissingExports {
                package_name,
                specifier: config.specifier@,
                version: config.version->0@,
                suggestion: suggestion_text(present),
            },
        )
    } else if !is_scoped_name(package_name) {
        Some(PrepareProblem::InvalidName)
    } else {
        None
    }
}

/// Checks the configuration of the package `package_name` and reads its
/// coordinates off the name and the version. `present` names the files at
/// the package root, for the sake of the proposal in the error message.
pub fn check_package_config(package_name: &str, config: &PackageConfig, present: &Vec<String>) -> (result:
    Result<PackageCoordinates, PrepareError>)
    ensures
        match result {
            Ok(coordinates) => {
                &&& config_problem(package_name@, *config, texts(present@)) is None
                &&& package_name@ == "@"@ + coordinates.scope@ + "/"@ + coordinates.package@
                &&& !coordinates.scope@.contains('/')
                &&& coordinates.version@ == config.version->0@
            },
            Err(e) => config_problem(package_name@, *config, texts(present@)) == Some(
                e@,
            ),
        },
{
    let version = match &config.version {
        None => {
            return Err(PrepareError::MissingVersion { specifier: config.specifier.clone() });
        },
        Some(version) => version,
    };
    match &config.exports {
        ExportsConfig::Missing => {
            return Err(
                PrepareError::MissingExports {
                    package_name: String::from_str(package_name),
                    specifier: config.specifier.clone(),
                    version: version.clone(),
                    suggestion: String::from_str(suggested_entrypoint(present)),
                },
            );
        },
        _ => {},
    }
    match split_package_name(package_name) {
        None => Err(PrepareError::InvalidName),
        Some((scope, package)) => Ok(
            PackageCoordinates { scope, package, version: version.clone() },
        ),
    }
}

/// `exports` with `entry` put in: in place of the first export of the same
/// specifier if there is one, at the end otherwise.
pub open spec fn with_export(
    exports: Seq<(Seq<char>, Seq<char>)>,
    entry: (Seq<char>, Seq<char>),
) -> Seq<(Seq<char>, Seq<char>)>
    decreases exports.len(),
{
    if exports.len() == 0 {
        seq![entry]
    } else if exports[0].0 == entry.0 {
        seq![entry] + exports.drop_first()
    } else {
        seq![exports[0]] + with_export(exports.drop_first(), entry)
    }
}

/// The exports that a table declares: its entries put in one after the
/// other. Of several entries with one specifier the last gives the path.
pub open spec fn table_exports(table: Seq<(Seq<char>, Seq<char>)>) -> Seq<(Seq<char>, Seq<char>)>
    decreases table.len(),
{
    if table.len() == 0 {
        Seq::empty()
    } else {
        with_export(table_exports(table.drop_last()), table.last())
    }
}

/// The path of the last entry of `table` with the specifier `specifier`.
pub open spec fn last_target(table: Seq<(Seq<char>, Seq<char>)>, specifier: Seq<char>) -> Option<
    Seq<char>,
>
    decreases table.len(),
{
    if table.len() == 0 {
        None
    } else if table.last().0 == specifier {
        Some(table.last().1)
    } else {
        last_target(table.drop_last(), specifier)
    }
}

/// The exports that a configuration declares: a single path is the export
/// `.`, a table gives one export per specifier, anything else declares
/// nothing.
pub open spec fn declared_exports(exports: ExportsConfig) -> Seq<(Seq<char>, Seq<char>)> {
    match exports {
        ExportsConfig::Single(path) => seq![("."@, path@)],
        ExportsConfig::Table(table) => table_exports(pairs_view(table@)),
        _ => Seq::empty(),
    }
}

proof fn lemma_with_export_replaces(
    exports: Seq<(Seq<char>, Seq<char>)>,
    entry: (Seq<char>, Seq<char>),
    at: int,
)
    requires
        0 <= at < exports.len(),
        exports[at].0 == entry.0,
        forall|j: int| 0 <= j < at ==> exports[j].0 != entry.0,
    ensures
        with_export(exports, entry) == exports.update(at, entry),
    decreases exports.len(),
{
    if at == 0 {
        assert(seq![entry] + exports.drop_first() =~= exports.update(at, entry));
    } else {
        let rest = exports.drop_first();
        assert forall|j: int| 0 <= j < at - 1 implies rest[j].0 != entry.0 by {
            assert(rest[j] == exports[j + 1]);
        }
        assert(exports[0].0 != entry.0);
        lemma_with_export_replaces(rest, entry, at - 1);
        assert(seq![exports[0]] + rest.update(at - 1, entry) =~= exports.update(at, entry));
    }
}

proof fn lemma_with_export_appends(
    exports: Seq<(Seq<char>, Seq<char>)>,
    entry: (Seq<char>, Seq<char>),
)
    requires
        forall|j: int| 0 <= j < exports.len() ==> exports[j].0 != entry.0,
    ensures
        with_export(exports, entry) == exports.push(entry),
    decreases exports.len(),
{
    if exports.len() == 0 {
        assert(seq![entry] =~= exports.push(entry));
    } else {
        let rest = exports.drop_first();
        assert forall|j: int| 0 <= j < rest.len() implies rest[j].0 != entry.0 by {
            assert(rest[j] == exports[j + 1]);
        }
        assert(exports[0].0 != entry.0);
        lemma_with_export_appends(rest, entry);
        assert(seq![exports[0]] + rest.push(entry) =~= exports.push(entry));
    }
}

/// Putting an entry in changes what its own specifier leads to, and
/// nothing else.
pub proof fn lemma_with_export_target(
    exports: Seq<(Seq<char>, Seq<char>)>,
    entry: (Seq<char>, Seq<char>),
    specifier: Seq<char>,
)
    ensures
        export_target(with_export(exports, entry), specifier) == if specifier == entry.0 {
            Some(entry.1)
        } else {
            export_target(exports, specifier)
        },
    decreases exports.len(),
{
    let put = with_export(exports, entry);
    if exports.len() == 0 {
        assert(put.drop_first() =~= exports);
    } else if exports[0].0 == entry.0 {
        assert(put.drop_first() =~= exports.drop_first());
        assert(put[0] == entry);
    } else {
        assert(put.drop_first() =~= with_export(exports.drop_first(), entry));
        assert(put[0] == exports[0]);
        lemma_with_export_target(exports.drop_first(), entry, specifier);
    }
}

/// Putting an entry in keeps the specifiers pairwise distinct.
pub proof fn lemma_with_export_distinct(
    exports: Seq<(Seq<char>, Seq<char>)>,
    entry: (Seq<char>, Seq<char>),
)
    requires
        distinct_specifiers(exports),
    ensures
        distinct_specifiers(with_export(exports, entry)),
{
    if exists|at: int| 0 <= at < exports.len() && exports[at].0 == entry.0 {
        let some = choose|at: int| 0 <= at < exports.len() && exports[at].0 == entry.0;
        assert forall|j: int| 0 <= j < exports.len() && j != some implies exports[j].0
            != entry.0 by {
            if j < some {
                assert(exports[j].0 != exports[some].0);
            } else {
                assert(exports[some].0 != exports[j].0);
            }
        }
        lemma_with_export_replaces(exports, entry, some);
    } else {
        lemma_with_export_appends(exports, entry);
    }
}

/// In the exports that a table declares, no two share a specifier.
pub proof fn lemma_table_exports_distinct(table: Seq<(Seq<char>, Seq<char>)>)
    ensures
        distinct_specifiers(table_exports(table)),
    decreases table.len(),
{
    if table.len() > 0 {
        lemma_table_exports_distinct(table.drop_last());
        lemma_with_export_distinct(table_exports(table.drop_last()), table.last());
    }
}

/// In the exports that a table declares, each specifier leads to the path
/// of its last entry in the table.
pub proof fn lemma_table_exports_target(table: Seq<(Seq<char>, Seq<char>)>, specifier: Seq<char>)
    ensures
        export_target(table_exports(table), specifier) == last_target(table, specifier),
    decreases table.len(),
{
    if table.len() > 0 {
        lemma_table_exports_target(table.drop_last(), specifier);
        lemma_with_export_target(table_exports(table.drop_last()), table.last(), specifier);
    }
}

/// In the exports that a configuration declares, no two share a specifier.
pub proof fn lemma_declared_exports_distinct(exports: ExportsConfig)
    ensures
        distinct_specifiers(declared_exports(exports)),
{
    match exports {
        ExportsConfig::Table(table) => {
            lemma_table_exports_distinct(pairs_view(table@));
        },
        _ => {},
    }
}

fn put_export(exports: &mut Vec<(String, String)>, specifier: String, path: String)
    ensures
        pairs_view(final(exports)@) == with_export(pairs_view(old(exports)@), (specifier@, path@)),
{
    let ghost before = pairs_view(exports@);
    let ghost entry = (specifier@, path@);
    let mut at: usize = 0;
    while at < exports.len()
        invariant
            at <= exports@.len(),
            before == pairs_view(exports@),
            entry == (specifier@, path@),
            forall|j: int| 0 <= j < at ==> before[j].0 != entry.0,
        ensures
            at <= exports@.len(),
            forall|j: int| 0 <= j < at ==> before[j].0 != entry.0,
            at < exports@.len() ==> before[at as int].0 == entry.0,
        decreases exports@.len() - at,
    {
        if same_text(exports[at].0.as_str(), specifier.as_str()) {
            assert(before[at as int].0 == entry.0);
            break;
        }
        assert(before[at as int].0 != entry.0);
        at += 1;
    }
    if at < exports.len() {
        exports.set(at, (specifier, path));
        proof {
            lemma_with_export_replaces(before, entry, at as int);
            assert(pairs_view(exports@) =~= before.update(at as int, entry));
        }
    } else {
        exports.push((specifier, path));
        proof {
            lemma_with_export_appends(before, entry);
            assert(pairs_view(exports@) =~= before.push(entry));
        }
    }
}

/// Reads the exports of a package off its configuration. No two of them
/// share a specifier: where a table names a specifier several times, its
/// last entry gives the path.
pub fn exports_of(exports: &ExportsConfig) -> (declared: Vec<(String, String)>)
    ensures
        pairs_view(declared@) == declared_exports(*exports),
        distinct_specifiers(pairs_view(declared@)),
{
    let mut declared: Vec<(String, String)> = Vec::new();
    match exports {
        ExportsConfig::Single(path) => {
            declared.push((String::from_str("."), path.clone()));
            assert(pairs_view(declared@) =~= seq![("."@, path@)]);
        },
        ExportsConfig::Table(table) => {
            let ghost all = pairs_view(table@);
            let mut i: usize = 0;
            assert(pairs_view(declared@) =~= table_exports(all.take(0)));
            while i < table.len()
                invariant
                    i <= table@.len(),
                    all == pairs_view(table@),
                    pairs_view(declared@) == table_exports(all.take(i as int)),
                decreases table@.len() - i,
            {
                proof {
                    assert(all.take(i + 1).drop_last() =~= all.take(i as int));
                    assert(all.take(i + 1).last() == (table@[i as int].0@, table@[i as int].1@));
                }
                put_export(&mut declared, table[i].0.clone(), table[i].1.clone());
                i += 1;
            }
            proof {
                assert(all.take(table@.len() as int) =~= all);
            }
        },
        _ => {
            assert(pairs_view(declared@) =~= Seq::empty());
        },
    }
    proof {
        lemma_declared_exports_distinct(*exports);
    }
    declared
}

/// Puts a prepared package together from its coordinates, its
/// configuration and the archive built from its sources.
pub fn assemble_package(
    coordinates: PackageCoordinates,
    config: &PackageConfig,
    tarball: PublishableTarball,
) -> (package: PreparedPublishPackage)
    ensures
        package@.scope == coordinates.scope@,
        package@.package == coordinates.package@,
        package@.version == coordinates.version@,
        package@.tarball == tarball@,
        package@.config == config.file_name@,
        package@.exports == declared_exports(config.exports),
        distinct_specifiers(package@.exports),
{
    PreparedPublishPackage {
        scope: coordinates.scope,
        package: coordinates.package,
        version: coordinates.version,
        tarball,
        config: config.file_name.clone(),
        exports: exports_of(&config.exports),
    }
}

/// How far the check of the module graph has come.
#[derive(PartialEq, Eq, Structural, Clone, Copy)]
pub enum GraphCheck {
    /// Scan the public API of every package for slow types.
    ScanSlowTypes,
    /// Type-check the generated declarations.
    TypeCheck,
    /// The graph is accepted. With `warn` the user is told that publishing
    /// slow types is not recommended.
    Accepted { warn: bool },
    /// Diagnostics were collected; they are reported before anything is
    /// published.
    Diagnosed,
    /// The generated declarations do not type-check.
    Rejected,
}

/// Where the check starts: with slow types allowed there is nothing to
/// scan, only a warning to give.
pub fn begin_graph_check(allow_slow_types: bool) -> (step: GraphCheck)
    ensures
        step == if allow_slow_types {
            GraphCheck::Accepted { warn: true }
        } else {
            GraphCheck::ScanSlowTypes
        },
{
    if allow_slow_types {
        GraphCheck::Accepted { warn: true }
    } else {
        GraphCheck::ScanSlowTypes
    }
}

/// What follows the scan for slow types: diagnostics end the check, a
/// clean scan leads on to the type check.
pub fn after_slow_type_scan(any_diagnostics: bool) -> (step: GraphCheck)
    ensures
        step == if any_diagnostics {
            GraphCheck::Diagnosed
        } else {
            GraphCheck::TypeCheck
        },
{
    if any_diagnostics {
        GraphCheck::Diagnosed
    } else {
        GraphCheck::TypeCheck
    }
}

/// What follows the type check: any diagnostic rejects the graph.
pub fn after_type_check(diagnostics: usize) -> (step: GraphCheck)
    ensures
        step == if diagnostics == 0 {
            GraphCheck::Accepted { warn: false }
        } else {
            GraphCheck::Rejected
        },
{
    if diagnostics == 0 {
        GraphCheck::Accepted { warn: false }
    } else {
        GraphCheck::Rejected
    }
}

/// What a publish command does once its packages are prepared.
#[derive(PartialEq, Eq, Structural, Clone, Copy)]
pub enum PublishPlan {
    /// There is nothing to publish; the command fails.
    NothingToPublish,
    /// List what would be published and stop.
    DryRun,
    /// Publish.
    Publish,
}

/// Decides what the command does: without packages it fails, on a dry run
/// it lists them, otherwise it publishes.
pub fn publish_plan(package_count: usize, dry_run: bool) -> (plan: PublishPlan)
    ensures
        plan == if package_count == 0 {
            PublishPlan::NothingToPublish
        } else if dry_run {
            PublishPlan::DryRun
        } else {
            PublishPlan::Publish
        },
{
    if package_count == 0 {
        PublishPlan::NothingToPublish
    } else if dry_run {
        PublishPlan::DryRun
    } else {
        PublishPlan::Publish
    }
}

} // verus!
