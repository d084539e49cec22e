//! The publish run as a whole.
//!
//! A run holds the publish order of the workspace, the prepared packages,
//! and the authorizations that were minted for them. It is driven from
//! outside: the driver asks for the uploads that may start, performs them,
//! and reports each completion; when nothing is in flight and nothing more
//! can start, it asks whether the run is done.

use crate::auth::Authorizations;
use crate::cycle::node_numbers;
use crate::package::{PackageKey, PackageView, PreparedPublishPackage};
use crate::publish_order::{lemma_ready_nodes, GraphView, PendingPackages, PublishOrderGraph};
use crate::text::{same_text, texts};
use vstd::prelude::*;
use vstd::string::*;

verus! {

/// One upload that may start now.
pub struct UploadJob {
    /// The name under which the publish order knows the package.
    pub name: String,
    pub package: PreparedPublishPackage,
    /// The value of the `Authorization` header for this upload.
    pub authorization: String,
}

/// Why a run cannot be set up.
pub enum PublishError {
    /// The publish order names a package that was not prepared.
    UnknownPackage { name: String },
    /// No authorization was minted for a package of the publish order.
    MissingAuthorization { name: String },
}

/// What a [`PublishError`] denotes.
pub enum PublishProblem {
    UnknownPackage { name: Seq<char> },
    MissingAuthorization { name: Seq<char> },
}

impl View for PublishError {
    type V = PublishProblem;

    open spec fn view(&self) -> PublishProblem {
        match self {
            PublishError::UnknownPackage { name } => PublishProblem::UnknownPackage { name: name@ },
            PublishError::MissingAuthorization { name } => PublishProblem::MissingAuthorization {
                name: name@,
            },
        }
    }
}

impl PublishError {
    /// Renders the error for the user.
    pub fn message(&self) -> (text: String)
        ensures
            text@ == match self@ {
                PublishProblem::UnknownPackage { name } => "No prepared package for "@ + name,
                PublishProblem::MissingAuthorization { name } => "No authorization for "@ + name,
            },
    {
        match self {
            PublishError::UnknownPackage { name } => {
                let mut text = String::from_str("No prepared package for ");
                text.append(name.as_str());
                text
            },
            PublishError::MissingAuthorization { name } => {
                let mut text = String::from_str("No authorization for ");
                text.append(name.as_str());
                text
            },
        }
    }
}

/// Prepared packages by name, as what they denote.
pub open spec fn named_views(packages: Seq<(String, PreparedPublishPackage)>) -> Seq<
    (Seq<char>, PackageView),
> {
    Seq::new(packages.len(), |i: int| (packages[i].0@, packages[i].1@))
}

/// The first package filed under `name`.
pub open spec fn package_named(packages: Seq<(Seq<char>, PackageView)>, name: Seq<char>) -> Option<
    PackageView,
>
    decreases packages.len(),
{
    if packages.len() == 0 {
        None
    } else if packages[0].0 == name {
        Some(packages[0].1)
    } else {
        package_named(packages.drop_first(), name)
    }
}

/// What keeps the package `name` from being published, if anything: it must
/// have been prepared, and an authorization must be filed for it.
pub open spec fn node_problem(
    name: Seq<char>,
    packages: Seq<(Seq<char>, PackageView)>,
    authorizations: Map<PackageKey, Seq<char>>,
) -> Option<PublishProblem> {
    match package_named(packages, name) {
        None => Some(PublishProblem::UnknownPackage { name }),
        Some(package) => if authorizations.contains_key(package.key()) {
            None
        } else {
            Some(PublishProblem::MissingAuthorization { name })
        },
    }
}

/// The problem of the first name that has one.
pub open spec fn first_problem(
    names: Seq<Seq<char>>,
    packages: Seq<(Seq<char>, PackageView)>,
    authorizations: Map<PackageKey, Seq<char>>,
) -> Option<PublishProblem>
    decreases names.len(),
{
    if names.len() == 0 {
        None
    } else if node_problem(names[0], packages, authorizations) is Some {
        node_problem(names[0], packages, authorizations)
    } else {
        first_problem(names.drop_first(), packages, authorizations)
    }
}

proof fn lemma_named_after_remove(packages: Seq<(Seq<char>, PackageView)>, at: int, name: Seq<char>)
    requires
        0 <= at < packages.len(),
        packages[at].0 != name,
    ensures
        package_named(packages.remove(at), name) == package_named(packages, name),
    decreases packages.len(),
{
    if at == 0 {
        assert(packages.remove(at) =~= packages.drop_first());
    } else {
        assert(packages.remove(at).drop_first() =~= packages.drop_first().remove(at - 1));
        assert(packages.remove(at)[0] == packages[0]);
        if packages[0].0 != name {
            lemma_named_after_remove(packages.drop_first(), at - 1, name);
        }
    }
}

fn position_named(packages: &Vec<(String, PreparedPublishPackage)>, name: &str) -> (at: Option<
    usize,
>)
    ensures
        match at {
            Some(i) => i < packages@.len() && packages@[i as int].0@ == name@ && package_named(
                named_views(packages@),
                name@,
            ) == Some(packages@[i as int].1@),
            None => package_named(named_views(packages@), name@) is None,
        },
{
    let ghost all = named_views(packages@);
    let mut i: usize = 0;
    assert(all.skip(0) =~= all);
    while i < packages.len()
        invariant
            i <= packages@.len(),
            all == named_views(packages@),
            package_named(all, name@) == package_named(all.skip(i as int), name@),
        decreases packages@.len() - i,
    {
        if same_text(packages[i].0.as_str(), name) {
            return Some(i);
        }
        assert(all.skip(i as int).drop_first() =~= all.skip(i + 1));
        i += 1;
    }
    None
}

/// A publish run in progress.
pub struct Publisher {
    graph: PublishOrderGraph,
    slots: Vec<Option<PreparedPublishPackage>>,
    authorizations: Authorizations,
}

impl Publisher {
    /// The state of the publish order.
    pub closed spec fn graph(&self) -> GraphView {
        self.graph@
    }

    /// The authorizations of the run.
    pub closed spec fn authorizations(&self) -> Map<PackageKey, Seq<char>> {
        self.authorizations@
    }

    /// The package held for node `i`, until its upload starts.
    pub closed spec fn package_of(&self, i: int) -> Option<PackageView> {
        match self.slots@[i] {
            Some(package) => Some(package@),
            None => None,
        }
    }

    /// The run is consistent: every package that still waits is held, and
    /// its authorization is filed.
    pub closed spec fn wf(&self) -> bool {
        &&& self.graph.wf()
        &&& self.slots@.len() == self.graph@.names.len()
        &&& forall|i: int|
            0 <= i < self.slots@.len() && !self.graph@.started[i] ==> (
            #[trigger] self.slots@[i]) is Some && self.authorizations@.contains_key(
                self.slots@[i]->0@.key(),
            )
    }

    /// The publish order of a consistent run is in a reachable state, so
    /// what holds of every such state holds of the run: its packages were
    /// handed out in topological order, each after all its dependencies.
    pub proof fn lemma_wf_graph(&self)
        requires
            self.wf(),
        ensures
            self.graph().well_formed(),
    {
        self.graph.lemma_wf_view();
    }

    /// Sets up a run from the publish order, the prepared packages by name,
    /// and the authorizations minted for them.
    ///
    /// Fails if a package of the publish order was not prepared or has no
    /// authorization, and reports the first such package in node order.
    /// Prepared packages that the publish order does not name are dropped.
    pub fn new(
        graph: PublishOrderGraph,
        packages: Vec<(String, PreparedPublishPackage)>,
        authorizations: Authorizations,
    ) -> (result: Result<Publisher, PublishError>)
        requires
            graph.wf(),
        ensures
            match result {
                Ok(run) => {
                    &&& run.wf()
                    &&& run.graph() == graph@
                    &&& run.authorizations() == authorizations@
                    &&& first_problem(graph@.names, named_views(packages@), authorizations@) is None
                    &&& forall|i: int|
                        0 <= i < graph@.names.len() ==> #[trigger] run.package_of(i)
                            == package_named(named_views(packages@), graph@.names[i])
                },
                Err(e) => first_problem(graph@.names, named_views(packages@), authorizations@)
                    == Some(e@),
            },
    {
        let ghost names = graph@.names;
        let ghost given = named_views(packages@);
        let ghost filed = authorizations@;
        proof {
            graph.lemma_wf_view();
        }
        let n = graph.len();
        let mut rest = packages;
        let mut slots: Vec<Option<PreparedPublishPackage>> = Vec::new();
        let mut i: usize = 0;
        assert(names.skip(0) =~= names);
        while i < n
            invariant
                i <= n,
                n == names.len(),
                names == graph@.names,
                graph.wf(),
                graph@.well_formed(),
                filed == authorizations@,
                given == named_views(packages@),
                slots@.len() == i,
                first_problem(names, given, filed) == first_problem(names.skip(i as int), given, filed),
                forall|x: Seq<char>|
                    (forall|k: int| 0 <= k < i ==> names[k] != x) ==> #[trigger] package_named(
                        named_views(rest@),
                        x,
                    ) == package_named(given, x),
                forall|k: int|
                    0 <= k < i ==> (#[trigger] slots@[k]) is Some && Some(slots@[k]->0@)
                        == package_named(given, names[k]) && filed.contains_key(
                        slots@[k]->0@.key(),
                    ),
            decreases n - i,
        {
            let name = graph.name(i);
            let ghost held = named_views(rest@);
            proof {
                assert(names.skip(i as int)[0] == names[i as int]);
                assert(names.skip(i as int).drop_first() =~= names.skip(i + 1));
                assert forall|k: int| 0 <= k < i implies names[k] != names[i as int] by {}
                assert(package_named(held, names[i as int]) == package_named(
                    given,
                    names[i as int],
                ));
            }
            match position_named(&rest, name.as_str()) {
                None => {
                    return Err(PublishError::UnknownPackage { name: name.clone() });
                },
                Some(at) => {
                    let entry = rest.remove(at);
                    let package = entry.1;
                    if authorizations.get(
                        package.scope.as_str(),
                        package.package.as_str(),
                        package.version.as_str(),
                    ).is_none() {
                        return Err(PublishError::MissingAuthorization { name: name.clone() });
                    }
                    proof {
                        assert(named_views(rest@) =~= held.remove(at as int));
                        assert forall|x: Seq<char>|
                            (forall|k: int| 0 <= k < i + 1 ==> names[k] != x) implies #[trigger] package_named(
                            named_views(rest@),
                            x,
                        ) == package_named(given, x) by {
                            assert(names[i as int] != x);
                            lemma_named_after_remove(held, at as int, x);
                            assert forall|k: int| 0 <= k < i implies names[k] != x by {}
                            assert(package_named(held, x) == package_named(given, x));
                        }
                    }
                    slots.push(Some(package));
                },
            }
            i += 1;
        }
        let run = Publisher { graph, slots, authorizations };
        proof {
            assert forall|i: int| 0 <= i < names.len() implies #[trigger] run.package_of(i)
                == package_named(given, names[i]) by {
                assert(run.slots@[i] is Some);
            }
        }
        Ok(run)
    }

    /// Hands out every upload that may start now.
    ///
    /// These are the packages that are ready in the publish order, in node
    /// order. Each job carries the package that was prepared under its name
    /// and the authorization filed for that package.
    pub fn start_ready(&mut self) -> (jobs: Vec<UploadJob>)
        requires
            old(self).wf(),
        ensures
            final(self).wf(),
            final(self).graph() == old(self).graph().after_next(),
            final(self).authorizations() == old(self).authorizations(),
            jobs@.len() == old(self).graph().ready_nodes().len(),
            forall|k: int|
                0 <= k < jobs@.len() ==> {
                    let node = old(self).graph().ready_nodes()[k];
                    let job = #[trigger] jobs@[k];
                    &&& job.name@ == old(self).graph().names[node]
                    &&& old(self).package_of(node) == Some(job.package@)
                    &&& old(self).authorizations().contains_key(job.package@.key())
                    &&& job.authorization@ == old(self).authorizations()[job.package@.key()]
                },
            forall|i: int|
                0 <= i < old(self).graph().names.len() ==> #[trigger] final(self).package_of(i) == if old(
                    self,
                ).graph().is_ready(i) {
                    None
                } else {
                    old(self).package_of(i)
                },
    {
        let ghost before = self.graph@;
        let ghost ready = before.ready_nodes();
        let ghost held = self.slots@;
        let ghost filed = self.authorizations@;
        proof {
            self.graph.lemma_wf_view();
            lemma_ready_nodes(before, before.names.len() as int);
        }
        let nodes = self.graph.next_nodes();
        let mut jobs: Vec<UploadJob> = Vec::new();
        let mut k: usize = 0;
        while k < nodes.len()
            invariant
                k <= nodes@.len(),
                self.graph.wf(),
                self.graph@ == before.after_next(),
                self.authorizations@ == filed,
                ready == before.ready_nodes(),
                node_numbers(nodes@) == ready,
                held == old(self).slots@,
                old(self).wf(),
                before == old(self).graph@,
                filed == old(self).authorizations@,
                self.slots@.len() == held.len(),
                held.len() == before.names.len(),
                forall|l: int| 0 <= l < ready.len() ==> 0 <= #[trigger] ready[l] < before.names.len()
                    && before.is_ready(ready[l]),
                forall|a: int, b: int| 0 <= a < b < ready.len() ==> ready[a] < ready[b],
                forall|i: int|
                    0 <= i < held.len() ==> #[trigger] self.slots@[i] == if exists|l: int|
                        0 <= l < k && ready[l] == i {
                        None::<PreparedPublishPackage>
                    } else {
                        held[i]
                    },
                jobs@.len() == k,
                forall|l: int|
                    0 <= l < k ==> {
                        let job = #[trigger] jobs@[l];
                        &&& job.name@ == before.names[ready[l]]
                        &&& held[ready[l]] == Some(job.package)
                        &&& filed.contains_key(job.package@.key())
                        &&& job.authorization@ == filed[job.package@.key()]
                    },
            decreases nodes@.len() - k,
        {
            let node = nodes[k];
            proof {
                assert(node_numbers(nodes@)[k as int] == node as int);
                assert(ready[k as int] == node as int);
                assert(before.is_ready(node as int));
                assert(!(exists|l: int| 0 <= l < k && ready[l] == node as int)) by {
                    if exists|l: int| 0 <= l < k && ready[l] == node as int {
                        let l = choose|l: int| 0 <= l < k && ready[l] == node as int;
                        assert(ready[l] < ready[k as int]);
                    }
                }
                assert(self.slots@[node as int] == held[node as int]);
                assert(held[node as int] is Some);
            }
            let ghost slots_before = self.slots@;
            self.slots.push(None);
            let taken = self.slots.swap_remove(node);
            proof {
                assert(self.slots@ =~= slots_before.update(node as int, None));
            }
            match taken {
                None => {},
                Some(package) => {
                    let name = self.graph.name(node).clone();
                    let found = self.authorizations.get(
                        package.scope.as_str(),
                        package.package.as_str(),
                        package.version.as_str(),
                    );
                    match found {
                        None => {},
                        Some(authorization) => {
                            let authorization = authorization.clone();
                            jobs.push(UploadJob { name, package, authorization });
                        },
                    }
                },
            }
            proof {
                assert forall|i: int| 0 <= i < held.len() implies #[trigger] self.slots@[i]
                    == if exists|l: int| 0 <= l < k + 1 && ready[l] == i {
                    None::<PreparedPublishPackage>
                } else {
                    held[i]
                } by {
                    if i == node {
                        assert(ready[k as int] == i);
                    } else {
                        if exists|l: int| 0 <= l < k + 1 && ready[l] == i {
                            let l = choose|l: int| 0 <= l < k + 1 && ready[l] == i;
                            assert(l < k);
                        }
                        if exists|l: int| 0 <= l < k && ready[l] == i {
                            let l = choose|l: int| 0 <= l < k && ready[l] == i;
                            assert(0 <= l < k + 1 && ready[l] == i);
                        }
                    }
                }
            }
            k += 1;
        }
        proof {
            assert forall|i: int|
                0 <= i < self.slots@.len() && !self.graph@.started[i] implies (
            #[trigger] self.slots@[i]) is Some && self.authorizations@.contains_key(
                self.slots@[i]->0@.key(),
            ) by {
                assert(!before.started[i] && !before.is_ready(i));
                if exists|l: int| 0 <= l < ready.len() && ready[l] == i {
                    let l = choose|l: int| 0 <= l < ready.len() && ready[l] == i;
                    assert(before.is_ready(ready[l]));
                }
                assert(held[i] is Some);
            }
            assert forall|i: int| 0 <= i < before.names.len() implies #[trigger] self.package_of(i)
                == if before.is_ready(i) {
                None
            } else {
                old(self).package_of(i)
            } by {
                if before.is_ready(i) {
                    assert(ready.contains(i));
                    let l = choose|l: int| 0 <= l < ready.len() && ready[l] == i;
                    assert(self.slots@[i] is None);
                } else {
                    if exists|l: int| 0 <= l < ready.len() && ready[l] == i {
                        let l = choose|l: int| 0 <= l < ready.len() && ready[l] == i;
                        assert(before.is_ready(ready[l]));
                    }
                    assert(self.slots@[i] == held[i]);
                }
            }
        }
        jobs
    }

    /// Records that the upload of `name` has completed, which may make
    /// further packages ready.
    pub fn complete(&mut self, name: &str)
        requires
            old(self).wf(),
        ensures
            final(self).wf(),
            final(self).graph() == old(self).graph().after_finish(name@),
            final(self).authorizations() == old(self).authorizations(),
            forall|i: int| final(self).package_of(i) == old(self).package_of(i),
    {
        self.graph.finish_package(name);
    }

    /// Checks, once nothing is in flight and nothing more can start, that
    /// every package has been published.
    pub fn finish(&self) -> (result: Result<(), PendingPackages>)
        requires
            self.wf(),
        ensures
            result is Ok <==> self.graph().stuck_nodes().len() == 0,
            result matches Err(left) ==> texts(left.names@) == self.graph().names_of(
                self.graph().stuck_nodes(),
            ),
    {
        self.graph.ensure_no_pending()
    }
}

} // verus!
