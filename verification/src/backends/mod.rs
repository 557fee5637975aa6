//! Running build steps over batches of apps.
//!
//! A batch holds one outcome per app. A step is a function that is handed to
//! one of the combinators `map`, `par_map` and `gather`; it is run only for
//! apps that have not failed, and what it returns becomes their outcome.

pub mod cmake_c;
pub mod cmake_cpp;
pub mod lfc;
pub mod npm;
pub mod pnpm;

use rayon::iter::{IntoParallelRefIterator, ParallelIterator};
use std::sync::Arc;
use vstd::prelude::*;
use vstd::seq_lib::*;

use crate::args::{BuildSystem, Platform, TargetLanguage};
use crate::package::lock::aggregated_code;
use crate::package::management::DependencyManager;
use crate::package::target_properties::{merged, MergeTargetProperties};
use crate::package::tree::PackageDetails;
use crate::package::{App, Config};
use crate::util::errors::{BuildResult, LingoError};
use crate::util::text::{le, lemma_text_le_total, text_le};
use crate::util::Action;
use crate::WhichError;

verus! {

/// How the target code is compiled.
#[derive(Copy, Clone, Debug, PartialEq, Eq, Structural)]
pub enum BuildProfile {
    /// Compile with optimizations.
    Release,
    /// Compile with debug info.
    Debug,
}

/// The options of a build.
#[derive(Debug)]
pub struct BuildCommandOptions {
    /// Build profile, mostly relevant for target compilation.
    pub profile: BuildProfile,
    /// Whether to compile the target code.
    pub compile_target_code: bool,
    /// Path to the LFC executable.
    pub lfc_exec_path: String,
    /// Max threads to use for compilation. A value of zero means
    /// that the number will be automatically determined.
    /// A value of one effectively disables parallel builds.
    pub max_threads: usize,
    /// if compilation should continue if one of the apps fails building
    pub keep_going: bool,
}

/// Description of a lingo command
#[derive(Debug)]
pub enum CommandSpec {
    /// Compile generated code with the target compiler.
    Build(BuildCommandOptions),
    /// Update dependencies
    Update,
    /// Clean build artifacts
    Clean,
}

/// Collects build results by app.
pub struct BatchBuildResults<'a> {
    results: Vec<(&'a App, BuildResult)>,
    keep_going: bool,
    aborted: bool,
}

/// The mathematical value of a batch: its apps in order, the outcome of each,
/// and its two flags.
pub struct BatchView {
    /// The apps of the batch.
    pub apps: Seq<App>,
    /// The outcome of each app, `Ok` while it has not failed.
    pub outcomes: Seq<BuildResult>,
    /// Whether a failure of one app leaves the others running.
    pub keep_going: bool,
    /// Whether a failure has stopped the batch.
    pub aborted: bool,
}

/// The apps of a list of entries.
pub open spec fn entry_apps(entries: Seq<(&App, BuildResult)>) -> Seq<App> {
    entries.map_values(|entry: (&App, BuildResult)| *entry.0)
}

/// The outcomes of a list of entries.
pub open spec fn entry_outcomes(entries: Seq<(&App, BuildResult)>) -> Seq<BuildResult> {
    entries.map_values(|entry: (&App, BuildResult)| entry.1)
}

impl<'a> View for BatchBuildResults<'a> {
    type V = BatchView;

    closed spec fn view(&self) -> BatchView {
        BatchView {
            apps: entry_apps(self.results@),
            outcomes: entry_outcomes(self.results@),
            keep_going: self.keep_going,
            aborted: self.aborted,
        }
    }
}

impl BatchView {
    /// Whether the batch holds one outcome for each of its apps.
    pub open spec fn wf(self) -> bool {
        self.apps.len() == self.outcomes.len()
    }

    /// The number of apps.
    pub open spec fn len(self) -> int {
        self.apps.len() as int
    }

    /// What a step does for the app at `i`: an app that has not failed gets
    /// an outcome of the step, and a failed app keeps its failure.
    pub open spec fn stepped<F: Fn(&App) -> BuildResult>(self, f: F, after: BatchView, i: int) -> bool {
        if self.outcomes[i] is Ok {
            call_ensures(f, (&self.apps[i],), after.outcomes[i])
        } else {
            after.outcomes[i] == self.outcomes[i]
        }
    }

    /// What is left of the app at `i` when the batch was stopped before its
    /// turn: an app that has not failed is marked as aborted, and a failed
    /// app keeps its failure.
    pub open spec fn skipped(self, after: BatchView, i: int) -> bool {
        if self.outcomes[i] is Ok {
            after.outcomes[i] == Err::<(), LingoError>(LingoError::Aborted)
        } else {
            after.outcomes[i] == self.outcomes[i]
        }
    }

    /// Whether `after` is this batch after a step that ran app by app and
    /// stopped at `stop`: every app before `stop` went through the step and
    /// none of them failed in it; the app at `stop`, if there is one, failed
    /// in it; no app behind `stop` was run.
    pub open spec fn halted_at<F: Fn(&App) -> BuildResult>(self, f: F, after: BatchView, stop: int) -> bool {
        &&& 0 <= stop <= self.len()
        &&& forall|i: int|
            0 <= i < stop ==> self.stepped(f, after, i) && (#[trigger] after.outcomes[i] is Ok
                || self.outcomes[i] is Err)
        &&& stop < self.len() ==> self.outcomes[stop] is Ok && call_ensures(
            f,
            (&self.apps[stop],),
            after.outcomes[stop],
        ) && after.outcomes[stop] is Err
        &&& forall|i: int| stop < i < self.len() ==> #[trigger] self.skipped(after, i)
        &&& after.aborted == (stop < self.len())
    }

    /// Whether `after` is this batch after the step `f` was mapped over it.
    ///
    /// A batch that was stopped stays as it is. Where the batch keeps going,
    /// every app that has not failed gets an outcome of the step. Where it
    /// does not, the first failure stops the batch.
    pub open spec fn mapped<F: Fn(&App) -> BuildResult>(self, f: F, after: BatchView) -> bool {
        &&& after.apps == self.apps
        &&& after.keep_going == self.keep_going
        &&& after.outcomes.len() == self.outcomes.len()
        &&& if self.aborted {
            after == self
        } else if self.keep_going {
            !after.aborted && forall|i: int| 0 <= i < self.len() ==> #[trigger] self.stepped(f, after, i)
        } else {
            exists|stop: int| self.halted_at(f, after, stop)
        }
    }

    /// What a step with the outcomes `holds` does for the app at `i`: an app
    /// that has not failed gets an outcome of the step, and a failed app
    /// keeps its failure.
    pub open spec fn stepped_by(self, holds: spec_fn(App, BuildResult) -> bool, after: BatchView, i: int) -> bool {
        if self.outcomes[i] is Ok {
            holds(self.apps[i], after.outcomes[i])
        } else {
            after.outcomes[i] == self.outcomes[i]
        }
    }

    /// Whether `after` is this batch after a step with the outcomes `holds`
    /// that ran app by app and stopped at `stop`; see `halted_at`.
    pub open spec fn halted_by(self, holds: spec_fn(App, BuildResult) -> bool, after: BatchView, stop: int) -> bool {
        &&& 0 <= stop <= self.len()
        &&& forall|i: int|
            0 <= i < stop ==> self.stepped_by(holds, after, i) && (#[trigger] after.outcomes[i] is Ok
                || self.outcomes[i] is Err)
        &&& stop < self.len() ==> self.outcomes[stop] is Ok && holds(
            self.apps[stop],
            after.outcomes[stop],
        ) && after.outcomes[stop] is Err
        &&& forall|i: int| stop < i < self.len() ==> #[trigger] self.skipped(after, i)
        &&& after.aborted == (stop < self.len())
    }

    /// Whether `after` is this batch after a step was mapped over it of
    /// which `holds` tells the outcomes that it can have for an app; see
    /// `mapped`.
    pub open spec fn mapped_by(self, holds: spec_fn(App, BuildResult) -> bool, after: BatchView) -> bool {
        &&& after.apps == self.apps
        &&& after.keep_going == self.keep_going
        &&& after.outcomes.len() == self.outcomes.len()
        &&& if self.aborted {
            after == self
        } else if self.keep_going {
            !after.aborted && forall|i: int|
                0 <= i < self.len() ==> #[trigger] self.stepped_by(holds, after, i)
        } else {
            exists|stop: int| self.halted_by(holds, after, stop)
        }
    }

    /// Whether `after` is this batch after a step was run once for all apps
    /// that have not failed, of which `holds` tells the outcomes that it
    /// can have for a group of apps; see `gathered`.
    pub open spec fn gathered_by(self, holds: spec_fn(Seq<App>, BuildResult) -> bool, after: BatchView) -> bool {
        &&& after.apps == self.apps
        &&& after.keep_going == self.keep_going
        &&& after.outcomes.len() == self.outcomes.len()
        &&& if self.aborted || self.pending(self.len()).len() == 0 {
            after == self
        } else {
            exists|outcome: BuildResult|
                #[trigger] holds(self.pending(self.len()), outcome) && match outcome {
                    Ok(_) => after == self,
                    Err(error) => self.broadcast(error, after) && after.aborted == !self.keep_going,
                }
        }
    }

    /// This batch with the flag `keep_going` set to `value`.
    pub open spec fn keeping(self, value: bool) -> BatchView {
        BatchView { keep_going: value, ..self }
    }

    /// Whether `after` is this batch after further steps: it holds the same
    /// apps, and every app that had failed still has the same failure.
    pub open spec fn continued(self, after: BatchView) -> bool {
        &&& after.apps == self.apps
        &&& after.outcomes.len() == self.outcomes.len()
        &&& forall|i: int|
            0 <= i < self.len() && self.outcomes[i] is Err ==> #[trigger] after.outcomes[i]
                == self.outcomes[i]
    }

    /// The apps of the batch, each with its outcome.
    pub open spec fn entries(self) -> Seq<(App, BuildResult)> {
        Seq::new(self.apps.len(), |i: int| (self.apps[i], self.outcomes[i]))
    }

    /// The apps among the first `n` that have not failed, in order.
    pub open spec fn pending(self, n: int) -> Seq<App>
        decreases n,
    {
        if n <= 0 {
            Seq::empty()
        } else if self.outcomes[n - 1] is Ok {
            self.pending(n - 1).push(self.apps[n - 1])
        } else {
            self.pending(n - 1)
        }
    }

    /// Whether `after` holds, for every app that has not failed in this
    /// batch, the failure that `shared` points to, and the old failure for
    /// every other app.
    pub open spec fn all_receive(self, shared: Arc<LingoError>, after: BatchView) -> bool {
        forall|i: int|
            0 <= i < self.len() ==> #[trigger] after.outcomes[i] == (if self.outcomes[i] is Ok {
                Err::<(), LingoError>(LingoError::Shared(shared))
            } else {
                self.outcomes[i]
            })
    }

    /// Whether `after` is this batch after every app that has not failed
    /// received the failure `error`, shared.
    pub open spec fn broadcast(self, error: LingoError, after: BatchView) -> bool {
        exists|shared: Arc<LingoError>| #[trigger] shares(shared, error) && self.all_receive(shared, after)
    }

    /// Whether `after` is this batch after the step `f` was run once for all
    /// apps that have not failed.
    ///
    /// A batch that was stopped, or in which every app has failed, stays as
    /// it is and the step is not run. Where the step succeeds nothing
    /// changes. Where it fails, every app that it was run for receives the
    /// same failure, and a batch that does not keep going is stopped.
    pub open spec fn gathered<F: FnOnce(&Vec<&App>) -> BuildResult>(self, f: F, after: BatchView) -> bool {
        &&& after.apps == self.apps
        &&& after.keep_going == self.keep_going
        &&& after.outcomes.len() == self.outcomes.len()
        &&& if self.aborted || self.pending(self.len()).len() == 0 {
            after == self
        } else {
            exists|group: Vec<&App>, outcome: BuildResult|
                group@.map_values(|app: &App| *app) == self.pending(self.len()) && call_ensures(
                    f,
                    (&group,),
                    outcome,
                ) && match outcome {
                    Ok(_) => after == self,
                    Err(error) => self.broadcast(error, after) && after.aborted == !self.keep_going,
                }
        }
    }
}

/// A sorted list with one more entry: the entry stands behind every entry
/// whose app does not come after its own app by name.
pub open spec fn inserted(sorted: Seq<(App, BuildResult)>, entry: (App, BuildResult)) -> Seq<
    (App, BuildResult),
>
    decreases sorted.len(),
{
    if sorted.len() == 0 {
        seq![entry]
    } else if text_le(sorted.last().0.name@, entry.0.name@) {
        sorted.push(entry)
    } else {
        inserted(sorted.drop_last(), entry).push(sorted.last())
    }
}

/// The entries sorted by the name of their app. Entries of apps with the
/// same name keep their order.
pub open spec fn sorted_by_name(entries: Seq<(App, BuildResult)>) -> Seq<(App, BuildResult)>
    decreases entries.len(),
{
    if entries.len() == 0 {
        Seq::empty()
    } else {
        inserted(sorted_by_name(entries.drop_last()), entries.last())
    }
}

/// Whether the app of the entry at `i` does not come after the app of the
/// next entry by name.
pub open spec fn in_order_at(entries: Seq<(App, BuildResult)>, i: int) -> bool {
    text_le(entries[i].0.name@, entries[i + 1].0.name@)
}

/// Whether the entries are in the order of the names of their apps.
pub open spec fn ordered_by_name(entries: Seq<(App, BuildResult)>) -> bool {
    forall|i: int| 0 <= i < entries.len() - 1 ==> #[trigger] in_order_at(entries, i)
}

/// The entries of a list as values.
pub open spec fn entry_values(entries: Seq<(&App, BuildResult)>) -> Seq<(App, BuildResult)> {
    entries.map_values(|entry: (&App, BuildResult)| (*entry.0, entry.1))
}

/// Implemented by specific build strategies, eg for specific build tools.
pub trait BatchBackend {
    /// Build all apps, possibly in parallel.
    ///
    /// Every effect goes through `run`. Whatever a backend does, the batch
    /// holds the same apps afterwards, and an app that had failed before
    /// is not touched.
    fn execute_command<R>(&mut self, command: &CommandSpec, results: &mut BatchBuildResults, run: &R) where
        R: Fn(&Action) -> BuildResult + Send + Sync,

        requires
            forall|action: &Action| call_requires(*run, (action,)),
        ensures
            old(results)@.continued(final(results)@),
    ;
}

/// A step whose every outcome is one that `holds` tells maps a batch as
/// `holds` says.
pub proof fn lemma_mapped_by<F: Fn(&App) -> BuildResult>(
    before: BatchView,
    f: F,
    after: BatchView,
    holds: spec_fn(App, BuildResult) -> bool,
)
    requires
        before.mapped(f, after),
        forall|app: &App, outcome: BuildResult| #[trigger]
            call_ensures(f, (app,), outcome) ==> holds(*app, outcome),
    ensures
        before.mapped_by(holds, after),
{
    if before.aborted {
    } else if before.keep_going {
        assert forall|i: int| 0 <= i < before.len() implies #[trigger] before.stepped_by(
            holds,
            after,
            i,
        ) by {
            assert(before.stepped(f, after, i));
        }
    } else {
        let stop = choose|stop: int| before.halted_at(f, after, stop);
        assert forall|i: int| 0 <= i < stop implies before.stepped_by(holds, after, i) && (
        #[trigger] after.outcomes[i] is Ok || before.outcomes[i] is Err) by {
            assert(before.stepped(f, after, i));
        }
        assert(before.halted_by(holds, after, stop));
    }
}

/// A step whose every outcome is one that `holds` tells gathers a batch as
/// `holds` says.
pub proof fn lemma_gathered_by<F: FnOnce(&Vec<&App>) -> BuildResult>(
    before: BatchView,
    f: F,
    after: BatchView,
    holds: spec_fn(Seq<App>, BuildResult) -> bool,
)
    requires
        before.gathered(f, after),
        forall|group: &Vec<&App>, outcome: BuildResult| #[trigger]
            call_ensures(f, (group,), outcome) ==> holds(
                group@.map_values(|app: &App| *app),
                outcome,
            ),
    ensures
        before.gathered_by(holds, after),
{
    if !(before.aborted || before.pending(before.len()).len() == 0) {
        let (group, outcome) = choose|group: Vec<&App>, outcome: BuildResult|
            group@.map_values(|app: &App| *app) == before.pending(before.len()) && call_ensures(
                f,
                (&group,),
                outcome,
            ) && match outcome {
                Ok(_) => after == before,
                Err(error) => before.broadcast(error, after) && after.aborted == !before.keep_going,
            };
        assert(holds(before.pending(before.len()), outcome));
    }
}

/// A batch after a mapped step holds the same apps, and every app that had
/// failed still has the same failure.
pub proof fn lemma_mapped_continues<F: Fn(&App) -> BuildResult>(before: BatchView, f: F, after: BatchView)
    requires
        before.wf(),
        before.mapped(f, after),
    ensures
        before.continued(after),
{
    if !before.aborted && !before.keep_going {
        let stop = choose|stop: int| before.halted_at(f, after, stop);
        assert forall|i: int| 0 <= i < before.len() && before.outcomes[i] is Err implies #[trigger] after.outcomes[i]
            == before.outcomes[i] by {
            if i < stop {
                assert(before.stepped(f, after, i));
            } else if i > stop {
                assert(before.skipped(after, i));
            }
        }
    } else if !before.aborted {
        assert forall|i: int| 0 <= i < before.len() && before.outcomes[i] is Err implies #[trigger] after.outcomes[i]
            == before.outcomes[i] by {
            assert(before.stepped(f, after, i));
        }
    }
}

/// A batch after a gathered step holds the same apps, and every app that
/// had failed still has the same failure.
pub proof fn lemma_gathered_continues<F: FnOnce(&Vec<&App>) -> BuildResult>(
    before: BatchView,
    f: F,
    after: BatchView,
)
    requires
        before.wf(),
        before.gathered(f, after),
    ensures
        before.continued(after),
{
    if !(before.aborted || before.pending(before.len()).len() == 0) {
        let (group, outcome) = choose|group: Vec<&App>, outcome: BuildResult|
            group@.map_values(|app: &App| *app) == before.pending(before.len()) && call_ensures(
                f,
                (&group,),
                outcome,
            ) && match outcome {
                Ok(_) => after == before,
                Err(error) => before.broadcast(error, after) && after.aborted == !before.keep_going,
            };
        match outcome {
            Ok(_) => {},
            Err(error) => {
                let shared = choose|shared: Arc<LingoError>| #[trigger]
                    shares(shared, error) && before.all_receive(shared, after);
                assert(before.all_receive(shared, after));
            },
        }
    }
}

/// Continuing is transitive: steps after steps leave the apps and the old
/// failures as they were.
pub proof fn lemma_continued_transitive(first: BatchView, second: BatchView, third: BatchView)
    requires
        first.wf(),
        first.continued(second),
        second.continued(third),
    ensures
        first.continued(third),
{
    assert forall|i: int| 0 <= i < first.len() && first.outcomes[i] is Err implies #[trigger] third.outcomes[i]
        == first.outcomes[i] by {
        assert(second.outcomes[i] == first.outcomes[i]);
    }
}

/// The apps of a list of entries.
pub open spec fn apps_of(entries: Seq<(App, BuildResult)>) -> Seq<App> {
    entries.map_values(|entry: (App, BuildResult)| entry.0)
}

/// Two listings that hold the same values, each as often as the other,
/// still do so after a function was applied to every value.
pub proof fn lemma_map_permutes<A, B>(first: Seq<A>, second: Seq<A>, f: spec_fn(A) -> B)
    requires
        first.to_multiset() == second.to_multiset(),
    ensures
        first.map_values(f).to_multiset() == second.map_values(f).to_multiset(),
    decreases first.len(),
{
    broadcast use vstd::multiset::group_multiset_axioms;

    first.to_multiset_ensures();
    second.to_multiset_ensures();
    if first.len() == 0 {
        assert(second.len() == 0);
        assert(first.map_values(f) =~= second.map_values(f));
    } else {
        let x = first.last();
        assert(first.to_multiset().count(x) > 0) by {
            assert(first.contains(x));
        }
        assert(second.contains(x));
        let k = choose|k: int| 0 <= k < second.len() && second[k] == x;
        let rest_first = first.drop_last();
        let rest_second = second.remove(k);
        assert(rest_first.to_multiset() == rest_second.to_multiset()) by {
            to_multiset_remove(first, first.len() - 1);
            to_multiset_remove(second, k);
            assert(first.remove(first.len() - 1) =~= rest_first);
        }
        lemma_map_permutes(rest_first, rest_second, f);
        let mapped_rest_first = rest_first.map_values(f);
        let mapped_rest_second = rest_second.map_values(f);
        assert(first.map_values(f) =~= mapped_rest_first.push(f(x)));
        assert(second.map_values(f) =~= mapped_rest_second.insert(k, f(x)));
        to_multiset_build(mapped_rest_first, f(x));
        to_multiset_insert(mapped_rest_second, k, f(x));
        assert(first.map_values(f).to_multiset() =~= second.map_values(f).to_multiset());
    }
}

/// Putting an entry into a sorted list adds that entry and nothing else.
pub proof fn lemma_inserted_permutes(sorted: Seq<(App, BuildResult)>, entry: (App, BuildResult))
    ensures
        inserted(sorted, entry).to_multiset() == sorted.to_multiset().insert(entry),
    decreases sorted.len(),
{
    broadcast use vstd::multiset::group_multiset_axioms;

    if sorted.len() == 0 {
        assert(seq![entry] =~= sorted.push(entry));
        to_multiset_build(sorted, entry);
    } else if text_le(sorted.last().0.name@, entry.0.name@) {
        to_multiset_build(sorted, entry);
    } else {
        let rest = sorted.drop_last();
        lemma_inserted_permutes(rest, entry);
        to_multiset_build(inserted(rest, entry), sorted.last());
        to_multiset_build(rest, sorted.last());
        assert(rest.push(sorted.last()) =~= sorted);
        assert(inserted(sorted, entry).to_multiset() =~= sorted.to_multiset().insert(entry));
    }
}

/// Sorting keeps every entry, each as often as it was there: after a merge
/// a batch still holds exactly one entry for every app that was submitted.
pub proof fn lemma_sorted_permutes(entries: Seq<(App, BuildResult)>)
    ensures
        sorted_by_name(entries).to_multiset() == entries.to_multiset(),
        sorted_by_name(entries).len() == entries.len(),
        apps_of(sorted_by_name(entries)).to_multiset() == apps_of(entries).to_multiset(),
    decreases entries.len(),
{
    broadcast use vstd::multiset::group_multiset_axioms;

    if entries.len() == 0 {
        assert(sorted_by_name(entries) =~= entries);
    } else {
        let rest = entries.drop_last();
        lemma_sorted_permutes(rest);
        lemma_inserted_permutes(sorted_by_name(rest), entries.last());
        lemma_inserted_last(sorted_by_name(rest), entries.last());
        to_multiset_build(rest, entries.last());
        assert(rest.push(entries.last()) =~= entries);
        assert(sorted_by_name(entries).to_multiset() =~= entries.to_multiset());
    }
    assert(sorted_by_name(entries).to_multiset() == entries.to_multiset());
    lemma_map_permutes(
        sorted_by_name(entries),
        entries,
        |entry: (App, BuildResult)| entry.0,
    );
}

/// The last entry of a sorted list with one more entry is that entry or the
/// entry that was last.
proof fn lemma_inserted_last(sorted: Seq<(App, BuildResult)>, entry: (App, BuildResult))
    ensures
        inserted(sorted, entry).len() == sorted.len() + 1,
        inserted(sorted, entry).last() == entry || (sorted.len() > 0 && inserted(
            sorted,
            entry,
        ).last() == sorted.last()),
    decreases sorted.len(),
{
    if sorted.len() > 0 && !text_le(sorted.last().0.name@, entry.0.name@) {
        lemma_inserted_last(sorted.drop_last(), entry);
    }
}

/// Putting an entry into a list that is in order leaves it in order.
proof fn lemma_inserted_ordered(sorted: Seq<(App, BuildResult)>, entry: (App, BuildResult))
    requires
        ordered_by_name(sorted),
    ensures
        ordered_by_name(inserted(sorted, entry)),
    decreases sorted.len(),
{
    let after = inserted(sorted, entry);
    if sorted.len() == 0 {
    } else if text_le(sorted.last().0.name@, entry.0.name@) {
        assert forall|i: int| 0 <= i < after.len() - 1 implies #[trigger] in_order_at(after, i) by {
            if i < sorted.len() - 1 {
                assert(in_order_at(sorted, i));
            }
        }
    } else {
        let rest = sorted.drop_last();
        assert(ordered_by_name(rest)) by {
            assert forall|i: int| 0 <= i < rest.len() - 1 implies #[trigger] in_order_at(rest, i) by {
                assert(in_order_at(sorted, i));
            }
        }
        lemma_inserted_ordered(rest, entry);
        lemma_inserted_last(rest, entry);
        let head = inserted(rest, entry);
        lemma_text_le_total(sorted.last().0.name@, entry.0.name@);
        assert(after == head.push(sorted.last()));
        assert forall|i: int| 0 <= i < after.len() - 1 implies #[trigger] in_order_at(after, i) by {
            if i < head.len() - 1 {
                assert(in_order_at(head, i));
            } else if head.last() != entry {
                assert(in_order_at(sorted, sorted.len() - 2));
            }
        }
    }
}

/// Sorted entries are in the order of the names of their apps.
pub proof fn lemma_sorted_ordered(entries: Seq<(App, BuildResult)>)
    ensures
        ordered_by_name(sorted_by_name(entries)),
    decreases entries.len(),
{
    if entries.len() > 0 {
        lemma_sorted_ordered(entries.drop_last());
        lemma_inserted_ordered(sorted_by_name(entries.drop_last()), entries.last());
    }
}

/// The line that reports the outcome of the app at `i`.
pub open spec fn result_line(batch: BatchView, i: int) -> Seq<char> {
    match batch.outcomes[i] {
        Ok(_) => "- "@ + batch.apps[i].name@ + ": Success"@,
        Err(error) => "- "@ + batch.apps[i].name@ + ": Error: "@ + crate::util::errors::message_of(
            error,
        ),
    }
}

/// Whether `shared` points to the failure `error`.
pub open spec fn shares(shared: Arc<LingoError>, error: LingoError) -> bool {
    *shared == error
}

/// Runs a step for one app.
fn apply<F>(f: &F, app: &App) -> (outcome: BuildResult) where F: Fn(&App) -> BuildResult
    requires
        call_requires(*f, (app,)),
    ensures
        call_ensures(*f, (app,), outcome),
{
    f(app)
}

/// Runs the step for every app at once on the worker threads of `rayon`.
///
/// `par_iter` hands out the apps, `map` calls the step for each, and
/// `collect` waits for all calls and returns their results in the order of
/// the apps.
#[verifier::external_body]
fn run_concurrently<'a, F>(apps: &Vec<&'a App>, f: &F) -> (outcomes: Vec<BuildResult>) where
    F: Fn(&App) -> BuildResult + Send + Sync,

    requires
        forall|i: int| 0 <= i < apps@.len() ==> call_requires(*f, (#[trigger] apps@[i],)),
    ensures
        outcomes@.len() == apps@.len(),
        forall|i: int|
            0 <= i < apps@.len() ==> call_ensures(*f, (apps@[i],), #[trigger] outcomes@[i]),
{
    apps.par_iter().map(|app| apply(f, app)).collect()
}

impl<'a> BatchBuildResults<'a> {
    /// Create an empty result, only for use with `append`.
    pub fn new() -> (batch: Self)
        ensures
            batch@.apps.len() == 0,
            batch@.outcomes.len() == 0,
            !batch@.keep_going,
            !batch@.aborted,
    {
        Self { results: Vec::new(), keep_going: false, aborted: false }
    }

    /// Create a result with an entry for each app. This can
    /// then be used by combinators like map and such.
    pub fn for_apps(apps: &[&'a App]) -> (batch: Self)
        ensures
            batch@.apps == apps@.map_values(|app: &App| *app),
            batch@.outcomes.len() == apps@.len(),
            forall|i: int|
                0 <= i < apps@.len() ==> #[trigger] batch@.outcomes[i] == Ok::<(), LingoError>(()),
            !batch@.keep_going,
            !batch@.aborted,
    {
        let mut results: Vec<(&'a App, BuildResult)> = Vec::new();
        let mut i: usize = 0;
        while i < apps.len()
            invariant
                i <= apps@.len(),
                results@.len() == i,
                forall|k: int|
                    0 <= k < i ==> (#[trigger] results@[k]).0 == apps@[k] && results@[k].1 == Ok::<
                        (),
                        LingoError,
                    >(()),
            decreases apps@.len() - i,
        {
            results.push((apps[i], Ok(())));
            i += 1;
        }
        assert(entry_apps(results@) =~= apps@.map_values(|app: &App| *app));
        Self { results, keep_going: false, aborted: false }
    }

    /// A batch holds one outcome for each of its apps.
    pub proof fn lemma_wf(&self)
        ensures
            self@.wf(),
    {
    }

    /// sets the keep going value
    pub fn keep_going(&mut self, value: bool)
        ensures
            final(self)@ == (BatchView { keep_going: value, ..old(self)@ }),
    {
        self.keep_going = value
    }

    /// The number of apps in the batch.
    pub fn len(&self) -> (n: usize)
        ensures
            n == self@.apps.len(),
            n == self@.outcomes.len(),
    {
        self.results.len()
    }

    /// The app at a position of the batch.
    pub fn app(&self, i: usize) -> (app: &'a App)
        requires
            i < self@.apps.len(),
        ensures
            *app == self@.apps[i as int],
    {
        self.results[i].0
    }

    /// The outcome of the app at a position of the batch.
    pub fn outcome(&self, i: usize) -> (outcome: &BuildResult)
        requires
            i < self@.apps.len(),
        ensures
            *outcome == self@.outcomes[i as int],
    {
        &self.results[i].1
    }

    /// Whether a failure has stopped the batch.
    pub fn is_aborted(&self) -> (aborted: bool)
        ensures
            aborted == self@.aborted,
    {
        self.aborted
    }

    /// Print this result collection to standard output.
    ///
    /// The lines are handed back for the caller to print: for each app one
    /// line that names it and says whether it succeeded or why it failed.
    pub fn print_results(&self) -> (lines: Vec<String>)
        ensures
            lines@.len() == self@.len(),
            forall|i: int| 0 <= i < lines@.len() ==> (#[trigger] lines@[i])@ == result_line(self@, i),
    {
        let mut lines: Vec<String> = Vec::new();
        let mut i: usize = 0;
        while i < self.results.len()
            invariant
                i <= self.results@.len(),
                lines@.len() == i,
                forall|k: int| 0 <= k < i ==> (#[trigger] lines@[k])@ == result_line(self@, k),
            decreases self.results@.len() - i,
        {
            let app = self.results[i].0;
            assert(self@.outcomes[i as int] == self.results@[i as int].1);
            assert(self@.apps[i as int] == *self.results@[i as int].0);
            let mut line = "- ".to_owned();
            line.append(app.name.as_str());
            match &self.results[i].1 {
                Ok(()) => {
                    line.append(": Success");
                },
                Err(e) => {
                    line.append(": Error: ");
                    line.append(e.to_string().as_str());
                },
            }
            lines.push(line);
            i += 1;
        }
        lines
    }

    /// Whether any app of the batch has failed.
    pub fn has_failed(&self) -> (failed: bool)
        ensures
            failed == exists|i: int| 0 <= i < self@.len() && #[trigger] self@.outcomes[i] is Err,
    {
        let mut i: usize = 0;
        while i < self.results.len()
            invariant
                i <= self.results@.len(),
                forall|k: int| 0 <= k < i ==> #[trigger] self@.outcomes[k] is Ok,
            decreases self.results@.len() - i,
        {
            if self.results[i].1.is_err() {
                assert(self@.outcomes[i as int] is Err);
                return true;
            }
            i += 1;
        }
        false
    }

    /// Marks every app behind `stop` that has not failed as aborted.
    fn abort_behind(&mut self, stop: usize)
        requires
            stop < old(self).results@.len(),
        ensures
            final(self)@.apps == old(self)@.apps,
            final(self)@.keep_going == old(self)@.keep_going,
            final(self)@.outcomes.len() == old(self)@.outcomes.len(),
            final(self)@.aborted,
            forall|i: int| 0 <= i <= stop ==> #[trigger] final(self)@.outcomes[i] == old(self)@.outcomes[i],
            forall|i: int| stop < i < old(self)@.len() ==> #[trigger] old(self)@.skipped(final(self)@, i),
    {
        self.aborted = true;
        let ghost start = self.results@;
        let n = self.results.len();
        let mut j: usize = stop + 1;
        while j < n
            invariant
                stop < j <= n,
                n == self.results@.len(),
                n == start.len(),
                self.aborted,
                self.keep_going == old(self).keep_going,
                forall|i: int| 0 <= i < n ==> (#[trigger] self.results@[i]).0 == start[i].0,
                forall|i: int| 0 <= i <= stop ==> (#[trigger] self.results@[i]).1 == start[i].1,
                forall|i: int|
                    stop < i < j ==> (#[trigger] self.results@[i]).1 == (if start[i].1 is Ok {
                        Err::<(), LingoError>(LingoError::Aborted)
                    } else {
                        start[i].1
                    }),
                forall|i: int| j <= i < n ==> (#[trigger] self.results@[i]).1 == start[i].1,
            decreases n - j,
        {
            let app: &'a App = self.results[j].0;
            if self.results[j].1.is_ok() {
                self.results.set(j, (app, Err(LingoError::Aborted)));
            }
            j += 1;
        }
        proof {
            assert(entry_apps(self.results@) =~= entry_apps(start));
            assert forall|i: int| stop < i < old(self)@.len() implies #[trigger] old(self)@.skipped(
                self@,
                i,
            ) by {
                assert(self.results@[i].1 == (if start[i].1 is Ok {
                    Err::<(), LingoError>(LingoError::Aborted)
                } else {
                    start[i].1
                }));
            }
            assert forall|i: int| 0 <= i <= stop implies #[trigger] self@.outcomes[i] == old(
                self,
            )@.outcomes[i] by {
                assert(self.results@[i].1 == start[i].1);
            }
        }
    }

    /// Records what a step returned for the app at `i`. A failure stops a
    /// batch that does not keep going.
    fn record(&mut self, i: usize, outcome: BuildResult) -> (stopped: bool)
        requires
            i < old(self).results@.len(),
            !old(self).aborted,
        ensures
            final(self)@.apps == old(self)@.apps,
            final(self)@.keep_going == old(self)@.keep_going,
            final(self)@.outcomes.len() == old(self)@.outcomes.len(),
            final(self)@.outcomes[i as int] == outcome,
            forall|k: int| 0 <= k < i ==> #[trigger] final(self)@.outcomes[k] == old(self)@.outcomes[k],
            stopped == (outcome is Err && !old(self)@.keep_going),
            final(self)@.aborted == stopped,
            stopped ==> forall|k: int|
                i < k < old(self)@.len() ==> #[trigger] old(self)@.skipped(final(self)@, k),
            !stopped ==> forall|k: int|
                i < k < old(self)@.len() ==> #[trigger] final(self)@.outcomes[k] == old(
                    self,
                )@.outcomes[k],
    {
        let app: &'a App = self.results[i].0;
        let failed = outcome.is_err();
        let ghost before = self.results@;
        self.results.set(i, (app, outcome));
        assert(entry_apps(self.results@) =~= entry_apps(before));
        if failed && !self.keep_going {
            let ghost middle = self@;
            self.abort_behind(i);
            proof {
                assert forall|k: int| i < k < old(self)@.len() implies #[trigger] old(self)@.skipped(
                    self@,
                    k,
                ) by {
                    assert(middle.skipped(self@, k));
                    assert(middle.outcomes[k] == old(self)@.outcomes[k]);
                }
            }
            true
        } else {
            false
        }
    }

    /// Gives every app that has not failed the failure `error`, shared.
    fn fail_pending(&mut self, error: LingoError)
        ensures
            final(self)@.apps == old(self)@.apps,
            final(self)@.keep_going == old(self)@.keep_going,
            final(self)@.aborted == old(self)@.aborted,
            final(self)@.outcomes.len() == old(self)@.outcomes.len(),
            old(self)@.broadcast(error, final(self)@),
    {
        // Mark all as failed for the same reason.
        let shared: Arc<LingoError> = Arc::new(error);
        assert(shares(shared, error));
        let n = self.results.len();
        let mut i: usize = 0;
        while i < n
            invariant
                i <= n,
                n == self.results@.len(),
                n == old(self).results@.len(),
                self.keep_going == old(self).keep_going,
                self.aborted == old(self).aborted,
                forall|k: int| 0 <= k < n ==> (#[trigger] self.results@[k]).0 == old(self).results@[k].0,
                forall|k: int|
                    0 <= k < i ==> (#[trigger] self.results@[k]).1 == (if old(self).results@[k].1 is Ok {
                        Err::<(), LingoError>(LingoError::Shared(shared))
                    } else {
                        old(self).results@[k].1
                    }),
                forall|k: int| i <= k < n ==> (#[trigger] self.results@[k]).1 == old(self).results@[k].1,
            decreases n - i,
        {
            let app: &'a App = self.results[i].0;
            if self.results[i].1.is_ok() {
                self.results.set(i, (app, Err(LingoError::Shared(shared.clone()))));
            }
            i += 1;
        }
        proof {
            assert(entry_apps(self.results@) =~= entry_apps(old(self).results@));
            assert(old(self)@.all_receive(shared, self@)) by {
                assert forall|k: int| 0 <= k < old(self)@.len() implies #[trigger] self@.outcomes[k] == (
                if old(self)@.outcomes[k] is Ok {
                    Err::<(), LingoError>(LingoError::Shared(shared))
                } else {
                    old(self)@.outcomes[k]
                }) by {
                    assert(self.results@[k].1 == (if old(self).results@[k].1 is Ok {
                        Err::<(), LingoError>(LingoError::Shared(shared))
                    } else {
                        old(self).results@[k].1
                    }));
                }
            }
        }
    }

    /// Stops the batch before any step: every app that has not failed is
    /// marked as aborted.
    fn abort_all(&mut self)
        ensures
            final(self)@.apps == old(self)@.apps,
            final(self)@.keep_going == old(self)@.keep_going,
            final(self)@.outcomes.len() == old(self)@.outcomes.len(),
            final(self)@.aborted,
            forall|i: int| 0 <= i < old(self)@.len() ==> #[trigger] old(self)@.skipped(final(self)@, i),
    {
        self.aborted = true;
        let ghost start = self.results@;
        let n = self.results.len();
        let mut j: usize = 0;
        while j < n
            invariant
                j <= n,
                n == self.results@.len(),
                n == start.len(),
                self.aborted,
                self.keep_going == old(self).keep_going,
                forall|i: int| 0 <= i < n ==> (#[trigger] self.results@[i]).0 == start[i].0,
                forall|i: int|
                    0 <= i < j ==> (#[trigger] self.results@[i]).1 == (if start[i].1 is Ok {
                        Err::<(), LingoError>(LingoError::Aborted)
                    } else {
                        start[i].1
                    }),
                forall|i: int| j <= i < n ==> (#[trigger] self.results@[i]).1 == start[i].1,
            decreases n - j,
        {
            let app: &'a App = self.results[j].0;
            if self.results[j].1.is_ok() {
                self.results.set(j, (app, Err(LingoError::Aborted)));
            }
            j += 1;
        }
        proof {
            assert(entry_apps(self.results@) =~= entry_apps(start));
            assert forall|i: int| 0 <= i < old(self)@.len() implies #[trigger] old(self)@.skipped(
                self@,
                i,
            ) by {
                assert(self.results@[i].1 == (if start[i].1 is Ok {
                    Err::<(), LingoError>(LingoError::Aborted)
                } else {
                    start[i].1
                }));
            }
        }
    }

    /// Map results sequentially. Apps that already have a failing result recorded
    /// are not fed to the mapping function.
    ///
    /// In a batch that does not keep going the first failure stops the
    /// batch: the apps behind it are not run and are marked as aborted, and
    /// no later step runs anything.
    pub fn map<F>(&mut self, f: F) -> (batch: &mut Self) where F: Fn(&App) -> BuildResult
        requires
            forall|i: int|
                0 <= i < old(self)@.len() && old(self)@.outcomes[i] is Ok ==> call_requires(
                    f,
                    (&#[trigger] old(self)@.apps[i],),
                ),
        ensures
            old(self)@.mapped(f, batch@),
            *final(self) == *final(batch),
    {
        if self.aborted {
            return self;
        }
        let n = self.results.len();
        let mut i: usize = 0;
        while i < n
            invariant
                i <= n,
                n == self.results@.len(),
                n == old(self).results@.len(),
                !self.aborted,
                !old(self).aborted,
                self@.apps == old(self)@.apps,
                self@.keep_going == old(self)@.keep_going,
                forall|k: int|
                    0 <= k < old(self)@.len() && old(self)@.outcomes[k] is Ok ==> call_requires(
                        f,
                        (&#[trigger] old(self)@.apps[k],),
                    ),
                forall|k: int| 0 <= k < i ==> #[trigger] old(self)@.stepped(f, self@, k),
                forall|k: int|
                    0 <= k < i ==> #[trigger] self@.outcomes[k] is Ok || old(self)@.outcomes[k] is Err
                        || self@.keep_going,
                forall|k: int| i <= k < n ==> #[trigger] self@.outcomes[k] == old(self)@.outcomes[k],
            decreases n - i,
        {
            if self.results[i].1.is_ok() {
                let app: &'a App = self.results[i].0;
                assert(self@.outcomes[i as int] == self.results@[i as int].1);
                assert(self@.apps[i as int] == *self.results@[i as int].0);
                let outcome = f(app);
                let ghost before = self@;
                let stopped = self.record(i, outcome);
                proof {
                    assert forall|k: int| 0 <= k < i + 1 implies #[trigger] old(self)@.stepped(
                        f,
                        self@,
                        k,
                    ) by {
                        if k < i {
                            assert(old(self)@.stepped(f, before, k));
                        }
                    }
                }
                if stopped {
                    proof {
                        assert forall|k: int| i < k < n implies #[trigger] old(self)@.skipped(
                            self@,
                            k,
                        ) by {
                            assert(before.skipped(self@, k));
                        }
                        assert(old(self)@.halted_at(f, self@, i as int));
                    }
                    return self;
                }
            } else {
                assert(self@.outcomes[i as int] == self.results@[i as int].1);
                assert(old(self)@.stepped(f, self@, i as int));
            }
            i += 1;
        }
        proof {
            if !self@.keep_going {
                assert(old(self)@.halted_at(f, self@, n as int));
            }
        }
        self
    }
}

impl<'a> BatchBuildResults<'a> {
    /// The apps that have not failed, with their places in the batch.
    fn collect_pending(&self) -> (pending: (Vec<&'a App>, Vec<usize>))
        ensures
            pending.0@.len() == pending.1@.len(),
            pending.0@.map_values(|app: &App| *app) == self@.pending(self@.len()),
            forall|m: int|
                0 <= m < pending.1@.len() ==> (#[trigger] pending.1@[m]) < self@.len()
                    && self@.outcomes[pending.1@[m] as int] is Ok && *pending.0@[m]
                    == self@.apps[pending.1@[m] as int],
            forall|m: int, l: int|
                0 <= m < l < pending.1@.len() ==> (#[trigger] pending.1@[m]) < (
                #[trigger] pending.1@[l]),
            forall|i: int|
                0 <= i < self@.len() && self@.outcomes[i] is Ok ==> exists|m: int|
                    0 <= m < pending.1@.len() && #[trigger] pending.1@[m] == i,
    {
        let mut group: Vec<&'a App> = Vec::new();
        let mut places: Vec<usize> = Vec::new();
        let n = self.results.len();
        let mut i: usize = 0;
        assert(group@.map_values(|app: &App| *app) =~= self@.pending(0));
        while i < n
            invariant
                i <= n,
                n == self.results@.len(),
                group@.len() == places@.len(),
                group@.map_values(|app: &App| *app) == self@.pending(i as int),
                forall|m: int|
                    0 <= m < places@.len() ==> (#[trigger] places@[m]) < i
                        && self@.outcomes[places@[m] as int] is Ok && *group@[m]
                        == self@.apps[places@[m] as int],
                forall|m: int, l: int|
                    0 <= m < l < places@.len() ==> (#[trigger] places@[m]) < (#[trigger] places@[l]),
                forall|k: int|
                    0 <= k < i && self@.outcomes[k] is Ok ==> exists|m: int|
                        0 <= m < places@.len() && #[trigger] places@[m] == k,
            decreases n - i,
        {
            assert(self@.outcomes[i as int] == self.results@[i as int].1);
            assert(self@.apps[i as int] == *self.results@[i as int].0);
            if self.results[i].1.is_ok() {
                let ghost before = places@;
                let ghost group_before = group@;
                group.push(self.results[i].0);
                places.push(i);
                proof {
                    assert(group@.map_values(|app: &App| *app) =~= group_before.map_values(
                        |app: &App| *app,
                    ).push(self@.apps[i as int]));
                    assert forall|k: int| 0 <= k < i + 1 && self@.outcomes[k] is Ok implies exists|
                        m: int,
                    |
                        0 <= m < places@.len() && #[trigger] places@[m] == k by {
                        if k < i {
                            let m = choose|m: int| 0 <= m < before.len() && #[trigger] before[m] == k;
                            assert(places@[m] == k);
                        } else {
                            assert(places@[before.len() as int] == k);
                        }
                    }
                }
            }
            i += 1;
        }
        (group, places)
    }

    /// Map results in parallel. Apps that already have a failing result recorded
    /// are not fed to the mapping function.
    ///
    /// The step runs for all apps that have not failed, on the worker threads
    /// of `rayon`, and the call returns when all runs have ended. The
    /// outcomes are then recorded as `map` records them: in a batch that does
    /// not keep going, the first app that failed stops the batch and the
    /// apps behind it are marked as aborted.
    pub fn par_map<F>(&mut self, f: F) -> (batch: &mut Self) where
        F: Fn(&App) -> BuildResult + Send + Sync,

        requires
            forall|i: int|
                0 <= i < old(self)@.len() && old(self)@.outcomes[i] is Ok ==> call_requires(
                    f,
                    (&#[trigger] old(self)@.apps[i],),
                ),
        ensures
            old(self)@.mapped(f, batch@),
            *final(self) == *final(batch),
    {
        if self.aborted {
            return self;
        }
        let (group, places) = self.collect_pending();
        assert forall|m: int| 0 <= m < group@.len() implies call_requires(f, (#[trigger] group@[m],)) by {
            assert(*group@[m] == old(self)@.apps[places@[m] as int]);
        }
        let mut outcomes = run_concurrently(&group, &f);
        let ghost all = outcomes@;
        let total = places.len();
        let mut k: usize = 0;
        while k < total
            invariant
                k <= total,
                total == places@.len(),
                total == group@.len(),
                total == all.len(),
                outcomes@ == all.skip(k as int),
                !self.aborted,
                !old(self).aborted,
                self@.apps == old(self)@.apps,
                self@.keep_going == old(self)@.keep_going,
                self@.outcomes.len() == old(self)@.outcomes.len(),
                forall|m: int|
                    0 <= m < places@.len() ==> (#[trigger] places@[m]) < old(self)@.len() && old(
                        self,
                    )@.outcomes[places@[m] as int] is Ok && *group@[m] == old(
                        self,
                    )@.apps[places@[m] as int],
                forall|m: int, l: int|
                    0 <= m < l < places@.len() ==> (#[trigger] places@[m]) < (#[trigger] places@[l]),
                forall|i: int|
                    0 <= i < old(self)@.len() && old(self)@.outcomes[i] is Ok ==> exists|m: int|
                        0 <= m < places@.len() && #[trigger] places@[m] == i,
                forall|m: int| 0 <= m < total ==> call_ensures(f, (group@[m],), #[trigger] all[m]),
                forall|m: int|
                    0 <= m < k ==> self@.outcomes[(#[trigger] places@[m]) as int] == all[m] && (all[m] is Ok
                        || self@.keep_going),
                forall|i: int|
                    0 <= i < old(self)@.len() && (old(self)@.outcomes[i] is Err || (k < total
                        && places@[k as int] <= i)) ==> #[trigger] self@.outcomes[i] == old(
                        self,
                    )@.outcomes[i],
            decreases total - k,
        {
            let place = places[k];
            let outcome = outcomes.remove(0);
            assert(outcome == all[k as int]);
            let ghost before = self@;
            let stopped = self.record(place, outcome);
            proof {
                assert(outcomes@ =~= all.skip(k + 1));
                assert forall|m: int| 0 <= m < k implies self@.outcomes[(#[trigger] places@[m]) as int]
                    == all[m] && (all[m] is Ok || self@.keep_going) by {
                    assert(places@[m] < places@[k as int]);
                    assert(before.outcomes[places@[m] as int] == all[m]);
                }
                assert(self@.outcomes[places@[k as int] as int] == all[k as int]);
            }
            if stopped {
                proof {
                    let stop = place as int;
                    assert forall|i: int| 0 <= i < stop implies old(self)@.stepped(f, self@, i) && (
                    #[trigger] self@.outcomes[i] is Ok || old(self)@.outcomes[i] is Err) by {
                        if old(self)@.outcomes[i] is Ok {
                            let m = choose|m: int| 0 <= m < places@.len() && #[trigger] places@[m] == i;
                            if m >= k {
                                if m > k {
                                    assert(places@[k as int] < places@[m]);
                                }
                            }
                            assert(m < k);
                            assert(self@.outcomes[places@[m] as int] == all[m]);
                        } else {
                            assert(self@.outcomes[i] == before.outcomes[i]);
                        }
                    }
                    assert forall|i: int| stop < i < old(self)@.len() implies #[trigger] old(
                        self,
                    )@.skipped(self@, i) by {
                        assert(before.skipped(self@, i));
                        assert(before.outcomes[i] == old(self)@.outcomes[i]);
                    }
                    assert(old(self)@.halted_at(f, self@, stop));
                }
                return self;
            }
            proof {
                assert forall|m: int| 0 <= m < k + 1 implies self@.outcomes[(#[trigger] places@[m]) as int]
                    == all[m] && (all[m] is Ok || self@.keep_going) by {
                    if m < k {
                        assert(places@[m] < places@[k as int]);
                        assert(before.outcomes[places@[m] as int] == all[m]);
                    }
                }
                assert forall|i: int|
                    0 <= i < old(self)@.len() && (old(self)@.outcomes[i] is Err || (k + 1 < total
                        && places@[k + 1] <= i)) implies #[trigger] self@.outcomes[i] == old(
                    self,
                )@.outcomes[i] by {
                    if old(self)@.outcomes[i] is Err {
                        if i == place {
                        } else if i < place {
                            assert(self@.outcomes[i] == before.outcomes[i]);
                        } else {
                            assert(self@.outcomes[i] == before.outcomes[i]);
                        }
                    } else {
                        assert(places@[k as int] < places@[k + 1]);
                        assert(self@.outcomes[i] == before.outcomes[i]);
                    }
                }
            }
            k += 1;
        }
        proof {
            assert forall|i: int| 0 <= i < old(self)@.len() implies #[trigger] old(self)@.stepped(
                f,
                self@,
                i,
            ) && (self@.outcomes[i] is Ok || old(self)@.outcomes[i] is Err || self@.keep_going) by {
                if old(self)@.outcomes[i] is Ok {
                    let m = choose|m: int| 0 <= m < places@.len() && #[trigger] places@[m] == i;
                    assert(self@.outcomes[places@[m] as int] == all[m]);
                    assert(call_ensures(f, (group@[m],), all[m]));
                }
            }
            if !self@.keep_going {
                assert(old(self)@.halted_at(f, self@, old(self)@.len()));
            }
        }
        self
    }

    /// Execute a function of all the apps that have not failed.
    /// The returned result is set to all apps, ie, either they
    /// all succeed, or they all fail for the same reason.
    ///
    /// The function is not run for a batch that was stopped or in which
    /// every app has failed. Where it fails in a batch that does not keep
    /// going, the batch is stopped.
    pub fn gather<F>(&mut self, f: F) -> (batch: &mut Self) where
        F: FnOnce(&Vec<&App>) -> BuildResult,

        requires
            !old(self)@.aborted && old(self)@.pending(old(self)@.len()).len() > 0 ==> forall|
                group: &Vec<&App>,
            |
                group@.map_values(|app: &App| *app) == old(self)@.pending(old(self)@.len())
                    ==> call_requires(f, (group,)),
        ensures
            old(self)@.gathered(f, batch@),
            *final(self) == *final(batch),
    {
        if self.aborted {
            return self;
        }
        // collect all apps that have not yet failed.
        let (vec, places) = self.collect_pending();
        if vec.len() == 0 {
            return self;
        }
        match f(&vec) {
            Ok(()) => {
                /* Do nothing, all apps have succeeded. */
                assert(old(self)@.gathered(f, self@));
            },
            Err(e) => {
                self.fail_pending(e);
                if !self.keep_going {
                    self.aborted = true;
                }
                proof {
                    let shared = choose|shared: Arc<LingoError>| #[trigger]
                        shares(shared, e) && old(self)@.all_receive(shared, self@);
                    assert(old(self)@.all_receive(shared, self@));
                    assert(old(self)@.broadcast(e, self@));
                    assert(old(self)@.gathered(f, self@));
                }
            },
        }
        self
    }

    /// Puts one more entry into entries that are sorted by name.
    fn insert_sorted(sorted: &mut Vec<(&'a App, BuildResult)>, entry: (&'a App, BuildResult))
        ensures
            entry_values(final(sorted)@) == inserted(
                entry_values(old(sorted)@),
                (*entry.0, entry.1),
            ),
    {
        let ghost start = entry_values(sorted@);
        let ghost value = (*entry.0, entry.1);
        let mut p: usize = sorted.len();
        proof {
            assert(start.take(p as int) =~= start);
            assert(start.skip(p as int) =~= Seq::empty());
        }
        while p > 0 && !le(sorted[p - 1].0.name.as_str(), entry.0.name.as_str())
            invariant
                p <= sorted@.len(),
                start == entry_values(sorted@),
                value == (*entry.0, entry.1),
                inserted(start, value) == inserted(start.take(p as int), value) + start.skip(p as int),
            decreases p,
        {
            proof {
                let head = start.take(p as int);
                assert(head.last() == start[p - 1]);
                assert(head.drop_last() =~= start.take(p - 1));
                assert(inserted(head, value) == inserted(head.drop_last(), value).push(head.last()));
                assert(inserted(head.drop_last(), value).push(head.last()) + start.skip(p as int)
                    =~= inserted(head.drop_last(), value) + start.skip(p - 1));
            }
            p -= 1;
        }
        proof {
            let head = start.take(p as int);
            if p > 0 {
                assert(head.last() == start[p - 1]);
                assert(text_le(head.last().0.name@, value.0.name@));
                assert(inserted(head, value) == head.push(value));
            } else {
                assert(inserted(head, value) =~= seq![value]);
            }
        }
        sorted.insert(p, entry);
        proof {
            assert(entry_values(sorted@) =~= start.take(p as int).push(value) + start.skip(p as int));
        }
    }

    /// Absorb some results into this vector. Apps are not deduplicated, so this
    /// is only ok if the other is disjoint from this result.
    ///
    /// All entries are then sorted by the name of their app, and entries of
    /// apps with the same name keep their order. The batch is stopped if
    /// either of the two was.
    pub fn append(&mut self, other: BatchBuildResults<'a>)
        ensures
            final(self)@.wf(),
            final(self)@.entries() == sorted_by_name(old(self)@.entries() + other@.entries()),
            final(self)@.keep_going == old(self)@.keep_going,
            final(self)@.aborted == (old(self)@.aborted || other@.aborted),
    {
        let BatchBuildResults { results: mut rest, keep_going: _, aborted } = other;
        let ghost joined = entry_values(self.results@) + entry_values(rest@);
        proof {
            assert(old(self)@.entries() =~= entry_values(self.results@));
            assert(other@.entries() =~= entry_values(rest@));
        }
        let mut sorted: Vec<(&'a App, BuildResult)> = Vec::new();
        let ghost mut done: int = 0;
        assert(joined.take(0) =~= Seq::empty());
        while self.results.len() > 0
            invariant
                0 <= done,
                joined.len() == done + self.results@.len() + rest@.len(),
                joined.skip(done) == entry_values(self.results@) + entry_values(rest@),
                entry_values(sorted@) == sorted_by_name(joined.take(done)),
                self.keep_going == old(self).keep_going,
                self.aborted == old(self).aborted,
            decreases self.results@.len(),
        {
            let ghost before = self.results@;
            let entry = self.results.remove(0);
            proof {
                assert(entry_values(before)[0] == (*entry.0, entry.1));
                assert(joined[done] == joined.skip(done)[0]);
                assert(joined.take(done + 1).drop_last() =~= joined.take(done));
                assert(joined.take(done + 1).last() == (*entry.0, entry.1));
                assert(self.results@ =~= before.skip(1));
                assert(entry_values(self.results@) =~= entry_values(before).skip(1));
                assert(joined.skip(done + 1) =~= joined.skip(done).skip(1));
                assert(joined.skip(done + 1) =~= entry_values(self.results@) + entry_values(rest@));
            }
            Self::insert_sorted(&mut sorted, entry);
            proof {
                done = done + 1;
            }
        }
        while rest.len() > 0
            invariant
                self.results@.len() == 0,
                0 <= done,
                joined.len() == done + rest@.len(),
                joined.skip(done) == entry_values(rest@),
                entry_values(sorted@) == sorted_by_name(joined.take(done)),
                self.keep_going == old(self).keep_going,
                self.aborted == old(self).aborted,
            decreases rest@.len(),
        {
            let ghost before = rest@;
            let entry = rest.remove(0);
            proof {
                assert(entry_values(before)[0] == (*entry.0, entry.1));
                assert(joined[done] == joined.skip(done)[0]);
                assert(joined.take(done + 1).drop_last() =~= joined.take(done));
                assert(joined.take(done + 1).last() == (*entry.0, entry.1));
                assert(rest@ =~= before.skip(1));
                assert(entry_values(rest@) =~= entry_values(before).skip(1));
                assert(joined.skip(done + 1) =~= joined.skip(done).skip(1));
            }
            Self::insert_sorted(&mut sorted, entry);
            proof {
                done = done + 1;
            }
        }
        proof {
            assert(joined.take(done) =~= joined);
        }
        self.results = sorted;
        if aborted {
            self.aborted = true;
        }
        proof {
            assert(self@.entries() =~= entry_values(self.results@));
        }
    }
}


/// The apps of a project that one backend builds together: those of one
/// build system and one target language.
pub struct AppGroup<'a> {
    pub build_system: BuildSystem,
    pub target: TargetLanguage,
    pub apps: Vec<&'a App>,
}

impl<'a> AppGroup<'a> {
    /// The apps of the group.
    pub open spec fn members(self) -> Seq<App> {
        self.apps@.map_values(|app: &App| *app)
    }
}

/// The apps of all groups, group by group.
pub open spec fn all_members(groups: Seq<AppGroup>) -> Seq<App>
    decreases groups.len(),
{
    if groups.len() == 0 {
        Seq::empty()
    } else {
        all_members(groups.drop_last()) + groups.last().members()
    }
}

/// Whether the groups are the apps, grouped by build system and target
/// language: every app belongs to exactly one group, no group is empty, no
/// two groups are of the same build system and target language, and every
/// app lies in the group of its own build system and target language.
pub open spec fn grouped(apps: Seq<App>, systems: Seq<BuildSystem>, groups: Seq<AppGroup>) -> bool {
    &&& all_members(groups).to_multiset() == apps.to_multiset()
    &&& forall|g: int| 0 <= g < groups.len() ==> (#[trigger] groups[g]).apps@.len() > 0
    &&& forall|g: int, h: int|
        0 <= g < h < groups.len() ==> (#[trigger] groups[g]).build_system != (
        #[trigger] groups[h]).build_system || groups[g].target != groups[h].target
    &&& forall|g: int, m: int|
        0 <= g < groups.len() && 0 <= m < groups[g].apps@.len() ==> #[trigger] placed(
            apps,
            systems,
            apps.len() as int,
            groups[g],
            m,
        )
}

/// Whether the app at `m` of a group is one of the first `n` apps of the
/// project and lies in the group of its own build system and target
/// language.
pub open spec fn placed(apps: Seq<App>, systems: Seq<BuildSystem>, n: int, group: AppGroup, m: int) -> bool {
    exists|i: int|
        0 <= i < n && #[trigger] apps[i] == *group.apps@[m] && systems[i] == group.build_system
            && apps[i].target == group.target
}

/// Whether the app at `i` of the project is built with `system` for
/// `target`.
pub open spec fn built_as(
    apps: Seq<App>,
    systems: Seq<BuildSystem>,
    i: int,
    system: BuildSystem,
    target: TargetLanguage,
) -> bool {
    0 <= i < apps.len() && systems[i] == system && apps[i].target == target
}

/// The apps among the first `n` of the project that are built with `system`
/// for `target`, in the order in which they stand there.
pub open spec fn members_of(
    apps: Seq<App>,
    systems: Seq<BuildSystem>,
    n: int,
    system: BuildSystem,
    target: TargetLanguage,
) -> Seq<App>
    decreases n,
{
    if n <= 0 {
        Seq::empty()
    } else if built_as(apps, systems, n - 1, system, target) {
        members_of(apps, systems, n - 1, system, target).push(apps[n - 1])
    } else {
        members_of(apps, systems, n - 1, system, target)
    }
}

/// Whether the groups keep the order of the first `n` apps of the project:
/// each group holds all of them that it is for, in the order in which they
/// stand in the project, each of them has a group, and of two groups the
/// one comes first whose first app comes first.
pub open spec fn in_project_order(
    apps: Seq<App>,
    systems: Seq<BuildSystem>,
    n: int,
    groups: Seq<AppGroup>,
) -> bool {
    &&& forall|g: int|
        0 <= g < groups.len() ==> (#[trigger] groups[g]).members() == members_of(
            apps,
            systems,
            n,
            groups[g].build_system,
            groups[g].target,
        )
    &&& forall|i: int| 0 <= i < n ==> #[trigger] has_group(apps, systems, i, groups)
    &&& forall|g: int, h: int|
        0 <= g < h < groups.len() ==> leads(apps, systems, n, #[trigger] groups[g], #[trigger] groups[h])
}

/// Whether one of the groups is for the app at `i` of the project.
pub open spec fn has_group(apps: Seq<App>, systems: Seq<BuildSystem>, i: int, groups: Seq<AppGroup>) -> bool {
    exists|g: int|
        0 <= g < groups.len() && built_as(
            apps,
            systems,
            i,
            (#[trigger] groups[g]).build_system,
            groups[g].target,
        )
}

/// Whether an app of the group `first` stands among the first `n` apps of
/// the project before every app of the group `second` among them.
pub open spec fn leads(
    apps: Seq<App>,
    systems: Seq<BuildSystem>,
    n: int,
    first: AppGroup,
    second: AppGroup,
) -> bool {
    exists|a: int|
        0 <= a < n && #[trigger] built_as(apps, systems, a, first.build_system, first.target)
            && forall|b: int|
            0 <= b < n && #[trigger] built_as(apps, systems, b, second.build_system, second.target)
                ==> a < b
}

/// Where none of the first `n` apps is built with `system` for `target`,
/// the group for them is empty.
proof fn lemma_members_none(
    apps: Seq<App>,
    systems: Seq<BuildSystem>,
    n: int,
    system: BuildSystem,
    target: TargetLanguage,
)
    requires
        n <= apps.len(),
        forall|i: int| 0 <= i < n ==> !built_as(apps, systems, i, system, target),
    ensures
        members_of(apps, systems, n, system, target).len() == 0,
    decreases n,
{
    if n > 0 {
        lemma_members_none(apps, systems, n - 1, system, target);
    }
}

/// One more app in one of the groups is one more app among all.
proof fn lemma_members_extend(groups: Seq<AppGroup>, g: int, extended: AppGroup, app: App)
    requires
        0 <= g < groups.len(),
        extended.members() == groups[g].members().push(app),
    ensures
        all_members(groups.update(g, extended)).to_multiset() == all_members(
            groups,
        ).to_multiset().insert(app),
    decreases groups.len(),
{
    broadcast use vstd::multiset::group_multiset_axioms;

    let changed = groups.update(g, extended);
    let rest = groups.drop_last();
    if g == groups.len() - 1 {
        assert(changed.drop_last() =~= rest);
        assert(all_members(changed) =~= all_members(groups).push(app));
        to_multiset_build(all_members(groups), app);
    } else {
        assert(changed.drop_last() =~= rest.update(g, extended));
        assert(changed.last() == groups.last());
        lemma_members_extend(rest, g, extended, app);
        lemma_multiset_commutative(all_members(changed.drop_last()), groups.last().members());
        lemma_multiset_commutative(all_members(rest), groups.last().members());
        assert(all_members(changed).to_multiset() =~= all_members(groups).to_multiset().insert(app));
    }
}

/// Groups the apps of a project by build system and target language. The
/// groups stand in the order in which their first apps stand, and the apps
/// of a group in the order in which they stand in the project.
pub fn group_apps<'a>(apps: &'a Vec<App>, systems: &Vec<BuildSystem>) -> (groups: Vec<AppGroup<'a>>)
    requires
        systems@.len() == apps@.len(),
    ensures
        grouped(apps@, systems@, groups@),
        in_project_order(apps@, systems@, apps@.len() as int, groups@),
{
    broadcast use vstd::multiset::group_multiset_axioms;

    let mut groups: Vec<AppGroup<'a>> = Vec::new();
    let mut i: usize = 0;
    assert(apps@.take(0) =~= Seq::empty());
    while i < apps.len()
        invariant
            i <= apps@.len(),
            systems@.len() == apps@.len(),
            in_project_order(apps@, systems@, i as int, groups@),
            all_members(groups@).to_multiset() == apps@.take(i as int).to_multiset(),
            forall|g: int| 0 <= g < groups@.len() ==> (#[trigger] groups@[g]).apps@.len() > 0,
            forall|g: int, h: int|
                0 <= g < h < groups@.len() ==> (#[trigger] groups@[g]).build_system != (
                #[trigger] groups@[h]).build_system || groups@[g].target != groups@[h].target,
            forall|g: int, m: int|
                0 <= g < groups@.len() && 0 <= m < groups@[g].apps@.len() ==> #[trigger] placed(
                    apps@,
                    systems@,
                    i as int,
                    groups@[g],
                    m,
                ),
        decreases apps@.len() - i,
    {
        let app = &apps[i];
        let system = systems[i];
        let ghost before = groups@;
        proof {
            assert(apps@.take(i + 1) =~= apps@.take(i as int).push(*app));
            to_multiset_build(apps@.take(i as int), *app);
        }
        let mut g: usize = 0;
        let mut found = false;
        while g < groups.len()
            invariant_except_break
                !found,
                forall|h: int|
                    0 <= h < g ==> (#[trigger] groups@[h]).build_system != system || groups@[h].target
                        != app.target,
            invariant
                g <= groups@.len(),
                groups@ == before,
            ensures
                g <= groups@.len(),
                groups@ == before,
                found ==> g < groups@.len() && groups@[g as int].build_system == system
                    && groups@[g as int].target == app.target,
                !found ==> forall|h: int|
                    0 <= h < groups@.len() ==> (#[trigger] groups@[h]).build_system != system
                        || groups@[h].target != app.target,
            decreases groups@.len() - g,
        {
            if groups[g].build_system == system && groups[g].target == app.target {
                found = true;
                break ;
            }
            g += 1;
        }
        if found {
            let mut group = groups.remove(g);
            let ghost old_group = group;
            group.apps.push(app);
            let ghost new_group = group;
            groups.insert(g, group);
            proof {
                assert(groups@ =~= before.update(g as int, new_group));
                assert(new_group.members() =~= old_group.members().push(*app));
                lemma_members_extend(before, g as int, new_group, *app);
                lemma_order_joined(apps@, systems@, i as int, before, g as int, new_group);
                assert forall|h: int, m: int|
                    0 <= h < groups@.len() && 0 <= m < groups@[h].apps@.len() implies #[trigger] placed(
                    apps@,
                    systems@,
                    i + 1,
                    groups@[h],
                    m,
                ) by {
                    if h == g && m == old_group.apps@.len() {
                        assert(apps@[i as int] == *groups@[h].apps@[m]);
                    } else {
                        assert(groups@[h].apps@[m] == before[h].apps@[m]);
                        assert(placed(apps@, systems@, i as int, before[h], m));
                        let k = choose|k: int|
                            0 <= k < i && #[trigger] apps@[k] == *before[h].apps@[m] && systems@[k]
                                == before[h].build_system && apps@[k].target == before[h].target;
                        assert(apps@[k] == *groups@[h].apps@[m]);
                    }
                }
            }
        } else {
            let mut members: Vec<&'a App> = Vec::new();
            members.push(app);
            let group = AppGroup { build_system: system, target: app.target, apps: members };
            let ghost new_group = group;
            groups.push(group);
            proof {
                assert(groups@.drop_last() =~= before);
                assert(new_group.members() =~= seq![*app]);
                assert(all_members(groups@) =~= all_members(before).push(*app));
                to_multiset_build(all_members(before), *app);
                lemma_order_opened(apps@, systems@, i as int, before, new_group);
                assert forall|h: int, m: int|
                    0 <= h < groups@.len() && 0 <= m < groups@[h].apps@.len() implies #[trigger] placed(
                    apps@,
                    systems@,
                    i + 1,
                    groups@[h],
                    m,
                ) by {
                    if h == before.len() {
                        assert(apps@[i as int] == *groups@[h].apps@[m]);
                    } else {
                        assert(groups@[h] == before[h]);
                        assert(placed(apps@, systems@, i as int, before[h], m));
                        let k = choose|k: int|
                            0 <= k < i && #[trigger] apps@[k] == *before[h].apps@[m] && systems@[k]
                                == before[h].build_system && apps@[k].target == before[h].target;
                        assert(apps@[k] == *groups@[h].apps@[m]);
                    }
                }
            }
        }
        i += 1;
    }
    assert(apps@.take(i as int) =~= apps@);
    groups
}


/// The groups keep the order of the project when the next app joins the
/// group that is for it.
proof fn lemma_order_joined(
    apps: Seq<App>,
    systems: Seq<BuildSystem>,
    i: int,
    before: Seq<AppGroup>,
    g: int,
    extended: AppGroup,
)
    requires
        0 <= i < apps.len(),
        systems.len() == apps.len(),
        in_project_order(apps, systems, i, before),
        0 <= g < before.len(),
        built_as(apps, systems, i, before[g].build_system, before[g].target),
        extended.build_system == before[g].build_system,
        extended.target == before[g].target,
        extended.members() == before[g].members().push(apps[i]),
        forall|g: int, h: int|
            0 <= g < h < before.len() ==> (#[trigger] before[g]).build_system != (
            #[trigger] before[h]).build_system || before[g].target != before[h].target,
    ensures
        in_project_order(apps, systems, i + 1, before.update(g, extended)),
{
    let after = before.update(g, extended);
    assert forall|h: int| 0 <= h < after.len() implies (#[trigger] after[h]).members()
        == members_of(apps, systems, i + 1, after[h].build_system, after[h].target) by {
        if h != g {
            assert(after[h] == before[h]);
            if h < g {
                assert(before[h].build_system != before[g].build_system || before[h].target
                    != before[g].target);
            } else {
                assert(before[g].build_system != before[h].build_system || before[g].target
                    != before[h].target);
            }
        }
    }
    assert forall|k: int| 0 <= k < i + 1 implies #[trigger] has_group(apps, systems, k, after) by {
        if k == i {
            assert(built_as(apps, systems, k, after[g].build_system, after[g].target));
        } else {
            assert(has_group(apps, systems, k, before));
            let h = choose|h: int|
                0 <= h < before.len() && built_as(
                    apps,
                    systems,
                    k,
                    (#[trigger] before[h]).build_system,
                    before[h].target,
                );
            assert(built_as(apps, systems, k, after[h].build_system, after[h].target));
        }
    }
    assert forall|f: int, h: int| 0 <= f < h < after.len() implies leads(
        apps,
        systems,
        i + 1,
        #[trigger] after[f],
        #[trigger] after[h],
    ) by {
        assert(leads(apps, systems, i, before[f], before[h]));
        let a = choose|a: int|
            0 <= a < i && #[trigger] built_as(
                apps,
                systems,
                a,
                before[f].build_system,
                before[f].target,
            ) && forall|b: int|
                0 <= b < i && #[trigger] built_as(
                    apps,
                    systems,
                    b,
                    before[h].build_system,
                    before[h].target,
                ) ==> a < b;
        assert(built_as(apps, systems, a, after[f].build_system, after[f].target));
    }
}

/// The groups keep the order of the project when the next app opens a
/// group of its own behind them, none of them being for it.
proof fn lemma_order_opened(
    apps: Seq<App>,
    systems: Seq<BuildSystem>,
    i: int,
    before: Seq<AppGroup>,
    opened: AppGroup,
)
    requires
        0 <= i < apps.len(),
        systems.len() == apps.len(),
        in_project_order(apps, systems, i, before),
        built_as(apps, systems, i, opened.build_system, opened.target),
        opened.members() == seq![apps[i]],
        forall|g: int| 0 <= g < before.len() ==> (#[trigger] before[g]).apps@.len() > 0,
        forall|h: int|
            0 <= h < before.len() ==> (#[trigger] before[h]).build_system != opened.build_system
                || before[h].target != opened.target,
    ensures
        in_project_order(apps, systems, i + 1, before.push(opened)),
{
    let after = before.push(opened);
    assert forall|k: int| 0 <= k < i implies !built_as(
        apps,
        systems,
        k,
        opened.build_system,
        opened.target,
    ) by {
        if built_as(apps, systems, k, opened.build_system, opened.target) {
            assert(has_group(apps, systems, k, before));
            let h = choose|h: int|
                0 <= h < before.len() && built_as(
                    apps,
                    systems,
                    k,
                    (#[trigger] before[h]).build_system,
                    before[h].target,
                );
            assert(before[h].build_system != opened.build_system || before[h].target
                != opened.target);
        }
    }
    lemma_members_none(apps, systems, i, opened.build_system, opened.target);
    assert forall|h: int| 0 <= h < after.len() implies (#[trigger] after[h]).members()
        == members_of(apps, systems, i + 1, after[h].build_system, after[h].target) by {
        if h < before.len() {
            assert(after[h] == before[h]);
        } else {
            assert(members_of(apps, systems, i + 1, opened.build_system, opened.target)
                =~= seq![apps[i]]);
        }
    }
    assert forall|k: int| 0 <= k < i + 1 implies #[trigger] has_group(apps, systems, k, after) by {
        if k == i {
            assert(after[before.len() as int] == opened);
            assert(built_as(
                apps,
                systems,
                k,
                after[before.len() as int].build_system,
                after[before.len() as int].target,
            ));
        } else {
            assert(has_group(apps, systems, k, before));
            let h = choose|h: int|
                0 <= h < before.len() && built_as(
                    apps,
                    systems,
                    k,
                    (#[trigger] before[h]).build_system,
                    before[h].target,
                );
            assert(after[h] == before[h]);
            assert(built_as(apps, systems, k, after[h].build_system, after[h].target));
        }
    }
    assert forall|f: int, h: int| 0 <= f < h < after.len() implies leads(
        apps,
        systems,
        i + 1,
        #[trigger] after[f],
        #[trigger] after[h],
    ) by {
        assert(after[f] == before[f]);
        if h < before.len() {
            assert(after[h] == before[h]);
            assert(leads(apps, systems, i, before[f], before[h]));
            let a = choose|a: int|
                0 <= a < i && #[trigger] built_as(
                    apps,
                    systems,
                    a,
                    before[f].build_system,
                    before[f].target,
                ) && forall|b: int|
                    0 <= b < i && #[trigger] built_as(
                        apps,
                        systems,
                        b,
                        before[h].build_system,
                        before[h].target,
                    ) ==> a < b;
            assert(built_as(apps, systems, a, after[f].build_system, after[f].target));
        } else {
            lemma_member_is_built(apps, systems, i, before[f].build_system, before[f].target);
            let a = choose|a: int|
                0 <= a < i && built_as(apps, systems, a, before[f].build_system, before[f].target);
            assert(built_as(apps, systems, a, after[f].build_system, after[f].target));
        }
    }
}

/// A group that is not empty is for one of the apps.
proof fn lemma_member_is_built(
    apps: Seq<App>,
    systems: Seq<BuildSystem>,
    n: int,
    system: BuildSystem,
    target: TargetLanguage,
)
    requires
        members_of(apps, systems, n, system, target).len() > 0,
    ensures
        exists|a: int| 0 <= a < n && built_as(apps, systems, a, system, target),
    decreases n,
{
    if n > 0 {
        if built_as(apps, systems, n - 1, system, target) {
        } else {
            lemma_member_is_built(apps, systems, n - 1, system, target);
            let a = choose|a: int| 0 <= a < n - 1 && built_as(apps, systems, a, system, target);
            assert(0 <= a < n && built_as(apps, systems, a, system, target));
        }
    }
}

impl BatchView {
    /// Whether every app for Zephyr has failed: such apps are built with
    /// west and never reach a backend.
    pub open spec fn zephyr_refused(self) -> bool {
        forall|i: int|
            0 <= i < self.len() && (#[trigger] self.apps[i]).platform == Platform::Zephyr
                ==> self.outcomes[i] is Err
    }
}

/// Whether `after` is the app `before` with the CMake code of the libraries
/// merged into its own.
pub open spec fn enriched(before: App, code: Seq<char>, after: App) -> bool {
    &&& after.root_path == before.root_path
    &&& after.name == before.name
    &&& after.output_root == before.output_root
    &&& after.main_reactor == before.main_reactor
    &&& after.main_reactor_name == before.main_reactor_name
    &&& after.target == before.target
    &&& after.platform == before.platform
    &&& after.properties.fast == before.properties.fast
    &&& after.properties.cmake_include@ == merged(before.properties.cmake_include@, code)
}

/// Whether `after` are the apps `before`, each with the CMake code of the
/// libraries merged into its own.
pub open spec fn all_enriched(before: Seq<App>, code: Seq<char>, after: Seq<App>) -> bool {
    &&& after.len() == before.len()
    &&& forall|i: int| 0 <= i < before.len() ==> enriched(#[trigger] before[i], code, after[i])
}

/// Merges the properties of the libraries into every app.
pub fn enrich(apps: &mut Vec<App>, library_properties: &crate::package::target_properties::LibraryTargetProperties)
    ensures
        all_enriched(old(apps)@, library_properties.cmake_include@, final(apps)@),
{
    let ghost before = apps@;
    let mut merged_apps: Vec<App> = Vec::new();
    while apps.len() > 0
        invariant
            merged_apps@.len() + apps@.len() == before.len(),
            apps@ == before.skip(merged_apps@.len() as int),
            forall|i: int|
                0 <= i < merged_apps@.len() ==> enriched(
                    #[trigger] before[i],
                    library_properties.cmake_include@,
                    merged_apps@[i],
                ),
        decreases apps@.len(),
    {
        let mut app = apps.remove(0);
        assert(app == before[merged_apps@.len() as int]);
        // merging app with library target properties
        let _ = app.properties.merge(library_properties);
        merged_apps.push(app);
        assert(apps@ =~= before.skip(merged_apps@.len() as int));
    }
    *apps = merged_apps;
}

/// A step that fails for every Zephyr app leaves a fresh batch with every
/// Zephyr app failed.
proof fn lemma_checked_refuses<F: Fn(&App) -> BuildResult>(before: BatchView, f: F, after: BatchView)
    requires
        before.wf(),
        !before.aborted,
        forall|i: int| 0 <= i < before.len() ==> #[trigger] before.outcomes[i] is Ok,
        before.mapped(f, after),
        forall|app: &App, outcome: BuildResult| #[trigger]
            call_ensures(f, (app,), outcome) && app.platform == Platform::Zephyr ==> outcome is Err,
    ensures
        after.zephyr_refused(),
        before.continued(after),
{
    lemma_mapped_continues(before, f, after);
    if before.keep_going {
        assert forall|i: int|
            0 <= i < after.len() && (#[trigger] after.apps[i]).platform
                == Platform::Zephyr implies after.outcomes[i] is Err by {
            assert(before.outcomes[i] is Ok);
            assert(before.stepped(f, after, i));
        }
    } else {
        let stop = choose|stop: int| before.halted_at(f, after, stop);
        assert forall|i: int|
            0 <= i < after.len() && (#[trigger] after.apps[i]).platform
                == Platform::Zephyr implies after.outcomes[i] is Err by {
            assert(before.outcomes[i] is Ok);
            if i < stop {
                assert(before.stepped(f, after, i));
            } else if i > stop {
                assert(before.skipped(after, i));
            }
        }
    }
}

/// Further steps leave every Zephyr app failed.
proof fn lemma_continued_refuses(before: BatchView, after: BatchView)
    requires
        before.wf(),
        before.zephyr_refused(),
        before.continued(after),
    ensures
        after.zephyr_refused(),
{
    assert forall|i: int|
        0 <= i < after.len() && (#[trigger] after.apps[i]).platform
            == Platform::Zephyr implies after.outcomes[i] is Err by {
        assert(before.apps[i].platform == Platform::Zephyr);
        assert(after.outcomes[i] == before.outcomes[i]);
    }
}

/// What merging a group into the results keeps: the order by name, one
/// entry for every app, and the failure of every Zephyr app.
proof fn lemma_merge_step(before: BatchView, sub: BatchView, after: BatchView, members: Seq<App>)
    requires
        before.wf(),
        sub.wf(),
        after.wf(),
        after.entries() == sorted_by_name(before.entries() + sub.entries()),
        before.zephyr_refused(),
        sub.zephyr_refused(),
        before.apps.to_multiset() == members.to_multiset(),
    ensures
        ordered_by_name(after.entries()),
        after.apps.to_multiset() == (members + sub.apps).to_multiset(),
        after.zephyr_refused(),
{
    broadcast use vstd::multiset::group_multiset_axioms;

    let joined = before.entries() + sub.entries();
    lemma_sorted_ordered(joined);
    lemma_sorted_permutes(joined);
    assert(apps_of(after.entries()) =~= after.apps);
    assert(apps_of(joined) =~= before.apps + sub.apps);
    lemma_multiset_commutative(before.apps, sub.apps);
    lemma_multiset_commutative(members, sub.apps);
    assert(after.apps.to_multiset() =~= (members + sub.apps).to_multiset());
    assert forall|i: int|
        0 <= i < after.len() && (#[trigger] after.apps[i]).platform
            == Platform::Zephyr implies after.outcomes[i] is Err by {
        let entry = after.entries()[i];
        assert(after.entries().contains(entry));
        to_multiset_contains(after.entries(), entry);
        to_multiset_contains(joined, entry);
        assert(joined.contains(entry));
        let k = choose|k: int| 0 <= k < joined.len() && joined[k] == entry;
        if k < before.entries().len() {
            assert(joined[k] == before.entries()[k]);
            assert(before.apps[k].platform == Platform::Zephyr);
        } else {
            let m = k - before.entries().len();
            assert(joined[k] == sub.entries()[m]);
            assert(sub.apps[m].platform == Platform::Zephyr);
        }
    }
}

/// One more batch at the end of the batches leaves what was merged and
/// what was run before as it was.
proof fn lemma_subs_extend<R>(
    subs: Seq<BatchView>,
    sub: BatchView,
    groups: Seq<AppGroup>,
    command: CommandSpec,
    run: R,
    g: int,
) where R: Fn(&Action) -> BuildResult
    requires
        subs.len() == g,
        0 <= g < groups.len(),
        forall|k: int|
            0 <= k < g ==> group_run(
                groups[k],
                command,
                run,
                stopped_before(subs, k),
                #[trigger] subs[k],
            ),
        group_run(groups[g], command, run, stopped_before(subs, g), sub),
    ensures
        merged_results(subs.push(sub), g + 1) == sorted_by_name(
            merged_results(subs, g) + sub.entries(),
        ),
        stopped_before(subs.push(sub), g + 1) == (stopped_before(subs, g) || sub.aborted),
        forall|k: int|
            0 <= k < g + 1 ==> group_run(
                groups[k],
                command,
                run,
                stopped_before(subs.push(sub), k),
                #[trigger] subs.push(sub)[k],
            ),
{
    let longer = subs.push(sub);
    lemma_merged_prefix(subs, longer, g);
    assert forall|k: int| 0 <= k <= g implies stopped_before(longer, k) == stopped_before(subs, k) by {
        if stopped_before(longer, k) {
            let w = choose|w: int| 0 <= w < k && (#[trigger] longer[w]).aborted;
            assert(subs[w].aborted);
        }
        if stopped_before(subs, k) {
            let w = choose|w: int| 0 <= w < k && (#[trigger] subs[w]).aborted;
            assert(longer[w].aborted);
        }
    }
    if stopped_before(longer, g + 1) {
        let w = choose|w: int| 0 <= w < g + 1 && (#[trigger] longer[w]).aborted;
        if w < g {
            assert(subs[w].aborted);
        }
    }
    if stopped_before(subs, g) {
        let w = choose|w: int| 0 <= w < g && (#[trigger] subs[w]).aborted;
        assert(longer[w].aborted);
    }
    if sub.aborted {
        assert(longer[g].aborted);
    }
    assert forall|k: int| 0 <= k < g + 1 implies group_run(
        groups[k],
        command,
        run,
        stopped_before(longer, k),
        #[trigger] longer[k],
    ) by {
        if k < g {
            assert(longer[k] == subs[k]);
            assert(group_run(groups[k], command, run, stopped_before(subs, k), subs[k]));
        }
    }
}

/// What is merged from the first batches does not depend on the batches
/// behind them.
proof fn lemma_merged_prefix(subs: Seq<BatchView>, longer: Seq<BatchView>, n: int)
    requires
        0 <= n <= subs.len() <= longer.len(),
        forall|k: int| 0 <= k < n ==> #[trigger] longer[k] == subs[k],
    ensures
        merged_results(longer, n) == merged_results(subs, n),
    decreases n,
{
    if n > 0 {
        lemma_merged_prefix(subs, longer, n - 1);
        assert(longer[n - 1] == subs[n - 1]);
    }
}

/// The one outcome of an app for which there is no backend.
pub open spec fn unsupported_step() -> spec_fn(App, BuildResult) -> bool {
    |app: App, outcome: BuildResult|
        outcome == Err::<(), LingoError>(LingoError::UnsupportedBuildSystem)
}

/// Whether `after` is the batch `before` after the command was run by the
/// backend of the build system and the target language: CMake builds C and
/// C++, npm and pnpm build TypeScript, the code generator alone builds
/// whatever it is the build system of, and every other pair fails.
pub open spec fn dispatched<R>(
    build_system: BuildSystem,
    target: TargetLanguage,
    command: CommandSpec,
    before: BatchView,
    run: R,
    after: BatchView,
) -> bool where R: Fn(&Action) -> BuildResult {
    match (build_system, target) {
        (BuildSystem::CMake, TargetLanguage::Cpp) => cmake_cpp::executed(command, before, run, after),
        (BuildSystem::CMake, TargetLanguage::C) => cmake_c::executed(command, before, run, after),
        (BuildSystem::Npm, TargetLanguage::TypeScript) => npm::executed(command, before, run, after),
        (BuildSystem::Pnpm, TargetLanguage::TypeScript) => pnpm::executed(
            command,
            before,
            run,
            after,
        ),
        (BuildSystem::LFC, _) => lfc::executed(command, before, run, after),
        _ => before.mapped_by(unsupported_step(), after),
    }
}

/// Hands a group to the backend of its build system and target language.
/// A group for which there is no backend fails as a whole.
pub fn dispatch<R>(
    build_system: BuildSystem,
    target: TargetLanguage,
    command: &CommandSpec,
    results: &mut BatchBuildResults,
    run: &R,
) where R: Fn(&Action) -> BuildResult + Send + Sync
    requires
        forall|action: &Action| call_requires(*run, (action,)),
    ensures
        old(results)@.continued(final(results)@),
        dispatched(build_system, target, *command, old(results)@, *run, final(results)@),
{
    match (build_system, target) {
        (BuildSystem::CMake, TargetLanguage::Cpp) => {
            let mut backend = cmake_cpp::CmakeCpp;
            backend.execute_command(command, results, run)
        },
        (BuildSystem::CMake, TargetLanguage::C) => {
            let mut backend = cmake_c::CmakeC;
            backend.execute_command(command, results, run)
        },
        (BuildSystem::Npm, TargetLanguage::TypeScript) => {
            let mut backend = npm::Npm;
            backend.execute_command(command, results, run)
        },
        (BuildSystem::Pnpm, TargetLanguage::TypeScript) => {
            let mut backend = pnpm::Pnpm;
            backend.execute_command(command, results, run)
        },
        (BuildSystem::LFC, _) => {
            let mut backend = lfc::LFC;
            backend.execute_command(command, results, run)
        },
        _ => {
            let refuse = |app: &App| -> (outcome: BuildResult)
                ensures
                    unsupported_step()(*app, outcome),
                { Err(LingoError::UnsupportedBuildSystem) };
            proof {
                results.lemma_wf();
            }
            results.map(refuse);
            proof {
                lemma_mapped_continues(old(results)@, refuse, results@);
                lemma_mapped_by(old(results)@, refuse, results@, unsupported_step());
            }
        },
    }
}

/// The batch of a group before anything is run: no app has failed, and the
/// batch keeps going where the command is a build that says so.
pub open spec fn fresh_batch(group: Seq<App>, command: CommandSpec) -> BatchView {
    BatchView {
        apps: group,
        outcomes: Seq::new(group.len(), |i: int| Ok::<(), LingoError>(())),
        keep_going: match command {
            CommandSpec::Build(options) => options.keep_going,
            _ => false,
        },
        aborted: false,
    }
}

/// The one outcome of the step that keeps Zephyr apps from the backends.
pub open spec fn zephyr_step() -> spec_fn(App, BuildResult) -> bool {
    |app: App, outcome: BuildResult|
        outcome == (if app.platform == Platform::Zephyr {
            Err::<(), LingoError>(LingoError::UseWestBuildToBuildApp)
        } else {
            Ok::<(), LingoError>(())
        })
}

/// Whether `sub` is the batch of a group after its turn. Where the run was
/// stopped before, no app of the group is run and all are marked as
/// aborted. Else the Zephyr apps of the group fail, and the others are
/// handed to the backend of the group.
pub open spec fn group_run<R>(group: AppGroup, command: CommandSpec, run: R, stopped: bool, sub: BatchView) -> bool where
    R: Fn(&Action) -> BuildResult,
 {
    if stopped {
        &&& sub.apps == group.members()
        &&& sub.outcomes == Seq::new(
            group.members().len(),
            |i: int| Err::<(), LingoError>(LingoError::Aborted),
        )
        &&& sub.aborted
    } else {
        exists|checked: BatchView|
            #[trigger] fresh_batch(group.members(), command).mapped_by(zephyr_step(), checked)
                && dispatched(group.build_system, group.target, command, checked, run, sub)
    }
}

/// Whether one of the first `n` batches was stopped.
pub open spec fn stopped_before(subs: Seq<BatchView>, n: int) -> bool {
    exists|k: int| 0 <= k < n && (#[trigger] subs[k]).aborted
}

/// The entries of the first `n` batches, merged one batch after the other
/// and sorted by name after each.
pub open spec fn merged_results(subs: Seq<BatchView>, n: int) -> Seq<(App, BuildResult)>
    decreases n,
{
    if n <= 0 {
        Seq::empty()
    } else {
        sorted_by_name(merged_results(subs, n - 1) + subs[n - 1].entries())
    }
}

/// Whether `result` is what running a command for the apps leaves once
/// the dependencies are resolved: the apps are grouped by the build system
/// that `which` gives them and by their target language, in the order of
/// the project, every group has its turn in that order, and the batches of
/// the groups are merged.
pub open spec fn run_by_groups<W, R>(
    apps: Seq<App>,
    command: CommandSpec,
    which: W,
    run: R,
    result: BatchView,
) -> bool where W: Fn(&str) -> Result<String, WhichError>, R: Fn(&Action) -> BuildResult {
    exists|systems: Seq<BuildSystem>, groups: Seq<AppGroup>, subs: Seq<BatchView>|
        {
            &&& systems.len() == apps.len()
            &&& forall|i: int|
                0 <= i < apps.len() ==> (#[trigger] apps[i]).builds_with(which, systems[i])
            &&& #[trigger] grouped(apps, systems, groups)
            &&& in_project_order(apps, systems, apps.len() as int, groups)
            &&& subs.len() == groups.len()
            &&& forall|g: int|
                0 <= g < groups.len() ==> group_run(
                    groups[g],
                    command,
                    run,
                    stopped_before(subs, g),
                    #[trigger] subs[g],
                )
            &&& #[trigger] merged_results(subs, groups.len() as int) == result.entries()
            &&& result.aborted == stopped_before(subs, groups.len() as int)
        }
}

/// Runs a command for the apps of a project.
///
/// For a build the dependencies are resolved first, by `resolve`, and the
/// properties of the libraries are merged into every app; where the
/// resolution fails, every app fails with that failure and nothing is
/// built. For a clean the output root of the project is removed first.
///
/// The apps are then grouped by build system and target language, where
/// `which` decides between package managers for TypeScript. Each group is
/// handed to its backend, but apps for Zephyr fail before that. Once a
/// group was stopped by a failure, the groups behind it are not run and
/// their apps are marked as aborted.
///
/// The results hold exactly one entry for every app, in the order of the
/// names of the apps.
pub fn execute_command<'a, W, D, R>(
    command: &CommandSpec,
    config: &'a mut Config,
    which: &W,
    resolve: D,
    run: &R,
) -> (result: BatchBuildResults<'a>) where
    W: Fn(&str) -> Result<String, WhichError>,
    D: FnOnce(&Vec<(String, PackageDetails)>) -> Result<DependencyManager, LingoError>,
    R: Fn(&Action) -> BuildResult + Send + Sync,

    requires
        forall|binary: &str| call_requires(*which, (binary,)),
        forall|dependencies: &Vec<(String, PackageDetails)>| call_requires(resolve, (dependencies,)),
        forall|action: &Action| call_requires(*run, (action,)),
    ensures
        result@.wf(),
        ordered_by_name(result@.entries()),
        result@.apps.to_multiset() == final(config).apps@.to_multiset(),
        result@.zephyr_refused(),
        final(config).package == old(config).package,
        final(config).library == old(config).library,
        final(config).dependencies == old(config).dependencies,
        match command {
            CommandSpec::Build(_) => exists|resolution: Result<DependencyManager, LingoError>|
                #[trigger] call_ensures(resolve, (&old(config).dependencies,), resolution)
                    && match resolution {
                    Ok(manager) => all_enriched(
                        old(config).apps@,
                        aggregated_code(manager.lock.loaded()),
                        final(config).apps@,
                    ) && run_by_groups(final(config).apps@, *command, *which, *run, result@),
                    Err(error) => final(config).apps == old(config).apps && forall|i: int|
                        0 <= i < result@.len() ==> (#[trigger] result@.outcomes[i] matches Err(
                            LingoError::Shared(shared),
                        ) && *shared == error),
                },
            _ => final(config).apps == old(config).apps && run_by_groups(
                final(config).apps@,
                *command,
                *which,
                *run,
                result@,
            ),
        },
{
    broadcast use vstd::multiset::group_multiset_axioms;

    let mut failure: Option<LingoError> = None;
    match command {
        CommandSpec::Build(_build) => {
            let resolution = resolve(&config.dependencies);
            assert(call_ensures(resolve, (&old(config).dependencies,), resolution));
            match resolution {
                Ok(manager) => {
                    // enriching the apps with the target properties from the libraries
                    match manager.get_target_properties() {
                        Ok(library_properties) => {
                            enrich(&mut config.apps, &library_properties);
                        },
                        Err(error) => {
                            failure = Some(error);
                        },
                    }
                },
                Err(error) => {
                    failure = Some(error);
                },
            }
        },
        CommandSpec::Clean => {
            if config.apps.len() > 0 {
                let _ = run(&Action::RemoveDirAll(config.apps[0].output_root.clone()));
            }
        },
        _ => {},
    }
    let config: &'a Config = config;
    let mut result = BatchBuildResults::new();
    proof {
        result.lemma_wf();
        assert(result@.apps =~= Seq::<App>::empty());
    }
    match failure {
        Some(error) => {
            let mut all: Vec<&'a App> = Vec::new();
            let mut i: usize = 0;
            assert(all@.map_values(|app: &App| *app) =~= config.apps@.take(0));
            while i < config.apps.len()
                invariant
                    i <= config.apps@.len(),
                    all@.map_values(|app: &App| *app) == config.apps@.take(i as int),
                decreases config.apps@.len() - i,
            {
                let ghost collected = all@.map_values(|app: &App| *app);
                all.push(&config.apps[i]);
                assert(all@.map_values(|app: &App| *app) =~= collected.push(config.apps@[i as int]));
                assert(config.apps@.take(i + 1) =~= config.apps@.take(i as int).push(
                    config.apps@[i as int],
                ));
                i += 1;
            }
            assert(config.apps@.take(i as int) =~= config.apps@);
            let mut sub_res = BatchBuildResults::for_apps(all.as_slice());
            let ghost fresh = sub_res@;
            sub_res.fail_pending(error);
            let ghost before = result@;
            let ghost sub = sub_res@;
            result.append(sub_res);
            proof {
                let shared = choose|shared: Arc<LingoError>| #[trigger]
                    shares(shared, error) && fresh.all_receive(shared, sub);
                assert(sub.zephyr_refused()) by {
                    assert forall|k: int|
                        0 <= k < sub.len() && (#[trigger] sub.apps[k]).platform
                            == Platform::Zephyr implies sub.outcomes[k] is Err by {
                        assert(fresh.outcomes[k] is Ok);
                    }
                }
                assert(before.entries() + sub.entries() =~= sub.entries());
                lemma_merge_step(before, sub, result@, Seq::empty());
                assert(Seq::<App>::empty() + sub.apps =~= sub.apps);
                assert forall|k: int| 0 <= k < result@.len() implies (#[trigger] result@.outcomes[k] matches Err(
                    LingoError::Shared(shared),
                ) && *shared == error) by {
                    let entry = result@.entries()[k];
                    lemma_sorted_permutes(sub.entries());
                    assert(result@.entries().contains(entry));
                    to_multiset_contains(result@.entries(), entry);
                    to_multiset_contains(sub.entries(), entry);
                    let m = choose|m: int| 0 <= m < sub.entries().len() && sub.entries()[m] == entry;
                    assert(fresh.outcomes[m] is Ok);
                    assert(sub.outcomes[m] == Err::<(), LingoError>(LingoError::Shared(shared)));
                }
            }
            return result;
        },
        None => {},
    }

    // Group apps by build system
    let mut systems: Vec<BuildSystem> = Vec::new();
    let mut i: usize = 0;
    while i < config.apps.len()
        invariant
            i <= config.apps@.len(),
            systems@.len() == i,
            forall|binary: &str| call_requires(*which, (binary,)),
            forall|k: int|
                0 <= k < i ==> (#[trigger] config.apps@[k]).builds_with(*which, systems@[k]),
        decreases config.apps@.len() - i,
    {
        systems.push(config.apps[i].build_system(which));
        i += 1;
    }
    let by_build_system = group_apps(&config.apps, &systems);
    let ghost groups = by_build_system@;
    let ghost mut subs: Seq<BatchView> = Seq::empty();

    let mut g: usize = 0;
    proof {
        assert(all_members(groups.take(0)) =~= Seq::empty());
        assert(result@.entries() =~= merged_results(subs, 0));
    }
    while g < by_build_system.len()
        invariant
            g <= by_build_system@.len(),
            groups == by_build_system@,
            forall|action: &Action| call_requires(*run, (action,)),
            result@.wf(),
            ordered_by_name(result@.entries()),
            result@.apps.to_multiset() == all_members(groups.take(g as int)).to_multiset(),
            result@.zephyr_refused(),
            subs.len() == g,
            result@.entries() == merged_results(subs, g as int),
            result@.aborted == stopped_before(subs, g as int),
            forall|k: int|
                0 <= k < g ==> group_run(
                    groups[k],
                    *command,
                    *run,
                    stopped_before(subs, k),
                    #[trigger] subs[k],
                ),
        decreases by_build_system@.len() - g,
    {
        let group = &by_build_system[g];
        let mut sub_res = BatchBuildResults::for_apps(group.apps.as_slice());
        let ghost fresh = sub_res@;
        proof {
            sub_res.lemma_wf();
        }
        if result.is_aborted() {
            sub_res.abort_all();
            proof {
                assert(sub_res@.zephyr_refused()) by {
                    assert forall|k: int|
                        0 <= k < sub_res@.len() && (#[trigger] sub_res@.apps[k]).platform
                            == Platform::Zephyr implies sub_res@.outcomes[k] is Err by {
                        assert(fresh.skipped(sub_res@, k));
                        assert(fresh.outcomes[k] is Ok);
                    }
                }
                assert(sub_res@.outcomes =~= Seq::new(
                    group.members().len(),
                    |i: int| Err::<(), LingoError>(LingoError::Aborted),
                )) by {
                    assert forall|k: int| 0 <= k < sub_res@.len() implies sub_res@.outcomes[k]
                        == Err::<(), LingoError>(LingoError::Aborted) by {
                        assert(fresh.skipped(sub_res@, k));
                        assert(fresh.outcomes[k] is Ok);
                    }
                }
                assert(group_run(*group, *command, *run, true, sub_res@));
            }
        } else {
            match command {
                CommandSpec::Build(options) => {
                    sub_res.keep_going(options.keep_going);
                },
                _ => {},
            }
            let ghost start = sub_res@;
            proof {
                assert(start.outcomes =~= fresh_batch(group.members(), *command).outcomes);
                assert(start == fresh_batch(group.members(), *command));
            }
            let check = |app: &App| -> (outcome: BuildResult)
                ensures
                    app.platform == Platform::Zephyr ==> outcome is Err,
                    zephyr_step()(*app, outcome),
                {
                    if app.platform == Platform::Zephyr {
                        Err(LingoError::UseWestBuildToBuildApp)
                    } else {
                        Ok(())
                    }
                };
            sub_res.map(check);
            let ghost checked = sub_res@;
            proof {
                sub_res.lemma_wf();
                lemma_checked_refuses(start, check, checked);
            }
            dispatch(group.build_system, group.target, command, &mut sub_res, run);
            proof {
                lemma_continued_refuses(checked, sub_res@);
                lemma_mapped_by(start, check, checked, zephyr_step());
                assert(group_run(*group, *command, *run, false, sub_res@));
            }
        }
        let ghost before = result@;
        let ghost sub = sub_res@;
        proof {
            sub_res.lemma_wf();
        }
        result.append(sub_res);
        proof {
            lemma_merge_step(before, sub, result@, all_members(groups.take(g as int)));
            assert(sub.apps == group.members());
            assert(groups.take(g + 1).drop_last() =~= groups.take(g as int));
            assert(groups.take(g + 1).last() == groups[g as int]);
            let earlier = subs;
            subs = subs.push(sub);
            lemma_subs_extend(earlier, sub, groups, *command, *run, g as int);
        }
        g += 1;
    }
    proof {
        assert(groups.take(g as int) =~= groups);
        assert(run_by_groups(config.apps@, *command, *which, *run, result@)) by {
            assert(grouped(config.apps@, systems@, groups));
            assert(in_project_order(config.apps@, systems@, config.apps@.len() as int, groups));
            assert(merged_results(subs, groups.len() as int) == result@.entries());
        }
    }
    result
}

} // verus!
