//! Migration entries, their status, and the errors of the engine.

use crate::chain::{is_chain, is_linear, Link};
use crate::context::ContextError;
use crate::graph::{failure_subject, links_of, RevisionGraph, RevisionGraphError};
use crate::ledger::Applied;
use crate::revision::{Metadata, MigrationMeta};
use crate::text::{joined, lex_le, text_le, views};
use uuid::Uuid;
use vstd::prelude::*;

verus! {

/// Whether the ledger holds a record of a migration.
#[derive(Clone, Copy, Debug, PartialEq, Eq, Structural)]
pub enum MigrationStatus {
    Pending,
    Applied,
}

impl MigrationStatus {
    /// The word that stands for the status in reports.
    pub open spec fn word(self) -> Seq<char> {
        match self {
            MigrationStatus::Pending => "Pending"@,
            MigrationStatus::Applied => "Applied"@,
        }
    }

    /// The status as text: `Pending` or `Applied`.
    pub fn to_string(&self) -> (text: String)
        ensures
            text@ == self.word(),
    {
        match self {
            MigrationStatus::Pending => "Pending".to_string(),
            MigrationStatus::Applied => "Applied".to_string(),
        }
    }
}

/// The way a run walks the chain.
#[derive(Clone, Copy, Debug, PartialEq, Eq, Structural)]
pub enum Direction {
    Up,
    Down,
    Refresh,
}

/// One declared migration as the revision graph holds it: the user's
/// migration object, a copy of its metadata, the handle of its ledger record
/// if it has one, and its status.
#[derive(Debug)]
pub struct Migration<M> {
    pub runner: M,
    pub meta: Metadata,
    pub id: Option<Uuid>,
    pub status: MigrationStatus,
}

impl<M> Migration<M> {
    /// The place in the chain that the entry declares.
    pub open spec fn link(self) -> Link {
        self.meta.link()
    }

    /// An entry made of the given parts.
    pub fn from_parts(runner: M, meta: Metadata, id: Option<Uuid>, status: MigrationStatus) -> (entry: Migration<M>)
        ensures
            entry.runner == runner,
            entry.meta == meta,
            entry.id == id,
            entry.status == status,
    {
        Migration { runner, meta, id, status }
    }
}

impl<M: MigrationMeta> Migration<M> {
    /// An entry for `runner`, with the metadata that `runner` reports at this
    /// moment.
    pub fn new(runner: M, id: Option<Uuid>, status: MigrationStatus) -> (entry: Migration<M>)
        ensures
            entry.runner == runner,
            entry.id == id,
            entry.status == status,
    {
        let meta = Metadata::of(&runner);
        Migration::from_parts(runner, meta, id, status)
    }
}

/// Why a run of the migrator failed.
#[derive(Debug)]
pub enum MigrationError {
    /// The revision graph could not be built or walked.
    Graph(RevisionGraphError),
    /// A migration that was asked for is not there.
    Missing(String),
    /// The context could not serve a migration.
    Context(ContextError),
    /// Anything else.
    Other(String),
}

impl MigrationError {
    /// The error as a sentence.
    pub open spec fn sentence(self) -> Seq<char> {
        match self {
            MigrationError::Graph(error) => error.subject() + " not found"@,
            MigrationError::Missing(what) => "migration "@ + what@ + " missing"@,
            MigrationError::Context(error) => "Resource: "@ + error.detail(),
            MigrationError::Other(what) => "Other "@ + what@,
        }
    }

    /// The error as a sentence.
    pub fn to_string(&self) -> (text: String)
        ensures
            text@ == self.sentence(),
    {
        match self {
            MigrationError::Graph(error) => error.to_string(),
            MigrationError::Missing(what) => {
                let mut text = joined("migration ", what.as_str());
                text.append(" missing");
                text
            },
            MigrationError::Context(error) => error.to_string(),
            MigrationError::Other(what) => joined("Other ", what.as_str()),
        }
    }
}

/// The entry agrees with the ledger: it carries the handle that the ledger
/// holds for its name, and it is applied exactly when it carries a handle.
pub open spec fn recorded<M>(entry: Migration<M>, ledger: Map<Seq<char>, Uuid>) -> bool {
    &&& entry.id == (if ledger.contains_key(entry.meta.name@) {
        Some(ledger[entry.meta.name@])
    } else {
        None
    })
    &&& entry.status == (if entry.id is Some {
        MigrationStatus::Applied
    } else {
        MigrationStatus::Pending
    })
}

/// Every entry agrees with the ledger.
pub open spec fn all_recorded<M>(entries: Seq<Migration<M>>, ledger: Map<Seq<char>, Uuid>) -> bool {
    forall|i: int| 0 <= i < entries.len() ==> recorded(#[trigger] entries[i], ledger)
}

/// The entries keep the runners and the metadata of the declared ones, in
/// order.
pub open spec fn same_declarations<M>(entries: Seq<Migration<M>>, declared: Seq<Migration<M>>) -> bool {
    &&& entries.len() == declared.len()
    &&& forall|i: int|
        0 <= i < entries.len() ==> (#[trigger] entries[i]).runner == declared[i].runner
            && entries[i].meta == declared[i].meta
}

impl<M> Migration<M> {
    /// The entry with the handle and the status that the ledger gives it.
    pub fn enlist(self, applied: &Applied) -> (entry: Migration<M>)
        ensures
            entry.runner == self.runner,
            entry.meta == self.meta,
            recorded(entry, applied@),
    {
        let id = applied.get(self.meta.name.as_str());
        let status = if id.is_some() {
            MigrationStatus::Applied
        } else {
            MigrationStatus::Pending
        };
        Migration { runner: self.runner, meta: self.meta, id, status }
    }
}

/// The declared migrations with the handle and the status that the ledger
/// gives to each.
pub fn enlist_all<M>(declared: Vec<Migration<M>>, applied: &Applied) -> (entries: Vec<Migration<M>>)
    ensures
        same_declarations(entries@, declared@),
        all_recorded(entries@, applied@),
        links_of(entries@) == links_of(declared@),
{
    let ghost wanted = declared@;
    let mut entries: Vec<Migration<M>> = Vec::new();
    for migration in it: declared
        invariant
            it.seq() == wanted,
            entries@.len() == it.index(),
            forall|i: int|
                0 <= i < entries@.len() ==> (#[trigger] entries@[i]).runner == wanted[i].runner
                    && entries@[i].meta == wanted[i].meta && recorded(entries@[i], applied@),
    {
        entries.push(migration.enlist(applied));
    }
    proof {
        assert(links_of(entries@) =~= links_of(wanted));
    }
    entries
}

/// Reads the metadata of each migration, once.
pub fn declare<M: MigrationMeta>(migrations: Vec<M>) -> (declared: Vec<Migration<M>>)
    ensures
        declared@.len() == migrations@.len(),
        forall|i: int|
            0 <= i < declared@.len() ==> {
                &&& (#[trigger] declared@[i]).runner == migrations@[i]
                &&& declared@[i].id is None
                &&& declared@[i].status == MigrationStatus::Pending
            },
{
    let ghost wanted = migrations@;
    let mut declared: Vec<Migration<M>> = Vec::new();
    for migration in it: migrations
        invariant
            it.seq() == wanted,
            declared@.len() == it.index(),
            forall|i: int|
                0 <= i < declared@.len() ==> {
                    &&& (#[trigger] declared@[i]).runner == wanted[i]
                    &&& declared@[i].id is None
                    &&& declared@[i].status == MigrationStatus::Pending
                },
    {
        declared.push(Migration::new(migration, None, MigrationStatus::Pending));
    }
    declared
}

/// The graph of the declared migrations, each with the handle and the status
/// that the ledger gives it.
///
/// The graph is built exactly when the declarations form one simple chain.
pub fn graph_of<M>(declared: Vec<Migration<M>>, applied: &Applied) -> (result: Result<
    RevisionGraph<M>,
    MigrationError,
>)
    ensures
        result is Ok <==> is_linear(links_of(declared@)),
        result matches Ok(graph) ==> {
            &&& graph.wf()
            &&& graph.shaped()
            &&& same_declarations(graph.entries(), declared@)
            &&& all_recorded(graph.entries(), applied@)
        },
        result matches Err(error) ==> error matches MigrationError::Graph(inner)
            && inner.subject() == failure_subject(links_of(declared@)),
{
    let entries = enlist_all(declared, applied);
    match RevisionGraph::try_from(entries) {
        Ok(graph) => Ok(graph),
        Err(error) => Err(MigrationError::Graph(error)),
    }
}

/// The entries are what was read of the migrations: one for each, in order,
/// with the migration as its runner, and not yet looked up in the ledger.
pub open spec fn read_of<M>(declared: Seq<Migration<M>>, migrations: Seq<M>) -> bool {
    &&& declared.len() == migrations.len()
    &&& forall|i: int|
        0 <= i < declared.len() ==> {
            &&& (#[trigger] declared[i]).runner == migrations[i]
            &&& declared[i].id is None
            &&& declared[i].status == MigrationStatus::Pending
        }
}

/// The result is what building the graph of the declared migrations comes
/// to, by the ledger: the graph exactly when the declarations form one simple
/// chain, with the entries as declared and as the ledger records them; else
/// the error that names what was not found.
pub open spec fn built_of<M>(
    declared: Seq<Migration<M>>,
    ledger: Map<Seq<char>, Uuid>,
    result: Result<RevisionGraph<M>, MigrationError>,
) -> bool {
    &&& result is Ok <==> is_linear(links_of(declared))
    &&& result matches Ok(graph) ==> {
        &&& graph.wf()
        &&& graph.shaped()
        &&& same_declarations(graph.entries(), declared)
        &&& all_recorded(graph.entries(), ledger)
    }
    &&& result matches Err(error) ==> error matches MigrationError::Graph(inner)
        && inner.subject() == failure_subject(links_of(declared))
}

/// The graph of the given migrations, by the metadata that each reports, with
/// the handle and the status that the ledger gives it.
///
/// What the migrations report is theirs to say. Whatever they report, the
/// result is what building the graph of those declarations comes to.
pub fn build_graph<M: MigrationMeta>(migrations: Vec<M>, applied: &Applied) -> (result: Result<
    RevisionGraph<M>,
    MigrationError,
>)
    ensures
        exists|declared: Seq<Migration<M>>|
            read_of(declared, migrations@) && #[trigger] built_of(declared, applied@, result),
        result matches Ok(graph) ==> {
            &&& graph.wf()
            &&& graph.shaped()
            &&& graph.entries().len() == migrations@.len()
            &&& forall|i: int|
                0 <= i < migrations@.len() ==> (#[trigger] graph.entries()[i]).runner
                    == migrations@[i]
            &&& all_recorded(graph.entries(), applied@)
        },
        result matches Err(error) ==> error is Graph,
{
    let declared = declare(migrations);
    let ghost read = declared@;
    let result = graph_of(declared, applied);
    proof {
        assert(read_of(read, migrations@));
        assert(built_of(read, applied@, result));
    }
    result
}

/// The line that a status report holds for a migration.
pub open spec fn status_line(name: Seq<char>, status: MigrationStatus) -> Seq<char> {
    "Migration `"@ + name + "`, status: `"@ + status.word() + "`"@
}

/// The status that the ledger gives to a migration of the given name.
pub open spec fn status_in(ledger: Map<Seq<char>, Uuid>, name: Seq<char>) -> MigrationStatus {
    if ledger.contains_key(name) {
        MigrationStatus::Applied
    } else {
        MigrationStatus::Pending
    }
}

/// The status report of the declared migrations in the given order, by the
/// ledger: one line for each place of the order, with the name of the
/// migration that stands there and the status that the ledger gives it.
pub open spec fn report_of<M>(
    declared: Seq<Migration<M>>,
    ledger: Map<Seq<char>, Uuid>,
    order: Seq<int>,
) -> Seq<Seq<char>> {
    Seq::new(
        order.len(),
        |k: int|
            status_line(
                declared[order[k]].meta.name@,
                status_in(ledger, declared[order[k]].meta.name@),
            ),
    )
}

/// The lines are the status report of the declared migrations, by the
/// ledger, in the order of their chain.
pub open spec fn reported_for<M>(
    declared: Seq<Migration<M>>,
    ledger: Map<Seq<char>, Uuid>,
    lines: Seq<String>,
) -> bool {
    exists|order: Seq<int>|
        is_chain(links_of(declared), order) && views(lines) == #[trigger] report_of(
            declared,
            ledger,
            order,
        )
}

impl<M> RevisionGraph<M> {
    /// The lines of a status report: one line for each migration, in forward
    /// order from the queue to the head, with the migration's name and its
    /// status.
    pub fn status(&self) -> (lines: Vec<String>)
        ensures
            lines@.len() == self.chain().len(),
            forall|k: int|
                0 <= k < lines@.len() ==> (#[trigger] lines@[k])@ == status_line(
                    self.at(k).migration.meta.name@,
                    self.at(k).migration.status,
                ),
    {
        let positions = self.plan_all();
        let mut lines: Vec<String> = Vec::new();
        let mut k: usize = 0;
        while k < positions.len()
            invariant
                k <= positions@.len(),
                crate::graph::as_ints(positions@) == self.chain(),
                forall|j: int| 0 <= j < positions@.len() ==> positions@[j] < self.nodes().len(),
                lines@.len() == k,
                forall|j: int|
                    0 <= j < k ==> (#[trigger] lines@[j])@ == status_line(
                        self.at(j).migration.meta.name@,
                        self.at(j).migration.status,
                    ),
            decreases positions@.len() - k,
        {
            assert(crate::graph::as_ints(positions@)[k as int] == positions@[k as int]);
            let node = self.node_at(positions[k]);
            let mut line = joined("Migration `", node.migration.meta.name.as_str());
            line.append("`, status: `");
            let word = node.migration.status.to_string();
            line.append(word.as_str());
            line.append("`");
            lines.push(line);
            k = k + 1;
        }
        lines
    }
}

/// The status report of the declared migrations, given the applied ones: one
/// line for each migration, in the order of the chain from the queue to the
/// head. There is a report exactly when the declarations form one simple
/// chain.
pub fn status_of<M>(declared: Vec<Migration<M>>, applied: &Applied) -> (result: Result<
    Vec<String>,
    MigrationError,
>)
    ensures
        result is Ok <==> is_linear(links_of(declared@)),
        result matches Ok(lines) ==> reported_for(declared@, applied@, lines@),
        result matches Err(error) ==> error matches MigrationError::Graph(inner)
            && inner.subject() == failure_subject(links_of(declared@)),
{
    let graph = match graph_of(declared, applied) {
        Ok(graph) => graph,
        Err(error) => {
            return Err(error);
        },
    };
    let lines = graph.status();
    proof {
        graph.lemma_links();
        graph.lemma_chain();
        let chain = graph.chain();
        let entries = graph.entries();
        assert(links_of(entries) =~= links_of(declared@));
        let report = report_of(declared@, applied@, chain);
        assert(views(lines@).len() == report.len());
        assert forall|k: int| 0 <= k < report.len() implies views(lines@)[k] == report[k] by {
            let i = chain[k];
            let entry = entries[i];
            assert(entry == graph.nodes()[i].migration);
            assert(recorded(entry, applied@));
            assert(entry.meta == declared@[i].meta);
        }
        assert(views(lines@) =~= report);
    }
    Ok(lines)
}

/// The order on texts is reflexive.
pub proof fn lemma_lex_reflexive(a: Seq<char>)
    ensures
        lex_le(a, a),
    decreases a.len(),
{
    if a.len() > 0 {
        lemma_lex_reflexive(a.skip(1));
    }
}

/// The order on texts is total.
pub proof fn lemma_lex_total(a: Seq<char>, b: Seq<char>)
    ensures
        lex_le(a, b) || lex_le(b, a),
    decreases a.len(),
{
    if a.len() > 0 && b.len() > 0 && a[0] as u32 == b[0] as u32 {
        lemma_lex_total(a.skip(1), b.skip(1));
    }
}

/// The order on texts is transitive.
pub proof fn lemma_lex_transitive(a: Seq<char>, b: Seq<char>, c: Seq<char>)
    requires
        lex_le(a, b),
        lex_le(b, c),
    ensures
        lex_le(a, c),
    decreases a.len(),
{
    if a.len() > 0 && b.len() > 0 && c.len() > 0 {
        if a[0] as u32 == b[0] as u32 && b[0] as u32 == c[0] as u32 {
            lemma_lex_transitive(a.skip(1), b.skip(1), c.skip(1));
        }
    }
}

/// The date at `latest` is the latest: no date is later, and every date
/// after it in the list is earlier.
pub open spec fn is_latest(dates: Seq<String>, latest: int) -> bool {
    &&& 0 <= latest < dates.len()
    &&& forall|j: int| 0 <= j < dates.len() ==> lex_le(#[trigger] dates[j]@, dates[latest]@)
    &&& forall|j: int| latest < j < dates.len() ==> !lex_le(dates[latest]@, #[trigger] dates[j]@)
}

/// The position of the latest date in a list; of several equal ones, the
/// last. Dates are compared as text.
pub fn latest_date(dates: &Vec<String>) -> (latest: Option<usize>)
    ensures
        match latest {
            Some(latest) => is_latest(dates@, latest as int),
            None => dates@.len() == 0,
        },
{
    if dates.len() == 0 {
        return None;
    }
    let mut best: usize = 0;
    let mut j: usize = 1;
    proof {
        lemma_lex_reflexive(dates@[0]@);
    }
    while j < dates.len()
        invariant
            1 <= j <= dates@.len(),
            best < j,
            forall|k: int| 0 <= k < j ==> lex_le(#[trigger] dates@[k]@, dates@[best as int]@),
            forall|k: int| best < k < j ==> !lex_le(dates@[best as int]@, #[trigger] dates@[k]@),
        decreases dates@.len() - j,
    {
        if text_le(dates[best].as_str(), dates[j].as_str()) {
            proof {
                assert forall|k: int| 0 <= k < j + 1 implies lex_le(
                    #[trigger] dates@[k]@,
                    dates@[j as int]@,
                ) by {
                    if k < j {
                        lemma_lex_transitive(dates@[k]@, dates@[best as int]@, dates@[j as int]@);
                    } else {
                        lemma_lex_reflexive(dates@[j as int]@);
                    }
                }
            }
            best = j;
        } else {
            proof {
                lemma_lex_total(dates@[best as int]@, dates@[j as int]@);
            }
        }
        j = j + 1;
    }
    Some(best)
}

/// The declared migration with the latest date; of several with that date,
/// the one declared last. Without any migration there is none to return.
/// The dates are read from the migrations, one of each: the migration
/// returned stands where the latest of the dates read stands.
pub fn latest_revision<M: MigrationMeta>(migrations: Vec<M>) -> (result: Result<M, MigrationError>)
    ensures
        result is Ok <==> migrations@.len() > 0,
        result matches Ok(migration) ==> exists|dates: Seq<String>, latest: int|
            dates.len() == migrations@.len() && #[trigger] is_latest(dates, latest) && migration
                == migrations@[latest],
        result matches Err(error) ==> error matches MigrationError::Missing(what) && what@
            == "no migrations"@,
{
    let mut migrations = migrations;
    let ghost declared = migrations@;
    let mut dates: Vec<String> = Vec::new();
    let mut i: usize = 0;
    while i < migrations.len()
        invariant
            migrations@ == declared,
            i <= migrations@.len(),
            dates@.len() == i,
        decreases migrations@.len() - i,
    {
        let revision = migrations[i].revision();
        dates.push(revision.date.to_string());
        i = i + 1;
    }
    match latest_date(&dates) {
        Some(latest) => {
            let migration = migrations.remove(latest);
            assert(is_latest(dates@, latest as int) && migration == declared[latest as int]);
            Ok(migration)
        },
        None => Err(MigrationError::Missing("no migrations".to_string())),
    }
}

} // verus!
