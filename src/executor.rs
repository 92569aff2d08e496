//! What a statement asks of the engine, and the catalog update of `CREATE`.
use vstd::prelude::*;
use crate::catalog::{find, Catalog, KinesisStream, RelationDefinition, StreamV};
use crate::planner::{plan_query, plan_spec, result_view, PlanErrorV, PlanError, PlanV, QueryPlan};
use crate::sql::{Statement, StatementV};

verus! {

/// The capacity, in records, of each channel between two operators.
pub const CHANNEL_CAPACITY: usize = 256;

/// The work that a statement asks for.
#[derive(Debug)]
pub enum StatementAction {
    /// Run the plan and print its records.
    Run(QueryPlan),
    /// Print the plan without running it.
    Explain(QueryPlan),
    /// Look up the stream and its consumer, then register the relation.
    CreateStream { relation_ident: String, kinesis_stream_name: String, kinesis_stream_consumer_name: String },
}

/// Model of `StatementAction`.
pub enum ActionV {
    Run(PlanV),
    Explain(PlanV),
    CreateStream(Seq<char>, Seq<char>, Seq<char>),
}

pub open spec fn action_view(r: Result<StatementAction, PlanError>) -> Result<ActionV, PlanErrorV> {
    match r {
        Ok(StatementAction::Run(p)) => Ok(ActionV::Run(p@)),
        Ok(StatementAction::Explain(p)) => Ok(ActionV::Explain(p@)),
        Ok(StatementAction::CreateStream { relation_ident, kinesis_stream_name, kinesis_stream_consumer_name }) =>
            Ok(ActionV::CreateStream(relation_ident@, kinesis_stream_name@, kinesis_stream_consumer_name@)),
        Err(e) => Err(e@),
    }
}

/// The action of a statement: a query is planned, and a planning error
/// ends the statement.
pub open spec fn statement_action(relations: Seq<(Seq<char>, StreamV)>, st: StatementV) -> Result<ActionV, PlanErrorV> {
    match st {
        StatementV::Select(q) => match plan_spec(relations, q) {
            Ok(p) => Ok(ActionV::Run(p)),
            Err(e) => Err(e),
        },
        StatementV::Explain(q) => match plan_spec(relations, q) {
            Ok(p) => Ok(ActionV::Explain(p)),
            Err(e) => Err(e),
        },
        StatementV::CreateKinesisStream(r, s, c) => Ok(ActionV::CreateStream(r, s, c)),
    }
}

/// Decides what a statement asks for.
pub fn execute_statement(catalog: &Catalog, statement: Statement) -> (r: Result<StatementAction, PlanError>)
    ensures
        action_view(r) == statement_action(catalog@.relations, statement@),
{
    match statement {
        Statement::Select(q) => {
            let p = plan_query(catalog, &q);
            proof {
                assert(result_view(p) == plan_spec(catalog@.relations, q@));
            }
            match p {
                Ok(p) => Ok(StatementAction::Run(p)),
                Err(e) => Err(e),
            }
        },
        Statement::Explain(q) => {
            let p = plan_query(catalog, &q);
            match p {
                Ok(p) => Ok(StatementAction::Explain(p)),
                Err(e) => Err(e),
            }
        },
        Statement::CreateKinesisStream(relation_ident, kinesis_stream_name, kinesis_stream_consumer_name) =>
            Ok(StatementAction::CreateStream { relation_ident, kinesis_stream_name, kinesis_stream_consumer_name }),
    }
}

/// Registers the stream, as described by the stream service, under the
/// relation name; a name already taken is refused. Returns whether the
/// relation was added.
pub fn execute_create_kinesis_stream(
    catalog: &mut Catalog,
    relation_ident: String,
    kinesis_stream_name: String,
    kinesis_stream_arn: String,
    kinesis_stream_consumer_arn: String,
) -> (added: bool)
    ensures
        added == (find(old(catalog)@.relations, relation_ident@) is None),
        added ==> final(catalog)@.relations == old(catalog)@.relations.push(
            (relation_ident@, StreamV { name: kinesis_stream_name@, arn: kinesis_stream_arn@, consumer_arn: kinesis_stream_consumer_arn@ }),
        ),
        !added ==> final(catalog)@.relations == old(catalog)@.relations,
        final(catalog)@.functions == old(catalog)@.functions,
        old(catalog).wf() ==> final(catalog).wf(),
{
    let stream = KinesisStream { kinesis_stream_name, kinesis_stream_arn, kinesis_stream_consumer_arn };
    catalog.register_relation(relation_ident, RelationDefinition::KinesisStream(stream))
}

} // verus!
