//! The planner: a request becomes an ordered list of tasks.
//!
//! The tiers are tried in order and the first that applies decides: the
//! security path, the plan that was supplied with the request, the fixed
//! fallback, and the fallback as a stored reflection adjusts it.

use vstd::prelude::*;
use vstd::string::StringExecFns;
use crate::facts::{facts_of, AgentFact, FactRecord, ReflectionFact, REFLECTION_FACT_TYPE};
use crate::json::{
    field_of, items_model, no_entries, object_entries, object_insert, object_new, parse_json,
    parsed_json, render_json, rendered_json, Json, JsonModel,
};
use crate::plan::{
    apply_directives, directed_plan, expanded_plan, expanded_task, is_search,
    lemma_expanded_plan_counts, rerun_variant, tasks_model, wants_deep_rerun, Plan, Task,
    TaskModel, SEARCH_AGENT,
};
use crate::rules::{
    emitted_directives, fact_emits, is_default_rules, is_emitted, lemma_ascending_unique,
    lemma_emitted_directives_exist, match_record_directives, rule_fires, strictly_ascending,
    texts_model, PAGIRule,
};
use crate::text::{
    contains_ignoring_case, is_blank, mentions, mentions_ignoring_case, same_text, trim, trimmed,
};

verus! {

/// The agent type that triages security alerts.
pub const TRIAGE_AGENT: &'static str = "CybersecurityAgent";

/// The agent type that schedules meetings.
pub const CALENDAR_AGENT: &'static str = "CalendarAgent";

/// The one request that the fixed fallback knows, letter for letter.
pub const CANONICAL_PROMPT: &'static str =
    "Please research the top anti-aging compounds and schedule a team meeting for next week to present the findings.";

/// Why no plan came out.
#[derive(Debug, Clone, Copy, PartialEq, Eq, Structural)]
pub enum PlannerError {
    /// No tier produced a plan for the request.
    NoPlanMatched,
}

/// Why a supplied plan was not taken. The planner recovers from each of these
/// by falling back.
#[derive(Debug, Clone, Copy, PartialEq, Eq, Structural)]
pub enum PlanParseError {
    /// The text is not JSON.
    NotJson,
    /// The text is JSON, but not an array.
    NotArray,
    /// The array has no element: a plan holds at least one task.
    EmptyPlan,
    /// An element of the array has no `agent_type` that is a string.
    MissingAgentType,
}

impl PlannerError {
    /// The error as one line of text.
    pub fn message(&self) -> (text: &'static str)
        ensures
            text@ == "No planning rule matched this prompt (stub planner)."@,
    {
        "No planning rule matched this prompt (stub planner)."
    }
}

/// Whether a request names one of the security products, in whatever case.
pub open spec fn security_triggered(prompt: Seq<char>) -> bool {
    ||| mentions_ignoring_case(prompt, "siem"@)
    ||| mentions_ignoring_case(prompt, "crowdstrike"@)
    ||| mentions_ignoring_case(prompt, "rapid7"@)
}

/// The texts of a list of pairs of strings.
pub open spec fn pairs_model(pairs: Seq<(&str, &str)>) -> Seq<(Seq<char>, Seq<char>)> {
    Seq::new(pairs.len(), |i: int| (pairs[i].0@, pairs[i].1@))
}

/// The entries of the object that holds each text of `pairs` under its key;
/// of two texts under one key the later one.
pub open spec fn text_entries(pairs: Seq<(Seq<char>, Seq<char>)>) -> Map<Seq<char>, JsonModel>
    decreases pairs.len(),
{
    if pairs.len() == 0 {
        no_entries()
    } else {
        text_entries(pairs.drop_last()).insert(pairs.last().0, JsonModel::Text(pairs.last().1))
    }
}

/// The compact text of an object whose values are all strings.
pub open spec fn text_object(pairs: Seq<(Seq<char>, Seq<char>)>) -> Seq<char> {
    rendered_json(JsonModel::Object(text_entries(pairs)))
}

/// The one task of the security path: triage, with the request as payload,
/// as it was given, white space at its ends and all.
pub open spec fn triage_task(prompt: Seq<char>) -> TaskModel {
    TaskModel {
        agent_type: TRIAGE_AGENT@,
        input_data: text_object(seq![("action"@, "Triage alert"@), ("source_prompt"@, prompt)]),
    }
}

/// The search task of the fixed fallback.
pub open spec fn research_task() -> TaskModel {
    TaskModel {
        agent_type: SEARCH_AGENT@,
        input_data: text_object(
            seq![
                ("query"@, "top anti-aging compounds"@),
                ("deliverable"@, "summary of leading compounds with citations"@),
            ],
        ),
    }
}

/// The scheduling task of the fixed fallback.
pub open spec fn meeting_task() -> TaskModel {
    TaskModel {
        agent_type: CALENDAR_AGENT@,
        input_data: text_object(
            seq![
                ("title"@, "Anti-aging compounds research review"@),
                ("timeframe"@, "next week"@),
                ("agenda"@, "Present research findings and next steps"@),
            ],
        ),
    }
}

/// A search task of the split plan: one part of the research, carrying the
/// directive that asked for the split.
pub open spec fn partial_research_task(
    query: Seq<char>,
    deliverable: Seq<char>,
    directive: Seq<char>,
) -> TaskModel {
    TaskModel {
        agent_type: SEARCH_AGENT@,
        input_data: text_object(
            seq![
                ("query"@, query),
                ("deliverable"@, deliverable),
                ("directive_applied"@, directive),
            ],
        ),
    }
}

/// The plan of the fixed fallback: research, then the meeting.
pub open spec fn base_plan() -> Seq<TaskModel> {
    seq![research_task(), meeting_task()]
}

/// The plan that a reflection asking for a split makes of the fallback: the
/// research in three parts, then the meeting.
pub open spec fn split_plan(directive: Seq<char>) -> Seq<TaskModel> {
    seq![
        partial_research_task(
            "top anti-aging compounds overview"@,
            "high-level summary"@,
            directive,
        ),
        partial_research_task(
            "anti-aging: rapamycin metformin spermidine"@,
            "mechanisms + evidence"@,
            directive,
        ),
        partial_research_task(
            "anti-aging: senolytics fisetin quercetin"@,
            "senolytic candidates summary"@,
            directive,
        ),
        meeting_task(),
    ]
}

/// Whether a directive asks to split the work or to run it concurrently.
pub open spec fn wants_split(directive: Seq<char>) -> bool {
    mentions_ignoring_case(directive, "split"@) || mentions_ignoring_case(directive, "concurr"@)
}

/// The agent type of an element of a supplied plan: its `agent_type`, where
/// that is a string.
pub open spec fn item_agent_type(item: JsonModel) -> Option<Seq<char>> {
    match field_of(item, "agent_type"@) {
        Some(JsonModel::Text(text)) => Some(text),
        _ => None,
    }
}

/// The payload of an element of a supplied plan: its `input_data` as it
/// stands where that is a string, the compact text of any other value, and
/// the empty object where there is none.
pub open spec fn item_input_data(item: JsonModel) -> Seq<char> {
    match field_of(item, "input_data"@) {
        None => rendered_json(JsonModel::Object(no_entries())),
        Some(JsonModel::Text(text)) => text,
        Some(other) => rendered_json(other),
    }
}

/// The task that an element of a supplied plan stands for.
pub open spec fn item_task(item: JsonModel) -> TaskModel {
    TaskModel { agent_type: item_agent_type(item)->0, input_data: item_input_data(item) }
}

/// The tasks that a document holds as a plan: it is an array with at least
/// one element, and each element has an `agent_type` that is a string.
pub open spec fn plan_of_document(document: JsonModel) -> Result<Seq<TaskModel>, PlanParseError> {
    match document {
        JsonModel::Array(items) => if items.len() == 0 {
            Err(PlanParseError::EmptyPlan)
        } else if forall|i: int|
            0 <= i < items.len() ==> item_agent_type(#[trigger] items[i]) is Some {
            Ok(Seq::new(items.len(), |i: int| item_task(items[i])))
        } else {
            Err(PlanParseError::MissingAgentType)
        },
        _ => Err(PlanParseError::NotArray),
    }
}

/// The tasks that a supplied plan holds: the text is JSON, and the document
/// that it holds is a plan.
pub open spec fn parsed_plan(raw: Seq<char>) -> Result<Seq<TaskModel>, PlanParseError> {
    match parsed_json(raw) {
        None => Err(PlanParseError::NotJson),
        Some(document) => plan_of_document(document),
    }
}

/// Whether a record is a reflection addressed to `target`.
pub open spec fn is_reflection_for(record: FactRecord, target: Seq<char>) -> bool {
    &&& record.fact.fact_type@ == REFLECTION_FACT_TYPE@
    &&& record.reflection matches Some(reflection)
    &&& reflection.target_agent@ == target
}

/// The place of the latest reflection addressed to `target`: the one with
/// the greatest timestamp, and of several with that timestamp the last.
pub open spec fn latest_reflection_index(records: Seq<FactRecord>, target: Seq<char>) -> Option<int>
    decreases records.len(),
{
    if records.len() == 0 {
        None
    } else {
        let earlier = latest_reflection_index(records.drop_last(), target);
        if is_reflection_for(records.last(), target) && (earlier matches Some(i)
            ==> records[i].fact.timestamp <= records.last().fact.timestamp) {
            Some(records.len() - 1)
        } else {
            earlier
        }
    }
}

/// The directive of the latest reflection addressed to `target`.
pub open spec fn latest_directive(records: Seq<FactRecord>, target: Seq<char>) -> Option<
    Seq<char>,
> {
    match latest_reflection_index(records, target) {
        Some(i) => Some(records[i].reflection->0.new_directive@),
        None => None,
    }
}

/// What the fallback gives for a request, given the directives that are due
/// and the directive of the latest reflection for the search agent.
pub open spec fn fallback_planned(
    prompt: Seq<char>,
    directives: Seq<Seq<char>>,
    reflection: Option<Seq<char>>,
) -> Result<Seq<TaskModel>, PlannerError> {
    let normalized = trimmed(prompt);
    if security_triggered(normalized) {
        Ok(seq![triage_task(prompt)])
    } else if normalized == CANONICAL_PROMPT@ {
        if directives.len() > 0 {
            Ok(directed_plan(base_plan(), directives))
        } else if reflection is Some && wants_split(reflection->0) {
            Ok(split_plan(reflection->0))
        } else {
            Ok(base_plan())
        }
    } else {
        Err(PlannerError::NoPlanMatched)
    }
}

/// What the planner gives for a request: the rules, the request, the plan
/// that was supplied with it, whether supplied plans are switched off, and
/// the facts of the log decide.
pub open spec fn planned(
    rules: Seq<PAGIRule>,
    prompt: Seq<char>,
    supplied: Seq<char>,
    supplied_disabled: bool,
    records: Seq<FactRecord>,
) -> Result<Seq<TaskModel>, PlannerError> {
    let directives = emitted_directives(rules, facts_of(records));
    let fallback = fallback_planned(prompt, directives, latest_directive(records, SEARCH_AGENT@));
    if security_triggered(prompt) {
        Ok(seq![triage_task(prompt)])
    } else if is_blank(supplied) || supplied_disabled {
        fallback
    } else {
        match parsed_plan(supplied) {
            Ok(tasks) => Ok(directed_plan(tasks, directives)),
            Err(_) => fallback,
        }
    }
}

/// Whether what a planner returned is what `expected` says.
pub open spec fn plan_matches(
    outcome: Result<Plan, PlannerError>,
    expected: Result<Seq<TaskModel>, PlannerError>,
) -> bool {
    match outcome {
        Ok(plan) => expected == Ok::<Seq<TaskModel>, PlannerError>(tasks_model(plan@)),
        Err(error) => expected == Err::<Seq<TaskModel>, PlannerError>(error),
    }
}

/// A plan that the directives rewrote is no shorter than it was.
pub proof fn lemma_directed_plan_len(plan: Seq<TaskModel>, directives: Seq<Seq<char>>)
    ensures
        directed_plan(plan, directives).len() >= plan.len(),
{
    lemma_expanded_plan_counts(plan, directives);
}

/// A request that is planned at all gets at least one task: no tier gives
/// an empty plan.
pub proof fn lemma_plans_are_not_empty(
    rules: Seq<PAGIRule>,
    prompt: Seq<char>,
    supplied: Seq<char>,
    supplied_disabled: bool,
    records: Seq<FactRecord>,
)
    ensures
        planned(rules, prompt, supplied, supplied_disabled, records) matches Ok(tasks)
            ==> tasks.len() > 0,
{
    let directives = emitted_directives(rules, facts_of(records));
    lemma_fallback_plans_are_not_empty(
        prompt,
        directives,
        latest_directive(records, SEARCH_AGENT@),
    );
    if parsed_plan(supplied) is Ok {
        lemma_directed_plan_len(parsed_plan(supplied)->Ok_0, directives);
    }
}

/// The fallback gives no empty plan either.
pub proof fn lemma_fallback_plans_are_not_empty(
    prompt: Seq<char>,
    directives: Seq<Seq<char>>,
    reflection: Option<Seq<char>>,
)
    ensures
        fallback_planned(prompt, directives, reflection) matches Ok(tasks) ==> tasks.len() > 0,
{
    lemma_directed_plan_len(base_plan(), directives);
}

/// The latest reflection has the greatest timestamp among those addressed to
/// `target`, and no later record with that timestamp is addressed to it.
pub proof fn lemma_latest_reflection(records: Seq<FactRecord>, target: Seq<char>)
    ensures
        match latest_reflection_index(records, target) {
            Some(i) => {
                &&& 0 <= i < records.len()
                &&& is_reflection_for(records[i], target)
                &&& forall|j: int|
                    0 <= j < records.len() && is_reflection_for(#[trigger] records[j], target)
                        ==> records[j].fact.timestamp <= records[i].fact.timestamp
                &&& forall|j: int|
                    i < j < records.len() && is_reflection_for(#[trigger] records[j], target)
                        ==> records[j].fact.timestamp < records[i].fact.timestamp
            },
            None => forall|j: int|
                0 <= j < records.len() ==> !is_reflection_for(#[trigger] records[j], target),
        },
    decreases records.len(),
{
    if records.len() > 0 {
        let head = records.drop_last();
        lemma_latest_reflection(head, target);
        assert forall|j: int| 0 <= j < head.len() implies #[trigger] head[j] == records[j] by {}
        match latest_reflection_index(records, target) {
            Some(i) => {
                assert forall|j: int|
                    0 <= j < records.len() && is_reflection_for(
                        #[trigger] records[j],
                        target,
                    ) implies records[j].fact.timestamp <= records[i].fact.timestamp by {
                    if j < head.len() {
                        assert(head[j] == records[j]);
                    }
                }
                assert forall|j: int|
                    i < j < records.len() && is_reflection_for(
                        #[trigger] records[j],
                        target,
                    ) implies records[j].fact.timestamp < records[i].fact.timestamp by {
                    if j < head.len() {
                        assert(head[j] == records[j]);
                    }
                }
            },
            None => {
                assert forall|j: int| 0 <= j < records.len() implies !is_reflection_for(
                    #[trigger] records[j],
                    target,
                ) by {
                    if j < head.len() {
                        assert(head[j] == records[j]);
                    }
                }
            },
        }
    }
}

/// A request that names a security product gets the triage plan, one task
/// for the triage agent that carries the request as it was given, whatever
/// plan was supplied and whatever the log holds.
pub proof fn lemma_security_path_is_unconditional(
    rules: Seq<PAGIRule>,
    prompt: Seq<char>,
    supplied: Seq<char>,
    supplied_disabled: bool,
    records: Seq<FactRecord>,
)
    requires
        security_triggered(prompt),
    ensures
        planned(rules, prompt, supplied, supplied_disabled, records) == Ok::<
            Seq<TaskModel>,
            PlannerError,
        >(seq![triage_task(prompt)]),
        seq![triage_task(prompt)].len() == 1,
        triage_task(prompt).agent_type == TRIAGE_AGENT@,
{
}

/// No facts, no directives.
pub proof fn lemma_no_facts_no_directives(rules: Seq<PAGIRule>)
    ensures
        emitted_directives(rules, Seq::empty()).len() == 0,
{
    let facts = Seq::<AgentFact>::empty();
    let chosen = emitted_directives(rules, facts);
    lemma_emitted_directives_exist(rules, facts);
    if chosen.len() > 0 {
        assert(chosen.contains(chosen[0]));
        assert(is_emitted(rules, facts, chosen[0]));
    }
}

/// The canonical request with no supplied plan and an empty log gives the
/// plan of two tasks: one for the search agent, then one for the calendar
/// agent.
pub proof fn lemma_canonical_request_on_empty_log(
    rules: Seq<PAGIRule>,
    prompt: Seq<char>,
    supplied: Seq<char>,
    supplied_disabled: bool,
)
    requires
        trimmed(prompt) == CANONICAL_PROMPT@,
        !security_triggered(prompt),
        !security_triggered(trimmed(prompt)),
        is_blank(supplied),
    ensures
        planned(rules, prompt, supplied, supplied_disabled, Seq::empty()) == Ok::<
            Seq<TaskModel>,
            PlannerError,
        >(base_plan()),
        base_plan().len() == 2,
        base_plan()[0].agent_type == SEARCH_AGENT@,
        base_plan()[1].agent_type == CALENDAR_AGENT@,
{
    let records = Seq::<FactRecord>::empty();
    assert(facts_of(records) =~= Seq::empty());
    lemma_no_facts_no_directives(rules);
}

/// The search agent and the calendar agent are different agents.
pub proof fn lemma_agent_types_differ()
    ensures
        SEARCH_AGENT@ != CALENDAR_AGENT@,
        is_search(research_task()),
        !is_search(meeting_task()),
{
    reveal_strlit("SearchAgent");
    reveal_strlit("CalendarAgent");
    assert(SEARCH_AGENT@.len() == 11);
    assert(CALENDAR_AGENT@.len() == 13);
}

/// Where a directive asks for a deep rerun, the canonical request gives four
/// tasks: the search task, its two rerun variants, and the meeting as it
/// was.
pub proof fn lemma_deep_rerun_of_base_plan(directives: Seq<Seq<char>>)
    requires
        wants_deep_rerun(directives),
    ensures
        directed_plan(base_plan(), directives) == expanded_task(research_task(), directives)
            + seq![meeting_task()],
        directed_plan(base_plan(), directives).len() == 4,
        directed_plan(base_plan(), directives)[0] == research_task(),
        directed_plan(base_plan(), directives)[3] == meeting_task(),
{
    lemma_agent_types_differ();
    let plan = base_plan();
    let head = plan.drop_last();
    assert(head =~= seq![research_task()]);
    assert(head.drop_last() =~= Seq::<TaskModel>::empty());
    assert(expanded_plan(head.drop_last(), directives) =~= Seq::<TaskModel>::empty());
    assert(expanded_plan(head, directives) =~= expanded_task(research_task(), directives)) by {
        assert(head.last() == research_task());
        reveal_with_fuel(expanded_plan, 2);
    }
    assert(plan.last() == meeting_task());
    assert(expanded_plan(plan, directives) =~= expanded_plan(head, directives) + expanded_task(
        meeting_task(),
        directives,
    ));
}

/// The canonical request on a log that holds a failed analysis gives four
/// tasks under the default rules: the search task, its two rerun variants,
/// and the meeting as it was. This rests on one fact about letters that is
/// taken as given: that the lowercase form of `Rerun: Deep Search` holds
/// `deep`.
pub proof fn lemma_failure_expands_canonical_plan(
    rules: Seq<PAGIRule>,
    prompt: Seq<char>,
    supplied: Seq<char>,
    supplied_disabled: bool,
    records: Seq<FactRecord>,
    i: int,
)
    requires
        is_default_rules(rules),
        0 <= i < records.len(),
        records[i].fact.fact_type@ == "AnalysisResult"@,
        mentions(records[i].fact.content@, "Failure"@),
        mentions_ignoring_case("Rerun: Deep Search"@, "deep"@),
        trimmed(prompt) == CANONICAL_PROMPT@,
        !security_triggered(prompt),
        !security_triggered(trimmed(prompt)),
        is_blank(supplied),
    ensures
        ({
            let directives = emitted_directives(rules, facts_of(records));
            let plan = expanded_task(research_task(), directives) + seq![meeting_task()];
            &&& planned(rules, prompt, supplied, supplied_disabled, records) == Ok::<
                Seq<TaskModel>,
                PlannerError,
            >(plan)
            &&& plan.len() == 4
            &&& plan[0] == research_task()
            &&& is_search(plan[1])
            &&& is_search(plan[2])
            &&& plan[3] == meeting_task()
        }),
{
    let facts = facts_of(records);
    let directives = emitted_directives(rules, facts);
    let deep = "Rerun: Deep Search"@;
    lemma_emitted_directives_exist(rules, facts);
    assert(is_emitted(rules, facts, deep)) by {
        assert(facts[i] == records[i].fact);
        assert(rule_fires(rules[0], facts[i]));
        assert(fact_emits(rules, facts[i], deep));
    }
    assert(directives.contains(deep));
    let k = choose|k: int| 0 <= k < directives.len() && directives[k] == deep;
    assert(mentions_ignoring_case(directives[k], "deep"@));
    assert(wants_deep_rerun(directives));
    lemma_deep_rerun_of_base_plan(directives);
    lemma_agent_types_differ();
}

/// The canonical request on a log that holds one failed analysis and nothing
/// else, against the same request on an empty log. Under the default rules
/// the first task and the last are those of the plan for the empty log, and
/// between them stand the first and the second rerun variant of the search
/// task, each carrying the one directive `Rerun: Deep Search`. This rests on
/// one fact about letters that is taken as given: that the lowercase form of
/// `Rerun: Deep Search` holds `deep`.
pub proof fn lemma_failure_against_empty_log(
    rules: Seq<PAGIRule>,
    prompt: Seq<char>,
    supplied: Seq<char>,
    supplied_disabled: bool,
    records: Seq<FactRecord>,
)
    requires
        is_default_rules(rules),
        records.len() == 1,
        records[0].fact.fact_type@ == "AnalysisResult"@,
        mentions(records[0].fact.content@, "Failure"@),
        !mentions(records[0].fact.content@, "CYBER_ALERT"@),
        mentions_ignoring_case("Rerun: Deep Search"@, "deep"@),
        trimmed(prompt) == CANONICAL_PROMPT@,
        !security_triggered(prompt),
        !security_triggered(trimmed(prompt)),
        is_blank(supplied),
    ensures
        ({
            let before = planned(rules, prompt, supplied, supplied_disabled, Seq::empty());
            let after = planned(rules, prompt, supplied, supplied_disabled, records);
            let one = seq!["Rerun: Deep Search"@];
            &&& before is Ok
            &&& after is Ok
            &&& before->Ok_0.len() == 2
            &&& after->Ok_0.len() == 4
            &&& after->Ok_0[0] == before->Ok_0[0]
            &&& after->Ok_0[1] == rerun_variant(before->Ok_0[0].input_data, 1, one)
            &&& after->Ok_0[2] == rerun_variant(before->Ok_0[0].input_data, 2, one)
            &&& after->Ok_0[3] == before->Ok_0[1]
        }),
{
    let facts = facts_of(records);
    let directives = emitted_directives(rules, facts);
    let deep = "Rerun: Deep Search"@;
    let one = seq![deep];
    lemma_canonical_request_on_empty_log(rules, prompt, supplied, supplied_disabled);
    lemma_failure_expands_canonical_plan(rules, prompt, supplied, supplied_disabled, records, 0);
    lemma_emitted_directives_exist(rules, facts);
    assert forall|d: Seq<char>| one.contains(d) <==> directives.contains(d) by {
        if one.contains(d) {
            assert(d == deep);
            assert(facts[0] == records[0].fact);
            assert(rule_fires(rules[0], facts[0]));
            assert(fact_emits(rules, facts[0], deep));
            assert(is_emitted(rules, facts, deep));
        }
        if directives.contains(d) {
            assert(is_emitted(rules, facts, d));
            let i = choose|i: int| 0 <= i < facts.len() && fact_emits(rules, facts[i], d);
            assert(facts[i] == records[0].fact);
            let k = choose|k: int|
                0 <= k < rules.len() && rule_fires(#[trigger] rules[k], facts[i])
                    && rules[k].action_directive@ == d;
            assert(k == 0);
            assert(one[0] == d);
        }
    }
    assert(strictly_ascending(one));
    lemma_ascending_unique(one, directives);
}

/// Whether a request names one of the security products, in whatever case.
pub fn is_security_prompt(prompt: &str) -> (triggered: bool)
    ensures
        triggered == security_triggered(prompt@),
{
    contains_ignoring_case(prompt, "siem") || contains_ignoring_case(prompt, "crowdstrike")
        || contains_ignoring_case(prompt, "rapid7")
}

/// The compact text of the object with the given keys and string values.
fn render_text_object(pairs: &Vec<(&str, &str)>) -> (text: String)
    ensures
        text@ == text_object(pairs_model(pairs@)),
{
    let mut object = object_new();
    let mut i: usize = 0;
    assert(pairs_model(pairs@).take(0) =~= Seq::<(Seq<char>, Seq<char>)>::empty());
    while i < pairs.len()
        invariant
            i <= pairs.len(),
            object_entries(object) == text_entries(
                pairs_model(pairs@).take(i as int),
            ),
        decreases pairs.len() - i,
    {
        let ghost more = pairs_model(pairs@).take(i + 1);
        assert(more.drop_last() =~= pairs_model(pairs@).take(i as int));
        assert(more.last() == (pairs@[i as int].0@, pairs@[i as int].1@));
        object_insert(&mut object, pairs[i].0, &Json::Text(pairs[i].1.to_owned()));
        i += 1;
    }
    assert(pairs_model(pairs@).take(pairs@.len() as int) =~= pairs_model(pairs@));
    render_json(&Json::Object(object))
}

/// The task of the security path for the request `prompt`.
fn make_triage_task(prompt: &str) -> (task: Task)
    ensures
        task@ == triage_task(prompt@),
{
    let mut pairs: Vec<(&str, &str)> = Vec::new();
    pairs.push(("action", "Triage alert"));
    pairs.push(("source_prompt", prompt));
    assert(pairs_model(pairs@) =~= seq![("action"@, "Triage alert"@), ("source_prompt"@, prompt@)]);
    Task { agent_type: String::from_str(TRIAGE_AGENT), input_data: render_text_object(&pairs) }
}

/// The search task of the fixed fallback.
fn make_research_task() -> (task: Task)
    ensures
        task@ == research_task(),
{
    let mut pairs: Vec<(&str, &str)> = Vec::new();
    pairs.push(("query", "top anti-aging compounds"));
    pairs.push(("deliverable", "summary of leading compounds with citations"));
    assert(pairs_model(pairs@) =~= seq![
        ("query"@, "top anti-aging compounds"@),
        ("deliverable"@, "summary of leading compounds with citations"@),
    ]);
    Task { agent_type: String::from_str(SEARCH_AGENT), input_data: render_text_object(&pairs) }
}

/// The scheduling task of the fixed fallback.
fn make_meeting_task() -> (task: Task)
    ensures
        task@ == meeting_task(),
{
    let mut pairs: Vec<(&str, &str)> = Vec::new();
    pairs.push(("title", "Anti-aging compounds research review"));
    pairs.push(("timeframe", "next week"));
    pairs.push(("agenda", "Present research findings and next steps"));
    assert(pairs_model(pairs@) =~= seq![
        ("title"@, "Anti-aging compounds research review"@),
        ("timeframe"@, "next week"@),
        ("agenda"@, "Present research findings and next steps"@),
    ]);
    Task { agent_type: String::from_str(CALENDAR_AGENT), input_data: render_text_object(&pairs) }
}

/// One search task of the split plan.
fn make_partial_research_task(query: &str, deliverable: &str, directive: &str) -> (task: Task)
    ensures
        task@ == partial_research_task(query@, deliverable@, directive@),
{
    let mut pairs: Vec<(&str, &str)> = Vec::new();
    pairs.push(("query", query));
    pairs.push(("deliverable", deliverable));
    pairs.push(("directive_applied", directive));
    assert(pairs_model(pairs@) =~= seq![
        ("query"@, query@),
        ("deliverable"@, deliverable@),
        ("directive_applied"@, directive@),
    ]);
    Task { agent_type: String::from_str(SEARCH_AGENT), input_data: render_text_object(&pairs) }
}

/// The plan of the fixed fallback.
fn make_base_plan() -> (plan: Plan)
    ensures
        tasks_model(plan@) == base_plan(),
{
    let mut plan: Vec<Task> = Vec::new();
    plan.push(make_research_task());
    plan.push(make_meeting_task());
    assert(tasks_model(plan@) =~= base_plan());
    plan
}

/// The plan that a reflection asking for a split makes of the fallback.
fn make_split_plan(directive: &str) -> (plan: Plan)
    ensures
        tasks_model(plan@) == split_plan(directive@),
{
    let mut plan: Vec<Task> = Vec::new();
    plan.push(
        make_partial_research_task(
            "top anti-aging compounds overview",
            "high-level summary",
            directive,
        ),
    );
    plan.push(
        make_partial_research_task(
            "anti-aging: rapamycin metformin spermidine",
            "mechanisms + evidence",
            directive,
        ),
    );
    plan.push(
        make_partial_research_task(
            "anti-aging: senolytics fisetin quercetin",
            "senolytic candidates summary",
            directive,
        ),
    );
    plan.push(make_meeting_task());
    assert(tasks_model(plan@) =~= split_plan(directive@));
    plan
}

/// The task that an element of a supplied plan stands for; nothing where the
/// element has no `agent_type` that is a string.
fn read_plan_item(item: &Json) -> (task: Option<Task>)
    ensures
        match task {
            Some(found) => item_agent_type(item.model()) is Some && found@ == item_task(
                item.model(),
            ),
            None => item_agent_type(item.model()) is None,
        },
{
    let agent_type = match item.field("agent_type") {
        Some(Json::Text(text)) => text,
        _ => { return None; },
    };
    let input_data = match item.field("input_data") {
        Some(Json::Text(text)) => text,
        Some(other) => render_json(&other),
        None => render_json(&Json::Object(object_new())),
    };
    Some(Task { agent_type, input_data })
}

/// Reads a plan from a document: an array of at least one object, each with
/// an `agent_type` that is a string and, if it likes, an `input_data`. A
/// payload that is a string is taken as it stands; any other value is
/// written out as compact JSON; a missing one becomes the empty object.
pub fn plan_from_document(document: &Json) -> (res: Result<Vec<Task>, PlanParseError>)
    ensures
        match res {
            Ok(tasks) => plan_of_document(document.model()) == Ok::<
                Seq<TaskModel>,
                PlanParseError,
            >(tasks_model(tasks@)),
            Err(error) => plan_of_document(document.model()) == Err::<
                Seq<TaskModel>,
                PlanParseError,
            >(error),
        },
        res matches Ok(tasks) ==> tasks@.len() > 0,
{
    proof {
        document.lemma_model();
    }
    let items = match document {
        Json::Array(items) => items,
        _ => { return Err(PlanParseError::NotArray); },
    };
    if items.len() == 0 {
        return Err(PlanParseError::EmptyPlan);
    }
    let ghost models = items_model(items@);
    let mut tasks: Vec<Task> = Vec::new();
    let mut i: usize = 0;
    while i < items.len()
        invariant
            i <= items.len(),
            models == items_model(items@),
            document.model() == JsonModel::Array(models),
            tasks@.len() == i,
            forall|j: int| 0 <= j < i ==> item_agent_type(#[trigger] models[j]) is Some,
            forall|j: int| 0 <= j < i ==> (#[trigger] tasks@[j])@ == item_task(models[j]),
        decreases items.len() - i,
    {
        assert(models[i as int] == items@[i as int].model());
        match read_plan_item(&items[i]) {
            Some(task) => {
                tasks.push(task);
            },
            None => {
                assert(item_agent_type(models[i as int]) is None);
                return Err(PlanParseError::MissingAgentType);
            },
        }
        i += 1;
    }
    assert(tasks_model(tasks@) =~= Seq::new(models.len(), |i: int| item_task(models[i])));
    Ok(tasks)
}

/// Reads a supplied plan: JSON text that holds a plan. Text that is not
/// JSON, a document that is no array, an empty array and an element without
/// an `agent_type` that is a string each give their error.
pub fn parse_llm_plan(raw: &str) -> (res: Result<Vec<Task>, PlanParseError>)
    ensures
        match res {
            Ok(tasks) => parsed_plan(raw@) == Ok::<Seq<TaskModel>, PlanParseError>(
                tasks_model(tasks@),
            ),
            Err(error) => parsed_plan(raw@) == Err::<Seq<TaskModel>, PlanParseError>(error),
        },
        res matches Ok(tasks) ==> tasks@.len() > 0,
{
    match parse_json(raw) {
        Some(document) => plan_from_document(&document),
        None => Err(PlanParseError::NotJson),
    }
}

/// The latest reflection addressed to `target`: the one with the greatest
/// timestamp, and of several with that timestamp the last in the list.
pub fn latest_reflection_for_agent<'a>(records: &'a Vec<FactRecord>, target: &str) -> (latest:
    Option<&'a ReflectionFact>)
    ensures
        match latest {
            Some(reflection) => latest_reflection_index(records@, target@) matches Some(i)
                && records@[i].reflection == Some(*reflection),
            None => latest_reflection_index(records@, target@) is None,
        },
{
    let mut best: Option<usize> = None;
    let mut i: usize = 0;
    assert(records@.take(0) =~= Seq::<FactRecord>::empty());
    while i < records.len()
        invariant
            i <= records.len(),
            match best {
                Some(at) => latest_reflection_index(records@.take(i as int), target@) == Some(
                    at as int,
                ) && at < i && records@[at as int].reflection is Some,
                None => latest_reflection_index(records@.take(i as int), target@) is None,
            },
        decreases records.len() - i,
    {
        let ghost seen = records@.take(i + 1);
        assert(seen.drop_last() =~= records@.take(i as int));
        assert(seen.last() == records@[i as int]);
        let record = &records[i];
        let addressed = same_text(record.fact.fact_type.as_str(), REFLECTION_FACT_TYPE)
            && match &record.reflection {
            Some(reflection) => same_text(reflection.target_agent.as_str(), target),
            None => false,
        };
        assert(addressed == is_reflection_for(records@[i as int], target@));
        if addressed {
            let later = match best {
                Some(at) => {
                    assert(seen[at as int] == records@[at as int]);
                    records[at].fact.timestamp <= record.fact.timestamp
                },
                None => true,
            };
            if later {
                best = Some(i);
            }
        }
        i += 1;
    }
    assert(records@.take(records@.len() as int) =~= records@);
    match best {
        Some(at) => match &records[at].reflection {
            Some(reflection) => Some(reflection),
            None => None,
        },
        None => None,
    }
}

/// The fallback: the security path once more, decided on the trimmed
/// request and carrying the request as it was given, then the one canonical
/// request. For that request the directives decide if there are any, else
/// the latest reflection, and else the base plan stands. Any other request
/// has no plan.
pub fn fallback_plan(
    prompt: &str,
    directives: &Vec<String>,
    reflection: Option<&ReflectionFact>,
) -> (res: Result<Plan, PlannerError>)
    ensures
        plan_matches(
            res,
            fallback_planned(
                prompt@,
                texts_model(directives@),
                match reflection {
                    Some(found) => Some(found.new_directive@),
                    None => None,
                },
            ),
        ),
        res matches Ok(plan) ==> plan@.len() > 0,
{
    proof {
        lemma_fallback_plans_are_not_empty(
            prompt@,
            texts_model(directives@),
            match reflection {
                Some(found) => Some(found.new_directive@),
                None => None,
            },
        );
    }
    let normalized = trim(prompt);
    if is_security_prompt(normalized) {
        let mut plan: Vec<Task> = Vec::new();
        plan.push(make_triage_task(prompt));
        assert(tasks_model(plan@) =~= seq![triage_task(prompt@)]);
        return Ok(plan);
    }
    if !same_text(normalized, CANONICAL_PROMPT) {
        return Err(PlannerError::NoPlanMatched);
    }
    if directives.len() > 0 {
        return Ok(apply_directives(make_base_plan(), directives));
    }
    match reflection {
        Some(found) => {
            if contains_ignoring_case(found.new_directive.as_str(), "split")
                || contains_ignoring_case(found.new_directive.as_str(), "concurr") {
                return Ok(make_split_plan(found.new_directive.as_str()));
            }
        },
        None => {},
    }
    Ok(make_base_plan())
}

/// Plans a request. A request that names a security product gets the triage
/// plan at once, with the request as it was given as payload. Else the supplied plan is taken, rewritten by the directives
/// that the rules give for the facts, if it is there, allowed, well-formed
/// and not empty. Else the fallback decides.
pub fn plan_request(
    rules: &Vec<PAGIRule>,
    prompt: &str,
    supplied: &str,
    supplied_disabled: bool,
    records: &Vec<FactRecord>,
) -> (res: Result<Plan, PlannerError>)
    ensures
        plan_matches(res, planned(rules@, prompt@, supplied@, supplied_disabled, records@)),
        res matches Ok(plan) ==> plan@.len() > 0,
{
    proof {
        lemma_plans_are_not_empty(rules@, prompt@, supplied@, supplied_disabled, records@);
    }
    if is_security_prompt(prompt) {
        let mut plan: Vec<Task> = Vec::new();
        plan.push(make_triage_task(prompt));
        assert(tasks_model(plan@) =~= seq![triage_task(prompt@)]);
        return Ok(plan);
    }
    let directives = match_record_directives(rules, records);
    if !(trim(supplied).unicode_len() == 0 || supplied_disabled) {
        match parse_llm_plan(supplied) {
            Ok(tasks) => {
                return Ok(apply_directives(tasks, &directives));
            },
            Err(_) => {},
        }
    }
    fallback_plan(prompt, &directives, latest_reflection_for_agent(records, SEARCH_AGENT))
}

} // verus!
