//! Plans, and how directives rewrite them.
//!
//! A plan is an ordered list of tasks. When a directive asks for a deep rerun,
//! every search task is followed, in place, by two rerun variants of itself.

use vstd::prelude::*;
use vstd::string::StringExecFns;
use crate::decimal::decimal_text;
use crate::json::{
    items_model, no_entries, number_from, object_insert, object_new, option_model, parse_json,
    parsed_json, render_json, rendered_json, text_array, Json, JsonModel,
};
use crate::rules::texts_model;
use crate::text::{contains_ignoring_case, mentions_ignoring_case, same_text};

verus! {

/// The agent type whose tasks a deep rerun multiplies.
pub const SEARCH_AGENT: &'static str = "SearchAgent";

/// A unit of work for one agent.
#[derive(Debug, Clone)]
pub struct Task {
    /// The kind of agent that is to run the task.
    pub agent_type: String,
    /// A serialized payload, most often a JSON object, for the agent to read.
    pub input_data: String,
}

/// An ordered list of tasks.
pub type Plan = Vec<Task>;

/// The mathematical form of a task.
pub struct TaskModel {
    pub agent_type: Seq<char>,
    pub input_data: Seq<char>,
}

impl View for Task {
    type V = TaskModel;

    open spec fn view(&self) -> TaskModel {
        TaskModel { agent_type: self.agent_type@, input_data: self.input_data@ }
    }
}

/// The mathematical form of a plan.
pub open spec fn tasks_model(tasks: Seq<Task>) -> Seq<TaskModel> {
    Seq::new(tasks.len(), |i: int| tasks[i]@)
}

/// Whether some directive mentions `deep`, in whatever case.
pub open spec fn wants_deep_rerun(directives: Seq<Seq<char>>) -> bool {
    exists|i: int|
        0 <= i < directives.len() && mentions_ignoring_case(#[trigger] directives[i], "deep"@)
}

/// Whether a task is for the search agent.
pub open spec fn is_search(task: TaskModel) -> bool {
    task.agent_type == SEARCH_AGENT@
}

/// The entries that a rerun variant starts from: those of the payload where
/// it is a JSON object, else the payload itself under `raw`. `document` is
/// what the payload holds as JSON, if it is JSON.
pub open spec fn payload_entries(document: Option<JsonModel>, input_data: Seq<char>) -> Map<
    Seq<char>,
    JsonModel,
> {
    match document {
        Some(JsonModel::Object(entries)) => entries,
        _ => no_entries().insert("raw"@, JsonModel::Text(input_data)),
    }
}

/// The entries of the rerun variant `ordinal`: the mark of a deep rerun, the
/// ordinal and the directives, put into the entries of the payload.
pub open spec fn rerun_entries(
    document: Option<JsonModel>,
    input_data: Seq<char>,
    ordinal: nat,
    directives: Seq<Seq<char>>,
) -> Map<Seq<char>, JsonModel> {
    payload_entries(document, input_data).insert("deep"@, JsonModel::Bool(true)).insert(
        "rerun_variant"@,
        JsonModel::Number(decimal_text(ordinal)),
    ).insert("symbolic_directives"@, text_array(directives))
}

/// The rerun variant `ordinal` of a search task with the given payload.
pub open spec fn rerun_variant(
    input_data: Seq<char>,
    ordinal: nat,
    directives: Seq<Seq<char>>,
) -> TaskModel {
    TaskModel {
        agent_type: SEARCH_AGENT@,
        input_data: rendered_json(
            JsonModel::Object(
                rerun_entries(parsed_json(input_data), input_data, ordinal, directives),
            ),
        ),
    }
}

/// What a deep rerun makes of one task: a search task, then its two
/// variants; any other task alone.
pub open spec fn expanded_task(task: TaskModel, directives: Seq<Seq<char>>) -> Seq<TaskModel> {
    if is_search(task) {
        seq![
            task,
            rerun_variant(task.input_data, 1, directives),
            rerun_variant(task.input_data, 2, directives),
        ]
    } else {
        seq![task]
    }
}

/// What a deep rerun makes of a plan: each task expanded where it stands.
pub open spec fn expanded_plan(plan: Seq<TaskModel>, directives: Seq<Seq<char>>) -> Seq<TaskModel>
    decreases plan.len(),
{
    if plan.len() == 0 {
        Seq::empty()
    } else {
        expanded_plan(plan.drop_last(), directives) + expanded_task(plan.last(), directives)
    }
}

/// The plan that the directives make of `plan`: the plan itself unless a
/// directive asks for a deep rerun.
pub open spec fn directed_plan(plan: Seq<TaskModel>, directives: Seq<Seq<char>>) -> Seq<TaskModel> {
    if wants_deep_rerun(directives) {
        expanded_plan(plan, directives)
    } else {
        plan
    }
}

/// The number of search tasks in a plan.
pub open spec fn search_count(plan: Seq<TaskModel>) -> nat {
    plan.filter(|task: TaskModel| is_search(task)).len()
}

/// The tasks of a plan that are not for the search agent, in order.
pub open spec fn other_tasks(plan: Seq<TaskModel>) -> Seq<TaskModel> {
    plan.filter(|task: TaskModel| !is_search(task))
}

/// A deep rerun keeps the tasks that are not for the search agent, in their
/// order and number, and makes three tasks of every search task.
pub proof fn lemma_expanded_plan_counts(plan: Seq<TaskModel>, directives: Seq<Seq<char>>)
    ensures
        other_tasks(expanded_plan(plan, directives)) == other_tasks(plan),
        search_count(expanded_plan(plan, directives)) == 3 * search_count(plan),
        expanded_plan(plan, directives).len() == plan.len() + 2 * search_count(plan),
    decreases plan.len(),
{
    let search = |task: TaskModel| is_search(task);
    let other = |task: TaskModel| !is_search(task);
    if plan.len() == 0 {
        assert(expanded_plan(plan, directives) =~= plan);
    } else {
        let head = plan.drop_last();
        let last = plan.last();
        let piece = expanded_task(last, directives);
        lemma_expanded_plan_counts(head, directives);
        assert(plan =~= head + seq![last]);
        Seq::filter_distributes_over_add(head, seq![last], search);
        Seq::filter_distributes_over_add(head, seq![last], other);
        Seq::filter_distributes_over_add(expanded_plan(head, directives), piece, search);
        Seq::filter_distributes_over_add(expanded_plan(head, directives), piece, other);
        lemma_filter_one(last, search);
        lemma_filter_one(last, other);
        if is_search(last) {
            let v1 = rerun_variant(last.input_data, 1, directives);
            let v2 = rerun_variant(last.input_data, 2, directives);
            assert(piece =~= seq![last] + seq![v1] + seq![v2]);
            Seq::filter_distributes_over_add(seq![last] + seq![v1], seq![v2], search);
            Seq::filter_distributes_over_add(seq![last], seq![v1], search);
            Seq::filter_distributes_over_add(seq![last] + seq![v1], seq![v2], other);
            Seq::filter_distributes_over_add(seq![last], seq![v1], other);
            lemma_filter_one(v1, search);
            lemma_filter_one(v2, search);
            lemma_filter_one(v1, other);
            lemma_filter_one(v2, other);
            assert(piece.filter(search) =~= piece);
            assert(piece.filter(other) =~= Seq::<TaskModel>::empty());
            assert(other_tasks(expanded_plan(plan, directives)) =~= other_tasks(plan));
        }
    }
}

/// A list of one element, filtered: the element where it passes, else
/// nothing.
proof fn lemma_filter_one(task: TaskModel, pred: spec_fn(TaskModel) -> bool)
    ensures
        seq![task].filter(pred) == if pred(task) {
            seq![task]
        } else {
            Seq::<TaskModel>::empty()
        },
{
    let one = seq![task];
    assert(one.drop_last() =~= Seq::<TaskModel>::empty());
    assert(one.drop_last().filter(pred) =~= Seq::<TaskModel>::empty());
    reveal_with_fuel(Seq::filter, 2);
    if pred(task) {
        assert(one.filter(pred) =~= one);
    }
}

/// A search task at place `i` of the plan stands in the expanded plan behind
/// what the tasks before it became, with its first and second variant next.
pub proof fn lemma_expanded_plan_in_place(plan: Seq<TaskModel>, directives: Seq<Seq<char>>, i: int)
    requires
        0 <= i < plan.len(),
    ensures
        ({
            let at = expanded_plan(plan.take(i), directives).len() as int;
            let out = expanded_plan(plan, directives);
            &&& at + expanded_task(plan[i], directives).len() <= out.len()
            &&& out.subrange(at, at + expanded_task(plan[i], directives).len()) == expanded_task(
                plan[i],
                directives,
            )
        }),
    decreases plan.len(),
{
    let head = plan.drop_last();
    if i == plan.len() - 1 {
        assert(plan.take(i) =~= head);
        let at = expanded_plan(head, directives).len() as int;
        let out = expanded_plan(plan, directives);
        assert(out.subrange(at, at + expanded_task(plan[i], directives).len()) =~= expanded_task(
            plan[i],
            directives,
        ));
    } else {
        lemma_expanded_plan_in_place(head, directives, i);
        assert(head.take(i) =~= plan.take(i));
        assert(head[i] == plan[i]);
        let at = expanded_plan(plan.take(i), directives).len() as int;
        let width = expanded_task(plan[i], directives).len() as int;
        let out = expanded_plan(plan, directives);
        let inner = expanded_plan(head, directives);
        assert(out.subrange(at, at + width) =~= inner.subrange(at, at + width));
    }
}

/// Whether some directive mentions `deep`, in whatever case.
pub fn asks_for_deep_rerun(directives: &Vec<String>) -> (wanted: bool)
    ensures
        wanted == wants_deep_rerun(texts_model(directives@)),
{
    let mut i: usize = 0;
    while i < directives.len()
        invariant
            i <= directives.len(),
            forall|j: int|
                0 <= j < i ==> !mentions_ignoring_case(
                    #[trigger] texts_model(directives@)[j],
                    "deep"@,
                ),
        decreases directives.len() - i,
    {
        assert(texts_model(directives@)[i as int] == directives@[i as int]@);
        if contains_ignoring_case(directives[i].as_str(), "deep") {
            return true;
        }
        i += 1;
    }
    false
}

/// The directives as a JSON array of strings.
fn directives_array(directives: &Vec<String>) -> (array: Json)
    ensures
        array.model() == text_array(texts_model(directives@)),
{
    let mut items: Vec<Json> = Vec::new();
    let mut i: usize = 0;
    while i < directives.len()
        invariant
            i <= directives.len(),
            items@.len() == i,
            forall|j: int|
                0 <= j < i ==> (#[trigger] items@[j]).model() == JsonModel::Text(directives@[j]@),
        decreases directives.len() - i,
    {
        items.push(Json::Text(directives[i].clone()));
        i += 1;
    }
    let array = Json::Array(items);
    proof {
        array.lemma_model();
        assert(items_model(items@) =~= text_array(texts_model(directives@))->Array_0);
    }
    array
}

/// The payload of the rerun variant `ordinal` of a search task. `document`
/// is what the payload `input_data` of the task holds as JSON, if it is JSON.
/// An object keeps its entries; anything else goes under `raw` as the text
/// that it was. Then the mark of a deep rerun, the ordinal and the
/// directives are put in, each in the place of an entry of its name.
pub fn rerun_payload(
    document: Option<Json>,
    input_data: &str,
    ordinal: u8,
    directives: &Vec<String>,
) -> (payload: Json)
    ensures
        payload.model() == JsonModel::Object(
            rerun_entries(
                option_model(document),
                input_data@,
                ordinal as nat,
                texts_model(directives@),
            ),
        ),
{
    let mut object = match document {
        Some(Json::Object(object)) => object,
        _ => {
            let mut object = object_new();
            object_insert(&mut object, "raw", &Json::Text(input_data.to_owned()));
            object
        },
    };
    object_insert(&mut object, "deep", &Json::Bool(true));
    object_insert(&mut object, "rerun_variant", &Json::Number(number_from(ordinal as u64)));
    object_insert(&mut object, "symbolic_directives", &directives_array(directives));
    Json::Object(object)
}

/// The rerun variant `ordinal` of a search task with the payload
/// `input_data`.
pub fn make_rerun_variant(input_data: &str, ordinal: u8, directives: &Vec<String>) -> (task: Task)
    ensures
        task@ == rerun_variant(input_data@, ordinal as nat, texts_model(directives@)),
{
    let payload = rerun_payload(parse_json(input_data), input_data, ordinal, directives);
    Task { agent_type: String::from_str(SEARCH_AGENT), input_data: render_json(&payload) }
}

/// Rewrites a plan by the directives. Unless a directive mentions `deep`, in
/// whatever case, the plan comes back as it is. Otherwise every task for the
/// search agent is followed, where it stands, by its two rerun variants, and
/// every other task is kept.
pub fn apply_directives(plan: Plan, directives: &Vec<String>) -> (out: Plan)
    ensures
        !wants_deep_rerun(texts_model(directives@)) ==> out@ == plan@,
        tasks_model(out@) == directed_plan(tasks_model(plan@), texts_model(directives@)),
{
    if !asks_for_deep_rerun(directives) {
        return plan;
    }
    let ghost source = tasks_model(plan@);
    let ghost texts = texts_model(directives@);
    let mut out: Vec<Task> = Vec::new();
    assert(source.take(0) =~= Seq::<TaskModel>::empty());
    assert(tasks_model(out@) =~= Seq::<TaskModel>::empty());
    for task in tasks: plan
        invariant
            tasks.seq() == plan@,
            source == tasks_model(plan@),
            texts == texts_model(directives@),
            tasks_model(out@) == expanded_plan(source.take(tasks.index() as int), texts),
    {
        let ghost done = tasks_model(out@);
        let ghost i = tasks.index() as int;
        assert(task@ == source[i]);
        assert(source.take(i + 1).drop_last() =~= source.take(i));
        assert(source.take(i + 1).last() == source[i]);
        if same_text(task.agent_type.as_str(), SEARCH_AGENT) {
            let first = make_rerun_variant(task.input_data.as_str(), 1, directives);
            let second = make_rerun_variant(task.input_data.as_str(), 2, directives);
            out.push(task);
            out.push(first);
            out.push(second);
        } else {
            out.push(task);
        }
        assert(tasks_model(out@) =~= done + expanded_task(source[i], texts));
    }
    assert(source.take(source.len() as int) =~= source);
    out
}

} // verus!
