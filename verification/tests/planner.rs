use pagi_core::json::Json;
use pagi_core::planner::{
    fallback_plan, is_security_prompt, latest_reflection_for_agent, parse_llm_plan,
    plan_from_document, plan_request,
};
use pagi_core::rules::default_rules;
use pagi_core::{
    AgentFact, FactRecord, PAGICoreModel, PlanParseError, PlannerError, ReflectionFact, Task,
};

const EXAMPLE: &str = "Please research the top anti-aging compounds and schedule a team meeting for next week to present the findings.";

fn record(timestamp: u64, fact_type: &str, content: &str) -> FactRecord {
    FactRecord {
        fact: AgentFact {
            agent_id: "agent".to_string(),
            timestamp,
            fact_type: fact_type.to_string(),
            content: content.to_string(),
        },
        reflection: None,
    }
}

fn reflection(timestamp: u64, target: &str, directive: &str) -> FactRecord {
    FactRecord {
        fact: AgentFact {
            agent_id: "ReflectiveAgent".to_string(),
            timestamp,
            fact_type: "ReflectionFact".to_string(),
            content: "stored form".to_string(),
        },
        reflection: Some(ReflectionFact {
            target_agent: target.to_string(),
            critique: "too slow".to_string(),
            new_directive: directive.to_string(),
        }),
    }
}

fn kinds(plan: &[Task]) -> Vec<&str> {
    plan.iter().map(|task| task.agent_type.as_str()).collect()
}

#[test]
fn example_prompt_returns_two_tasks() {
    let model = PAGICoreModel::new();
    let prompt = "Please research the top anti-aging compounds and schedule a team meeting for next week to present the findings.";
    let tasks = model
        .general_reasoning(prompt, "", false, &Vec::new())
        .expect("expected Ok plan");

    assert_eq!(tasks.len(), 2);
    assert_eq!(tasks[0].agent_type, "SearchAgent");
    assert_eq!(tasks[1].agent_type, "CalendarAgent");
}

#[test]
fn the_base_plan_has_fixed_payloads() {
    let model = PAGICoreModel::new();
    let tasks = model.general_reasoning(EXAMPLE, "   \n", false, &Vec::new()).expect("a plan");
    assert_eq!(
        tasks[0].input_data,
        "{\"deliverable\":\"summary of leading compounds with citations\",\"query\":\"top anti-aging compounds\"}"
    );
    assert_eq!(
        tasks[1].input_data,
        "{\"agenda\":\"Present research findings and next steps\",\"timeframe\":\"next week\",\"title\":\"Anti-aging compounds research review\"}"
    );
}

#[test]
fn the_example_prompt_is_trimmed_before_it_is_compared() {
    let model = PAGICoreModel::new();
    let padded = format!("  \t{EXAMPLE}\n ");
    let tasks = model.general_reasoning(&padded, "", false, &Vec::new()).expect("a plan");
    assert_eq!(kinds(&tasks), vec!["SearchAgent", "CalendarAgent"]);
    let changed = format!("{EXAMPLE}!");
    assert_eq!(
        model.general_reasoning(&changed, "", false, &Vec::new()).map(|plan| plan.len()),
        Err(PlannerError::NoPlanMatched)
    );
    let lower = EXAMPLE.to_lowercase();
    assert_eq!(
        model.general_reasoning(&lower, "", false, &Vec::new()).map(|plan| plan.len()),
        Err(PlannerError::NoPlanMatched)
    );
}

#[test]
fn a_stored_failure_expands_the_search_task() {
    let model = PAGICoreModel::new();
    let records = vec![record(5, "AnalysisResult", "Failure: SearchAgent timeout")];
    let tasks = model.general_reasoning(EXAMPLE, "", false, &records).expect("a plan");
    assert_eq!(kinds(&tasks), vec!["SearchAgent", "SearchAgent", "SearchAgent", "CalendarAgent"]);
    assert_eq!(
        tasks[0].input_data,
        "{\"deliverable\":\"summary of leading compounds with citations\",\"query\":\"top anti-aging compounds\"}"
    );
    assert_eq!(
        tasks[1].input_data,
        "{\"deep\":true,\"deliverable\":\"summary of leading compounds with citations\",\"query\":\"top anti-aging compounds\",\"rerun_variant\":1,\"symbolic_directives\":[\"Rerun: Deep Search\"]}"
    );
    assert_eq!(
        tasks[2].input_data,
        "{\"deep\":true,\"deliverable\":\"summary of leading compounds with citations\",\"query\":\"top anti-aging compounds\",\"rerun_variant\":2,\"symbolic_directives\":[\"Rerun: Deep Search\"]}"
    );
    assert_eq!(
        tasks[3].input_data,
        "{\"agenda\":\"Present research findings and next steps\",\"timeframe\":\"next week\",\"title\":\"Anti-aging compounds research review\"}"
    );
}

#[test]
fn a_directive_that_is_not_deep_leaves_the_base_plan() {
    let model = PAGICoreModel::new();
    let records = vec![
        record(5, "AnalysisResult", "CYBER_ALERT: lateral movement"),
        reflection(6, "SearchAgent", "split the work"),
    ];
    let tasks = model.general_reasoning(EXAMPLE, "", false, &records).expect("a plan");
    assert_eq!(kinds(&tasks), vec!["SearchAgent", "CalendarAgent"]);
}

#[test]
fn a_security_prompt_always_gets_the_triage_plan() {
    let model = PAGICoreModel::new();
    let records = vec![
        record(5, "AnalysisResult", "Failure: SearchAgent timeout"),
        reflection(6, "SearchAgent", "split"),
    ];
    let supplied = "[{\"agent_type\":\"SearchAgent\",\"input_data\":\"x\"}]";
    for prompt in [
        "Investigate the CrowdStrike alert",
        "crowdstrike",
        "  why did CROWDSTRIKE page me?  ",
        "xxcRoWdStRiKexx",
        "check the SIEM",
        "Rapid7 says hello",
    ] {
        for (text, disabled, log) in [
            (supplied, false, &records),
            ("", false, &records),
            ("not json", true, &records),
            (supplied, true, &Vec::new()),
        ] {
            let tasks = model.general_reasoning(prompt, text, disabled, log).expect("a plan");
            assert_eq!(tasks.len(), 1);
            assert_eq!(tasks[0].agent_type, "CybersecurityAgent");
            let payload: serde_json::Value =
                serde_json::from_str(&tasks[0].input_data).expect("the payload is JSON");
            assert_eq!(payload["action"], serde_json::Value::from("Triage alert"));
            assert_eq!(payload["source_prompt"], serde_json::Value::from(prompt));
        }
    }
    let tasks = model
        .general_reasoning(" alert from CrowdStrike \n", "", false, &Vec::new())
        .expect("a plan");
    assert_eq!(
        tasks[0].input_data,
        "{\"action\":\"Triage alert\",\"source_prompt\":\" alert from CrowdStrike \\n\"}"
    );
}

#[test]
fn security_keywords_are_found_in_any_case() {
    assert!(is_security_prompt("SIEM"));
    assert!(is_security_prompt("a siemens product"));
    assert!(is_security_prompt("Rapid7"));
    assert!(is_security_prompt("CrowdStrike"));
    assert!(!is_security_prompt("crowd strike"));
    assert!(!is_security_prompt("rapid 7"));
    assert!(!is_security_prompt(""));
    assert!(!is_security_prompt(EXAMPLE));
}

#[test]
fn a_supplied_plan_is_taken_when_well_formed() {
    let model = PAGICoreModel::new();
    let supplied = "[{\"agent_type\":\"MailAgent\",\"input_data\":\"send it\"},{\"agent_type\":\"SearchAgent\",\"input_data\":{\"query\":\"q\",\"depth\":2}},{\"agent_type\":\"CalendarAgent\"}]";
    let tasks = model.general_reasoning("anything at all", supplied, false, &Vec::new()).expect("a plan");
    assert_eq!(kinds(&tasks), vec!["MailAgent", "SearchAgent", "CalendarAgent"]);
    assert_eq!(tasks[0].input_data, "send it");
    assert_eq!(tasks[1].input_data, "{\"depth\":2,\"query\":\"q\"}");
    assert_eq!(tasks[2].input_data, "{}");
}

#[test]
fn a_supplied_plan_is_rewritten_by_the_directives() {
    let model = PAGICoreModel::new();
    let supplied = "[{\"agent_type\":\"SearchAgent\",\"input_data\":\"free text\"},{\"agent_type\":\"MailAgent\",\"input_data\":\"m\"}]";
    let records = vec![record(1, "AnalysisResult", "Failure")];
    let tasks = model.general_reasoning("anything", supplied, false, &records).expect("a plan");
    assert_eq!(kinds(&tasks), vec!["SearchAgent", "SearchAgent", "SearchAgent", "MailAgent"]);
    assert_eq!(tasks[0].input_data, "free text");
    assert_eq!(
        tasks[1].input_data,
        "{\"deep\":true,\"raw\":\"free text\",\"rerun_variant\":1,\"symbolic_directives\":[\"Rerun: Deep Search\"]}"
    );
}

#[test]
fn a_bad_supplied_plan_falls_back() {
    let model = PAGICoreModel::new();
    for supplied in [
        "not json",
        "{\"agent_type\":\"SearchAgent\"}",
        "[]",
        "[{\"input_data\":\"x\"}]",
        "[{\"agent_type\":5}]",
        "[\"SearchAgent\"]",
        "[{\"agent_type\":\"A\"},{\"agent\":\"B\"}]",
    ] {
        let tasks = model.general_reasoning(EXAMPLE, supplied, false, &Vec::new()).expect("the fallback plan");
        assert_eq!(kinds(&tasks), vec!["SearchAgent", "CalendarAgent"]);
        assert_eq!(
            model.general_reasoning("something else", supplied, false, &Vec::new()).map(|plan| plan.len()),
            Err(PlannerError::NoPlanMatched)
        );
    }
}

#[test]
fn the_switch_forces_the_fallback() {
    let model = PAGICoreModel::new();
    let supplied = "[{\"agent_type\":\"MailAgent\",\"input_data\":\"send it\"}]";
    assert_eq!(
        model.general_reasoning("anything", supplied, true, &Vec::new()).map(|plan| plan.len()),
        Err(PlannerError::NoPlanMatched)
    );
    let tasks = model.general_reasoning(EXAMPLE, supplied, true, &Vec::new()).expect("a plan");
    assert_eq!(kinds(&tasks), vec!["SearchAgent", "CalendarAgent"]);
    assert_eq!(PlannerError::NoPlanMatched.message(), "No planning rule matched this prompt (stub planner).");
}

#[test]
fn parse_llm_plan_names_what_is_wrong() {
    assert_eq!(parse_llm_plan("nope").map(|plan| plan.len()), Err(PlanParseError::NotJson));
    assert_eq!(parse_llm_plan("").map(|plan| plan.len()), Err(PlanParseError::NotJson));
    assert_eq!(parse_llm_plan("{}").map(|plan| plan.len()), Err(PlanParseError::NotArray));
    assert_eq!(parse_llm_plan("7").map(|plan| plan.len()), Err(PlanParseError::NotArray));
    assert_eq!(
        parse_llm_plan("[{\"agent_type\":\"A\"},{}]").map(|plan| plan.len()),
        Err(PlanParseError::MissingAgentType)
    );
    assert_eq!(
        parse_llm_plan("[{\"agent_type\":null}]").map(|plan| plan.len()),
        Err(PlanParseError::MissingAgentType)
    );
    assert_eq!(parse_llm_plan("[]").map(|plan| plan.len()), Err(PlanParseError::EmptyPlan));
    assert_eq!(parse_llm_plan(" [ ] ").map(|plan| plan.len()), Err(PlanParseError::EmptyPlan));
    let plan = parse_llm_plan(
        "[{\"agent_type\":\"A\",\"input_data\":null},{\"agent_type\":\"B\",\"input_data\":[1,\"two\"],\"extra\":1},{\"agent_type\":\"C\",\"input_data\":\"\"},{\"agent_type\":\"D\",\"input_data\":-0.5}]",
    )
    .expect("a plan");
    assert_eq!(kinds(&plan), vec!["A", "B", "C", "D"]);
    assert_eq!(plan[0].input_data, "null");
    assert_eq!(plan[1].input_data, "[1,\"two\"]");
    assert_eq!(plan[2].input_data, "");
    assert_eq!(plan[3].input_data, "-0.5");
}

#[test]
fn a_reflection_that_asks_for_a_split_gives_four_tasks() {
    let model = PAGICoreModel::new();
    let records = vec![
        record(1, "Observation", "nothing to see"),
        reflection(2, "SearchAgent", "Split the query and run concurrently"),
    ];
    let tasks = model.general_reasoning(EXAMPLE, "", false, &records).expect("a plan");
    assert_eq!(kinds(&tasks), vec!["SearchAgent", "SearchAgent", "SearchAgent", "CalendarAgent"]);
    assert_eq!(
        tasks[0].input_data,
        "{\"deliverable\":\"high-level summary\",\"directive_applied\":\"Split the query and run concurrently\",\"query\":\"top anti-aging compounds overview\"}"
    );
    assert_eq!(
        tasks[1].input_data,
        "{\"deliverable\":\"mechanisms + evidence\",\"directive_applied\":\"Split the query and run concurrently\",\"query\":\"anti-aging: rapamycin metformin spermidine\"}"
    );
    assert_eq!(
        tasks[2].input_data,
        "{\"deliverable\":\"senolytic candidates summary\",\"directive_applied\":\"Split the query and run concurrently\",\"query\":\"anti-aging: senolytics fisetin quercetin\"}"
    );
    assert_eq!(
        tasks[3].input_data,
        "{\"agenda\":\"Present research findings and next steps\",\"timeframe\":\"next week\",\"title\":\"Anti-aging compounds research review\"}"
    );
    let concurrent = vec![reflection(2, "SearchAgent", "more CONCURRency please")];
    let tasks = model.general_reasoning(EXAMPLE, "", false, &concurrent).expect("a plan");
    assert_eq!(tasks.len(), 4);
}

#[test]
fn only_the_latest_reflection_for_the_search_agent_counts() {
    let model = PAGICoreModel::new();
    let records = vec![
        reflection(9, "SearchAgent", "split it"),
        reflection(10, "SearchAgent", "be thorough"),
        reflection(11, "CalendarAgent", "split it"),
    ];
    let tasks = model.general_reasoning(EXAMPLE, "", false, &records).expect("a plan");
    assert_eq!(kinds(&tasks), vec!["SearchAgent", "CalendarAgent"]);

    let latest = latest_reflection_for_agent(&records, "SearchAgent").expect("there are two");
    assert_eq!(latest.new_directive, "be thorough");
    let latest = latest_reflection_for_agent(&records, "CalendarAgent").expect("there is one");
    assert_eq!(latest.new_directive, "split it");
    assert!(latest_reflection_for_agent(&records, "MailAgent").is_none());
    assert!(latest_reflection_for_agent(&Vec::new(), "SearchAgent").is_none());
}

#[test]
fn of_reflections_with_one_timestamp_the_last_counts() {
    let mut mistyped = reflection(7, "SearchAgent", "wrong type");
    mistyped.fact.fact_type = "Reflection".to_string();
    let mut undecoded = reflection(8, "SearchAgent", "no payload");
    undecoded.reflection = None;
    let records = vec![
        reflection(5, "SearchAgent", "first"),
        reflection(5, "SearchAgent", "second"),
        reflection(4, "SearchAgent", "older"),
        mistyped,
        undecoded,
    ];
    let latest = latest_reflection_for_agent(&records, "SearchAgent").expect("there are three");
    assert_eq!(latest.new_directive, "second");
}

#[test]
fn the_fallback_knows_one_request() {
    let none: Vec<String> = Vec::new();
    assert_eq!(
        fallback_plan("schedule lunch", &none, None).map(|plan| plan.len()),
        Err(PlannerError::NoPlanMatched)
    );
    assert_eq!(
        fallback_plan("", &none, None).map(|plan| plan.len()),
        Err(PlannerError::NoPlanMatched)
    );
    let triage = fallback_plan(" SIEM down ", &none, None).expect("the triage plan");
    assert_eq!(kinds(&triage), vec!["CybersecurityAgent"]);
    assert_eq!(
        triage[0].input_data,
        "{\"action\":\"Triage alert\",\"source_prompt\":\" SIEM down \"}"
    );
    let plain = ReflectionFact {
        target_agent: "SearchAgent".to_string(),
        critique: "c".to_string(),
        new_directive: "try harder".to_string(),
    };
    let base = fallback_plan(EXAMPLE, &none, Some(&plain)).expect("the base plan");
    assert_eq!(kinds(&base), vec!["SearchAgent", "CalendarAgent"]);
    let directives = vec!["anything".to_string()];
    let split = ReflectionFact {
        target_agent: "SearchAgent".to_string(),
        critique: "c".to_string(),
        new_directive: "split".to_string(),
    };
    let directed = fallback_plan(EXAMPLE, &directives, Some(&split)).expect("the base plan");
    assert_eq!(kinds(&directed), vec!["SearchAgent", "CalendarAgent"]);
}

#[test]
fn plan_request_is_what_the_model_does() {
    let rules = default_rules();
    let records = vec![record(5, "AnalysisResult", "Failure: SearchAgent timeout")];
    let tasks = plan_request(&rules, EXAMPLE, "", false, &records).expect("a plan");
    assert_eq!(tasks.len(), 4);
    let none = plan_request(&Vec::new(), EXAMPLE, "", false, &records).expect("a plan");
    assert_eq!(none.len(), 2);
}

#[test]
fn a_stored_failure_changes_only_the_search_task() {
    let model = PAGICoreModel::new();
    let before = model.general_reasoning(EXAMPLE, "", false, &Vec::new()).expect("a plan");
    let records = vec![record(3, "AnalysisResult", "Failure: the search came back empty")];
    let after = model.general_reasoning(EXAMPLE, "", false, &records).expect("a plan");
    assert_eq!(before.len(), 2);
    assert_eq!(after.len(), 4);
    assert_eq!(after[0].agent_type, before[0].agent_type);
    assert_eq!(after[0].input_data, before[0].input_data);
    assert_eq!(after[3].agent_type, before[1].agent_type);
    assert_eq!(after[3].input_data, before[1].input_data);
    let base: serde_json::Value = serde_json::from_str(&before[0].input_data).expect("JSON");
    for (task, ordinal) in [(&after[1], 1u8), (&after[2], 2u8)] {
        assert_eq!(task.agent_type, "SearchAgent");
        let mut expected = base.as_object().expect("an object").clone();
        expected.insert("deep".to_string(), serde_json::Value::Bool(true));
        expected.insert("rerun_variant".to_string(), serde_json::Value::from(ordinal));
        expected.insert(
            "symbolic_directives".to_string(),
            serde_json::Value::Array(vec![serde_json::Value::from("Rerun: Deep Search")]),
        );
        let variant: serde_json::Value = serde_json::from_str(&task.input_data).expect("JSON");
        assert_eq!(variant, serde_json::Value::Object(expected));
    }
}

fn object(entries: Vec<(&str, serde_json::Value)>) -> Json {
    let mut map = serde_json::Map::new();
    for (key, value) in entries {
        map.insert(key.to_string(), value);
    }
    Json::Object(map)
}

#[test]
fn a_plan_is_read_from_a_document() {
    let document = Json::Array(vec![
        object(vec![
            ("agent_type", serde_json::Value::from("MailAgent")),
            ("input_data", serde_json::Value::from("send it")),
        ]),
        object(vec![
            ("agent_type", serde_json::Value::from("SearchAgent")),
            ("input_data", serde_json::Value::Array(vec![serde_json::Value::from(1u8), serde_json::Value::Null])),
            ("more", serde_json::Value::Bool(true)),
        ]),
        object(vec![("agent_type", serde_json::Value::from("CalendarAgent"))]),
    ]);
    let plan = plan_from_document(&document).expect("a plan");
    assert_eq!(kinds(&plan), vec!["MailAgent", "SearchAgent", "CalendarAgent"]);
    assert_eq!(plan[0].input_data, "send it");
    assert_eq!(plan[1].input_data, "[1,null]");
    assert_eq!(plan[2].input_data, "{}");
}

#[test]
fn a_document_that_is_no_plan_gives_its_error() {
    assert_eq!(
        plan_from_document(&Json::Array(Vec::new())).map(|plan| plan.len()),
        Err(PlanParseError::EmptyPlan)
    );
    assert_eq!(
        plan_from_document(&object(vec![("agent_type", serde_json::Value::from("A"))])).map(|plan| plan.len()),
        Err(PlanParseError::NotArray)
    );
    assert_eq!(plan_from_document(&Json::Null).map(|plan| plan.len()), Err(PlanParseError::NotArray));
    assert_eq!(
        plan_from_document(&Json::Text("[]".to_string())).map(|plan| plan.len()),
        Err(PlanParseError::NotArray)
    );
    let missing = Json::Array(vec![
        object(vec![("agent_type", serde_json::Value::from("A"))]),
        object(vec![("agent_type", serde_json::Value::from(7u8))]),
    ]);
    assert_eq!(plan_from_document(&missing).map(|plan| plan.len()), Err(PlanParseError::MissingAgentType));
    let no_object = Json::Array(vec![Json::Text("SearchAgent".to_string())]);
    assert_eq!(plan_from_document(&no_object).map(|plan| plan.len()), Err(PlanParseError::MissingAgentType));
}
