//! The symbolic rule engine: facts are matched against a fixed set of rules,
//! and the directives of the rules that fire come out sorted, each once.

use vstd::prelude::*;
use vstd::string::StringExecFns;
use crate::facts::{facts_of, AgentFact, FactRecord};
use crate::text::{
    contains, lemma_text_lt_irreflexive, lemma_text_lt_total, lemma_text_lt_transitive, mentions,
    same_text, text_less, text_lt,
};

verus! {

/// A symbolic rule: if a fact of the given type mentions the keyword, the
/// directive is due. The rule set is fixed for the life of the core.
#[derive(Debug)]
pub struct PAGIRule {
    pub id: String,
    pub condition_fact_type: String,
    pub condition_keyword: String,
    pub action_directive: String,
}

/// Whether `rule` fires on `fact`: the types are equal and the content holds
/// the keyword, case and all.
pub open spec fn rule_fires(rule: PAGIRule, fact: AgentFact) -> bool {
    fact.fact_type@ == rule.condition_fact_type@ && mentions(
        fact.content@,
        rule.condition_keyword@,
    )
}

/// Whether some rule that fires on `fact` gives `directive`.
pub open spec fn fact_emits(rules: Seq<PAGIRule>, fact: AgentFact, directive: Seq<char>) -> bool {
    exists|j: int|
        0 <= j < rules.len() && rule_fires(#[trigger] rules[j], fact) && rules[j].action_directive@
            == directive
}

/// Whether some rule that fires on one of `facts` gives `directive`.
pub open spec fn is_emitted(
    rules: Seq<PAGIRule>,
    facts: Seq<AgentFact>,
    directive: Seq<char>,
) -> bool {
    exists|i: int| 0 <= i < facts.len() && fact_emits(rules, #[trigger] facts[i], directive)
}

/// The texts of a list of strings.
pub open spec fn texts_model(texts: Seq<String>) -> Seq<Seq<char>> {
    Seq::new(texts.len(), |i: int| texts[i]@)
}

/// Whether each text is below all later ones: sorted, and none twice.
pub open spec fn strictly_ascending(texts: Seq<Seq<char>>) -> bool {
    forall|i: int, j: int| 0 <= i < j < texts.len() ==> text_lt(texts[i], texts[j])
}

/// Whether `directives` is what the rules give for the facts: the directives
/// of the rules that fire, sorted, each once.
pub open spec fn directives_of(
    rules: Seq<PAGIRule>,
    facts: Seq<AgentFact>,
    directives: Seq<Seq<char>>,
) -> bool {
    &&& strictly_ascending(directives)
    &&& forall|d: Seq<char>|
        #![trigger directives.contains(d)]
        #![trigger is_emitted(rules, facts, d)]
        directives.contains(d) <==> is_emitted(rules, facts, d)
}

/// The directives that the rules give for the facts: the directives of the
/// rules that fire, sorted, each once.
pub open spec fn emitted_directives(rules: Seq<PAGIRule>, facts: Seq<AgentFact>) -> Seq<Seq<char>> {
    choose|directives: Seq<Seq<char>>| directives_of(rules, facts, directives)
}

/// Whether two facts say the same: every field reads the same.
pub open spec fn same_fact(a: AgentFact, b: AgentFact) -> bool {
    &&& a.agent_id@ == b.agent_id@
    &&& a.timestamp == b.timestamp
    &&& a.fact_type@ == b.fact_type@
    &&& a.content@ == b.content@
}

/// Whether each fact of `a` is also in `b`.
pub open spec fn facts_within(a: Seq<AgentFact>, b: Seq<AgentFact>) -> bool {
    forall|i: int|
        0 <= i < a.len() ==> exists|j: int| 0 <= j < b.len() && same_fact(#[trigger] a[i], b[j])
}

/// Whether two lists of facts hold the same facts, in whatever order and
/// however often.
pub open spec fn same_facts(a: Seq<AgentFact>, b: Seq<AgentFact>) -> bool {
    facts_within(a, b) && facts_within(b, a)
}

/// A sorted list without repetition is fixed by what it holds.
pub proof fn lemma_ascending_unique(a: Seq<Seq<char>>, b: Seq<Seq<char>>)
    requires
        strictly_ascending(a),
        strictly_ascending(b),
        forall|d: Seq<char>| a.contains(d) <==> b.contains(d),
    ensures
        a == b,
    decreases a.len(),
{
    if a.len() == 0 {
        if b.len() > 0 {
            assert(b.contains(b[0]));
            assert(a.contains(b[0]));
        }
        assert(a =~= b);
    } else if b.len() == 0 {
        assert(a.contains(a[0]));
        assert(b.contains(a[0]));
    } else {
        // The least text of each list is the first one, so the first ones agree.
        assert(a.contains(a[0]));
        assert(b.contains(a[0]));
        let ib = choose|i: int| 0 <= i < b.len() && b[i] == a[0];
        assert(b.contains(b[0]));
        assert(a.contains(b[0]));
        let ia = choose|i: int| 0 <= i < a.len() && a[i] == b[0];
        if ib > 0 && ia > 0 {
            assert(text_lt(b[0], b[ib]));
            assert(text_lt(a[0], a[ia]));
            lemma_text_lt_transitive(a[0], b[0], a[0]);
            lemma_text_lt_irreflexive(a[0]);
        }
        assert(a[0] == b[0]);
        let ra = a.drop_first();
        let rb = b.drop_first();
        assert forall|d: Seq<char>| ra.contains(d) <==> rb.contains(d) by {
            if ra.contains(d) {
                let i = choose|i: int| 0 <= i < ra.len() && ra[i] == d;
                assert(a[i + 1] == d);
                assert(a.contains(d));
                assert(text_lt(a[0], a[i + 1]));
                let k = choose|k: int| 0 <= k < b.len() && b[k] == d;
                if k == 0 {
                    lemma_text_lt_irreflexive(d);
                }
                assert(rb[k - 1] == d);
            }
            if rb.contains(d) {
                let i = choose|i: int| 0 <= i < rb.len() && rb[i] == d;
                assert(b[i + 1] == d);
                assert(b.contains(d));
                assert(text_lt(b[0], b[i + 1]));
                let k = choose|k: int| 0 <= k < a.len() && a[k] == d;
                if k == 0 {
                    lemma_text_lt_irreflexive(d);
                }
                assert(ra[k - 1] == d);
            }
        }
        assert(strictly_ascending(ra)) by {
            assert forall|i: int, j: int| 0 <= i < j < ra.len() implies text_lt(ra[i], ra[j]) by {
                assert(text_lt(a[i + 1], a[j + 1]));
            }
        }
        assert(strictly_ascending(rb)) by {
            assert forall|i: int, j: int| 0 <= i < j < rb.len() implies text_lt(rb[i], rb[j]) by {
                assert(text_lt(b[i + 1], b[j + 1]));
            }
        }
        lemma_ascending_unique(ra, rb);
        assert(a =~= seq![a[0]] + ra);
        assert(b =~= seq![b[0]] + rb);
    }
}

/// What the facts of `a` give, the facts of `b` give too where they hold
/// every fact of `a`.
proof fn lemma_emitted_within(
    rules: Seq<PAGIRule>,
    a: Seq<AgentFact>,
    b: Seq<AgentFact>,
    directive: Seq<char>,
)
    requires
        facts_within(a, b),
        is_emitted(rules, a, directive),
    ensures
        is_emitted(rules, b, directive),
{
    let i = choose|i: int| 0 <= i < a.len() && fact_emits(rules, a[i], directive);
    let j = choose|j: int| 0 <= j < b.len() && same_fact(a[i], b[j]);
    let k = choose|k: int|
        0 <= k < rules.len() && rule_fires(#[trigger] rules[k], a[i]) && rules[k].action_directive@
            == directive;
    assert(rule_fires(rules[k], b[j]));
    assert(fact_emits(rules, b[j], directive));
}

/// The directives depend on which facts there are, not on their order or
/// number: for the same rules and the same facts the list is the same, in
/// content and in order.
pub proof fn lemma_directives_deterministic(
    rules: Seq<PAGIRule>,
    facts_a: Seq<AgentFact>,
    facts_b: Seq<AgentFact>,
    directives_a: Seq<Seq<char>>,
    directives_b: Seq<Seq<char>>,
)
    requires
        same_facts(facts_a, facts_b),
        directives_of(rules, facts_a, directives_a),
        directives_of(rules, facts_b, directives_b),
    ensures
        directives_a == directives_b,
{
    assert forall|d: Seq<char>| is_emitted(rules, facts_a, d) <==> is_emitted(
        rules,
        facts_b,
        d,
    ) by {
        if is_emitted(rules, facts_a, d) {
            lemma_emitted_within(rules, facts_a, facts_b, d);
        }
        if is_emitted(rules, facts_b, d) {
            lemma_emitted_within(rules, facts_b, facts_a, d);
        }
    }
    lemma_ascending_unique(directives_a, directives_b);
}

/// Whether `rules` is the rule set that the core starts with: a failure in
/// an analysis asks for a deep rerun, and a cyber alert for triage.
pub open spec fn is_default_rules(rules: Seq<PAGIRule>) -> bool {
    &&& rules.len() == 2
    &&& rules[0].id@ == "rule_failure_rerun_deep"@
    &&& rules[0].condition_fact_type@ == "AnalysisResult"@
    &&& rules[0].condition_keyword@ == "Failure"@
    &&& rules[0].action_directive@ == "Rerun: Deep Search"@
    &&& rules[1].id@ == "rule_cyber_alert_triage"@
    &&& rules[1].condition_fact_type@ == "AnalysisResult"@
    &&& rules[1].condition_keyword@ == "CYBER_ALERT"@
    &&& rules[1].action_directive@ == "TASK: CybersecurityAgent, INPUT: Triage alert"@
}

/// `list` with `directive` put in at its place; `list` itself where it
/// holds the directive already.
spec fn with_directive(list: Seq<Seq<char>>, directive: Seq<char>) -> Seq<Seq<char>>
    decreases list.len(),
{
    if list.len() == 0 {
        seq![directive]
    } else if list.first() == directive {
        list
    } else if text_lt(directive, list.first()) {
        seq![directive] + list
    } else {
        seq![list.first()] + with_directive(list.drop_first(), directive)
    }
}

/// `list` with the directive of each rule that fires on `fact` put in.
spec fn with_fact(rules: Seq<PAGIRule>, fact: AgentFact, list: Seq<Seq<char>>) -> Seq<Seq<char>>
    decreases rules.len(),
{
    if rules.len() == 0 {
        list
    } else {
        let inner = with_fact(rules.drop_last(), fact, list);
        if rule_fires(rules.last(), fact) {
            with_directive(inner, rules.last().action_directive@)
        } else {
            inner
        }
    }
}

/// The directives of the facts, built fact by fact.
spec fn built_directives(rules: Seq<PAGIRule>, facts: Seq<AgentFact>) -> Seq<Seq<char>>
    decreases facts.len(),
{
    if facts.len() == 0 {
        Seq::empty()
    } else {
        with_fact(rules, facts.last(), built_directives(rules, facts.drop_last()))
    }
}

/// A sorted list without repetition stays one when a directive is put in,
/// and holds the directive and what it held.
proof fn lemma_with_directive(list: Seq<Seq<char>>, directive: Seq<char>)
    requires
        strictly_ascending(list),
    ensures
        strictly_ascending(with_directive(list, directive)),
        forall|d: Seq<char>|
            #![trigger with_directive(list, directive).contains(d)]
            #![trigger list.contains(d)]
            with_directive(list, directive).contains(d) <==> (list.contains(d) || d == directive),
    decreases list.len(),
{
    let out = with_directive(list, directive);
    if list.len() == 0 {
        assert forall|d: Seq<char>| out.contains(d) <==> (list.contains(d) || d == directive) by {
            if d == directive {
                assert(out[0] == d);
            }
        }
    } else if list.first() == directive {
        assert forall|d: Seq<char>| out.contains(d) <==> (list.contains(d) || d == directive) by {
            if d == directive {
                assert(list[0] == d);
            }
        }
    } else if text_lt(directive, list.first()) {
        assert forall|i: int, j: int| 0 <= i < j < out.len() implies text_lt(out[i], out[j]) by {
            if i == 0 {
                if j > 1 {
                    assert(text_lt(list[0], list[j - 1]));
                    lemma_text_lt_transitive(directive, list[0], list[j - 1]);
                }
            } else {
                assert(text_lt(list[i - 1], list[j - 1]));
            }
        }
        assert forall|d: Seq<char>| out.contains(d) <==> (list.contains(d) || d == directive) by {
            if out.contains(d) {
                let k = choose|k: int| 0 <= k < out.len() && out[k] == d;
                if k > 0 {
                    assert(list[k - 1] == d);
                }
            }
            if list.contains(d) {
                let k = choose|k: int| 0 <= k < list.len() && list[k] == d;
                assert(out[k + 1] == d);
            }
            if d == directive {
                assert(out[0] == d);
            }
        }
    } else {
        let tail = list.drop_first();
        let inner = with_directive(tail, directive);
        assert(strictly_ascending(tail)) by {
            assert forall|i: int, j: int| 0 <= i < j < tail.len() implies text_lt(
                tail[i],
                tail[j],
            ) by {
                assert(text_lt(list[i + 1], list[j + 1]));
            }
        }
        lemma_with_directive(tail, directive);
        lemma_text_lt_total(list.first(), directive);
        assert forall|d: Seq<char>| out.contains(d) <==> (list.contains(d) || d == directive) by {
            if out.contains(d) {
                let k = choose|k: int| 0 <= k < out.len() && out[k] == d;
                if k == 0 {
                    assert(list[0] == d);
                } else {
                    assert(inner[k - 1] == d);
                    assert(inner.contains(d));
                    if tail.contains(d) {
                        let m = choose|m: int| 0 <= m < tail.len() && tail[m] == d;
                        assert(list[m + 1] == d);
                    }
                }
            }
            if list.contains(d) {
                let k = choose|k: int| 0 <= k < list.len() && list[k] == d;
                if k == 0 {
                    assert(out[0] == d);
                } else {
                    assert(tail[k - 1] == d);
                    assert(tail.contains(d));
                    assert(inner.contains(d));
                    let m = choose|m: int| 0 <= m < inner.len() && inner[m] == d;
                    assert(out[m + 1] == d);
                }
            }
            if d == directive {
                assert(inner.contains(d));
                let m = choose|m: int| 0 <= m < inner.len() && inner[m] == d;
                assert(out[m + 1] == d);
            }
        }
        assert forall|i: int, j: int| 0 <= i < j < out.len() implies text_lt(out[i], out[j]) by {
            if i == 0 {
                // What stands behind the first text is the directive or stood
                // behind it before.
                assert(inner[j - 1] == out[j]);
                assert(inner.contains(out[j]));
                if tail.contains(out[j]) {
                    let m = choose|m: int| 0 <= m < tail.len() && tail[m] == out[j];
                    assert(text_lt(list[0], list[m + 1]));
                }
            } else {
                assert(text_lt(inner[i - 1], inner[j - 1]));
            }
        }
    }
}

/// Putting in what the rules give for one fact keeps a list sorted and
/// without repetition, and adds just that.
proof fn lemma_with_fact(rules: Seq<PAGIRule>, fact: AgentFact, list: Seq<Seq<char>>)
    requires
        strictly_ascending(list),
    ensures
        strictly_ascending(with_fact(rules, fact, list)),
        forall|d: Seq<char>|
            #![trigger with_fact(rules, fact, list).contains(d)]
            #![trigger list.contains(d)]
            #![trigger fact_emits(rules, fact, d)]
            with_fact(rules, fact, list).contains(d) <==> (list.contains(d) || fact_emits(
                rules,
                fact,
                d,
            )),
    decreases rules.len(),
{
    let out = with_fact(rules, fact, list);
    if rules.len() == 0 {
    } else {
        let head = rules.drop_last();
        let inner = with_fact(head, fact, list);
        lemma_with_fact(head, fact, list);
        if rule_fires(rules.last(), fact) {
            lemma_with_directive(inner, rules.last().action_directive@);
        }
        assert forall|d: Seq<char>| out.contains(d) <==> (list.contains(d) || fact_emits(
            rules,
            fact,
            d,
        )) by {
            if fact_emits(head, fact, d) {
                let k = choose|k: int|
                    0 <= k < head.len() && rule_fires(#[trigger] head[k], fact)
                        && head[k].action_directive@ == d;
                assert(rules[k] == head[k]);
            }
            if fact_emits(rules, fact, d) {
                let k = choose|k: int|
                    0 <= k < rules.len() && rule_fires(#[trigger] rules[k], fact)
                        && rules[k].action_directive@ == d;
                if k < head.len() {
                    assert(head[k] == rules[k]);
                }
            }
            if rule_fires(rules.last(), fact) && rules.last().action_directive@ == d {
                assert(rules[rules.len() - 1] == rules.last());
            }
        }
    }
}

/// For every rule set and every list of facts there is the list that
/// `emitted_directives` names: sorted, without repetition, and holding the
/// directive of each rule that fires on some fact and nothing else.
pub proof fn lemma_emitted_directives_exist(rules: Seq<PAGIRule>, facts: Seq<AgentFact>)
    ensures
        directives_of(rules, facts, emitted_directives(rules, facts)),
{
    lemma_built_directives(rules, facts);
}

/// The list that is built fact by fact is the list of the directives.
proof fn lemma_built_directives(rules: Seq<PAGIRule>, facts: Seq<AgentFact>)
    ensures
        directives_of(rules, facts, built_directives(rules, facts)),
    decreases facts.len(),
{
    let out = built_directives(rules, facts);
    if facts.len() == 0 {
        assert forall|d: Seq<char>| out.contains(d) <==> is_emitted(rules, facts, d) by {}
    } else {
        let head = facts.drop_last();
        lemma_built_directives(rules, head);
        lemma_with_fact(rules, facts.last(), built_directives(rules, head));
        assert(head =~= facts.take(facts.len() - 1));
        assert(facts.take(facts.len() as int) =~= facts);
        lemma_directives_step(rules, facts, facts.len() - 1, built_directives(rules, head), out);
    }
}

/// The rule set that the core starts with.
pub fn default_rules() -> (rules: Vec<PAGIRule>)
    ensures
        is_default_rules(rules@),
{
    let mut rules: Vec<PAGIRule> = Vec::new();
    rules.push(
        PAGIRule {
            id: String::from_str("rule_failure_rerun_deep"),
            condition_fact_type: String::from_str("AnalysisResult"),
            condition_keyword: String::from_str("Failure"),
            action_directive: String::from_str("Rerun: Deep Search"),
        },
    );
    rules.push(
        PAGIRule {
            id: String::from_str("rule_cyber_alert_triage"),
            condition_fact_type: String::from_str("AnalysisResult"),
            condition_keyword: String::from_str("CYBER_ALERT"),
            action_directive: String::from_str("TASK: CybersecurityAgent, INPUT: Triage alert"),
        },
    );
    rules
}

/// Whether `rule` fires on `fact`.
pub fn fires(rule: &PAGIRule, fact: &AgentFact) -> (fired: bool)
    ensures
        fired == rule_fires(*rule, *fact),
{
    same_text(fact.fact_type.as_str(), rule.condition_fact_type.as_str()) && contains(
        fact.content.as_str(),
        rule.condition_keyword.as_str(),
    )
}

/// Puts `directive` into a sorted list without repetition, at its place;
/// the list stays as it is where it holds the directive already.
fn insert_directive(list: &mut Vec<String>, directive: &str)
    requires
        strictly_ascending(texts_model(old(list)@)),
    ensures
        strictly_ascending(texts_model(final(list)@)),
        forall|d: Seq<char>|
            #![trigger texts_model(final(list)@).contains(d)]
            #![trigger texts_model(old(list)@).contains(d)]
            texts_model(final(list)@).contains(d) <==> (texts_model(old(list)@).contains(d) || d
                == directive@),
{
    let ghost before = texts_model(list@);
    let mut at: usize = 0;
    while at < list.len() && text_less(list[at].as_str(), directive)
        invariant
            at <= list.len(),
            list@ == old(list)@,
            before == texts_model(list@),
            forall|j: int| 0 <= j < at ==> text_lt(#[trigger] before[j], directive@),
        decreases list.len() - at,
    {
        assert(before[at as int] == list@[at as int]@);
        at += 1;
    }
    if at < list.len() && same_text(list[at].as_str(), directive) {
        assert(before[at as int] == directive@);
        assert forall|d: Seq<char>| before.contains(d) || d == directive@ implies before.contains(
            d,
        ) by {}
        return ;
    }
    proof {
        assert forall|j: int| 0 <= j < before.len() implies before[j] != directive@ by {
            if j < at {
                assert(text_lt(before[j], directive@));
                lemma_text_lt_irreflexive(directive@);
            } else if j > at {
                assert(text_lt(before[at as int], before[j]));
                assert(before[at as int] == list@[at as int]@);
                if before[j] == directive@ {
                    lemma_text_lt_total(before[at as int], directive@);
                    lemma_text_lt_transitive(directive@, before[at as int], directive@);
                    lemma_text_lt_irreflexive(directive@);
                }
            } else {
                assert(before[at as int] == list@[at as int]@);
            }
        }
    }
    list.insert(at, directive.to_owned());
    proof {
        let after = texts_model(list@);
        assert(after =~= before.insert(at as int, directive@));
        assert forall|i: int, j: int| 0 <= i < j < after.len() implies text_lt(
            after[i],
            after[j],
        ) by {
            if j < at {
                assert(text_lt(before[i], before[j]));
            } else if j == at {
                assert(text_lt(before[i], directive@));
            } else if i == at {
                // The text that stood here was not below the directive and
                // is not the directive: the directive is below it and below
                // all that follow.
                assert(before[at as int] == old(list)@[at as int]@);
                lemma_text_lt_total(before[at as int], directive@);
                if j - 1 > at {
                    assert(text_lt(before[at as int], before[j - 1]));
                    lemma_text_lt_transitive(directive@, before[at as int], before[j - 1]);
                }
            } else if i < at {
                assert(text_lt(before[i], before[j - 1]));
            } else {
                assert(text_lt(before[i - 1], before[j - 1]));
            }
        }
        assert forall|d: Seq<char>| after.contains(d) <==> (before.contains(d) || d
            == directive@) by {
            if after.contains(d) {
                let k = choose|k: int| 0 <= k < after.len() && after[k] == d;
                if k < at {
                    assert(before[k] == d);
                } else if k > at {
                    assert(before[k - 1] == d);
                }
            }
            if before.contains(d) {
                let k = choose|k: int| 0 <= k < before.len() && before[k] == d;
                if k < at {
                    assert(after[k] == d);
                } else {
                    assert(after[k + 1] == d);
                }
            }
            if d == directive@ {
                assert(after[at as int] == d);
            }
        }
    }
}

/// Puts into `list` the directive of each rule that fires on `fact`.
fn collect_directives(rules: &Vec<PAGIRule>, fact: &AgentFact, list: &mut Vec<String>)
    requires
        strictly_ascending(texts_model(old(list)@)),
    ensures
        strictly_ascending(texts_model(final(list)@)),
        forall|d: Seq<char>|
            #![trigger texts_model(final(list)@).contains(d)]
            #![trigger texts_model(old(list)@).contains(d)]
            #![trigger fact_emits(rules@, *fact, d)]
            texts_model(final(list)@).contains(d) <==> (texts_model(old(list)@).contains(d)
                || fact_emits(rules@, *fact, d)),
{
    let mut j: usize = 0;
    while j < rules.len()
        invariant
            j <= rules.len(),
            strictly_ascending(texts_model(list@)),
            forall|d: Seq<char>|
                texts_model(list@).contains(d) <==> (texts_model(old(list)@).contains(d)
                    || fact_emits(rules@.take(j as int), *fact, d)),
        decreases rules.len() - j,
    {
        if fires(&rules[j], fact) {
            insert_directive(list, rules[j].action_directive.as_str());
        }
        proof {
            let head = rules@.take(j as int);
            let more = rules@.take(j + 1);
            assert forall|d: Seq<char>|
                texts_model(list@).contains(d) <==> (texts_model(old(list)@).contains(d)
                    || fact_emits(more, *fact, d)) by {
                if fact_emits(head, *fact, d) {
                    let k = choose|k: int|
                        0 <= k < head.len() && rule_fires(#[trigger] head[k], *fact)
                            && head[k].action_directive@ == d;
                    assert(more[k] == head[k]);
                }
                if fact_emits(more, *fact, d) {
                    let k = choose|k: int|
                        0 <= k < more.len() && rule_fires(#[trigger] more[k], *fact)
                            && more[k].action_directive@ == d;
                    if k < j {
                        assert(head[k] == more[k]);
                    }
                }
                if rule_fires(rules@[j as int], *fact) && rules@[j as int].action_directive@ == d {
                    assert(more[j as int] == rules@[j as int]);
                }
            }
        }
        j += 1;
    }
    assert(rules@.take(rules@.len() as int) =~= rules@);
}

/// One more fact: the directives of the facts so far, with those that the
/// rules give for the next fact put in, are the directives of the facts up to
/// and with that fact.
proof fn lemma_directives_step(
    rules: Seq<PAGIRule>,
    facts: Seq<AgentFact>,
    i: int,
    before: Seq<Seq<char>>,
    after: Seq<Seq<char>>,
)
    requires
        0 <= i < facts.len(),
        directives_of(rules, facts.take(i), before),
        strictly_ascending(after),
        forall|d: Seq<char>|
            #![trigger after.contains(d)]
            #![trigger before.contains(d)]
            #![trigger fact_emits(rules, facts[i], d)]
            after.contains(d) <==> (before.contains(d) || fact_emits(rules, facts[i], d)),
    ensures
        directives_of(rules, facts.take(i + 1), after),
{
    let head = facts.take(i);
    let more = facts.take(i + 1);
    assert forall|d: Seq<char>| after.contains(d) <==> is_emitted(rules, more, d) by {
        if is_emitted(rules, head, d) {
            let k = choose|k: int| 0 <= k < head.len() && fact_emits(rules, #[trigger] head[k], d);
            assert(more[k] == head[k]);
        }
        if is_emitted(rules, more, d) {
            let k = choose|k: int| 0 <= k < more.len() && fact_emits(rules, #[trigger] more[k], d);
            if k < i {
                assert(head[k] == more[k]);
            }
        }
        if fact_emits(rules, facts[i], d) {
            assert(more[i] == facts[i]);
        }
    }
}

/// The list that `directives_of` describes is the one that
/// `emitted_directives` names.
proof fn lemma_emitted_directives(
    rules: Seq<PAGIRule>,
    facts: Seq<AgentFact>,
    directives: Seq<Seq<char>>,
)
    requires
        directives_of(rules, facts, directives),
    ensures
        directives == emitted_directives(rules, facts),
{
    let chosen = emitted_directives(rules, facts);
    assert(directives_of(rules, facts, chosen));
    lemma_ascending_unique(directives, chosen);
}

/// The directives that the rules give for the facts: the directive of each
/// rule that fires on some fact, sorted, each once.
pub fn match_directives(rules: &Vec<PAGIRule>, facts: &Vec<AgentFact>) -> (directives: Vec<String>)
    ensures
        directives_of(rules@, facts@, texts_model(directives@)),
        texts_model(directives@) == emitted_directives(rules@, facts@),
{
    let mut list: Vec<String> = Vec::new();
    let mut i: usize = 0;
    assert(texts_model(list@) =~= Seq::<Seq<char>>::empty());
    assert(facts@.take(0) =~= Seq::<AgentFact>::empty());
    while i < facts.len()
        invariant
            i <= facts.len(),
            directives_of(rules@, facts@.take(i as int), texts_model(list@)),
        decreases facts.len() - i,
    {
        let ghost before = texts_model(list@);
        collect_directives(rules, &facts[i], &mut list);
        proof {
            lemma_directives_step(rules@, facts@, i as int, before, texts_model(list@));
        }
        i += 1;
    }
    proof {
        assert(facts@.take(facts@.len() as int) =~= facts@);
        lemma_emitted_directives(rules@, facts@, texts_model(list@));
    }
    list
}

/// The directives that the rules give for the facts of the records.
pub fn match_record_directives(rules: &Vec<PAGIRule>, records: &Vec<FactRecord>) -> (directives:
    Vec<String>)
    ensures
        texts_model(directives@) == emitted_directives(rules@, facts_of(records@)),
{
    let ghost facts = facts_of(records@);
    let mut list: Vec<String> = Vec::new();
    let mut i: usize = 0;
    assert(texts_model(list@) =~= Seq::<Seq<char>>::empty());
    assert(facts.take(0) =~= Seq::<AgentFact>::empty());
    while i < records.len()
        invariant
            i <= records.len(),
            facts == facts_of(records@),
            directives_of(rules@, facts.take(i as int), texts_model(list@)),
        decreases records.len() - i,
    {
        let ghost before = texts_model(list@);
        collect_directives(rules, &records[i].fact, &mut list);
        proof {
            assert(facts[i as int] == records@[i as int].fact);
            lemma_directives_step(rules@, facts, i as int, before, texts_model(list@));
        }
        i += 1;
    }
    proof {
        assert(facts.take(facts.len() as int) =~= facts);
        lemma_emitted_directives(rules@, facts, texts_model(list@));
    }
    list
}

} // verus!
