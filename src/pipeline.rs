//! What one line does: rules in order, each matched rule's actions in
//! order, and the stop/continue state that ends a line's evaluation early.

use vstd::prelude::*;
use crate::codec::json_parse;
use crate::context::{render_result, render_template, CaptureContext};
use crate::merge::{merge, merged};
use crate::codec::json_text;
use crate::message::{parsed_line, MessageV, ParsedMessage};
use crate::rules::{rule_match, rules_view, Action, ActionV, Rule, RuleV};
use crate::value::{Json, JsonV};

verus! {

/// One record handed to the broker: topic, routing key and payload.
#[derive(Clone, Debug, PartialEq, Eq)]
pub struct Publish {
    pub topic: String,
    pub key: String,
    pub payload: String,
}

/// The model of a `Publish`.
pub struct PublishV {
    pub topic: Seq<char>,
    pub key: Seq<char>,
    pub payload: Seq<char>,
}

impl View for Publish {
    type V = PublishV;

    open spec fn view(&self) -> PublishV {
        PublishV { topic: self.topic@, key: self.key@, payload: self.payload@ }
    }
}

/// The model of a list of publishes.
pub open spec fn publishes_view(p: Seq<Publish>) -> Seq<PublishV> {
    Seq::new(p.len(), |i: int| p[i]@)
}

/// The state of a line's evaluation: the current rule's output buffer,
/// whether later rules are still to be evaluated, and what was published so
/// far, in order.
pub struct RuleRun {
    pub output: String,
    pub continue_rules: bool,
    pub published: Vec<Publish>,
}

/// The model of a `RuleRun`.
pub struct RunV {
    pub output: Seq<char>,
    pub continue_rules: bool,
    pub published: Seq<PublishV>,
}

impl View for RuleRun {
    type V = RunV;

    open spec fn view(&self) -> RunV {
        RunV {
            output: self.output@,
            continue_rules: self.continue_rules,
            published: publishes_view(self.published@),
        }
    }
}

/// The state a line starts in: empty buffer, rules to be evaluated, nothing
/// published.
pub open spec fn fresh_run() -> RunV {
    RunV { output: Seq::empty(), continue_rules: true, published: Seq::empty() }
}

/// A forward whose topic rendered to `topic` publishes the buffer as key
/// and payload; one whose topic did not render does nothing.
pub open spec fn forward_done(st: RunV, topic: Option<Seq<char>>) -> RunV {
    match topic {
        Some(t) => RunV {
            published: st.published.push(PublishV { topic: t, key: st.output, payload: st.output }),
            ..st
        },
        None => st,
    }
}

/// A merge into a body that parsed to `parsed` sets the buffer to the text
/// of the merged value; where the body is not structured data the buffer
/// stays and no later rule is evaluated.
pub open spec fn merge_done(st: RunV, parsed: Option<JsonV>, patch: JsonV) -> RunV {
    match parsed {
        Some(v) => RunV { output: json_text(merged(v, patch)), ..st },
        None => RunV { continue_rules: false, ..st },
    }
}

/// A replace whose template rendered to `text` sets the buffer to it; one
/// that did not render does nothing.
pub open spec fn replace_done(st: RunV, text: Option<Seq<char>>) -> RunV {
    match text {
        Some(t) => RunV { output: t, ..st },
        None => st,
    }
}

/// A stop: no later rule is evaluated.
pub open spec fn stop_done(st: RunV) -> RunV {
    RunV { continue_rules: false, ..st }
}

/// One action run against a capture context and the message body.
pub open spec fn step(a: ActionV, ctx: Map<Seq<char>, Seq<char>>, body: Seq<char>, st: RunV) -> RunV {
    match a {
        ActionV::Forward(t) => forward_done(st, render_result(t, ctx)),
        ActionV::Merge(p) => merge_done(st, json_parse(body), p),
        ActionV::Replace(t) => replace_done(st, render_result(t, ctx)),
        ActionV::Stop => stop_done(st),
    }
}

/// The first `n` actions run in order.
pub open spec fn run_actions(
    actions: Seq<ActionV>,
    ctx: Map<Seq<char>, Seq<char>>,
    body: Seq<char>,
    st: RunV,
    n: int,
) -> RunV
    decreases n,
{
    if n <= 0 {
        st
    } else {
        step(actions[n - 1], ctx, body, run_actions(actions, ctx, body, st, n - 1))
    }
}

/// One rule: skipped where it does not match; else its actions run in
/// order, starting from an empty buffer.
pub open spec fn run_rule(rule: RuleV, m: MessageV, st: RunV) -> RunV {
    match rule_match(rule, m) {
        None => st,
        Some(ctx) => run_actions(
            rule.actions,
            ctx,
            m.msg,
            RunV { output: Seq::empty(), ..st },
            rule.actions.len() as int,
        ),
    }
}

/// The first `n` rules evaluated in order from a fresh state, each only
/// while no earlier one has stopped the chain.
pub open spec fn run_chain(rules: Seq<RuleV>, m: MessageV, n: int) -> RunV
    decreases n,
{
    if n <= 0 {
        fresh_run()
    } else {
        let prev = run_chain(rules, m, n - 1);
        if prev.continue_rules {
            run_rule(rules[n - 1], m, prev)
        } else {
            prev
        }
    }
}

/// What a record publishes, in order, under a rule list.
pub open spec fn line_outcome(rules: Seq<RuleV>, m: MessageV) -> Seq<PublishV> {
    run_chain(rules, m, rules.len() as int).published
}

/// Why a line produced nothing.
#[derive(Clone, Copy, Debug, PartialEq, Eq)]
pub enum LineError {
    /// The line is not a valid syslog record; the connection ends.
    Unparsable,
}

impl RuleRun {
    /// The state a line starts in.
    pub fn new() -> (r: RuleRun)
        ensures
            r@ == fresh_run(),
    {
        let r = RuleRun { output: String::new(), continue_rules: true, published: Vec::new() };
        proof {
            assert(r@.published =~= Seq::<PublishV>::empty());
        }
        r
    }

    /// A forward whose topic template rendered to `topic` (or failed to).
    pub fn apply_forward(&mut self, topic: Option<String>)
        ensures
            final(self)@ == forward_done(old(self)@, match topic {
                Some(t) => Some(t@),
                None => None,
            }),
    {
        if let Some(t) = topic {
            let p = Publish { topic: t, key: self.output.clone(), payload: self.output.clone() };
            let ghost before = self.published@;
            self.published.push(p);
            proof {
                assert(publishes_view(self.published@) =~= publishes_view(before).push(p@));
            }
        }
    }

    /// A merge of `patch` into a body that parsed to `parsed` (or did not).
    pub fn apply_merge(&mut self, parsed: Option<Json>, patch: &Json)
        ensures
            final(self)@ == merge_done(old(self)@, match parsed {
                Some(v) => Some(v@),
                None => None,
            }, patch@),
    {
        match parsed {
            Some(v) => {
                let mut v = v;
                merge(&mut v, patch);
                self.output = v.to_text();
            },
            None => {
                self.continue_rules = false;
            },
        }
    }

    /// A replace whose template rendered to `text` (or failed to).
    pub fn apply_replace(&mut self, text: Option<String>)
        ensures
            final(self)@ == replace_done(old(self)@, match text {
                Some(t) => Some(t@),
                None => None,
            }),
    {
        if let Some(t) = text {
            self.output = t;
        }
    }

    /// A stop.
    pub fn apply_stop(&mut self)
        ensures
            final(self)@ == stop_done(old(self)@),
    {
        self.continue_rules = false;
    }

    /// Runs one action of a matched rule.
    pub fn execute(&mut self, action: &Action, ctx: &CaptureContext, body: &str)
        ensures
            final(self)@ == step(action@, ctx@, body@, old(self)@),
    {
        match action {
            Action::Forward { topic } => {
                let t = render_template(topic.as_str(), ctx);
                self.apply_forward(t);
            },
            Action::Merge { json } => {
                let parsed = Json::parse(body);
                self.apply_merge(parsed, json);
            },
            Action::Replace { template } => {
                let t = render_template(template.as_str(), ctx);
                self.apply_replace(t);
            },
            Action::Stop => {
                self.apply_stop();
            },
        }
    }

    /// Runs a matched rule's actions, all of them, in order.
    pub fn execute_all(&mut self, actions: &Vec<Action>, ctx: &CaptureContext, body: &str)
        ensures
            final(self)@ == run_actions(
                Seq::new(actions@.len(), |i: int| actions@[i]@),
                ctx@,
                body@,
                old(self)@,
                actions@.len() as int,
            ),
    {
        let ghost av = Seq::new(actions@.len(), |i: int| actions@[i]@);
        let ghost st0 = self@;
        let mut i: usize = 0;
        while i < actions.len()
            invariant
                i <= actions@.len(),
                av == Seq::new(actions@.len(), |i: int| actions@[i]@),
                self@ == run_actions(av, ctx@, body@, st0, i as int),
            decreases actions@.len() - i,
        {
            self.execute(&actions[i], ctx, body);
            i = i + 1;
        }
    }

    /// Evaluates one rule: nothing where it does not match; else its
    /// actions, from an empty buffer.
    pub fn apply_rule(&mut self, rule: &Rule, m: &ParsedMessage)
        ensures
            final(self)@ == run_rule(rule@, m@, old(self)@),
    {
        match rule.captures(m) {
            None => {},
            Some(ctx) => {
                self.output = String::new();
                self.execute_all(&rule.actions, &ctx, m.msg.as_str());
            },
        }
    }
}

/// Runs a record through the rules and returns what it publishes, in order.
pub fn process_message(rules: &Vec<Rule>, m: &ParsedMessage) -> (r: Vec<Publish>)
    ensures
        publishes_view(r@) == line_outcome(rules_view(rules@), m@),
{
    let ghost rv = rules_view(rules@);
    let mut st = RuleRun::new();
    let mut i: usize = 0;
    while i < rules.len()
        invariant
            i <= rules@.len(),
            rv == rules_view(rules@),
            st@ == run_chain(rv, m@, i as int),
        decreases rules@.len() - i,
    {
        if !st.continue_rules {
            proof {
                lemma_halted_chain_stays(rv, m@, i as int, rules@.len() as int);
            }
            return st.published;
        }
        st.apply_rule(&rules[i], m);
        i = i + 1;
    }
    st.published
}

/// Parses one syslog line and runs it through the rules from a fresh state;
/// an error where the line is not a valid record.
pub fn handle_line(rules: &Vec<Rule>, line: &str) -> (r: Result<Vec<Publish>, LineError>)
    ensures
        match parsed_line(line@) {
            Some(m) => r is Ok && publishes_view(r->Ok_0@) == line_outcome(rules_view(rules@), m),
            None => r == Err::<Vec<Publish>, LineError>(LineError::Unparsable),
        },
{
    match ParsedMessage::parse(line) {
        Some(m) => Ok(process_message(rules, &m)),
        None => Err(LineError::Unparsable),
    }
}

/// Once a rule has stopped the chain, no later rule is evaluated: the state
/// after the first `n` rules is the state after all the first `k`, `k >= n`.
pub proof fn lemma_halted_chain_stays(rules: Seq<RuleV>, m: MessageV, n: int, k: int)
    requires
        0 <= n <= k,
        !run_chain(rules, m, n).continue_rules,
    ensures
        run_chain(rules, m, k) == run_chain(rules, m, n),
    decreases k - n,
{
    if k > n {
        lemma_halted_chain_stays(rules, m, n, k - 1);
    }
}

/// A line starts fresh whatever came before it: the first rule is
/// evaluated from an empty buffer, with the chain open and nothing published.
pub proof fn lemma_line_starts_fresh(rules: Seq<RuleV>, m: MessageV)
    requires
        rules.len() > 0,
    ensures
        run_chain(rules, m, 1) == run_rule(rules[0], m, fresh_run()),
        fresh_run().output.len() == 0,
        fresh_run().continue_rules,
{
    assert(run_chain(rules, m, 0) == fresh_run());
}

/// Whether an action may set the output buffer.
pub open spec fn sets_buffer(a: ActionV) -> bool {
    a is Replace || a is Merge
}

proof fn lemma_buffer_untouched(
    actions: Seq<ActionV>,
    ctx: Map<Seq<char>, Seq<char>>,
    body: Seq<char>,
    st: RunV,
    n: int,
)
    requires
        0 <= n <= actions.len(),
        forall|j: int| 0 <= j < n ==> !sets_buffer(#[trigger] actions[j]),
    ensures
        run_actions(actions, ctx, body, st, n).output == st.output,
    decreases n,
{
    if n > 0 {
        lemma_buffer_untouched(actions, ctx, body, st, n - 1);
    }
}

/// Every matched rule starts from an empty buffer, whatever earlier rules
/// or lines did: a forward that no replace or merge of its own rule
/// precedes publishes an empty key and payload.
pub proof fn lemma_forward_before_buffer_set(rule: RuleV, m: MessageV, st: RunV, i: int)
    requires
        rule_match(rule, m) is Some,
        0 <= i < rule.actions.len(),
        rule.actions[i] is Forward,
        render_result(rule.actions[i]->Forward_0, rule_match(rule, m)->0) is Some,
        forall|j: int| 0 <= j < i ==> !sets_buffer(#[trigger] rule.actions[j]),
    ensures
        ({
            let ctx = rule_match(rule, m)->0;
            let after = run_actions(
                rule.actions,
                ctx,
                m.msg,
                RunV { output: Seq::empty(), ..st },
                i + 1,
            );
            after.published.last() == (PublishV {
                topic: render_result(rule.actions[i]->Forward_0, ctx)->0,
                key: Seq::empty(),
                payload: Seq::empty(),
            })
        }),
{
    let ctx = rule_match(rule, m)->0;
    lemma_buffer_untouched(rule.actions, ctx, m.msg, RunV { output: Seq::empty(), ..st }, i);
}

/// What a connection publishes for a sequence of records, line after line.
pub open spec fn connection_outcome(rules: Seq<RuleV>, ms: Seq<MessageV>) -> Seq<PublishV>
    decreases ms.len(),
{
    if ms.len() == 0 {
        Seq::empty()
    } else {
        connection_outcome(rules, ms.subrange(0, ms.len() - 1)) + line_outcome(
            rules,
            ms[ms.len() - 1],
        )
    }
}

/// Lines are independent: a connection publishes, in arrival order, what
/// each line publishes on its own from a fresh state, so a stop or a failed
/// merge on one line never suppresses a rule on another.
pub proof fn lemma_connection_lines_independent(rules: Seq<RuleV>, ms: Seq<MessageV>, m: MessageV)
    ensures
        connection_outcome(rules, ms.push(m)) == connection_outcome(rules, ms) + line_outcome(
            rules,
            m,
        ),
        line_outcome(rules, m) == run_chain(rules, m, rules.len() as int).published,
        run_chain(rules, m, 0) == fresh_run(),
{
    assert(ms.push(m).subrange(0, ms.len() as int) =~= ms);
}

/// A rule that does not match (its pattern misses its field, or its field
/// is not supported) runs none of its actions: the state is unchanged.
pub proof fn lemma_unmatched_rule_skipped(rule: RuleV, m: MessageV, st: RunV)
    requires
        rule_match(rule, m) is None,
    ensures
        run_rule(rule, m, st) == st,
{
}

/// A merge into a body that is not structured data stops the chain and
/// changes nothing else: buffer and publishes stay as they were.
pub proof fn lemma_failed_merge_halts_chain(
    patch: JsonV,
    ctx: Map<Seq<char>, Seq<char>>,
    body: Seq<char>,
    st: RunV,
)
    requires
        json_parse(body) is None,
    ensures
        step(ActionV::Merge(patch), ctx, body, st) == (RunV { continue_rules: false, ..st }),
{
}

/// An action whose only effect is to stop the chain: a stop, or a merge
/// into a body that is not structured data.
pub open spec fn only_halts(a: ActionV, body: Seq<char>) -> bool {
    a is Stop || (a is Merge && json_parse(body) is None)
}

/// Two states with the same buffer and the same publishes.
pub open spec fn same_effects(a: RunV, b: RunV) -> bool {
    a.output == b.output && a.published == b.published
}

proof fn lemma_step_ignores_flag(
    a: ActionV,
    ctx: Map<Seq<char>, Seq<char>>,
    body: Seq<char>,
    s1: RunV,
    s2: RunV,
)
    requires
        same_effects(s1, s2),
    ensures
        same_effects(step(a, ctx, body, s1), step(a, ctx, body, s2)),
        step(a, ctx, body, s1).continue_rules ==> s1.continue_rules,
{
}

proof fn lemma_run_prefix(
    a1: Seq<ActionV>,
    a2: Seq<ActionV>,
    ctx: Map<Seq<char>, Seq<char>>,
    body: Seq<char>,
    st: RunV,
    n: int,
)
    requires
        0 <= n <= a1.len(),
        n <= a2.len(),
        forall|j: int| 0 <= j < n ==> a1[j] == a2[j],
    ensures
        run_actions(a1, ctx, body, st, n) == run_actions(a2, ctx, body, st, n),
    decreases n,
{
    if n > 0 {
        lemma_run_prefix(a1, a2, ctx, body, st, n - 1);
    }
}

/// A stop (or a failed merge) at position `k` of a rule's actions clears
/// the continue flag and does nothing else: every action before and after
/// it still runs, in order, with the same buffer and publishes as the list
/// without it; and the flag stays cleared, so no later rule is evaluated
/// (see `lemma_halted_chain_stays`).
pub proof fn lemma_stop_within_rule(
    actions: Seq<ActionV>,
    ctx: Map<Seq<char>, Seq<char>>,
    body: Seq<char>,
    st: RunV,
    k: int,
    n: int,
)
    requires
        0 <= k < n <= actions.len(),
        only_halts(actions[k], body),
    ensures
        !run_actions(actions, ctx, body, st, n).continue_rules,
        same_effects(
            run_actions(actions, ctx, body, st, n),
            run_actions(actions.remove(k), ctx, body, st, n - 1),
        ),
    decreases n,
{
    let rest = actions.remove(k);
    if n == k + 1 {
        lemma_run_prefix(actions, rest, ctx, body, st, k);
    } else {
        lemma_stop_within_rule(actions, ctx, body, st, k, n - 1);
        lemma_step_ignores_flag(
            actions[n - 1],
            ctx,
            body,
            run_actions(actions, ctx, body, st, n - 1),
            run_actions(rest, ctx, body, st, n - 2),
        );
        assert(rest[n - 2] == actions[n - 1]);
    }
}

} // verus!
