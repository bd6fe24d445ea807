//! Rules: a field, a pattern with named capture groups, and the actions to
//! run when the pattern matches.

use vstd::prelude::*;
use crate::message::{opts_view, selected, select_field, Field, MessageV, ParsedMessage};
use crate::context::{binds_participating, context_of, only_participating_keys, unique_names, CaptureContext};
use crate::value::{Json, JsonV};

verus! {

/// The regex crate's compiled pattern, held inside a `Pattern`.
#[verifier::external_type_specification]
#[verifier::external_body]
pub struct ExRegex(regex::Regex);

/// Whether a pattern text is accepted by the regex compiler.
pub uninterp spec fn pattern_compiles(source: Seq<char>) -> bool;

/// The capture groups of a pattern, in order, each with its name or `None`
/// where the group is unnamed (the whole match, group 0, is unnamed).
pub uninterp spec fn group_names(source: Seq<char>) -> Seq<Option<Seq<char>>>;

/// Where the pattern matches the text: for each capture group, in order,
/// the text it captured, or `None` where it took no part in the match.
/// `None` where the pattern does not match.
pub uninterp spec fn group_matches(source: Seq<char>, text: Seq<char>) -> Option<
    Seq<Option<Seq<char>>>,
>;

/// A compiled pattern together with the text it was compiled from.
pub struct Pattern {
    source: String,
    regex: regex::Regex,
}

impl View for Pattern {
    type V = Seq<char>;

    closed spec fn view(&self) -> Seq<char> {
        self.source@
    }
}

/// Relies on regex::Regex::new: a compiled pattern, or an error where the
/// text is not a pattern it accepts.
#[verifier::external_body]
fn compile(source: &str) -> (r: Option<regex::Regex>)
    ensures
        r is Some == pattern_compiles(source@),
{
    regex::Regex::new(source).ok()
}

/// Relies on regex::Regex::capture_names: each group's name, in order; the
/// first is always the unnamed whole match, and `Regex::new` refuses a
/// pattern that names two groups alike.  The regex was compiled from the
/// pattern's source by `Pattern::new`.
#[verifier::external_body]
fn capture_names(p: &Pattern) -> (r: Vec<Option<String>>)
    ensures
        opts_view(r@) == group_names(p@),
        r@.len() > 0,
        r@[0] is None,
        unique_names(opts_view(r@)),
{
    p.regex.capture_names().map(|n| n.map(|s| s.to_string())).collect()
}

/// Relies on regex::Regex::captures and Captures::iter: per group, the text
/// it captured in the leftmost-first match.  The regex was compiled from the
/// pattern's source by `Pattern::new`.
#[verifier::external_body]
fn capture_groups(p: &Pattern, text: &str) -> (r: Option<Vec<Option<String>>>)
    ensures
        match r {
            Some(g) => group_matches(p@, text@) == Some(opts_view(g@)),
            None => group_matches(p@, text@) is None,
        },
{
    p.regex.captures(text).map(|c| c.iter().map(|m| m.map(|m| m.as_str().to_string())).collect())
}

impl Pattern {
    /// Compiles `source`; `None` where it is not a valid pattern.
    pub fn new(source: &str) -> (r: Option<Pattern>)
        ensures
            r is Some == pattern_compiles(source@),
            match r {
                Some(p) => p@ == source@,
                None => true,
            },
    {
        match compile(source) {
            Some(regex) => Some(Pattern { source: source.to_owned(), regex }),
            None => None,
        }
    }

    /// The text the pattern was compiled from.
    pub fn as_str(&self) -> (r: &str)
        ensures
            r@ == self@,
    {
        self.source.as_str()
    }
}

/// What a rule does once it has matched.
#[derive(Clone, Debug, PartialEq, Eq)]
pub enum Action {
    /// Publish the output buffer to the topic the template renders to.
    Forward { topic: String },
    /// Replace the output buffer with the message body merged with `json`.
    Merge { json: Json },
    /// Replace the output buffer with the rendered template.
    Replace { template: String },
    /// Evaluate no later rule for this line.
    Stop,
}

/// The model of an `Action`.
pub enum ActionV {
    Forward(Seq<char>),
    Merge(JsonV),
    Replace(Seq<char>),
    Stop,
}

impl View for Action {
    type V = ActionV;

    open spec fn view(&self) -> ActionV {
        match self {
            Action::Forward { topic } => ActionV::Forward(topic@),
            Action::Merge { json } => ActionV::Merge(json@),
            Action::Replace { template } => ActionV::Replace(template@),
            Action::Stop => ActionV::Stop,
        }
    }
}

/// A rule: the field it reads, the pattern it applies, and its actions in
/// the order they run.
pub struct Rule {
    pub field: Field,
    pub regex: Pattern,
    pub actions: Vec<Action>,
}

/// The model of a `Rule`.
pub struct RuleV {
    pub field: Field,
    pub pattern: Seq<char>,
    pub actions: Seq<ActionV>,
}

impl View for Rule {
    type V = RuleV;

    open spec fn view(&self) -> RuleV {
        RuleV {
            field: self.field,
            pattern: self.regex@,
            actions: Seq::new(self.actions@.len(), |i: int| self.actions@[i]@),
        }
    }
}

/// The model of a list of rules.
pub open spec fn rules_view(rules: Seq<Rule>) -> Seq<RuleV> {
    Seq::new(rules.len(), |i: int| rules[i]@)
}

/// The capture context a rule yields on a record, or `None` where the rule
/// does not match it (its field is not supported, or its pattern does not
/// match the field's text).
pub open spec fn rule_match(rule: RuleV, m: MessageV) -> Option<Map<Seq<char>, Seq<char>>> {
    match selected(rule.field, m) {
        None => None,
        Some(text) => match group_matches(rule.pattern, text) {
            None => None,
            Some(groups) => Some(context_of(group_names(rule.pattern), groups, m.msg)),
        },
    }
}

impl Rule {
    /// Applies the rule's pattern to its field of `m`: the capture context
    /// where it matches, `None` where it does not.  A context binds every
    /// named group that took part in the match to its text, and nothing but
    /// those and the body.
    pub fn captures(&self, m: &ParsedMessage) -> (r: Option<CaptureContext>)
        ensures
            match r {
                Some(c) => rule_match(self@, m@) == Some(c@),
                None => rule_match(self@, m@) is None,
            },
            r is Some ==> binds_participating(
                r->0@,
                group_names(self@.pattern),
                group_matches(self@.pattern, m@.msg)->0,
            ) && only_participating_keys(
                r->0@,
                group_names(self@.pattern),
                group_matches(self@.pattern, m@.msg)->0,
            ),
    {
        match select_field(self.field, m) {
            None => None,
            Some(text) => match capture_groups(&self.regex, text.as_str()) {
                None => None,
                Some(groups) => {
                    let names = capture_names(&self.regex);
                    Some(CaptureContext::from_groups(&names, &groups, m.msg.as_str()))
                },
            },
        }
    }
}

/// Whether a rule's pattern matches a raw line, read as its body field.
pub open spec fn matches_raw_line(rule: RuleV, line: Seq<char>) -> bool {
    rule.field == Field::Msg && group_matches(rule.pattern, line) is Some
}

/// The positions, in order, of the rules whose field is the body and whose
/// pattern matches the raw line: a dry run of a rule set over a log line.
pub fn rules_matching_line(rules: &Vec<Rule>, line: &str) -> (r: Vec<usize>)
    ensures
        r@ == Seq::new(rules@.len(), |i: int| i).filter(
            |i: int| matches_raw_line(rules@[i]@, line@),
        ).map_values(|i: int| i as usize),
{
    let ghost all = Seq::new(rules@.len(), |i: int| i);
    let ghost pick = |i: int| matches_raw_line(rules@[i]@, line@);
    let mut r: Vec<usize> = Vec::new();
    let mut i: usize = 0;
    while i < rules.len()
        invariant
            i <= rules@.len(),
            all == Seq::new(rules@.len(), |i: int| i),
            pick == (|i: int| matches_raw_line(rules@[i]@, line@)),
            r@ == all.subrange(0, i as int).filter(pick).map_values(|i: int| i as usize),
        decreases rules@.len() - i,
    {
        let rule = &rules[i];
        let hit = match rule.field {
            Field::Msg => capture_groups(&rule.regex, line).is_some(),
            _ => false,
        };
        proof {
            let next = all.subrange(0, i + 1);
            assert(next.subrange(0, next.len() - 1) =~= all.subrange(0, i as int));
            assert(next[next.len() - 1] == i as int);
            assert(hit == pick(i as int));
            reveal(Seq::filter);
        }
        if hit {
            r.push(i);
        }
        proof {
            assert(r@ =~= all.subrange(0, i + 1).filter(pick).map_values(|i: int| i as usize));
        }
        i = i + 1;
    }
    proof {
        assert(all.subrange(0, i as int) =~= all);
    }
    r
}

} // verus!
