//! Ordered accept/drop rules over a packet's textual form.

use crate::aprs::packet::AprsPacket;
use crate::config::{FilterAction, FilterConfig};
use regex::Regex;
use vstd::prelude::*;

verus! {

/// A compiled regular expression of the `regex` crate; opaque here.
#[verifier::external_type_specification]
#[verifier::external_body]
pub struct ExRegex(Regex);

/// Why a pattern is no regular expression; opaque here.
#[verifier::external_type_specification]
#[verifier::external_body]
pub struct ExRegexError(regex::Error);

/// What `Regex::new` makes of a pattern: the compiled expression, or none where the
/// pattern is refused.
pub uninterp spec fn compile_result(pattern: Seq<char>) -> Option<Regex>;

/// Whether `Regex::is_match` finds a match of the expression anywhere in the text.
pub uninterp spec fn regex_accepts(re: Regex, text: Seq<char>) -> bool;

/// Compiles a pattern with `regex::Regex::new`.
///
/// Trusted: whether the pattern is accepted, and the expression that results, depend
/// on the pattern alone.
#[verifier::external_body]
fn compile(pattern: &str) -> (r: Result<Regex, regex::Error>)
    ensures
        match r {
            Ok(re) => compile_result(pattern@) == Some(re),
            Err(_) => compile_result(pattern@) is None,
        },
{
    Regex::new(pattern)
}

/// Searches `text` for a match with `regex::Regex::is_match`.
///
/// Trusted: the answer depends on the expression and the text alone.
#[verifier::external_body]
fn is_match(re: &Regex, text: &str) -> (r: bool)
    ensures
        r == regex_accepts(*re, text@),
{
    re.is_match(text)
}

/// One rule, compiled.
pub struct CompiledFilter {
    pub action: FilterAction,
    pub regex: Regex,
}

/// The rules in the order in which they are tried.
pub struct PacketFilter {
    pub filters: Vec<CompiledFilter>,
}

/// The verdict of a list of rules, given which of them match: the first rule that
/// matches decides, `Pass` lets the packet through and `Drop` does not; where none
/// matches the packet passes.
pub open spec fn first_match_verdict(actions: Seq<FilterAction>, hits: Seq<bool>) -> bool
    decreases actions.len(),
{
    if actions.len() == 0 || hits.len() == 0 {
        true
    } else if hits[0] {
        actions[0] == FilterAction::Pass
    } else {
        first_match_verdict(actions.drop_first(), hits.drop_first())
    }
}

/// The actions of a list of rules.
pub open spec fn actions_of(rules: Seq<CompiledFilter>) -> Seq<FilterAction> {
    Seq::new(rules.len(), |i: int| rules[i].action)
}

/// Which rules match a text.
pub open spec fn hits_of(rules: Seq<CompiledFilter>, text: Seq<char>) -> Seq<bool> {
    Seq::new(rules.len(), |i: int| regex_accepts(rules[i].regex, text))
}

/// Whether a packet with this textual form passes the rules.
pub open spec fn passes(rules: Seq<CompiledFilter>, text: Seq<char>) -> bool {
    first_match_verdict(actions_of(rules), hits_of(rules, text))
}

/// The verdict, given for each rule its action and whether it matches.
pub fn decide(actions: &Vec<FilterAction>, hits: &Vec<bool>) -> (r: bool)
    ensures
        r == first_match_verdict(actions@, hits@),
{
    let mut i: usize = 0;
    proof {
        assert(actions@.subrange(0, actions@.len() as int) =~= actions@);
        assert(hits@.subrange(0, hits@.len() as int) =~= hits@);
    }
    while i < actions.len() && i < hits.len()
        invariant
            i <= actions.len(),
            i <= hits.len(),
            first_match_verdict(actions@, hits@) == first_match_verdict(
                actions@.subrange(i as int, actions@.len() as int),
                hits@.subrange(i as int, hits@.len() as int),
            ),
        decreases actions.len() - i,
    {
        let ghost a = actions@.subrange(i as int, actions@.len() as int);
        let ghost h = hits@.subrange(i as int, hits@.len() as int);
        if hits[i] {
            return actions[i] == FilterAction::Pass;
        }
        proof {
            assert(a.drop_first() =~= actions@.subrange(i + 1, actions@.len() as int));
            assert(h.drop_first() =~= hits@.subrange(i + 1, hits@.len() as int));
        }
        i += 1;
    }
    true
}

impl PacketFilter {
    /// Compiles the rules in their order. The first pattern that is no regular
    /// expression fails the whole list, with the error that says why.
    pub fn new(configs: Vec<FilterConfig>) -> (r: Result<Self, regex::Error>)
        ensures
            match r {
                Ok(f) => f.filters@.len() == configs@.len() && forall|i: int|
                    0 <= i < configs@.len() ==> (#[trigger] f.filters@[i]).action
                        == configs@[i].action && compile_result(configs@[i].pattern@) == Some(
                        f.filters@[i].regex,
                    ),
                Err(_) => exists|i: int|
                    0 <= i < configs@.len() && compile_result(
                        (#[trigger] configs@[i]).pattern@,
                    ) is None,
            },
    {
        let mut filters: Vec<CompiledFilter> = Vec::new();
        let mut i: usize = 0;
        while i < configs.len()
            invariant
                i <= configs.len(),
                filters@.len() == i,
                forall|k: int|
                    0 <= k < i ==> (#[trigger] filters@[k]).action == configs@[k].action
                        && compile_result(configs@[k].pattern@) == Some(filters@[k].regex),
            decreases configs.len() - i,
        {
            match compile(configs[i].pattern.as_str()) {
                Ok(regex) => {
                    filters.push(CompiledFilter { action: configs[i].action, regex });
                },
                Err(e) => {
                    assert(compile_result(configs@[i as int].pattern@) is None);
                    return Err(e);
                },
            }
            i += 1;
        }
        Ok(PacketFilter { filters })
    }

    /// Whether the packet passes: the first rule whose pattern matches its textual
    /// form decides, and a packet that no rule matches passes.
    pub fn should_pass(&self, packet: &AprsPacket) -> (r: bool)
        ensures
            r == passes(self.filters@, packet@.text()),
    {
        let text = packet.to_string();
        self.passes_text(text.as_str())
    }

    /// Whether a packet with the textual form `text` passes.
    pub fn passes_text(&self, text: &str) -> (r: bool)
        ensures
            r == passes(self.filters@, text@),
    {
        let mut actions: Vec<FilterAction> = Vec::new();
        let mut hits: Vec<bool> = Vec::new();
        let mut i: usize = 0;
        while i < self.filters.len()
            invariant
                i <= self.filters.len(),
                actions@ == actions_of(self.filters@).subrange(0, i as int),
                hits@ == hits_of(self.filters@, text@).subrange(0, i as int),
            decreases self.filters.len() - i,
        {
            actions.push(self.filters[i].action);
            hits.push(is_match(&self.filters[i].regex, text));
            i += 1;
            assert(actions@ =~= actions_of(self.filters@).subrange(0, i as int));
            assert(hits@ =~= hits_of(self.filters@, text@).subrange(0, i as int));
        }
        assert(actions@ =~= actions_of(self.filters@));
        assert(hits@ =~= hits_of(self.filters@, text@));
        decide(&actions, &hits)
    }
}

} // verus!
