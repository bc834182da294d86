//! The dispatcher's routing logic: which rules match a change event, and
//! which destinations the matched file should be relocated to, in
//! rule-declaration order. Removed events never trigger relocation.

use vstd::prelude::*;
use crate::config::RuleConfig;
use crate::pattern::{routed_match, Pattern};
use crate::text::{file_name_of, file_name_spec};
use crate::watcher::{EventVal, WatchEvent};

verus! {

/// Whether some pattern of `rule` matches the event path under the routing
/// rule: the full path for patterns holding a separator, the file name
/// alone otherwise.
pub open spec fn rule_matches_event(rule: RuleConfig, full: Seq<char>, name: Seq<char>) -> bool {
    exists|i: int|
        0 <= i < rule.patterns@.len() && #[trigger] routed_match(rule.patterns@[i]@, full, name)
}

/// The destinations of the rules matching the event path, in rule order.
/// A file matching several rules is relocated once per matching rule.
pub open spec fn matching_destinations(
    rules: Seq<RuleConfig>,
    full: Seq<char>,
    name: Seq<char>,
) -> Seq<Seq<char>>
    decreases rules.len(),
{
    if rules.len() == 0 {
        Seq::empty()
    } else {
        let rest = matching_destinations(rules.drop_last(), full, name);
        if rule_matches_event(rules.last(), full, name) {
            rest.push(rules.last().destination@)
        } else {
            rest
        }
    }
}

/// The views of a vector of destination strings.
pub open spec fn dest_views(ds: Seq<String>) -> Seq<Seq<char>> {
    ds.map_values(|d: String| d@)
}

/// Whether one rule matches the event path under the routing rule.
pub fn rule_matches(rule: &RuleConfig, full_path: &str, file_name: &str) -> (r: bool)
    ensures
        r == rule_matches_event(*rule, full_path@, file_name@),
{
    let n = rule.patterns.len();
    let mut i: usize = 0;
    while i < n
        invariant
            i <= n,
            n == rule.patterns@.len(),
            forall|a: int|
                0 <= a < i ==> !(#[trigger] routed_match(rule.patterns@[a]@, full_path@,
                file_name@)),
        decreases n - i,
    {
        let p = Pattern::new(rule.patterns[i].as_str());
        if p.matches_routed(full_path, file_name) {
            return true;
        }
        i += 1;
    }
    false
}

/// The dispatcher's decision for one event: Removed events are ignored
/// entirely; for Created and Modified events, the destinations of all
/// matching rules are returned in declaration order. Carrying out the
/// relocations is the caller's business.
pub fn plan_event(event: &WatchEvent, rules: &Vec<RuleConfig>) -> (dests: Vec<String>)
    ensures
        match event@ {
            EventVal::Removed(_) => dests@.len() == 0,
            EventVal::Created(p) => dest_views(dests@) == matching_destinations(
                rules@,
                p,
                file_name_spec(p),
            ),
            EventVal::Modified(p) => dest_views(dests@) == matching_destinations(
                rules@,
                p,
                file_name_spec(p),
            ),
        },
{
    let path: &String = match event {
        WatchEvent::Created(p) => p,
        WatchEvent::Modified(p) => p,
        WatchEvent::Removed(_) => {
            return Vec::new();
        },
    };
    let name = file_name_of(path.as_str());
    let mut dests: Vec<String> = Vec::new();
    let n = rules.len();
    let mut i: usize = 0;
    while i < n
        invariant
            i <= n,
            n == rules@.len(),
            name@ == file_name_spec(path@),
            dest_views(dests@) == matching_destinations(rules@.subrange(0, i as int), path@, name@),
        decreases n - i,
    {
        let ghost pre = dests@;
        if rule_matches(&rules[i], path.as_str(), name.as_str()) {
            dests.push(rules[i].destination.clone());
            proof {
                assert(dest_views(dests@) =~= dest_views(pre).push(rules@[i as int].destination@));
            }
        }
        proof {
            assert(rules@.subrange(0, i + 1).drop_last() =~= rules@.subrange(0, i as int));
            assert(rules@.subrange(0, i + 1).last() == rules@[i as int]);
        }
        i += 1;
    }
    proof {
        assert(rules@.subrange(0, n as int) =~= rules@);
    }
    dests
}

} // verus!
