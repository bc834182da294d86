//! Configuration data handed in by the surrounding process: watch settings
//! and the ordered list of relocation rules. Loading the configuration file
//! itself is the collaborator's business; the rules' matching behaviour is
//! defined here.

use vstd::prelude::*;
use crate::pattern::{glob_matches, Pattern};

verus! {

/// Watch settings resolved by the configuration loader.
pub struct WatcherConfig {
    /// The root directory to watch.
    pub watch_path: String,
    /// Watch subdirectories recursively.
    pub recursive: bool,
    /// How often to poll, in milliseconds.
    pub interval_millis: u64,
    /// Maximum recursion depth; unlimited when absent.
    pub max_depth: Option<usize>,
}

/// One user-declared rule: an ordered set of glob patterns and the
/// destination directory that files matching any of them are moved to.
/// Rules are loaded once at startup and are read-only afterwards.
pub struct RuleConfig {
    pub patterns: Vec<String>,
    pub destination: String,
}

/// The resolved configuration: watch settings and the ordered rule list.
pub struct Config {
    pub watcher: WatcherConfig,
    pub rules: Vec<RuleConfig>,
}

/// Whether any of the raw patterns matches `path` directly (no routing).
pub open spec fn any_pattern_matches(patterns: Seq<String>, path: Seq<char>) -> bool {
    exists|i: int| 0 <= i < patterns.len() && #[trigger] glob_matches(patterns[i]@, path)
}

impl RuleConfig {
    /// Compiles each raw pattern of the rule, in order.
    pub fn compiled_patterns(&self) -> (ps: Vec<Pattern>)
        ensures
            ps@.len() == self.patterns@.len(),
            forall|i: int| 0 <= i < ps@.len() ==> #[trigger] ps@[i].raw@ == self.patterns@[i]@,
    {
        let mut ps: Vec<Pattern> = Vec::new();
        let n = self.patterns.len();
        let mut i: usize = 0;
        while i < n
            invariant
                i <= n,
                n == self.patterns@.len(),
                ps@.len() == i as int,
                forall|a: int| 0 <= a < i ==> #[trigger] ps@[a].raw@ == self.patterns@[a]@,
            decreases n - i,
        {
            ps.push(Pattern::new(self.patterns[i].as_str()));
            i += 1;
        }
        ps
    }

    /// Whether any pattern of the rule matches `path`.
    pub fn matches(&self, path: &str) -> (r: bool)
        ensures
            r == any_pattern_matches(self.patterns@, path@),
    {
        let n = self.patterns.len();
        let mut i: usize = 0;
        while i < n
            invariant
                i <= n,
                n == self.patterns@.len(),
                forall|a: int| 0 <= a < i ==> !(#[trigger] glob_matches(self.patterns@[a]@, path@)),
            decreases n - i,
        {
            let p = Pattern::new(self.patterns[i].as_str());
            if p.matches(path) {
                return true;
            }
            i += 1;
        }
        false
    }
}

} // verus!
