//! Which packages may run their lifecycle scripts (`pnpm.allowBuilds`),
//! where a snapshot's package sits in the virtual store, and the plan of
//! the build step: the packages whose scripts run, in build order, and
//! the sorted list of those left out because no rule names them.
use vstd::prelude::*;
use crate::build_sequence::{build_sequence, chunk_views, requires_build_of, spec_build_sequence, spec_requires_build};
use crate::lockfile::{Importer, Snapshot};
use crate::json::{spec_get, JsonValue};
use crate::lockfile::{spec_without_peer, without_peer};
use crate::path::{join, spec_join};
use crate::text::{
    concat3, lemma_rfind_props, lemma_seq_lt_irreflexive, lemma_seq_lt_total, lemma_seq_lt_transitive,
    replace_char, rfind_char, seq_lt, spec_replace, spec_rfind, str_eq, str_lt, substr, views_of,
};

verus! {

broadcast use vstd::seq_lib::group_seq_properties;

/// The rule for `key`: the last entry for it wins, as when the entries
/// are collected into a map.
pub open spec fn rule_lookup(rules: Seq<(String, bool)>, key: Seq<char>) -> Option<bool>
    decreases rules.len(),
{
    if rules.len() == 0 {
        None
    } else if rules.last().0@ == key {
        Some(rules.last().1)
    } else {
        rule_lookup(rules.drop_last(), key)
    }
}

/// The policy's answer for `name` at `version`: everything is allowed
/// under `dangerously_allow_all`; otherwise a rule for `name@version`
/// comes before a rule for `name`, and no rule gives `None`.
pub open spec fn spec_check(rules: Seq<(String, bool)>, allow_all: bool, name: Seq<char>, version: Seq<char>) -> Option<bool> {
    if allow_all {
        Some(true)
    } else {
        match rule_lookup(rules, name + "@"@ + version) {
            Some(b) => Some(b),
            None => rule_lookup(rules, name),
        }
    }
}

/// Build policy from `pnpm.allowBuilds` and
/// `pnpm.dangerouslyAllowAllBuilds`: `Some(true)` runs the scripts,
/// `Some(false)` skips them silently, `None` skips them and reports the
/// package as ignored.
#[derive(Debug)]
pub struct AllowBuildPolicy {
    rules: Vec<(String, bool)>,
    dangerously_allow_all: bool,
}

impl AllowBuildPolicy {
    /// The rules, in the order given.
    pub closed spec fn rules(&self) -> Seq<(String, bool)> {
        self.rules@
    }

    /// Whether every package may build.
    pub closed spec fn allow_all(&self) -> bool {
        self.dangerously_allow_all
    }

    /// A policy from rules (`(name or name@version, allowed)`; a later
    /// rule for the same key replaces an earlier one) and
    /// `dangerouslyAllowAllBuilds`.
    pub fn new(rules: Vec<(String, bool)>, dangerously_allow_all: bool) -> (r: Self)
        ensures
            r.rules() == rules@,
            r.allow_all() == dangerously_allow_all,
    {
        AllowBuildPolicy { rules, dangerously_allow_all }
    }

    /// Whether `name` at `version` may run its build scripts.
    pub fn check(&self, name: &str, version: &str) -> (r: Option<bool>)
        ensures
            r == spec_check(self.rules(), self.allow_all(), name@, version@),
    {
        if self.dangerously_allow_all {
            return Some(true);
        }
        let exact_key = concat3(name, "@", version);
        match lookup_rule(&self.rules, exact_key.as_str()) {
            Some(allowed) => Some(allowed),
            None => lookup_rule(&self.rules, name),
        }
    }

    /// The policy a project's manifest sets: `pnpm.dangerouslyAllowAllBuilds`
    /// when it is a boolean, and the boolean members of `pnpm.allowBuilds`
    /// (other members are ignored).
    pub fn from_manifest_value(manifest: &JsonValue) -> (r: Self)
        ensures
            r.allow_all() == manifest_allow_all(*manifest),
            r.rules() == manifest_rules(*manifest),
    {
        proof {
            reveal_strlit("pnpm");
            reveal_strlit("dangerouslyAllowAllBuilds");
            reveal_strlit("allowBuilds");
        }
        let mut allow_all = false;
        let mut rules: Vec<(String, bool)> = Vec::new();
        match manifest.get("pnpm") {
            Some(pnpm) => {
                match pnpm.get("dangerouslyAllowAllBuilds") {
                    Some(v) => match v.as_bool() {
                        Some(b) => {
                            allow_all = b;
                        },
                        None => {},
                    },
                    None => {},
                }
                match pnpm.get("allowBuilds") {
                    Some(JsonValue::Object(entries)) => {
                        rules = boolean_rules(entries);
                    },
                    _ => {},
                }
            },
            None => {},
        }
        AllowBuildPolicy { rules, dangerously_allow_all: allow_all }
    }
}

impl Default for AllowBuildPolicy {
    /// No rules and no blanket permission: every package is left out.
    fn default() -> (r: Self)
        ensures
            r.rules() == Seq::<(String, bool)>::empty(),
            !r.allow_all(),
    {
        AllowBuildPolicy { rules: Vec::new(), dangerously_allow_all: false }
    }
}

/// What `pnpm.dangerouslyAllowAllBuilds` says (false unless a boolean).
pub open spec fn manifest_allow_all(m: JsonValue) -> bool {
    match spec_get(m, "pnpm"@) {
        Some(p) => match spec_get(p, "dangerouslyAllowAllBuilds"@) {
            Some(JsonValue::Bool(b)) => b,
            _ => false,
        },
        None => false,
    }
}

/// The boolean members of an object, in order.
pub open spec fn spec_boolean_rules(entries: Seq<(String, JsonValue)>) -> Seq<(String, bool)>
    decreases entries.len(),
{
    if entries.len() == 0 {
        Seq::empty()
    } else {
        let rest = spec_boolean_rules(entries.drop_last());
        match entries.last().1 {
            JsonValue::Bool(b) => rest.push((entries.last().0, b)),
            _ => rest,
        }
    }
}

/// The rules `pnpm.allowBuilds` gives (none unless it is an object).
pub open spec fn manifest_rules(m: JsonValue) -> Seq<(String, bool)> {
    match spec_get(m, "pnpm"@) {
        Some(p) => match spec_get(p, "allowBuilds"@) {
            Some(JsonValue::Object(entries)) => spec_boolean_rules(entries@),
            _ => Seq::empty(),
        },
        None => Seq::empty(),
    }
}

fn boolean_rules(entries: &Vec<(String, JsonValue)>) -> (r: Vec<(String, bool)>)
    ensures
        r@ == spec_boolean_rules(entries@),
{
    let mut out: Vec<(String, bool)> = Vec::new();
    let mut i: usize = 0;
    while i < entries.len()
        invariant
            i <= entries@.len(),
            out@ == spec_boolean_rules(entries@.take(i as int)),
        decreases entries.len() - i,
    {
        assert(entries@.take(i + 1).drop_last() =~= entries@.take(i as int));
        match &entries[i].1 {
            JsonValue::Bool(b) => {
                out.push((entries[i].0.clone(), *b));
            },
            _ => {},
        }
        i = i + 1;
    }
    assert(entries@.take(entries@.len() as int) =~= entries@);
    out
}

/// The rule for `key`, searching from the last entry back.
fn lookup_rule(rules: &Vec<(String, bool)>, key: &str) -> (r: Option<bool>)
    ensures
        r == rule_lookup(rules@, key@),
{
    let mut i: usize = rules.len();
    assert(rules@.take(i as int) =~= rules@);
    while i > 0
        invariant
            i <= rules@.len(),
            rule_lookup(rules@, key@) == rule_lookup(rules@.take(i as int), key@),
        decreases i,
    {
        assert(rules@.take(i as int).last() == rules@[i - 1]);
        assert(rules@.take(i as int).drop_last() =~= rules@.take(i - 1));
        if str_eq(rules[i - 1].0.as_str(), key) {
            return Some(rules[i - 1].1);
        }
        i = i - 1;
    }
    None
}

/// A lockfile key without the leading `/` of older lockfiles.
pub open spec fn strip_slash(key: Seq<char>) -> Seq<char> {
    if key.len() > 0 && key[0] == '/' { key.skip(1) } else { key }
}

/// `(name, version)` of a key: split at the last `@` when it is not the
/// first character; otherwise the whole key is the name.
pub open spec fn spec_name_version(key: Seq<char>) -> (Seq<char>, Seq<char>) {
    let s = strip_slash(key);
    match spec_rfind(s, '@') {
        Some(i) => if i > 0 { (s.take(i), s.skip(i + 1)) } else { (s, Seq::empty()) },
        None => (s, Seq::empty()),
    }
}

fn strip_leading_slash(key: &str) -> (r: String)
    ensures
        r@ == strip_slash(key@),
{
    let n = key.unicode_len();
    if n > 0 && key.get_char(0) == '/' {
        substr(key, 1, n)
    } else {
        key.to_owned()
    }
}

/// Parse `name` and `version` from a snapshot key such as
/// `/@pnpm.e2e/install-script-example@1.0.0`.
pub fn parse_name_version_from_key(key: &str) -> (r: (String, String))
    ensures
        (r.0@, r.1@) == spec_name_version(key@),
{
    let s = strip_leading_slash(key);
    let n = s.unicode_len();
    proof {
        lemma_rfind_props(s@, '@');
    }
    match rfind_char(s.as_str(), '@') {
        Some(idx) => {
            if idx > 0 {
                (substr(s.as_str(), 0, idx), substr(s.as_str(), idx + 1, n))
            } else {
                (s, String::new())
            }
        },
        None => (s, String::new()),
    }
}

/// The directory of a snapshot's package in the virtual store:
/// `<store>/<name@version with / as +>/node_modules/<name>`, the key
/// taken without its peer suffix.
pub open spec fn spec_package_dir(store: Seq<char>, key: Seq<char>) -> Seq<char> {
    let name_version = strip_slash(spec_without_peer(key));
    let name = match spec_rfind(name_version, '@') {
        Some(i) => name_version.take(i),
        None => name_version,
    };
    spec_join(spec_join(spec_join(store, spec_replace(name_version, '/', '+')), "node_modules"@), name)
}

/// The package directory inside the virtual store for a snapshot key.
pub fn virtual_store_dir_for_key(virtual_store_dir: &str, key: &str) -> (r: String)
    ensures
        r@ == spec_package_dir(virtual_store_dir@, key@),
{
    proof {
        reveal_strlit("+");
        reveal_strlit("node_modules");
    }
    let bare = without_peer(key);
    let name_version = strip_leading_slash(bare.as_str());
    proof {
        lemma_rfind_props(name_version@, '@');
    }
    let name = match rfind_char(name_version.as_str(), '@') {
        Some(i) => substr(name_version.as_str(), 0, i),
        None => name_version.clone(),
    };
    let store_name = replace_char(name_version.as_str(), '/', "+");
    let a = join(virtual_store_dir, store_name.as_str());
    let b = join(a.as_str(), "node_modules");
    join(b.as_str(), name.as_str())
}

/// A snapshot whose scripts will run.
#[derive(Debug, PartialEq, Eq)]
pub struct BuildStep {
    pub key: String,
    pub name: String,
    pub version: String,
}

/// Strictly increasing in lexicographic order (so without repeats).
pub open spec fn strictly_sorted(s: Seq<Seq<char>>) -> bool {
    forall|i: int, j: int| 0 <= i < j < s.len() ==> seq_lt(#[trigger] s[i], #[trigger] s[j])
}

/// Insert `x` into a strictly sorted list unless it is there already.
pub fn insert_sorted(set: &mut Vec<String>, x: String)
    requires
        strictly_sorted(views_of(old(set)@)),
    ensures
        strictly_sorted(views_of(final(set)@)),
        views_of(final(set)@).to_set() == views_of(old(set)@).to_set().insert(x@),
{
    let ghost before = views_of(set@);
    let mut pos: usize = 0;
    while pos < set.len() && str_lt(set[pos].as_str(), x.as_str())
        invariant
            pos <= set@.len(),
            set@ == old(set)@,
            before == views_of(set@),
            forall|j: int| 0 <= j < pos ==> seq_lt(#[trigger] set@[j]@, x@),
        decreases set.len() - pos,
    {
        pos = pos + 1;
    }
    if pos < set.len() && str_eq(set[pos].as_str(), x.as_str()) {
        assert(before.to_set().insert(x@) =~= before.to_set()) by {
            assert(before[pos as int] == x@);
        }
        return;
    }
    proof {
        if pos < set.len() {
            lemma_seq_lt_total(set@[pos as int]@, x@);
        }
    }
    set.insert(pos, x);
    let ghost after = views_of(set@);
    assert(after =~= before.insert(pos as int, x@));
    assert forall|i: int, j: int| 0 <= i < j < after.len() implies seq_lt(#[trigger] after[i], #[trigger] after[j]) by {
        if j == pos {
            assert(seq_lt(before[i], x@));
        } else if i == pos {
            assert(seq_lt(x@, before[pos as int]));
            if j - 1 > pos {
                assert(seq_lt(before[pos as int], before[j - 1]));
                lemma_seq_lt_transitive(x@, before[pos as int], before[j - 1]);
            }
        } else if i < pos && j > pos {
            assert(seq_lt(before[i], before[j - 1]));
        } else if i > pos {
            assert(seq_lt(before[i - 1], before[j - 1]));
        } else {
            assert(seq_lt(before[i], before[j]));
        }
    }
    assert(after.to_set() =~= before.to_set().insert(x@)) by {
        assert forall|y: Seq<char>| after.contains(y) <==> (before.contains(y) || y == x@) by {
            if after.contains(y) {
                let k = choose|k: int| 0 <= k < after.len() && after[k] == y;
                if k < pos {
                    assert(before[k] == y);
                } else if k > pos {
                    assert(before[k - 1] == y);
                }
            }
            if before.contains(y) {
                let k = choose|k: int| 0 <= k < before.len() && before[k] == y;
                if k < pos {
                    assert(after[k] == y);
                } else {
                    assert(after[k + 1] == y);
                }
            }
            if y == x@ {
                assert(after[pos as int] == y);
            }
        }
    }
}

/// The plan of the build step.
#[derive(Debug, PartialEq, Eq)]
pub struct BuildPlan {
    /// The snapshots whose scripts run, in build order.
    pub to_run: Vec<BuildStep>,
    /// Peer-stripped keys of the snapshots that no rule names, sorted and
    /// without repeats.
    pub ignored: Vec<String>,
}

/// The policy's answer for a snapshot key (the key taken without peers).
pub open spec fn key_verdict(policy: AllowBuildPolicy, key: Seq<char>) -> Option<bool> {
    let nv = spec_name_version(spec_without_peer(key));
    spec_check(policy.rules(), policy.allow_all(), nv.0, nv.1)
}

/// The keys of a build sequence in order.
pub open spec fn flatten_chunks(chunks: Seq<Vec<String>>) -> Seq<Seq<char>>
    decreases chunks.len(),
{
    if chunks.len() == 0 {
        Seq::empty()
    } else {
        flatten_chunks(chunks.drop_last()) + views_of(chunks.last()@)
    }
}

/// The keys among `keys` whose scripts run: those that require a build
/// and that the policy allows.
pub open spec fn spec_runs(keys: Seq<Seq<char>>, rb: Seq<(String, bool)>, policy: AllowBuildPolicy) -> Seq<Seq<char>> {
    keys.filter(|k: Seq<char>| spec_requires_build(rb, k, 0) && key_verdict(policy, k) == Some(true))
}

/// The peer-stripped keys that no rule names, among those that require a
/// build.
pub open spec fn spec_ignored(keys: Seq<Seq<char>>, rb: Seq<(String, bool)>, policy: AllowBuildPolicy) -> Set<Seq<char>> {
    Set::new(|s: Seq<char>| exists|k: Seq<char>| #[trigger] keys.contains(k) && spec_requires_build(rb, k, 0)
        && key_verdict(policy, k) is None && s == spec_without_peer(k))
}

/// How the ignored set grows by one key.
proof fn lemma_ignored_push(seen: Seq<Seq<char>>, key: Seq<char>, rb: Seq<(String, bool)>, policy: AllowBuildPolicy)
    ensures
        spec_ignored(seen.push(key), rb, policy) == (if spec_requires_build(rb, key, 0) && key_verdict(policy, key) is None {
            spec_ignored(seen, rb, policy).insert(spec_without_peer(key))
        } else {
            spec_ignored(seen, rb, policy)
        }),
{
    let after = seen.push(key);
    let a = spec_ignored(after, rb, policy);
    let b = spec_ignored(seen, rb, policy);
    let counted = spec_requires_build(rb, key, 0) && key_verdict(policy, key) is None;
    let expected = if counted { b.insert(spec_without_peer(key)) } else { b };
    assert forall|s: Seq<char>| a.contains(s) implies expected.contains(s) by {
        let kk = choose|kk: Seq<char>| #[trigger] after.contains(kk) && spec_requires_build(rb, kk, 0)
            && key_verdict(policy, kk) is None && s == spec_without_peer(kk);
        if kk != key {
            let idx = choose|idx: int| 0 <= idx < after.len() && after[idx] == kk;
            assert(seen[idx] == kk);
        }
    }
    assert forall|s: Seq<char>| expected.contains(s) implies a.contains(s) by {
        if b.contains(s) {
            let kk = choose|kk: Seq<char>| #[trigger] seen.contains(kk) && spec_requires_build(rb, kk, 0)
                && key_verdict(policy, kk) is None && s == spec_without_peer(kk);
            let idx = choose|idx: int| 0 <= idx < seen.len() && seen[idx] == kk;
            assert(after[idx] == kk);
            assert(after.contains(kk));
        } else {
            assert(after[seen.len() as int] == key);
            assert(after.contains(key));
            assert(counted && s == spec_without_peer(key));
        }
    }
    assert(a =~= expected);
}

/// Go through a build sequence and decide for each snapshot: its scripts
/// run when it requires a build and the policy allows it; a snapshot
/// that requires a build and that no rule names is recorded as ignored.
pub fn plan_builds(chunks: &Vec<Vec<String>>, requires_build: &Vec<(String, bool)>, policy: &AllowBuildPolicy) -> (r: BuildPlan)
    ensures
        r.to_run@.map_values(|s: BuildStep| s.key@) == spec_runs(flatten_chunks(chunks@), requires_build@, *policy),
        forall|i: int| 0 <= i < r.to_run@.len() ==> (#[trigger] r.to_run@[i].name@, r.to_run@[i].version@)
            == spec_name_version(spec_without_peer(r.to_run@[i].key@)),
        strictly_sorted(views_of(r.ignored@)),
        views_of(r.ignored@).to_set() == spec_ignored(flatten_chunks(chunks@), requires_build@, *policy),
{
    let mut to_run: Vec<BuildStep> = Vec::new();
    let mut ignored: Vec<String> = Vec::new();
    let mut c: usize = 0;
    let ghost mut seen: Seq<Seq<char>> = Seq::empty();
    assert(flatten_chunks(chunks@.take(0)) =~= Seq::<Seq<char>>::empty());
    while c < chunks.len()
        invariant
            c <= chunks@.len(),
            seen == flatten_chunks(chunks@.take(c as int)),
            to_run@.map_values(|s: BuildStep| s.key@) == spec_runs(seen, requires_build@, *policy),
            forall|i: int| 0 <= i < to_run@.len() ==> (#[trigger] to_run@[i].name@, to_run@[i].version@)
                == spec_name_version(spec_without_peer(to_run@[i].key@)),
            strictly_sorted(views_of(ignored@)),
            views_of(ignored@).to_set() == spec_ignored(seen, requires_build@, *policy),
        decreases chunks.len() - c,
    {
        let chunk = &chunks[c];
        let ghost seen_before_chunk = seen;
        let mut k: usize = 0;
        while k < chunk.len()
            invariant
                c < chunks@.len(),
                chunk == chunks@[c as int],
                k <= chunk@.len(),
                seen == seen_before_chunk + views_of(chunk@.take(k as int)),
                to_run@.map_values(|s: BuildStep| s.key@) == spec_runs(seen, requires_build@, *policy),
                forall|i: int| 0 <= i < to_run@.len() ==> (#[trigger] to_run@[i].name@, to_run@[i].version@)
                    == spec_name_version(spec_without_peer(to_run@[i].key@)),
                strictly_sorted(views_of(ignored@)),
                views_of(ignored@).to_set() == spec_ignored(seen, requires_build@, *policy),
            decreases chunk.len() - k,
        {
            let key = &chunk[k];
            let ghost old_seen = seen;
            proof {
                seen = seen.push(key@);
                assert(views_of(chunk@.take(k + 1)) =~= views_of(chunk@.take(k as int)).push(key@));
                old_seen.lemma_filter_push(key@, |kk: Seq<char>| spec_requires_build(requires_build@, kk, 0)
                    && key_verdict(*policy, kk) == Some(true));
            }
            proof {
                lemma_ignored_push(old_seen, key@, requires_build@, *policy);
            }
            if requires_build_of(requires_build, key.as_str()) {
                let bare = without_peer(key.as_str());
                let (name, version) = parse_name_version_from_key(bare.as_str());
                match policy.check(name.as_str(), version.as_str()) {
                    Some(true) => {
                        let ghost before = to_run@;
                        to_run.push(BuildStep { key: key.clone(), name, version });
                        assert(to_run@.map_values(|s: BuildStep| s.key@) =~= before.map_values(|s: BuildStep| s.key@).push(key@));
                    },
                    Some(false) => {},
                    None => {
                        insert_sorted(&mut ignored, bare);
                    },
                }
            }
            k = k + 1;
        }
        proof {
            assert(chunk@.take(chunk@.len() as int) =~= chunk@);
            assert(chunks@.take(c + 1).drop_last() =~= chunks@.take(c as int));
            assert(chunks@.take(c + 1).last() == chunk);
        }
        c = c + 1;
    }
    assert(chunks@.take(chunks@.len() as int) =~= chunks@);
    BuildPlan { to_run, ignored }
}


proof fn lemma_flatten_chunks(chunks: Seq<Vec<String>>)
    ensures
        flatten_chunks(chunks) == chunk_views(chunks).flatten(),
    decreases chunks.len(),
{
    if chunks.len() > 0 {
        lemma_flatten_chunks(chunks.drop_last());
        assert(chunk_views(chunks.drop_last()) =~= chunk_views(chunks).drop_last());
        chunk_views(chunks).lemma_flatten_and_flatten_alt_are_equivalent();
        chunk_views(chunks.drop_last()).lemma_flatten_and_flatten_alt_are_equivalent();
    } else {
        assert(chunk_views(chunks) =~= Seq::<Seq<Seq<char>>>::empty());
    }
}

/// The build step of an install: a lockfile without snapshots builds
/// nothing and ignores nothing; otherwise each snapshot of the build
/// order (children first) is decided as `plan_builds` says.
/// `requires_build` tells, per snapshot key, whether the extracted
/// package needs a build.
pub fn plan_build_modules(
    snapshots: &Option<Vec<Snapshot>>,
    requires_build: &Vec<(String, bool)>,
    importers: &Vec<Importer>,
    policy: &AllowBuildPolicy,
) -> (r: BuildPlan)
    ensures
        snapshots is None ==> r.to_run@.len() == 0 && r.ignored@.len() == 0,
        snapshots matches Some(s) ==> ({
            let keys = spec_build_sequence(requires_build@, None, s@, importers@).flatten();
            &&& r.to_run@.map_values(|st: BuildStep| st.key@) == spec_runs(keys, requires_build@, *policy)
            &&& strictly_sorted(views_of(r.ignored@))
            &&& views_of(r.ignored@).to_set() == spec_ignored(keys, requires_build@, *policy)
        }),
        forall|i: int| 0 <= i < r.to_run@.len() ==> (#[trigger] r.to_run@[i].name@, r.to_run@[i].version@)
            == spec_name_version(spec_without_peer(r.to_run@[i].key@)),
{
    match snapshots {
        None => BuildPlan { to_run: Vec::new(), ignored: Vec::new() },
        Some(s) => {
            let chunks = build_sequence(requires_build, &None, s, importers);
            proof {
                lemma_flatten_chunks(chunks@);
            }
            plan_builds(&chunks, requires_build, policy)
        },
    }
}


/// What a failed build script leads to.
#[derive(Debug, Clone, Copy, PartialEq, Eq, Structural)]
pub enum BuildFailurePlan {
    /// Report the optional package as skipped and go on with the install.
    SkipOptional,
    /// Fail the install with the script's error.
    Fail,
}

/// A failed build of an optional package is reported as skipped; one of
/// a required package fails the install.
pub fn on_build_failure(optional: bool) -> (r: BuildFailurePlan)
    ensures
        r == (if optional { BuildFailurePlan::SkipOptional } else { BuildFailurePlan::Fail }),
{
    if optional {
        BuildFailurePlan::SkipOptional
    } else {
        BuildFailurePlan::Fail
    }
}

/// Whether builds consult the side-effects cache: the cache is on, the
/// engine is known, some side-effects maps were read and the lockfile
/// has a `packages:` section.
pub fn side_effects_cache_gate(side_effects_cache: bool, has_engine: bool, maps_read: usize, has_packages: bool) -> (r: bool)
    ensures
        r == (side_effects_cache && has_engine && maps_read > 0 && has_packages),
{
    side_effects_cache && has_engine && maps_read > 0 && has_packages
}

} // verus!
