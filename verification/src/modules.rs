//! The module resolver: flattens the inheritance graph of named TLS
//! profiles. Each module may extend others; resolution starts from the
//! default profile, folds in each parent's resolved profile in the
//! declared order, and folds the module's own fields last — later wins.
//! A cyclic `extends` graph is rejected, and only a cyclic one.

use vstd::prelude::*;

use crate::config::{FileSource, FileSourceV, ModuleConfig, ModuleConfigV, Starttls,
    clone_opt_file_source, clone_opt_string};
use crate::error::ErrorReason;

verus! {

/// A flattened TLS profile: every field settled.
#[derive(Clone, Debug)]
pub struct ResolvedModuleConfig {
    pub timeout_ms: u64,
    pub trustedanchors: FileSource,
    pub certs: Option<FileSource>,
    pub key: Option<FileSource>,
    pub server_name: Option<String>,
    pub starttls: Option<Starttls>,
    pub insecure_skip_verify: bool,
}

/// The spec-level shape of a resolved profile.
#[verifier::ext_equal]
pub struct ResolvedModuleConfigV {
    pub timeout_ms: u64,
    pub trustedanchors: FileSourceV,
    pub certs: Option<FileSourceV>,
    pub key: Option<FileSourceV>,
    pub server_name: Option<Seq<char>>,
    pub starttls: Option<Starttls>,
    pub insecure_skip_verify: bool,
}

impl View for ResolvedModuleConfig {
    type V = ResolvedModuleConfigV;

    open spec fn view(&self) -> ResolvedModuleConfigV {
        ResolvedModuleConfigV {
            timeout_ms: self.timeout_ms,
            trustedanchors: self.trustedanchors@,
            certs: match &self.certs { Some(v) => Some(v@), None => None },
            key: match &self.key { Some(v) => Some(v@), None => None },
            server_name: match &self.server_name { Some(v) => Some(v@), None => None },
            starttls: self.starttls,
            insecure_skip_verify: self.insecure_skip_verify,
        }
    }
}

/// The default profile resolution starts from: the default timeout, an
/// empty trust-anchor path, nothing else set.
pub open spec fn spec_default_resolved() -> ResolvedModuleConfigV {
    ResolvedModuleConfigV {
        timeout_ms: 3000,
        trustedanchors: FileSourceV::Path { path: Seq::empty() },
        certs: None,
        key: None,
        server_name: None,
        starttls: None,
        insecure_skip_verify: false,
    }
}

/// Folding a module's own fields over a resolved profile: a set field
/// wins, an unset one inherits.
pub open spec fn spec_override(r: ResolvedModuleConfigV, m: ModuleConfigV) -> ResolvedModuleConfigV {
    ResolvedModuleConfigV {
        timeout_ms: match m.timeout_ms { Some(v) => v, None => r.timeout_ms },
        trustedanchors: match m.trustedanchors { Some(v) => v, None => r.trustedanchors },
        certs: match m.certs { Some(v) => Some(v), None => r.certs },
        key: match m.key { Some(v) => Some(v), None => r.key },
        server_name: match m.server_name { Some(v) => Some(v), None => r.server_name },
        starttls: match m.starttls { Some(v) => Some(v), None => r.starttls },
        insecure_skip_verify: match m.insecure_skip_verify { Some(v) => v, None => r.insecure_skip_verify },
    }
}

/// Folding a parent's resolved profile over an accumulated one: the
/// parent's settled scalars win; its optional fields win where set.
pub open spec fn spec_merge_resolved(r: ResolvedModuleConfigV, p: ResolvedModuleConfigV) -> ResolvedModuleConfigV {
    ResolvedModuleConfigV {
        timeout_ms: p.timeout_ms,
        trustedanchors: p.trustedanchors,
        certs: match p.certs { Some(v) => Some(v), None => r.certs },
        key: match p.key { Some(v) => Some(v), None => r.key },
        server_name: match p.server_name { Some(v) => Some(v), None => r.server_name },
        starttls: match p.starttls { Some(v) => Some(v), None => r.starttls },
        insecure_skip_verify: p.insecure_skip_verify,
    }
}

impl Default for ResolvedModuleConfig {
    /// The default profile.
    fn default() -> (r: ResolvedModuleConfig)
        ensures
            r@ == spec_default_resolved(),
    {
        let r = ResolvedModuleConfig {
            timeout_ms: 3000,
            trustedanchors: FileSource::Path { path: String::new() },
            certs: None,
            key: None,
            server_name: None,
            starttls: None,
            insecure_skip_verify: false,
        };
        proof {
            assert(r@ =~~= spec_default_resolved());
        }
        r
    }
}

impl ResolvedModuleConfig {
    /// Folds a module's own fields over this profile; set fields win.
    pub fn override_with(&mut self, override_cfg: &ModuleConfig)
        ensures
            final(self)@ == spec_override(old(self)@, override_cfg@),
    {
        if let Some(timeout_ms) = override_cfg.timeout_ms {
            self.timeout_ms = timeout_ms;
        }
        if let Some(trustedanchors) = &override_cfg.trustedanchors {
            self.trustedanchors = trustedanchors.duplicate();
        }
        if let Some(certs) = &override_cfg.certs {
            self.certs = Some(certs.duplicate());
        }
        if let Some(key) = &override_cfg.key {
            self.key = Some(key.duplicate());
        }
        if let Some(server_name) = &override_cfg.server_name {
            self.server_name = Some(server_name.clone());
        }
        if let Some(starttls) = &override_cfg.starttls {
            self.starttls = Some(*starttls);
        }
        if let Some(insecure_skip_verify) = override_cfg.insecure_skip_verify {
            self.insecure_skip_verify = insecure_skip_verify;
        }
        proof {
            assert(self@ =~~= spec_override(old(self)@, override_cfg@));
        }
    }

    /// Folds a parent's resolved profile over this one.
    pub fn merge_resolved(&mut self, parent: &ResolvedModuleConfig)
        ensures
            final(self)@ == spec_merge_resolved(old(self)@, parent@),
    {
        self.timeout_ms = parent.timeout_ms;
        self.trustedanchors = parent.trustedanchors.duplicate();
        if let Some(certs) = &parent.certs {
            self.certs = Some(certs.duplicate());
        }
        if let Some(key) = &parent.key {
            self.key = Some(key.duplicate());
        }
        if let Some(server_name) = &parent.server_name {
            self.server_name = Some(server_name.clone());
        }
        if let Some(starttls) = &parent.starttls {
            self.starttls = Some(*starttls);
        }
        self.insecure_skip_verify = parent.insecure_skip_verify;
        proof {
            assert(self@ =~~= spec_merge_resolved(old(self)@, parent@));
        }
    }

    /// A copy with the same contents.
    pub fn duplicate(&self) -> (r: ResolvedModuleConfig)
        ensures
            r@ == self@,
    {
        let r = ResolvedModuleConfig {
            timeout_ms: self.timeout_ms,
            trustedanchors: self.trustedanchors.duplicate(),
            certs: clone_opt_file_source(&self.certs),
            key: clone_opt_file_source(&self.key),
            server_name: clone_opt_string(&self.server_name),
            starttls: self.starttls,
            insecure_skip_verify: self.insecure_skip_verify,
        };
        proof {
            assert(r@ =~~= self@);
        }
        r
    }
}

/// The module table as (name, profile) views.
pub type ModsV = Seq<(Seq<char>, ModuleConfigV)>;

/// Every module name occurs once.
pub open spec fn spec_unique_names(mods: ModsV) -> bool {
    forall|i: int, j: int| 0 <= i < j < mods.len() ==> (#[trigger] mods[i]).0 != (#[trigger] mods[j]).0
}

/// Whether a name is a module of the table.
pub open spec fn spec_is_module(mods: ModsV, a: Seq<char>) -> bool {
    exists|i: int| 0 <= i < mods.len() && (#[trigger] mods[i]).0 == a
}

/// Every extended name is itself a module of the table.
pub open spec fn spec_extends_closed(mods: ModsV) -> bool {
    forall|i: int, k: int| 0 <= i < mods.len() && 0 <= k < mods[i].1.extends.len()
        ==> spec_is_module(mods, #[trigger] mods[i].1.extends[k])
}

/// The inheritance edge: module `a` declares `b` among its parents.
pub open spec fn spec_extends_rel(mods: ModsV, a: Seq<char>, b: Seq<char>) -> bool {
    exists|i: int, k: int| 0 <= i < mods.len() && mods[i].0 == a
        && 0 <= k < mods[i].1.extends.len() && (#[trigger] mods[i].1.extends[k]) == b
}

/// A walk through the inheritance graph, child to parent at each step.
pub open spec fn spec_is_walk(mods: ModsV, p: Seq<Seq<char>>) -> bool {
    p.len() >= 1 && forall|i: int| 0 <= i < p.len() - 1
        ==> spec_extends_rel(mods, #[trigger] p[i], p[i + 1])
}

/// Some walk leads from `a` to `b`.
pub open spec fn spec_name_reach(mods: ModsV, a: Seq<char>, b: Seq<char>) -> bool {
    exists|p: Seq<Seq<char>>| spec_is_walk(mods, p) && (#[trigger] p.first()) == a && p.last() == b
}

/// A name lying on an inheritance cycle.
pub open spec fn spec_on_cycle(mods: ModsV, a: Seq<char>) -> bool {
    exists|b: Seq<char>| #[trigger] spec_extends_rel(mods, a, b) && spec_name_reach(mods, b, a)
}

/// The inheritance graph has a cycle.
pub open spec fn spec_mod_cycle(mods: ModsV) -> bool {
    exists|a: Seq<char>| #[trigger] spec_on_cycle(mods, a)
}

/// A walk extended along one more edge is a walk.
proof fn lemma_walk_extend(mods: ModsV, p: Seq<Seq<char>>, c: Seq<char>)
    requires
        spec_is_walk(mods, p),
        spec_extends_rel(mods, p.last(), c),
    ensures
        spec_is_walk(mods, p.push(c)),
{
    let q = p.push(c);
    assert forall|i: int| 0 <= i < q.len() - 1
        implies spec_extends_rel(mods, #[trigger] q[i], q[i + 1]) by {
        if i < p.len() - 1 {
            assert(q[i] == p[i] && q[i + 1] == p[i + 1]);
        } else {
            assert(q[i] == p.last() && q[i + 1] == c);
        }
    }
}

/// Reachability absorbs one more edge.
proof fn lemma_reach_step(mods: ModsV, a: Seq<char>, b: Seq<char>, c: Seq<char>)
    requires
        spec_name_reach(mods, a, b),
        spec_extends_rel(mods, b, c),
    ensures
        spec_name_reach(mods, a, c),
{
    let p = choose|p: Seq<Seq<char>>| spec_is_walk(mods, p) && (#[trigger] p.first()) == a && p.last() == b;
    lemma_walk_extend(mods, p, c);
    let q = p.push(c);
    assert(q.first() == a && q.last() == c);
}

/// Every name reaches itself.
proof fn lemma_reach_refl(mods: ModsV, a: Seq<char>)
    ensures
        spec_name_reach(mods, a, a),
{
    let p = seq![a];
    assert(spec_is_walk(mods, p));
    assert(p.first() == a && p.last() == a);
}

/// A closed walk with at least one step exhibits a cycle.
proof fn lemma_cycle_from_closed_walk(mods: ModsV, w: Seq<Seq<char>>)
    requires
        spec_is_walk(mods, w),
        w.len() >= 2,
        w.first() == w.last(),
    ensures
        spec_mod_cycle(mods),
{
    let rest = w.drop_first();
    assert forall|i: int| 0 <= i < rest.len() - 1
        implies spec_extends_rel(mods, #[trigger] rest[i], rest[i + 1]) by {
        assert(rest[i] == w[i + 1] && rest[i + 1] == w[i + 2]);
    }
    assert(spec_is_walk(mods, rest));
    assert(rest.first() == w[1] && rest.last() == w.last());
    assert(spec_extends_rel(mods, w[0], w[1]));
    assert(spec_name_reach(mods, w[1], w[0]));
    assert(spec_on_cycle(mods, w[0]));
}

/// A name on a cycle has a parent on a cycle, and that parent reaches it.
proof fn lemma_on_cycle_parent(mods: ModsV, a: Seq<char>) -> (b: Seq<char>)
    requires
        spec_on_cycle(mods, a),
    ensures
        spec_extends_rel(mods, a, b),
        spec_on_cycle(mods, b),
{
    let b = choose|b: Seq<char>| #[trigger] spec_extends_rel(mods, a, b) && spec_name_reach(mods, b, a);
    let p = choose|p: Seq<Seq<char>>| spec_is_walk(mods, p) && (#[trigger] p.first()) == b && p.last() == a;
    if p.len() == 1 {
        // b == a: the self loop makes b itself cyclic
        assert(b == a);
        assert(spec_on_cycle(mods, b));
    } else {
        let rest = p.drop_first();
        assert forall|i: int| 0 <= i < rest.len() - 1
            implies spec_extends_rel(mods, #[trigger] rest[i], rest[i + 1]) by {
            assert(rest[i] == p[i + 1] && rest[i + 1] == p[i + 2]);
        }
        assert(spec_is_walk(mods, rest));
        assert(rest.first() == p[1] && rest.last() == a);
        assert(spec_name_reach(mods, p[1], a));
        lemma_reach_step(mods, p[1], a, b);
        assert(spec_extends_rel(mods, b, p[1]));
        assert(spec_on_cycle(mods, b));
    }
    b
}

/// Builds a walk of unresolved module indices of any requested length,
/// stepping from each unresolved module to one of its unresolved parents.
proof fn build_unresolved_walk(mods: ModsV, resolved: Seq<bool>, start: int, len: nat) -> (w: Seq<int>)
    requires
        resolved.len() == mods.len(),
        forall|i: int| 0 <= i < mods.len() && !resolved[i]
            ==> exists|j: int| 0 <= j < mods.len() && !(#[trigger] resolved[j])
                && spec_extends_rel(mods, mods[i].0, mods[j].0),
        0 <= start < mods.len(),
        !resolved[start],
        len >= 1,
    ensures
        w.len() == len,
        w[0] == start,
        forall|i: int| 0 <= i < w.len() ==> 0 <= #[trigger] w[i] < mods.len() && !resolved[w[i]],
        forall|i: int| 0 <= i < w.len() - 1
            ==> spec_extends_rel(mods, mods[#[trigger] w[i]].0, mods[w[i + 1]].0),
    decreases len,
{
    if len == 1 {
        seq![start]
    } else {
        let j = choose|j: int| 0 <= j < mods.len() && !(#[trigger] resolved[j])
            && spec_extends_rel(mods, mods[start].0, mods[j].0);
        let rest = build_unresolved_walk(mods, resolved, j, (len - 1) as nat);
        let w = seq![start] + rest;
        assert(w[0] == start);
        assert forall|i: int| 0 <= i < w.len() implies
            0 <= #[trigger] w[i] < mods.len() && !resolved[w[i]] by {
            if i > 0 {
                assert(w[i] == rest[i - 1]);
            }
        }
        assert forall|i: int| 0 <= i < w.len() - 1
            implies spec_extends_rel(mods, mods[#[trigger] w[i]].0, mods[w[i + 1]].0) by {
            if i == 0 {
                assert(w[0] == start && w[1] == rest[0] && rest[0] == j);
            } else {
                assert(w[i] == rest[i - 1] && w[i + 1] == rest[i]);
            }
        }
        w
    }
}

/// In a list of `n + 1` values drawn from `n` possibilities, two
/// positions repeat.
proof fn lemma_pigeonhole_repeat(w: Seq<int>, n: int) -> (r: (int, int))
    requires
        n >= 0,
        w.len() == n + 1,
        forall|i: int| 0 <= i < w.len() ==> 0 <= #[trigger] w[i] < n,
    ensures
        0 <= r.0 < r.1 < w.len(),
        w[r.0] == w[r.1],
{
    if w.no_duplicates() {
        w.unique_seq_to_set();
        let range = vstd::set_lib::set_int_range(0, n);
        vstd::set_lib::lemma_int_range(0, n);
        assert forall|x: int| w.to_set().contains(x) implies range.contains(x) by {
            assert(w.contains(x));
            let i = choose|i: int| 0 <= i < w.len() && w[i] == x;
        }
        assert(w.to_set().subset_of(range));
        vstd::set_lib::lemma_len_subset(w.to_set(), range);
        assert(false);
    }
    let (a, b) = choose|a: int, b: int| 0 <= a < w.len() && 0 <= b < w.len() && a != b
        && #[trigger] w[a] == #[trigger] w[b];
    if a < b { (a, b) } else { (b, a) }
}

/// When resolution is stuck — some module is unresolved, and every
/// unresolved module has an unresolved parent — the graph has a cycle.
proof fn lemma_stuck_implies_cycle(mods: ModsV, resolved: Seq<bool>)
    requires
        resolved.len() == mods.len(),
        exists|i: int| 0 <= i < mods.len() && !(#[trigger] resolved[i]),
        forall|i: int| 0 <= i < mods.len() && !resolved[i]
            ==> exists|j: int| 0 <= j < mods.len() && !(#[trigger] resolved[j])
                && spec_extends_rel(mods, mods[i].0, mods[j].0),
    ensures
        spec_mod_cycle(mods),
{
    let n = mods.len() as int;
    let start = choose|i: int| 0 <= i < mods.len() && !(#[trigger] resolved[i]);
    let w = build_unresolved_walk(mods, resolved, start, (n + 1) as nat);
    let (lo, hi) = lemma_pigeonhole_repeat(w, n);
    // the names along the repeated stretch form a closed walk
    let sub = w.subrange(lo, hi + 1);
    let names = Seq::new(sub.len(), |i: int| mods[sub[i]].0);
    assert forall|i: int| 0 <= i < names.len() - 1
        implies spec_extends_rel(mods, #[trigger] names[i], names[i + 1]) by {
        assert(sub[i] == w[lo + i] && sub[i + 1] == w[lo + i + 1]);
        assert(spec_extends_rel(mods, mods[w[lo + i]].0, mods[w[lo + i + 1]].0));
    }
    assert(spec_is_walk(mods, names));
    assert(names.first() == mods[w[lo]].0 && names.last() == mods[w[hi]].0);
    assert(names.len() >= 2);
    lemma_cycle_from_closed_walk(mods, names);
}


/// How many modules are still unresolved.
pub open spec fn spec_count_none(s: Seq<Option<ResolvedModuleConfig>>) -> nat
    decreases s.len(),
{
    if s.len() == 0 {
        0
    } else {
        spec_count_none(s.drop_last()) + if s.last() is None { 1 as nat } else { 0 as nat }
    }
}

/// Resolving one module strictly shrinks the unresolved count.
proof fn lemma_count_none_update(s: Seq<Option<ResolvedModuleConfig>>, i: int, v: ResolvedModuleConfig)
    requires
        0 <= i < s.len(),
        s[i] is None,
    ensures
        spec_count_none(s.update(i, Some(v))) < spec_count_none(s),
    decreases s.len(),
{
    let s2 = s.update(i, Some(v));
    if i == s.len() - 1 {
        assert(s2.drop_last() =~= s.drop_last());
    } else {
        assert(s2.drop_last() =~= s.drop_last().update(i, Some(v)));
        lemma_count_none_update(s.drop_last(), i, v);
    }
}

/// The module table of a (name, profile) list, as views.
pub open spec fn spec_mods_view(modules: Seq<(String, ModuleConfig)>) -> ModsV {
    Seq::new(modules.len(), |i: int| (modules[i].0@, modules[i].1@))
}

/// The resolved profiles so far, by module index; unresolved entries read
/// as the default profile.
pub open spec fn spec_cur_outs(s: Seq<Option<ResolvedModuleConfig>>) -> Seq<ResolvedModuleConfigV> {
    Seq::new(s.len(), |i: int| match s[i] {
        Some(v) => v@,
        None => spec_default_resolved(),
    })
}

/// Finds the index of a module name.
fn find_module(modules: &Vec<(String, ModuleConfig)>, name: &String) -> (r: Option<usize>)
    ensures
        r matches Some(i) ==> i < modules@.len() && modules@[i as int].0@ == name@,
        r is None ==> forall|i: int| 0 <= i < modules@.len() ==> (#[trigger] modules@[i].0)@ != name@,
{
    let n: usize = modules.len();
    for i in 0..n
        invariant
            n == modules@.len(),
            forall|j: int| 0 <= j < i ==> (#[trigger] modules@[j].0)@ != name@,
    {
        if modules[i].0 == *name {
            return Some(i);
        }
    }
    None
}

/// The worklist invariant: every resolved module has resolved parents,
/// lies on no cycle, and carries exactly the profile the fold equations
/// owe it.
pub open spec fn spec_worklist_inv(mods: ModsV, s: Seq<Option<ResolvedModuleConfig>>) -> bool {
    &&& s.len() == mods.len()
    &&& (forall|i: int, k: int| 0 <= i < s.len() && s[i] is Some
            && 0 <= k < mods[i].1.extends.len()
            ==> s[spec_name_index(mods, #[trigger] mods[i].1.extends[k])] is Some)
    &&& (forall|i: int| 0 <= i < s.len() && (#[trigger] s[i]) is Some
            ==> !spec_on_cycle(mods, mods[i].0))
    &&& (forall|i: int| 0 <= i < s.len() && (#[trigger] s[i]) is Some
            ==> s[i].unwrap()@ == spec_resolved_value(mods, spec_cur_outs(s), i))
}

/// Resolving one more module preserves the worklist invariant.
#[verifier::rlimit(60)]
proof fn lemma_worklist_step(
    mods: ModsV,
    s: Seq<Option<ResolvedModuleConfig>>,
    i: int,
    v: ResolvedModuleConfig,
)
    requires
        spec_unique_names(mods),
        spec_extends_closed(mods),
        spec_worklist_inv(mods, s),
        0 <= i < s.len(),
        s[i] is None,
        forall|k: int| 0 <= k < mods[i].1.extends.len()
            ==> s[spec_name_index(mods, #[trigger] mods[i].1.extends[k])] is Some,
        v@ == spec_resolved_value(mods, spec_cur_outs(s), i),
    ensures
        spec_worklist_inv(mods, s.update(i, Some(v))),
{
    let s2 = s.update(i, Some(v));
    let outs1 = spec_cur_outs(s);
    let outs2 = spec_cur_outs(s2);
    // the parents of any module resolved in s are untouched by the update
    assert forall|a: int| 0 <= a < s.len() && (#[trigger] s[a]) is Some implies
        spec_fold_parents(mods, outs2, mods[a].1.extends, mods[a].1.extends.len() as int)
            == spec_fold_parents(mods, outs1, mods[a].1.extends, mods[a].1.extends.len() as int) by {
        assert forall|j: int| 0 <= j < mods[a].1.extends.len()
            implies outs2[spec_name_index(mods, #[trigger] mods[a].1.extends[j])]
                == outs1[spec_name_index(mods, mods[a].1.extends[j])] by {
            let idx = spec_name_index(mods, mods[a].1.extends[j]);
            assert(s[idx] is Some);
            assert(idx != i);
        }
        lemma_fold_parents_congruent(mods, outs2, outs1, mods[a].1.extends, mods[a].1.extends.len() as int);
    }
    // the fresh module's own fold also reads only its resolved parents
    assert forall|j: int| 0 <= j < mods[i].1.extends.len()
        implies outs2[spec_name_index(mods, #[trigger] mods[i].1.extends[j])]
            == outs1[spec_name_index(mods, mods[i].1.extends[j])] by {
        let idx = spec_name_index(mods, mods[i].1.extends[j]);
        assert(s[idx] is Some);
        assert(idx != i);
    }
    lemma_fold_parents_congruent(mods, outs2, outs1, mods[i].1.extends, mods[i].1.extends.len() as int);
    // the fresh module lies on no cycle: a cycle would pass through one of
    // its parents, which are resolved and therefore cycle-free
    if spec_on_cycle(mods, mods[i].0) {
        let b = lemma_on_cycle_parent(mods, mods[i].0);
        let (ii, kk) = choose|ii: int, kk: int| 0 <= ii < mods.len() && mods[ii].0 == mods[i].0
            && 0 <= kk < mods[ii].1.extends.len() && (#[trigger] mods[ii].1.extends[kk]) == b;
        lemma_name_index(mods, mods[i].0, i);
        lemma_name_index(mods, mods[i].0, ii);
        assert(ii == i);
        let bi = spec_name_index(mods, b);
        assert(s[bi] is Some);
        assert(mods[bi].0 == b) by {
            assert(spec_is_module(mods, b));
            let w = choose|w: int| 0 <= w < mods.len() && (#[trigger] mods[w]).0 == b;
            lemma_name_index(mods, b, w);
        }
        assert(!spec_on_cycle(mods, b));
        assert(false);
    }
}

/// The index a name occupies in the module table.
pub open spec fn spec_name_index(mods: ModsV, name: Seq<char>) -> int {
    choose|i: int| 0 <= i < mods.len() && (#[trigger] mods[i]).0 == name
}

/// With unique names, the index of a present name is the only one
/// carrying it.
proof fn lemma_name_index(mods: ModsV, name: Seq<char>, i: int)
    requires
        spec_unique_names(mods),
        0 <= i < mods.len(),
        mods[i].0 == name,
    ensures
        spec_name_index(mods, name) == i,
{
    let j = spec_name_index(mods, name);
    assert(0 <= j < mods.len() && mods[j].0 == name);
    if i != j {
        if i < j {
            assert(mods[i].0 != mods[j].0);
        } else {
            assert(mods[j].0 != mods[i].0);
        }
    }
}

/// The fold of the first `k` declared parents' resolved profiles over the
/// default one.
pub open spec fn spec_fold_parents(mods: ModsV, outs: Seq<ResolvedModuleConfigV>, exts: Seq<Seq<char>>, k: int) -> ResolvedModuleConfigV
    decreases k,
{
    if k <= 0 {
        spec_default_resolved()
    } else {
        spec_merge_resolved(
            spec_fold_parents(mods, outs, exts, k - 1),
            outs[spec_name_index(mods, exts[k - 1])],
        )
    }
}

/// What resolution owes each module: its parents' resolved profiles folded
/// over the default, its own fields folded last.
pub open spec fn spec_resolved_value(mods: ModsV, outs: Seq<ResolvedModuleConfigV>, i: int) -> ResolvedModuleConfigV {
    spec_override(spec_fold_parents(mods, outs, mods[i].1.extends, mods[i].1.extends.len() as int), mods[i].1)
}

/// The parent fold reads only the parents' entries: two profile lists that
/// agree there fold alike.
proof fn lemma_fold_parents_congruent(mods: ModsV, outs1: Seq<ResolvedModuleConfigV>, outs2: Seq<ResolvedModuleConfigV>, exts: Seq<Seq<char>>, k: int)
    requires
        forall|j: int| 0 <= j < k
            ==> outs1[spec_name_index(mods, #[trigger] exts[j])] == outs2[spec_name_index(mods, exts[j])],
    ensures
        spec_fold_parents(mods, outs1, exts, k) == spec_fold_parents(mods, outs2, exts, k),
    decreases k,
{
    if k > 0 {
        lemma_fold_parents_congruent(mods, outs1, outs2, exts, k - 1);
    }
}



/// Checks what resolution requires of a module table: each name defined
/// once, and every extended name defined. The result equals the two
/// predicates, so a caller holding an untrusted table can establish them.
#[verifier::loop_isolation(false)]
#[verifier::rlimit(100)]
pub fn modules_wf(modules: &Vec<(String, ModuleConfig)>) -> (r: bool)
    ensures
        r == (spec_unique_names(spec_mods_view(modules@))
            && spec_extends_closed(spec_mods_view(modules@))),
{
    let ghost mods = spec_mods_view(modules@);
    let n: usize = modules.len();
    for i in 0..n
        invariant
            forall|a: int, b: int| 0 <= a < b < mods.len() && a < i
                ==> (#[trigger] mods[a]).0 != (#[trigger] mods[b]).0,
    {
        let mut j: usize = i + 1;
        while j < n
            invariant
                i < j <= n,
                forall|a: int, b: int| 0 <= a < b < mods.len() && a < i
                    ==> (#[trigger] mods[a]).0 != (#[trigger] mods[b]).0,
                forall|b: int| i < b < j ==> mods[i as int].0 != (#[trigger] mods[b]).0,
            decreases n - j,
        {
            if modules[i].0 == modules[j].0 {
                proof {
                    assert(mods[i as int].0 == mods[j as int].0);
                }
                return false;
            }
            j = j + 1;
        }
    }
    for i in 0..n
        invariant
            forall|a: int, k: int| 0 <= a < mods.len() && a < i
                && 0 <= k < mods[a].1.extends.len()
                ==> spec_is_module(mods, #[trigger] mods[a].1.extends[k]),
    {
        let exts_len: usize = modules[i].1.extends.len();
        for k in 0..exts_len
            invariant
                exts_len == mods[i as int].1.extends.len(),
                forall|l: int| 0 <= l < k
                    ==> spec_is_module(mods, #[trigger] mods[i as int].1.extends[l]),
        {
            match find_module(modules, &modules[i].1.extends[k]) {
                Some(w) => {
                    proof {
                        assert(mods[w as int].0 == mods[i as int].1.extends[k as int]);
                    }
                },
                None => {
                    proof {
                        assert forall|w: int| 0 <= w < mods.len()
                            implies (#[trigger] mods[w]).0 != mods[i as int].1.extends[k as int] by {
                            assert(modules@[w].0@ != modules@[i as int].1.extends@[k as int]@);
                        }
                    }
                    return false;
                },
            }
        }
    }
    true
}

/// Looks up a declared parent, which the closed-extends requirement
/// guarantees to exist.
#[verifier::loop_isolation(false)]
fn find_parent(modules: &Vec<(String, ModuleConfig)>, i: usize, k: usize) -> (j: usize)
    requires
        spec_unique_names(spec_mods_view(modules@)),
        spec_extends_closed(spec_mods_view(modules@)),
        i < modules@.len(),
        k < spec_mods_view(modules@)[i as int].1.extends.len(),
    ensures
        j < modules@.len(),
        j == spec_name_index(spec_mods_view(modules@), spec_mods_view(modules@)[i as int].1.extends[k as int]),
{
    let ghost mods = spec_mods_view(modules@);
    let name = &modules[i].1.extends[k];
    match find_module(modules, name) {
        Some(j) => {
            proof {
                lemma_name_index(mods, mods[i as int].1.extends[k as int], j as int);
            }
            j
        },
        None => {
            proof {
                assert(spec_is_module(mods, mods[i as int].1.extends[k as int]));
                let w = choose|w: int| 0 <= w < mods.len()
                    && (#[trigger] mods[w]).0 == mods[i as int].1.extends[k as int];
                assert(modules@[w].0@ == name@);
            }
            vstd::pervasive::unreached()
        },
    }
}

/// Tries to resolve module `i`: succeeds exactly when all its declared
/// parents are resolved, folding their profiles in order and the module's
/// own fields last.
#[verifier::loop_isolation(false)]
#[verifier::rlimit(100)]
fn try_resolve_one(
    modules: &Vec<(String, ModuleConfig)>,
    resolved: &mut Vec<Option<ResolvedModuleConfig>>,
    i: usize,
) -> (done: bool)
    requires
        spec_unique_names(spec_mods_view(modules@)),
        spec_extends_closed(spec_mods_view(modules@)),
        spec_worklist_inv(spec_mods_view(modules@), old(resolved)@),
        old(resolved)@.len() == modules@.len(),
        i < modules@.len(),
        old(resolved)@[i as int] is None,
    ensures
        final(resolved)@.len() == modules@.len(),
        spec_worklist_inv(spec_mods_view(modules@), final(resolved)@),
        done ==> spec_count_none(final(resolved)@) < spec_count_none(old(resolved)@),
        !done ==> final(resolved)@ == old(resolved)@,
        !done ==> exists|k: int| 0 <= k < spec_mods_view(modules@)[i as int].1.extends.len()
            && old(resolved)@[spec_name_index(spec_mods_view(modules@),
                #[trigger] spec_mods_view(modules@)[i as int].1.extends[k])] is None,
{
    let ghost mods = spec_mods_view(modules@);
    let ghost exts = mods[i as int].1.extends;
    let exts_len: usize = modules[i].1.extends.len();
    let mut ready: bool = true;
    for k in 0..exts_len
        invariant
            exts_len == exts.len(),
            ready <==> (forall|l: int| 0 <= l < k
                ==> resolved@[spec_name_index(mods, #[trigger] exts[l])] is Some),
            !ready ==> exists|l: int| 0 <= l < k
                && resolved@[spec_name_index(mods, #[trigger] exts[l])] is None,
    {
        let j = find_parent(modules, i, k);
        if resolved[j].is_none() {
            ready = false;
        }
    }
    if !ready {
        return false;
    }
    let mut acc = ResolvedModuleConfig::default();
    for k in 0..exts_len
        invariant
            exts_len == exts.len(),
            forall|l: int| 0 <= l < exts.len()
                ==> resolved@[spec_name_index(mods, #[trigger] exts[l])] is Some,
            acc@ == spec_fold_parents(mods, spec_cur_outs(resolved@), exts, k as int),
    {
        let j = find_parent(modules, i, k);
        match &resolved[j] {
            Some(p) => {
                acc.merge_resolved(p);
            },
            None => {
                proof {
                    assert(resolved@[spec_name_index(mods, exts[k as int])] is Some);
                }
                vstd::pervasive::unreached()
            },
        }
    }
    acc.override_with(&modules[i].1);
    proof {
        assert(acc@ == spec_resolved_value(mods, spec_cur_outs(resolved@), i as int));
        lemma_worklist_step(mods, resolved@, i as int, acc);
        lemma_count_none_update(resolved@, i as int, acc);
    }
    let ghost before = resolved@;
    resolved[i] = Some(acc);
    proof {
        assert(resolved@ =~= before.update(i as int, Some(acc)));
    }
    true
}

/// One pass of the worklist: resolves every module whose parents are
/// already resolved; reports whether anything moved.
#[verifier::loop_isolation(false)]
#[verifier::rlimit(100)]
fn resolve_pass(
    modules: &Vec<(String, ModuleConfig)>,
    resolved: &mut Vec<Option<ResolvedModuleConfig>>,
) -> (progressed: bool)
    requires
        spec_unique_names(spec_mods_view(modules@)),
        spec_extends_closed(spec_mods_view(modules@)),
        spec_worklist_inv(spec_mods_view(modules@), old(resolved)@),
        old(resolved)@.len() == modules@.len(),
    ensures
        final(resolved)@.len() == modules@.len(),
        spec_worklist_inv(spec_mods_view(modules@), final(resolved)@),
        spec_count_none(final(resolved)@) <= spec_count_none(old(resolved)@),
        progressed ==> spec_count_none(final(resolved)@) < spec_count_none(old(resolved)@),
        !progressed ==> final(resolved)@ == old(resolved)@,
        !progressed ==> forall|l: int| 0 <= l < modules@.len()
            && (#[trigger] final(resolved)@[l]) is None
            ==> exists|k: int| 0 <= k < spec_mods_view(modules@)[l].1.extends.len()
                && final(resolved)@[spec_name_index(spec_mods_view(modules@),
                    #[trigger] spec_mods_view(modules@)[l].1.extends[k])] is None,
{
    let ghost mods = spec_mods_view(modules@);
    let n: usize = modules.len();
    let mut progressed: bool = false;
    for i in 0..n
        invariant
            resolved@.len() == n,
            spec_worklist_inv(mods, resolved@),
            spec_count_none(resolved@) <= spec_count_none(old(resolved)@),
            progressed ==> spec_count_none(resolved@) < spec_count_none(old(resolved)@),
            !progressed ==> resolved@ == old(resolved)@,
            !progressed ==> forall|l: int| 0 <= l < i && (#[trigger] resolved@[l]) is None
                ==> exists|k: int| 0 <= k < mods[l].1.extends.len()
                    && resolved@[spec_name_index(mods, #[trigger] mods[l].1.extends[k])] is None,
    {
        if resolved[i].is_none() {
            let done = try_resolve_one(modules, resolved, i);
            if done {
                progressed = true;
            }
        }
    }
    progressed
}


/// Collects the resolved profiles once every module is resolved; the
/// worklist invariant makes the fold equations and acyclicity available.
#[verifier::loop_isolation(false)]
#[verifier::rlimit(100)]
fn finish_resolution(
    modules: &Vec<(String, ModuleConfig)>,
    resolved: &Vec<Option<ResolvedModuleConfig>>,
) -> (out: Vec<(String, ResolvedModuleConfig)>)
    requires
        spec_unique_names(spec_mods_view(modules@)),
        spec_worklist_inv(spec_mods_view(modules@), resolved@),
        resolved@.len() == modules@.len(),
        forall|j: int| 0 <= j < resolved@.len() ==> (#[trigger] resolved@[j]) is Some,
    ensures
        !spec_mod_cycle(spec_mods_view(modules@)),
        out@.len() == modules@.len(),
        forall|i: int| 0 <= i < out@.len() ==> (#[trigger] out@[i].0)@ == modules@[i].0@,
        forall|i: int| 0 <= i < out@.len() ==> (#[trigger] out@[i].1)@ == spec_resolved_value(
            spec_mods_view(modules@),
            Seq::new(out@.len(), |j: int| out@[j].1@),
            i,
        ),
{
    let ghost mods = spec_mods_view(modules@);
    let n: usize = modules.len();
    let mut out: Vec<(String, ResolvedModuleConfig)> = Vec::new();
    for i in 0..n
        invariant
            out@.len() == i,
            forall|j: int| 0 <= j < i ==> (#[trigger] out@[j].0)@ == modules@[j].0@,
            forall|j: int| 0 <= j < i ==> (#[trigger] out@[j].1)@ == spec_cur_outs(resolved@)[j],
    {
        let profile = match &resolved[i] {
            Some(v) => v.duplicate(),
            None => vstd::pervasive::unreached(),
        };
        out.push((modules[i].0.clone(), profile));
    }
    proof {
        let outs = Seq::new(out@.len(), |j: int| out@[j].1@);
        assert(outs =~= spec_cur_outs(resolved@));
        // no resolved module lies on a cycle, so the graph has none
        if spec_mod_cycle(mods) {
            let a = choose|a: Seq<char>| #[trigger] spec_on_cycle(mods, a);
            let b = choose|b: Seq<char>| #[trigger] spec_extends_rel(mods, a, b) && spec_name_reach(mods, b, a);
            let (ii, kk) = choose|ii: int, kk: int| 0 <= ii < mods.len() && mods[ii].0 == a
                && 0 <= kk < mods[ii].1.extends.len() && (#[trigger] mods[ii].1.extends[kk]) == b;
            assert(resolved@[ii] is Some);
            assert(!spec_on_cycle(mods, mods[ii].0));
        }
    }
    out
}

/// A pass that moved nothing, with modules left over, exhibits a cycle.
#[verifier::rlimit(100)]
#[verifier::spinoff_prover]
proof fn lemma_no_progress_cycle(mods: ModsV, resolved: Seq<Option<ResolvedModuleConfig>>)
    requires
        spec_unique_names(mods),
        spec_extends_closed(mods),
        resolved.len() == mods.len(),
        exists|j: int| 0 <= j < resolved.len() && (#[trigger] resolved[j]) is None,
        forall|l: int| 0 <= l < mods.len() && (#[trigger] resolved[l]) is None
            ==> exists|k: int| 0 <= k < mods[l].1.extends.len()
                && resolved[spec_name_index(mods, #[trigger] mods[l].1.extends[k])] is None,
    ensures
        spec_mod_cycle(mods),
{
    let flags = Seq::new(resolved.len(), |i: int| resolved[i] is Some);
    assert(exists|i: int| 0 <= i < mods.len() && !(#[trigger] flags[i])) by {
        let w = choose|j: int| 0 <= j < resolved.len() && (#[trigger] resolved[j]) is None;
        assert(!flags[w]);
    }
    assert forall|i: int| 0 <= i < mods.len() && !flags[i]
        implies exists|j: int| 0 <= j < mods.len() && !(#[trigger] flags[j])
            && spec_extends_rel(mods, mods[i].0, mods[j].0) by {
        assert(resolved[i] is None);
        let k = choose|k: int| 0 <= k < mods[i].1.extends.len()
            && resolved[spec_name_index(mods, #[trigger] mods[i].1.extends[k])] is None;
        let b = mods[i].1.extends[k];
        let bi = spec_name_index(mods, b);
        assert(spec_is_module(mods, b));
        let w = choose|w: int| 0 <= w < mods.len() && (#[trigger] mods[w]).0 == b;
        lemma_name_index(mods, b, w);
        assert(0 <= bi < mods.len() && mods[bi].0 == b);
        assert(!flags[bi]);
        assert(spec_extends_rel(mods, mods[i].0, mods[bi].0)) by {
            assert(mods[i].0 == mods[i].0 && mods[i].1.extends[k] == b);
        }
    }
    lemma_stuck_implies_cycle(mods, flags);
}

/// Resolves every module profile, or rejects a cyclic `extends` graph —
/// and only a cyclic one. On success the output lists, in table order,
/// each module's name with the profile the fold equations owe it: its
/// parents' resolved profiles folded over the default in declared order,
/// the module's own fields folded last.
#[verifier::loop_isolation(false)]
#[verifier::rlimit(100)]
pub fn resolve_module_config(modules: &Vec<(String, ModuleConfig)>) -> (r: Result<Vec<(String, ResolvedModuleConfig)>, ErrorReason>)
    requires
        spec_unique_names(spec_mods_view(modules@)),
        spec_extends_closed(spec_mods_view(modules@)),
    ensures
        r is Err <==> spec_mod_cycle(spec_mods_view(modules@)),
        r matches Err(e) ==> e matches ErrorReason::CyclicExtends,
        r matches Ok(out) ==> out@.len() == modules@.len(),
        r matches Ok(out) ==> forall|i: int| 0 <= i < out@.len()
            ==> (#[trigger] out@[i].0)@ == modules@[i].0@,
        r matches Ok(out) ==> forall|i: int| 0 <= i < out@.len()
            ==> (#[trigger] out@[i].1)@ == spec_resolved_value(
                spec_mods_view(modules@),
                Seq::new(out@.len(), |j: int| out@[j].1@),
                i,
            ),
{
    let ghost mods = spec_mods_view(modules@);
    let n: usize = modules.len();
    let mut resolved: Vec<Option<ResolvedModuleConfig>> = Vec::new();
    for i in 0..n
        invariant
            resolved@.len() == i,
            forall|j: int| 0 <= j < i ==> (#[trigger] resolved@[j]) is None,
    {
        resolved.push(None);
    }
    loop
        invariant
            resolved@.len() == n,
            spec_worklist_inv(mods, resolved@),
        decreases spec_count_none(resolved@),
    {
        let mut all_done: bool = true;
        for i in 0..n
            invariant
                all_done <==> (forall|j: int| 0 <= j < i ==> (#[trigger] resolved@[j]) is Some),
        {
            if resolved[i].is_none() {
                all_done = false;
            }
        }
        if all_done {
            return Ok(finish_resolution(modules, &resolved));
        }
        let progressed = resolve_pass(modules, &mut resolved);
        if !progressed {
            proof {
                let w = choose|j: int| 0 <= j < n && !((#[trigger] resolved@[j]) is Some);
                assert(resolved@[w] is None);
                lemma_no_progress_cycle(mods, resolved@);
            }
            return Err(ErrorReason::CyclicExtends);
        }
    }
}

} // verus!
