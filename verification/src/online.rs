//! The registered online-source rules and their engines, keyed by rule name.
use vstd::prelude::*;
use crate::text::{chars_of, chars_eq, string_of};
use crate::rule::{Rule, RuleView, RuleEngine, rules_view, all, agedm_spec};

verus! {

/// The rule of the first engine in `es` whose rule is named `name`.
pub open spec fn engine_rule_of(es: Seq<RuleView>, name: Seq<char>) -> Option<RuleView>
    decreases es.len(),
{
    if es.len() == 0 {
        None
    } else if es[0].name == name {
        Some(es[0])
    } else {
        engine_rule_of(es.drop_first(), name)
    }
}

/// The rules of `s` that are not named `name`, in order.
pub open spec fn rules_without(s: Seq<RuleView>, name: Seq<char>) -> Seq<RuleView>
    decreases s.len(),
{
    if s.len() == 0 {
        seq![]
    } else {
        let rest = rules_without(s.drop_last(), name);
        if s.last().name == name {
            rest
        } else {
            rest.push(s.last())
        }
    }
}

pub open spec fn engines_view(es: Seq<RuleEngine>) -> Seq<RuleView> {
    es.map_values(|e: RuleEngine| e.rule_view())
}

pub open spec fn rule_names(s: Seq<RuleView>) -> Seq<Seq<char>> {
    s.map_values(|r: RuleView| r.name)
}

pub open spec fn distinct_rule_names(s: Seq<RuleView>) -> bool {
    forall|i: int, j: int| 0 <= i < j < s.len() ==> (#[trigger] s[i]).name != (#[trigger] s[j]).name
}

/// The rule of the engine kept under each name.
pub open spec fn engines_map(es: Seq<RuleView>) -> Map<Seq<char>, RuleView> {
    Map::new(|n: Seq<char>| engine_rule_of(es, n) is Some, |n: Seq<char>| engine_rule_of(es, n)->Some_0)
}

/// What an online-source state holds: its rules in registration order, and
/// the rule of the engine kept under each name.
pub struct OnlineView {
    pub rules: Seq<RuleView>,
    pub engines: Map<Seq<char>, RuleView>,
}

impl OnlineView {
    /// The state after registering `r`: the rule is appended and its engine
    /// replaces any engine of that name.
    pub open spec fn with_rule(self, r: RuleView) -> OnlineView {
        OnlineView { rules: self.rules.push(r), engines: self.engines.insert(r.name, r) }
    }

    /// The state after removing every rule named `name`, and its engine.
    pub open spec fn without_rule(self, name: Seq<char>) -> OnlineView {
        OnlineView { rules: rules_without(self.rules, name), engines: self.engines.remove(name) }
    }

    /// The state after adding or updating `r`: any rule of that name is
    /// removed, then `r` is registered.
    pub open spec fn with_updated_rule(self, r: RuleView) -> OnlineView {
        self.without_rule(r.name).with_rule(r)
    }
}

proof fn lemma_map_after_insert(old_es: Seq<RuleView>, new_es: Seq<RuleView>, key: Seq<char>, r: RuleView)
    requires
        engine_rule_of(new_es, key) == Some(r),
        forall|n: Seq<char>| n != key ==> #[trigger] engine_rule_of(new_es, n) == engine_rule_of(old_es, n),
    ensures
        engines_map(new_es) == engines_map(old_es).insert(key, r),
{
    assert(engines_map(new_es) =~= engines_map(old_es).insert(key, r));
}

proof fn lemma_map_after_remove(old_es: Seq<RuleView>, new_es: Seq<RuleView>, key: Seq<char>)
    requires
        engine_rule_of(new_es, key) is None,
        forall|n: Seq<char>| n != key ==> #[trigger] engine_rule_of(new_es, n) == engine_rule_of(old_es, n),
    ensures
        engines_map(new_es) == engines_map(old_es).remove(key),
{
    assert(engines_map(new_es) =~= engines_map(old_es).remove(key));
}

proof fn lemma_engine_rule_index(es: Seq<RuleView>, name: Seq<char>, i: int)
    requires
        0 <= i < es.len(),
        es[i].name == name,
        forall|j: int| 0 <= j < i ==> (#[trigger] es[j]).name != name,
    ensures
        engine_rule_of(es, name) == Some(es[i]),
    decreases i,
{
    if i > 0 {
        assert forall|j: int| 0 <= j < i - 1 implies (#[trigger] es.drop_first()[j]).name != name by {
            assert(es.drop_first()[j] == es[j + 1]);
        }
        lemma_engine_rule_index(es.drop_first(), name, i - 1);
    }
}

proof fn lemma_engine_rule_none(es: Seq<RuleView>, name: Seq<char>)
    requires
        forall|j: int| 0 <= j < es.len() ==> (#[trigger] es[j]).name != name,
    ensures
        engine_rule_of(es, name) is None,
    decreases es.len(),
{
    if es.len() > 0 {
        assert forall|j: int| 0 <= j < es.drop_first().len() implies (#[trigger] es.drop_first()[j]).name != name by {
            assert(es.drop_first()[j] == es[j + 1]);
        }
        lemma_engine_rule_none(es.drop_first(), name);
    }
}

proof fn lemma_engine_rule_update(old_es: Seq<RuleView>, new_es: Seq<RuleView>, n: Seq<char>, i: int, r: RuleView)
    requires
        0 <= i < old_es.len(),
        new_es == old_es.update(i, r),
        old_es[i].name != n,
        r.name != n,
    ensures
        engine_rule_of(new_es, n) == engine_rule_of(old_es, n),
    decreases old_es.len(),
{
    if i > 0 {
        assert(new_es.drop_first() =~= old_es.drop_first().update(i - 1, r));
        lemma_engine_rule_update(old_es.drop_first(), new_es.drop_first(), n, i - 1, r);
    } else {
        assert(new_es.drop_first() =~= old_es.drop_first());
    }
}

proof fn lemma_engine_rule_push(es: Seq<RuleView>, n: Seq<char>, r: RuleView)
    requires
        r.name != n,
    ensures
        engine_rule_of(es.push(r), n) == engine_rule_of(es, n),
    decreases es.len(),
{
    if es.len() == 0 {
        assert(es.push(r).drop_first() =~= Seq::<RuleView>::empty());
    } else {
        assert(es.push(r).drop_first() =~= es.drop_first().push(r));
        assert(es.push(r)[0] == es[0]);
        lemma_engine_rule_push(es.drop_first(), n, r);
        if es[0].name != n {
            assert(engine_rule_of(es.push(r), n) == engine_rule_of(es.push(r).drop_first(), n));
        }
    }
}

proof fn lemma_engine_rule_remove(es: Seq<RuleView>, n: Seq<char>, i: int)
    requires
        0 <= i < es.len(),
        es[i].name != n,
    ensures
        engine_rule_of(es.remove(i), n) == engine_rule_of(es, n),
    decreases es.len(),
{
    if i > 0 {
        assert(es.remove(i).drop_first() =~= es.drop_first().remove(i - 1));
        assert(es.remove(i)[0] == es[0]);
        lemma_engine_rule_remove(es.drop_first(), n, i - 1);
        if es[0].name != n {
            assert(engine_rule_of(es.remove(i), n) == engine_rule_of(es.remove(i).drop_first(), n));
        }
    } else {
        assert(es.remove(0) =~= es.drop_first());
    }
}

proof fn lemma_without_has_none(s: Seq<RuleView>, name: Seq<char>)
    ensures
        forall|i: int| 0 <= i < rules_without(s, name).len() ==> (#[trigger] rules_without(s, name)[i]).name != name,
    decreases s.len(),
{
    if s.len() > 0 {
        lemma_without_has_none(s.drop_last(), name);
        let rest = rules_without(s.drop_last(), name);
        if s.last().name != name {
            assert forall|i: int| 0 <= i < rest.push(s.last()).len() implies (#[trigger] rest.push(s.last())[i]).name != name by {
                if i < rest.len() {
                    assert(rest.push(s.last())[i] == rest[i]);
                }
            }
        }
    }
}

proof fn lemma_without_of_clean(s: Seq<RuleView>, name: Seq<char>)
    requires
        forall|i: int| 0 <= i < s.len() ==> (#[trigger] s[i]).name != name,
    ensures
        rules_without(s, name) == s,
    decreases s.len(),
{
    if s.len() > 0 {
        assert(s.drop_last().len() == s.len() - 1);
        assert forall|i: int| 0 <= i < s.drop_last().len() implies (#[trigger] s.drop_last()[i]).name != name by {
            assert(s.drop_last()[i] == s[i]);
        }
        lemma_without_of_clean(s.drop_last(), name);
        assert(s.last() == s[s.len() - 1]);
        assert(s.drop_last().push(s.last()) =~= s);
    }
}

/// Removing the rules of a name leaves no rule of that name.
pub proof fn law_removal_leaves_no_rule(v: OnlineView, name: Seq<char>)
    ensures
        forall|i: int| 0 <= i < v.without_rule(name).rules.len() ==> (#[trigger] v.without_rule(name).rules[i]).name != name,
        !v.without_rule(name).engines.contains_key(name),
{
    lemma_without_has_none(v.rules, name);
}

/// Removing a rule right after adding it gives the state that removing it
/// alone gives.
pub proof fn law_remove_undoes_add(v: OnlineView, r: RuleView)
    ensures
        v.with_rule(r).without_rule(r.name) == v.without_rule(r.name),
{
    assert(v.rules.push(r).drop_last() =~= v.rules);
    assert(v.with_rule(r).without_rule(r.name).engines =~= v.without_rule(r.name).engines);
}

/// Adding or updating a rule twice gives the state that doing it once gives.
pub proof fn law_update_idempotent(v: OnlineView, r: RuleView)
    ensures
        v.with_updated_rule(r).with_updated_rule(r) == v.with_updated_rule(r),
{
    let once = v.with_updated_rule(r);
    let cleaned = rules_without(v.rules, r.name);
    lemma_without_has_none(v.rules, r.name);
    lemma_without_of_clean(cleaned, r.name);
    assert(cleaned.push(r).drop_last() =~= cleaned);
    assert(rules_without(once.rules, r.name) == cleaned);
    assert(once.with_updated_rule(r).rules =~= once.rules);
    assert(once.with_updated_rule(r).engines =~= once.engines);
}

/// After adding or updating a rule, the list holds exactly one rule of its
/// name, the new rule, last.
pub proof fn law_update_keeps_one_rule_per_name(v: OnlineView, r: RuleView)
    ensures
        v.with_updated_rule(r).rules.last() == r,
        forall|i: int| 0 <= i < v.with_updated_rule(r).rules.len() - 1 ==> (#[trigger] v.with_updated_rule(r).rules[i]).name != r.name,
        v.with_updated_rule(r).engines[r.name] == r,
{
    let cleaned = rules_without(v.rules, r.name);
    lemma_without_has_none(v.rules, r.name);
    assert forall|i: int| 0 <= i < v.with_updated_rule(r).rules.len() - 1 implies (#[trigger] v.with_updated_rule(r).rules[i]).name != r.name by {
        assert(v.with_updated_rule(r).rules[i] == cleaned[i]);
    }
}

/// Holds all registered online-source rules, and one engine per rule name.
pub struct OnlineSourceState {
    engines: Vec<RuleEngine>,
    rules: Vec<Rule>,
}

impl View for OnlineSourceState {
    type V = OnlineView;

    closed spec fn view(&self) -> OnlineView {
        OnlineView { rules: rules_view(self.rules@), engines: engines_map(engines_view(self.engines@)) }
    }
}

impl OnlineSourceState {
    #[verifier::type_invariant]
    spec fn engines_keyed(self) -> bool {
        distinct_rule_names(engines_view(self.engines@))
    }

    fn engine_position(&self, name: &str) -> (r: Option<usize>)
        ensures
            r matches Some(i) ==> i < self.engines@.len() && engines_view(self.engines@)[i as int].name == name@
                && forall|j: int| 0 <= j < i ==> (#[trigger] engines_view(self.engines@)[j]).name != name@,
            r is None ==> forall|j: int| 0 <= j < self.engines@.len() ==> (#[trigger] engines_view(self.engines@)[j]).name != name@,
    {
        let key = chars_of(name);
        let mut i: usize = 0;
        while i < self.engines.len()
            invariant
                i <= self.engines@.len(),
                key@ == name@,
                forall|j: int| 0 <= j < i ==> (#[trigger] engines_view(self.engines@)[j]).name != name@,
            decreases self.engines@.len() - i,
        {
            let n = chars_of(self.engines[i].rule().name.as_str());
            if chars_eq(&n, &key) {
                return Some(i);
            }
            i = i + 1;
        }
        None
    }

    /// An empty state.
    fn empty() -> (r: OnlineSourceState)
        ensures
            r@ == (OnlineView { rules: Seq::<RuleView>::empty(), engines: Map::<Seq<char>, RuleView>::empty() }),
    {
        let r = OnlineSourceState { engines: Vec::new(), rules: Vec::new() };
        assert(rules_view(r.rules@) =~= Seq::<RuleView>::empty());
        assert(engines_map(engines_view(r.engines@)) =~= Map::<Seq<char>, RuleView>::empty());
        r
    }

    /// A state holding the built-in rules.
    pub fn new() -> (r: OnlineSourceState)
        ensures
            r@ == (OnlineView {
                rules: seq![agedm_spec()],
                engines: Map::<Seq<char>, RuleView>::empty().insert(agedm_spec().name, agedm_spec()),
            }),
    {
        let mut state = OnlineSourceState::empty();
        let builtin = all();
        let mut i: usize = 0;
        while i < builtin.len()
            invariant
                i <= builtin@.len(),
                rules_view(builtin@) == seq![agedm_spec()],
                state@.rules == rules_view(builtin@).subrange(0, i as int),
                i == 0 ==> state@.engines == Map::<Seq<char>, RuleView>::empty(),
                i == 1 ==> state@.engines == Map::<Seq<char>, RuleView>::empty().insert(agedm_spec().name, agedm_spec()),
            decreases builtin@.len() - i,
        {
            assert(builtin@[i as int]@ == rules_view(builtin@)[i as int]);
            state.add_rule(builtin[i].duplicate());
            assert(rules_view(builtin@).subrange(0, i + 1) =~= rules_view(builtin@).subrange(0, i as int).push(builtin@[i as int]@));
            i = i + 1;
        }
        assert(rules_view(builtin@).subrange(0, 1) =~= seq![agedm_spec()]);
        state
    }

    /// Registers a rule and an engine for it (replacing the engine of a
    /// rule with the same name).
    pub fn add_rule(&mut self, rule: Rule)
        ensures
            final(self)@ == old(self)@.with_rule(rule@),
    {
        proof {
            use_type_invariant(&*self);
        }
        let ghost old_es = engines_view(self.engines@);
        let ghost rv = rule@;
        let engine = RuleEngine::new(rule.duplicate());
        let pos = self.engine_position(rule.name.as_str());
        let mut es = Vec::new();
        std::mem::swap(&mut es, &mut self.engines);
        let mut rs = Vec::new();
        std::mem::swap(&mut rs, &mut self.rules);
        let ghost old_rs = rules_view(rs@);
        rs.push(rule);
        assert(rules_view(rs@) =~= old_rs.push(rv));
        match pos {
            Some(i) => {
                es.set(i, engine);
                let ghost new_es = engines_view(es@);
                assert(new_es =~= old_es.update(i as int, rv));
                assert forall|a: int, b: int| 0 <= a < b < new_es.len() implies (#[trigger] new_es[a]).name != (#[trigger] new_es[b]).name by {
                    if a != i && b != i {
                        assert(new_es[a] == old_es[a] && new_es[b] == old_es[b]);
                    } else if a == i {
                        assert(new_es[b] == old_es[b]);
                    } else {
                        assert(new_es[a] == old_es[a]);
                    }
                }
                proof {
                    lemma_engine_rule_index(new_es, rv.name, i as int);
                    assert forall|n: Seq<char>| n != rv.name implies #[trigger] engine_rule_of(new_es, n) == engine_rule_of(old_es, n) by {
                        lemma_engine_rule_update(old_es, new_es, n, i as int, rv);
                    }
                    lemma_map_after_insert(old_es, new_es, rv.name, rv);
                }
            },
            None => {
                es.push(engine);
                let ghost new_es = engines_view(es@);
                assert(new_es =~= old_es.push(rv));
                assert forall|a: int, b: int| 0 <= a < b < new_es.len() implies (#[trigger] new_es[a]).name != (#[trigger] new_es[b]).name by {
                    if b < old_es.len() {
                        assert(new_es[a] == old_es[a] && new_es[b] == old_es[b]);
                    } else {
                        assert(new_es[a] == old_es[a]);
                    }
                }
                proof {
                    assert forall|j: int| 0 <= j < old_es.len() implies (#[trigger] new_es[j]).name != rv.name by {
                        assert(new_es[j] == old_es[j]);
                    }
                    lemma_engine_rule_index(new_es, rv.name, old_es.len() as int);
                    assert forall|n: Seq<char>| n != rv.name implies #[trigger] engine_rule_of(new_es, n) == engine_rule_of(old_es, n) by {
                        lemma_engine_rule_push(old_es, n, rv);
                    }
                    lemma_map_after_insert(old_es, new_es, rv.name, rv);
                }
            },
        }
        self.engines = es;
        self.rules = rs;
    }

    /// Removes every rule named `name`, and its engine.
    pub fn remove_rule(&mut self, name: &str)
        ensures
            final(self)@ == old(self)@.without_rule(name@),
    {
        proof {
            use_type_invariant(&*self);
        }
        let ghost old_es = engines_view(self.engines@);
        let key = chars_of(name);
        let pos = self.engine_position(name);
        let mut es = Vec::new();
        std::mem::swap(&mut es, &mut self.engines);
        let mut rs = Vec::new();
        std::mem::swap(&mut rs, &mut self.rules);
        let ghost old_rs = rules_view(rs@);
        let mut kept: Vec<Rule> = Vec::new();
        let mut i: usize = 0;
        assert(old_rs.subrange(0, 0) =~= Seq::<RuleView>::empty());
        while i < rs.len()
            invariant
                i <= rs@.len(),
                old_rs == rules_view(rs@),
                key@ == name@,
                rules_view(kept@) == rules_without(old_rs.subrange(0, i as int), name@),
            decreases rs@.len() - i,
        {
            let ghost prev = rules_view(kept@);
            assert(old_rs.subrange(0, i + 1).drop_last() =~= old_rs.subrange(0, i as int));
            assert(old_rs.subrange(0, i + 1).last() == rs@[i as int]@);
            if !chars_eq(&chars_of(rs[i].name.as_str()), &key) {
                kept.push(rs[i].duplicate());
                assert(rules_view(kept@) =~= prev.push(rs@[i as int]@));
            }
            i = i + 1;
        }
        assert(old_rs.subrange(0, i as int) =~= old_rs);
        match pos {
            Some(j) => {
                es.remove(j);
                let ghost new_es = engines_view(es@);
                assert(new_es =~= old_es.remove(j as int));
                assert forall|a: int, b: int| 0 <= a < b < new_es.len() implies (#[trigger] new_es[a]).name != (#[trigger] new_es[b]).name by {
                    if b < j {
                        assert(new_es[a] == old_es[a] && new_es[b] == old_es[b]);
                    } else if a < j {
                        assert(new_es[a] == old_es[a] && new_es[b] == old_es[b + 1]);
                    } else {
                        assert(new_es[a] == old_es[a + 1] && new_es[b] == old_es[b + 1]);
                    }
                }
                proof {
                    assert forall|k: int| 0 <= k < new_es.len() implies (#[trigger] new_es[k]).name != name@ by {
                        if k < j {
                            assert(new_es[k] == old_es[k]);
                        } else {
                            assert(new_es[k] == old_es[k + 1]);
                            assert(old_es[j as int].name == name@);
                        }
                    }
                    lemma_engine_rule_none(new_es, name@);
                    assert forall|n: Seq<char>| n != name@ implies #[trigger] engine_rule_of(new_es, n) == engine_rule_of(old_es, n) by {
                        lemma_engine_rule_remove(old_es, n, j as int);
                    }
                    lemma_map_after_remove(old_es, new_es, name@);
                }
            },
            None => {
                proof {
                    lemma_engine_rule_none(old_es, name@);
                    lemma_map_after_remove(old_es, old_es, name@);
                }
            },
        }
        self.engines = es;
        self.rules = kept;
    }

    /// Adds a rule, or updates the rule of the same name: the old one is
    /// removed first.
    pub fn upsert_rule(&mut self, rule: Rule)
        ensures
            final(self)@ == old(self)@.with_updated_rule(rule@),
    {
        let name = rule.name.clone();
        self.remove_rule(name.as_str());
        self.add_rule(rule);
    }

    /// The rule of the engine registered under `source`, or the message
    /// that no such source exists.
    pub fn rule_for_source(&self, source: &str) -> (r: Result<Rule, String>)
        ensures
            match r {
                Ok(rule) => self@.engines.contains_key(source@) && rule@ == self@.engines[source@],
                Err(m) => !self@.engines.contains_key(source@) && m@ == "Online source not found: "@ + source@,
            },
    {
        match self.engine(source) {
            Some(e) => Ok(e.rule().duplicate()),
            None => {
                let mut v = chars_of("Online source not found: ");
                crate::text::push_all(&mut v, &chars_of(source));
                proof {
                    reveal_strlit("Online source not found: ");
                }
                Err(string_of(&v))
            },
        }
    }

    /// The names of the registered rules, in order.
    pub fn list_names(&self) -> (r: Vec<String>)
        ensures
            crate::torrent_provider::strings_view(r@) == rule_names(self@.rules),
    {
        let mut out: Vec<String> = Vec::new();
        let mut i: usize = 0;
        while i < self.rules.len()
            invariant
                i <= self.rules@.len(),
                crate::torrent_provider::strings_view(out@) == rule_names(self@.rules).subrange(0, i as int),
            decreases self.rules@.len() - i,
        {
            let ghost prev = crate::torrent_provider::strings_view(out@);
            assert(rule_names(self@.rules)[i as int] == self.rules@[i as int].name@);
            let t = self.rules[i].name.clone();
            out.push(t);
            assert(crate::torrent_provider::strings_view(out@) =~= prev.push(t@));
            assert(rule_names(self@.rules).subrange(0, i + 1) =~= rule_names(self@.rules).subrange(0, i as int).push(t@));
            i = i + 1;
        }
        assert(rule_names(self@.rules).subrange(0, i as int) =~= rule_names(self@.rules));
        out
    }

    /// The registered rules, in order.
    pub fn list_rules(&self) -> (r: Vec<Rule>)
        ensures
            rules_view(r@) == self@.rules,
    {
        let mut out: Vec<Rule> = Vec::new();
        let mut i: usize = 0;
        while i < self.rules.len()
            invariant
                i <= self.rules@.len(),
                rules_view(out@) == self@.rules.subrange(0, i as int),
            decreases self.rules@.len() - i,
        {
            assert(self@.rules[i as int] == self.rules@[i as int]@);
            let ghost prev = rules_view(out@);
            let d = self.rules[i].duplicate();
            out.push(d);
            assert(rules_view(out@) =~= prev.push(d@));
            assert(self@.rules.subrange(0, i + 1) =~= self@.rules.subrange(0, i as int).push(d@));
            i = i + 1;
        }
        assert(self@.rules.subrange(0, i as int) =~= self@.rules);
        out
    }

    /// The engine registered under `name`.
    pub fn engine(&self, name: &str) -> (r: Option<&RuleEngine>)
        ensures
            match r {
                Some(e) => self@.engines.contains_key(name@) && self@.engines[name@] == e.rule_view(),
                None => !self@.engines.contains_key(name@),
            },
    {
        match self.engine_position(name) {
            Some(i) => {
                proof {
                    lemma_engine_rule_index(engines_view(self.engines@), name@, i as int);
                }
                Some(&self.engines[i])
            },
            None => {
                proof {
                    lemma_engine_rule_none(engines_view(self.engines@), name@);
                }
                None
            },
        }
    }
}

impl Default for OnlineSourceState {
    fn default() -> (r: OnlineSourceState)
        ensures
            r@ == (OnlineView {
                rules: seq![agedm_spec()],
                engines: Map::<Seq<char>, RuleView>::empty().insert(agedm_spec().name, agedm_spec()),
            }),
    {
        OnlineSourceState::new()
    }
}

} // verus!
