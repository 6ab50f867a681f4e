//! Rules: named lists of variants, and the table of all rules.
use vstd::prelude::*;
use vstd::string::*;
use crate::types::rule_variant::{RuleVariant, RuleVariantView};
use crate::text::str_eq;

verus! {

broadcast use vstd::string::group_string_axioms;

/// The model of a rule.
pub struct RuleView {
    pub name: Seq<char>,
    pub variants: Seq<RuleVariantView>,
    pub is_macro: bool,
}

/// A rule: its name and its variants, the last of which is tried first.
#[derive(PartialEq, Eq, Debug)]
pub struct Rule {
    pub name: String,
    pub variants: Vec<RuleVariant>,
    _is_macro: bool,
}

pub open spec fn variants_view(v: Seq<RuleVariant>) -> Seq<RuleVariantView> {
    v.map_values(|x: RuleVariant| x@)
}

impl View for Rule {
    type V = RuleView;

    closed spec fn view(&self) -> RuleView {
        RuleView { name: self.name@, variants: variants_view(self.variants@), is_macro: self._is_macro }
    }
}

impl Rule {
    /// A rule without variants; the rule `swirlcl` is a macro.
    pub fn new(name: String) -> (r: Rule)
        ensures
            r@ == (RuleView { name: name@, variants: Seq::empty(), is_macro: name@ == "swirlcl"@ }),
    {
        let is_macro = str_eq(name.as_str(), "swirlcl");
        let r = Rule { variants: Vec::new(), _is_macro: is_macro, name: name };
        proof {
            assert(variants_view(r.variants@) =~= Seq::empty());
        }
        r
    }

    /// The rule with the variant `v` added last.
    pub fn variant(self, v: RuleVariant) -> (r: Rule)
        ensures
            r@ == (RuleView { variants: self@.variants.push(v@), ..self@ }),
    {
        let mut s = self;
        let ghost old_vs = s.variants@;
        let ghost vv = v@;
        s.variants.push(v);
        proof {
            assert(variants_view(s.variants@) =~= variants_view(old_vs).push(vv));
        }
        s
    }

    pub fn variant_count(&self) -> (r: usize)
        ensures
            r == self@.variants.len(),
    {
        self.variants.len()
    }

    pub fn variant_at(&self, i: usize) -> (r: &RuleVariant)
        requires
            i < self@.variants.len(),
        ensures
            r@ == self@.variants[i as int],
    {
        &self.variants[i]
    }

    pub fn name_str(&self) -> (r: &str)
        ensures
            r@ == self@.name,
    {
        self.name.as_str()
    }

    pub fn is_macro(&self) -> (r: bool)
        ensures
            r == self@.is_macro,
    {
        self._is_macro
    }
}

/// All defined rules, by name.
#[derive(PartialEq, Eq, Debug)]
pub struct Rules {
    entries: Vec<(String, Rule)>,
}

pub closed spec fn rules_map(s: Seq<(String, Rule)>) -> Map<Seq<char>, RuleView>
    decreases s.len(),
{
    if s.len() == 0 {
        Map::empty()
    } else {
        rules_map(s.drop_last()).insert(s.last().0@, s.last().1@)
    }
}

closed spec fn keys_unique(s: Seq<(String, Rule)>) -> bool {
    forall|i: int, j: int| 0 <= i < j < s.len() ==> s[i].0@ != s[j].0@
}

proof fn lemma_rules_map(s: Seq<(String, Rule)>)
    requires
        keys_unique(s),
    ensures
        forall|k: Seq<char>| #[trigger] rules_map(s).contains_key(k)
            <==> exists|i: int| 0 <= i < s.len() && s[i].0@ == k,
        forall|i: int| 0 <= i < s.len() ==> #[trigger] rules_map(s)[s[i].0@] == s[i].1@,
    decreases s.len(),
{
    if s.len() > 0 {
        let t = s.drop_last();
        assert(keys_unique(t));
        lemma_rules_map(t);
        assert forall|k: Seq<char>| #[trigger] rules_map(s).contains_key(k)
            <==> exists|i: int| 0 <= i < s.len() && s[i].0@ == k by {
            if rules_map(s).contains_key(k) {
                if k != s.last().0@ {
                    assert(rules_map(t).contains_key(k));
                    let i = choose|i: int| 0 <= i < t.len() && t[i].0@ == k;
                    assert(s[i] == t[i]);
                } else {
                    assert(s[s.len() - 1].0@ == k);
                }
            }
            if exists|i: int| 0 <= i < s.len() && s[i].0@ == k {
                let i = choose|i: int| 0 <= i < s.len() && s[i].0@ == k;
                if i < s.len() - 1 {
                    assert(s[i] == t[i]);
                    assert(rules_map(t).contains_key(k));
                }
            }
        }
        assert forall|i: int| 0 <= i < s.len() implies #[trigger] rules_map(s)[s[i].0@] == s[i].1@ by {
            if i < s.len() - 1 {
                assert(s[i] == t[i]);
                assert(s[i].0@ != s[s.len() - 1].0@);
                assert(rules_map(t)[t[i].0@] == t[i].1@);
            }
        }
    }
}

proof fn lemma_rules_map_update(s: Seq<(String, Rule)>, i: int, x: (String, Rule))
    requires
        keys_unique(s),
        0 <= i < s.len(),
        x.0@ == s[i].0@,
    ensures
        keys_unique(s.update(i, x)),
        rules_map(s.update(i, x)) == rules_map(s).insert(x.0@, x.1@),
{
    let u = s.update(i, x);
    assert(keys_unique(u)) by {
        assert forall|a: int, b: int| 0 <= a < b < u.len() implies u[a].0@ != u[b].0@ by {
            assert(s[a].0@ != s[b].0@);
        }
    }
    lemma_rules_map(s);
    lemma_rules_map(u);
    let m = rules_map(s).insert(x.0@, x.1@);
    assert forall|k: Seq<char>| #[trigger] rules_map(u).contains_key(k) <==> m.contains_key(k) by {
        if rules_map(u).contains_key(k) {
            let j = choose|j: int| 0 <= j < u.len() && u[j].0@ == k;
            if j != i {
                assert(u[j] == s[j]);
            }
        }
        if m.contains_key(k) && k != x.0@ {
            let j = choose|j: int| 0 <= j < s.len() && s[j].0@ == k;
            assert(u[j] == s[j]);
        }
        if k == x.0@ {
            assert(u[i].0@ == k);
        }
    }
    assert forall|k: Seq<char>| #[trigger] rules_map(u).contains_key(k) implies rules_map(u)[k] == m[k] by {
        let j = choose|j: int| 0 <= j < u.len() && u[j].0@ == k;
        if j != i {
            assert(u[j] == s[j]);
        }
    }
    assert(rules_map(u) =~= m);
}

proof fn lemma_rules_map_push(s: Seq<(String, Rule)>, x: (String, Rule))
    requires
        keys_unique(s),
        forall|j: int| 0 <= j < s.len() ==> s[j].0@ != x.0@,
    ensures
        keys_unique(s.push(x)),
        rules_map(s.push(x)) == rules_map(s).insert(x.0@, x.1@),
{
    assert(s.push(x).drop_last() =~= s);
    assert(keys_unique(s.push(x))) by {
        assert forall|a: int, b: int| 0 <= a < b < s.push(x).len() implies s.push(x)[a].0@ != s.push(x)[b].0@ by {
            if b < s.len() {
                assert(s[a].0@ != s[b].0@);
            }
        }
    }
}

proof fn lemma_rules_map_remove(s: Seq<(String, Rule)>, i: int)
    requires
        keys_unique(s),
        0 <= i < s.len(),
    ensures
        keys_unique(s.remove(i)),
        rules_map(s.remove(i)) == rules_map(s).remove(s[i].0@),
{
    let u = s.remove(i);
    assert(keys_unique(u)) by {
        assert forall|a: int, b: int| 0 <= a < b < u.len() implies u[a].0@ != u[b].0@ by {
            let a2 = if a < i { a } else { a + 1 };
            let b2 = if b < i { b } else { b + 1 };
            assert(u[a] == s[a2]);
            assert(u[b] == s[b2]);
            assert(s[a2].0@ != s[b2].0@);
        }
    }
    lemma_rules_map(s);
    lemma_rules_map(u);
    let m = rules_map(s).remove(s[i].0@);
    assert forall|k: Seq<char>| #[trigger] rules_map(u).contains_key(k) <==> m.contains_key(k) by {
        if rules_map(u).contains_key(k) {
            let j = choose|j: int| 0 <= j < u.len() && u[j].0@ == k;
            let j2 = if j < i { j } else { j + 1 };
            assert(u[j] == s[j2]);
            assert(s[j2].0@ != s[i].0@);
        }
        if m.contains_key(k) {
            let j = choose|j: int| 0 <= j < s.len() && s[j].0@ == k;
            assert(j != i);
            let j2 = if j < i { j } else { j - 1 };
            assert(u[j2] == s[j]);
        }
    }
    assert forall|k: Seq<char>| #[trigger] rules_map(u).contains_key(k) implies rules_map(u)[k] == m[k] by {
        let j = choose|j: int| 0 <= j < u.len() && u[j].0@ == k;
        let j2 = if j < i { j } else { j + 1 };
        assert(u[j] == s[j2]);
    }
    assert(rules_map(u) =~= m);
}

impl View for Rules {
    type V = Map<Seq<char>, RuleView>;

    closed spec fn view(&self) -> Map<Seq<char>, RuleView> {
        rules_map(self.entries@)
    }
}

impl Rules {
    #[verifier::type_invariant]
    closed spec fn inv(self) -> bool {
        keys_unique(self.entries@)
    }

    pub fn new() -> (r: Rules)
        ensures
            r@ == Map::<Seq<char>, RuleView>::empty(),
    {
        Rules { entries: Vec::new() }
    }

    fn position(&self, k: &str) -> (r: Option<usize>)
        ensures
            match r {
                Some(i) => i < self.entries@.len() && self.entries@[i as int].0@ == k@,
                None => forall|i: int| 0 <= i < self.entries@.len() ==> self.entries@[i].0@ != k@,
            },
    {
        let mut i: usize = 0;
        while i < self.entries.len()
            invariant
                i <= self.entries@.len(),
                forall|j: int| 0 <= j < i ==> self.entries@[j].0@ != k@,
            decreases self.entries@.len() - i,
        {
            if str_eq(self.entries[i].0.as_str(), k) {
                return Some(i);
            }
            i = i + 1;
        }
        None
    }

    pub fn contains_key(&self, k: &str) -> (r: bool)
        ensures
            r == self@.contains_key(k@),
    {
        proof {
            use_type_invariant(self);
            lemma_rules_map(self.entries@);
        }
        self.position(k).is_some()
    }

    pub fn get(&self, k: &str) -> (r: Option<&Rule>)
        ensures
            match r {
                Some(v) => self@.contains_key(k@) && v@ == self@[k@],
                None => !self@.contains_key(k@),
            },
    {
        proof {
            use_type_invariant(self);
            lemma_rules_map(self.entries@);
        }
        match self.position(k) {
            Some(i) => Some(&self.entries[i].1),
            None => None,
        }
    }

    /// Defines the rule `k` as `v`, replacing an earlier definition.
    pub fn insert(&mut self, k: String, v: Rule)
        ensures
            final(self)@ == old(self)@.insert(k@, v@),
    {
        proof {
            use_type_invariant(&*self);
        }
        let mut entries = Vec::new();
        std::mem::swap(&mut entries, &mut self.entries);
        let ghost old_entries = entries@;
        match self.position_in(&entries, k.as_str()) {
            Some(i) => {
                proof {
                    lemma_rules_map_update(old_entries, i as int, (k, v));
                }
                entries.set(i, (k, v));
            },
            None => {
                proof {
                    lemma_rules_map_push(old_entries, (k, v));
                }
                entries.push((k, v));
            },
        }
        self.entries = entries;
    }

    fn position_in(&self, entries: &Vec<(String, Rule)>, k: &str) -> (r: Option<usize>)
        ensures
            match r {
                Some(i) => i < entries@.len() && entries@[i as int].0@ == k@,
                None => forall|i: int| 0 <= i < entries@.len() ==> entries@[i].0@ != k@,
            },
    {
        let mut i: usize = 0;
        while i < entries.len()
            invariant
                i <= entries@.len(),
                forall|j: int| 0 <= j < i ==> entries@[j].0@ != k@,
            decreases entries@.len() - i,
        {
            if str_eq(entries[i].0.as_str(), k) {
                return Some(i);
            }
            i = i + 1;
        }
        None
    }

    /// Removes the definition of the rule `k`, if any.
    pub fn remove(&mut self, k: &str)
        ensures
            final(self)@ == old(self)@.remove(k@),
    {
        proof {
            use_type_invariant(&*self);
            lemma_rules_map(self.entries@);
        }
        let mut entries = Vec::new();
        std::mem::swap(&mut entries, &mut self.entries);
        let ghost old_entries = entries@;
        match self.position_in(&entries, k) {
            Some(i) => {
                proof {
                    lemma_rules_map_remove(old_entries, i as int);
                }
                entries.remove(i);
            },
            None => {
                proof {
                    assert(rules_map(old_entries) =~= rules_map(old_entries).remove(k@));
                }
            },
        }
        self.entries = entries;
    }

    /// Adds the variant `v` last to the rule `name`, which is defined first
    /// (without variants) where it was not.
    pub fn add_variant(&mut self, name: &str, v: RuleVariant)
        ensures
            final(self)@ == old(self)@.insert(
                name@,
                if old(self)@.contains_key(name@) {
                    RuleView { variants: old(self)@[name@].variants.push(v@), ..old(self)@[name@] }
                } else {
                    RuleView { name: name@, variants: seq![v@], is_macro: name@ == "swirlcl"@ }
                },
            ),
    {
        proof {
            use_type_invariant(&*self);
            lemma_rules_map(self.entries@);
        }
        let mut entries = Vec::new();
        std::mem::swap(&mut entries, &mut self.entries);
        let ghost old_entries = entries@;
        match self.position_in(&entries, name) {
            Some(i) => {
                let (k, rule) = entries.remove(i);
                let rule = rule.variant(v);
                proof {
                    assert(old_entries.remove(i as int).insert(i as int, (k, rule)) =~= old_entries.update(i as int, (k, rule)));
                    lemma_rules_map_update(old_entries, i as int, (k, rule));
                }
                entries.insert(i, (k, rule));
            },
            None => {
                let rule = Rule::new(name.to_owned()).variant(v);
                let key = name.to_owned();
                proof {
                    lemma_rules_map_push(old_entries, (key, rule));
                }
                entries.push((key, rule));
            },
        }
        self.entries = entries;
    }

    /// Removes the last variant of the rule `name`, if it has one.
    pub fn pop_variant(&mut self, name: &str)
        ensures
            if old(self)@.contains_key(name@) && old(self)@[name@].variants.len() > 0 {
                final(self)@ == old(self)@.insert(
                    name@,
                    RuleView { variants: old(self)@[name@].variants.drop_last(), ..old(self)@[name@] },
                )
            } else {
                final(self)@ == old(self)@
            },
    {
        proof {
            use_type_invariant(&*self);
            lemma_rules_map(self.entries@);
        }
        let mut entries = Vec::new();
        std::mem::swap(&mut entries, &mut self.entries);
        let ghost old_entries = entries@;
        match self.position_in(&entries, name) {
            Some(i) => {
                let (k, mut rule) = entries.remove(i);
                let ghost old_vs = rule.variants@;
                let _ = rule.variants.pop();
                proof {
                    if old_vs.len() > 0 {
                        assert(variants_view(rule.variants@) =~= variants_view(old_vs).drop_last());
                    }
                    assert(old_entries.remove(i as int).insert(i as int, (k, rule)) =~= old_entries.update(i as int, (k, rule)));
                    lemma_rules_map_update(old_entries, i as int, (k, rule));
                    if old_vs.len() == 0 {
                        assert(rule@ == old_entries[i as int].1@);
                        assert(rules_map(old_entries).insert(k@, rule@) =~= rules_map(old_entries));
                    }
                }
                entries.insert(i, (k, rule));
            },
            None => {},
        }
        self.entries = entries;
    }
}

} // verus!
