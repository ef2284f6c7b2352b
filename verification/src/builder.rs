//! Assembles a specification rule by rule, and changes one that was built
//! before.

use crate::level::LevelFilter;
use crate::log_specification::{
    clone_filters,
    lemma_sort_rules,
    rules_of,
    sort_rules,
    well_ordered,
    LogSpecification,
    ModuleFilter,
    Rule,
};
use crate::text_filter::TextFilter;
use vstd::prelude::*;

verus! {

/// Index of the first rule with the given name, or `entries.len()` if there is none.
pub open spec fn position_of(entries: Seq<Rule>, name: Option<Seq<char>>) -> int
    decreases entries.len(),
{
    if entries.len() == 0 || entries[0].module_name == name {
        0
    } else {
        1 + position_of(entries.drop_first(), name)
    }
}

/// The entries after `rule` was staged: it takes the place of the entry with the
/// same name, or goes to the end if its name is new.
pub open spec fn upsert(entries: Seq<Rule>, rule: Rule) -> Seq<Rule> {
    let i = position_of(entries, rule.module_name);
    if i < entries.len() {
        entries.update(i, rule)
    } else {
        entries.push(rule)
    }
}

/// The entries without the one of the given name.
pub open spec fn without(entries: Seq<Rule>, name: Option<Seq<char>>) -> Seq<Rule> {
    let i = position_of(entries, name);
    if i < entries.len() {
        entries.remove(i)
    } else {
        entries
    }
}

/// The entries after all of `rules` were staged in their order: for each name
/// the threshold that was given last, at the place where the name came first.
pub open spec fn staged(rules: Seq<Rule>) -> Seq<Rule>
    decreases rules.len(),
{
    if rules.len() == 0 {
        Seq::empty()
    } else {
        upsert(staged(rules.drop_last()), rules.last())
    }
}

/// The threshold that the entries hold for a name, if they hold one.
pub open spec fn level_of(entries: Seq<Rule>, name: Option<Seq<char>>) -> Option<LevelFilter> {
    let i = position_of(entries, name);
    if i < entries.len() {
        Some(entries[i].level_filter)
    } else {
        None
    }
}

/// No two entries have the same name.
pub open spec fn distinct_names(entries: Seq<Rule>) -> bool {
    forall|i: int, j: int|
        0 <= i < j < entries.len() ==> (#[trigger] entries[i]).module_name
            != (#[trigger] entries[j]).module_name
}

/// What `position_of` finds: no entry before it has the name, and it has the
/// name unless the entries ran out.
pub proof fn lemma_position_of(entries: Seq<Rule>, name: Option<Seq<char>>)
    ensures
        0 <= position_of(entries, name) <= entries.len(),
        forall|k: int| 0 <= k < position_of(entries, name) ==> entries[k].module_name != name,
        position_of(entries, name) < entries.len() ==> entries[position_of(
            entries,
            name,
        )].module_name == name,
    decreases entries.len(),
{
    if entries.len() == 0 || entries[0].module_name == name {
    } else {
        let rest = entries.drop_first();
        lemma_position_of(rest, name);
        assert forall|k: int| 0 <= k < position_of(entries, name) implies entries[k].module_name
            != name by {
            if k > 0 {
                assert(entries[k] == rest[k - 1]);
            }
        }
        if position_of(entries, name) < entries.len() {
            assert(entries[position_of(entries, name)] == rest[position_of(rest, name)]);
        }
    }
}

/// An index that holds the name (or ends the entries), with no such entry
/// before it, is the one that `position_of` finds.
pub proof fn lemma_position_of_is(entries: Seq<Rule>, name: Option<Seq<char>>, i: int)
    requires
        0 <= i <= entries.len(),
        forall|k: int| 0 <= k < i ==> entries[k].module_name != name,
        i < entries.len() ==> entries[i].module_name == name,
    ensures
        position_of(entries, name) == i,
{
    lemma_position_of(entries, name);
}

/// Staging a rule is writing to a mapping from names to thresholds: afterwards
/// the rule's name has the rule's threshold, every other name has what it had,
/// and no name occurs twice.
pub proof fn lemma_upsert(entries: Seq<Rule>, rule: Rule, name: Option<Seq<char>>)
    requires
        distinct_names(entries),
    ensures
        distinct_names(upsert(entries, rule)),
        level_of(upsert(entries, rule), name) == if name == rule.module_name {
            Some(rule.level_filter)
        } else {
            level_of(entries, name)
        },
{
    let out = upsert(entries, rule);
    let i = position_of(entries, rule.module_name);
    lemma_position_of(entries, rule.module_name);
    lemma_position_of(entries, name);
    assert forall|a: int, b: int| 0 <= a < b < out.len() implies (#[trigger] out[a]).module_name
        != (#[trigger] out[b]).module_name by {
        if i < entries.len() {
            assert(out[a].module_name == entries[a].module_name);
            assert(out[b].module_name == entries[b].module_name);
        } else if b < entries.len() {
            assert(out[a] == entries[a] && out[b] == entries[b]);
        } else {
            assert(out[a] == entries[a]);
        }
    }
    let p = position_of(entries, name);
    if name == rule.module_name {
        lemma_position_of_is(out, name, i);
    } else if p < entries.len() {
        assert forall|k: int| 0 <= k < p implies out[k].module_name != name by {
            assert(out[k].module_name == entries[k].module_name);
        }
        assert(out[p] == entries[p]);
        lemma_position_of_is(out, name, p);
    } else {
        assert forall|k: int| 0 <= k < out.len() implies out[k].module_name != name by {
            if k < entries.len() {
                assert(out[k].module_name == entries[k].module_name);
            }
        }
        lemma_position_of_is(out, name, out.len() as int);
    }
}

/// Removing a name is removing it from the mapping: afterwards the name has no
/// threshold, every other name has what it had, and no name occurs twice.
pub proof fn lemma_without(entries: Seq<Rule>, removed: Option<Seq<char>>, name: Option<Seq<char>>)
    requires
        distinct_names(entries),
    ensures
        distinct_names(without(entries, removed)),
        level_of(without(entries, removed), name) == if name == removed {
            None
        } else {
            level_of(entries, name)
        },
{
    let out = without(entries, removed);
    let i = position_of(entries, removed);
    lemma_position_of(entries, removed);
    lemma_position_of(entries, name);
    if i < entries.len() {
        assert forall|a: int, b: int| 0 <= a < b < out.len() implies (
        #[trigger] out[a]).module_name != (#[trigger] out[b]).module_name by {
            let a0 = if a < i { a } else { a + 1 };
            let b0 = if b < i { b } else { b + 1 };
            assert(out[a] == entries[a0] && out[b] == entries[b0]);
        }
        let p = position_of(entries, name);
        if name == removed {
            assert forall|k: int| 0 <= k < out.len() implies out[k].module_name != name by {
                let k0 = if k < i { k } else { k + 1 };
                assert(out[k] == entries[k0]);
                assert(entries[k0].module_name != entries[i].module_name);
            }
            lemma_position_of_is(out, name, out.len() as int);
        } else if p < entries.len() {
            let q = if p < i { p } else { p - 1 };
            assert forall|k: int| 0 <= k < q implies out[k].module_name != name by {
                let k0 = if k < i { k } else { k + 1 };
                assert(out[k] == entries[k0]);
            }
            assert(out[q] == entries[p]);
            lemma_position_of_is(out, name, q);
        } else {
            assert forall|k: int| 0 <= k < out.len() implies out[k].module_name != name by {
                let k0 = if k < i { k } else { k + 1 };
                assert(out[k] == entries[k0]);
            }
            lemma_position_of_is(out, name, out.len() as int);
        }
    }
}

/// A rule set that holds the same rules as one without a name twice has no
/// name twice either.
pub proof fn lemma_reordering_keeps_names_distinct(a: Seq<Rule>, b: Seq<Rule>)
    requires
        distinct_names(a),
        a.to_multiset() == b.to_multiset(),
    ensures
        distinct_names(b),
{
    broadcast use vstd::seq_lib::group_to_multiset_ensures;

    assert(a.no_duplicates());
    a.lemma_multiset_has_no_duplicates();
    b.lemma_multiset_has_no_duplicates_conv();
    assert forall|i: int, j: int| 0 <= i < j < b.len() implies (#[trigger] b[i]).module_name != (
    #[trigger] b[j]).module_name by {
        assert(b.contains(b[i]) && b.contains(b[j]));
        assert(a.to_multiset().count(b[i]) > 0 && a.to_multiset().count(b[j]) > 0);
        assert(a.contains(b[i]) && a.contains(b[j]));
        let i1 = choose|k: int| 0 <= k < a.len() && a[k] == b[i];
        let j1 = choose|k: int| 0 <= k < a.len() && a[k] == b[j];
        assert(b[i] != b[j]);
        if i1 < j1 {
            assert(a[i1].module_name != a[j1].module_name);
        } else {
            assert(a[j1].module_name != a[i1].module_name);
        }
    }
}

/// Staging a list of rules leaves no name twice.
pub proof fn lemma_staged_distinct(rules: Seq<Rule>)
    ensures
        distinct_names(staged(rules)),
    decreases rules.len(),
{
    if rules.len() > 0 {
        lemma_staged_distinct(rules.drop_last());
        lemma_upsert(staged(rules.drop_last()), rules.last(), None);
    }
}

/// The name that an optional string stands for.
pub open spec fn name_of(name: Option<String>) -> Option<Seq<char>> {
    match name {
        Some(n) => Some(n@),
        None => None,
    }
}

/// Decides whether two optional names are the same.
pub fn same_name(a: &Option<String>, b: &Option<String>) -> (same: bool)
    ensures
        same == (name_of(*a) == name_of(*b)),
{
    match a {
        None => b.is_none(),
        Some(x) => match b {
            None => false,
            Some(y) => {
                let same = *x == *y;
                assert(same == (x@ == y@));
                same
            },
        },
    }
}

/// Stages rules for a specification: a mapping from module names, and from "no
/// name", to thresholds. Setting a name again replaces its threshold.
///
/// The entries are kept in the order in which their names were first set. A
/// specification that is built holds them by descending specificity, entries
/// of equal specificity in that order.
#[derive(Debug)]
pub struct LogSpecBuilder {
    module_filters: Vec<ModuleFilter>,
}

impl LogSpecBuilder {
    #[verifier::type_invariant]
    spec fn no_name_twice(&self) -> bool {
        distinct_names(rules_of(self.module_filters@))
    }

    /// The staged rules, in the order in which their names were first set.
    pub closed spec fn entries(&self) -> Seq<Rule> {
        rules_of(self.module_filters@)
    }

    /// A builder with the one entry that switches everything off.
    pub fn new() -> (builder: LogSpecBuilder)
        ensures
            builder.entries() == seq![Rule { module_name: None, level_filter: LevelFilter::Off }],
    {
        let mut filters: Vec<ModuleFilter> = Vec::new();
        filters.push(ModuleFilter { module_name: None, level_filter: LevelFilter::Off });
        assert(rules_of(filters@) =~= seq![
            Rule { module_name: None, level_filter: LevelFilter::Off },
        ]);
        LogSpecBuilder { module_filters: filters }
    }

    /// A builder that holds the given module filters. Where a name occurs more
    /// than once, the last threshold given for it counts.
    pub fn from_module_filters(module_filters: &[ModuleFilter]) -> (builder: LogSpecBuilder)
        ensures
            builder.entries() == staged(rules_of(module_filters@)),
            distinct_names(builder.entries()),
    {
        let ghost all = rules_of(module_filters@);
        let mut builder = LogSpecBuilder { module_filters: Vec::new() };
        let mut i: usize = 0;
        assert(all.take(0) =~= Seq::<Rule>::empty());
        while i < module_filters.len()
            invariant
                i <= module_filters.len(),
                all == rules_of(module_filters@),
                builder.entries() == staged(all.take(i as int)),
            decreases module_filters.len() - i,
        {
            let filter = module_filters[i].clone();
            assert(all.take(i + 1).drop_last() == all.take(i as int));
            builder.insert(filter);
            i += 1;
        }
        assert(all.take(i as int) == all);
        proof {
            lemma_staged_distinct(all);
        }
        builder
    }

    /// Index of the entry with the given name, or the number of entries if
    /// there is none.
    fn find(&self, name: &Option<String>) -> (i: usize)
        ensures
            i == position_of(self.entries(), name_of(*name)),
            i <= self.module_filters.len(),
    {
        let ghost entries = rules_of(self.module_filters@);
        let ghost wanted = name_of(*name);
        let mut i: usize = 0;
        while i < self.module_filters.len()
            invariant
                i <= self.module_filters.len(),
                entries == rules_of(self.module_filters@),
                wanted == name_of(*name),
                forall|k: int| 0 <= k < i ==> entries[k].module_name != wanted,
            decreases self.module_filters.len() - i,
        {
            let same = same_name(&self.module_filters[i].module_name, name);
            assert(entries[i as int] == self.module_filters@[i as int]@);
            if same {
                proof {
                    lemma_position_of_is(entries, wanted, i as int);
                }
                return i;
            }
            i += 1;
        }
        proof {
            lemma_position_of_is(entries, wanted, i as int);
        }
        i
    }

    /// Stages one module filter.
    fn insert(&mut self, filter: ModuleFilter)
        ensures
            final(self).entries() == upsert(old(self).entries(), filter@),
            distinct_names(final(self).entries()),
    {
        proof {
            use_type_invariant(&*self);
            lemma_upsert(self.entries(), filter@, None);
        }
        let ghost before = rules_of(self.module_filters@);
        let i = self.find(&filter.module_name);
        let mut filters: Vec<ModuleFilter> = Vec::new();
        core::mem::swap(&mut self.module_filters, &mut filters);
        if i < filters.len() {
            filters.set(i, filter);
            assert(rules_of(filters@) =~= before.update(i as int, filter@));
        } else {
            filters.push(filter);
            assert(rules_of(filters@) =~= before.push(filter@));
        }
        self.module_filters = filters;
    }

    /// Sets the threshold of the nameless rule, which decides for every module
    /// that no named rule covers.
    pub fn default(&mut self, lf: LevelFilter) -> (builder: &mut LogSpecBuilder)
        ensures
            builder.entries() == upsert(
                old(self).entries(),
                Rule { module_name: None, level_filter: lf },
            ),
            distinct_names(builder.entries()),
            *final(self) == *final(builder),
    {
        self.insert(ModuleFilter { module_name: None, level_filter: lf });
        self
    }

    /// Sets the threshold for the modules whose path begins with `module_name`.
    pub fn module(&mut self, module_name: &str, lf: LevelFilter) -> (builder: &mut LogSpecBuilder)
        ensures
            builder.entries() == upsert(
                old(self).entries(),
                Rule { module_name: Some(module_name@), level_filter: lf },
            ),
            distinct_names(builder.entries()),
            *final(self) == *final(builder),
    {
        self.insert(ModuleFilter { module_name: Some(module_name.to_owned()), level_filter: lf });
        self
    }

    /// Takes the rule for `module_name` out again, if there is one.
    pub fn remove(&mut self, module_name: &str) -> (builder: &mut LogSpecBuilder)
        ensures
            builder.entries() == without(old(self).entries(), Some(module_name@)),
            distinct_names(builder.entries()),
            *final(self) == *final(builder),
    {
        proof {
            use_type_invariant(&*self);
            lemma_without(self.entries(), Some(module_name@), None);
        }
        let ghost before = rules_of(self.module_filters@);
        let name = Some(module_name.to_owned());
        let i = self.find(&name);
        let mut filters: Vec<ModuleFilter> = Vec::new();
        core::mem::swap(&mut self.module_filters, &mut filters);
        if i < filters.len() {
            filters.remove(i);
            assert(rules_of(filters@) =~= before.remove(i as int));
        }
        self.module_filters = filters;
        self
    }

    /// The specification with the staged rules and without a text filter.
    pub fn finalize(self) -> (spec: LogSpecification)
        ensures
            spec@.rules == sort_rules(self.entries()),
            spec@.text_filter is None,
            well_ordered(spec@.rules),
            distinct_names(spec@.rules),
    {
        proof {
            use_type_invariant(&self);
            lemma_sort_rules(self.entries());
            lemma_reordering_keeps_names_distinct(self.entries(), sort_rules(self.entries()));
        }
        LogSpecification::from_rules(self.module_filters, None)
    }

    /// The specification with the staged rules and the given text filter.
    pub fn finalize_with_textfilter(self, tf: TextFilter) -> (spec: LogSpecification)
        ensures
            spec@.rules == sort_rules(self.entries()),
            spec@.text_filter == Some(tf@),
            well_ordered(spec@.rules),
            distinct_names(spec@.rules),
    {
        proof {
            use_type_invariant(&self);
            lemma_sort_rules(self.entries());
            lemma_reordering_keeps_names_distinct(self.entries(), sort_rules(self.entries()));
        }
        LogSpecification::from_rules(self.module_filters, Some(tf))
    }

    /// The specification with the staged rules and without a text filter; the
    /// builder can be used again.
    pub fn build(&self) -> (spec: LogSpecification)
        ensures
            spec@.rules == sort_rules(self.entries()),
            spec@.text_filter is None,
            well_ordered(spec@.rules),
            distinct_names(spec@.rules),
    {
        self.build_with_textfilter(None)
    }

    /// The specification with the staged rules and, if one is given, the text
    /// filter; the builder can be used again.
    pub fn build_with_textfilter(&self, tf: Option<TextFilter>) -> (spec: LogSpecification)
        ensures
            spec@.rules == sort_rules(self.entries()),
            spec@.text_filter == match tf {
                Some(filter) => Some(filter@),
                None => None,
            },
            well_ordered(spec@.rules),
            distinct_names(spec@.rules),
    {
        proof {
            use_type_invariant(self);
            lemma_sort_rules(self.entries());
            lemma_reordering_keeps_names_distinct(self.entries(), sort_rules(self.entries()));
        }
        LogSpecification::from_rules(clone_filters(&self.module_filters), tf)
    }
}

impl Clone for LogSpecBuilder {
    fn clone(&self) -> (copy: Self)
        ensures
            copy.entries() == self.entries(),
    {
        proof {
            use_type_invariant(self);
        }
        LogSpecBuilder { module_filters: clone_filters(&self.module_filters) }
    }
}

impl LogSpecification {
    /// A builder whose nameless rule has the given threshold.
    pub fn default(level_filter: LevelFilter) -> (builder: LogSpecBuilder)
        ensures
            builder.entries() == seq![Rule { module_name: None, level_filter }],
    {
        let mut filters: Vec<ModuleFilter> = Vec::new();
        filters.push(ModuleFilter { module_name: None, level_filter });
        let builder = LogSpecBuilder::from_module_filters(filters.as_slice());
        proof {
            let rules = rules_of(filters@);
            assert(rules =~= seq![Rule { module_name: None, level_filter }]);
            assert(rules.drop_last() =~= Seq::<Rule>::empty());
            assert(staged(rules.drop_last()) =~= Seq::<Rule>::empty());
            assert(rules.last() == Rule { module_name: None, level_filter });
            assert(staged(rules) =~= seq![Rule { module_name: None, level_filter }]);
        }
        builder
    }
}

} // verus!
