//! Rules, the ordered rule set with its optional text filter, and the decision
//! whether a record of a given severity and module is enabled.

use crate::level::{publish_max_level, Level, LevelFilter};
use crate::text::{is_prefix, starts_with};
use crate::text_filter::TextFilter;
use vstd::prelude::*;
use vstd::utf8::encode_utf8;

verus! {

/// One rule: the threshold for the modules whose path starts with `module_name`,
/// or, without a name, the threshold for every module that no named rule covers.
#[derive(Debug, PartialEq, Eq)]
pub struct ModuleFilter {
    pub module_name: Option<String>,
    pub level_filter: LevelFilter,
}

/// The mathematical content of a `ModuleFilter`.
pub struct Rule {
    pub module_name: Option<Seq<char>>,
    pub level_filter: LevelFilter,
}

impl View for ModuleFilter {
    type V = Rule;

    open spec fn view(&self) -> Rule {
        Rule {
            module_name: match self.module_name {
                Some(name) => Some(name@),
                None => None,
            },
            level_filter: self.level_filter,
        }
    }
}

impl Clone for ModuleFilter {
    fn clone(&self) -> (copy: Self)
        ensures
            copy == *self,
    {
        ModuleFilter {
            module_name: match &self.module_name {
                Some(name) => Some(name.clone()),
                None => None,
            },
            level_filter: self.level_filter,
        }
    }
}

/// Copies a list of module filters.
pub(crate) fn clone_filters(filters: &Vec<ModuleFilter>) -> (copy: Vec<ModuleFilter>)
    ensures
        copy@ == filters@,
{
    let mut copy: Vec<ModuleFilter> = Vec::new();
    let mut i: usize = 0;
    while i < filters.len()
        invariant
            i <= filters.len(),
            copy@ == filters@.take(i as int),
        decreases filters.len() - i,
    {
        copy.push(filters[i].clone());
        assert(copy@ =~= filters@.take(i + 1));
        i += 1;
    }
    assert(copy@ == filters@);
    copy
}

/// The rules that a list of module filters stands for.
pub open spec fn rules_of(filters: Seq<ModuleFilter>) -> Seq<Rule> {
    filters.map_values(|f: ModuleFilter| f@)
}

/// How specific a rule is: a named rule is the more specific the longer its name
/// is in its UTF-8 encoding, and every named rule is more specific than a
/// nameless one.
pub open spec fn specificity(rule: Rule) -> nat {
    match rule.module_name {
        Some(name) => encode_utf8(name).len() + 1,
        None => 0,
    }
}

/// The order that a rule set is kept in: no rule stands before a more specific
/// one. Named rules are therefore ordered by descending length of their names,
/// measured in bytes, and the nameless rules come last.
pub open spec fn well_ordered(rules: Seq<Rule>) -> bool {
    forall|i: int, j: int|
        0 <= i < j < rules.len() ==> specificity(#[trigger] rules[i]) >= specificity(
            #[trigger] rules[j],
        )
}

/// Whether a rule speaks about the module `path`: a nameless rule speaks about
/// every module, a named rule about those whose path begins with its name,
/// character by character.
pub open spec fn applies(rule: Rule, path: Seq<char>) -> bool {
    match rule.module_name {
        Some(name) => is_prefix(name, path),
        None => true,
    }
}

/// Index of the first rule that speaks about `path`, or `rules.len()` if none does.
pub open spec fn first_match(rules: Seq<Rule>, path: Seq<char>) -> int
    decreases rules.len(),
{
    if rules.len() == 0 || applies(rules[0], path) {
        0
    } else {
        1 + first_match(rules.drop_first(), path)
    }
}

/// Whether a rule set lets a record of severity `level` from module `path` pass:
/// the first rule that speaks about the module decides by its threshold, and
/// without such a rule the record does not pass.
pub open spec fn enabled_by(rules: Seq<Rule>, level: Level, path: Seq<char>) -> bool {
    let i = first_match(rules, path);
    i < rules.len() && rules[i].level_filter.admits(level)
}

/// The most verbose threshold among the rules, `Off` for an empty rule set.
pub open spec fn max_level_of(rules: Seq<Rule>) -> LevelFilter
    decreases rules.len(),
{
    if rules.len() == 0 {
        LevelFilter::Off
    } else {
        let rest = max_level_of(rules.drop_last());
        if rest.rank() >= rules.last().level_filter.rank() {
            rest
        } else {
            rules.last().level_filter
        }
    }
}

/// What `first_match` finds: no rule before it speaks about the path, and it
/// does unless the rules ran out.
pub proof fn lemma_first_match(rules: Seq<Rule>, path: Seq<char>)
    ensures
        0 <= first_match(rules, path) <= rules.len(),
        forall|k: int| 0 <= k < first_match(rules, path) ==> !applies(rules[k], path),
        first_match(rules, path) < rules.len() ==> applies(
            rules[first_match(rules, path)],
            path,
        ),
    decreases rules.len(),
{
    if rules.len() == 0 || applies(rules[0], path) {
    } else {
        let rest = rules.drop_first();
        lemma_first_match(rest, path);
        assert forall|k: int| 0 <= k < first_match(rules, path) implies !applies(
            rules[k],
            path,
        ) by {
            if k > 0 {
                assert(rules[k] == rest[k - 1]);
            }
        }
        if first_match(rules, path) < rules.len() {
            assert(rules[first_match(rules, path)] == rest[first_match(rest, path)]);
        }
    }
}

/// An index whose rule speaks about the path (or which ends the rules), with no
/// such rule before it, is the one that `first_match` finds.
pub proof fn lemma_first_match_is(rules: Seq<Rule>, path: Seq<char>, i: int)
    requires
        0 <= i <= rules.len(),
        forall|k: int| 0 <= k < i ==> !applies(rules[k], path),
        i < rules.len() ==> applies(rules[i], path),
    ensures
        first_match(rules, path) == i,
{
    lemma_first_match(rules, path);
}

/// The most verbose threshold lies at or above the threshold of every rule and,
/// unless the rule set is empty, is the threshold of one of them.
pub proof fn lemma_max_level_of(rules: Seq<Rule>)
    ensures
        forall|k: int|
            0 <= k < rules.len() ==> (#[trigger] rules[k]).level_filter.rank() <= max_level_of(
                rules,
            ).rank(),
        rules.len() == 0 ==> max_level_of(rules) == LevelFilter::Off,
        rules.len() > 0 ==> exists|k: int|
            0 <= k < rules.len() && (#[trigger] rules[k]).level_filter == max_level_of(rules),
    decreases rules.len(),
{
    if rules.len() > 0 {
        let rest = rules.drop_last();
        lemma_max_level_of(rest);
        assert forall|k: int| 0 <= k < rules.len() implies (#[trigger] rules[k]).level_filter.rank()
            <= max_level_of(rules).rank() by {
            if k < rules.len() - 1 {
                assert(rules[k] == rest[k]);
            }
        }
        if max_level_of(rules) == rules.last().level_filter {
            assert(rules[rules.len() - 1].level_filter == max_level_of(rules));
        } else {
            let k = choose|k: int|
                0 <= k < rest.len() && (#[trigger] rest[k]).level_filter == max_level_of(rest);
            assert(rules[k] == rest[k]);
        }
    }
}

/// A text has a shorter encoding than any text that it is a proper prefix of.
pub proof fn lemma_prefix_has_shorter_encoding(shorter: Seq<char>, longer: Seq<char>)
    requires
        is_prefix(shorter, longer),
        shorter.len() < longer.len(),
    ensures
        encode_utf8(shorter).len() < encode_utf8(longer).len(),
    decreases shorter.len(),
{
    assert(encode_utf8(longer).len() == vstd::utf8::encode_scalar(longer[0] as u32).len()
        + encode_utf8(longer.drop_first()).len());
    if shorter.len() > 0 {
        let a = shorter.drop_first();
        let b = longer.drop_first();
        assert(shorter[0] == longer.take(shorter.len() as int)[0]);
        assert(b.take(a.len() as int) =~= a) by {
            assert forall|k: int| 0 <= k < a.len() implies b.take(a.len() as int)[k] == a[k] by {
                assert(longer.take(shorter.len() as int)[k + 1] == shorter[k + 1]);
            }
        }
        lemma_prefix_has_shorter_encoding(a, b);
    }
}

/// In a well-ordered rule set the first rule that speaks about a module is the
/// most specific one that does. So the decision of `enabled_by` is the
/// threshold of the rule with the longest name that is a literal prefix of the
/// module path; without such a rule it is the threshold of the nameless rule;
/// and without that it is `false`.
pub proof fn lemma_most_specific_rule_decides(rules: Seq<Rule>, level: Level, path: Seq<char>)
    requires
        well_ordered(rules),
    ensures
        ({
            let i = first_match(rules, path);
            &&& 0 <= i <= rules.len()
            &&& i < rules.len() ==> enabled_by(rules, level, path)
                == rules[i].level_filter.admits(level)
            &&& i < rules.len() ==> (rules[i].module_name matches Some(name) ==> {
                &&& is_prefix(name, path)
                &&& forall|k: int|
                    0 <= k < rules.len() ==> ((#[trigger] rules[k]).module_name matches Some(
                        other,
                    ) ==> is_prefix(other, path) ==> other.len() <= name.len())
            })
            &&& i < rules.len() ==> (rules[i].module_name is None ==> forall|k: int|
                0 <= k < rules.len() ==> ((#[trigger] rules[k]).module_name matches Some(other)
                    ==> !is_prefix(other, path)))
            &&& i == rules.len() ==> {
                &&& !enabled_by(rules, level, path)
                &&& forall|k: int|
                    0 <= k < rules.len() ==> ((#[trigger] rules[k]).module_name matches Some(
                        other,
                    ) && !is_prefix(other, path))
            }
        }),
{
    lemma_first_match(rules, path);
    let i = first_match(rules, path);
    if i < rules.len() {
        assert forall|k: int| 0 <= k < rules.len() && applies(#[trigger] rules[k], path)
            implies specificity(rules[k]) <= specificity(rules[i]) by {
            if k > i {
                assert(specificity(rules[i]) >= specificity(rules[k]));
            }
        }
        match rules[i].module_name {
            Some(name) => {
                assert forall|k: int| 0 <= k < rules.len() implies ((
                #[trigger] rules[k]).module_name matches Some(other) ==> is_prefix(other, path)
                    ==> other.len() <= name.len()) by {
                    match rules[k].module_name {
                        Some(other) => {
                            if is_prefix(other, path) && other.len() > name.len() {
                                assert(applies(rules[k], path));
                                assert(other.take(name.len() as int) =~= name) by {
                                    assert forall|n: int| 0 <= n < name.len() implies other.take(
                                        name.len() as int,
                                    )[n] == name[n] by {
                                        assert(path.take(other.len() as int)[n] == other[n]);
                                        assert(path.take(name.len() as int)[n] == name[n]);
                                    }
                                }
                                lemma_prefix_has_shorter_encoding(name, other);
                            }
                        },
                        None => {},
                    }
                }
            },
            None => {
                assert forall|k: int| 0 <= k < rules.len() implies ((
                #[trigger] rules[k]).module_name matches Some(other) ==> !is_prefix(
                    other,
                    path,
                )) by {
                    if rules[k].module_name is Some && applies(rules[k], path) {
                        assert(specificity(rules[k]) <= specificity(rules[i]));
                    }
                }
            },
        }
    } else {
        assert forall|k: int| 0 <= k < rules.len() implies ((
        #[trigger] rules[k]).module_name matches Some(other) && !is_prefix(other, path)) by {
            assert(!applies(rules[k], path));
        }
    }
}

/// `sorted` with `rule` put behind every rule that is at least as specific.
pub open spec fn insert_rule(sorted: Seq<Rule>, rule: Rule) -> Seq<Rule>
    decreases sorted.len(),
{
    if sorted.len() > 0 && specificity(sorted.last()) < specificity(rule) {
        insert_rule(sorted.drop_last(), rule).push(sorted.last())
    } else {
        sorted.push(rule)
    }
}

/// The rules ordered by descending specificity, rules of equal specificity in
/// the order in which they stand in `rules`.
pub open spec fn sort_rules(rules: Seq<Rule>) -> Seq<Rule>
    decreases rules.len(),
{
    if rules.len() == 0 {
        Seq::empty()
    } else {
        insert_rule(sort_rules(rules.drop_last()), rules.last())
    }
}

/// Where `insert_rule` puts a rule: at the index that parts the rules at least
/// as specific from the less specific ones.
pub proof fn lemma_insert_rule_at(sorted: Seq<Rule>, rule: Rule, p: int)
    requires
        0 <= p <= sorted.len(),
        forall|k: int| 0 <= k < p ==> specificity(#[trigger] sorted[k]) >= specificity(rule),
        forall|k: int|
            p <= k < sorted.len() ==> specificity(#[trigger] sorted[k]) < specificity(rule),
    ensures
        insert_rule(sorted, rule) == sorted.insert(p, rule),
    decreases sorted.len(),
{
    if sorted.len() > 0 && specificity(sorted.last()) < specificity(rule) {
        assert(p < sorted.len()) by {
            if p == sorted.len() {
                assert(specificity(sorted[p - 1]) >= specificity(rule));
            }
        }
        let front = sorted.drop_last();
        lemma_insert_rule_at(front, rule, p);
        assert(front.insert(p, rule).push(sorted.last()) =~= sorted.insert(p, rule));
    } else {
        assert(p == sorted.len()) by {
            if p < sorted.len() {
                assert(specificity(sorted[sorted.len() - 1]) < specificity(rule));
            }
        }
        assert(sorted.push(rule) =~= sorted.insert(p, rule));
    }
}

/// Inserting into a well-ordered rule set leaves it well ordered, keeps every
/// rule and adds the new one.
pub proof fn lemma_insert_rule(sorted: Seq<Rule>, rule: Rule)
    requires
        well_ordered(sorted),
    ensures
        well_ordered(insert_rule(sorted, rule)),
        insert_rule(sorted, rule).to_multiset() == sorted.to_multiset().insert(rule),
        insert_rule(sorted, rule).len() == sorted.len() + 1,
    decreases sorted.len(),
{
    broadcast use vstd::seq_lib::group_to_multiset_ensures;

    if sorted.len() > 0 && specificity(sorted.last()) < specificity(rule) {
        let front = sorted.drop_last();
        let last = sorted.last();
        assert(well_ordered(front)) by {
            assert forall|i: int, j: int| 0 <= i < j < front.len() implies specificity(
                #[trigger] front[i],
            ) >= specificity(#[trigger] front[j]) by {
                assert(front[i] == sorted[i] && front[j] == sorted[j]);
            }
        }
        lemma_insert_rule(front, rule);
        let inner = insert_rule(front, rule);
        let out = inner.push(last);
        assert(sorted == front.push(last));
        assert(out.to_multiset() == sorted.to_multiset().insert(rule)) by {
            assert(front.push(last).to_multiset() =~= front.to_multiset().insert(last));
            assert(out.to_multiset() =~= inner.to_multiset().insert(last));
            assert(front.to_multiset().insert(rule).insert(last) =~= front.to_multiset().insert(
                last,
            ).insert(rule));
        }
        assert forall|i: int, j: int| 0 <= i < j < out.len() implies specificity(
            #[trigger] out[i],
        ) >= specificity(#[trigger] out[j]) by {
            if j < inner.len() {
                assert(out[i] == inner[i] && out[j] == inner[j]);
            } else {
                // every rule of `inner` is `rule` or a rule of `front`
                assert(inner.to_multiset().count(inner[i]) > 0);
                if inner[i] != rule {
                    assert(front.to_multiset().count(inner[i]) > 0);
                    let k = choose|k: int| 0 <= k < front.len() && front[k] == inner[i];
                    assert(sorted[k] == inner[i]);
                    assert(specificity(sorted[k]) >= specificity(sorted[sorted.len() - 1]));
                }
            }
        }
    } else {
        let out = sorted.push(rule);
        assert forall|i: int, j: int| 0 <= i < j < out.len() implies specificity(
            #[trigger] out[i],
        ) >= specificity(#[trigger] out[j]) by {
            if j < sorted.len() {
                assert(out[i] == sorted[i] && out[j] == sorted[j]);
            } else if sorted.len() > 0 {
                assert(out[i] == sorted[i]);
                assert(specificity(sorted[i]) >= specificity(sorted[sorted.len() - 1]));
            }
        }
    }
}

/// Sorting yields a well-ordered rule set that holds exactly the rules given,
/// each as often as it was given.
pub proof fn lemma_sort_rules(rules: Seq<Rule>)
    ensures
        well_ordered(sort_rules(rules)),
        sort_rules(rules).to_multiset() == rules.to_multiset(),
        sort_rules(rules).len() == rules.len(),
    decreases rules.len(),
{
    broadcast use vstd::seq_lib::group_to_multiset_ensures;

    if rules.len() == 0 {
        assert(sort_rules(rules).to_multiset() =~= rules.to_multiset());
    } else {
        let front = rules.drop_last();
        lemma_sort_rules(front);
        lemma_insert_rule(sort_rules(front), rules.last());
        assert(rules == front.push(rules.last()));
        assert(front.push(rules.last()).to_multiset() =~= front.to_multiset().insert(
            rules.last(),
        ));
    }
}

/// The rules of a given specificity, in their order.
pub open spec fn of_specificity(rules: Seq<Rule>, k: nat) -> Seq<Rule>
    decreases rules.len(),
{
    if rules.len() == 0 {
        Seq::empty()
    } else {
        let front = of_specificity(rules.drop_last(), k);
        if specificity(rules.last()) == k {
            front.push(rules.last())
        } else {
            front
        }
    }
}

/// Inserting a rule puts it behind the rules of its own specificity and leaves
/// the rules of every specificity in their order.
pub proof fn lemma_insert_rule_is_stable(sorted: Seq<Rule>, rule: Rule, k: nat)
    ensures
        of_specificity(insert_rule(sorted, rule), k) == if specificity(rule) == k {
            of_specificity(sorted, k).push(rule)
        } else {
            of_specificity(sorted, k)
        },
    decreases sorted.len(),
{
    if sorted.len() > 0 && specificity(sorted.last()) < specificity(rule) {
        let front = sorted.drop_last();
        let inner = insert_rule(front, rule);
        lemma_insert_rule_is_stable(front, rule, k);
        assert(inner.push(sorted.last()).drop_last() =~= inner);
    } else {
        assert(sorted.push(rule).drop_last() =~= sorted);
    }
}

/// Sorting is stable: the rules of every specificity stand in the sorted rule
/// set in the order in which they were given.
pub proof fn lemma_sort_rules_is_stable(rules: Seq<Rule>, k: nat)
    ensures
        of_specificity(sort_rules(rules), k) == of_specificity(rules, k),
    decreases rules.len(),
{
    if rules.len() > 0 {
        lemma_sort_rules_is_stable(rules.drop_last(), k);
        lemma_insert_rule_is_stable(sort_rules(rules.drop_last()), rules.last(), k);
    }
}

/// Decides whether `a` is more specific than `b`.
pub fn more_specific(a: &ModuleFilter, b: &ModuleFilter) -> (more: bool)
    ensures
        more == (specificity(a@) > specificity(b@)),
{
    match &a.module_name {
        None => false,
        Some(name_a) => match &b.module_name {
            None => true,
            Some(name_b) => name_a.as_str().as_bytes().len() > name_b.as_str().as_bytes().len(),
        },
    }
}

/// Orders module filters by descending specificity: by descending length of the
/// name in bytes, the nameless ones last. Filters of equal specificity keep
/// their order.
pub fn level_sort(filters: Vec<ModuleFilter>) -> (sorted: Vec<ModuleFilter>)
    ensures
        rules_of(sorted@) == sort_rules(rules_of(filters@)),
        well_ordered(rules_of(sorted@)),
{
    let ghost all = rules_of(filters@);
    let mut sorted: Vec<ModuleFilter> = Vec::new();
    for filter in it: filters
        invariant
            it.seq() == filters@,
            all == rules_of(filters@),
            rules_of(sorted@) == sort_rules(all.take(it.index() as int)),
            well_ordered(rules_of(sorted@)),
    {
        let ghost before = rules_of(sorted@);
        let mut p = sorted.len();
        while p > 0 && more_specific(&filter, &sorted[p - 1])
            invariant
                p <= sorted.len(),
                before == rules_of(sorted@),
                forall|k: int|
                    p <= k < before.len() ==> specificity(#[trigger] before[k]) < specificity(
                        filter@,
                    ),
            decreases p,
        {
            p -= 1;
        }
        proof {
            assert forall|k: int| 0 <= k < p implies specificity(#[trigger] before[k])
                >= specificity(filter@) by {
                assert(specificity(before[k]) >= specificity(before[p - 1]));
            }
            lemma_insert_rule_at(before, filter@, p as int);
            lemma_insert_rule(before, filter@);
            assert(rules_of(sorted@.insert(p as int, filter)) =~= before.insert(
                p as int,
                filter@,
            ));
            assert(all.take(it.index() + 1).drop_last() == all.take(it.index() as int));
        }
        sorted.insert(p, filter);
    }
    assert(all.take(filters@.len() as int) == all);
    sorted
}

/// The active rule set with its optional text filter.
///
/// The rules are kept well ordered (see `well_ordered`), so that the first rule
/// that speaks about a module is the most specific one. Rules of equal
/// specificity keep the order in which they were given.
#[derive(Debug)]
pub struct LogSpecification {
    module_filters: Vec<ModuleFilter>,
    textfilter: Option<TextFilter>,
}

/// The mathematical content of a `LogSpecification`: its rules in order, and
/// the pattern of its text filter.
pub struct SpecView {
    pub rules: Seq<Rule>,
    pub text_filter: Option<Seq<char>>,
}

impl View for LogSpecification {
    type V = SpecView;

    closed spec fn view(&self) -> SpecView {
        SpecView {
            rules: rules_of(self.module_filters@),
            text_filter: match self.textfilter {
                Some(filter) => Some(filter@),
                None => None,
            },
        }
    }
}

impl Clone for LogSpecification {
    fn clone(&self) -> (copy: Self)
        ensures
            copy@ == self@,
    {
        proof {
            use_type_invariant(self);
        }
        LogSpecification {
            module_filters: clone_filters(&self.module_filters),
            textfilter: match &self.textfilter {
                Some(filter) => Some(filter.clone()),
                None => None,
            },
        }
    }
}

impl LogSpecification {
    #[verifier::type_invariant]
    spec fn ordered(&self) -> bool {
        well_ordered(rules_of(self.module_filters@))
    }

    /// Replaces the rules and the text filter by those of `other_spec`, and
    /// publishes the most verbose threshold of the new rules to the `log` crate.
    /// Nothing of the old specification remains.
    pub fn reconfigure(&mut self, other_spec: LogSpecification)
        ensures
            final(self)@ == other_spec@,
            well_ordered(final(self)@.rules),
    {
        proof {
            use_type_invariant(&other_spec);
        }
        *self = other_spec;
        publish_max_level(self.max_level());
    }

    /// Decides whether a record of severity `level` from `target_module` is
    /// enabled. The rules are walked in order; the first one that is nameless or
    /// whose name is a literal prefix of `target_module` decides.
    pub fn enabled(&self, level: Level, target_module: &str) -> (b: bool)
        ensures
            b == enabled_by(self@.rules, level, target_module@),
            well_ordered(self@.rules),
    {
        proof {
            use_type_invariant(self);
        }
        let ghost rules = rules_of(self.module_filters@);
        let mut i: usize = 0;
        while i < self.module_filters.len()
            invariant
                i <= self.module_filters.len(),
                rules == rules_of(self.module_filters@),
                well_ordered(rules),
                forall|k: int| 0 <= k < i ==> !applies(rules[k], target_module@),
            decreases self.module_filters.len() - i,
        {
            let filter = &self.module_filters[i];
            let hit = match &filter.module_name {
                Some(name) => starts_with(target_module, name.as_str()),
                None => true,
            };
            if hit {
                proof {
                    lemma_first_match_is(rules, target_module@, i as int);
                }
                return filter.level_filter.enables(level);
            }
            i += 1;
        }
        proof {
            lemma_first_match_is(rules, target_module@, rules.len() as int);
        }
        false
    }

    /// The specification with the given rules, ordered by `level_sort`, and the
    /// given text filter.
    pub fn from_rules(filters: Vec<ModuleFilter>, textfilter: Option<TextFilter>) -> (spec:
        LogSpecification)
        ensures
            spec@.rules == sort_rules(rules_of(filters@)),
            spec@.text_filter == match textfilter {
                Some(filter) => Some(filter@),
                None => None,
            },
            well_ordered(spec@.rules),
    {
        LogSpecification { module_filters: level_sort(filters), textfilter }
    }

    /// A specification without rules and without a text filter: nothing is enabled.
    pub fn off() -> (spec: LogSpecification)
        ensures
            spec@ == (SpecView { rules: Seq::empty(), text_filter: None }),
    {
        let spec = LogSpecification { module_filters: Vec::new(), textfilter: None };
        assert(spec@.rules =~= Seq::<Rule>::empty());
        spec
    }

    /// The most verbose threshold of any rule, `Off` if there is no rule. No
    /// record above it can be enabled, whatever its module.
    pub fn max_level(&self) -> (max: LevelFilter)
        ensures
            max == max_level_of(self@.rules),
    {
        let ghost rules = rules_of(self.module_filters@);
        let mut max = LevelFilter::Off;
        let mut i: usize = 0;
        while i < self.module_filters.len()
            invariant
                i <= self.module_filters.len(),
                rules == rules_of(self.module_filters@),
                max == max_level_of(rules.take(i as int)),
            decreases self.module_filters.len() - i,
        {
            assert(rules.take(i + 1).drop_last() == rules.take(i as int));
            max = max.most_verbose(self.module_filters[i].level_filter);
            i += 1;
        }
        assert(rules.take(i as int) == rules);
        max
    }

    /// The rules, most specific first.
    pub fn module_filters(&self) -> (filters: &Vec<ModuleFilter>)
        ensures
            rules_of(filters@) == self@.rules,
            well_ordered(self@.rules),
    {
        proof {
            use_type_invariant(self);
        }
        &self.module_filters
    }

    /// The text filter, if there is one.
    pub fn text_filter(&self) -> (filter: &Option<TextFilter>)
        ensures
            filter matches Some(f) ==> self@.text_filter == Some(f@),
            filter is None ==> self@.text_filter is None,
    {
        &self.textfilter
    }
}

} // verus!
