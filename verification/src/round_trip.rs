//! What is written to a specification file can be read back: the rules that
//! come back are the rules that were written, and they decide alike.

use crate::builder::distinct_names;
use crate::level::{Level, LevelFilter};
use crate::log_specification::{
    applies,
    enabled_by,
    first_match,
    lemma_first_match,
    lemma_prefix_has_shorter_encoding,
    lemma_sort_rules,
    sort_rules,
    specificity,
    well_ordered,
    Rule,
    SpecView,
};
use crate::parser::level_filter_named;
use crate::specfile::{
    file_form_of,
    file_outcome,
    file_rules,
    module_rules,
    named_entries,
    FileForm,
    FileOutcome,
};
use crate::text::{ascii_lower, eq_ignore_ascii_case};
use vstd::prelude::*;

verus! {

/// The rule that an entry of the table gives, where its severity has a known name.
pub open spec fn rule_of_entry(entry: (Seq<char>, Seq<char>)) -> Rule {
    Rule { module_name: Some(entry.0), level_filter: level_filter_named(entry.1)->Some_0 }
}

/// The named rules of a rule set, in their order.
pub open spec fn named_rules(rules: Seq<Rule>) -> Seq<Rule>
    decreases rules.len(),
{
    if rules.len() == 0 {
        Seq::empty()
    } else {
        let front = named_rules(rules.drop_last());
        if rules.last().module_name is Some {
            front.push(rules.last())
        } else {
            front
        }
    }
}

/// The canonical name of a threshold is read as that threshold.
pub proof fn lemma_level_name_reads_back(level: LevelFilter)
    ensures
        level_filter_named(level.name()) == Some(level),
{
    reveal_strlit("off");
    reveal_strlit("error");
    reveal_strlit("warn");
    reveal_strlit("info");
    reveal_strlit("debug");
    reveal_strlit("trace");
    let word = level.name();
    let low = word.map_values(|c: char| ascii_lower(c));
    assert(low =~= word);
    assert(eq_ignore_ascii_case(word, word));
    match level {
        LevelFilter::Off => {},
        LevelFilter::Error => {},
        LevelFilter::Warn => {},
        LevelFilter::Info => {
            assert(low[0] != "warn"@[0]);
        },
        LevelFilter::Debug => {
            assert(low[0] != "error"@[0]);
        },
        LevelFilter::Trace => {
            assert(low[0] != "error"@[0]);
            assert(low[0] != "debug"@[0]);
        },
    }
}

/// A table in which every severity has a known name gives one rule for each
/// entry, in the order of the entries.
pub proof fn lemma_module_rules_of_known_levels(modules: Seq<(Seq<char>, Seq<char>)>)
    requires
        forall|k: int| 0 <= k < modules.len() ==> level_filter_named((#[trigger] modules[k]).1)
            is Some,
    ensures
        module_rules(modules) == Ok::<Seq<Rule>, Seq<char>>(
            modules.map_values(|e: (Seq<char>, Seq<char>)| rule_of_entry(e)),
        ),
    decreases modules.len(),
{
    let f = |e: (Seq<char>, Seq<char>)| rule_of_entry(e);
    if modules.len() == 0 {
        assert(modules.map_values(f) =~= Seq::<Rule>::empty());
    } else {
        let front = modules.drop_last();
        assert forall|k: int| 0 <= k < front.len() implies level_filter_named(
            (#[trigger] front[k]).1,
        ) is Some by {
            assert(front[k] == modules[k]);
        }
        lemma_module_rules_of_known_levels(front);
        assert(modules.last() == modules[modules.len() - 1]);
        assert(front.map_values(f).push(rule_of_entry(modules.last())) =~= modules.map_values(f));
    }
}

/// The entries written for a rule set give back its named rules.
pub proof fn lemma_named_entries_read_back(rules: Seq<Rule>)
    ensures
        named_entries(rules).map_values(|e: (Seq<char>, Seq<char>)| rule_of_entry(e))
            == named_rules(rules),
        forall|k: int|
            0 <= k < named_entries(rules).len() ==> level_filter_named(
                (#[trigger] named_entries(rules)[k]).1,
            ) is Some,
    decreases rules.len(),
{
    let f = |e: (Seq<char>, Seq<char>)| rule_of_entry(e);
    if rules.len() == 0 {
        assert(named_entries(rules).map_values(f) =~= named_rules(rules));
    } else {
        let front = rules.drop_last();
        lemma_named_entries_read_back(front);
        lemma_level_name_reads_back(rules.last().level_filter);
        match rules.last().module_name {
            Some(name) => {
                let entry = (name, rules.last().level_filter.name());
                assert(rule_of_entry(entry) == rules.last());
                assert(named_entries(rules).map_values(f) =~= named_entries(front).map_values(
                    f,
                ).push(rule_of_entry(entry)));
            },
            None => {},
        }
    }
}

/// Applying a function to every element of two sequences that hold the same
/// elements equally often gives sequences that do so too.
pub proof fn lemma_map_values_keeps_multiset<A, B>(a: Seq<A>, b: Seq<A>, f: spec_fn(A) -> B)
    requires
        a.to_multiset() == b.to_multiset(),
    ensures
        a.map_values(f).to_multiset() == b.map_values(f).to_multiset(),
    decreases a.len(),
{
    broadcast use vstd::seq_lib::group_to_multiset_ensures;

    if a.len() == 0 {
        assert(a.to_multiset().len() == a.len());
        assert(b.to_multiset().len() == b.len());
        assert(a.map_values(f) =~= b.map_values(f));
    } else {
        let x = a.last();
        let front = a.drop_last();
        assert(a == front.push(x));
        assert(a.to_multiset() =~= front.to_multiset().insert(x));
        assert(b.to_multiset().count(x) > 0);
        assert(b.contains(x));
        let j = choose|j: int| 0 <= j < b.len() && b[j] == x;
        let rest = b.remove(j);
        assert(rest.to_multiset() =~= b.to_multiset().remove(x));
        assert(front.to_multiset() =~= rest.to_multiset());
        lemma_map_values_keeps_multiset(front, rest, f);
        assert(a.map_values(f) =~= front.map_values(f).push(f(x)));
        assert(b.map_values(f).remove(j) =~= rest.map_values(f));
        assert(b.map_values(f)[j] == f(x));
        assert(rest.map_values(f).to_multiset() =~= b.map_values(f).to_multiset().remove(f(x)));
        assert(b.map_values(f).contains(f(x)));
        assert(b.map_values(f).to_multiset().count(f(x)) > 0);
        assert(b.map_values(f).to_multiset() =~= rest.map_values(f).to_multiset().insert(f(x)));
    }
}

/// A rule set without nameless rules consists of its named rules.
pub proof fn lemma_all_named(rules: Seq<Rule>)
    requires
        forall|k: int| 0 <= k < rules.len() ==> (#[trigger] rules[k]).module_name is Some,
    ensures
        named_rules(rules) == rules,
    decreases rules.len(),
{
    if rules.len() > 0 {
        let front = rules.drop_last();
        assert forall|k: int| 0 <= k < front.len() implies (#[trigger] front[k]).module_name
            is Some by {
            assert(front[k] == rules[k]);
        }
        lemma_all_named(front);
        assert(rules.last() == rules[rules.len() - 1]);
        assert(front.push(rules.last()) =~= rules);
    }
}

/// The content of the file that is written for a rule set without a text filter.
pub open spec fn written_form(rules: Seq<Rule>) -> FileForm {
    file_form_of(SpecView { rules, text_filter: None })
}

/// The rules that the written file gives, before they are sorted, are the
/// rules that were written: the nameless rule, if there is one, and the named
/// rules.
pub proof fn lemma_written_rules(rules: Seq<Rule>)
    requires
        well_ordered(rules),
        distinct_names(rules),
    ensures
        file_rules(written_form(rules)) is Ok,
        file_rules(written_form(rules))->Ok_0.to_multiset() == rules.to_multiset(),
        file_rules(written_form(rules))->Ok_0 == if rules.len() > 0 && rules.last().module_name
            is None {
            seq![rules.last()] + named_rules(rules)
        } else {
            named_rules(rules)
        },
{
    broadcast use vstd::seq_lib::group_to_multiset_ensures;

    lemma_named_entries_read_back(rules);
    lemma_module_rules_of_known_levels(named_entries(rules));
    if rules.len() > 0 && rules.last().module_name is None {
        let last = rules.last();
        let front = rules.drop_last();
        lemma_level_name_reads_back(last.level_filter);
        assert forall|k: int| 0 <= k < front.len() implies (#[trigger] front[k]).module_name
            is Some by {
            assert(front[k] == rules[k]);
            assert(rules[k].module_name != rules[rules.len() - 1].module_name);
        }
        lemma_all_named(front);
        assert(named_rules(rules) == front);
        assert(Rule { module_name: None, level_filter: last.level_filter } == last);
        assert(seq![last] + front =~= front.insert(0, last));
        assert(rules == front.push(last));
    } else {
        assert forall|k: int| 0 <= k < rules.len() implies (#[trigger] rules[k]).module_name
            is Some by {
            assert(specificity(rules[k]) >= specificity(rules[rules.len() - 1]));
        }
        lemma_all_named(rules);
    }
}

/// Two well-ordered rule sets that hold the same rules, none of them twice and
/// no name twice, decide alike, in whatever order rules of equal specificity
/// stand in them.
pub proof fn lemma_same_rules_decide_alike(
    a: Seq<Rule>,
    b: Seq<Rule>,
    level: Level,
    path: Seq<char>,
)
    requires
        well_ordered(a),
        well_ordered(b),
        distinct_names(a),
        a.to_multiset() == b.to_multiset(),
    ensures
        enabled_by(a, level, path) == enabled_by(b, level, path),
{
    broadcast use vstd::seq_lib::group_to_multiset_ensures;

    lemma_first_match(a, path);
    lemma_first_match(b, path);
    let i = first_match(a, path);
    let j = first_match(b, path);
    if i < a.len() {
        // the rule that decides in `a` stands somewhere in `b`
        assert(a.contains(a[i]));
        assert(b.to_multiset().count(a[i]) > 0);
        assert(b.contains(a[i]));
        let j1 = choose|k: int| 0 <= k < b.len() && b[k] == a[i];
        assert(applies(b[j1], path));
        assert(j <= j1);
        // and the rule that decides in `b` stands somewhere in `a`
        assert(b.contains(b[j]));
        assert(a.to_multiset().count(b[j]) > 0);
        assert(a.contains(b[j]));
        let i1 = choose|k: int| 0 <= k < a.len() && a[k] == b[j];
        assert(i <= i1);
        assert(specificity(a[i]) >= specificity(a[i1])) by {
            if i < i1 {
                assert(specificity(a[i]) >= specificity(a[i1]));
            }
        }
        assert(specificity(b[j]) >= specificity(b[j1])) by {
            if j < j1 {
                assert(specificity(b[j]) >= specificity(b[j1]));
            }
        }
        // both are equally specific and speak about the same path: they have the same name
        lemma_equally_specific_rules_of_a_path(a[i], a[i1], path);
        if i != i1 {
            assert(a[i].module_name != a[i1].module_name);
        }
    } else if j < b.len() {
        assert(b.contains(b[j]));
        assert(a.to_multiset().count(b[j]) > 0);
        assert(a.contains(b[j]));
        let i1 = choose|k: int| 0 <= k < a.len() && a[k] == b[j];
        assert(applies(a[i1], path));
    }
}

/// Two rules of equal specificity that speak about the same path have the same name.
pub proof fn lemma_equally_specific_rules_of_a_path(r: Rule, s: Rule, path: Seq<char>)
    requires
        applies(r, path),
        applies(s, path),
        specificity(r) == specificity(s),
    ensures
        r.module_name == s.module_name,
{
    match (r.module_name, s.module_name) {
        (Some(p), Some(q)) => {
            if p.len() < q.len() {
                assert(q.take(p.len() as int) =~= p) by {
                    assert forall|n: int| 0 <= n < p.len() implies q.take(p.len() as int)[n]
                        == p[n] by {
                        assert(path.take(q.len() as int)[n] == q[n]);
                        assert(path.take(p.len() as int)[n] == p[n]);
                    }
                }
                lemma_prefix_has_shorter_encoding(p, q);
            } else if q.len() < p.len() {
                assert(p.take(q.len() as int) =~= q) by {
                    assert forall|n: int| 0 <= n < q.len() implies p.take(q.len() as int)[n]
                        == q[n] by {
                        assert(path.take(q.len() as int)[n] == q[n]);
                        assert(path.take(p.len() as int)[n] == p[n]);
                    }
                }
                lemma_prefix_has_shorter_encoding(q, p);
            } else {
                assert(p =~= q) by {
                    assert forall|n: int| 0 <= n < p.len() implies p[n] == q[n] by {
                        assert(path.take(q.len() as int)[n] == q[n]);
                        assert(path.take(p.len() as int)[n] == p[n]);
                    }
                }
            }
        },
        _ => {},
    }
}

/// Writing a specification to a specification file and reading the file again
/// yields the same rule set and the same text filter.
///
/// `spec` is the specification that is written: its rules well ordered, and
/// with no name twice. `form` is what the file is taken apart into: the
/// default severity and the pattern as they were written, and the entries of
/// the table as they were written, in whatever order the table yields them.
/// Then reading `form` gives a well-ordered rule set that holds exactly the
/// rules that were written and that decides about every record as they do.
/// A specification without a text filter comes back without one and without
/// diagnostics. A specification with a text filter comes back with a text
/// filter of the same pattern and without diagnostics, where `compiled`, which
/// is what comes of compiling the pattern again, is that filter.
pub proof fn lemma_file_round_trip(
    spec: SpecView,
    form: FileForm,
    compiled: Option<Result<Seq<char>, Seq<char>>>,
    level: Level,
    path: Seq<char>,
)
    requires
        well_ordered(spec.rules),
        distinct_names(spec.rules),
        form.global_level == file_form_of(spec).global_level,
        form.global_pattern == file_form_of(spec).global_pattern,
        form.modules.to_multiset() == file_form_of(spec).modules.to_multiset(),
    ensures
        file_outcome(form, compiled) matches FileOutcome::Read(back) && {
            &&& well_ordered(back.rules)
            &&& back.rules.to_multiset() == spec.rules.to_multiset()
            &&& enabled_by(back.rules, level, path) == enabled_by(spec.rules, level, path)
            &&& spec.text_filter is None ==> back.text_filter is None && back.diagnostics.len()
                == 0
            &&& spec.text_filter matches Some(pattern) ==> (compiled == Some(
                Ok::<Seq<char>, Seq<char>>(pattern),
            ) ==> back.text_filter == Some(pattern) && back.diagnostics.len() == 0)
        },
{
    let rules = spec.rules;
    broadcast use vstd::seq_lib::group_to_multiset_ensures;

    let f = |e: (Seq<char>, Seq<char>)| rule_of_entry(e);
    let written = named_entries(rules);
    lemma_named_entries_read_back(rules);
    assert forall|k: int| 0 <= k < form.modules.len() implies level_filter_named(
        (#[trigger] form.modules[k]).1,
    ) is Some by {
        assert(form.modules.contains(form.modules[k]));
        assert(written.to_multiset().count(form.modules[k]) > 0);
        assert(written.contains(form.modules[k]));
        let n = choose|n: int| 0 <= n < written.len() && written[n] == form.modules[k];
        assert(level_filter_named(written[n].1) is Some);
    }
    lemma_module_rules_of_known_levels(form.modules);
    lemma_module_rules_of_known_levels(written);
    lemma_map_values_keeps_multiset(form.modules, written, f);
    lemma_written_rules(rules);
    let read = file_rules(form)->Ok_0;
    let direct = file_rules(written_form(rules))->Ok_0;
    assert(file_rules(form) is Ok && read.to_multiset() == direct.to_multiset()) by {
        if rules.len() > 0 && rules.last().module_name is None {
            let last = rules.last();
            lemma_level_name_reads_back(last.level_filter);
            let head = seq![Rule { module_name: None, level_filter: last.level_filter }];
            assert(head + form.modules.map_values(f) =~= form.modules.map_values(f).insert(
                0,
                head[0],
            ));
            assert(head + written.map_values(f) =~= written.map_values(f).insert(0, head[0]));
        }
    }
    lemma_sort_rules(read);
    let back = sort_rules(read);
    lemma_same_rules_decide_alike(rules, back, level, path);
}

} // verus!
