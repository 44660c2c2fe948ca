//! Queries over the loaded rules: which rules are shadowed, which match a query, and the
//! order in which they are shown.

use vstd::prelude::*;
use crate::domain::models::{EnrichedRule, EnrichedView, rule_views};
use crate::infrastructure::rule_repository::{RuleRepository, all_rules};
use crate::number::{decimal, decimal_chars};
use crate::order::{
    is_permutation,
    key_le,
    keys_of,
    lemma_order_of_rearranged,
    lemma_sorted_order,
    lists,
    rearranged,
    sorted_order,
    stable_order,
    stably_sorted,
    text_le,
    texts,
};
use crate::path::{category, category_of};
use crate::text::{contains, contains_chars, lowercase, lowercase_chars, occurs_at, same_chars};

verus! {

/// The name by which a rule is ordered: its name in lower case, and the empty text where it
/// has none.
pub open spec fn name_for_order(name: Option<Seq<char>>) -> Seq<char> {
    match name {
        Some(text) => lowercase(text),
        None => Seq::empty(),
    }
}

/// Whether a later rule of the list carries the name of the rule at index `i`, letter case
/// aside. A rule without a name is never shadowed.
pub open spec fn shadowed_at(rules: Seq<EnrichedView>, i: int) -> bool {
    rules[i].data.name is Some && exists|j: int|
        i < j < rules.len() && same_name(rules[i], #[trigger] rules[j])
}

/// Both rules have a name, and the two names are equal in lower case.
pub open spec fn same_name(a: EnrichedView, b: EnrichedView) -> bool {
    a.data.name is Some && b.data.name is Some && lowercase(a.data.name->0) == lowercase(
        b.data.name->0,
    )
}

/// The list with each rule's `shadowed` flag set to whether a later rule carries its name.
pub open spec fn resolved(rules: Seq<EnrichedView>) -> Seq<EnrichedView> {
    Seq::new(
        rules.len(),
        |i: int|
            EnrichedView {
                data: rules[i].data,
                context_comment: rules[i].context_comment,
                source_file: rules[i].source_file,
                shadowed: shadowed_at(rules, i),
            },
    )
}

/// The key at index `i`, if the list of keys reaches that far and holds one there.
pub open spec fn key_at(keys: Seq<Option<Seq<char>>>, i: int) -> Option<Seq<char>> {
    if 0 <= i < keys.len() {
        keys[i]
    } else {
        None
    }
}

/// Whether the item at index `i` has a key and a later item of the first `len` has the same.
pub open spec fn repeated_later(keys: Seq<Option<Seq<char>>>, len: int, i: int) -> bool {
    key_at(keys, i) is Some && exists|j: int|
        i < j < len && #[trigger] key_at(keys, j) == key_at(keys, i)
}

/// The list with each rule's `shadowed` flag set to whether its key comes again later.
pub open spec fn marked(rules: Seq<EnrichedView>, keys: Seq<Option<Seq<char>>>) -> Seq<
    EnrichedView,
> {
    Seq::new(
        rules.len(),
        |i: int|
            EnrichedView {
                data: rules[i].data,
                context_comment: rules[i].context_comment,
                source_file: rules[i].source_file,
                shadowed: repeated_later(keys, rules.len() as int, i),
            },
    )
}

/// The keys by which rules shadow one another: the name in lower case, where there is one.
pub open spec fn name_keys(rules: Seq<EnrichedView>) -> Seq<Option<Seq<char>>> {
    Seq::new(
        rules.len(),
        |i: int|
            match rules[i].data.name {
                Some(name) => Some(lowercase(name)),
                None => None,
            },
    )
}

/// The keys that a vector of optional character vectors holds.
pub open spec fn key_views(keys: Seq<Option<Vec<char>>>) -> Seq<Option<Seq<char>>> {
    Seq::new(
        keys.len(),
        |i: int|
            match keys[i] {
                Some(key) => Some(key@),
                None => None,
            },
    )
}

/// Marking by the names in lower case is resolving.
pub proof fn lemma_marked_by_name_is_resolved(rules: Seq<EnrichedView>)
    ensures
        marked(rules, name_keys(rules)) == resolved(rules),
{
    let keys = name_keys(rules);
    let len = rules.len() as int;
    assert forall|i: int| 0 <= i < rules.len() implies repeated_later(keys, len, i) == shadowed_at(
        rules,
        i,
    ) by {
        if repeated_later(keys, len, i) {
            let j = choose|j: int| i < j < len && #[trigger] key_at(keys, j) == key_at(keys, i);
            assert(same_name(rules[i], rules[j]));
        }
        if shadowed_at(rules, i) {
            let j = choose|j: int| i < j < rules.len() && same_name(rules[i], #[trigger] rules[j]);
            assert(key_at(keys, j) == key_at(keys, i));
        }
    }
    assert(marked(rules, keys) =~= resolved(rules));
}

/// Sets the `shadowed` flag of each rule to whether a later rule of the list has the same
/// key, where `keys` holds the key of each rule at the rule's index. A rule whose key is
/// missing is not shadowed. Nothing else changes.
pub fn mark_shadowed(rules: &mut Vec<EnrichedRule>, keys: &Vec<Option<Vec<char>>>)
    ensures
        rule_views(final(rules)@) == marked(rule_views(old(rules)@), key_views(keys@)),
{
    let ghost before = rule_views(rules@);
    let ghost ks = key_views(keys@);
    let n = rules.len();
    let mut i: usize = 0;
    while i < n
        invariant
            i <= n,
            n == rules.len(),
            before.len() == n,
            ks == key_views(keys@),
            forall|k: int| 0 <= k < i ==> (#[trigger] rules[k])@ == marked(before, ks)[k],
            forall|k: int| i <= k < n ==> (#[trigger] rules[k])@ == before[k],
        decreases n - i,
    {
        let mut found = false;
        if i < keys.len() {
            match &keys[i] {
                Some(mine) => {
                    let mut j: usize = i + 1;
                    while j < n && j < keys.len() && !found
                        invariant
                            i < j <= n,
                            i < keys.len(),
                            ks == key_views(keys@),
                            key_at(ks, i as int) == Some(mine@),
                            found ==> repeated_later(ks, n as int, i as int),
                            !found ==> forall|k: int|
                                i < k < j ==> #[trigger] key_at(ks, k) != key_at(ks, i as int),
                        decreases n - j + (if found { 0int } else { 1int }),
                    {
                        match &keys[j] {
                            Some(other) => {
                                if same_chars(mine, other) {
                                    assert(key_at(ks, j as int) == key_at(ks, i as int));
                                    found = true;
                                }
                            },
                            None => {},
                        }
                        if !found {
                            j = j + 1;
                        }
                    }
                    proof {
                        if !found {
                            assert forall|k: int| i < k < n implies #[trigger] key_at(ks, k)
                                != key_at(ks, i as int) by {}
                        }
                    }
                },
                None => {},
            }
        }
        assert(found == repeated_later(ks, n as int, i as int));
        let mut rule = rules[i].clone();
        rule.shadowed = found;
        rules.set(i, rule);
        i = i + 1;
    }
    assert(rule_views(rules@) =~= marked(before, ks));
}

/// The key by which each rule shadows others: see [`name_keys`].
pub fn shadowing_keys(rules: &Vec<EnrichedRule>) -> (keys: Vec<Option<Vec<char>>>)
    ensures
        key_views(keys@) == name_keys(rule_views(rules@)),
{
    let mut keys: Vec<Option<Vec<char>>> = Vec::new();
    let mut k: usize = 0;
    while k < rules.len()
        invariant
            k <= rules.len(),
            keys.len() == k,
            forall|i: int|
                0 <= i < k ==> key_views(keys@)[i] == #[trigger] name_keys(rule_views(rules@))[i],
        decreases rules.len() - k,
    {
        let lower = match &rules[k].data.name {
            Some(name) => Some(lowercase_chars(name.as_str())),
            None => None,
        };
        keys.push(lower);
        k = k + 1;
    }
    assert(key_views(keys@) =~= name_keys(rule_views(rules@)));
    keys
}

/// Sets the `shadowed` flag of each rule to whether a later rule of the list carries the same
/// name, letter case aside. Nothing else changes. The last rule of each name is never
/// shadowed, and neither is a rule without a name.
pub fn resolve_shadowing(rules: &mut Vec<EnrichedRule>)
    ensures
        rule_views(final(rules)@) == resolved(rule_views(old(rules)@)),
{
    let keys = shadowing_keys(rules);
    proof {
        lemma_marked_by_name_is_resolved(rule_views(rules@));
    }
    mark_shadowed(rules, &keys);
}

/// Resolving changes the `shadowed` flag of a rule and nothing else.
pub proof fn lemma_resolved_keeps_rules(rules: Seq<EnrichedView>, i: int)
    requires
        0 <= i < rules.len(),
    ensures
        resolved(rules).len() == rules.len(),
        resolved(rules)[i].data == rules[i].data,
        resolved(rules)[i].context_comment == rules[i].context_comment,
        resolved(rules)[i].source_file == rules[i].source_file,
{
}

/// A rule is shadowed once a later rule carries its name, letter case aside.
pub proof fn lemma_earlier_is_shadowed(rules: Seq<EnrichedView>, i: int, j: int)
    requires
        0 <= i < j < rules.len(),
        same_name(rules[i], rules[j]),
    ensures
        resolved(rules)[i].shadowed,
{
}

/// The last rule of a name is not shadowed.
pub proof fn lemma_last_is_not_shadowed(rules: Seq<EnrichedView>, i: int)
    requires
        0 <= i < rules.len(),
        forall|j: int| i < j < rules.len() ==> !same_name(rules[i], #[trigger] rules[j]),
    ensures
        !resolved(rules)[i].shadowed,
{
}

/// A rule without a name is not shadowed, and shadows no rule.
pub proof fn lemma_nameless_is_apart(rules: Seq<EnrichedView>, i: int, j: int)
    requires
        0 <= i < rules.len(),
        0 <= j < rules.len(),
        rules[i].data.name is None,
    ensures
        !resolved(rules)[i].shadowed,
        !same_name(rules[j], rules[i]),
{
}

/// Resolving a second time changes nothing.
pub proof fn lemma_resolved_twice(rules: Seq<EnrichedView>)
    ensures
        resolved(resolved(rules)) == resolved(rules),
{
    let once = resolved(rules);
    assert forall|i: int| 0 <= i < rules.len() implies shadowed_at(once, i) == shadowed_at(
        rules,
        i,
    ) by {
        if shadowed_at(rules, i) {
            let j = choose|j: int| i < j < rules.len() && same_name(rules[i], #[trigger] rules[j]);
            assert(same_name(once[i], once[j]));
        }
        if shadowed_at(once, i) {
            let j = choose|j: int| i < j < once.len() && same_name(once[i], #[trigger] once[j]);
            assert(same_name(rules[i], rules[j]));
        }
    }
    assert(resolved(once) =~= once);
}

/// Whether the lower-case form of a text field holds the query. A field without a value is
/// taken as the empty text.
pub open spec fn text_matches(field: Option<Seq<char>>, query_lower: Seq<char>) -> bool {
    match field {
        Some(text) => contains(lowercase(text), query_lower),
        None => contains(Seq::empty(), query_lower),
    }
}

/// Whether the decimal text of a number field holds the query. A field without a value is
/// taken as the empty text.
pub open spec fn number_matches(field: Option<i32>, query_lower: Seq<char>) -> bool {
    contains(
        match field {
            Some(n) => decimal(n as int),
            None => Seq::empty(),
        },
        query_lower,
    )
}

/// Whether any field of the rule holds the query, which is given in lower case.
pub open spec fn rule_matches(rule: EnrichedView, query_lower: Seq<char>) -> bool {
    ||| text_matches(rule.data.name, query_lower)
    ||| text_matches(rule.data.rule_type, query_lower)
    ||| text_matches(rule.data.sched, query_lower)
    ||| text_matches(rule.data.ioclass, query_lower)
    ||| text_matches(rule.data.cgroup, query_lower)
    ||| number_matches(rule.data.nice, query_lower)
    ||| number_matches(rule.data.latency_nice, query_lower)
    ||| number_matches(rule.data.rtprio, query_lower)
    ||| number_matches(rule.data.oom_score_adj, query_lower)
    ||| text_matches(rule.context_comment, query_lower)
}

/// [`rule_matches`] as a predicate on rules.
pub open spec fn match_filter(query_lower: Seq<char>) -> spec_fn(EnrichedView) -> bool {
    |rule: EnrichedView| rule_matches(rule, query_lower)
}

/// The rules that a query retains, in their order: all of them for the empty query, else
/// those of which some field holds the query, letter case aside.
pub open spec fn matching(rules: Seq<EnrichedView>, query: Seq<char>) -> Seq<EnrichedView> {
    if query.len() == 0 {
        rules
    } else {
        rules.filter(match_filter(lowercase(query)))
    }
}

/// The key by which rules are ordered: the category, then the name, both in lower case. A
/// rule without a name has the empty name.
pub open spec fn rule_key(rule: EnrichedView) -> Seq<Seq<char>> {
    seq![lowercase(category_of(rule.source_file)), name_for_order(rule.data.name)]
}

/// The keys of the rules of a list.
pub open spec fn rule_keys(rules: Seq<EnrichedView>) -> Seq<Seq<Seq<char>>> {
    Seq::new(rules.len(), |i: int| rule_key(rules[i]))
}

/// The rules ordered by category, then by name, both compared in lower case; rules that
/// agree in both stay in the order that they had.
pub open spec fn sorted_rules(rules: Seq<EnrichedView>) -> Seq<EnrichedView> {
    let order = sorted_order(rule_keys(rules));
    Seq::new(rules.len(), |i: int| rules[order[i] as int])
}

/// A query that is not empty retains exactly the rules of the list that match it.
pub proof fn lemma_matching_is_exact(rules: Seq<EnrichedView>, query: Seq<char>, rule: EnrichedView)
    requires
        query.len() > 0,
    ensures
        matching(rules, query).contains(rule) <==> rules.contains(rule) && rule_matches(
            rule,
            lowercase(query),
        ),
{
    let keep = match_filter(lowercase(query));
    let kept = rules.filter(keep);
    assert(keep(rule) == rule_matches(rule, lowercase(query)));
    if kept.contains(rule) {
        rules.lemma_filter_contains_rev(keep, rule);
        let i = choose|i: int| 0 <= i < kept.len() && kept[i] == rule;
        rules.lemma_filter_pred(keep, i);
    }
    if rules.contains(rule) && keep(rule) {
        let i = choose|i: int| 0 <= i < rules.len() && rules[i] == rule;
        rules.lemma_filter_contains(keep, i);
    }
}

/// A field without a value holds no query but the empty one: a rule is never retained for a
/// field that it does not have.
pub proof fn lemma_missing_field_holds_nothing(query_lower: Seq<char>)
    requires
        query_lower.len() > 0,
    ensures
        !text_matches(None, query_lower),
        !number_matches(None, query_lower),
{
    let none = Seq::<char>::empty();
    assert forall|i: int| !occurs_at(none, query_lower, i) by {}
}

/// The empty query retains every rule.
pub proof fn lemma_empty_query_keeps_all(rules: Seq<EnrichedView>)
    ensures
        matching(rules, Seq::<char>::empty()) == rules,
{
}

/// Sorting keeps the rules: each rule of the list stands at one place of the sorted list,
/// and no place holds anything else.
pub proof fn lemma_sorted_rules_are_the_rules(rules: Seq<EnrichedView>)
    requires
        rules.len() <= usize::MAX,
    ensures
        sorted_rules(rules).len() == rules.len(),
        is_permutation(sorted_order(rule_keys(rules)), rules.len()),
        forall|k: int| 0 <= k < rules.len() ==> sorted_rules(rules).contains(#[trigger] rules[k]),
        forall|i: int|
            0 <= i < rules.len() ==> rules.contains(#[trigger] sorted_rules(rules)[i]),
{
    lemma_sorted_order(rule_keys(rules));
    let order = sorted_order(rule_keys(rules));
    let sorted = sorted_rules(rules);
    assert forall|k: int| 0 <= k < rules.len() implies sorted.contains(#[trigger] rules[k]) by {
        assert(lists(order, k));
        let i = choose|i: int| 0 <= i < order.len() && order[i] == k;
        assert(sorted[i] == rules[k]);
    }
    assert forall|i: int| 0 <= i < rules.len() implies rules.contains(#[trigger] sorted[i]) by {
        assert(rules[order[i] as int] == sorted[i]);
    }
}

/// In the sorted list a rule of an earlier category stands before one of a later category,
/// wherever the two stood before; within a category, the rules stand by name.
pub proof fn lemma_sorted_rules_in_order(rules: Seq<EnrichedView>, i: int, j: int)
    requires
        rules.len() <= usize::MAX,
        0 <= i < j < rules.len(),
    ensures
        key_le(rule_key(sorted_rules(rules)[i]), rule_key(sorted_rules(rules)[j])),
        text_le(
            lowercase(category_of(sorted_rules(rules)[i].source_file)),
            lowercase(category_of(sorted_rules(rules)[j].source_file)),
        ),
        lowercase(category_of(sorted_rules(rules)[i].source_file)) == lowercase(
            category_of(sorted_rules(rules)[j].source_file),
        ) ==> text_le(
            name_for_order(sorted_rules(rules)[i].data.name),
            name_for_order(sorted_rules(rules)[j].data.name),
        ),
{
    lemma_sorted_order(rule_keys(rules));
    let order = sorted_order(rule_keys(rules));
    let a = rule_key(sorted_rules(rules)[i]);
    let b = rule_key(sorted_rules(rules)[j]);
    assert(a == rule_keys(rules)[order[i] as int]);
    assert(b == rule_keys(rules)[order[j] as int]);
    assert(key_le(a, b));
    crate::order::lemma_text_le_refl(a[0]);
    assert(a.drop_first() =~= seq![a[1]]);
    assert(b.drop_first() =~= seq![b[1]]);
    assert(a.drop_first().drop_first() =~= Seq::<Seq<char>>::empty());
    if a[0] == b[0] {
        assert(key_le(a.drop_first(), b.drop_first()));
        crate::order::lemma_text_le_refl(a[1]);
    }
}

/// The rules put in another order: at each place the rule that `places` names there.
pub open spec fn rearranged_rules(rules: Seq<EnrichedView>, places: Seq<usize>) -> Seq<
    EnrichedView,
> {
    Seq::new(rules.len(), |i: int| rules[places[i] as int])
}

/// Rules of which no two agree in category and name are sorted into one order, in whatever
/// order they were loaded.
pub proof fn lemma_sorted_from_any_order(rules: Seq<EnrichedView>, places: Seq<usize>)
    requires
        rules.len() <= usize::MAX,
        is_permutation(places, rules.len()),
        forall|i: int, j: int|
            0 <= i < j < rules.len() ==> rule_key(rules[i]) != rule_key(rules[j]),
    ensures
        sorted_rules(rearranged_rules(rules, places)) == sorted_rules(rules),
{
    let moved = rearranged_rules(rules, places);
    let keys = rule_keys(rules);
    assert(rule_keys(moved) =~= rearranged(keys, places));
    lemma_order_of_rearranged(keys, places);
    lemma_sorted_order(rearranged(keys, places));
    let inner = sorted_order(rule_keys(moved));
    let order = sorted_order(keys);
    assert forall|i: int| 0 <= i < rules.len() implies moved[inner[i] as int]
        == rules[order[i] as int] by {
        assert(places[inner[i] as int] == order[i]);
    }
    assert(sorted_rules(moved) =~= sorted_rules(rules));
}

/// Rules that agree in category and name, letter case aside, keep the order that they had.
pub proof fn lemma_sorted_rules_is_stable(rules: Seq<EnrichedView>, i: int, j: int)
    requires
        rules.len() <= usize::MAX,
        0 <= i < j < rules.len(),
        rule_key(sorted_rules(rules)[i]) == rule_key(sorted_rules(rules)[j]),
    ensures
        sorted_order(rule_keys(rules))[i] < sorted_order(rule_keys(rules))[j],
{
    lemma_sorted_order(rule_keys(rules));
    let order = sorted_order(rule_keys(rules));
    assert(rule_key(sorted_rules(rules)[i]) == rule_keys(rules)[order[i] as int]);
    assert(rule_key(sorted_rules(rules)[j]) == rule_keys(rules)[order[j] as int]);
}

fn text_field_matches(field: &Option<String>, query_lower: &Vec<char>) -> (r: bool)
    ensures
        r == text_matches(crate::domain::models::text_of(*field), query_lower@),
{
    let lower = match field {
        Some(text) => lowercase_chars(text.as_str()),
        None => Vec::new(),
    };
    contains_chars(&lower, query_lower)
}

fn number_field_matches(field: Option<i32>, query_lower: &Vec<char>) -> (r: bool)
    ensures
        r == number_matches(field, query_lower@),
{
    let text = match field {
        Some(n) => decimal_chars(n as i64),
        None => Vec::new(),
    };
    contains_chars(&text, query_lower)
}

/// Whether any field of `rule` holds the query, which is given in lower case: see
/// [`rule_matches`].
pub fn matches_query(rule: &EnrichedRule, query_lower: &Vec<char>) -> (r: bool)
    ensures
        r == rule_matches(rule@, query_lower@),
{
    text_field_matches(&rule.data.name, query_lower) || text_field_matches(
        &rule.data.rule_type,
        query_lower,
    ) || text_field_matches(&rule.data.sched, query_lower) || text_field_matches(
        &rule.data.ioclass,
        query_lower,
    ) || text_field_matches(&rule.data.cgroup, query_lower) || number_field_matches(
        rule.data.nice,
        query_lower,
    ) || number_field_matches(rule.data.latency_nice, query_lower) || number_field_matches(
        rule.data.rtprio,
        query_lower,
    ) || number_field_matches(rule.data.oom_score_adj, query_lower) || text_field_matches(
        &rule.context_comment,
        query_lower,
    )
}

/// The rules of which some field holds the query, which is given in lower case, in their
/// order.
pub fn retain_matching(rules: &Vec<EnrichedRule>, query_lower: &Vec<char>) -> (kept: Vec<
    EnrichedRule,
>)
    ensures
        rule_views(kept@) == rule_views(rules@).filter(match_filter(query_lower@)),
{
    let ghost views = rule_views(rules@);
    let ghost keep = match_filter(query_lower@);
    let mut kept: Vec<EnrichedRule> = Vec::new();
    let mut i: usize = 0;
    proof {
        reveal(Seq::filter);
        assert(views.take(0).filter(keep) =~= Seq::<EnrichedView>::empty());
        assert(rule_views(kept@) =~= Seq::<EnrichedView>::empty());
    }
    while i < rules.len()
        invariant
            i <= rules.len(),
            views == rule_views(rules@),
            keep == match_filter(query_lower@),
            rule_views(kept@) == views.take(i as int).filter(keep),
        decreases rules.len() - i,
    {
        let ghost before = rule_views(kept@);
        let ghost rule = views[i as int];
        proof {
            reveal(Seq::filter);
            let next = views.take(i + 1);
            assert(next.drop_last() =~= views.take(i as int));
            assert(next.last() == rule);
            assert(keep(rule) == rule_matches(rule, query_lower@));
        }
        if matches_query(&rules[i], query_lower) {
            kept.push(rules[i].clone());
            assert(rule_views(kept@) =~= before.push(rule));
        }
        i = i + 1;
    }
    assert(views.take(rules.len() as int) =~= views);
    kept
}

/// A copy of the list.
pub fn clone_rules(rules: &Vec<EnrichedRule>) -> (copy: Vec<EnrichedRule>)
    ensures
        copy@ == rules@,
{
    let mut copy: Vec<EnrichedRule> = Vec::new();
    let mut i: usize = 0;
    while i < rules.len()
        invariant
            i <= rules.len(),
            copy@ == rules@.take(i as int),
        decreases rules.len() - i,
    {
        copy.push(rules[i].clone());
        assert(copy@ =~= rules@.take(i + 1));
        i = i + 1;
    }
    assert(rules@.take(rules.len() as int) =~= rules@);
    copy
}

/// The rules that `query` retains, in their order: see [`matching`].
pub fn filter_rules(rules: &Vec<EnrichedRule>, query: &str) -> (kept: Vec<EnrichedRule>)
    ensures
        rule_views(kept@) == matching(rule_views(rules@), query@),
{
    if query.unicode_len() == 0 {
        clone_rules(rules)
    } else {
        let query_lower = lowercase_chars(query);
        retain_matching(rules, &query_lower)
    }
}

/// The key by which `rule` is ordered: see [`rule_key`].
pub fn key_of_rule(rule: &EnrichedRule) -> (key: Vec<Vec<char>>)
    ensures
        texts(key@) == rule_key(rule@),
{
    let folder = category(rule.source_file.as_str());
    let folder_lower = lowercase_chars(folder.as_str());
    let name_lower = match &rule.data.name {
        Some(name) => lowercase_chars(name.as_str()),
        None => Vec::new(),
    };
    let mut key: Vec<Vec<char>> = Vec::new();
    key.push(folder_lower);
    key.push(name_lower);
    assert(texts(key@) =~= rule_key(rule@));
    key
}

/// The service that answers queries over the rules of a repository.
pub struct RuleService {
    rule_repository: RuleRepository,
}

impl RuleService {
    /// The repository that the service reads.
    pub closed spec fn repository(&self) -> RuleRepository {
        self.rule_repository
    }

    /// A service over the given repository.
    pub fn new(rule_repository: RuleRepository) -> (service: Self)
        ensures
            service.repository() == rule_repository,
    {
        RuleService { rule_repository }
    }

    /// Orders `rules` by category, then by name, both compared in lower case: see
    /// [`sorted_rules`].
    pub fn sort_rules(&self, rules: &mut Vec<EnrichedRule>)
        ensures
            rule_views(final(rules)@) == sorted_rules(rule_views(old(rules)@)),
    {
        let ghost views = rule_views(rules@);
        let mut keys: Vec<Vec<Vec<char>>> = Vec::new();
        let mut k: usize = 0;
        while k < rules.len()
            invariant
                k <= rules.len(),
                keys.len() == k,
                views == rule_views(rules@),
                forall|i: int| 0 <= i < k ==> texts((#[trigger] keys[i])@) == rule_key(views[i]),
            decreases rules.len() - k,
        {
            let key = key_of_rule(&rules[k]);
            keys.push(key);
            k = k + 1;
        }
        assert(keys_of(keys@) =~= rule_keys(views));
        let order = stable_order(&keys);
        let mut sorted: Vec<EnrichedRule> = Vec::new();
        let mut i: usize = 0;
        while i < order.len()
            invariant
                i <= order.len(),
                order.len() == rules.len(),
                sorted.len() == i,
                views == rule_views(rules@),
                forall|j: int| 0 <= j < order.len() ==> (#[trigger] order[j]) < rules.len(),
                forall|j: int| 0 <= j < i ==> (#[trigger] sorted[j])@ == views[order[j] as int],
            decreases order.len() - i,
        {
            sorted.push(rules[order[i]].clone());
            i = i + 1;
        }
        assert(rule_views(sorted@) =~= sorted_rules(views));
        *rules = sorted;
    }

    /// The rules that `query` finds: all rules of the repository in loading order, each
    /// marked where a later one shadows it, then those that the query retains, ordered by
    /// category and name.
    pub fn search_rules(&self, query: &str) -> (rules: Vec<EnrichedRule>)
        ensures
            rule_views(rules@) == sorted_rules(
                matching(resolved(all_rules(self.repository()@.listings)), query@),
            ),
    {
        let mut loaded = self.rule_repository.load_all();
        resolve_shadowing(&mut loaded);
        let mut rules = filter_rules(&loaded, query);
        self.sort_rules(&mut rules);
        rules
    }
}

} // verus!
