//! Drift between a template env file and a target env file.
use vstd::prelude::*;

use super::model::{
    EnvFile, EnvFileView, KeyView, empty_key_names, has_key, names_of, value_for_spec, value_is_empty,
};

verus! {

#[derive(Debug, Clone, PartialEq, Eq)]
pub struct ComparisonResult {
    pub missing_keys: Vec<String>,
    pub extra_keys: Vec<String>,
    pub empty_values: Vec<String>,
}

/// Mathematical picture of a [`ComparisonResult`].
pub struct ComparisonView {
    pub missing_keys: Seq<Seq<char>>,
    pub extra_keys: Seq<Seq<char>>,
    pub empty_values: Seq<Seq<char>>,
}

impl View for ComparisonResult {
    type V = ComparisonView;

    open spec fn view(&self) -> ComparisonView {
        ComparisonView {
            missing_keys: self.missing_keys.deep_view(),
            extra_keys: self.extra_keys.deep_view(),
            empty_values: self.empty_values.deep_view(),
        }
    }
}

/// The drift of `target` against `template`.
pub open spec fn compare_spec(template: EnvFileView, target: EnvFileView) -> ComparisonView {
    ComparisonView {
        missing_keys: names_not_in(template.keys, target.keys),
        extra_keys: names_not_in(target.keys, template.keys),
        empty_values: empty_in_target(template.keys, target.keys),
    }
}

/// Names of `keys` (in their order) that no key of `other` carries.
pub open spec fn names_not_in(keys: Seq<KeyView>, other: Seq<KeyView>) -> Seq<Seq<char>>
    decreases keys.len(),
{
    if keys.len() == 0 {
        Seq::empty()
    } else {
        let rest = names_not_in(keys.drop_last(), other);
        if names_of(other).contains(keys.last().name) {
            rest
        } else {
            rest.push(keys.last().name)
        }
    }
}

/// Names of template keys (in template order) that the target has but with
/// an absent or empty value.
pub open spec fn empty_in_target(template: Seq<KeyView>, target: Seq<KeyView>) -> Seq<Seq<char>>
    decreases template.len(),
{
    if template.len() == 0 {
        Seq::empty()
    } else {
        let rest = empty_in_target(template.drop_last(), target);
        let name = template.last().name;
        if names_of(target).contains(name) && value_is_empty(value_for_spec(target, name)) {
            rest.push(name)
        } else {
            rest
        }
    }
}

/// Compares `target` against `template`: the template keys the target lacks,
/// the target keys the template lacks, and the template keys the target
/// leaves empty.
pub fn compare(template: &EnvFile, target: &EnvFile) -> (r: ComparisonResult)
    ensures
        r@ == compare_spec(template@, target@),
{
    let missing_keys = keys_not_in(template, target);
    let extra_keys = keys_not_in(target, template);
    let ghost tk = template@.keys;
    let mut empty_values: Vec<String> = Vec::new();
    let mut i: usize = 0;
    while i < template.keys.len()
        invariant
            i <= template.keys.len(),
            tk == template@.keys,
            empty_values.deep_view() == empty_in_target(tk.take(i as int), target@.keys),
        decreases template.keys.len() - i,
    {
        assert(tk.take(i + 1).drop_last() =~= tk.take(i as int));
        let name = &template.keys[i].name;
        if has_key(&target.keys, name) {
            let empty = match target.value_for(name.as_str()) {
                Some(v) => v.unicode_len() == 0,
                None => true,
            };
            if empty {
                let ghost before = empty_values.deep_view();
                empty_values.push(name.clone());
                assert(empty_values.deep_view() =~= before.push(tk[i as int].name));
            }
        }
        i += 1;
    }
    assert(tk.take(template.keys.len() as int) =~= tk);
    ComparisonResult { missing_keys, extra_keys, empty_values }
}

/// Names of `keys`' keys that `other` lacks, in `keys`' order.
fn keys_not_in(keys: &EnvFile, other: &EnvFile) -> (r: Vec<String>)
    ensures
        r.deep_view() == names_not_in(keys@.keys, other@.keys),
{
    let ghost kv = keys@.keys;
    let mut r: Vec<String> = Vec::new();
    let mut i: usize = 0;
    while i < keys.keys.len()
        invariant
            i <= keys.keys.len(),
            kv == keys@.keys,
            r.deep_view() == names_not_in(kv.take(i as int), other@.keys),
        decreases keys.keys.len() - i,
    {
        assert(kv.take(i + 1).drop_last() =~= kv.take(i as int));
        if !has_key(&other.keys, &keys.keys[i].name) {
            let ghost before = r.deep_view();
            r.push(keys.keys[i].name.clone());
            assert(r.deep_view() =~= before.push(kv[i as int].name));
        }
        i += 1;
    }
    assert(kv.take(keys.keys.len() as int) =~= kv);
    r
}

/// Membership in `names_not_in`: a name is reported exactly when `keys` has it
/// and `other` does not.
pub proof fn lemma_names_not_in_contains(keys: Seq<KeyView>, other: Seq<KeyView>, name: Seq<char>)
    ensures
        names_not_in(keys, other).contains(name) <==> (names_of(keys).contains(name) && !names_of(
            other,
        ).contains(name)),
    decreases keys.len(),
{
    if keys.len() > 0 {
        let init = keys.drop_last();
        lemma_names_not_in_contains(init, other, name);
        assert(names_of(keys) =~= names_of(init).push(keys.last().name));
        let rest = names_not_in(init, other);
        if names_of(keys).contains(name) && !names_of(other).contains(name) {
            if names_of(init).contains(name) {
                assert(names_not_in(keys, other).contains(name)) by {
                    let j = choose|j: int| 0 <= j < rest.len() && rest[j] == name;
                    if !names_of(other).contains(keys.last().name) {
                        assert(rest.push(keys.last().name)[j] == name);
                    }
                }
            } else {
                let j = choose|j: int| 0 <= j < names_of(keys).len() && names_of(keys)[j] == name;
                assert(j == keys.len() - 1);
                assert(rest.push(keys.last().name)[rest.len() as int] == name);
            }
        }
        if names_not_in(keys, other).contains(name) {
            let r = names_not_in(keys, other);
            let j = choose|j: int| 0 <= j < r.len() && r[j] == name;
            if j < rest.len() {
                assert(rest[j] == name);
                let k = choose|k: int| 0 <= k < names_of(init).len() && names_of(init)[k] == name;
                assert(names_of(keys)[k] == name);
            } else {
                assert(names_of(keys)[keys.len() - 1] == name);
            }
        }
    }
}

/// A key list whose names all occur in `other` has nothing missing from it.
pub proof fn lemma_names_not_in_covered(keys: Seq<KeyView>, other: Seq<KeyView>)
    requires
        forall|j: int| 0 <= j < keys.len() ==> names_of(other).contains(#[trigger] keys[j].name),
    ensures
        names_not_in(keys, other) == Seq::<Seq<char>>::empty(),
    decreases keys.len(),
{
    if keys.len() > 0 {
        let init = keys.drop_last();
        assert forall|j: int| 0 <= j < init.len() implies names_of(other).contains(#[trigger] init[j].name) by {
            assert(init[j] == keys[j]);
        }
        lemma_names_not_in_covered(init, other);
        assert(names_of(other).contains(keys[keys.len() - 1].name));
    }
}

/// A missing key is a template key absent from the target, and every such
/// key is reported missing; likewise an extra key is a target key absent
/// from the template.
pub proof fn law_missing_and_extra_are_exact(template: EnvFileView, target: EnvFileView, name: Seq<char>)
    ensures
        compare_spec(template, target).missing_keys.contains(name) <==> (names_of(template.keys).contains(
            name,
        ) && !names_of(target.keys).contains(name)),
        compare_spec(template, target).extra_keys.contains(name) <==> (names_of(target.keys).contains(
            name,
        ) && !names_of(template.keys).contains(name)),
{
    lemma_names_not_in_contains(template.keys, target.keys, name);
    lemma_names_not_in_contains(target.keys, template.keys, name);
}

/// Swapping template and target swaps the missing and the extra keys.
pub proof fn law_compare_swap(a: EnvFileView, b: EnvFileView)
    ensures
        compare_spec(a, b).missing_keys == compare_spec(b, a).extra_keys,
        compare_spec(a, b).extra_keys == compare_spec(b, a).missing_keys,
{
}

/// A file compared with itself has neither missing nor extra keys.
pub proof fn law_compare_self(file: EnvFileView)
    ensures
        compare_spec(file, file).missing_keys == Seq::<Seq<char>>::empty(),
        compare_spec(file, file).extra_keys == Seq::<Seq<char>>::empty(),
{
    let k = file.keys;
    assert forall|j: int| 0 <= j < k.len() implies names_of(k).contains(#[trigger] k[j].name) by {
        assert(names_of(k)[j] == k[j].name);
    }
    lemma_names_not_in_covered(k, k);
}

/// Membership in `empty_in_target`: a template name the target has with an
/// absent or empty value.
pub proof fn lemma_empty_in_target_contains(template: Seq<KeyView>, target: Seq<KeyView>, name: Seq<char>)
    ensures
        empty_in_target(template, target).contains(name) <==> (names_of(template).contains(name) && names_of(
            target,
        ).contains(name) && value_is_empty(value_for_spec(target, name))),
    decreases template.len(),
{
    if template.len() > 0 {
        let init = template.drop_last();
        lemma_empty_in_target_contains(init, target, name);
        assert(names_of(template) =~= names_of(init).push(template.last().name));
        let rest = empty_in_target(init, target);
        let r = empty_in_target(template, target);
        if names_of(template).contains(name) && names_of(target).contains(name) && value_is_empty(
            value_for_spec(target, name),
        ) {
            let k = choose|k: int| 0 <= k < names_of(template).len() && names_of(template)[k] == name;
            if k < init.len() {
                assert(names_of(init)[k] == name);
                let j = choose|j: int| 0 <= j < rest.len() && rest[j] == name;
                assert(r[j] == name);
            } else {
                assert(r[r.len() - 1] == name);
            }
        }
        if r.contains(name) {
            let j = choose|j: int| 0 <= j < r.len() && r[j] == name;
            if j < rest.len() {
                assert(rest[j] == name);
                let k = choose|k: int| 0 <= k < names_of(init).len() && names_of(init)[k] == name;
                assert(names_of(template)[k] == name);
            } else {
                assert(names_of(template)[template.len() - 1] == name);
            }
        }
    }
}

proof fn lemma_names_not_in_distinct(keys: Seq<KeyView>, other: Seq<KeyView>)
    requires
        names_of(keys).no_duplicates(),
    ensures
        names_not_in(keys, other).no_duplicates(),
    decreases keys.len(),
{
    if keys.len() > 0 {
        let init = keys.drop_last();
        assert(names_of(keys) =~= names_of(init).push(keys.last().name));
        assert(names_of(init).no_duplicates()) by {
            assert forall|i: int, j: int|
                0 <= i < names_of(init).len() && 0 <= j < names_of(init).len() && i != j implies names_of(init)[i]
                != names_of(init)[j] by {
                assert(names_of(init)[i] == names_of(keys)[i] && names_of(init)[j] == names_of(keys)[j]);
            }
        }
        lemma_names_not_in_distinct(init, other);
        let last = keys.last().name;
        lemma_names_not_in_contains(init, other, last);
        assert(!names_of(init).contains(last)) by {
            if names_of(init).contains(last) {
                let k = choose|k: int| 0 <= k < names_of(init).len() && names_of(init)[k] == last;
                assert(names_of(keys)[k] == names_of(keys)[keys.len() - 1]);
            }
        }
        let rest = names_not_in(init, other);
        let r = names_not_in(keys, other);
        assert forall|i: int, j: int| 0 <= i < r.len() && 0 <= j < r.len() && i != j implies r[i] != r[j] by {
            if i < rest.len() && j < rest.len() {
                assert(r[i] == rest[i] && r[j] == rest[j]);
            } else if i < rest.len() {
                assert(r[i] == rest[i] && rest.contains(rest[i]));
            } else if j < rest.len() {
                assert(r[j] == rest[j] && rest.contains(rest[j]));
            }
        }
    }
}

proof fn lemma_empty_in_target_distinct(template: Seq<KeyView>, target: Seq<KeyView>)
    requires
        names_of(template).no_duplicates(),
    ensures
        empty_in_target(template, target).no_duplicates(),
    decreases template.len(),
{
    if template.len() > 0 {
        let init = template.drop_last();
        assert(names_of(template) =~= names_of(init).push(template.last().name));
        assert(names_of(init).no_duplicates()) by {
            assert forall|i: int, j: int|
                0 <= i < names_of(init).len() && 0 <= j < names_of(init).len() && i != j implies names_of(init)[i]
                != names_of(init)[j] by {
                assert(names_of(init)[i] == names_of(template)[i] && names_of(init)[j] == names_of(template)[j]);
            }
        }
        lemma_empty_in_target_distinct(init, target);
        let last = template.last().name;
        lemma_empty_in_target_contains(init, target, last);
        assert(!names_of(init).contains(last)) by {
            if names_of(init).contains(last) {
                let k = choose|k: int| 0 <= k < names_of(init).len() && names_of(init)[k] == last;
                assert(names_of(template)[k] == names_of(template)[template.len() - 1]);
            }
        }
        let rest = empty_in_target(init, target);
        let r = empty_in_target(template, target);
        assert forall|i: int, j: int| 0 <= i < r.len() && 0 <= j < r.len() && i != j implies r[i] != r[j] by {
            if i < rest.len() && j < rest.len() {
                assert(r[i] == rest[i] && r[j] == rest[j]);
            } else if i < rest.len() {
                assert(r[i] == rest[i] && rest.contains(rest[i]));
            } else if j < rest.len() {
                assert(r[j] == rest[j] && rest.contains(rest[j]));
            }
        }
    }
}

proof fn lemma_value_for_some_key(keys: Seq<KeyView>, name: Seq<char>) -> (k: int)
    requires
        names_of(keys).contains(name),
    ensures
        0 <= k < keys.len(),
        keys[k].name == name,
        value_for_spec(keys, name) == keys[k].value,
    decreases keys.len(),
{
    if keys[0].name == name {
        0
    } else {
        let j = choose|j: int| 0 <= j < names_of(keys).len() && names_of(keys)[j] == name;
        assert(names_of(keys.drop_first())[j - 1] == name);
        let k = lemma_value_for_some_key(keys.drop_first(), name);
        k + 1
    }
}

proof fn lemma_empty_key_listed(keys: Seq<KeyView>, k: int)
    requires
        0 <= k < keys.len(),
        value_is_empty(keys[k].value),
    ensures
        empty_key_names(keys).contains(keys[k].name),
    decreases keys.len(),
{
    let r = empty_key_names(keys);
    if k == keys.len() - 1 {
        assert(r[r.len() - 1] == keys[k].name);
    } else {
        lemma_empty_key_listed(keys.drop_last(), k);
        let rest = empty_key_names(keys.drop_last());
        let j = choose|j: int| 0 <= j < rest.len() && rest[j] == keys[k].name;
        assert(r[j] == rest[j]);
    }
}

/// The empty values are exactly the template keys that the target has with
/// an absent or empty value (the value of its first key of that name).
pub proof fn law_empty_values_are_exact(template: EnvFileView, target: EnvFileView, name: Seq<char>)
    ensures
        compare_spec(template, target).empty_values.contains(name) <==> (names_of(template.keys).contains(name)
            && names_of(target.keys).contains(name) && value_is_empty(value_for_spec(target.keys, name))),
        compare_spec(template, target).empty_values.contains(name) ==> empty_key_names(target.keys).contains(name),
{
    lemma_empty_in_target_contains(template.keys, target.keys, name);
    if compare_spec(template, target).empty_values.contains(name) {
        let k = lemma_value_for_some_key(target.keys, name);
        lemma_empty_key_listed(target.keys, k);
    }
}

/// No list repeats a name when the files' own names are distinct (as
/// `parse_file` guarantees): missing keys and empty values follow the
/// template's distinct names, extra keys the target's.
pub proof fn law_compare_lists_have_no_repeats(template: EnvFileView, target: EnvFileView)
    requires
        names_of(template.keys).no_duplicates(),
        names_of(target.keys).no_duplicates(),
    ensures
        compare_spec(template, target).missing_keys.no_duplicates(),
        compare_spec(template, target).extra_keys.no_duplicates(),
        compare_spec(template, target).empty_values.no_duplicates(),
{
    lemma_names_not_in_distinct(template.keys, target.keys);
    lemma_names_not_in_distinct(target.keys, template.keys);
    lemma_empty_in_target_distinct(template.keys, target.keys);
}

} // verus!
