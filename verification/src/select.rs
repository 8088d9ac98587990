//! Selecting snapshot names by dataset path and label.
//!
//! A name belongs to a dataset iff it starts with the dataset path
//! followed by `@` — a plain string-prefix test on the full path
//! segment, not a path-component walk. The anchoring `@` keeps sibling
//! paths apart even when one is a string prefix of the other
//! (`tank/var` and `tank/var2`); this prefix semantics is observable
//! behaviour and is kept as is for compatibility (see the test
//! `dataset_path_prefix_edge_case`).

use vstd::prelude::*;

use crate::order::{lex_le, sorted_names};

verus! {

/// Does `name` select for `dataset` — and for `label`, when `use_label`
/// is set?
pub open spec fn matches_filter(
    name: Seq<char>,
    dataset: Seq<char>,
    label: Seq<char>,
    use_label: bool,
) -> bool {
    &&& (dataset + seq!['@']).is_prefix_of(name)
    &&& (use_label ==> (seq!['-'] + label).is_suffix_of(name))
}

/// The subsequence of `s` that selects for `dataset` / `label`, in the
/// order of `s`.
pub open spec fn select_names(
    s: Seq<Seq<char>>,
    dataset: Seq<char>,
    label: Seq<char>,
    use_label: bool,
) -> Seq<Seq<char>>
    decreases s.len(),
{
    if s.len() == 0 {
        Seq::empty()
    } else {
        let rest = select_names(s.drop_last(), dataset, label, use_label);
        if matches_filter(s.last(), dataset, label, use_label) {
            rest.push(s.last())
        } else {
            rest
        }
    }
}

/// Selecting from a sequence extended by one element.
pub proof fn lemma_select_names_push(
    s: Seq<Seq<char>>,
    x: Seq<char>,
    dataset: Seq<char>,
    label: Seq<char>,
    use_label: bool,
)
    ensures
        select_names(s.push(x), dataset, label, use_label) == if matches_filter(
            x,
            dataset,
            label,
            use_label,
        ) {
            select_names(s, dataset, label, use_label).push(x)
        } else {
            select_names(s, dataset, label, use_label)
        },
{
    assert(s.push(x).drop_last() =~= s);
    assert(s.push(x).last() == x);
}

/// What a selection holds: exactly the matching elements of `s`, each
/// taken from `s`.
pub proof fn lemma_select_names_elements(
    s: Seq<Seq<char>>,
    dataset: Seq<char>,
    label: Seq<char>,
    use_label: bool,
)
    ensures
        forall|i: int|
            0 <= i < select_names(s, dataset, label, use_label).len() ==> matches_filter(
                #[trigger] select_names(s, dataset, label, use_label)[i],
                dataset,
                label,
                use_label,
            ) && s.contains(select_names(s, dataset, label, use_label)[i]),
        forall|j: int|
            0 <= j < s.len() && matches_filter(#[trigger] s[j], dataset, label, use_label)
                ==> select_names(s, dataset, label, use_label).contains(s[j]),
        select_names(s, dataset, label, use_label).len() <= s.len(),
    decreases s.len(),
{
    if s.len() > 0 {
        lemma_select_names_elements(s.drop_last(), dataset, label, use_label);
        let rest = select_names(s.drop_last(), dataset, label, use_label);
        let out = select_names(s, dataset, label, use_label);
        assert forall|i: int| 0 <= i < out.len() implies matches_filter(
            #[trigger] out[i],
            dataset,
            label,
            use_label,
        ) && s.contains(out[i]) by {
            if i < rest.len() {
                assert(out[i] == rest[i]);
                let k = choose|k: int| 0 <= k < s.drop_last().len() && s.drop_last()[k] == rest[i];
                assert(s[k] == out[i]);
            } else {
                assert(out[i] == s.last());
                assert(s[s.len() - 1] == out[i]);
            }
        }
        assert forall|j: int|
            0 <= j < s.len() && matches_filter(#[trigger] s[j], dataset, label, use_label) implies out.contains(
            s[j],
        ) by {
            if j < s.len() - 1 {
                assert(s.drop_last()[j] == s[j]);
                assert(rest.contains(s[j]));
                let k = choose|k: int| 0 <= k < rest.len() && rest[k] == s[j];
                assert(out[k] == s[j]);
            } else {
                assert(out[out.len() - 1] == s[j]);
            }
        }
    }
}

/// Selection keeps the relative order of its input: selecting from a
/// sorted sequence yields a sorted sequence.
pub proof fn lemma_select_names_sorted(
    s: Seq<Seq<char>>,
    dataset: Seq<char>,
    label: Seq<char>,
    use_label: bool,
)
    requires
        sorted_names(s),
    ensures
        sorted_names(select_names(s, dataset, label, use_label)),
    decreases s.len(),
{
    if s.len() > 0 {
        assert(sorted_names(s.drop_last())) by {
            assert(forall|i: int, j: int|
                0 <= i < j < s.drop_last().len() ==> s.drop_last()[i] == s[i] && s.drop_last()[j]
                    == s[j]);
        }
        lemma_select_names_sorted(s.drop_last(), dataset, label, use_label);
        lemma_select_names_elements(s.drop_last(), dataset, label, use_label);
        let rest = select_names(s.drop_last(), dataset, label, use_label);
        let out = select_names(s, dataset, label, use_label);
        if matches_filter(s.last(), dataset, label, use_label) {
            assert forall|i: int, j: int| 0 <= i < j < out.len() implies lex_le(out[i], out[j]) by {
                if j < rest.len() {
                    assert(lex_le(rest[i], rest[j]));
                } else {
                    assert(out[j] == s.last());
                    let k = choose|k: int|
                        0 <= k < s.drop_last().len() && s.drop_last()[k] == rest[i];
                    assert(lex_le(s[k], s[s.len() - 1]));
                }
            }
        }
    }
}

/// Selecting twice with one predicate selects once: the selection is
/// idempotent.
pub proof fn lemma_select_names_idempotent(
    s: Seq<Seq<char>>,
    dataset: Seq<char>,
    label: Seq<char>,
    use_label: bool,
)
    ensures
        select_names(select_names(s, dataset, label, use_label), dataset, label, use_label)
            == select_names(s, dataset, label, use_label),
    decreases s.len(),
{
    if s.len() > 0 {
        lemma_select_names_idempotent(s.drop_last(), dataset, label, use_label);
        if matches_filter(s.last(), dataset, label, use_label) {
            lemma_select_names_push(
                select_names(s.drop_last(), dataset, label, use_label),
                s.last(),
                dataset,
                label,
                use_label,
            );
        }
    }
}

} // verus!
