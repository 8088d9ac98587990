//! Snapshot identifiers: validated, orderable snapshot names.

use vstd::prelude::*;

use crate::order::{lemma_lex_lt_trichotomy, lex_le, sorted_names};
use crate::text::{count_char, count_char_from, find_char, str_eq, str_lt};

verus! {

/// A snapshot identifier; `name` is the full qualified name
/// `<dataset-path>@<timestamp>-<label>`, kept verbatim.
#[derive(Debug)]
pub struct Snapshot {
    pub name: String,
}

impl View for Snapshot {
    type V = Seq<char>;

    open spec fn view(&self) -> Seq<char> {
        self.name@
    }
}

/// The names of a sequence of snapshots, in order.
pub open spec fn names(s: Seq<Snapshot>) -> Seq<Seq<char>> {
    s.map_values(|snap: Snapshot| snap.name@)
}

/// A well-formed snapshot name: a non-empty dataset path, then `@`, then
/// a non-empty snapshot part of at least six `-`-separated fields (four
/// date fields, a time field, and a label), checked by presence only.
pub open spec fn valid_snapshot_text(s: Seq<char>) -> bool {
    match s.index_of_first('@') {
        Some(i) => 0 < i && i + 1 < s.len() && count_char(s.subrange(i + 1, s.len() as int), '-')
            >= 5,
        None => false,
    }
}

/// The well-formed names among `s`, in the order of `s`.
pub open spec fn well_formed_names(s: Seq<Seq<char>>) -> Seq<Seq<char>>
    decreases s.len(),
{
    if s.len() == 0 {
        Seq::empty()
    } else {
        let rest = well_formed_names(s.drop_last());
        if valid_snapshot_text(s.last()) {
            rest.push(s.last())
        } else {
            rest
        }
    }
}

/// What parsing keeps: exactly the well-formed names, each verbatim from
/// the input; a malformed line is never kept and a well-formed one never
/// dropped.
pub proof fn lemma_well_formed_names_elements(s: Seq<Seq<char>>)
    ensures
        forall|i: int|
            0 <= i < well_formed_names(s).len() ==> valid_snapshot_text(
                #[trigger] well_formed_names(s)[i],
            ) && s.contains(well_formed_names(s)[i]),
        forall|j: int|
            0 <= j < s.len() && valid_snapshot_text(#[trigger] s[j]) ==> well_formed_names(
                s,
            ).contains(s[j]),
        well_formed_names(s).len() <= s.len(),
    decreases s.len(),
{
    if s.len() > 0 {
        lemma_well_formed_names_elements(s.drop_last());
        let rest = well_formed_names(s.drop_last());
        let out = well_formed_names(s);
        assert forall|i: int| 0 <= i < out.len() implies valid_snapshot_text(#[trigger] out[i])
            && s.contains(out[i]) by {
            if i < rest.len() {
                assert(out[i] == rest[i]);
                let k = choose|k: int| 0 <= k < s.drop_last().len() && s.drop_last()[k] == rest[i];
                assert(s[k] == out[i]);
            } else {
                assert(out[i] == s.last());
                assert(s[s.len() - 1] == out[i]);
            }
        }
        assert forall|j: int|
            0 <= j < s.len() && valid_snapshot_text(#[trigger] s[j]) implies out.contains(
            s[j],
        ) by {
            if j < s.len() - 1 {
                assert(s.drop_last()[j] == s[j]);
                assert(rest.contains(s[j]));
                let k = choose|k: int| 0 <= k < rest.len() && rest[k] == s[j];
                assert(out[k] == s[j]);
            } else {
                assert(out[out.len() - 1] == s[j]);
            }
        }
    }
}

/// `well_formed_names` over a sequence extended by one element.
pub proof fn lemma_well_formed_names_push(s: Seq<Seq<char>>, x: Seq<char>)
    ensures
        well_formed_names(s.push(x)) == if valid_snapshot_text(x) {
            well_formed_names(s).push(x)
        } else {
            well_formed_names(s)
        },
{
    assert(s.push(x).drop_last() =~= s);
    assert(s.push(x).last() == x);
}

impl Snapshot {
    /// Wraps a raw name, preserving it verbatim.
    pub fn new(name: &str) -> (r: Snapshot)
        ensures
            r.name@ == name@,
    {
        Snapshot { name: name.to_owned() }
    }

    /// Parses a batch listing: malformed lines are dropped, well-formed
    /// names are kept verbatim (duplicates included), and the result is
    /// sorted ascending.
    pub fn from_batch(unparsed_snapshots: &Vec<&str>) -> (r: Vec<Snapshot>)
        ensures
            sorted_names(names(r@)),
            names(r@).to_multiset() == well_formed_names(
                unparsed_snapshots@.map_values(|s: &str| s@),
            ).to_multiset(),
    {
        let texts = Ghost(unparsed_snapshots@.map_values(|s: &str| s@));
        let mut kept: Vec<Snapshot> = Vec::new();
        let mut i: usize = 0;
        proof {
            assert(texts@.subrange(0, 0) =~= Seq::<Seq<char>>::empty());
            assert(names(kept@) =~= Seq::<Seq<char>>::empty());
        }
        while i < unparsed_snapshots.len()
            invariant
                i <= unparsed_snapshots@.len(),
                texts@ == unparsed_snapshots@.map_values(|s: &str| s@),
                names(kept@) == well_formed_names(texts@.subrange(0, i as int)),
            decreases unparsed_snapshots@.len() - i,
        {
            let line: &str = unparsed_snapshots[i];
            if Snapshot::validate_snapshot_format(line) {
                let ghost prev = names(kept@);
                kept.push(Snapshot::new(line));
                proof {
                    assert(names(kept@) =~= prev.push(line@));
                }
            }
            proof {
                assert(texts@.subrange(0, i + 1).drop_last() =~= texts@.subrange(0, i as int));
                assert(texts@.subrange(0, i + 1).last() == line@);
                lemma_well_formed_names_push(texts@.subrange(0, i as int), line@);
                assert(texts@.subrange(0, i as int).push(line@) =~= texts@.subrange(0, i + 1));
            }
            i = i + 1;
        }
        proof {
            assert(texts@.subrange(0, texts@.len() as int) =~= texts@);
        }
        sort_snapshots(&kept)
    }

    /// Structural check of a raw name: an `@` preceded by a non-empty
    /// dataset path and followed by at least six `-`-separated fields.
    fn validate_snapshot_format(name: &str) -> (r: bool)
        ensures
            r == valid_snapshot_text(name@),
    {
        proof {
            name@.index_of_first_ensures('@');
        }
        match find_char(name, '@') {
            None => false,
            Some(i) => {
                proof {
                    assert(name@.index_of_first('@') == Some(i as int));
                }
                if i == 0 {
                    return false;
                }
                let len = name.unicode_len();
                if i + 1 >= len {
                    return false;
                }
                let dashes = count_char_from(name, i + 1, '-');
                dashes >= 5
            },
        }
    }
}

impl PartialEq for Snapshot {
    /// Two identifiers are equal iff their full names match.
    fn eq(&self, other: &Self) -> (r: bool) {
        self.name == other.name
    }
}

impl Eq for Snapshot {

}

impl vstd::std_specs::cmp::PartialEqSpecImpl for Snapshot {
    open spec fn obeys_eq_spec() -> bool {
        true
    }

    open spec fn eq_spec(&self, other: &Self) -> bool {
        self.name@ == other.name@
    }
}

impl Clone for Snapshot {
    fn clone(&self) -> (r: Self)
        ensures
            r == *self,
    {
        Snapshot { name: self.name.clone() }
    }
}

/// An element-for-element copy of a snapshot vector.
pub fn copy_snapshots(v: &Vec<Snapshot>) -> (r: Vec<Snapshot>)
    ensures
        r@ == v@,
{
    let mut r: Vec<Snapshot> = Vec::new();
    let mut i: usize = 0;
    while i < v.len()
        invariant
            i <= v@.len(),
            r@ == v@.subrange(0, i as int),
        decreases v@.len() - i,
    {
        r.push(v[i].clone());
        proof {
            assert(r@ =~= v@.subrange(0, i + 1));
        }
        i = i + 1;
    }
    proof {
        assert(v@.subrange(0, v@.len() as int) =~= v@);
    }
    r
}

/// Sorts snapshots ascending by name; the names are rearranged, none is
/// added or dropped.
pub fn sort_snapshots(v: &Vec<Snapshot>) -> (r: Vec<Snapshot>)
    ensures
        sorted_names(names(r@)),
        names(r@).to_multiset() == names(v@).to_multiset(),
{
    broadcast use vstd::seq_lib::group_to_multiset_ensures;

    let mut rest = copy_snapshots(v);
    let mut out: Vec<Snapshot> = Vec::new();
    proof {
        assert(names(out@) =~= Seq::<Seq<char>>::empty());
        assert(names(out@).to_multiset().add(names(rest@).to_multiset()) =~= names(
            v@,
        ).to_multiset());
    }
    while rest.len() > 0
        invariant
            names(out@).to_multiset().add(names(rest@).to_multiset()) == names(v@).to_multiset(),
            sorted_names(names(out@)),
            forall|x: int, y: int|
                0 <= x < out@.len() && 0 <= y < rest@.len() ==> lex_le(
                    names(out@)[x],
                    names(rest@)[y],
                ),
        decreases rest@.len(),
    {
        let mut m: usize = 0;
        let mut k: usize = 1;
        while k < rest.len()
            invariant
                m < k <= rest@.len(),
                rest@.len() > 0,
                forall|j: int| 0 <= j < k ==> lex_le(names(rest@)[m as int], names(rest@)[j]),
            decreases rest@.len() - k,
        {
            proof {
                lemma_lex_lt_trichotomy(rest@[k as int].name@, rest@[m as int].name@);
            }
            if str_lt(rest[k].name.as_str(), rest[m].name.as_str()) {
                proof {
                    assert forall|j: int| 0 <= j < k + 1 implies lex_le(
                        names(rest@)[k as int],
                        names(rest@)[j],
                    ) by {
                        if j < k {
                            crate::order::lemma_lex_le_transitive(
                                names(rest@)[k as int],
                                names(rest@)[m as int],
                                names(rest@)[j],
                            );
                        }
                    }
                }
                m = k;
            }
            k = k + 1;
        }
        let ghost old_out = out@;
        let ghost old_rest = rest@;
        let picked = rest.remove(m);
        out.push(picked);
        proof {
            assert(names(out@) =~= names(old_out).push(picked.name@));
            assert(names(rest@) =~= names(old_rest).remove(m as int));
            broadcast use vstd::multiset::group_multiset_axioms;

            assert(names(old_rest)[m as int] == picked.name@);
            assert(names(old_rest).contains(picked.name@));
            vstd::seq_lib::to_multiset_build(names(old_out), picked.name@);
            vstd::seq_lib::to_multiset_remove(names(old_rest), m as int);
            vstd::seq_lib::to_multiset_contains(names(old_rest), picked.name@);
            assert(names(out@).to_multiset().add(names(rest@).to_multiset()) =~= names(
                old_out,
            ).to_multiset().add(names(old_rest).to_multiset()));
        }
    }
    proof {
        assert(names(rest@) =~= Seq::<Seq<char>>::empty());
        assert(names(out@).to_multiset().add(names(rest@).to_multiset()) =~= names(
            out@,
        ).to_multiset());
    }
    out
}

/// Is some snapshot in `v` named `name`?
pub fn contains_name(v: &Vec<Snapshot>, name: &str) -> (r: bool)
    ensures
        r == names(v@).contains(name@),
{
    let mut k: usize = 0;
    while k < v.len()
        invariant
            k <= v@.len(),
            forall|j: int| 0 <= j < k ==> names(v@)[j] != name@,
        decreases v@.len() - k,
    {
        if str_eq(v[k].name.as_str(), name) {
            proof {
                assert(names(v@)[k as int] == name@);
            }
            return true;
        }
        k = k + 1;
    }
    false
}

} // verus!
