//! Pure helpers on dataset paths, and the invocation parameters.

use vstd::prelude::*;

use crate::text::{contains_str, find_char, str_concat};

verus! {

/// One invocation's parameters: a dry-run switch, the backup pool, the
/// label, and the source datasets to replicate. Plain data; the binary
/// fills it from the command line.
pub struct Args {
    pub dry_run: bool,
    pub backup_pool: String,
    pub label: String,
    pub datasets: Vec<String>,
}

/// The pool name of a dataset path: everything before the first `/`, or
/// the whole path when there is none.
pub open spec fn pool_of(s: Seq<char>) -> Seq<char> {
    match s.index_of_first('/') {
        Some(i) => s.subrange(0, i),
        None => s,
    }
}

/// The pool a source dataset lives in.
pub fn get_source_pool_name(dataset_name: &str) -> (r: &str)
    ensures
        r@ == pool_of(dataset_name@),
{
    proof {
        dataset_name@.index_of_first_ensures('/');
    }
    match find_char(dataset_name, '/') {
        Some(i) => {
            proof {
                assert(dataset_name@.index_of_first('/') == Some(i as int));
            }
            dataset_name.substring_char(0, i)
        },
        None => dataset_name,
    }
}

/// The views of a vector of strings, in order.
pub open spec fn string_views(v: Seq<String>) -> Seq<Seq<char>> {
    v.map_values(|x: String| x@)
}

/// The pool of each dataset path, in order.
pub open spec fn dataset_pools(d: Seq<String>) -> Seq<Seq<char>> {
    d.map_values(|x: String| pool_of(x@))
}

/// Appending one element to a sequence adds it to the element set.
proof fn lemma_push_to_set<A>(s: Seq<A>, x: A)
    ensures
        s.push(x).to_set() == s.to_set().insert(x),
{
    broadcast use vstd::set::group_set_axioms;

    assert forall|a: A| s.push(x).to_set().contains(a) implies s.to_set().insert(x).contains(a) by {
        let i = choose|i: int| 0 <= i < s.push(x).len() && s.push(x)[i] == a;
        if i < s.len() {
            assert(s[i] == a);
        }
    }
    assert forall|a: A| s.to_set().insert(x).contains(a) implies s.push(x).to_set().contains(a) by {
        if a == x {
            assert(s.push(x)[s.len() as int] == a);
        } else {
            let i = choose|i: int| 0 <= i < s.len() && s[i] == a;
            assert(s.push(x)[i] == a);
        }
    }
    assert(s.push(x).to_set() =~= s.to_set().insert(x));
}

/// The distinct pools the source datasets live in: each dataset's pool
/// appears, and nothing else, each exactly once.
pub fn get_source_pool_names(datasets: &Vec<String>) -> (r: Vec<String>)
    ensures
        string_views(r@).to_set() == dataset_pools(datasets@).to_set(),
        forall|i1: int, i2: int| 0 <= i1 < i2 < r@.len() ==> r@[i1]@ != r@[i2]@,
{
    broadcast use vstd::set::group_set_axioms;

    let mut pools: Vec<String> = Vec::new();
    let mut k: usize = 0;
    proof {
        assert(string_views(pools@).to_set() =~= dataset_pools(datasets@.subrange(0, 0)).to_set());
    }
    while k < datasets.len()
        invariant
            k <= datasets@.len(),
            string_views(pools@).to_set() == dataset_pools(
                datasets@.subrange(0, k as int),
            ).to_set(),
            forall|i1: int, i2: int| 0 <= i1 < i2 < pools@.len() ==> pools@[i1]@ != pools@[i2]@,
        decreases datasets@.len() - k,
    {
        broadcast use vstd::set::group_set_axioms;

        let pool = get_source_pool_name(datasets[k].as_str());
        let ghost old_pools = pools@;
        let ghost p = pool_of(datasets@[k as int]@);
        let seen = contains_str(&pools, pool);
        if !seen {
            pools.push(pool.to_owned());
            proof {
                assert(string_views(pools@) =~= string_views(old_pools).push(p));
            }
        }
        proof {
            assert(dataset_pools(datasets@.subrange(0, k + 1)) =~= dataset_pools(
                datasets@.subrange(0, k as int),
            ).push(p));
            lemma_push_to_set(dataset_pools(datasets@.subrange(0, k as int)), p);
            if seen {
                let w = choose|i: int| 0 <= i < old_pools.len() && old_pools[i]@ == pool@;
                assert(string_views(old_pools)[w] == p);
                assert(string_views(old_pools).to_set().contains(p));
                assert(dataset_pools(datasets@.subrange(0, k as int)).to_set().insert(p)
                    =~= dataset_pools(datasets@.subrange(0, k as int)).to_set());
            } else {
                lemma_push_to_set(string_views(old_pools), p);
            }
        }
        k = k + 1;
    }
    proof {
        assert(datasets@.subrange(0, datasets@.len() as int) =~= datasets@);
    }
    pools
}

/// The backup-side dataset for a source dataset: the backup pool name,
/// a `/`, and the source dataset path.
pub fn get_backup_dataset(backup_pool_name: &str, source_dataset_name: &str) -> (r: String)
    ensures
        r@ == backup_pool_name@ + seq!['/'] + source_dataset_name@,
{
    let prefix = str_concat(backup_pool_name, "/");
    let r = str_concat(prefix.as_str(), source_dataset_name);
    proof {
        reveal_strlit("/");
        assert("/"@ =~= seq!['/']);
        assert(r@ =~= backup_pool_name@ + seq!['/'] + source_dataset_name@);
    }
    r
}

} // verus!
