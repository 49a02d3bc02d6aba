//! The laws of the construction facility, stated over its models.
//!
//! Each proof function here writes down one property that holds of every
//! construction call: the empty call yields the empty container, the latest
//! entry for a key always wins, every notation for the same entries yields the
//! same container, merging bulk sources layers the later source over the
//! earlier, and normalizing an already normalized container changes nothing.

use vstd::prelude::*;
use crate::builder::{
    Arg, BuildError, Separator, arg_pairs, build_spec, entries_of,
};
use crate::container::{Container, lemma_map_of_concat, map_of};

verus! {

/// Every argument written as `key[value]`, one per pair, in order.
pub open spec fn bracket_form<K, V>(pairs: Seq<(K, V)>) -> Seq<Arg<K, V>> {
    pairs.map_values(|p: (K, V)| Arg::Bracketed(p.0, p.1))
}

/// Every argument written as `key SEP value`, one per pair, in order, with
/// any choice of separator for each.
pub open spec fn separator_form<K, V>(pairs: Seq<(K, V)>, seps: Seq<Separator>) -> Seq<
    Arg<K, V>,
> {
    Seq::new(pairs.len(), |i: int| Arg::Separated(pairs[i].0, pairs[i].1, seps[i]))
}

/// An empty construction call yields the empty container, whatever the key
/// and value types.
pub proof fn lemma_empty_build<K, V>()
    ensures
        build_spec(Seq::<Arg<K, V>>::empty()) == Ok::<Map<K, V>, BuildError>(Map::empty()),
{
}

/// Last write wins: among the entries of a source, the one that carries a key
/// latest determines the value the fold stores for that key.
pub proof fn lemma_last_write_wins<K, V>(s: Seq<(K, V)>, i: int)
    requires
        0 <= i < s.len(),
        forall|j: int| i < j < s.len() ==> (#[trigger] s[j]).0 != s[i].0,
    ensures
        map_of(s).contains_key(s[i].0),
        map_of(s)[s[i].0] == s[i].1,
    decreases s.len(),
{
    if i < s.len() - 1 {
        assert forall|j: int| i < j < s.drop_last().len() implies (#[trigger] s.drop_last()[j]).0
            != s.drop_last()[i].0 by {
            assert(s.drop_last()[j] == s[j]);
        }
        assert(s.drop_last()[i] == s[i]);
        lemma_last_write_wins(s.drop_last(), i);
        assert(s.last().0 != s[i].0);
    }
}

/// A single argument contributes exactly its own pairs.
proof fn lemma_entries_of_singleton<K, V>(a: Arg<K, V>)
    ensures
        entries_of(seq![a]) == arg_pairs(a),
{
    assert(seq![a].drop_last() =~= Seq::<Arg<K, V>>::empty());
    assert(entries_of(Seq::<Arg<K, V>>::empty()) == Seq::<(K, V)>::empty());
    assert(seq![a].last() == a);
    assert(entries_of(seq![a]) == Seq::<(K, V)>::empty() + arg_pairs(a));
    assert(Seq::<(K, V)>::empty() + arg_pairs(a) =~= arg_pairs(a));
}

/// A list of direct arguments, each contributing exactly one pair, contributes
/// exactly the list of those pairs.
proof fn lemma_direct_entries<K, V>(args: Seq<Arg<K, V>>, pairs: Seq<(K, V)>)
    requires
        args.len() == pairs.len(),
        forall|i: int| 0 <= i < args.len() ==> arg_pairs(#[trigger] args[i]) == seq![pairs[i]],
    ensures
        entries_of(args) == pairs,
    decreases args.len(),
{
    if args.len() > 0 {
        assert forall|i: int| 0 <= i < args.drop_last().len() implies arg_pairs(
            #[trigger] args.drop_last()[i],
        ) == seq![pairs.drop_last()[i]] by {
            assert(args.drop_last()[i] == args[i]);
            assert(pairs.drop_last()[i] == pairs[i]);
        }
        lemma_direct_entries(args.drop_last(), pairs.drop_last());
        assert(arg_pairs(args.last()) == seq![pairs.last()]);
        assert(entries_of(args) =~= pairs.drop_last() + seq![pairs.last()]);
        assert(pairs.drop_last() + seq![pairs.last()] =~= pairs);
    } else {
        assert(entries_of(args) =~= pairs);
    }
}

/// Form equivalence: for one list of pairs, the bracket form, the separator
/// form with any choice of separators, and a single bulk iterable of the same
/// pairs all construct the same container.
pub proof fn lemma_form_equivalence<K, V>(pairs: Vec<(K, V)>, seps: Seq<Separator>)
    requires
        seps.len() == pairs@.len(),
    ensures
        build_spec(bracket_form(pairs@)) == Ok::<Map<K, V>, BuildError>(map_of(pairs@)),
        build_spec(separator_form(pairs@, seps)) == Ok::<Map<K, V>, BuildError>(map_of(pairs@)),
        build_spec(seq![Arg::Bulk(pairs)]) == Ok::<Map<K, V>, BuildError>(map_of(pairs@)),
{
    let brs = bracket_form(pairs@);
    let sps = separator_form(pairs@, seps);
    let blk = seq![Arg::<K, V>::Bulk(pairs)];
    assert forall|i: int| 0 <= i < brs.len() implies arg_pairs(#[trigger] brs[i]) == seq![
        pairs@[i],
    ] by {
        assert(brs[i] == Arg::<K, V>::Bracketed(pairs@[i].0, pairs@[i].1));
        assert(seq![(pairs@[i].0, pairs@[i].1)] =~= seq![pairs@[i]]);
    }
    lemma_direct_entries(brs, pairs@);
    assert forall|i: int| 0 <= i < sps.len() implies arg_pairs(#[trigger] sps[i]) == seq![
        pairs@[i],
    ] by {
        assert(sps[i] == Arg::<K, V>::Separated(pairs@[i].0, pairs@[i].1, seps[i]));
        assert(seq![(pairs@[i].0, pairs@[i].1)] =~= seq![pairs@[i]]);
    }
    lemma_direct_entries(sps, pairs@);
    if pairs@.len() > 0 {
        assert(brs[0] is Bracketed);
        assert(sps[0] is Separated);
        assert(!(sps[0] is Bracketed));
    }
    lemma_entries_of_singleton(Arg::<K, V>::Bulk(pairs));
    assert(entries_of(blk) =~= pairs@);
    assert(!(blk[0] is Bracketed));
    assert(!(blk[0] is Separated));
    assert(blk[0] is Bulk);
}

/// Merging two bulk sources builds the first source's container and lets the
/// second source's entries overwrite it on key collisions.
pub proof fn lemma_bulk_merge<K, V>(a: Vec<(K, V)>, b: Vec<(K, V)>)
    ensures
        build_spec(seq![Arg::Bulk(a), Arg::Bulk(b)]) == Ok::<Map<K, V>, BuildError>(
            map_of(a@).union_prefer_right(map_of(b@)),
        ),
{
    let args = seq![Arg::<K, V>::Bulk(a), Arg::<K, V>::Bulk(b)];
    assert(args.drop_last() =~= seq![Arg::<K, V>::Bulk(a)]);
    lemma_entries_of_singleton(Arg::<K, V>::Bulk(a));
    assert(entries_of(seq![Arg::<K, V>::Bulk(a)]) =~= a@);
    assert(entries_of(args) =~= a@ + b@);
    lemma_map_of_concat(a@, b@);
    assert(args[0] is Bulk);
    assert(args[1] is Bulk);
    assert forall|i: int| 0 <= i < args.len() implies (#[trigger] args[i]) is Bulk by {
        if i == 0 {
        } else {
            assert(i == 1);
        }
    }
    assert(!(args[0] is Bracketed));
    assert(!(args[0] is Separated));
}

/// Normalization is idempotent: a container whose model is the fold of some
/// source folds, through its own entries, back to the very same model.
pub proof fn lemma_normalize_idempotent<K: PartialEq, V>(c: Container<K, V>, source: Seq<(K, V)>)
    requires
        c.wf(),
        c@ == map_of(source),
    ensures
        map_of(c.pairs()) == map_of(source),
{
    c.lemma_pairs_agree();
}

} // verus!
