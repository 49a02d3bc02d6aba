//! The syntax-form dispatcher.
//!
//! A construction call supplies zero or more arguments, each written in one of
//! the recognized notations, modelled by [`Arg`]: a key with its value in
//! brackets, a key and value joined by one of four interchangeable separators,
//! or a whole iterable of pairs. [`build`] classifies the argument list
//! against the interpretation rules in a fixed precedence order — empty call,
//! bracket form, separator form, bulk form — and folds the entries of the
//! first rule whose shape the whole list matches into one
//! [`Container`](crate::container::Container); a list that matches no rule is
//! rejected whole, and no partial container is ever produced.

use vstd::prelude::*;
use crate::container::{Container, eq_agrees, lemma_map_of_concat, lemma_map_of_push, map_of};
use crate::helpers::normalize;

verus! {

/// The separator written between a key and its value in the separator form.
/// All four are interchangeable and purely cosmetic.
#[derive(Clone, Copy, Debug, PartialEq, Eq, Structural)]
pub enum Separator {
    /// Key and value stand side by side with nothing between them.
    Juxtaposed,
    /// `key: value`
    Colon,
    /// `key -> value`
    Arrow,
    /// `key => value`
    FatArrow,
}

/// One argument of a construction call, in the notation the caller wrote.
pub enum Arg<K, V> {
    /// `key[value]`: the value stands in brackets after the key.
    Bracketed(K, V),
    /// `key SEP value`: key and value joined by one of the separators.
    Separated(K, V, Separator),
    /// A single expression that is itself an iterable of key-value pairs.
    Bulk(Vec<(K, V)>),
}

/// Why a construction call was rejected.
#[derive(Clone, Copy, Debug, PartialEq, Eq, Structural)]
pub enum BuildError {
    /// The argument list matches none of the recognized interpretation rules:
    /// its arguments do not all share one shape.
    ShapeMismatch,
}

/// The entries one argument contributes, in order.
pub open spec fn arg_pairs<K, V>(a: Arg<K, V>) -> Seq<(K, V)> {
    match a {
        Arg::Bracketed(k, v) => seq![(k, v)],
        Arg::Separated(k, v, _) => seq![(k, v)],
        Arg::Bulk(pairs) => pairs@,
    }
}

/// All entries of an argument list, in argument order.
pub open spec fn entries_of<K, V>(args: Seq<Arg<K, V>>) -> Seq<(K, V)>
    decreases args.len(),
{
    if args.len() == 0 {
        Seq::empty()
    } else {
        entries_of(args.drop_last()) + arg_pairs(args.last())
    }
}

/// Every argument is written in the bracket form.
pub open spec fn all_bracketed<K, V>(args: Seq<Arg<K, V>>) -> bool {
    forall|i: int| 0 <= i < args.len() ==> (#[trigger] args[i]) is Bracketed
}

/// Every argument is written in the separator form.
pub open spec fn all_separated<K, V>(args: Seq<Arg<K, V>>) -> bool {
    forall|i: int| 0 <= i < args.len() ==> (#[trigger] args[i]) is Separated
}

/// Every argument is an iterable of pairs.
pub open spec fn all_bulk<K, V>(args: Seq<Arg<K, V>>) -> bool {
    forall|i: int| 0 <= i < args.len() ==> (#[trigger] args[i]) is Bulk
}

/// What a construction call returns: the interpretation rules are tried in
/// precedence order — empty call, bracket form, separator form, bulk form —
/// and the first one the whole argument list matches wins. Under each rule
/// the entries are folded in order with last write winning; a list that
/// matches no rule is rejected.
pub open spec fn build_spec<K, V>(args: Seq<Arg<K, V>>) -> Result<Map<K, V>, BuildError> {
    if args.len() == 0 {
        Ok(Map::empty())
    } else if all_bracketed(args) {
        Ok(map_of(entries_of(args)))
    } else if all_separated(args) {
        Ok(map_of(entries_of(args)))
    } else if all_bulk(args) {
        Ok(map_of(entries_of(args)))
    } else {
        Err(BuildError::ShapeMismatch)
    }
}

/// Builds a container from one construction call's argument list, selecting
/// the interpretation rule as [`build_spec`] describes. Either every argument
/// is interpreted and a fully formed container is returned, or the whole call
/// is rejected and nothing is.
pub fn build<K: PartialEq, V>(args: Vec<Arg<K, V>>) -> (r: Result<Container<K, V>, BuildError>)
    requires
        eq_agrees::<K>(),
    ensures
        r matches Ok(c) ==> c.wf() && build_spec(args@) == Ok::<Map<K, V>, BuildError>(c@),
        r matches Err(e) ==> build_spec(args@) == Err::<Map<K, V>, BuildError>(e),
{
    let ghost all = args@;
    let n = args.len();
    if n == 0 {
        return Ok(Container::new());
    }
    let mut br = true;
    let mut sep = true;
    let mut blk = true;
    let mut i: usize = 0;
    while i < n
        invariant
            n == args.len(),
            args@ == all,
            0 <= i <= n,
            br <==> (forall|j: int| 0 <= j < i ==> (#[trigger] all[j]) is Bracketed),
            sep <==> (forall|j: int| 0 <= j < i ==> (#[trigger] all[j]) is Separated),
            blk <==> (forall|j: int| 0 <= j < i ==> (#[trigger] all[j]) is Bulk),
        decreases n - i,
    {
        match &args[i] {
            Arg::Bracketed(_, _) => {
                sep = false;
                blk = false;
            },
            Arg::Separated(_, _, _) => {
                br = false;
                blk = false;
            },
            Arg::Bulk(_) => {
                br = false;
                sep = false;
            },
        }
        i += 1;
    }
    if !br && !sep && !blk {
        return Err(BuildError::ShapeMismatch);
    }
    let mut c = Container::new();
    let mut rest = args;
    let ghost mut k: int = 0;
    while rest.len() > 0
        invariant
            0 <= k <= all.len(),
            rest@ == all.skip(k),
            eq_agrees::<K>(),
            c.wf(),
            c@ == map_of(entries_of(all.take(k))),
        decreases rest.len(),
    {
        let arg = rest.remove(0);
        proof {
            assert(all.skip(k)[0] == all[k]);
            assert(all.skip(k).remove(0) =~= all.skip(k + 1));
            all.lemma_take_succ_push(k);
            assert(all.take(k).push(all[k]).drop_last() =~= all.take(k));
            assert(entries_of(all.take(k + 1)) == entries_of(all.take(k)) + arg_pairs(all[k]));
        }
        match arg {
            Arg::Bracketed(key, value) => {
                proof {
                    assert(entries_of(all.take(k)) + arg_pairs(all[k]) =~= entries_of(
                        all.take(k),
                    ).push((key, value)));
                    lemma_map_of_push(entries_of(all.take(k)), key, value);
                }
                c.insert(key, value);
            },
            Arg::Separated(key, value, _) => {
                proof {
                    assert(entries_of(all.take(k)) + arg_pairs(all[k]) =~= entries_of(
                        all.take(k),
                    ).push((key, value)));
                    lemma_map_of_push(entries_of(all.take(k)), key, value);
                }
                c.insert(key, value);
            },
            Arg::Bulk(pairs) => {
                proof {
                    lemma_map_of_concat(entries_of(all.take(k)), pairs@);
                }
                let part = normalize(pairs);
                c.absorb(part);
            },
        }
        proof {
            k = k + 1;
        }
    }
    proof {
        assert(all.take(k) =~= all);
    }
    Ok(c)
}

} // verus!
