//! The pair-iterable normalizer.
//!
//! [`mapper`] folds a list of key-value pairs into a [`Container`] in a single
//! pass over the source, in order, with later pairs overwriting earlier ones
//! on an equal key. [`normalize`] is the same operation under the name the
//! construction facility uses for its bulk path.

use vstd::prelude::*;
use crate::container::{Container, eq_agrees, map_of};

verus! {

/// Folds an ordered list of key-value pairs into a container.
///
/// The source is consumed once, in its natural order; for pairs sharing a key
/// the latest one wins, so the resulting container's model is exactly
/// [`map_of`] of the source.
pub fn mapper<K: PartialEq, V>(pairs: Vec<(K, V)>) -> (c: Container<K, V>)
    requires
        eq_agrees::<K>(),
    ensures
        c.wf(),
        c@ == map_of(pairs@),
{
    let ghost src = pairs@;
    let mut c = Container::new();
    let mut rest = pairs;
    let ghost mut i: int = 0;
    while rest.len() > 0
        invariant
            0 <= i <= src.len(),
            rest@ == src.skip(i),
            eq_agrees::<K>(),
            c.wf(),
            c@ == map_of(src.take(i)),
        decreases rest.len(),
    {
        let (k, v) = rest.remove(0);
        proof {
            assert(src.skip(i)[0] == src[i]);
            assert(src.skip(i).remove(0) =~= src.skip(i + 1));
        }
        c.insert(k, v);
        proof {
            src.lemma_take_succ_push(i);
            crate::container::lemma_map_of_push(src.take(i), src[i].0, src[i].1);
            i = i + 1;
        }
    }
    proof {
        assert(src.take(i) =~= src);
    }
    c
}

/// Normalizes one iterable of pairs into a container: the bulk path of the
/// construction facility, also usable on its own. Identical to [`mapper`].
pub fn normalize<K: PartialEq, V>(source: Vec<(K, V)>) -> (c: Container<K, V>)
    requires
        eq_agrees::<K>(),
    ensures
        c.wf(),
        c@ == map_of(source@),
{
    mapper(source)
}

} // verus!
