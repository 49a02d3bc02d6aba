//! String assembly: joining a list of already-stringified values into one
//! string, plainly concatenated or with a single space interposed between
//! successive values. An independent leaf beside the container facility, with
//! no failure modes: every input list yields its join.

use vstd::prelude::*;
use vstd::string::StringExecFns;

verus! {

/// The character sequences of a list of strings.
pub open spec fn views_of(parts: Seq<String>) -> Seq<Seq<char>> {
    parts.map_values(|s: String| s@)
}

/// The parts joined in order with `sep` between successive parts.
pub open spec fn joined(parts: Seq<Seq<char>>, sep: Seq<char>) -> Seq<char>
    decreases parts.len(),
{
    if parts.len() == 0 {
        Seq::empty()
    } else if parts.len() == 1 {
        parts.last()
    } else {
        joined(parts.drop_last(), sep) + sep + parts.last()
    }
}

/// Joining one more part appends the separator (after the first part) and the
/// part itself.
proof fn lemma_joined_step(parts: Seq<Seq<char>>, sep: Seq<char>, i: int)
    requires
        0 <= i < parts.len(),
    ensures
        i == 0 ==> joined(parts.take(1), sep) == parts[0],
        i > 0 ==> joined(parts.take(i + 1), sep) == joined(parts.take(i), sep) + sep + parts[i],
{
    parts.lemma_take_succ_push(i);
    assert(parts.take(i + 1).drop_last() =~= parts.take(i));
    assert(parts.take(i + 1).last() == parts[i]);
}

/// Concatenates the parts in order, with nothing between them.
pub fn assemble(parts: &Vec<String>) -> (r: String)
    ensures
        r@ == joined(views_of(parts@), Seq::<char>::empty()),
{
    let ghost views = views_of(parts@);
    let mut r = String::new();
    let n = parts.len();
    let mut i: usize = 0;
    while i < n
        invariant
            n == parts.len(),
            views == views_of(parts@),
            0 <= i <= n,
            r@ == joined(views.take(i as int), Seq::<char>::empty()),
        decreases n - i,
    {
        r.append(parts[i].as_str());
        proof {
            lemma_joined_step(views, Seq::<char>::empty(), i as int);
            assert(joined(views.take(i as int), Seq::<char>::empty()) + Seq::<char>::empty()
                + views[i as int] =~= joined(views.take(i as int), Seq::<char>::empty())
                + views[i as int]);
            if i == 0 {
                assert(joined(views.take(0), Seq::<char>::empty()) + views[0] =~= views[0]);
            }
        }
        i += 1;
    }
    proof {
        assert(views.take(n as int) =~= views);
    }
    r
}

/// Concatenates the parts in order with a single space between successive
/// parts.
pub fn assemble_spaced(parts: &Vec<String>) -> (r: String)
    ensures
        r@ == joined(views_of(parts@), seq![' ']),
{
    let ghost views = views_of(parts@);
    let mut r = String::new();
    let n = parts.len();
    let mut i: usize = 0;
    while i < n
        invariant
            n == parts.len(),
            views == views_of(parts@),
            0 <= i <= n,
            r@ == joined(views.take(i as int), seq![' ']),
        decreases n - i,
    {
        if i > 0 {
            r.append(" ");
        }
        r.append(parts[i].as_str());
        proof {
            reveal_strlit(" ");
            assert((" ")@ =~= seq![' ']);
            lemma_joined_step(views, seq![' '], i as int);
            if i == 0 {
                assert(joined(views.take(0), seq![' ']) + views[0] =~= views[0]);
            }
        }
        i += 1;
    }
    proof {
        assert(views.take(n as int) =~= views);
    }
    r
}

} // verus!
