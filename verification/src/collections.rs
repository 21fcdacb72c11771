use vstd::prelude::*;

pub mod magic_vec;

verus! {

/// The number of `Some` entries in `s`.
pub open spec fn count_some<A>(s: Seq<Option<A>>) -> nat
    decreases s.len(),
{
    if s.len() == 0 {
        0
    } else {
        count_some(s.drop_last()) + if s.last() is Some {
            1nat
        } else {
            0nat
        }
    }
}

/// Replacing one entry changes the count by what that entry changes.
pub proof fn lemma_count_some_update<A>(s: Seq<Option<A>>, i: int, v: Option<A>)
    requires
        0 <= i < s.len(),
    ensures
        count_some(s.update(i, v)) + (if s[i] is Some { 1int } else { 0int })
            == count_some(s) + (if v is Some { 1int } else { 0int }),
    decreases s.len(),
{
    let t = s.update(i, v);
    if i < s.len() - 1 {
        assert(t.drop_last() =~= s.drop_last().update(i, v));
        lemma_count_some_update(s.drop_last(), i, v);
    } else {
        assert(t.drop_last() =~= s.drop_last());
    }
}

/// Appending an entry adds one to the count when it is `Some`.
pub proof fn lemma_count_some_push<A>(s: Seq<Option<A>>, v: Option<A>)
    ensures
        count_some(s.push(v)) == count_some(s) + (if v is Some { 1nat } else { 0nat }),
{
    assert(s.push(v).drop_last() =~= s);
}

/// The count never exceeds the length.
pub proof fn lemma_count_some_le_len<A>(s: Seq<Option<A>>)
    ensures
        count_some(s) <= s.len(),
    decreases s.len(),
{
    if s.len() > 0 {
        lemma_count_some_le_len(s.drop_last());
    }
}

} // verus!
