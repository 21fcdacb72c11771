//! Touch tracking between frames.
use vstd::prelude::*;

verus! {

/// Where a touch is in its life.
#[derive(Clone, Copy, Debug, PartialEq, Eq, Structural)]
pub enum TouchPhase {
    Started,
    Stationary,
    Moved,
    Ended,
    Cancelled,
}

/// One finger on the screen, at a position of type `P`.
pub struct Touch<P> {
    pub id: u64,
    pub phase: TouchPhase,
    pub position: P,
}

/// The phase that a touch has in the next frame, `None` once it is over.
pub open spec fn next_phase(phase: TouchPhase) -> Option<TouchPhase> {
    match phase {
        TouchPhase::Ended | TouchPhase::Cancelled => None,
        TouchPhase::Started | TouchPhase::Moved => Some(TouchPhase::Stationary),
        TouchPhase::Stationary => Some(TouchPhase::Stationary),
    }
}

/// Whether `after` is `before` at the end of a frame: the touches that ended or were
/// cancelled are gone, the others kept in order, started and moved ones now stationary.
pub open spec fn touches_after_frame<P>(before: Seq<Touch<P>>, after: Seq<Touch<P>>) -> bool {
    let kept = before.filter(|t: Touch<P>| next_phase(t.phase) is Some);
    &&& after.len() == kept.len()
    &&& forall|i: int| 0 <= i < after.len() ==> {
        &&& (#[trigger] after[i]).id == kept[i].id
        &&& after[i].position == kept[i].position
        &&& Some(after[i].phase) == next_phase(kept[i].phase)
    }
}

/// The phase that a touch has in the next frame, `None` once it is over.
pub fn phase_after_frame(phase: TouchPhase) -> (r: Option<TouchPhase>)
    ensures
        r == next_phase(phase),
{
    match phase {
        TouchPhase::Ended | TouchPhase::Cancelled => None,
        _ => Some(TouchPhase::Stationary),
    }
}

/// Ends a frame for the touches: drops those that ended or were cancelled and makes
/// the started and moved ones stationary.
pub fn end_frame_touches<P>(touches: &mut Vec<Touch<P>>)
    ensures
        touches_after_frame(old(touches)@, final(touches)@),
{
    let ghost before = touches@;
    let mut rest: Vec<Touch<P>> = Vec::new();
    std::mem::swap(&mut rest, touches);
    let mut kept: Vec<Touch<P>> = Vec::new();
    let mut k: usize = 0;
    let n = rest.len();
    // take the touches from the back, to move them out one by one
    let mut backwards: Vec<Touch<P>> = Vec::new();
    while rest.len() > 0
        invariant
            n == before.len(),
            rest@.len() + backwards@.len() == n,
            rest@ == before.subrange(0, rest@.len() as int),
            forall|i: int| 0 <= i < backwards@.len() ==> #[trigger] backwards@[i] == before[n - 1 - i],
        decreases rest@.len(),
    {
        let t = rest.pop().unwrap();
        backwards.push(t);
        assert(rest@ =~= before.subrange(0, rest@.len() as int));
    }
    while backwards.len() > 0
        invariant
            n == before.len(),
            k + backwards@.len() == n,
            forall|i: int| 0 <= i < backwards@.len() ==> #[trigger] backwards@[i] == before[n - 1 - i],
            touches_after_frame(before.subrange(0, k as int), kept@),
        decreases backwards@.len(),
    {
        let t = backwards.pop().unwrap();
        assert(t == before[k as int]);
        let ghost prefix = before.subrange(0, k as int);
        let ghost old_kept = kept@;
        proof {
            assert(before.subrange(0, k + 1) =~= prefix.push(t));
            prefix.lemma_filter_push(t, |t: Touch<P>| next_phase(t.phase) is Some);
        }
        let ghost filtered = prefix.filter(|t: Touch<P>| next_phase(t.phase) is Some);
        match phase_after_frame(t.phase) {
            Some(phase) => {
                kept.push(Touch { id: t.id, phase, position: t.position });
                proof {
                    let f2 = prefix.push(t).filter(|t: Touch<P>| next_phase(t.phase) is Some);
                    assert(f2 == filtered.push(t));
                    assert forall|i: int| 0 <= i < kept@.len() implies {
                        &&& (#[trigger] kept@[i]).id == f2[i].id
                        &&& kept@[i].position == f2[i].position
                        &&& Some(kept@[i].phase) == next_phase(f2[i].phase)
                    } by {
                        if i < old_kept.len() {
                            assert(kept@[i] == old_kept[i]);
                            assert(f2[i] == filtered[i]);
                        }
                    }
                }
            },
            None => {
                proof {
                    let f2 = prefix.push(t).filter(|t: Touch<P>| next_phase(t.phase) is Some);
                    assert(f2 == filtered);
                }
            },
        }
        k = k + 1;
    }
    assert(before.subrange(0, n as int) =~= before);
    *touches = kept;
}


/// After a frame ends, every touch left is stationary: ended and cancelled touches
/// are gone, started and moved ones have settled.
pub proof fn law_touches_settle<P>(before: Seq<Touch<P>>, after: Seq<Touch<P>>)
    requires
        touches_after_frame(before, after),
    ensures
        forall|i: int| 0 <= i < after.len() ==> (#[trigger] after[i]).phase == TouchPhase::Stationary,
{
    let kept = before.filter(|t: Touch<P>| next_phase(t.phase) is Some);
    assert forall|i: int| 0 <= i < after.len() implies (#[trigger] after[i]).phase == TouchPhase::Stationary by {
        assert(Some(after[i].phase) == next_phase(kept[i].phase));
    }
}

} // verus!
