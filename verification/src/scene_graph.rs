//! Handles on the models and cameras of a scene, and changes made through them.
use vstd::prelude::*;
use crate::chars::same_text;
pub use crate::scene::Transform;

verus! {

/// A named part of a model, placed by its own transform.
pub struct Node<T> {
    pub name: String,
    pub transform: T,
}

/// A model: its nodes, in order.
pub struct Model<T> {
    pub nodes: Vec<Node<T>>,
}

/// Whether `after` is `before` with `f` applied to the transform of each node
/// called `name`, the other nodes left as they were.
pub open spec fn children_updated<T, F: Fn(T) -> T>(
    before: Seq<Node<T>>,
    after: Seq<Node<T>>,
    name: Seq<char>,
    f: F,
) -> bool {
    &&& after.len() == before.len()
    &&& forall|i: int| 0 <= i < after.len() ==> {
        &&& (#[trigger] after[i]).name@ == before[i].name@
        &&& if before[i].name@ == name {
            call_ensures(f, (before[i].transform,), after[i].transform)
        } else {
            after[i].transform == before[i].transform
        }
    }
}

/// Applies `f` to the transform of each node called `name`.
fn update_nodes<T, F: Fn(T) -> T>(nodes: Vec<Node<T>>, name: &str, f: &F) -> (r: Vec<Node<T>>)
    requires
        forall|t: T| call_requires(*f, (t,)),
    ensures
        children_updated(nodes@, r@, name@, *f),
{
    let ghost before = nodes@;
    let n = nodes.len();
    let mut rest = nodes;
    let mut backwards: Vec<Node<T>> = Vec::new();
    while rest.len() > 0
        invariant
            n == before.len(),
            rest@.len() + backwards@.len() == n,
            rest@ == before.subrange(0, rest@.len() as int),
            forall|i: int| 0 <= i < backwards@.len() ==> #[trigger] backwards@[i] == before[n - 1 - i],
        decreases rest@.len(),
    {
        let node = rest.pop().unwrap();
        backwards.push(node);
        assert(rest@ =~= before.subrange(0, rest@.len() as int));
    }
    let mut out: Vec<Node<T>> = Vec::new();
    let mut k: usize = 0;
    while backwards.len() > 0
        invariant
            n == before.len(),
            k + backwards@.len() == n,
            forall|t: T| call_requires(*f, (t,)),
            forall|i: int| 0 <= i < backwards@.len() ==> #[trigger] backwards@[i] == before[n - 1 - i],
            children_updated(before.subrange(0, k as int), out@, name@, *f),
        decreases backwards@.len(),
    {
        let node = backwards.pop().unwrap();
        assert(node == before[k as int]);
        let ghost old_out = out@;
        let Node { name: node_name, transform } = node;
        if same_text(node_name.as_str(), name) {
            let t = f(transform);
            out.push(Node { name: node_name, transform: t });
        } else {
            out.push(Node { name: node_name, transform });
        }
        proof {
            let prefix = before.subrange(0, k + 1);
            assert forall|i: int| 0 <= i < out@.len() implies {
                &&& (#[trigger] out@[i]).name@ == prefix[i].name@
                &&& if prefix[i].name@ == name@ {
                    call_ensures(*f, (prefix[i].transform,), out@[i].transform)
                } else {
                    out@[i].transform == prefix[i].transform
                }
            } by {
                if i < k {
                    assert(out@[i] == old_out[i]);
                    assert(prefix[i] == before.subrange(0, k as int)[i]);
                }
            }
        }
        k = k + 1;
    }
    assert(before.subrange(0, n as int) =~= before);
    out
}

/// The number of a model in the scene's list of models, each held with its transform.
pub struct ModelHandle(pub usize);

impl ModelHandle {
    /// Where the model is.
    pub fn translation<M, V: Copy, Q>(&self, models: &Vec<(M, Transform<V, Q>)>) -> (v: V)
        requires
            self.0 < models@.len(),
        ensures
            v == models@[self.0 as int].1.translation,
    {
        models[self.0].1.translation
    }

    /// How the model is turned.
    pub fn rotation<M, V, Q: Copy>(&self, models: &Vec<(M, Transform<V, Q>)>) -> (q: Q)
        requires
            self.0 < models@.len(),
        ensures
            q == models@[self.0 as int].1.rotation,
    {
        models[self.0].1.rotation
    }

    /// Changes the model's transform by `f`.
    pub fn update<M, T, F: Fn(T) -> T>(&self, models: &mut Vec<(M, T)>, f: F)
        requires
            self.0 < old(models)@.len(),
            forall|t: T| call_requires(f, (t,)),
        ensures
            final(models)@.len() == old(models)@.len(),
            final(models)@[self.0 as int].0 == old(models)@[self.0 as int].0,
            call_ensures(f, (old(models)@[self.0 as int].1,), final(models)@[self.0 as int].1),
            forall|i: int| 0 <= i < old(models)@.len() && i != self.0 ==> #[trigger] final(models)@[i] == old(models)@[i],
    {
        let (model, t) = models.remove(self.0);
        let t = f(t);
        models.insert(self.0, (model, t));
    }

    /// Changes by `f` the transform of each node of the model that is called `name`.
    pub fn update_child<T, F: Fn(T) -> T>(&self, models: &mut Vec<(Model<T>, T)>, name: &str, f: F)
        requires
            self.0 < old(models)@.len(),
            forall|t: T| call_requires(f, (t,)),
        ensures
            final(models)@.len() == old(models)@.len(),
            final(models)@[self.0 as int].1 == old(models)@[self.0 as int].1,
            children_updated(old(models)@[self.0 as int].0.nodes@, final(models)@[self.0 as int].0.nodes@, name@, f),
            forall|i: int| 0 <= i < old(models)@.len() && i != self.0 ==> #[trigger] final(models)@[i] == old(models)@[i],
    {
        let (model, t) = models.remove(self.0);
        let nodes = update_nodes(model.nodes, name, &f);
        models.insert(self.0, (Model { nodes }, t));
    }
}

/// The number of a camera in the scene's list of cameras.
pub struct CameraHandle(pub usize);

impl CameraHandle {
    /// Changes the camera by `f`.
    pub fn update<C, F: Fn(C) -> C>(&self, cameras: &mut Vec<C>, f: F)
        requires
            self.0 < old(cameras)@.len(),
            forall|c: C| call_requires(f, (c,)),
        ensures
            final(cameras)@.len() == old(cameras)@.len(),
            call_ensures(f, (old(cameras)@[self.0 as int],), final(cameras)@[self.0 as int]),
            forall|i: int| 0 <= i < old(cameras)@.len() && i != self.0 ==> #[trigger] final(cameras)@[i] == old(cameras)@[i],
    {
        let c = cameras.remove(self.0);
        let c = f(c);
        cameras.insert(self.0, c);
    }
}

/// Updating the children called `name` touches exactly the nodes whose name equals
/// `name`: every node keeps its name and place, a node with another name (one that
/// merely starts or ends like `name` too) keeps its transform, and a node called
/// `name` gets what `f` makes of its transform.
pub proof fn law_update_touches_exactly_the_named_nodes<T, F: Fn(T) -> T>(
    before: Seq<Node<T>>,
    after: Seq<Node<T>>,
    name: Seq<char>,
    f: F,
)
    requires
        children_updated(before, after, name, f),
    ensures
        after.len() == before.len(),
        forall|i: int| 0 <= i < before.len() ==> (#[trigger] after[i]).name@ == before[i].name@,
        forall|i: int|
            0 <= i < before.len() && before[i].name@ != name ==> (#[trigger] after[i]).transform == before[i].transform,
        forall|i: int|
            0 <= i < before.len() && before[i].name@ == name ==> call_ensures(
                f,
                (before[i].transform,),
                (#[trigger] after[i]).transform,
            ),
{
}

} // verus!
