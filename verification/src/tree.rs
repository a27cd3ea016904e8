use vstd::prelude::*;
use rand::rngs::StdRng;
use crate::rng::{choose_from, gen_range_inclusive};
use crate::scalar::Scalar;

verus! {

/// A node with a value and its children, in order.
#[derive(Debug)]
pub struct Tree<V> {
    /// The value of the node.
    pub value: V,
    /// The subtrees below the node; none for a leaf.
    pub children: Vec<Tree<V>>,
}

impl<V> Tree<V> {
    /// The number of levels below this node: 0 for a leaf.
    pub open spec fn height(self) -> nat
        decreases self,
    {
        Self::tallest(self.children@, self.children@.len() as int)
    }

    /// One more than the greatest height among the first `n` of `trees`; 0
    /// where `n` is 0.
    pub open spec fn tallest(trees: Seq<Tree<V>>, n: int) -> nat
        decreases trees, n,
    {
        if n <= 0 || n > trees.len() {
            0
        } else {
            let rest = Self::tallest(trees, n - 1);
            let here = trees[n - 1].height() + 1;
            if here > rest { here } else { rest }
        }
    }

    /// `path` leads from this node to a node of the tree: it is empty, or its
    /// first entry is the index of a child and the rest leads on from there.
    pub open spec fn has(self, path: Seq<int>) -> bool
        decreases path.len(),
    {
        path.len() == 0 || {
            &&& 0 <= path[0] < self.children@.len()
            &&& self.children@[path[0]].has(path.drop_first())
        }
    }

    /// The subtree that `path` leads to.
    pub open spec fn at(self, path: Seq<int>) -> Tree<V>
        decreases path.len(),
    {
        if path.len() == 0 {
            self
        } else {
            self.children@[path[0]].at(path.drop_first())
        }
    }

    /// `func` may give `out` when it is applied to every value of `self`: the
    /// two trees have one shape, and each value of `out` is a result of `func`
    /// on the value in the same place.
    pub open spec fn maps_to<F: Fn(&V) -> V>(self, func: F, out: Tree<V>) -> bool
        decreases self,
    {
        &&& func.ensures((&self.value,), out.value)
        &&& out.children@.len() == self.children@.len()
        &&& forall|i: int|
            0 <= i < self.children@.len() ==> (#[trigger] self.children@[i]).maps_to(
                func,
                out.children@[i],
            )
    }

    /// `func` accepts every value of `self`.
    pub open spec fn accepted_by<F: Fn(&V) -> V>(self, func: F) -> bool
        decreases self,
    {
        &&& func.requires((&self.value,))
        &&& forall|i: int|
            0 <= i < self.children@.len() ==> (#[trigger] self.children@[i]).accepted_by(func)
    }

    /// A leaf that holds the default value of `V`.
    pub fn default() -> (tree: Self) where V: Default
        ensures
            tree.children@.len() == 0,
            call_ensures(V::default, (), tree.value),
    {
        Tree { value: V::default(), children: Vec::new() }
    }

    /// The tree of the same shape whose values are those of `self` passed
    /// through `func`, parents before children and children in order.
    pub fn map_nodes<F: Fn(&V) -> V>(&self, func: &F) -> (out: Self)
        requires
            self.accepted_by(*func),
        ensures
            self.maps_to(*func, out),
        decreases self,
    {
        let value = func(&self.value);
        let mut children: Vec<Tree<V>> = Vec::new();
        let mut i: usize = 0;
        while i < self.children.len()
            invariant
                i <= self.children@.len(),
                self.accepted_by(*func),
                children@.len() == i,
                forall|j: int|
                    0 <= j < i ==> (#[trigger] self.children@[j]).maps_to(*func, children@[j]),
            decreases self.children@.len() - i,
        {
            let child = self.children[i].map_nodes(func);
            children.push(child);
            i += 1;
        }
        Tree { value, children }
    }
}

/// A type whose values can be drawn at random under a configuration.
pub trait Random: Sized {
    type Config;

    /// The configurations under which a value may be drawn.
    spec fn admits(config: &Self::Config) -> bool;

    /// What holds of every value drawn under `config`.
    spec fn drawn_under(config: &Self::Config, value: &Self) -> bool;

    /// A value drawn with `rng` under `config`.
    fn random(rng: &mut StdRng, config: &Self::Config) -> (value: Self)
        requires
            Self::admits(config),
        ensures
            Self::drawn_under(config, &value),
    ;
}

/// How random trees are drawn.
#[derive(Clone, Copy, Debug)]
pub struct RandomTreeConfig {
    /// The number of levels below the root that may still be drawn.
    pub depth: i32,
    /// The least number of children of a node above the last level.
    pub min_children: i32,
    /// The greatest number of children of a node above the last level.
    pub max_children: i32,
    /// Reserved for a bound on the values of the nodes; nothing reads it.
    pub max_offset: Scalar,
}

/// `n`, or 0 where `n` is negative: the number of children that a drawn count
/// of `n` gives.
pub open spec fn at_least_zero(n: int) -> nat {
    if n < 0 {
        0
    } else {
        n as nat
    }
}

impl RandomTreeConfig {
    /// The configuration one level further down: the same, with a depth one
    /// less unless the depth is 0.
    pub open spec fn decremented(self) -> RandomTreeConfig {
        if self.depth == 0 {
            self
        } else {
            RandomTreeConfig { depth: (self.depth - 1) as i32, ..self }
        }
    }

    /// The configuration for the children of a node drawn under `self`.
    pub fn decrement_depth(self) -> (next: Self)
        requires
            self.depth > i32::MIN,
        ensures
            next == self.decremented(),
    {
        if self.depth == 0 {
            self
        } else {
            RandomTreeConfig { depth: self.depth - 1, ..self }
        }
    }
}

/// The values of the nodes: -3, -2, -1, 1, 2 and 3.
pub open spec fn node_values() -> Seq<Scalar> {
    seq![
        Scalar { bits: 0xc040_0000 },
        Scalar { bits: 0xc000_0000 },
        Scalar { bits: 0xbf80_0000 },
        Scalar { bits: 0x3f80_0000 },
        Scalar { bits: 0x4000_0000 },
        Scalar { bits: 0x4040_0000 },
    ]
}

impl Random for Scalar {
    type Config = RandomTreeConfig;

    open spec fn admits(config: &RandomTreeConfig) -> bool {
        true
    }

    open spec fn drawn_under(config: &RandomTreeConfig, value: &Scalar) -> bool {
        node_values().contains(*value)
    }

    /// One of the six node values, whatever the configuration.
    fn random(rng: &mut StdRng, config: &RandomTreeConfig) -> (value: Scalar) {
        let values = [
            Scalar { bits: 0xc040_0000 },
            Scalar { bits: 0xc000_0000 },
            Scalar { bits: 0xbf80_0000 },
            Scalar { bits: 0x3f80_0000 },
            Scalar { bits: 0x4000_0000 },
            Scalar { bits: 0x4040_0000 },
        ];
        assert(values@ == node_values());
        choose_from(rng, values.as_slice()).unwrap()
    }
}

/// Under `config` and under every configuration further down, a value of `V`
/// may be drawn, and above the last level the range of the child counts is
/// not empty.
pub open spec fn admits_all_levels<V: Random<Config = RandomTreeConfig>>(
    config: RandomTreeConfig,
) -> bool
    decreases config.depth,
{
    &&& V::admits(&config)
    &&& config.depth > 0 ==> {
        &&& config.min_children <= config.max_children
        &&& admits_all_levels::<V>(config.decremented())
    }
}

/// `tree` is a tree that can be drawn under `config`: every value is one that
/// can be drawn under the configuration of its level; a node above the last
/// level has a number of children that a count between `min_children` and
/// `max_children` gives; a node on the last level, or under a depth that is
/// not positive, is a leaf.
pub open spec fn grown_under<V: Random<Config = RandomTreeConfig>>(
    config: RandomTreeConfig,
    tree: Tree<V>,
) -> bool
    decreases tree,
{
    &&& V::drawn_under(&config, &tree.value)
    &&& if config.depth > 0 {
        &&& at_least_zero(config.min_children as int) <= tree.children@.len() <= at_least_zero(
            config.max_children as int,
        )
        &&& forall|i: int|
            0 <= i < tree.children@.len() ==> grown_under(
                config.decremented(),
                #[trigger] tree.children@[i],
            )
    } else {
        tree.children@.len() == 0
    }
}

impl<V: Random<Config = RandomTreeConfig>> Tree<V> {
    /// A node above the last level, with `value` and the children that a
    /// drawn count of `num_children` gives: that many, each drawn one level
    /// further down, and none where the count is not positive.
    pub fn with_random_children(
        rng: &mut StdRng,
        config: &RandomTreeConfig,
        value: V,
        num_children: i32,
    ) -> (tree: Self)
        requires
            config.depth > 0,
            admits_all_levels::<V>(config.decremented()),
        ensures
            tree.value == value,
            tree.children@.len() == at_least_zero(num_children as int),
            forall|i: int|
                0 <= i < tree.children@.len() ==> grown_under(
                    config.decremented(),
                    #[trigger] tree.children@[i],
                ),
        decreases config.depth, 0int,
    {
        let next = config.decrement_depth();
        let mut children: Vec<Tree<V>> = Vec::new();
        let mut made: i32 = 0;
        while made < num_children
            invariant
                config.depth > 0,
                next == config.decremented(),
                admits_all_levels::<V>(next),
                children@.len() == made,
                0 <= made,
                made <= at_least_zero(num_children as int),
                forall|i: int|
                    0 <= i < children@.len() ==> grown_under(next, #[trigger] children@[i]),
            decreases num_children - made,
        {
            let child = <Tree<V> as Random>::random(rng, &next);
            children.push(child);
            made += 1;
        }
        Tree { value, children }
    }
}

impl<V: Random<Config = RandomTreeConfig>> Random for Tree<V> {
    type Config = RandomTreeConfig;

    open spec fn admits(config: &RandomTreeConfig) -> bool {
        admits_all_levels::<V>(*config)
    }

    open spec fn drawn_under(config: &RandomTreeConfig, tree: &Tree<V>) -> bool {
        grown_under(*config, *tree)
    }

    /// A tree of at most `config.depth` levels below its root. Above the last
    /// level the number of children of each node is drawn between
    /// `min_children` and `max_children`; the count is drawn before the
    /// node's value, and the value before the children.
    fn random(rng: &mut StdRng, config: &RandomTreeConfig) -> (tree: Tree<V>)
        decreases config.depth, 1int,
    {
        if config.depth > 0 {
            let num_children = gen_range_inclusive(rng, config.min_children, config.max_children);
            let value = V::random(rng, config);
            Tree::with_random_children(rng, config, value, num_children)
        } else {
            Tree { value: V::random(rng, config), children: Vec::new() }
        }
    }
}

/// A tree drawn under `config` has at most `config.depth` levels below its
/// root, and none where the depth is not positive.
pub proof fn law_drawn_tree_is_shallow<V: Random<Config = RandomTreeConfig>>(
    config: RandomTreeConfig,
    tree: Tree<V>,
)
    requires
        grown_under(config, tree),
    ensures
        tree.height() <= at_least_zero(config.depth as int),
    decreases tree,
{
    if config.depth > 0 {
        lemma_drawn_trees_are_shallow(config.decremented(), tree.children@, tree.children@.len() as int);
    }
}

proof fn lemma_drawn_trees_are_shallow<V: Random<Config = RandomTreeConfig>>(
    config: RandomTreeConfig,
    trees: Seq<Tree<V>>,
    n: int,
)
    requires
        0 <= n <= trees.len(),
        forall|i: int| 0 <= i < trees.len() ==> grown_under(config, #[trigger] trees[i]),
    ensures
        n == 0 ==> Tree::tallest(trees, n) == 0,
        n > 0 ==> Tree::tallest(trees, n) <= at_least_zero(config.depth as int) + 1,
    decreases trees, n,
{
    if n > 0 {
        lemma_drawn_trees_are_shallow(config, trees, n - 1);
        law_drawn_tree_is_shallow(config, trees[n - 1]);
    }
}

} // verus!
