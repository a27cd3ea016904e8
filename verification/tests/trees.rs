use fractal_lines::scalar::Scalar;
use fractal_lines::tree::{Random, RandomTreeConfig, Tree};
use rand::rngs::StdRng;
use rand::SeedableRng;

fn config(depth: i32, min_children: i32, max_children: i32) -> RandomTreeConfig {
    RandomTreeConfig {
        depth,
        min_children,
        max_children,
        max_offset: Scalar { bits: std::f32::consts::TAU.to_bits() },
    }
}

fn height<V>(tree: &Tree<V>) -> usize {
    tree.children.iter().map(|c| 1 + height(c)).max().unwrap_or(0)
}

fn size<V>(tree: &Tree<V>) -> usize {
    1 + tree.children.iter().map(size).sum::<usize>()
}

fn values(tree: &Tree<Scalar>, into: &mut Vec<f32>) {
    into.push(f32::from_bits(tree.value.bits));
    for child in tree.children.iter() {
        values(child, into);
    }
}

/// The numbers of children of the nodes with `levels` levels still to draw
/// below them, and whether every node at the last level is a leaf.
fn counts(tree: &Tree<Scalar>, levels: i32, into: &mut Vec<usize>) -> bool {
    if levels <= 0 {
        return tree.children.is_empty();
    }
    into.push(tree.children.len());
    tree.children.iter().all(|c| counts(c, levels - 1, into))
}

fn same<V: PartialEq>(a: &Tree<V>, b: &Tree<V>) -> bool {
    a.value == b.value
        && a.children.len() == b.children.len()
        && a.children.iter().zip(b.children.iter()).all(|(x, y)| same(x, y))
}

#[test]
fn default_is_a_leaf_with_the_default_value() {
    let tree: Tree<i32> = Tree::default();
    assert_eq!(tree.value, 0);
    assert!(tree.children.is_empty());
    let tree: Tree<String> = Tree::default();
    assert_eq!(tree.value, "");
    assert!(tree.children.is_empty());
}

#[test]
fn map_nodes_keeps_the_shape_and_maps_each_value() {
    let tree = Tree {
        value: 1,
        children: vec![
            Tree { value: 2, children: vec![Tree { value: 4, children: vec![] }] },
            Tree { value: 3, children: vec![] },
        ],
    };
    let mapped = tree.map_nodes(&|v: &i32| *v * 10 + 1);
    let expected = Tree {
        value: 11,
        children: vec![
            Tree { value: 21, children: vec![Tree { value: 41, children: vec![] }] },
            Tree { value: 31, children: vec![] },
        ],
    };
    assert!(same(&mapped, &expected));
    assert_eq!(tree.value, 1);
}

#[test]
fn map_nodes_visits_parents_first_and_children_in_order() {
    let tree = Tree {
        value: 'a',
        children: vec![
            Tree { value: 'b', children: vec![Tree { value: 'c', children: vec![] }] },
            Tree { value: 'd', children: vec![] },
        ],
    };
    let seen = std::cell::RefCell::new(String::new());
    let mapped = tree.map_nodes(&|v: &char| {
        seen.borrow_mut().push(*v);
        v.to_ascii_uppercase()
    });
    assert_eq!(seen.into_inner(), "abcd");
    assert_eq!(mapped.children[0].children[0].value, 'C');
}

#[test]
fn map_nodes_on_a_leaf() {
    let leaf: Tree<u8> = Tree::default();
    let mapped = leaf.map_nodes(&|v: &u8| *v + 7);
    assert_eq!(mapped.value, 7);
    assert!(mapped.children.is_empty());
}

#[test]
fn decrement_depth_stops_at_zero() {
    let next = config(7, 2, 3).decrement_depth();
    assert_eq!(next.depth, 6);
    assert_eq!(next.min_children, 2);
    assert_eq!(next.max_children, 3);
    assert_eq!(next.max_offset, Scalar { bits: std::f32::consts::TAU.to_bits() });
    assert_eq!(config(1, 2, 3).decrement_depth().depth, 0);
    assert_eq!(config(0, 2, 3).decrement_depth().depth, 0);
    assert_eq!(config(-4, 2, 3).decrement_depth().depth, -5);
}

#[test]
fn random_scalar_is_one_of_the_six_values() {
    let mut rng = StdRng::seed_from_u64(11);
    let allowed = [-3.0f32, -2.0, -1.0, 1.0, 2.0, 3.0];
    let mut seen = [false; 6];
    for _ in 0..600 {
        let value = f32::from_bits(Scalar::random(&mut rng, &config(0, 0, 0)).bits);
        let place = allowed.iter().position(|a| *a == value);
        assert!(place.is_some(), "{}", value);
        seen[place.unwrap()] = true;
    }
    assert_eq!(seen, [true; 6]);
}

#[test]
fn random_tree_stays_within_depth_and_child_counts() {
    for seed in 0..20u64 {
        let mut rng = StdRng::seed_from_u64(seed);
        let tree = Tree::<Scalar>::random(&mut rng, &config(5, 2, 3));
        assert_eq!(height(&tree), 5);
        let mut seen: Vec<usize> = Vec::new();
        assert!(counts(&tree, 5, &mut seen));
        assert!(seen.iter().all(|n| *n == 2 || *n == 3));
        let mut all: Vec<f32> = Vec::new();
        values(&tree, &mut all);
        assert_eq!(all.len(), size(&tree));
        assert!(all.iter().all(|v| [-3.0, -2.0, -1.0, 1.0, 2.0, 3.0].contains(v)));
    }
}

#[test]
fn random_tree_draws_every_count_of_the_range() {
    let mut rng = StdRng::seed_from_u64(3);
    let tree = Tree::<Scalar>::random(&mut rng, &config(6, 2, 4));
    let mut seen: Vec<usize> = Vec::new();
    assert!(counts(&tree, 6, &mut seen));
    for n in 2..=4usize {
        assert!(seen.contains(&n), "no node with {} children", n);
    }
    assert!(seen.iter().all(|n| (2..=4).contains(n)));
}

#[test]
fn random_tree_with_one_count() {
    let mut rng = StdRng::seed_from_u64(5);
    let tree = Tree::<Scalar>::random(&mut rng, &config(3, 2, 2));
    assert_eq!(size(&tree), 1 + 2 + 4 + 8);
    assert_eq!(height(&tree), 3);
}

#[test]
fn random_tree_of_depth_zero_is_a_leaf() {
    let mut rng = StdRng::seed_from_u64(1);
    let tree = Tree::<Scalar>::random(&mut rng, &config(0, 2, 3));
    assert!(tree.children.is_empty());
    // Without levels to draw the range is never sampled, so it may be empty.
    let tree = Tree::<Scalar>::random(&mut rng, &config(0, 3, 2));
    assert!(tree.children.is_empty());
    let tree = Tree::<Scalar>::random(&mut rng, &config(-2, 2, 3));
    assert!(tree.children.is_empty());
}

#[test]
fn random_tree_with_counts_below_one_has_leaves_only() {
    let mut rng = StdRng::seed_from_u64(9);
    let tree = Tree::<Scalar>::random(&mut rng, &config(4, -3, 0));
    assert!(tree.children.is_empty());
    for seed in 0..10u64 {
        let mut rng = StdRng::seed_from_u64(seed);
        let tree = Tree::<Scalar>::random(&mut rng, &config(3, -1, 1));
        let mut seen: Vec<usize> = Vec::new();
        counts(&tree, 3, &mut seen);
        assert!(seen.iter().all(|n| *n <= 1));
        assert!(height(&tree) <= 3);
    }
}

#[test]
fn with_random_children_makes_as_many_as_counted() {
    let mut rng = StdRng::seed_from_u64(2);
    let value = Scalar { bits: 2.0f32.to_bits() };
    let tree = Tree::with_random_children(&mut rng, &config(2, 2, 2), value, 5);
    assert_eq!(tree.value, value);
    assert_eq!(tree.children.len(), 5);
    assert!(tree.children.iter().all(|c| c.children.len() == 2 && height(c) == 1));
    let tree = Tree::with_random_children(&mut rng, &config(2, 2, 2), value, 0);
    assert!(tree.children.is_empty());
    let tree = Tree::with_random_children(&mut rng, &config(2, 2, 2), value, -4);
    assert!(tree.children.is_empty());
}

#[test]
fn one_seed_gives_one_tree() {
    let first = Tree::<Scalar>::random(&mut StdRng::seed_from_u64(42), &config(6, 2, 3));
    let second = Tree::<Scalar>::random(&mut StdRng::seed_from_u64(42), &config(6, 2, 3));
    assert!(same(&first, &second));
    let other = Tree::<Scalar>::random(&mut StdRng::seed_from_u64(43), &config(6, 2, 3));
    assert!(!same(&first, &other));
}
