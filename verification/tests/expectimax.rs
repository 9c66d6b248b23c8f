use std::cmp::Ordering;

use enum_iterator::IntoEnumIterator;
use multiagent::{
    expectimax, expectimax_over, minimax, ChanceUtility, ExpectimaxAgentType, GameState,
};

#[derive(Clone, Copy, Debug, PartialEq, Eq)]
enum Branch {
    Left,
    Middle,
    Right,
}

impl Branch {
    fn offset(self) -> usize {
        match self {
            Branch::Left => 0,
            Branch::Middle => 1,
            Branch::Right => 2,
        }
    }
}

#[derive(Clone, Copy, Debug)]
struct Branches {
    next: usize,
}

impl Iterator for Branches {
    type Item = Branch;

    fn next(&mut self) -> Option<Branch> {
        let branch = match self.next {
            0 => Branch::Left,
            1 => Branch::Middle,
            2 => Branch::Right,
            _ => return None,
        };
        self.next += 1;
        Some(branch)
    }

    fn size_hint(&self) -> (usize, Option<usize>) {
        (3 - self.next, Some(3 - self.next))
    }
}

impl ExactSizeIterator for Branches {}

impl std::iter::FusedIterator for Branches {}

impl IntoEnumIterator for Branch {
    type Iterator = Branches;

    const VARIANT_COUNT: usize = 3;

    fn into_enum_iter() -> Branches {
        Branches { next: 0 }
    }
}

/// The agent of a level of the tree: the root's level is 0.
#[derive(Clone, Copy, Debug, PartialEq, Eq)]
struct Level(usize);

/// A node of a complete ternary tree. A leaf whose entry in the table is
/// `None` cannot be reached.
#[derive(Clone, Copy, Debug, PartialEq)]
struct Node<'a> {
    leaves: &'a [Option<i64>],
    height: usize,
    level: usize,
    index: usize,
}

impl<'a> Node<'a> {
    fn root(leaves: &'a [Option<i64>], height: usize) -> Self {
        assert_eq!(leaves.len(), 3usize.pow(height as u32));
        Node { leaves, height, level: 0, index: 0 }
    }

    fn score(&self) -> i64 {
        if self.level == self.height {
            self.leaves[self.index].unwrap()
        } else {
            -1000 - (self.level * 100 + self.index) as i64
        }
    }
}

impl<'a> GameState for Node<'a> {
    type Action = Branch;
    type Agent = Level;

    fn next_agent(&self) -> Option<Level> {
        if self.level == self.height {
            None
        } else {
            Some(Level(self.level))
        }
    }

    fn successor(&self, action: &Branch) -> Option<Self> {
        if self.level == self.height {
            return None;
        }
        let next = Node {
            leaves: self.leaves,
            height: self.height,
            level: self.level + 1,
            index: self.index * 3 + action.offset(),
        };
        if next.level == next.height && next.leaves[next.index].is_none() {
            None
        } else {
            Some(next)
        }
    }
}

fn all(values: &[i64]) -> Vec<Option<i64>> {
    values.iter().map(|value| Some(*value)).collect()
}

fn gcd(a: i64, b: i64) -> i64 {
    if b == 0 {
        a.abs()
    } else {
        gcd(b, a % b)
    }
}

/// An exact fraction in lowest terms, with a positive denominator.
#[derive(Clone, Copy, Debug, PartialEq, Eq)]
struct Ratio {
    num: i64,
    den: i64,
}

impl Ratio {
    fn new(num: i64, den: i64) -> Ratio {
        assert!(den > 0);
        let common = gcd(num, den);
        if common == 0 {
            Ratio { num: 0, den: 1 }
        } else {
            Ratio { num: num / common, den: den / common }
        }
    }

    fn whole(value: i64) -> Ratio {
        Ratio::new(value, 1)
    }
}

impl PartialOrd for Ratio {
    fn partial_cmp(&self, other: &Ratio) -> Option<Ordering> {
        Some(self.cmp(other))
    }
}

impl Ord for Ratio {
    fn cmp(&self, other: &Ratio) -> Ordering {
        (self.num * other.den).cmp(&(other.num * self.den))
    }
}

impl ChanceUtility for Ratio {
    fn zero() -> Ratio {
        Ratio::whole(0)
    }

    fn plus(self, other: Ratio) -> Ratio {
        Ratio::new(self.num * other.den + other.num * self.den, self.den * other.den)
    }

    fn share(self, parts: usize) -> Ratio {
        Ratio::new(self.num, self.den * parts as i64)
    }
}

/// A utility in floating point, weighted by a floating-point fraction.
#[derive(Clone, Copy, Debug)]
struct Real(f32);

impl PartialEq for Real {
    fn eq(&self, other: &Real) -> bool {
        self.cmp(other) == Ordering::Equal
    }
}

impl Eq for Real {}

impl PartialOrd for Real {
    fn partial_cmp(&self, other: &Real) -> Option<Ordering> {
        Some(self.cmp(other))
    }
}

impl Ord for Real {
    fn cmp(&self, other: &Real) -> Ordering {
        self.0.total_cmp(&other.0)
    }
}

impl ChanceUtility for Real {
    fn zero() -> Real {
        Real(0.0)
    }

    fn plus(self, other: Real) -> Real {
        Real(self.0 + other.0)
    }

    fn share(self, parts: usize) -> Real {
        Real(self.0 * (1.0 / parts as f32))
    }
}

fn exact(node: &Node) -> Ratio {
    Ratio::whole(node.score())
}

fn all_random(_level: &Level) -> ExpectimaxAgentType {
    ExpectimaxAgentType::Random
}

fn max_then_random(level: &Level) -> ExpectimaxAgentType {
    if level.0 == 0 {
        ExpectimaxAgentType::Maximizer
    } else {
        ExpectimaxAgentType::Random
    }
}

fn min_then_random(level: &Level) -> ExpectimaxAgentType {
    if level.0 == 0 {
        ExpectimaxAgentType::Minimizer
    } else {
        ExpectimaxAgentType::Random
    }
}

fn max_then_min(level: &Level) -> ExpectimaxAgentType {
    if level.0 % 2 == 0 {
        ExpectimaxAgentType::Maximizer
    } else {
        ExpectimaxAgentType::Minimizer
    }
}

struct Lcg(u64);

impl Lcg {
    fn next(&mut self) -> u64 {
        self.0 = self.0.wrapping_mul(6364136223846793005).wrapping_add(1442695040888963407);
        self.0 >> 33
    }
}

#[test]
fn chance_node_is_worth_the_mean() {
    let leaves = all(&[1, 2, 6]);
    let root = Node::root(&leaves, 1);
    let (action, value) = expectimax(&root, 1, exact, all_random);
    assert_eq!(action, None);
    assert_eq!(value, Ratio::whole(3));
}

#[test]
fn chance_node_mean_need_not_be_whole() {
    let leaves = vec![Some(1), None, Some(2)];
    let root = Node::root(&leaves, 1);
    let (action, value) = expectimax(&root, 1, exact, all_random);
    assert_eq!(action, None);
    assert_eq!(value, Ratio { num: 3, den: 2 });
}

#[test]
fn chance_node_with_one_legal_action_is_worth_its_utility() {
    let leaves = vec![None, Some(7), None];
    let root = Node::root(&leaves, 1);
    let (action, value) = expectimax(&root, 1, exact, all_random);
    assert_eq!(action, None);
    assert_eq!(value, Ratio::whole(7));
}

#[test]
fn chance_node_without_legal_action_is_worth_zero() {
    let leaves = vec![None, None, None];
    let root = Node::root(&leaves, 1);
    let (action, value) = expectimax(&root, 1, exact, all_random);
    assert_eq!(action, None);
    assert_eq!(value, Ratio::whole(0));
}

#[test]
fn deciding_node_without_legal_action_is_scored_as_it_stands() {
    let leaves = vec![None, None, None];
    let root = Node::root(&leaves, 1);
    let (action, value) = expectimax(&root, 1, exact, max_then_random);
    assert_eq!(action, None);
    assert_eq!(value, Ratio::whole(-1000));
    let (action, value) = expectimax(&root, 1, exact, min_then_random);
    assert_eq!(action, None);
    assert_eq!(value, Ratio::whole(-1000));
}

#[test]
fn maximizer_takes_the_best_average() {
    let leaves = all(&[3, 12, 9, 2, 4, 6, 14, 5, 2]);
    let root = Node::root(&leaves, 2);
    let (action, value) = expectimax(&root, 2, exact, max_then_random);
    assert_eq!(action, Some(Branch::Left));
    assert_eq!(value, Ratio::whole(8));
}

#[test]
fn minimizer_takes_the_lowest_average() {
    let leaves = all(&[3, 12, 9, 2, 4, 6, 14, 5, 2]);
    let root = Node::root(&leaves, 2);
    let (action, value) = expectimax(&root, 2, exact, min_then_random);
    assert_eq!(action, Some(Branch::Middle));
    assert_eq!(value, Ratio::whole(4));
}

#[test]
fn averages_of_averages() {
    let leaves = all(&[3, 12, 9, 2, 4, 6, 14, 5, 3]);
    let root = Node::root(&leaves, 2);
    let (action, value) = expectimax(&root, 2, exact, all_random);
    assert_eq!(action, None);
    // (8 + 4 + 22/3) / 3
    assert_eq!(value, Ratio { num: 58, den: 9 });
}

#[test]
fn expectimax_ties_go_to_the_first_action() {
    let leaves = all(&[4, 9, 9]);
    let root = Node::root(&leaves, 1);
    let (action, value) = expectimax(&root, 1, exact, max_then_random);
    assert_eq!(action, Some(Branch::Middle));
    assert_eq!(value, Ratio::whole(9));
    let leaves = all(&[4, 4, 9]);
    let root = Node::root(&leaves, 1);
    let (action, value) = expectimax(&root, 1, exact, min_then_random);
    assert_eq!(action, Some(Branch::Left));
    assert_eq!(value, Ratio::whole(4));
}

#[test]
fn expectimax_without_chance_agrees_with_minimax() {
    let mut random = Lcg(0xfeed);
    for height in 1..=4usize {
        for _ in 0..100 {
            let count = 3usize.pow(height as u32);
            let leaves: Vec<Option<i64>> = (0..count)
                .map(|_| {
                    if random.next() % 5 == 0 {
                        None
                    } else {
                        Some((random.next() % 7) as i64 - 3)
                    }
                })
                .collect();
            let root = Node::root(&leaves, height);
            for depth in 0..=height {
                let (chosen, expected) = expectimax(&root, depth, exact, max_then_min);
                let (action, value) = minimax(
                    &root,
                    depth,
                    |node: &Node| node.score(),
                    |level: &Level| level.0 % 2 == 0,
                );
                assert_eq!(chosen, action);
                assert_eq!(expected, Ratio::whole(value));
            }
        }
    }
}

#[test]
fn expectimax_scores_a_finished_state_without_asking_for_roles() {
    let leaves = all(&[5]);
    let root = Node::root(&leaves, 0);
    let (action, value) = expectimax(
        &root,
        3,
        exact,
        |_level: &Level| -> ExpectimaxAgentType { unreachable!() },
    );
    assert_eq!(action, None);
    assert_eq!(value, Ratio::whole(5));
}

#[test]
fn expectimax_with_no_plies_left_scores_the_state_as_it_stands() {
    let leaves = all(&[1, 2, 6]);
    let root = Node::root(&leaves, 1);
    let (action, value) = expectimax(&root, 0, exact, all_random);
    assert_eq!(action, None);
    assert_eq!(value, Ratio::whole(-1000));
    let leaves = all(&[3, 12, 9, 2, 4, 6, 14, 5, 2]);
    let root = Node::root(&leaves, 2);
    // The three replies stand at -1100, -1101 and -1102.
    let (action, value) = expectimax(&root, 1, exact, all_random);
    assert_eq!(action, None);
    assert_eq!(value, Ratio::whole(-1101));
}

#[test]
fn expectimax_beyond_the_end_of_the_game_changes_nothing() {
    let leaves = all(&[3, 12, 9, 2, 4, 6, 14, 5, 2]);
    let root = Node::root(&leaves, 2);
    let to_the_end = expectimax(&root, 2, exact, max_then_random);
    let generous = expectimax(&root, 40, exact, max_then_random);
    assert_eq!(to_the_end, generous);
}

#[test]
fn expectimax_twice_gives_the_same_result() {
    let leaves = all(&[3, 12, 9, 2, 4, 6, 14, 5, 2]);
    let root = Node::root(&leaves, 2);
    let first = expectimax(&root, 2, exact, max_then_random);
    let second = expectimax(&root, 2, exact, max_then_random);
    assert_eq!(first, second);
}

#[test]
fn expectimax_over_returns_the_index_of_the_action() {
    let leaves = all(&[3, 12, 9, 2, 4, 6, 14, 5, 2]);
    let root = Node::root(&leaves, 2);
    let actions = vec![Branch::Right, Branch::Middle, Branch::Left];
    let (index, value) = expectimax_over(&root, 2, exact, max_then_random, &actions);
    assert_eq!(index, Some(2));
    assert_eq!(value, Ratio::whole(8));
}

#[test]
fn expectimax_over_averages_over_the_candidates_it_is_given() {
    let leaves = all(&[1, 2, 6]);
    let root = Node::root(&leaves, 1);
    let actions = vec![Branch::Right, Branch::Left];
    let (index, value) = expectimax_over(&root, 1, exact, all_random, &actions);
    assert_eq!(index, None);
    assert_eq!(value, Ratio { num: 7, den: 2 });
    let none: Vec<Branch> = Vec::new();
    let (index, value) = expectimax_over(&root, 1, exact, all_random, &none);
    assert_eq!(index, None);
    assert_eq!(value, Ratio::whole(0));
}

#[test]
fn floating_point_utilities_are_weighted_one_by_one() {
    let leaves = all(&[1, 2, 6]);
    let root = Node::root(&leaves, 1);
    let (action, value) = expectimax(&root, 1, |node: &Node| Real(node.score() as f32), all_random);
    assert_eq!(action, None);
    let weight: f32 = 1.0 / 3.0;
    let by_hand = ((0.0 + 1.0 * weight) + 2.0 * weight) + 6.0 * weight;
    assert_eq!(value.0, by_hand);
    assert!((value.0 - 3.0).abs() < 1e-5);
}

#[test]
fn floating_point_average_of_one_is_exact() {
    let leaves = vec![None, None, Some(7)];
    let root = Node::root(&leaves, 1);
    let (action, value) = expectimax(&root, 1, |node: &Node| Real(node.score() as f32), all_random);
    assert_eq!(action, None);
    assert_eq!(value.0, 7.0);
}
