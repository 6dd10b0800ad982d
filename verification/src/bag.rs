use macroquad::rand::{ChooseRandom, RandGenerator};
use vstd::multiset::Multiset;
use vstd::prelude::*;
use vstd::seq_lib::*;

use crate::global::PIECE_COUNT;

verus! {

/// The seven identities in ascending order: what a bag holds before it is shuffled.
pub open spec fn all_ids() -> Seq<usize> {
    seq![0usize, 1usize, 2usize, 3usize, 4usize, 5usize, 6usize]
}

/// `order` deals every identity exactly once and nothing else.
pub open spec fn is_permutation(order: Seq<usize>) -> bool {
    forall|id: usize|
        #[trigger] order.to_multiset().count(id) == (if id < PIECE_COUNT {
            1nat
        } else {
            0nat
        })
}

/// The order in which the generator of `macroquad::rand`, seeded with `seed`,
/// leaves `items` after its shuffle.
pub uninterp spec fn shuffle_of(items: Seq<usize>, seed: u64) -> Seq<usize>;

/// Shuffles `items` in place with `macroquad::rand`: a generator made by
/// `RandGenerator::new` is seeded by `srand(seed)` and handed to
/// `ChooseRandom::shuffle_with_state`. That shuffle is a Fisher-Yates pass whose
/// only writes are swaps of two entries, and the generator's state after
/// seeding depends on the seed alone. So the contract claims, without proof,
/// that the outcome is a function of the entries and the seed, and that it
/// holds the same entries as before, each as often as before.
#[verifier::external_body]
fn shuffle_with_seed(items: &mut Vec<usize>, seed: u64)
    ensures
        final(items)@ == shuffle_of(old(items)@, seed),
        final(items)@.to_multiset() == old(items)@.to_multiset(),
{
    let generator = RandGenerator::new();
    generator.srand(seed);
    items.shuffle_with_state(&generator);
}

/// Every identity occurs once in `all_ids()`.
pub proof fn lemma_all_ids_is_permutation()
    ensures
        is_permutation(all_ids()),
{
    broadcast use vstd::multiset::group_multiset_axioms;

    let s0 = Seq::<usize>::empty();
    let s1 = s0.push(0usize);
    let s2 = s1.push(1usize);
    let s3 = s2.push(2usize);
    let s4 = s3.push(3usize);
    let s5 = s4.push(4usize);
    let s6 = s5.push(5usize);
    let s7 = s6.push(6usize);
    assert(s7 =~= all_ids());
    assert(s0.to_multiset() =~= Multiset::<usize>::empty()) by {
        assert forall|id: usize| s0.to_multiset().count(id) == 0 by {
            to_multiset_contains(s0, id);
        }
    }
    to_multiset_build(s0, 0usize);
    to_multiset_build(s1, 1usize);
    to_multiset_build(s2, 2usize);
    to_multiset_build(s3, 3usize);
    to_multiset_build(s4, 4usize);
    to_multiset_build(s5, 5usize);
    to_multiset_build(s6, 6usize);
}

/// A permutation of the identities has seven entries, all of them identities,
/// no two of them equal.
pub proof fn lemma_permutation_facts(order: Seq<usize>)
    requires
        is_permutation(order),
    ensures
        order.len() == PIECE_COUNT,
        order.no_duplicates(),
        forall|i: int| 0 <= i < order.len() ==> #[trigger] order[i] < PIECE_COUNT,
{
    assert forall|i: int| 0 <= i < order.len() implies #[trigger] order[i] < PIECE_COUNT by {
        assert(order.contains(order[i]));
        to_multiset_contains(order, order[i]);
    }
    order.lemma_multiset_has_no_duplicates_conv();
    lemma_all_ids_is_permutation();
    assert(order.to_multiset() =~= all_ids().to_multiset());
    to_multiset_len(order);
    to_multiset_len(all_ids());
}

/// Entries that are identities, no two of them equal, and among them every
/// identity: that is a permutation.
pub proof fn lemma_is_permutation(order: Seq<usize>)
    requires
        order.no_duplicates(),
        forall|i: int| 0 <= i < order.len() ==> #[trigger] order[i] < PIECE_COUNT,
        forall|id: usize| id < PIECE_COUNT ==> order.contains(id),
    ensures
        is_permutation(order),
{
    order.lemma_multiset_has_no_duplicates();
    assert forall|id: usize|
        #[trigger] order.to_multiset().count(id) == (if id < PIECE_COUNT {
            1nat
        } else {
            0nat
        }) by {
        to_multiset_contains(order, id);
        if id >= PIECE_COUNT && order.contains(id) {
            let i = choose|i: int| 0 <= i < order.len() && order[i] == id;
            assert(order[i] < PIECE_COUNT);
        }
    }
}

/// The randomizer: the identities that are still to be dealt before the next
/// refill, dealt from the end.
#[derive(Clone, Debug, PartialEq, Eq)]
pub struct Bag {
    pub items: Vec<usize>,
}

impl View for Bag {
    type V = Seq<usize>;

    open spec fn view(&self) -> Seq<usize> {
        self.items@
    }
}

/// What is left of `bag` after one draw that is offered `fresh` for a refill.
pub open spec fn after_next(bag: Seq<usize>, fresh: Seq<usize>) -> Seq<usize> {
    if bag.len() == 0 {
        fresh.drop_last()
    } else {
        bag.drop_last()
    }
}

/// The identity that one draw from `bag` deals when it is offered `fresh` for a
/// refill.
pub open spec fn next_id(bag: Seq<usize>, fresh: Seq<usize>) -> usize {
    if bag.len() == 0 {
        fresh.last()
    } else {
        bag.last()
    }
}

/// The identities that `supply.len()` draws in a row deal from `bag`, in the
/// order of the draws, where draw `i` is offered `supply[i]` for a refill.
pub open spec fn dealt(bag: Seq<usize>, supply: Seq<Seq<usize>>) -> Seq<usize>
    decreases supply.len(),
{
    if supply.len() == 0 {
        Seq::empty()
    } else {
        seq![next_id(bag, supply[0])] + dealt(after_next(bag, supply[0]), supply.skip(1))
    }
}

/// What is left of `bag` after `supply.len()` draws in a row, where draw `i` is
/// offered `supply[i]` for a refill.
pub open spec fn left(bag: Seq<usize>, supply: Seq<Seq<usize>>) -> Seq<usize>
    decreases supply.len(),
{
    if supply.len() == 0 {
        bag
    } else {
        left(after_next(bag, supply[0]), supply.skip(1))
    }
}

/// Where a bag that has run empty takes its next full set from: either the
/// shuffle, seeded with the number given, or a set that is given in its order.
#[derive(Clone, Debug, PartialEq, Eq)]
pub enum Supply {
    Seeded(u64),
    Given(Bag),
}

impl View for Supply {
    type V = Seq<usize>;

    open spec fn view(&self) -> Seq<usize> {
        match self {
            Supply::Seeded(seed) => shuffle_of(all_ids(), *seed),
            Supply::Given(bag) => bag@,
        }
    }
}

impl Supply {
    /// A set that is given holds every identity exactly once.
    pub open spec fn wf(&self) -> bool {
        self matches Supply::Given(bag) ==> is_permutation(bag@)
    }

    /// The full set that the supply stands for.
    pub fn fresh(&self) -> (bag: Bag)
        requires
            self.wf(),
        ensures
            bag@ == self@,
            is_permutation(bag@),
            bag.wf(),
    {
        match self {
            Supply::Seeded(seed) => Bag::shuffled(*seed),
            Supply::Given(given) => {
                let mut items: Vec<usize> = Vec::new();
                let mut i: usize = 0;
                while i < given.items.len()
                    invariant
                        i <= given@.len(),
                        items@ == given@.take(i as int),
                    decreases given@.len() - i,
                {
                    items.push(given.items[i]);
                    assert(items@ =~= given@.take(i + 1));
                    i += 1;
                }
                assert(given@.take(given@.len() as int) =~= given@);
                proof {
                    lemma_permutation_facts(given@);
                }
                Bag { items }
            },
        }
    }
}

impl Bag {
    /// What holds of a bag at every moment: it holds identities only, and none twice.
    pub open spec fn wf(&self) -> bool {
        &&& self@.no_duplicates()
        &&& forall|i: int| 0 <= i < self@.len() ==> #[trigger] self@[i] < PIECE_COUNT
    }

    /// An empty bag: the first draw refills it.
    pub fn new() -> (bag: Bag)
        ensures
            bag@.len() == 0,
            bag.wf(),
    {
        Bag { items: Vec::new() }
    }

    /// A full bag in the order that the shuffle gives for `seed`.
    pub fn shuffled(seed: u64) -> (bag: Bag)
        ensures
            bag@ == shuffle_of(all_ids(), seed),
            is_permutation(bag@),
            bag.wf(),
    {
        let mut items: Vec<usize> = Vec::new();
        let mut id: usize = 0;
        while id < PIECE_COUNT
            invariant
                id <= PIECE_COUNT,
                items@ == all_ids().take(id as int),
            decreases PIECE_COUNT - id,
        {
            items.push(id);
            assert(items@ =~= all_ids().take(id + 1));
            id += 1;
        }
        assert(all_ids().take(7) =~= all_ids());
        shuffle_with_seed(&mut items, seed);
        proof {
            lemma_all_ids_is_permutation();
            lemma_permutation_facts(items@);
        }
        Bag { items }
    }

    /// A full bag that deals in a chosen order, last entry first; `None` unless
    /// `order` holds every identity exactly once.
    pub fn from_order(order: Vec<usize>) -> (bag: Option<Bag>)
        ensures
            bag is Some <==> is_permutation(order@),
            bag matches Some(b) ==> b@ == order@ && b.wf(),
    {
        if order.len() != PIECE_COUNT {
            proof {
                if is_permutation(order@) {
                    lemma_permutation_facts(order@);
                }
            }
            return None;
        }
        let mut seen: Vec<bool> = Vec::new();
        let mut id: usize = 0;
        while id < PIECE_COUNT
            invariant
                id <= PIECE_COUNT,
                seen@.len() == id,
                forall|k: int| 0 <= k < id ==> !seen@[k],
            decreases PIECE_COUNT - id,
        {
            seen.push(false);
            id += 1;
        }
        let mut i: usize = 0;
        while i < PIECE_COUNT
            invariant
                i <= PIECE_COUNT,
                order@.len() == PIECE_COUNT,
                seen@.len() == PIECE_COUNT,
                forall|j: int| 0 <= j < i ==> #[trigger] order@[j] < PIECE_COUNT,
                forall|j: int, k: int| 0 <= j < k < i ==> order@[j] != order@[k],
                forall|x: int|
                    0 <= x < PIECE_COUNT ==> (#[trigger] seen@[x] <==> exists|j: int|
                        0 <= j < i && order@[j] == x),
            decreases PIECE_COUNT - i,
        {
            let id = order[i];
            if id >= PIECE_COUNT {
                proof {
                    if is_permutation(order@) {
                        lemma_permutation_facts(order@);
                    }
                }
                return None;
            }
            if seen[id] {
                proof {
                    if is_permutation(order@) {
                        lemma_permutation_facts(order@);
                        let j = choose|j: int| 0 <= j < i && order@[j] == id;
                        assert(order@[j] == order@[i as int]);
                    }
                }
                return None;
            }
            let ghost before = seen@;
            seen.set(id, true);
            assert forall|x: int| 0 <= x < PIECE_COUNT implies (#[trigger] seen@[x] <==> exists|
                j: int,
            |
                0 <= j < i + 1 && order@[j] == x) by {
                if x == id {
                    assert(order@[i as int] == x);
                } else {
                    assert(seen@[x] == before[x]);
                    if before[x] {
                        let j = choose|j: int| 0 <= j < i && order@[j] == x;
                        assert(0 <= j < i + 1 && order@[j] == x);
                    }
                }
            }
            i += 1;
        }
        let mut id: usize = 0;
        while id < PIECE_COUNT
            invariant
                id <= PIECE_COUNT,
                seen@.len() == PIECE_COUNT,
                order@.len() == PIECE_COUNT,
                forall|x: int|
                    0 <= x < PIECE_COUNT ==> (#[trigger] seen@[x] <==> exists|j: int|
                        0 <= j < PIECE_COUNT && order@[j] == x),
                forall|x: int| 0 <= x < id ==> #[trigger] seen@[x],
            decreases PIECE_COUNT - id,
        {
            if !seen[id] {
                proof {
                    if is_permutation(order@) {
                        assert(order@.to_multiset().count(id) == 1);
                        to_multiset_contains(order@, id);
                        let j = choose|j: int| 0 <= j < order@.len() && order@[j] == id;
                        assert(0 <= j < PIECE_COUNT && order@[j] == id as int);
                    }
                }
                return None;
            }
            id += 1;
        }
        proof {
            assert forall|x: usize| x < PIECE_COUNT implies order@.contains(x) by {
                assert(seen@[x as int]);
                let j = choose|j: int| 0 <= j < PIECE_COUNT && order@[j] == x as int;
                assert(order@[j] == x);
            }
            lemma_is_permutation(order@);
        }
        Some(Bag { items: order })
    }

    /// Whether the bag holds identities only, and none twice.
    pub fn is_wf(&self) -> (ok: bool)
        ensures
            ok == self.wf(),
    {
        let mut i: usize = 0;
        while i < self.items.len()
            invariant
                i <= self@.len(),
                forall|j: int| 0 <= j < i ==> #[trigger] self@[j] < PIECE_COUNT,
                forall|j: int, k: int| 0 <= j < k < i ==> self@[j] != self@[k],
            decreases self@.len() - i,
        {
            if self.items[i] >= PIECE_COUNT {
                return false;
            }
            let mut j: usize = 0;
            while j < i
                invariant
                    j <= i,
                    i < self@.len(),
                    forall|k: int| 0 <= k < j ==> self@[k] != self@[i as int],
                decreases i - j,
            {
                if self.items[j] == self.items[i] {
                    return false;
                }
                j += 1;
            }
            i += 1;
        }
        true
    }

    /// Whether nothing is left to deal before the next refill.
    pub fn is_empty(&self) -> (empty: bool)
        ensures
            empty == (self@.len() == 0),
    {
        self.items.len() == 0
    }

    /// Replaces what is left by a full set from `supply`, in its order.
    pub fn refill(&mut self, supply: &Supply)
        requires
            supply.wf(),
        ensures
            final(self)@ == supply@,
            is_permutation(supply@),
            final(self).wf(),
    {
        *self = supply.fresh();
    }

    /// Deals the next identity: refills from `supply` first if nothing is
    /// left, then removes the last entry and returns it.
    pub fn next(&mut self, supply: &Supply) -> (id: usize)
        requires
            old(self).wf(),
            supply.wf(),
        ensures
            id == next_id(old(self)@, supply@),
            final(self)@ == after_next(old(self)@, supply@),
            old(self)@.len() == 0 ==> is_permutation(supply@),
            id < PIECE_COUNT,
            final(self).wf(),
    {
        if self.items.len() == 0 {
            self.refill(supply);
            proof {
                lemma_permutation_facts(supply@);
            }
        }
        let ghost filled = self@;
        let id = self.items.pop().unwrap();
        assert(id == filled[filled.len() - 1]);
        id
    }
}

/// Draws that do not pass a refill boundary deal the top of one full set.
/// `first` is that set and `m` is how many of its entries the bag still holds;
/// while the bag is empty, `m` is 0 and the first draw is offered `first`.
proof fn lemma_draws(first: Seq<usize>, m: int, supply: Seq<Seq<usize>>)
    requires
        first.len() == PIECE_COUNT,
        0 <= m <= PIECE_COUNT,
        supply.len() <= (if m == 0 {
            7
        } else {
            m
        }),
        m == 0 && supply.len() > 0 ==> supply[0] == first,
    ensures
        ({
            let top = if m == 0 {
                7
            } else {
                m
            };
            &&& dealt(first.take(m), supply) == first.subrange(top - supply.len(), top).reverse()
            &&& supply.len() > 0 ==> left(first.take(m), supply) == first.take(top - supply.len())
        }),
    decreases supply.len(),
{
    let bag = first.take(m);
    let top = if m == 0 {
        7
    } else {
        m
    };
    let k = supply.len() as int;
    if k == 0 {
        assert(first.subrange(top, top).reverse() =~= Seq::<usize>::empty());
    } else {
        assert(first.take(7) =~= first);
        assert(after_next(bag, supply[0]) =~= first.take(top - 1));
        assert(next_id(bag, supply[0]) == first[top - 1]);
        lemma_draws(first, top - 1, supply.skip(1));
        assert(first.subrange(top - k, top).reverse() =~= seq![first[top - 1]] + first.subrange(
            top - k,
            top - 1,
        ).reverse());
        if k == 1 {
            assert(left(after_next(bag, supply[0]), supply.skip(1)) == first.take(top - 1));
        }
    }
}

/// The bag invariant. At every moment between two refills, what is left in
/// the bag, followed by what was dealt since the refill, last deal first, is
/// the full set that the bag was refilled with: together they hold every
/// identity exactly once.
pub proof fn lemma_bag_invariant(supply: Seq<Seq<usize>>)
    requires
        1 <= supply.len() <= PIECE_COUNT,
        is_permutation(supply[0]),
    ensures
        left(Seq::empty(), supply) + dealt(Seq::empty(), supply).reverse() == supply[0],
        is_permutation(left(Seq::empty(), supply) + dealt(Seq::empty(), supply).reverse()),
{
    let first = supply[0];
    let k = supply.len() as int;
    lemma_permutation_facts(first);
    assert(first.take(0) =~= Seq::<usize>::empty());
    lemma_draws(first, 0, supply);
    assert(first.take(7 - k) + first.subrange(7 - k, 7).reverse().reverse() =~= first);
}

/// Bag fairness. Seven draws in a row that start at a refill boundary, that is
/// with nothing left in the bag, deal every identity exactly once, whatever
/// full sets the draws are offered; and they end at a refill boundary again, so
/// the same holds of the seven draws after them.
pub proof fn lemma_bag_fairness(supply: Seq<Seq<usize>>)
    requires
        supply.len() == PIECE_COUNT,
        is_permutation(supply[0]),
    ensures
        is_permutation(dealt(Seq::empty(), supply)),
        dealt(Seq::empty(), supply) == supply[0].reverse(),
        left(Seq::empty(), supply).len() == 0,
{
    let first = supply[0];
    lemma_permutation_facts(first);
    assert(first.take(0) =~= Seq::<usize>::empty());
    lemma_draws(first, 0, supply);
    assert(first.subrange(0, 7) =~= first);
    first.lemma_reverse_to_multiset();
}

/// Draws in a row can be taken in two parts: the first `n` draws, and the
/// rest from what the first `n` left.
pub proof fn lemma_dealt_split(bag: Seq<usize>, supply: Seq<Seq<usize>>, n: int)
    requires
        0 <= n <= supply.len(),
    ensures
        dealt(bag, supply) == dealt(bag, supply.take(n)) + dealt(
            left(bag, supply.take(n)),
            supply.skip(n),
        ),
        left(bag, supply) == left(left(bag, supply.take(n)), supply.skip(n)),
    decreases n,
{
    if n == 0 {
        assert(supply.take(0) =~= Seq::<Seq<usize>>::empty());
        assert(supply.skip(0) =~= supply);
        assert(dealt(bag, supply) =~= Seq::<usize>::empty() + dealt(bag, supply));
    } else {
        let rest = after_next(bag, supply[0]);
        lemma_dealt_split(rest, supply.skip(1), n - 1);
        assert(supply.take(n).skip(1) =~= supply.skip(1).take(n - 1));
        assert(supply.skip(1).skip(n - 1) =~= supply.skip(n));
        assert(supply.take(n)[0] == supply[0]);
        assert(dealt(bag, supply) =~= dealt(bag, supply.take(n)) + dealt(
            left(bag, supply.take(n)),
            supply.skip(n),
        ));
    }
}

/// No identity stays away for long. Of fourteen draws in a row that start at
/// a refill boundary, each of the first seven deals an identity that is dealt
/// again among the second seven: at most twelve other pieces come between an
/// identity and its next occurrence.
pub proof fn lemma_bag_gap(supply: Seq<Seq<usize>>, i: int)
    requires
        supply.len() == 2 * PIECE_COUNT,
        is_permutation(supply[0]),
        is_permutation(supply[7]),
        0 <= i < PIECE_COUNT,
    ensures
        dealt(Seq::empty(), supply).len() == 2 * PIECE_COUNT,
        exists|j: int|
            PIECE_COUNT <= j < 2 * PIECE_COUNT && j - i - 1 <= 12 && #[trigger] dealt(
                Seq::empty(),
                supply,
            )[j] == dealt(Seq::empty(), supply)[i],
{
    let all = dealt(Seq::empty(), supply);
    let first = supply.take(7);
    let second = supply.skip(7);
    lemma_dealt_split(Seq::empty(), supply, 7);
    lemma_bag_fairness(first);
    lemma_bag_fairness(second);
    lemma_permutation_facts(supply[0]);
    lemma_permutation_facts(supply[7]);
    assert(left(Seq::<usize>::empty(), first) =~= Seq::<usize>::empty());
    assert(all == supply[0].reverse() + supply[7].reverse());
    let id = all[i];
    assert(id == supply[0][6 - i]);
    assert(supply[7].to_multiset().count(id) == 1);
    to_multiset_contains(supply[7], id);
    let k = choose|k: int| 0 <= k < supply[7].len() && supply[7][k] == id;
    let j = 7 + (6 - k);
    assert(all[j] == supply[7].reverse()[6 - k]);
    assert(all[j] == id);
}

} // verus!
