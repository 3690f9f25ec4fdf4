use crate::base_types::AuthorityName;
use crate::committee::{lemma_rights_fit, spec_quorum, weight_in, Committee};
use vstd::prelude::*;
use vstd::std_specs::cmp::{OrdSpec, PartialEqSpec, PartialOrdIs, PartialOrdSpec};

verus! {

/// The order of `V` is a total order, and the comparisons of `V` follow it.
pub open spec fn lawful_order<V: Ord>() -> bool {
    vstd::laws_cmp::obeys_cmp::<V>()
}

/// Whether `value` is at least `bound` in the order of `V`.
pub open spec fn at_least<V: Ord>(value: V, bound: V) -> bool {
    value.is_ge(&bound)
}

/// Whether `value` is more than `bound` in the order of `V`.
pub open spec fn above<V: Ord>(value: V, bound: V) -> bool {
    value.is_gt(&bound)
}

/// The sum of the voting rights that `rights` gives to the authorities of
/// `values` whose value is at least `bound`, an authority counted as often as
/// it is listed.
pub open spec fn support<V: Ord>(
    rights: Seq<(AuthorityName, usize)>,
    values: Seq<(AuthorityName, V)>,
    bound: V,
) -> int
    decreases values.len(),
{
    if values.len() == 0 {
        0
    } else if at_least(values.last().1, bound) {
        support(rights, values.drop_last(), bound) + weight_in(rights, values.last().0)
    } else {
        support(rights, values.drop_last(), bound)
    }
}

/// A lawful order compares any two values, one way or the other, and is
/// transitive; and the comparisons of `V` can be relied on.
pub proof fn lemma_lawful_order<V: Ord>()
    requires
        lawful_order::<V>(),
    ensures
        V::obeys_partial_cmp_spec(),
        forall|a: V| #[trigger] at_least(a, a),
        forall|a: V, b: V| #[trigger] above(a, b) ==> at_least(a, b),
        forall|a: V, b: V| !(#[trigger] above(a, b)) ==> at_least(b, a),
        forall|a: V, b: V, c: V| #[trigger]
            at_least(a, b) && #[trigger] at_least(b, c) ==> at_least(a, c),
{
    reveal(vstd::laws_cmp::obeys_partial_cmp_spec_properties);
    reveal(vstd::laws_cmp::obeys_cmp_partial_ord);
    reveal(vstd::laws_cmp::obeys_cmp_ord);
    reveal(vstd::laws_eq::obeys_eq_spec_properties);
    assert forall|a: V| #[trigger] at_least(a, a) by {
        assert(a.partial_cmp_spec(&a) == Some(a.cmp_spec(&a)));
    }
    assert forall|a: V, b: V| !(#[trigger] above(a, b)) implies at_least(b, a) by {
        // The order is total.
        let forth = a.cmp_spec(&b);
        assert(a.partial_cmp_spec(&b) == Some(forth));
    }
    assert forall|a: V, b: V, c: V| #[trigger]
        at_least(a, b) && #[trigger] at_least(b, c) implies at_least(a, c) by {
        let first = a.cmp_spec(&b);
        let second = b.cmp_spec(&c);
        let both = a.cmp_spec(&c);
        assert(a.partial_cmp_spec(&b) == Some(first));
        assert(b.partial_cmp_spec(&c) == Some(second));
        assert(a.partial_cmp_spec(&c) == Some(both));
        assert(a.eq_spec(&b) <==> b.eq_spec(&a));
        assert(b.eq_spec(&c) <==> c.eq_spec(&b));
        assert(c.partial_cmp_spec(&a) == Some(c.cmp_spec(&a)));
        assert(c.partial_cmp_spec(&b) == Some(c.cmp_spec(&b)));
        assert(b.partial_cmp_spec(&a) == Some(b.cmp_spec(&a)));
    }
}

/// Whether the authorities of `values` whose value is at least `bound` reach
/// the quorum for the total weight `total_votes`.
pub open spec fn backed<V: Ord>(
    rights: Seq<(AuthorityName, usize)>,
    total_votes: int,
    values: Seq<(AuthorityName, V)>,
    bound: V,
) -> bool {
    support(rights, values, bound) >= spec_quorum(total_votes)
}

/// The support of a bound among the first values of a list is not negative, and
/// at most the largest voting right for each of them.
proof fn lemma_support_bound<V: Ord>(
    rights: Seq<(AuthorityName, usize)>,
    values: Seq<(AuthorityName, V)>,
    bound: V,
)
    ensures
        0 <= support(rights, values, bound) <= values.len() * usize::MAX,
    decreases values.len(),
{
    if values.len() > 0 {
        lemma_support_bound(rights, values.drop_last(), bound);
        assert((values.len() - 1) * usize::MAX + usize::MAX == values.len() * usize::MAX)
            by (nonlinear_arith);
    }
}

impl Committee {
    /// The sum of the voting rights of the authorities of `values` whose value
    /// is at least that of the entry `index`.
    fn support_of<V>(&self, values: &Vec<(AuthorityName, V)>, index: usize) -> (score: u128) where
        V: Ord,

        requires
            lawful_order::<V>(),
            index < values.len(),
        ensures
            score == support(self.voting_rights@, values@, values[index as int].1),
    {
        proof {
            lemma_lawful_order::<V>();
        }
        let mut score: u128 = 0;
        let mut j: usize = 0;
        assert(values@.subrange(0, 0) =~= Seq::<(AuthorityName, V)>::empty());
        while j < values.len()
            invariant
                j <= values.len(),
                index < values.len(),
                lawful_order::<V>(),
                score == support(
                    self.voting_rights@,
                    values@.subrange(0, j as int),
                    values[index as int].1,
                ),
            decreases values.len() - j,
        {
            proof {
                lemma_lawful_order::<V>();
                let earlier = values@.subrange(0, j as int);
                let longer = values@.subrange(0, j + 1);
                assert(longer.drop_last() =~= earlier);
                assert(longer.last() == values[j as int]);
                lemma_support_bound(self.voting_rights@, earlier, values[index as int].1);
                lemma_rights_fit(earlier.len() as int);
            }
            if values[j].1 >= values[index].1 {
                score = score + self.weight(&values[j].0) as u128;
            }
            j = j + 1;
        }
        assert(values@.subrange(0, j as int) == values@);
        score
    }

    /// Finds the highest value that a quorum of authorities supports: the
    /// largest of the values such that the authorities with a value at least
    /// as high have voting rights that reach the quorum. Where no value has
    /// such support, the result is the default of `V`.
    pub fn get_strong_majority_lower_bound<V>(&self, values: Vec<(AuthorityName, V)>) -> (bound:
        V) where V: Default + Ord
        requires
            lawful_order::<V>(),
        ensures
            (exists|i: int|
                0 <= i < values.len() && backed(
                    self.voting_rights@,
                    self.total_votes as int,
                    values@,
                    (#[trigger] values[i]).1,
                )) ==> {
                &&& exists|k: int| 0 <= k < values.len() && bound == (#[trigger] values[k]).1
                &&& backed(self.voting_rights@, self.total_votes as int, values@, bound)
                &&& forall|i: int|
                    0 <= i < values.len() && backed(
                        self.voting_rights@,
                        self.total_votes as int,
                        values@,
                        (#[trigger] values[i]).1,
                    ) ==> at_least(bound, values[i].1)
            },
            !(exists|i: int|
                0 <= i < values.len() && backed(
                    self.voting_rights@,
                    self.total_votes as int,
                    values@,
                    (#[trigger] values[i]).1,
                )) ==> call_ensures(V::default, (), bound),
    {
        let mut values = values;
        let ghost given = values@;
        let quorum = self.quorum_threshold() as u128;
        let mut best: Option<usize> = None;
        let mut i: usize = 0;
        while i < values.len()
            invariant
                i <= values.len(),
                values@ == given,
                lawful_order::<V>(),
                quorum == spec_quorum(self.total_votes as int),
                match best {
                    Some(b) => {
                        &&& b < i
                        &&& backed(self.voting_rights@, self.total_votes as int, given, given[b as int].1)
                        &&& forall|j: int|
                            0 <= j < i && backed(
                                self.voting_rights@,
                                self.total_votes as int,
                                given,
                                (#[trigger] given[j]).1,
                            ) ==> at_least(given[b as int].1, given[j].1)
                    },
                    None => forall|j: int|
                        0 <= j < i ==> !backed(
                            self.voting_rights@,
                            self.total_votes as int,
                            given,
                            (#[trigger] given[j]).1,
                        ),
                },
            decreases values.len() - i,
        {
            proof {
                lemma_lawful_order::<V>();
            }
            let score = self.support_of(&values, i);
            if score >= quorum {
                let higher = match best {
                    None => true,
                    Some(b) => values[i].1 > values[b].1,
                };
                proof {
                    let this = given[i as int].1;
                    assert(at_least(this, this));
                    match best {
                        None => {},
                        Some(b) => {
                            let held = given[b as int].1;
                            if higher {
                                assert(above(this, held));
                                assert(at_least(this, held));
                                assert forall|j: int|
                                    0 <= j < i && backed(
                                        self.voting_rights@,
                                        self.total_votes as int,
                                        given,
                                        (#[trigger] given[j]).1,
                                    ) implies at_least(this, given[j].1) by {
                                    assert(at_least(this, held) && at_least(held, given[j].1));
                                }
                            } else {
                                assert(!above(this, held));
                                assert(at_least(held, this));
                            }
                        },
                    }
                }
                if higher {
                    best = Some(i);
                }
            }
            i = i + 1;
        }
        match best {
            Some(b) => {
                let entry = values.swap_remove(b);
                entry.1
            },
            None => V::default(),
        }
    }
}

} // verus!
