use crate::base_types::AuthorityName;
use vstd::prelude::*;

verus! {

/// The voting right that `rights` gives to `author`: that of the first entry
/// under the name, and none where there is no such entry.
pub open spec fn weight_in(rights: Seq<(AuthorityName, usize)>, author: AuthorityName) -> usize
    decreases rights.len(),
{
    if rights.len() == 0 {
        0
    } else if rights[0].0 == author {
        rights[0].1
    } else {
        weight_in(rights.drop_first(), author)
    }
}

/// The sum of all voting rights in `rights`.
pub open spec fn sum_of_votes(rights: Seq<(AuthorityName, usize)>) -> int
    decreases rights.len(),
{
    if rights.len() == 0 {
        0
    } else {
        sum_of_votes(rights.drop_last()) + rights.last().1
    }
}

/// No authority occurs twice in `rights`.
pub open spec fn distinct_names(rights: Seq<(AuthorityName, usize)>) -> bool {
    forall|i: int, j: int| 0 <= i < j < rights.len() ==> rights[i].0 != rights[j].0
}

/// Whether `first` and `second` agree in their bytes before `at`, where
/// `first` has the smaller byte.
pub open spec fn smaller_at(first: AuthorityName, second: AuthorityName, at: int) -> bool {
    &&& first.0[at] < second.0[at]
    &&& forall|j: int| 0 <= j < at ==> first.0[j] == second.0[j]
}

/// Whether `first` comes before `second` in the order of names: at the first
/// byte in which they differ, `first` has the smaller.
pub open spec fn name_before(first: AuthorityName, second: AuthorityName) -> bool {
    exists|at: int| 0 <= at < 32 && #[trigger] smaller_at(first, second, at)
}

/// The names of `rights` come one before the other, so that none occurs twice.
pub open spec fn sorted_names(rights: Seq<(AuthorityName, usize)>) -> bool {
    forall|i: int, j: int|
        0 <= i < j < rights.len() ==> name_before((#[trigger] rights[i]).0, (#[trigger] rights[j]).0)
}

/// Where `entry` belongs among `rights`: behind the last entry that does not
/// come after it.
pub open spec fn place_of(rights: Seq<(AuthorityName, usize)>, entry: (AuthorityName, usize)) -> int
    decreases rights.len(),
{
    if rights.len() == 0 {
        0
    } else if name_before(entry.0, rights.last().0) {
        place_of(rights.drop_last(), entry)
    } else {
        rights.len() as int
    }
}

/// `rights` in the order of their names: each entry put where it belongs among
/// those before it.
pub open spec fn in_order(rights: Seq<(AuthorityName, usize)>) -> Seq<(AuthorityName, usize)>
    decreases rights.len(),
{
    if rights.len() == 0 {
        rights
    } else {
        let earlier = in_order(rights.drop_last());
        earlier.insert(place_of(earlier, rights.last()), rights.last())
    }
}

/// No name comes before itself.
pub proof fn lemma_before_irreflexive(name: AuthorityName)
    ensures
        !name_before(name, name),
{
}

/// The order of names is transitive.
pub proof fn lemma_before_transitive(
    first: AuthorityName,
    second: AuthorityName,
    third: AuthorityName,
)
    requires
        name_before(first, second),
        name_before(second, third),
    ensures
        name_before(first, third),
{
    let i = choose|at: int| 0 <= at < 32 && #[trigger] smaller_at(first, second, at);
    let k = choose|at: int| 0 <= at < 32 && #[trigger] smaller_at(second, third, at);
    if i <= k {
        assert(smaller_at(first, third, i));
    } else {
        assert(smaller_at(first, third, k));
    }
}

/// Of two different names one comes before the other.
pub proof fn lemma_before_total(first: AuthorityName, second: AuthorityName)
    ensures
        first == second || name_before(first, second) || name_before(second, first),
{
    lemma_first_difference(first, second, 0);
}

proof fn lemma_first_difference(first: AuthorityName, second: AuthorityName, n: int)
    requires
        0 <= n <= 32,
        forall|j: int| 0 <= j < n ==> first.0[j] == second.0[j],
    ensures
        first == second || name_before(first, second) || name_before(second, first),
    decreases 32 - n,
{
    if n == 32 {
        assert(first.0 =~= second.0);
    } else if first.0[n] == second.0[n] {
        lemma_first_difference(first, second, n + 1);
    } else if first.0[n] < second.0[n] {
        assert(smaller_at(first, second, n));
    } else {
        assert(smaller_at(second, first, n));
    }
}

/// Names in order are pairwise distinct.
pub proof fn lemma_sorted_distinct(rights: Seq<(AuthorityName, usize)>)
    requires
        sorted_names(rights),
    ensures
        distinct_names(rights),
{
    assert forall|i: int, j: int| 0 <= i < j < rights.len() implies rights[i].0
        != rights[j].0 by {
        assert(name_before(rights[i].0, rights[j].0));
        lemma_before_irreflexive(rights[i].0);
    }
}

/// Where no name occurs twice, each listed authority has the right of its entry.
pub proof fn lemma_weight_of_entry(rights: Seq<(AuthorityName, usize)>, i: int)
    requires
        distinct_names(rights),
        0 <= i < rights.len(),
    ensures
        weight_in(rights, rights[i].0) == rights[i].1,
    decreases rights.len(),
{
    if i > 0 {
        let rest = rights.drop_first();
        assert forall|a: int, b: int| 0 <= a < b < rest.len() implies rest[a].0 != rest[b].0 by {
            assert(rest[a] == rights[a + 1] && rest[b] == rights[b + 1]);
        }
        assert(rest[i - 1] == rights[i]);
        lemma_weight_of_entry(rest, i - 1);
        assert(rights[0].0 != rights[i].0);
    }
}

/// An authority that is not listed has no right.
pub proof fn lemma_weight_of_stranger(rights: Seq<(AuthorityName, usize)>, author: AuthorityName)
    requires
        forall|i: int| 0 <= i < rights.len() ==> (#[trigger] rights[i]).0 != author,
    ensures
        weight_in(rights, author) == 0,
    decreases rights.len(),
{
    if rights.len() > 0 {
        let rest = rights.drop_first();
        assert forall|i: int| 0 <= i < rest.len() implies (#[trigger] rest[i]).0 != author by {
            assert(rest[i] == rights[i + 1]);
        }
        lemma_weight_of_stranger(rest, author);
        assert(rights[0].0 != author);
    }
}

/// Putting an entry in adds its right to the sum.
pub proof fn lemma_sum_with_entry(
    rights: Seq<(AuthorityName, usize)>,
    place: int,
    entry: (AuthorityName, usize),
)
    requires
        0 <= place <= rights.len(),
    ensures
        sum_of_votes(rights.insert(place, entry)) == sum_of_votes(rights) + entry.1,
    decreases rights.len(),
{
    let longer = rights.insert(place, entry);
    if place == rights.len() {
        assert(longer.drop_last() =~= rights);
    } else {
        assert(longer.drop_last() =~= rights.drop_last().insert(place, entry));
        assert(longer.last() == rights.last());
        lemma_sum_with_entry(rights.drop_last(), place, entry);
    }
}

/// The place of an entry among names in order parts those that come before it
/// from those that come after it, so that the names stay in order with the
/// entry at its place.
pub proof fn lemma_place_of(rights: Seq<(AuthorityName, usize)>, entry: (AuthorityName, usize))
    requires
        sorted_names(rights),
        forall|i: int| 0 <= i < rights.len() ==> (#[trigger] rights[i]).0 != entry.0,
    ensures
        0 <= place_of(rights, entry) <= rights.len(),
        sorted_names(rights.insert(place_of(rights, entry), entry)),
    decreases rights.len(),
{
    let place = place_of(rights, entry);
    lemma_place_parts(rights, entry);
    let longer = rights.insert(place, entry);
    assert forall|i: int, j: int| 0 <= i < j < longer.len() implies name_before(
        (#[trigger] longer[i]).0,
        (#[trigger] longer[j]).0,
    ) by {
        if j < place {
            assert(longer[i] == rights[i] && longer[j] == rights[j]);
        } else if j == place {
            assert(longer[i] == rights[i]);
        } else if i < place {
            assert(longer[i] == rights[i] && longer[j] == rights[j - 1]);
            assert(name_before(rights[i].0, rights[j - 1].0));
        } else if i == place {
            assert(longer[j] == rights[j - 1]);
        } else {
            assert(longer[i] == rights[i - 1] && longer[j] == rights[j - 1]);
        }
    }
}

proof fn lemma_place_parts(rights: Seq<(AuthorityName, usize)>, entry: (AuthorityName, usize))
    requires
        sorted_names(rights),
        forall|i: int| 0 <= i < rights.len() ==> (#[trigger] rights[i]).0 != entry.0,
    ensures
        0 <= place_of(rights, entry) <= rights.len(),
        forall|i: int|
            0 <= i < place_of(rights, entry) ==> name_before((#[trigger] rights[i]).0, entry.0),
        forall|i: int|
            place_of(rights, entry) <= i < rights.len() ==> name_before(
                entry.0,
                (#[trigger] rights[i]).0,
            ),
    decreases rights.len(),
{
    if rights.len() > 0 {
        let earlier = rights.drop_last();
        let last = rights.len() - 1;
        assert forall|i: int, j: int| 0 <= i < j < earlier.len() implies name_before(
            (#[trigger] earlier[i]).0,
            (#[trigger] earlier[j]).0,
        ) by {
            assert(earlier[i] == rights[i] && earlier[j] == rights[j]);
        }
        assert forall|i: int| 0 <= i < earlier.len() implies (#[trigger] earlier[i]).0
            != entry.0 by {
            assert(earlier[i] == rights[i]);
        }
        if name_before(entry.0, rights.last().0) {
            lemma_place_parts(earlier, entry);
            assert forall|i: int| 0 <= i < place_of(rights, entry) implies name_before(
                (#[trigger] rights[i]).0,
                entry.0,
            ) by {
                assert(earlier[i] == rights[i]);
            }
            assert forall|i: int| place_of(rights, entry) <= i < rights.len() implies name_before(
                entry.0,
                (#[trigger] rights[i]).0,
            ) by {
                if i < last {
                    assert(earlier[i] == rights[i]);
                }
            }
        } else {
            lemma_before_total(rights[last].0, entry.0);
            assert(rights[last].0 != entry.0);
            assert forall|i: int| 0 <= i < rights.len() implies name_before(
                (#[trigger] rights[i]).0,
                entry.0,
            ) by {
                if i < last {
                    assert(name_before(rights[i].0, rights[last].0));
                    lemma_before_transitive(rights[i].0, rights[last].0, entry.0);
                }
            }
        }
    }
}

/// As many voting rights as a list can hold, and one more, add up to a number
/// of 128 bits.
pub proof fn lemma_rights_fit(count: int)
    requires
        0 <= count <= usize::MAX,
    ensures
        count * usize::MAX + usize::MAX <= u128::MAX,
{
    assert(count * usize::MAX <= usize::MAX * usize::MAX) by (nonlinear_arith)
        requires
            0 <= count <= usize::MAX,
    ;
    assert(usize::MAX * usize::MAX + usize::MAX <= u128::MAX) by (nonlinear_arith)
        requires
            usize::MAX <= 0xffff_ffff_ffff_ffff,
    ;
}

/// Smallest weight that certifies, given the total weight: more than two thirds.
pub open spec fn spec_quorum(total_votes: int) -> int {
    2 * total_votes / 3 + 1
}

/// A third of the total weight, rounded up.
pub open spec fn spec_validity(total_votes: int) -> int {
    (total_votes + 2) / 3
}

/// The fixed, weighted membership of the bridge.
#[derive(Eq, PartialEq, Clone, Hash, Debug)]
pub struct Committee {
    /// The voting right of each member, in the order of the names.
    pub voting_rights: Vec<(AuthorityName, usize)>,
    /// The sum of all voting rights.
    pub total_votes: usize,
}

/// Whether `first` comes before `second` in the order of names.
pub fn comes_before(first: &AuthorityName, second: &AuthorityName) -> (before: bool)
    ensures
        before == name_before(*first, *second),
{
    let mut i: usize = 0;
    while i < 32
        invariant
            i <= 32,
            forall|j: int| 0 <= j < i ==> first.0[j] == second.0[j],
        decreases 32 - i,
    {
        if first.0[i] < second.0[i] {
            assert(smaller_at(*first, *second, i as int));
            return true;
        }
        if first.0[i] > second.0[i] {
            assert forall|at: int| 0 <= at < 32 implies !#[trigger] smaller_at(
                *first,
                *second,
                at,
            ) by {
                if at > i {
                    assert(first.0[i as int] != second.0[i as int]);
                }
            }
            return false;
        }
        i = i + 1;
    }
    false
}

/// Two lists hold the same entries, in whatever order.
pub open spec fn same_entries(
    first: Seq<(AuthorityName, usize)>,
    second: Seq<(AuthorityName, usize)>,
) -> bool {
    forall|entry: (AuthorityName, usize)|
        #![trigger first.contains(entry)]
        #![trigger second.contains(entry)]
        first.contains(entry) <==> second.contains(entry)
}

/// Two lists with the same entries stay so where one gets a new entry at some
/// place and the other at its end.
pub proof fn lemma_entries_with(
    first: Seq<(AuthorityName, usize)>,
    place: int,
    second: Seq<(AuthorityName, usize)>,
    entry: (AuthorityName, usize),
)
    requires
        same_entries(first, second),
    ensures
        0 <= place <= first.len() ==> same_entries(first.insert(place, entry), second.push(entry)),
{
    if 0 <= place <= first.len() {
        let wider = first.insert(place, entry);
        let longer = second.push(entry);
        assert forall|other: (AuthorityName, usize)| wider.contains(other) <==> longer.contains(
            other,
        ) by {
            if wider.contains(other) {
                let k = choose|k: int| 0 <= k < wider.len() && wider[k] == other;
                if k < place {
                    assert(first[k] == other);
                    assert(first.contains(other));
                } else if k > place {
                    assert(first[k - 1] == other);
                    assert(first.contains(other));
                }
                if second.contains(other) {
                    let m = choose|m: int| 0 <= m < second.len() && second[m] == other;
                    assert(longer[m] == other);
                } else {
                    assert(longer[second.len() as int] == other);
                }
            }
            if longer.contains(other) {
                let m = choose|m: int| 0 <= m < longer.len() && longer[m] == other;
                if m < second.len() {
                    assert(second[m] == other);
                    assert(second.contains(other));
                    let k = choose|k: int| 0 <= k < first.len() && first[k] == other;
                    if k < place {
                        assert(wider[k] == other);
                    } else {
                        assert(wider[k + 1] == other);
                    }
                } else {
                    assert(wider[place] == other);
                }
            }
        }
    }
}

/// Two lists with the same entries, none of which repeats a name, give every
/// authority the same right.
pub proof fn lemma_same_weights(
    first: Seq<(AuthorityName, usize)>,
    second: Seq<(AuthorityName, usize)>,
)
    requires
        distinct_names(first),
        distinct_names(second),
        same_entries(first, second),
    ensures
        forall|author: AuthorityName| #[trigger]
            weight_in(first, author) == weight_in(second, author),
{
    assert forall|author: AuthorityName| #[trigger]
        weight_in(first, author) == weight_in(second, author) by {
        if exists|k: int| 0 <= k < first.len() && (#[trigger] first[k]).0 == author {
            let k = choose|k: int| 0 <= k < first.len() && (#[trigger] first[k]).0 == author;
            assert(first.contains(first[k]));
            assert(second.contains(first[k]));
            let m = choose|m: int| 0 <= m < second.len() && second[m] == first[k];
            lemma_weight_of_entry(first, k);
            lemma_weight_of_entry(second, m);
        } else {
            assert forall|m: int| 0 <= m < second.len() implies (#[trigger] second[m]).0
                != author by {
                assert(second.contains(second[m]));
                assert(first.contains(second[m]));
                let k = choose|k: int| 0 <= k < first.len() && first[k] == second[m];
                assert(first[k].0 != author);
            }
            lemma_weight_of_stranger(first, author);
            lemma_weight_of_stranger(second, author);
        }
    }
}

/// Puts `entry` at its place among `rights`, which are in the order of their
/// names and do not hold its name.
fn put_in_order(rights: &mut Vec<(AuthorityName, usize)>, entry: (AuthorityName, usize))
    requires
        sorted_names(old(rights)@),
        forall|i: int| 0 <= i < old(rights)@.len() ==> (#[trigger] old(rights)@[i]).0 != entry.0,
    ensures
        final(rights)@ == old(rights)@.insert(place_of(old(rights)@, entry), entry),
        0 <= place_of(old(rights)@, entry) <= old(rights)@.len(),
        sorted_names(final(rights)@),
        sum_of_votes(final(rights)@) == sum_of_votes(old(rights)@) + entry.1,
{
    proof {
        lemma_place_of(rights@, entry);
        lemma_sum_with_entry(rights@, place_of(rights@, entry), entry);
    }
    let mut at: usize = rights.len();
    assert(rights@.subrange(0, at as int) == rights@);
    while at > 0 && comes_before(&entry.0, &rights[at - 1].0)
        invariant
            at <= rights.len(),
            place_of(rights@, entry) == place_of(rights@.subrange(0, at as int), entry),
        decreases at,
    {
        assert(rights@.subrange(0, at as int).drop_last() =~= rights@.subrange(0, at - 1));
        at = at - 1;
    }
    assert(at == place_of(rights@, entry)) by {
        if at > 0 {
            assert(rights@.subrange(0, at as int).last() == rights@[at - 1]);
        }
    }
    rights.insert(at, entry);
}

impl Committee {
    /// The members are listed in the order of their names, each once, and the
    /// total is the sum of their rights.
    pub open spec fn wf(&self) -> bool {
        &&& sorted_names(self.voting_rights@)
        &&& self.total_votes == sum_of_votes(self.voting_rights@)
    }

    /// The voting right of `author` in this committee.
    pub open spec fn spec_weight(&self, author: AuthorityName) -> usize {
        weight_in(self.voting_rights@, author)
    }

    /// Makes the committee in which each listed authority has the listed right:
    /// the entries are kept in the order of their names.
    pub fn new(voting_rights: Vec<(AuthorityName, usize)>) -> (committee: Self)
        requires
            distinct_names(voting_rights@),
            sum_of_votes(voting_rights@) <= usize::MAX,
        ensures
            committee.wf(),
            committee.voting_rights@ == in_order(voting_rights@),
            committee.total_votes == sum_of_votes(voting_rights@),
            forall|author: AuthorityName| #[trigger]
                committee.spec_weight(author) == weight_in(voting_rights@, author),
    {
        let mut sorted: Vec<(AuthorityName, usize)> = Vec::new();
        let mut total_votes: usize = 0;
        let mut i: usize = 0;
        assert(voting_rights@.subrange(0, 0) =~= Seq::<(AuthorityName, usize)>::empty());
        while i < voting_rights.len()
            invariant
                i <= voting_rights.len(),
                distinct_names(voting_rights@),
                sum_of_votes(voting_rights@) <= usize::MAX,
                sorted@ == in_order(voting_rights@.subrange(0, i as int)),
                sorted_names(sorted@),
                total_votes == sum_of_votes(sorted@),
                total_votes == sum_of_votes(voting_rights@.subrange(0, i as int)),
                same_entries(sorted@, voting_rights@.subrange(0, i as int)),
            decreases voting_rights.len() - i,
        {
            let entry = voting_rights[i];
            proof {
                let earlier = voting_rights@.subrange(0, i as int);
                let longer = voting_rights@.subrange(0, i + 1);
                assert(longer.drop_last() =~= earlier);
                assert(longer.last() == entry);
                lemma_sum_of_votes_prefix(voting_rights@, i + 1);
                assert forall|k: int| 0 <= k < sorted@.len() implies (#[trigger] sorted@[k]).0
                    != entry.0 by {
                    assert(sorted@.contains(sorted@[k]));
                    assert(earlier.contains(sorted@[k]));
                    let m = choose|m: int| 0 <= m < earlier.len() && earlier[m] == sorted@[k];
                    assert(voting_rights@[m].0 != voting_rights@[i as int].0);
                }
                lemma_entries_with(sorted@, place_of(sorted@, entry), earlier, entry);
                assert(longer =~= earlier.push(entry));
            }
            put_in_order(&mut sorted, entry);
            total_votes = total_votes + entry.1;
            i = i + 1;
        }
        assert(voting_rights@.subrange(0, i as int) == voting_rights@);
        proof {
            lemma_sorted_distinct(sorted@);
            lemma_same_weights(sorted@, voting_rights@);
        }
        Committee { voting_rights: sorted, total_votes }
    }

    /// The voting right of `author`: 0 for a stranger.
    pub fn weight(&self, author: &AuthorityName) -> (weight: usize)
        ensures
            weight == self.spec_weight(*author),
    {
        let mut i: usize = 0;
        assert(self.voting_rights@.skip(0) == self.voting_rights@);
        while i < self.voting_rights.len()
            invariant
                i <= self.voting_rights.len(),
                weight_in(self.voting_rights@, *author) == weight_in(
                    self.voting_rights@.skip(i as int),
                    *author,
                ),
            decreases self.voting_rights.len() - i,
        {
            if self.voting_rights[i].0 == *author {
                return self.voting_rights[i].1;
            }
            assert(self.voting_rights@.skip(i as int).drop_first() == self.voting_rights@.skip(
                i + 1,
            ));
            i = i + 1;
        }
        0
    }

    /// The smallest weight that makes a certificate.
    pub fn quorum_threshold(&self) -> (threshold: usize)
        ensures
            threshold == spec_quorum(self.total_votes as int),
            threshold == 2 * self.total_votes / 3 + 1,
    {
        // With N = 3f + 1 + k (0 <= k < 3), 2N / 3 + 1 = 2f + 1 + k = N - f.
        let third: usize = self.total_votes / 3;
        let rest: usize = self.total_votes % 3;
        third * 2 + rest * 2 / 3 + 1
    }

    /// A third of the total weight, rounded up.
    pub fn validity_threshold(&self) -> (threshold: usize)
        ensures
            threshold == spec_validity(self.total_votes as int),
            threshold == (self.total_votes + 2) / 3,
    {
        // With N = 3f + 1 + k (0 <= k < 3), (N + 2) / 3 = f + 1.
        let third: usize = self.total_votes / 3;
        let rest: usize = self.total_votes % 3;
        third + (rest + 2) / 3
    }
}

/// The sum over a prefix of `rights` is at most the sum over all of it.
pub proof fn lemma_sum_of_votes_prefix(rights: Seq<(AuthorityName, usize)>, n: int)
    requires
        0 <= n <= rights.len(),
    ensures
        sum_of_votes(rights.subrange(0, n)) <= sum_of_votes(rights),
    decreases rights.len(),
{
    if n == rights.len() {
        assert(rights.subrange(0, n) == rights);
    } else {
        assert(rights.drop_last().subrange(0, n) == rights.subrange(0, n));
        lemma_sum_of_votes_prefix(rights.drop_last(), n);
    }
}

} // verus!
