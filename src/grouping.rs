//! Grouping of selections by artist.
use std::collections::HashSet;
use vstd::prelude::*;
use crate::parser::pairs_view;

verus! {

broadcast use vstd::std_specs::hash::group_hash_axioms;

/// One group per maximal run of consecutive selections that name the same
/// artist, in order, each holding the set of that run's indices.
pub open spec fn group_spec(s: Seq<(Seq<char>, usize)>) -> Seq<(Seq<char>, Set<usize>)>
    decreases s.len(),
{
    if s.len() == 0 {
        Seq::empty()
    } else {
        let g = group_spec(s.drop_last());
        let (a, n) = s.last();
        if g.len() > 0 && g.last().0 == a {
            g.update(g.len() - 1, (a, g.last().1.insert(n)))
        } else {
            g.push((a, set![n]))
        }
    }
}

/// The groups as values of mathematics.
pub open spec fn groups_view(v: Seq<(String, HashSet<usize>)>) -> Seq<(Seq<char>, Set<usize>)> {
    v.map_values(|p: (String, HashSet<usize>)| (p.0@, p.1@))
}

/// Groups consecutive selections of the same artist. Input sorted by artist
/// yields one group per artist; an artist that reappears after another one
/// starts a new group.
pub fn group_by_artist(input: Vec<(String, usize)>) -> (r: Vec<(String, HashSet<usize>)>)
    ensures
        groups_view(r@) == group_spec(pairs_view(input@)),
{
    let mut results: Vec<(String, HashSet<usize>)> = Vec::new();
    let mut submissions: HashSet<usize> = HashSet::new();
    let mut current_artist = String::new();
    let mut i: usize = 0;
    while i < input.len()
        invariant
            i <= input@.len(),
            i == 0 ==> results@.len() == 0,
            i > 0 ==> groups_view(results@).push((current_artist@, submissions@)) == group_spec(
                pairs_view(input@.take(i as int)),
            ),
        decreases input@.len() - i,
    {
        let artist = input[i].0.clone();
        let number = input[i].1;
        let ghost g = group_spec(pairs_view(input@.take(i as int)));
        let ghost gv = groups_view(results@);
        proof {
            assert(pairs_view(input@.take(i + 1)).drop_last() =~= pairs_view(input@.take(i as int)));
            assert(pairs_view(input@.take(i + 1)).last() == (artist@, number));
        }
        if i == 0 {
            current_artist = artist;
            submissions = HashSet::new();
            submissions.insert(number);
            proof {
                assert(pairs_view(input@.take(0)) =~= Seq::empty());
                assert(submissions@ =~= set![number]);
                assert(groups_view(results@).push((current_artist@, submissions@)) =~= Seq::<
                    (Seq<char>, Set<usize>),
                >::empty().push((artist@, set![number])));
            }
        } else if current_artist == artist {
            submissions.insert(number);
            proof {
                assert(groups_view(results@).push((current_artist@, submissions@)) =~= g.update(
                    g.len() - 1,
                    (artist@, g.last().1.insert(number)),
                ));
            }
        } else {
            results.push((current_artist, submissions));
            current_artist = artist;
            submissions = HashSet::new();
            submissions.insert(number);
            proof {
                assert(submissions@ =~= set![number]);
                assert(groups_view(results@) =~= g);
            }
        }
        i = i + 1;
    }
    if i > 0 {
        results.push((current_artist, submissions));
        proof {
            assert(input@.take(i as int) =~= input@);
        }
    } else {
        proof {
            assert(pairs_view(input@) =~= Seq::empty());
            assert(groups_view(results@) =~= Seq::empty());
        }
    }
    results
}

} // verus!
