use rand::Rng;
use std::collections::HashSet;
use vstd::prelude::*;
use vstd::std_specs::hash::spec_hash_keys_iter;
use vstd::std_specs::iter::IteratorSpec;

verus! {

/// What a gossip message to one neighbour may hold. `messages` is all the
/// sender has learned and `known` what it believes the neighbour has. The
/// message carries everything the neighbour is not known to have, nothing the
/// sender has not learned, and on top of the news at most a tenth of their
/// number in values the neighbour has already.
pub open spec fn worth_sending(messages: Set<u64>, known: Set<u64>, seen: Set<u64>) -> bool {
    let news = messages.difference(known);
    &&& news.subset_of(seen)
    &&& seen.subset_of(messages)
    &&& seen.finite()
    &&& seen.len() <= news.len() + news.len() / 10
}

/// The candidates that a run of draws selects: a candidate is taken where its
/// flag is set, in order, until `cap` have been taken. A candidate without a
/// flag is not taken.
pub open spec fn chosen(candidates: Seq<u64>, flags: Seq<bool>, cap: nat) -> Seq<u64>
    decreases candidates.len(),
{
    if candidates.len() == 0 {
        Seq::empty()
    } else {
        let before = chosen(candidates.drop_last(), flags, cap);
        let last = candidates.len() - 1;
        if last < flags.len() && flags[last] && before.len() < cap {
            before.push(candidates.last())
        } else {
            before
        }
    }
}

/// No more than `cap` candidates are chosen, and only candidates.
pub proof fn lemma_chosen_bounds(candidates: Seq<u64>, flags: Seq<bool>, cap: nat)
    ensures
        chosen(candidates, flags, cap).len() <= cap,
        chosen(candidates, flags, cap).len() <= candidates.len(),
        forall|x: u64| #[trigger]
            chosen(candidates, flags, cap).contains(x) ==> candidates.contains(x),
    decreases candidates.len(),
{
    if candidates.len() > 0 {
        let rest = candidates.drop_last();
        lemma_chosen_bounds(rest, flags, cap);
        let before = chosen(rest, flags, cap);
        assert forall|x: u64| #[trigger]
            chosen(candidates, flags, cap).contains(x) implies candidates.contains(x) by {
            if before.contains(x) {
                let i = choose|i: int| 0 <= i < rest.len() && rest[i] == x;
                assert(candidates[i] == x);
            } else {
                assert(candidates[candidates.len() - 1] == x);
            }
        }
    }
}

/// Gossip never holds redundant values only: to a neighbour that is known
/// to have everything, nothing is sent, and with fewer than ten news the
/// news are all that is sent.
pub proof fn lemma_few_news_no_extras(messages: Set<u64>, known: Set<u64>, seen: Set<u64>)
    requires
        messages.finite(),
        worth_sending(messages, known, seen),
        messages.difference(known).len() < 10,
    ensures
        seen == messages.difference(known),
        messages.subset_of(known) ==> seen == Set::<u64>::empty(),
{
    let news = messages.difference(known);
    vstd::set_lib::lemma_len_difference(messages, known);
    vstd::set_lib::lemma_len_subset(news, seen);
    vstd::set_lib::lemma_subset_equality(news, seen);
    if messages.subset_of(known) {
        assert(news =~= Set::<u64>::empty());
    }
}

/// A hash set holds finitely many values.
pub proof fn lemma_hash_set_finite(set: &HashSet<u64>)
    ensures
        set@.finite(),
{
    broadcast use vstd::std_specs::hash::group_hash_axioms;
    broadcast use vstd::seq_lib::seq_to_set_is_finite;

    assert(spec_hash_keys_iter(set).remaining().unref().to_set().finite());
}

/// A copy of `set`.
pub fn copy_set(set: &HashSet<u64>) -> (copy: HashSet<u64>)
    ensures
        copy@ == set@,
{
    let mut copy: HashSet<u64> = HashSet::new();
    extend_set(&mut copy, set);
    copy
}

/// Adds every value of `more` to `set`.
pub fn extend_set(set: &mut HashSet<u64>, more: &HashSet<u64>)
    ensures
        final(set)@ == old(set)@.union(more@),
{
    broadcast use vstd::std_specs::hash::group_hash_axioms;

    let ghost keys: Seq<u64> = more.iter().remaining().unref();
    let ghost mut done: int = 0;
    for value in it: more.iter()
        invariant
            it.seq().unref() == keys,
            keys.to_set() == more@,
            done == it.index(),
            set@ == old(set)@.union(keys.take(done).to_set()),
    {
        assert(keys[done] == *value);
        assert(keys.take(done + 1) =~= keys.take(done).push(*value));
        assert(keys.take(done).push(*value).to_set() =~= keys.take(done).to_set().insert(*value))
            by {
            keys.take(done).lemma_push_to_set_commute(*value);
        }
        set.insert(*value);
        proof {
            done = done + 1;
        }
    }
    assert(keys.take(done) =~= keys);
}

/// Adds every value of `more` to `set`.
pub fn extend_with(set: &mut HashSet<u64>, more: &Vec<u64>)
    ensures
        final(set)@ == old(set)@.union(more@.to_set()),
{
    let mut i: usize = 0;
    while i < more.len()
        invariant
            i <= more.len(),
            set@ == old(set)@.union(more@.take(i as int).to_set()),
        decreases more.len() - i,
    {
        assert(more@.take(i + 1) =~= more@.take(i as int).push(more[i as int]));
        assert(more@.take(i as int).push(more[i as int]).to_set() =~= more@.take(
            i as int,
        ).to_set().insert(more[i as int])) by {
            more@.take(i as int).lemma_push_to_set_commute(more[i as int]);
        }
        set.insert(more[i]);
        i += 1;
    }
    assert(more@.take(i as int) =~= more@);
}

/// Splits what a node has learned by what a neighbour is known to have:
/// first the values the neighbour has, each once, then the news.
pub fn split_known(messages: &HashSet<u64>, known: &HashSet<u64>) -> (parts: (
    Vec<u64>,
    HashSet<u64>,
))
    ensures
        parts.0@.to_set() == messages@.intersect(known@),
        parts.0@.no_duplicates(),
        parts.1@ == messages@.difference(known@),
{
    broadcast use vstd::std_specs::hash::group_hash_axioms;

    let mut already: Vec<u64> = Vec::new();
    let mut news: HashSet<u64> = HashSet::new();
    let ghost keys: Seq<u64> = messages.iter().remaining().unref();
    let ghost mut origin: Seq<int> = Seq::empty();
    let ghost mut done: int = 0;
    for value in it: messages.iter()
        invariant
            it.seq().unref() == keys,
            keys.to_set() == messages@,
            keys.no_duplicates(),
            done == it.index(),
            forall|j: int|
                0 <= j < done ==> if known@.contains(#[trigger] keys[j]) {
                    already@.contains(keys[j])
                } else {
                    news@.contains(keys[j])
                },
            forall|x: u64| #[trigger] news@.contains(x) ==> !known@.contains(x) && messages@.contains(x),
            origin.len() == already.len(),
            forall|i: int|
                0 <= i < already.len() ==> 0 <= #[trigger] origin[i] < done && already[i]
                    == keys[origin[i]] && known@.contains(already[i]),
            forall|i: int, j: int| 0 <= i < j < already.len() ==> origin[i] != origin[j],
    {
        assert(keys[done] == *value);
        let ghost before = already@;
        if known.contains(value) {
            already.push(*value);
            proof {
                origin = origin.push(done);
            }
        } else {
            news.insert(*value);
        }
        proof {
            assert forall|j: int| 0 <= j < done + 1 && known@.contains(
                #[trigger] keys[j],
            ) implies already@.contains(keys[j]) by {
                if j < done {
                    let i = choose|i: int| 0 <= i < before.len() && before[i] == keys[j];
                    assert(already@[i] == keys[j]);
                } else {
                    assert(already@[already.len() - 1] == keys[j]);
                }
            }
            done = done + 1;
        }
    }
    proof {
        assert forall|x: u64| messages@.difference(known@).contains(x) implies news@.contains(
            x,
        ) by {
            let j = choose|j: int| 0 <= j < keys.len() && keys[j] == x;
            assert(keys[j] == x);
        }
        assert forall|x: u64| messages@.intersect(known@).contains(x) implies already@.to_set().contains(
            x,
        ) by {
            let j = choose|j: int| 0 <= j < keys.len() && keys[j] == x;
            assert(keys[j] == x);
        }
        assert forall|x: u64| already@.to_set().contains(x) implies messages@.intersect(
            known@,
        ).contains(x) by {
            let i = choose|i: int| 0 <= i < already.len() && already[i] == x;
            assert(keys.to_set().contains(keys[origin[i]]));
        }
        assert forall|i: int, j: int| 0 <= i < j < already.len() implies already[i]
            != already[j] by {
            assert(origin[i] != origin[j]);
        }
    }
    (already, news)
}

/// One draw of `rand`'s `Rng::gen_ratio` on the generator that
/// `rand::thread_rng` hands out: true with probability
/// `numerator / denominator`. Of the outcome only the two certain cases are
/// claimed, as that method documents them: a zero numerator never hits, a
/// numerator equal to the denominator always does. The method panics on a
/// zero denominator and on a numerator above the denominator, which the
/// precondition excludes; `thread_rng` panics where the operating system
/// cannot seed the generator, which no precondition can exclude. Nothing
/// here is proved: the contract is taken on trust from `rand`.
#[verifier::external_body]
fn draw_ratio(numerator: u32, denominator: u32) -> (hit: bool)
    requires
        0 < denominator,
        numerator <= denominator,
    ensures
        numerator == 0 ==> !hit,
        numerator == denominator ==> hit,
{
    rand::thread_rng().gen_ratio(numerator, denominator)
}

/// The count as a 32-bit number, which is what the generator takes a ratio
/// of; a count too large for that stands as the largest there is.
fn saturate(n: usize) -> (r: u32)
    ensures
        r == if n <= u32::MAX {
            n as int
        } else {
            u32::MAX as int
        },
{
    if n <= u32::MAX as usize {
        n as u32
    } else {
        u32::MAX
    }
}

/// Draws one flag for each of `candidates` values, each set with probability
/// `cap / candidates` (certainly, where `cap` is no smaller), so that about
/// `cap` flags are set. With a zero cap no flag is set.
pub fn sample_flags(candidates: usize, cap: usize) -> (flags: Vec<bool>)
    ensures
        flags.len() == candidates,
        cap == 0 ==> forall|i: int| 0 <= i < flags.len() ==> !flags[i],
        cap >= candidates ==> forall|i: int| 0 <= i < flags.len() ==> flags[i],
{
    let wanted = if cap < candidates {
        cap
    } else {
        candidates
    };
    let numerator = saturate(wanted);
    let denominator = saturate(candidates);
    let mut flags: Vec<bool> = Vec::new();
    let mut i: usize = 0;
    while i < candidates
        invariant
            i <= candidates,
            flags.len() == i,
            numerator <= denominator,
            candidates > 0 ==> denominator > 0,
            cap == 0 ==> numerator == 0,
            cap >= candidates ==> numerator == denominator,
            cap == 0 ==> forall|j: int| 0 <= j < flags.len() ==> !flags[j],
            cap >= candidates ==> forall|j: int| 0 <= j < flags.len() ==> flags[j],
        decreases candidates - i,
    {
        let hit = draw_ratio(numerator, denominator);
        flags.push(hit);
        i += 1;
    }
    flags
}

/// The candidates that the flags select, up to `cap` of them.
pub fn pick(candidates: &Vec<u64>, flags: &Vec<bool>, cap: usize) -> (picked: Vec<u64>)
    ensures
        picked@ == chosen(candidates@, flags@, cap as nat),
{
    let mut picked: Vec<u64> = Vec::new();
    let mut i: usize = 0;
    while i < candidates.len()
        invariant
            i <= candidates.len(),
            picked@ == chosen(candidates@.take(i as int), flags@, cap as nat),
        decreases candidates.len() - i,
    {
        assert(candidates@.take(i + 1).drop_last() =~= candidates@.take(i as int));
        if i < flags.len() && flags[i] && picked.len() < cap {
            picked.push(candidates[i]);
        }
        i += 1;
    }
    assert(candidates@.take(i as int) =~= candidates@);
    picked
}

/// The values to gossip to a neighbour that is known to have `known`: all the
/// news, and a random sample of what it has already, capped at a tenth of the
/// number of news. Re-sending a little of what the neighbour has lets the
/// neighbour learn that this node has it too, so that it stops sending those
/// values back.
pub fn gossip_set(messages: &HashSet<u64>, known: &HashSet<u64>) -> (seen: HashSet<u64>)
    ensures
        worth_sending(messages@, known@, seen@),
{
    broadcast use vstd::std_specs::hash::group_hash_axioms;

    let (already, news) = split_known(messages, known);
    let cap = news.len() / 10;
    let flags = sample_flags(already.len(), cap);
    let extra = pick(&already, &flags, cap);
    let mut seen = news;
    extend_with(&mut seen, &extra);
    proof {
        let fresh = messages@.difference(known@);
        lemma_chosen_bounds(already@, flags@, cap as nat);
        lemma_hash_set_finite(&news);
        extra@.lemma_cardinality_of_set();
        vstd::seq_lib::seq_to_set_is_finite(extra@);
        vstd::set_lib::lemma_len_union(fresh, extra@.to_set());
        assert forall|x: u64| seen@.contains(x) implies messages@.contains(x) by {
            if !fresh.contains(x) {
                assert(extra@.contains(x));
                assert(already@.to_set().contains(x));
            }
        }
    }
    seen
}

} // verus!
