//! Association lists keyed by 64-bit identifiers: a front-to-back lookup
//! with the update, insertion and removal lemmas the library's small maps
//! rest on.

use vstd::prelude::*;

verus! {

/// All entries carry distinct ids.
pub open spec fn assoc_distinct<T>(peers: Seq<(u64, T)>) -> bool {
    forall|i: int, j: int| #![trigger peers[i], peers[j]]
        0 <= i < j < peers.len() ==> peers[i].0 != peers[j].0
}

pub open spec fn assoc_lookup<T>(peers: Seq<(u64, T)>, id: u64) -> Option<T>
    decreases peers.len(),
{
    if peers.len() == 0 {
        None
    } else if peers[0].0 == id {
        Some(peers[0].1)
    } else {
        assoc_lookup(peers.drop_first(), id)
    }
}

pub proof fn lemma_assoc_found<T>(peers: Seq<(u64, T)>, id: u64, i: int)
    requires
        assoc_distinct(peers),
        0 <= i < peers.len(),
        peers[i].0 == id,
    ensures
        assoc_lookup(peers, id) == Some(peers[i].1),
    decreases peers.len(),
{
    if i == 0 {
    } else {
        assert(peers[0].0 != id);
        assert(peers.drop_first()[i - 1] == peers[i]);
        assert(assoc_distinct(peers.drop_first())) by {
            assert(forall|a: int, b: int| #![trigger peers.drop_first()[a], peers.drop_first()[b]]
                0 <= a < b < peers.len() - 1 ==> peers.drop_first()[a] == peers[a + 1]
                    && peers.drop_first()[b] == peers[b + 1]);
        }
        lemma_assoc_found(peers.drop_first(), id, i - 1);
    }
}

pub proof fn lemma_assoc_missing<T>(peers: Seq<(u64, T)>, id: u64)
    requires
        forall|j: int| 0 <= j < peers.len() ==> #[trigger] peers[j].0 != id,
    ensures
        assoc_lookup(peers, id) is None,
    decreases peers.len(),
{
    if peers.len() == 0 {
    } else {
        assert(forall|j: int| 0 <= j < peers.len() - 1 ==> #[trigger] peers.drop_first()[j]
            == peers[j + 1]);
        lemma_assoc_missing(peers.drop_first(), id);
    }
}

pub proof fn lemma_assoc_update<T>(
    peers: Seq<(u64, T)>,
    updated: Seq<(u64, T)>,
    i: int,
    id: u64,
    stats: T,
)
    requires
        assoc_distinct(peers),
        0 <= i < peers.len(),
        peers[i].0 == id,
        updated == peers.update(i, (id, stats)),
    ensures
        assoc_distinct(updated),
        assoc_lookup(updated, id) == Some(stats),
        forall|other: u64| other != id ==> #[trigger] assoc_lookup(updated, other) == assoc_lookup(peers, other),
    decreases peers.len(),
{
    assert(assoc_distinct(updated)) by {
        assert(forall|a: int| 0 <= a < peers.len() && a != i ==> #[trigger] updated[a] == peers[a]);
    }
    lemma_assoc_found(updated, id, i);
    assert forall|other: u64| other != id implies #[trigger] assoc_lookup(updated, other) == assoc_lookup(
        peers,
        other,
    ) by {
        lemma_assoc_agree(peers, updated, other);
    }
}

pub proof fn lemma_assoc_agree<T>(peers: Seq<(u64, T)>, other_seq: Seq<(u64, T)>, id: u64)
    requires
        peers.len() == other_seq.len(),
        forall|a: int| 0 <= a < peers.len() ==> #[trigger] peers[a].0 == other_seq[a].0,
        forall|a: int| 0 <= a < peers.len() && peers[a].0 == id ==> #[trigger] peers[a]
            == other_seq[a],
    ensures
        assoc_lookup(peers, id) == assoc_lookup(other_seq, id),
    decreases peers.len(),
{
    if peers.len() == 0 {
    } else if peers[0].0 == id {
        assert(peers[0] == other_seq[0]);
    } else {
        assert(forall|a: int| 0 <= a < peers.len() - 1 ==> #[trigger] peers.drop_first()[a]
            == peers[a + 1] && other_seq.drop_first()[a] == other_seq[a + 1]);
        lemma_assoc_agree(peers.drop_first(), other_seq.drop_first(), id);
    }
}

pub proof fn lemma_assoc_push<T>(peers: Seq<(u64, T)>, id: u64, stats: T)
    requires
        assoc_distinct(peers),
        assoc_lookup(peers, id) is None,
    ensures
        assoc_distinct(peers.push((id, stats))),
        assoc_lookup(peers.push((id, stats)), id) == Some(stats),
        forall|other: u64| other != id ==> #[trigger] assoc_lookup(peers.push((id, stats)), other)
            == assoc_lookup(peers, other),
    decreases peers.len(),
{
    lemma_assoc_none_no_entry(peers, id);
    let pushed = peers.push((id, stats));
    assert(assoc_distinct(pushed)) by {
        assert(forall|a: int| 0 <= a < peers.len() ==> #[trigger] pushed[a] == peers[a]);
        assert(pushed[peers.len() as int].0 == id);
    }
    lemma_assoc_found(pushed, id, peers.len() as int);
    assert forall|other: u64| other != id implies #[trigger] assoc_lookup(pushed, other) == assoc_lookup(
        peers,
        other,
    ) by {
        lemma_assoc_push_other(peers, id, stats, other);
    }
}

pub proof fn lemma_assoc_none_no_entry<T>(peers: Seq<(u64, T)>, id: u64)
    requires
        assoc_lookup(peers, id) is None,
    ensures
        forall|a: int| 0 <= a < peers.len() ==> #[trigger] peers[a].0 != id,
    decreases peers.len(),
{
    if peers.len() == 0 {
    } else {
        assert(peers[0].0 != id);
        lemma_assoc_none_no_entry(peers.drop_first(), id);
        assert(forall|a: int| 0 <= a < peers.len() - 1 ==> #[trigger] peers.drop_first()[a]
            == peers[a + 1]);
        assert forall|a: int| 0 <= a < peers.len() implies #[trigger] peers[a].0 != id by {
            if a > 0 {
                assert(peers.drop_first()[a - 1].0 != id);
            }
        }
    }
}

pub proof fn lemma_assoc_push_other<T>(
    peers: Seq<(u64, T)>,
    id: u64,
    stats: T,
    other: u64,
)
    requires
        other != id,
    ensures
        assoc_lookup(peers.push((id, stats)), other) == assoc_lookup(peers, other),
    decreases peers.len(),
{
    let pushed = peers.push((id, stats));
    if peers.len() == 0 {
        assert(pushed[0].0 == id);
        assert(pushed.drop_first() =~= Seq::<(u64, T)>::empty());
    } else {
        assert(pushed[0] == peers[0]);
        if peers[0].0 == other {
        } else {
            assert(pushed.drop_first() =~= peers.drop_first().push((id, stats)));
            lemma_assoc_push_other(peers.drop_first(), id, stats, other);
        }
    }
}

pub proof fn lemma_assoc_remove<T>(peers: Seq<(u64, T)>, i: int, id: u64)
    requires
        assoc_distinct(peers),
        0 <= i < peers.len(),
        peers[i].0 == id,
    ensures
        assoc_distinct(peers.remove(i)),
        assoc_lookup(peers.remove(i), id) is None,
        forall|other: u64| other != id ==> #[trigger] assoc_lookup(peers.remove(i), other) == assoc_lookup(
            peers,
            other,
        ),
    decreases peers.len(),
{
    let removed = peers.remove(i);
    assert(assoc_distinct(removed)) by {
        assert(forall|a: int| 0 <= a < i ==> #[trigger] removed[a] == peers[a]);
        assert(forall|a: int| i <= a < removed.len() ==> #[trigger] removed[a] == peers[a + 1]);
    }
    assert forall|a: int| 0 <= a < removed.len() implies #[trigger] removed[a].0 != id by {
        if a < i {
        } else {
            assert(removed[a] == peers[a + 1]);
        }
    }
    lemma_assoc_missing(removed, id);
    assert forall|other: u64| other != id implies #[trigger] assoc_lookup(removed, other) == assoc_lookup(
        peers,
        other,
    ) by {
        lemma_assoc_remove_other(peers, i, other);
    }
}

pub proof fn lemma_assoc_remove_other<T>(peers: Seq<(u64, T)>, i: int, other: u64)
    requires
        assoc_distinct(peers),
        0 <= i < peers.len(),
        peers[i].0 != other,
    ensures
        assoc_lookup(peers.remove(i), other) == assoc_lookup(peers, other),
    decreases peers.len(),
{
    let removed = peers.remove(i);
    if i == 0 {
        assert(removed =~= peers.drop_first());
    } else {
        assert(removed[0] == peers[0]);
        if peers[0].0 == other {
        } else {
            assert(assoc_distinct(peers.drop_first())) by {
                assert(forall|a: int, b: int|
                    #![trigger peers.drop_first()[a], peers.drop_first()[b]]
                    0 <= a < b < peers.len() - 1 ==> peers.drop_first()[a] == peers[a + 1]
                        && peers.drop_first()[b] == peers[b + 1]);
            }
            assert(removed.drop_first() =~= peers.drop_first().remove(i - 1));
            assert(peers.drop_first()[i - 1] == peers[i]);
            lemma_assoc_remove_other(peers.drop_first(), i - 1, other);
        }
    }
}

} // verus!
