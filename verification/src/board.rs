//! The leaderboard's entries and their mathematical model. An entry is a
//! player, a score, a display name and a claimed flag; the board is a
//! sequence of entries sorted by score descending, capped at ten. New
//! entries go after every entry of equal or higher score, so equal scores
//! keep their order of arrival, and an overflowing board drops its last
//! (lowest) entry.

use vstd::prelude::*;

verus! {

/// One leaderboard entry.
pub struct Player {
    /// The player's account address.
    pub address: [u8; 32],
    /// The score the player submitted.
    pub score: u32,
    /// The display name chosen at the start of the session.
    pub name: String,
    /// Whether this entry's prize was already paid out.
    pub claimed: bool,
}

/// The mathematical image of an entry: the same fields, with the address
/// and the name as sequences.
#[verifier::ext_equal]
pub ghost struct PlayerView {
    /// The player's account address, as bytes.
    pub address: Seq<u8>,
    /// The score the player submitted.
    pub score: u32,
    /// The display name, as characters.
    pub name: Seq<char>,
    /// Whether this entry's prize was already paid out.
    pub claimed: bool,
}

impl View for Player {
    type V = PlayerView;

    open spec fn view(&self) -> PlayerView {
        PlayerView {
            address: self.address@,
            score: self.score,
            name: self.name@,
            claimed: self.claimed,
        }
    }
}

/// The model of a run of entries: each entry replaced by its image.
pub open spec fn entry_views(s: Seq<Player>) -> Seq<PlayerView> {
    Seq::new(s.len(), |i: int| s[i]@)
}

/// Scores never go up along the board.
pub open spec fn sorted_desc(s: Seq<PlayerView>) -> bool {
    forall|i: int, j: int| 0 <= i < j < s.len() ==> s[i].score >= s[j].score
}

/// Where a new score lands in a descending board: after every entry of
/// equal or higher score, so ties keep their order of arrival.
pub open spec fn insert_pos(s: Seq<PlayerView>, score: u32) -> int
    decreases s.len(),
{
    if s.len() == 0 {
        0
    } else if s[0].score < score {
        0
    } else {
        1 + insert_pos(s.drop_first(), score)
    }
}

/// Bounded insertion: the entry goes to its position, and if the board
/// then exceeds ten entries the last one is dropped.
pub open spec fn lb_insert(s: Seq<PlayerView>, p: PlayerView) -> Seq<PlayerView> {
    let grown = s.insert(insert_pos(s, p.score), p);
    if grown.len() > 10 {
        grown.drop_last()
    } else {
        grown
    }
}

/// The rank of the first entry with the given address, or -1 if the
/// address is absent from the board.
pub open spec fn rank_of(s: Seq<PlayerView>, address: Seq<u8>) -> int
    decreases s.len(),
{
    if s.len() == 0 {
        -1
    } else if s[0].address == address {
        0
    } else if rank_of(s.drop_first(), address) < 0 {
        -1
    } else {
        1 + rank_of(s.drop_first(), address)
    }
}

/// The insertion position is the first index whose score is below the new
/// one: everything before it is at least the new score, and the entry at
/// it, if any, is strictly below.
pub proof fn lemma_insert_pos_properties(s: Seq<PlayerView>, score: u32)
    ensures
        0 <= insert_pos(s, score) <= s.len(),
        forall|j: int| 0 <= j < insert_pos(s, score) ==> s[j].score >= score,
        insert_pos(s, score) < s.len() ==> s[insert_pos(s, score)].score < score,
    decreases s.len(),
{
    if s.len() == 0 {
    } else if s[0].score < score {
    } else {
        lemma_insert_pos_properties(s.drop_first(), score);
        assert forall|j: int| 0 <= j < insert_pos(s, score) implies s[j].score >= score by {
            if j > 0 {
                assert(s.drop_first()[j - 1] == s[j]);
            }
        }
        if insert_pos(s, score) < s.len() {
            assert(s.drop_first()[insert_pos(s, score) - 1] == s[insert_pos(s, score)]);
        }
    }
}

/// A bounded insertion into a sorted board of at most ten entries yields a
/// sorted board of at most ten entries, one longer until the cap is hit.
pub proof fn lemma_lb_insert_wf(s: Seq<PlayerView>, p: PlayerView)
    requires
        sorted_desc(s),
        s.len() <= 10,
    ensures
        sorted_desc(lb_insert(s, p)),
        lb_insert(s, p).len() <= 10,
        lb_insert(s, p).len() == if s.len() < 10 { s.len() + 1 } else { 10nat },
{
    let pos = insert_pos(s, p.score);
    lemma_insert_pos_properties(s, p.score);
    let grown = s.insert(pos, p);
    assert forall|i: int, j: int| 0 <= i < j < grown.len() implies grown[i].score >= grown[j].score by {
        if j < pos {
            assert(grown[i] == s[i] && grown[j] == s[j]);
        } else if j == pos {
            assert(grown[i] == s[i] && grown[j] == p);
        } else {
            assert(grown[j] == s[j - 1]);
            if i < pos {
                assert(grown[i] == s[i]);
                if i < j - 1 {
                    assert(s[i].score >= s[j - 1].score);
                }
            } else if i == pos {
                assert(grown[i] == p);
                assert(s[pos].score < p.score);
                assert(s[pos].score >= s[j - 1].score);
            } else {
                assert(grown[i] == s[i - 1]);
            }
        }
    }
    if grown.len() > 10 {
        assert(sorted_desc(grown.drop_last()));
    }
}

/// Every entry of a bounded insertion is either the new entry or one of
/// the old ones.
pub proof fn lemma_lb_insert_entries(s: Seq<PlayerView>, p: PlayerView)
    ensures
        forall|k: int|
            0 <= k < lb_insert(s, p).len() ==> (#[trigger] lb_insert(s, p)[k] == p || exists|j: int|
                0 <= j < s.len() && s[j] == lb_insert(s, p)[k]),
{
    let pos = insert_pos(s, p.score);
    lemma_insert_pos_properties(s, p.score);
    let grown = s.insert(pos, p);
    assert forall|k: int| 0 <= k < lb_insert(s, p).len() implies (#[trigger] lb_insert(s, p)[k] == p
        || exists|j: int| 0 <= j < s.len() && s[j] == lb_insert(s, p)[k]) by {
        assert(lb_insert(s, p)[k] == grown[k]);
        if k < pos {
            assert(s[k] == grown[k]);
        } else if k > pos {
            assert(s[k - 1] == grown[k]);
        }
    }
}

/// Eviction: an eleventh entry whose score is strictly below the current
/// minimum is dropped at once, and the board is unchanged.
pub proof fn lemma_low_score_evicted(s: Seq<PlayerView>, p: PlayerView)
    requires
        sorted_desc(s),
        s.len() == 10,
        p.score < s.last().score,
    ensures
        lb_insert(s, p) == s,
{
    let pos = insert_pos(s, p.score);
    lemma_insert_pos_properties(s, p.score);
    if pos < 10 {
        assert(s[pos].score >= s[9].score);
        assert(false);
    }
    assert(s.insert(10, p) =~= s.push(p));
    assert(s.push(p).drop_last() =~= s);
}

/// The rank of an address is the first index holding it: -1 exactly when
/// the address is absent, and otherwise a valid index holding the address
/// with no earlier occurrence.
pub proof fn lemma_rank_of_properties(s: Seq<PlayerView>, address: Seq<u8>)
    ensures
        rank_of(s, address) == -1 || 0 <= rank_of(s, address) < s.len(),
        rank_of(s, address) == -1 ==> forall|i: int|
            0 <= i < s.len() ==> (#[trigger] s[i]).address != address,
        rank_of(s, address) >= 0 ==> s[rank_of(s, address)].address == address,
        rank_of(s, address) >= 0 ==> forall|i: int|
            0 <= i < rank_of(s, address) ==> (#[trigger] s[i]).address != address,
    decreases s.len(),
{
    if s.len() == 0 {
    } else if s[0].address == address {
    } else {
        lemma_rank_of_properties(s.drop_first(), address);
        assert forall|i: int| 0 <= i < s.len() && rank_of(s, address) == -1 implies (#[trigger] s[i]).address
            != address by {
            if i > 0 {
                assert(s.drop_first()[i - 1] == s[i]);
            }
        }
        if rank_of(s, address) >= 0 {
            assert(s.drop_first()[rank_of(s, address) - 1] == s[rank_of(s, address)]);
            assert forall|i: int| 0 <= i < rank_of(s, address) implies (#[trigger] s[i]).address
                != address by {
                if i > 0 {
                    assert(s.drop_first()[i - 1] == s[i]);
                }
            }
        }
    }
}

/// Lifting an insertion of one entry to the model.
pub proof fn lemma_entry_views_insert(s: Seq<Player>, i: int, p: Player)
    requires
        0 <= i <= s.len(),
    ensures
        entry_views(s.insert(i, p)) =~= entry_views(s).insert(i, p@),
{
}

/// Lifting the drop of the last entry to the model.
pub proof fn lemma_entry_views_drop_last(s: Seq<Player>)
    requires
        s.len() > 0,
    ensures
        entry_views(s.drop_last()) =~= entry_views(s).drop_last(),
{
}

/// Lifting the update of one entry to the model.
pub proof fn lemma_entry_views_update(s: Seq<Player>, i: int, p: Player)
    requires
        0 <= i < s.len(),
    ensures
        entry_views(s.update(i, p)) =~= entry_views(s).update(i, p@),
{
}

} // verus!
