use vstd::prelude::*;
use crate::ancestry::{
    ancestors_of, extends, first_unread, get_parents_pids, lemma_complete_walk_is_settled,
    lemma_unread_process_fails_walk, walk_needs, ProcessTable, MAX_ANCESTRY_DEPTH,
};
use crate::decimal::{
    decimal_digits, is_digit, lemma_decimal_digits, lemma_render_then_parse, parse_u32,
    parse_u32_spec,
};
use crate::error::ResolveError;
use crate::fields::{
    field, field_end, field_start, find_field_start, lemma_field_end, lemma_field_end_is,
    nth_field, DOT,
};
use crate::protocol::{socket_name_spec, socket_suffix};

verus! {

/// The peer that a directory entry registers. The name must be cut by
/// exactly one `.` into two parts, of which the first is the peer's process
/// id in decimal. Any other name registers nothing.
pub open spec fn peer_pid_of_name(name: Seq<u8>) -> Option<u32> {
    if field_start(name, DOT, 1) is Some && field_start(name, DOT, 2) is None {
        parse_u32_spec(field(name, DOT, 0).unwrap())
    } else {
        None
    }
}

/// The names of a directory listing as plain byte sequences.
pub open spec fn names_of(listing: Seq<Vec<u8>>) -> Seq<Seq<u8>> {
    Seq::new(listing.len(), |i: int| listing[i]@)
}

/// The peers that a directory listing registers, in the listing's order.
/// A name that registers nothing is passed over.
pub open spec fn peer_pids(names: Seq<Seq<u8>>) -> Seq<u32>
    decreases names.len(),
{
    if names.len() == 0 {
        Seq::empty()
    } else {
        let front = peer_pids(names.drop_last());
        match peer_pid_of_name(names.last()) {
            Some(pid) => front.push(pid),
            None => front,
        }
    }
}

/// Whether `peer` descends from `target`: its ancestry walk succeeds and
/// meets `target`.
pub open spec fn descends_from(table: Map<u32, Seq<u8>>, peer: u32, target: u32) -> bool {
    match ancestors_of(table, peer) {
        Ok(chain) => chain.contains(target),
        Err(_) => false,
    }
}

/// The error of the first peer whose ancestry walk fails, if any does.
pub open spec fn first_failure(table: Map<u32, Seq<u8>>, peers: Seq<u32>) -> Option<ResolveError>
    decreases peers.len(),
{
    if peers.len() == 0 {
        None
    } else {
        match first_failure(table, peers.drop_last()) {
            Some(e) => Some(e),
            None => match ancestors_of(table, peers.last()) {
                Ok(_) => None,
                Err(e) => Some(e),
            },
        }
    }
}

/// Whether `peer` is a candidate for `target`: it is registered, by any
/// number of entries, and descends from `target`.
pub open spec fn is_candidate(
    table: Map<u32, Seq<u8>>,
    peers: Seq<u32>,
    target: u32,
    peer: u32,
) -> bool {
    peers.contains(peer) && descends_from(table, peer, target)
}

/// The candidates for `target`, each once, in the order in which `peers`
/// first names them. A peer that several entries register is one peer.
pub open spec fn claimants(table: Map<u32, Seq<u8>>, peers: Seq<u32>, target: u32) -> Seq<u32>
    decreases peers.len(),
{
    if peers.len() == 0 {
        Seq::empty()
    } else {
        let front = claimants(table, peers.drop_last(), target);
        if descends_from(table, peers.last(), target) && !front.contains(peers.last()) {
            front.push(peers.last())
        } else {
            front
        }
    }
}

/// The process that a search has to read next: the first that is absent
/// from the snapshot on the walk of the first peer whose walk meets one.
pub open spec fn search_needs(table: Map<u32, Seq<u8>>, peers: Seq<u32>) -> Option<u32>
    decreases peers.len(),
{
    if peers.len() == 0 {
        None
    } else {
        match search_needs(table, peers.drop_last()) {
            Some(pid) => Some(pid),
            None => walk_needs(table, peers.last(), MAX_ANCESTRY_DEPTH as nat),
        }
    }
}

/// The peer that owns `target`. Every peer's ancestry is walked first, and
/// a failed walk fails the search. Then: no candidate, no peer; one
/// candidate, that peer; two or more different candidates, an error, since
/// two sessions cannot both have spawned the same process.
pub open spec fn peer_for(table: Map<u32, Seq<u8>>, peers: Seq<u32>, target: u32) -> Result<
    Option<u32>,
    ResolveError,
> {
    match first_failure(table, peers) {
        Some(e) => Err(e),
        None => {
            let found = claimants(table, peers, target);
            if found.len() == 0 {
                Ok(None)
            } else if found.len() == 1 {
                Ok(Some(found[0]))
            } else {
                Err(ResolveError::AmbiguousPeer)
            }
        },
    }
}

/// The peer that a directory entry of this name registers.
pub fn get_pid(name: &[u8]) -> (r: Option<u32>)
    ensures
        r == peer_pid_of_name(name@),
{
    if find_field_start(name, DOT, 1).is_none() {
        return None;
    }
    if find_field_start(name, DOT, 2).is_some() {
        return None;
    }
    match nth_field(name, DOT, 0) {
        Some(first) => parse_u32(first),
        None => None,
    }
}

/// The peers that a directory listing registers.
pub fn get_all_ssht_pids(listing: &Vec<Vec<u8>>) -> (pids: Vec<u32>)
    ensures
        pids@ == peer_pids(names_of(listing@)),
{
    let ghost names = names_of(listing@);
    let mut pids: Vec<u32> = Vec::new();
    let mut i: usize = 0;
    while i < listing.len()
        invariant
            i <= listing@.len(),
            names == names_of(listing@),
            pids@ == peer_pids(names.take(i as int)),
        decreases listing@.len() - i,
    {
        assert(names.take(i + 1).drop_last() =~= names.take(i as int));
        assert(names.take(i + 1).last() == listing@[i as int]@);
        match get_pid(listing[i].as_slice()) {
            Some(pid) => {
                pids.push(pid);
            },
            None => {},
        }
        i = i + 1;
    }
    assert(names.take(i as int) =~= names);
    pids
}

/// Whether `pid` occurs in `chain`.
pub fn chain_contains(chain: &Vec<u32>, pid: u32) -> (b: bool)
    ensures
        b == chain@.contains(pid),
{
    let mut i: usize = 0;
    while i < chain.len()
        invariant
            i <= chain@.len(),
            forall|j: int| 0 <= j < i ==> chain@[j] != pid,
        decreases chain@.len() - i,
    {
        if chain[i] == pid {
            return true;
        }
        i = i + 1;
    }
    false
}

/// Finds the peer that `ppid` descends into: the one registered peer on
/// whose line of ancestors `ppid` lies.
pub fn get_ssht_pid_from_ppid(listing: &Vec<Vec<u8>>, table: &ProcessTable, ppid: u32) -> (r:
    Result<Option<u32>, ResolveError>)
    ensures
        r == peer_for(table@, peer_pids(names_of(listing@)), ppid),
{
    let pids = get_all_ssht_pids(listing);
    let ghost peers = pids@;
    let mut found: Vec<u32> = Vec::new();
    let mut i: usize = 0;
    while i < pids.len()
        invariant
            i <= pids@.len(),
            peers == pids@,
            peers == peer_pids(names_of(listing@)),
            first_failure(table@, peers.take(i as int)) is None,
            found@ == claimants(table@, peers.take(i as int), ppid),
        decreases pids@.len() - i,
    {
        assert(peers.take(i + 1).drop_last() =~= peers.take(i as int));
        assert(peers.take(i + 1).last() == peers[i as int]);
        match get_parents_pids(table, pids[i]) {
            Ok(chain) => {
                if chain_contains(&chain, ppid) && !chain_contains(&found, pids[i]) {
                    found.push(pids[i]);
                }
            },
            Err(e) => {
                proof {
                    assert(first_failure(table@, peers.take(i + 1)) == Some(e));
                    lemma_failure_stays(table@, peers, i + 1);
                }
                return Err(e);
            },
        }
        i = i + 1;
    }
    assert(peers.take(i as int) =~= peers);
    if found.len() == 0 {
        Ok(None)
    } else if found.len() == 1 {
        Ok(Some(found[0]))
    } else {
        Err(ResolveError::AmbiguousPeer)
    }
}

/// Tells which process to read next so that the search over the peers of
/// `listing` can be made: `None` once the snapshot holds all that the
/// search looks up. A caller that starts from an empty snapshot and reads
/// what is asked for reads no process that the search does not need.
pub fn next_unread(listing: &Vec<Vec<u8>>, table: &ProcessTable) -> (r: Option<u32>)
    ensures
        r == search_needs(table@, peer_pids(names_of(listing@))),
{
    let pids = get_all_ssht_pids(listing);
    let ghost peers = pids@;
    let mut i: usize = 0;
    while i < pids.len()
        invariant
            i <= pids@.len(),
            peers == pids@,
            peers == peer_pids(names_of(listing@)),
            search_needs(table@, peers.take(i as int)) is None,
        decreases pids@.len() - i,
    {
        assert(peers.take(i + 1).drop_last() =~= peers.take(i as int));
        assert(peers.take(i + 1).last() == peers[i as int]);
        match first_unread(table, pids[i]) {
            Some(pid) => {
                proof {
                    assert(search_needs(table@, peers.take(i + 1)) == Some(pid));
                    lemma_need_stays(table@, peers, i + 1);
                }
                return Some(pid);
            },
            None => {},
        }
        i = i + 1;
    }
    assert(peers.take(i as int) =~= peers);
    None
}

/// What the first `k` peers need first, the whole list needs first.
pub proof fn lemma_need_stays(table: Map<u32, Seq<u8>>, peers: Seq<u32>, k: int)
    requires
        0 <= k <= peers.len(),
        search_needs(table, peers.take(k)) is Some,
    ensures
        search_needs(table, peers) == search_needs(table, peers.take(k)),
    decreases peers.len(),
{
    if k < peers.len() {
        assert(peers.drop_last().take(k) =~= peers.take(k));
        lemma_need_stays(table, peers.drop_last(), k);
    } else {
        assert(peers.take(k) =~= peers);
    }
}

/// A search that needs no further process is settled: reading more
/// processes does not change its answer.
pub proof fn lemma_complete_search_is_settled(
    table: Map<u32, Seq<u8>>,
    more: Map<u32, Seq<u8>>,
    peers: Seq<u32>,
    target: u32,
)
    requires
        search_needs(table, peers) is None,
        extends(more, table),
    ensures
        first_failure(more, peers) == first_failure(table, peers),
        claimants(more, peers, target) == claimants(table, peers, target),
        peer_for(more, peers, target) == peer_for(table, peers, target),
    decreases peers.len(),
{
    if peers.len() > 0 {
        lemma_complete_search_is_settled(table, more, peers.drop_last(), target);
        lemma_complete_walk_is_settled(table, more, peers.last(), MAX_ANCESTRY_DEPTH as nat);
    }
}

/// A search that still needs a process fails over the snapshot as it is:
/// where that process cannot be read, nothing more has to be.
pub proof fn lemma_unread_process_fails_search(
    table: Map<u32, Seq<u8>>,
    peers: Seq<u32>,
    target: u32,
)
    requires
        search_needs(table, peers) is Some,
    ensures
        !table.contains_key(search_needs(table, peers).unwrap()),
        peer_for(table, peers, target) is Err,
    decreases peers.len(),
{
    if search_needs(table, peers.drop_last()) is Some {
        lemma_unread_process_fails_search(table, peers.drop_last(), target);
    } else {
        lemma_unread_process_fails_walk(table, peers.last(), MAX_ANCESTRY_DEPTH as nat);
    }
}

/// A failure among the first `k` peers is the failure of the whole list.
pub proof fn lemma_failure_stays(table: Map<u32, Seq<u8>>, peers: Seq<u32>, k: int)
    requires
        0 <= k <= peers.len(),
        first_failure(table, peers.take(k)) is Some,
    ensures
        first_failure(table, peers) == first_failure(table, peers.take(k)),
    decreases peers.len(),
{
    if k < peers.len() {
        assert(peers.drop_last().take(k) =~= peers.take(k));
        lemma_failure_stays(table, peers.drop_last(), k);
    } else {
        assert(peers.take(k) =~= peers);
    }
}

/// A sequence with one more element holds what it held and that element.
proof fn lemma_push_contains(s: Seq<u32>, x: u32, y: u32)
    ensures
        s.push(x).contains(y) <==> s.contains(y) || x == y,
{
    let t = s.push(x);
    if s.contains(y) {
        let i = choose|i: int| 0 <= i < s.len() && s[i] == y;
        assert(t[i] == y);
    }
    if x == y {
        assert(t[s.len() as int] == y);
    }
    if t.contains(y) {
        let i = choose|i: int| 0 <= i < t.len() && t[i] == y;
        if i < s.len() {
            assert(s[i] == y);
        }
    }
}

/// The claimants are exactly the candidates.
pub proof fn lemma_claimants_are_candidates(
    table: Map<u32, Seq<u8>>,
    peers: Seq<u32>,
    target: u32,
    peer: u32,
)
    ensures
        claimants(table, peers, target).contains(peer) <==> is_candidate(
            table,
            peers,
            target,
            peer,
        ),
    decreases peers.len(),
{
    if peers.len() > 0 {
        let front = peers.drop_last();
        let before = claimants(table, front, target);
        lemma_claimants_are_candidates(table, front, target, peer);
        assert(peers =~= front.push(peers.last()));
        lemma_push_contains(front, peers.last(), peer);
        lemma_push_contains(before, peers.last(), peer);
    }
}

/// No peer is listed twice among the claimants.
pub proof fn lemma_claimants_are_distinct(table: Map<u32, Seq<u8>>, peers: Seq<u32>, target: u32)
    ensures
        forall|i: int, j: int|
            0 <= i < j < claimants(table, peers, target).len() ==> claimants(
                table,
                peers,
                target,
            )[i] != claimants(table, peers, target)[j],
    decreases peers.len(),
{
    if peers.len() > 0 {
        lemma_claimants_are_distinct(table, peers.drop_last(), target);
        let before = claimants(table, peers.drop_last(), target);
        let found = claimants(table, peers, target);
        assert forall|i: int, j: int| 0 <= i < j < found.len() implies found[i] != found[j] by {
            if j < before.len() {
                assert(found[i] == before[i] && found[j] == before[j]);
            } else {
                assert(found == before.push(peers.last()));
                assert(found[i] == before[i]);
                assert(before.contains(before[i]));
            }
        }
    }
}

/// Whether the ancestry of every registered peer can be walked.
pub open spec fn all_walks_succeed(table: Map<u32, Seq<u8>>, peers: Seq<u32>) -> bool {
    forall|i: int| 0 <= i < peers.len() ==> (#[trigger] ancestors_of(table, peers[i])) is Ok
}

/// No walk fails exactly when the ancestry of every registered peer can
/// be walked.
pub proof fn lemma_no_failure(table: Map<u32, Seq<u8>>, peers: Seq<u32>)
    ensures
        first_failure(table, peers) is None <==> all_walks_succeed(table, peers),
    decreases peers.len(),
{
    if peers.len() > 0 {
        let front = peers.drop_last();
        lemma_no_failure(table, front);
        if all_walks_succeed(table, peers) {
            assert forall|i: int| 0 <= i < front.len() implies (#[trigger] ancestors_of(
                table,
                front[i],
            )) is Ok by {
                assert(front[i] == peers[i]);
            }
            assert(ancestors_of(table, peers[peers.len() - 1]) is Ok);
        }
        if first_failure(table, peers) is None {
            assert forall|i: int| 0 <= i < peers.len() implies (#[trigger] ancestors_of(
                table,
                peers[i],
            )) is Ok by {
                if i < front.len() {
                    assert(front[i] == peers[i]);
                    assert(ancestors_of(table, front[i]) is Ok);
                }
            }
        }
    }
}

/// Where every walk succeeds and there is no candidate, the search finds
/// no peer.
pub proof fn lemma_unclaimed_target_has_no_peer(
    table: Map<u32, Seq<u8>>,
    peers: Seq<u32>,
    target: u32,
)
    requires
        all_walks_succeed(table, peers),
        forall|p: u32| !is_candidate(table, peers, target, p),
    ensures
        peer_for(table, peers, target) == Ok::<Option<u32>, ResolveError>(None),
{
    lemma_no_failure(table, peers);
    let found = claimants(table, peers, target);
    if found.len() > 0 {
        assert(found.contains(found[0]));
        lemma_claimants_are_candidates(table, peers, target, found[0]);
    }
}

/// Where every walk succeeds and exactly one peer is a candidate, however
/// many entries register it, the search finds that peer.
pub proof fn lemma_sole_candidate_is_found(
    table: Map<u32, Seq<u8>>,
    peers: Seq<u32>,
    target: u32,
    peer: u32,
)
    requires
        all_walks_succeed(table, peers),
        is_candidate(table, peers, target, peer),
        forall|q: u32| is_candidate(table, peers, target, q) ==> q == peer,
    ensures
        peer_for(table, peers, target) == Ok::<Option<u32>, ResolveError>(Some(peer)),
{
    lemma_no_failure(table, peers);
    let found = claimants(table, peers, target);
    lemma_claimants_are_candidates(table, peers, target, peer);
    lemma_claimants_are_distinct(table, peers, target);
    assert(found.len() > 0);
    assert(found.contains(found[0]));
    lemma_claimants_are_candidates(table, peers, target, found[0]);
    if found.len() > 1 {
        assert(found.contains(found[1]));
        lemma_claimants_are_candidates(table, peers, target, found[1]);
    }
}

/// Where every walk succeeds, two different candidates make the search
/// fail as ambiguous: neither is picked.
pub proof fn lemma_two_candidates_are_ambiguous(
    table: Map<u32, Seq<u8>>,
    peers: Seq<u32>,
    target: u32,
    first: u32,
    second: u32,
)
    requires
        all_walks_succeed(table, peers),
        first != second,
        is_candidate(table, peers, target, first),
        is_candidate(table, peers, target, second),
    ensures
        peer_for(table, peers, target) == Err::<Option<u32>, ResolveError>(
            ResolveError::AmbiguousPeer,
        ),
{
    lemma_no_failure(table, peers);
    let found = claimants(table, peers, target);
    lemma_claimants_are_candidates(table, peers, target, first);
    lemma_claimants_are_candidates(table, peers, target, second);
    let i = choose|i: int| 0 <= i < found.len() && found[i] == first;
    let j = choose|j: int| 0 <= j < found.len() && found[j] == second;
    assert(i != j);
}

/// With exactly two registrations, of two different peers that both
/// descend from the target, the search fails as ambiguous.
pub proof fn lemma_two_peers_one_target(
    table: Map<u32, Seq<u8>>,
    first: u32,
    second: u32,
    target: u32,
)
    requires
        first != second,
        descends_from(table, first, target),
        descends_from(table, second, target),
    ensures
        peer_for(table, seq![first, second], target) == Err::<Option<u32>, ResolveError>(
            ResolveError::AmbiguousPeer,
        ),
{
    let peers = seq![first, second];
    assert(peers[0] == first && peers[1] == second);
    lemma_two_candidates_are_ambiguous(table, peers, target, first, second);
}

/// The search answers with a peer only where that peer is the one
/// candidate.
pub proof fn lemma_found_peer_is_sole_candidate(
    table: Map<u32, Seq<u8>>,
    peers: Seq<u32>,
    target: u32,
    peer: u32,
)
    requires
        peer_for(table, peers, target) == Ok::<Option<u32>, ResolveError>(Some(peer)),
    ensures
        is_candidate(table, peers, target, peer),
        forall|q: u32| is_candidate(table, peers, target, q) ==> q == peer,
{
    let found = claimants(table, peers, target);
    assert(found[0] == peer);
    assert(found.contains(peer));
    lemma_claimants_are_candidates(table, peers, target, peer);
    assert forall|q: u32| is_candidate(table, peers, target, q) implies q == peer by {
        lemma_claimants_are_candidates(table, peers, target, q);
        let i = choose|i: int| 0 <= i < found.len() && found[i] == q;
        assert(i == 0);
    }
}

/// The search answers with no peer only where there is no candidate.
pub proof fn lemma_no_peer_means_no_candidate(
    table: Map<u32, Seq<u8>>,
    peers: Seq<u32>,
    target: u32,
)
    requires
        peer_for(table, peers, target) == Ok::<Option<u32>, ResolveError>(None),
    ensures
        forall|q: u32| !is_candidate(table, peers, target, q),
{
    assert forall|q: u32| !is_candidate(table, peers, target, q) by {
        lemma_claimants_are_candidates(table, peers, target, q);
    }
}

/// Where every walk succeeds, the search fails as ambiguous only where
/// two different peers are candidates.
pub proof fn lemma_ambiguity_means_two_candidates(
    table: Map<u32, Seq<u8>>,
    peers: Seq<u32>,
    target: u32,
)
    requires
        all_walks_succeed(table, peers),
        peer_for(table, peers, target) == Err::<Option<u32>, ResolveError>(
            ResolveError::AmbiguousPeer,
        ),
    ensures
        exists|a: u32, b: u32|
            a != b && is_candidate(table, peers, target, a) && is_candidate(
                table,
                peers,
                target,
                b,
            ),
{
    lemma_no_failure(table, peers);
    let found = claimants(table, peers, target);
    lemma_claimants_are_distinct(table, peers, target);
    assert(found.contains(found[0]));
    assert(found.contains(found[1]));
    lemma_claimants_are_candidates(table, peers, target, found[0]);
    lemma_claimants_are_candidates(table, peers, target, found[1]);
    assert(found[0] != found[1]);
}

/// Where every walk succeeds, the answer depends on which peers are
/// registered, not on the order of the entries nor on how many entries
/// register a peer.
pub proof fn lemma_answer_ignores_order_and_repeats(
    table: Map<u32, Seq<u8>>,
    peers: Seq<u32>,
    other: Seq<u32>,
    target: u32,
)
    requires
        all_walks_succeed(table, peers),
        forall|p: u32| peers.contains(p) <==> other.contains(p),
    ensures
        peer_for(table, other, target) == peer_for(table, peers, target),
{
    assert forall|i: int| 0 <= i < other.len() implies (#[trigger] ancestors_of(
        table,
        other[i],
    )) is Ok by {
        assert(other.contains(other[i]));
        let k = choose|k: int| 0 <= k < peers.len() && peers[k] == other[i];
        assert(ancestors_of(table, peers[k]) is Ok);
    }
    assert forall|p: u32|
        is_candidate(table, other, target, p) == is_candidate(table, peers, target, p) by {
        assert(peers.contains(p) <==> other.contains(p));
    }
    lemma_no_failure(table, peers);
    let found = claimants(table, peers, target);
    if found.len() == 0 {
        lemma_no_peer_means_no_candidate(table, peers, target);
        lemma_unclaimed_target_has_no_peer(table, other, target);
    } else if found.len() == 1 {
        lemma_found_peer_is_sole_candidate(table, peers, target, found[0]);
        lemma_sole_candidate_is_found(table, other, target, found[0]);
    } else {
        lemma_ambiguity_means_two_candidates(table, peers, target);
        let (a, b) = choose|a: u32, b: u32|
            a != b && is_candidate(table, peers, target, a) && is_candidate(
                table,
                peers,
                target,
                b,
            );
        lemma_two_candidates_are_ambiguous(table, other, target, a, b);
    }
}

/// Whether the `.` at position `i` is the only one in `name`.
pub open spec fn sole_dot(name: Seq<u8>, i: int) -> bool {
    &&& 0 <= i < name.len()
    &&& name[i] == DOT
    &&& forall|j: int| 0 <= j < name.len() && j != i ==> name[j] != DOT
}

/// A name with exactly one `.` registers the number that stands before
/// the `.`, if a number stands there.
pub proof fn lemma_name_with_one_dot(name: Seq<u8>, i: int)
    requires
        sole_dot(name, i),
    ensures
        peer_pid_of_name(name) == parse_u32_spec(name.take(i)),
{
    reveal_with_fuel(field_start, 3);
    lemma_field_end_is(name, DOT, 0, i);
    lemma_field_end_is(name, DOT, i + 1, name.len() as int);
    assert(name.subrange(0, i) =~= name.take(i));
}

/// A name without a `.`, or with more than one, registers nothing.
pub proof fn lemma_name_with_other_dots(name: Seq<u8>)
    requires
        forall|i: int| !sole_dot(name, i),
    ensures
        peer_pid_of_name(name) is None,
{
    reveal_with_fuel(field_start, 3);
    let first = field_end(name, DOT, 0);
    lemma_field_end(name, DOT, 0);
    if first < name.len() {
        let second = field_end(name, DOT, first + 1);
        lemma_field_end(name, DOT, first + 1);
        if second >= name.len() {
            assert(sole_dot(name, first));
        }
    }
}

/// The socket entry of a peer registers that peer: a peer whose socket is
/// in the directory is found by its listing.
pub proof fn lemma_socket_registers_peer(peer: u32)
    ensures
        peer_pid_of_name(socket_name_spec(peer)) == Some(peer),
{
    let digits = decimal_digits(peer as nat);
    let name = socket_name_spec(peer);
    let n = digits.len() as int;
    lemma_decimal_digits(peer as nat);
    lemma_render_then_parse(peer);
    assert(name.len() == n + 5);
    assert(name[n] == socket_suffix()[0]);
    assert forall|j: int| 0 <= j < name.len() && j != n implies name[j] != DOT by {
        if j < n {
            assert(name[j] == digits[j]);
            assert(is_digit(digits[j]));
        } else {
            assert(name[j] == socket_suffix()[j - n]);
        }
    }
    lemma_name_with_one_dot(name, n);
    assert(name.take(n) =~= digits);
}

} // verus!
