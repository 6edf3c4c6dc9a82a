//! Where subscriptions and their messages go in the entity hierarchy. Entities are
//! named by their 64-bit identifiers; a path lists an entity's ancestors, nearest first.

use crate::cache::{pushed, PacketCache};
use crate::topic::{filter_matches, SubscribeTopic};
use bytes::Bytes;
use vstd::prelude::*;

verus! {

/// Adds the receivers of a message matched by the subscription on `entity`: the entity
/// itself, then each of its ancestors, nearest first.
pub fn append_route(targets: &mut Vec<u64>, entity: u64, ancestors: &Vec<u64>)
    ensures
        final(targets)@ == old(targets)@ + seq![entity] + ancestors@,
{
    targets.push(entity);
    let n = ancestors.len();
    for i in 0..n
        invariant
            n == ancestors@.len(),
            targets@ == old(targets)@ + seq![entity] + ancestors@.take(i as int),
    {
        targets.push(ancestors[i]);
        assert(ancestors@.take(i as int).push(ancestors@[i as int]) =~= ancestors@.take(i + 1));
    }
    assert(ancestors@.take(n as int) =~= ancestors@);
}

/// The position of the nearest ancestor that holds a client, which a new subscription
/// is handed to, if there is one.
pub fn first_client(is_client: &Vec<bool>) -> (r: Option<usize>)
    ensures
        r matches Some(i) ==> i < is_client@.len() && is_client@[i as int] && forall|j: int|
            0 <= j < i ==> !is_client@[j],
        r is None ==> forall|j: int| 0 <= j < is_client@.len() ==> !is_client@[j],
{
    let n = is_client.len();
    for i in 0..n
        invariant
            n == is_client@.len(),
            forall|j: int| 0 <= j < i ==> !is_client@[j],
    {
        if is_client[i] {
            return Some(i);
        }
    }
    None
}

/// The positions, in order, of every entity on a path that holds a client; a removed
/// subscription is withdrawn from each of them.
pub fn client_positions(is_client: &Vec<bool>) -> (r: Vec<usize>)
    ensures
        forall|k: int| 0 <= k < r@.len() ==> r@[k] < is_client@.len() && is_client@[r@[k] as int],
        forall|k: int, l: int| 0 <= k < l < r@.len() ==> r@[k] < r@[l],
        forall|j: int|
            0 <= j < is_client@.len() && is_client@[j] ==> r@.contains(j as usize),
{
    let n = is_client.len();
    let mut r: Vec<usize> = Vec::new();
    for i in 0..n
        invariant
            n == is_client@.len(),
            forall|k: int| 0 <= k < r@.len() ==> r@[k] < i && is_client@[r@[k] as int],
            forall|k: int, l: int| 0 <= k < l < r@.len() ==> r@[k] < r@[l],
            forall|j: int| 0 <= j < i && is_client@[j] ==> r@.contains(j as usize),
    {
        let ghost r0 = r@;
        if is_client[i] {
            r.push(i);
            assert(r@[r@.len() - 1] == i);
        }
        assert forall|j: int| 0 <= j < i + 1 && is_client@[j] implies r@.contains(j as usize) by {
            if j == i {
                assert(r@[r@.len() - 1] == i);
            } else {
                assert(r0.contains(j as usize));
                let k = choose|k: int| 0 <= k < r0.len() && r0[k] == j as usize;
                assert(r@[k] == j as usize);
            }
        }
    }
    r
}

/// Offers a publish on `topic` to a subscription that keeps a cache: the payload is
/// cached exactly when the subscription's filter accepts the topic, and the answer tells
/// whether it did.
pub fn cache_if_matched(
    subscription: &SubscribeTopic,
    topic: &str,
    payload: Bytes,
    cache: &mut PacketCache,
) -> (matched: bool)
    ensures
        matched == filter_matches(subscription.filter(), topic@),
        final(cache).capacity == old(cache).capacity,
        matched ==> final(cache).packets@ == pushed(
            old(cache).packets@,
            old(cache).capacity as int,
            payload,
        ),
        !matched ==> final(cache).packets@ == old(cache).packets@,
{
    let matched = subscription.matches(topic);
    if matched {
        cache.push(payload);
    }
    matched
}

} // verus!
