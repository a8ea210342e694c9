//! Who receives a message the server sends.
use vstd::prelude::*;

use crate::common::ClientId;

verus! {

/// The clients a message is meant for.
#[derive(Clone, Debug)]
pub enum MessageTarget {
    /// One client.
    Only(ClientId),
    /// Every client but one.
    Exclude(ClientId),
    /// The clients of a list.
    List(Vec<ClientId>),
    /// No client at all.
    Nobody,
    /// Every client.
    Everybody,
}

/// Whether a message for `target` goes to client `c`, if `c` is connected.
pub open spec fn admits(target: MessageTarget, c: ClientId) -> bool {
    match target {
        MessageTarget::Only(o) => c == o,
        MessageTarget::Exclude(x) => c != x,
        MessageTarget::List(l) => l@.contains(c),
        MessageTarget::Nobody => false,
        MessageTarget::Everybody => true,
    }
}

/// Whether `c` occurs in `list`.
pub fn contains_client(list: &Vec<ClientId>, c: ClientId) -> (r: bool)
    ensures
        r == list@.contains(c),
{
    let mut i: usize = 0;
    while i < list.len()
        invariant
            i <= list@.len(),
            forall|k: int| 0 <= k < i ==> list@[k] != c,
        decreases list@.len() - i,
    {
        if list[i] == c {
            assert(list@[i as int] == c);
            return true;
        }
        i = i + 1;
    }
    false
}

/// Whether a message for `target` goes to client `c`.
pub fn target_admits(target: &MessageTarget, c: ClientId) -> (r: bool)
    ensures
        r == admits(*target, c),
{
    match target {
        MessageTarget::Only(o) => *o == c,
        MessageTarget::Exclude(x) => *x != c,
        MessageTarget::List(l) => contains_client(l, c),
        MessageTarget::Nobody => false,
        MessageTarget::Everybody => true,
    }
}

/// The connected clients that a message for `target` reaches, in the order
/// of `connected`. A client named by the target that is not connected is
/// not reached.
pub fn recipients(target: &MessageTarget, connected: &Vec<ClientId>) -> (r: Vec<ClientId>)
    ensures
        r@ == connected@.filter(|c: ClientId| admits(*target, c)),
{
    let ghost pred = |c: ClientId| admits(*target, c);
    let mut r: Vec<ClientId> = Vec::new();
    let mut i: usize = 0;
    while i < connected.len()
        invariant
            i <= connected@.len(),
            pred == (|c: ClientId| admits(*target, c)),
            r@ == connected@.take(i as int).filter(pred),
        decreases connected@.len() - i,
    {
        let c = connected[i];
        proof {
            assert(connected@.take(i as int + 1).drop_last() =~= connected@.take(i as int));
            assert(connected@.take(i as int + 1).last() == c);
            reveal(Seq::filter);
        }
        if target_admits(target, c) {
            r.push(c);
        }
        i = i + 1;
    }
    assert(connected@.take(connected@.len() as int) =~= connected@);
    r
}

/// Filtering keeps a sequence free of repetitions.
pub proof fn lemma_filter_no_duplicates(s: Seq<ClientId>, pred: spec_fn(ClientId) -> bool)
    requires
        s.no_duplicates(),
    ensures
        s.filter(pred).no_duplicates(),
    decreases s.len(),
{
    reveal(Seq::filter);
    if s.len() > 0 {
        let rest = s.drop_last();
        assert(rest.no_duplicates());
        lemma_filter_no_duplicates(rest, pred);
        if pred(s.last()) {
            let f = rest.filter(pred);
            if f.contains(s.last()) {
                rest.lemma_filter_contains_rev(pred, s.last());
                let k = choose|k: int| 0 <= k < rest.len() && rest[k] == s.last();
                assert(s[k] == s[s.len() - 1]);
            }
            assert(s.filter(pred) == f.push(s.last()));
            assert forall|i: int, j: int| 0 <= i < j < f.len() + 1 implies f.push(s.last())[i] != f.push(s.last())[j] by {
                if j == f.len() {
                    assert(f.contains(f[i]));
                }
            }
        }
    }
}

/// A message reaches exactly the connected clients that its target admits,
/// and none of them twice.
pub proof fn law_recipients_exact(target: MessageTarget, connected: Seq<ClientId>, c: ClientId)
    requires
        connected.no_duplicates(),
    ensures
        connected.filter(|x: ClientId| admits(target, x)).contains(c) <==> (connected.contains(c) && admits(target, c)),
        connected.filter(|x: ClientId| admits(target, x)).no_duplicates(),
{
    let pred = |x: ClientId| admits(target, x);
    broadcast use vstd::seq_lib::group_filter_ensures;
    if connected.contains(c) && admits(target, c) {
        let k = choose|k: int| 0 <= k < connected.len() && connected[k] == c;
        connected.lemma_filter_contains(pred, k);
    }
    if connected.filter(pred).contains(c) {
        connected.lemma_filter_contains_rev(pred, c);
        let k = choose|k: int| 0 <= k < connected.filter(pred).len() && connected.filter(pred)[k] == c;
        connected.lemma_filter_pred(pred, k);
    }
    lemma_filter_no_duplicates(connected, pred);
}

} // verus!
