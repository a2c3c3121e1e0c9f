//! Decisions of an oracle node: which requests of a block it answers.
use vstd::prelude::*;
use crate::dispatch::AccountId;
use crate::pallet_oracle::{Event, RequestIdentifier};

verus! {

/// The requests of a block that an oracle node answers, by the pallet that
/// made them.
pub struct RequestIds {
    /// Identity checks, made by the identity pallet.
    pub challenges: Vec<RequestIdentifier>,
    /// Access checks, made by the guild pallet.
    pub joins: Vec<RequestIdentifier>,
}

/// The ids of the requests among `events` that were handed to `operator`
/// and that the pallet with index `pallet_index` made, in event order.
pub open spec fn taken_requests(
    events: Seq<Event>,
    operator: AccountId,
    pallet_index: u32,
) -> Seq<RequestIdentifier>
    decreases events.len(),
{
    if events.len() == 0 {
        Seq::empty()
    } else {
        let rest = taken_requests(events.drop_last(), operator, pallet_index);
        match events.last() {
            Event::OracleRequest { request_id, operator: o, pallet_index: p, fee: _ } => if o
                == operator && p == pallet_index {
                rest.push(request_id)
            } else {
                rest
            },
            _ => rest,
        }
    }
}

impl RequestIds {
    /// Sorts the oracle requests among the events of a block that were
    /// delegated to this node's `operator`, by the index of the pallet that
    /// made them; requests handed to other operators, and requests of other
    /// pallets, are passed over.
    pub fn new(
        events: &[Event],
        operator: AccountId,
        identity_pallet_index: u32,
        guild_pallet_index: u32,
    ) -> (r: Self)
        requires
            identity_pallet_index != guild_pallet_index,
        ensures
            r.challenges@ == taken_requests(events@, operator, identity_pallet_index),
            r.joins@ == taken_requests(events@, operator, guild_pallet_index),
    {
        let mut challenges: Vec<RequestIdentifier> = Vec::new();
        let mut joins: Vec<RequestIdentifier> = Vec::new();
        let mut i: usize = 0;
        while i < events.len()
            invariant
                i <= events@.len(),
                identity_pallet_index != guild_pallet_index,
                challenges@ == taken_requests(events@.take(i as int), operator, identity_pallet_index),
                joins@ == taken_requests(events@.take(i as int), operator, guild_pallet_index),
            decreases events@.len() - i,
        {
            proof {
                assert(events@.take(i + 1).drop_last() =~= events@.take(i as int));
                assert(events@.take(i + 1).last() == events@[i as int]);
            }
            match events[i] {
                Event::OracleRequest { request_id, operator: o, pallet_index, fee: _ } => {
                    if o == operator {
                        if pallet_index == identity_pallet_index {
                            challenges.push(request_id);
                        } else if pallet_index == guild_pallet_index {
                            joins.push(request_id);
                        }
                    }
                },
                _ => {},
            }
            i = i + 1;
        }
        proof {
            assert(events@.take(events@.len() as int) =~= events@);
        }
        RequestIds { challenges, joins }
    }
}

} // verus!
