//! Properties that hold across calls of the gym operations, stated over
//! their contracts.
use crate::model::{Error, Gym, GymPayload, GymRegistrationPayload, GymServicePayload};
use crate::service::{
    add_service_post, create_post, delete_post, read_result, register_post, update_post, wf, StorageView,
};
use vstd::prelude::*;

verus! {

proof fn lemma_counter_rises(
    states: Seq<StorageView>,
    results: Seq<Result<Gym, Error>>,
    callers: Seq<Seq<char>>,
    nows: Seq<u64>,
    payloads: Seq<GymPayload>,
    a: int,
    b: int,
)
    requires
        states.len() == results.len() + 1,
        callers.len() == results.len(),
        nows.len() == results.len(),
        payloads.len() == results.len(),
        forall|k: int|
            0 <= k < results.len() ==> create_post(
                #[trigger] states[k],
                states[k + 1],
                callers[k],
                nows[k],
                payloads[k],
                results[k],
            ),
        0 <= a <= b < states.len(),
    ensures
        states[a].last_id <= states[b].last_id,
    decreases b - a,
{
    if a < b {
        lemma_counter_rises(states, results, callers, nows, payloads, a, b - 1);
        let k = b - 1;
        assert(create_post(states[k], states[k + 1], callers[k], nows[k], payloads[k], results[k]));
    }
}

/// Over any run of creations, the ids of the gyms created rise strictly, so
/// no two are alike.
pub proof fn lemma_created_ids_increase(
    states: Seq<StorageView>,
    results: Seq<Result<Gym, Error>>,
    callers: Seq<Seq<char>>,
    nows: Seq<u64>,
    payloads: Seq<GymPayload>,
)
    requires
        states.len() == results.len() + 1,
        callers.len() == results.len(),
        nows.len() == results.len(),
        payloads.len() == results.len(),
        forall|k: int|
            0 <= k < results.len() ==> create_post(
                #[trigger] states[k],
                states[k + 1],
                callers[k],
                nows[k],
                payloads[k],
                results[k],
            ),
    ensures
        forall|i: int, j: int|
            0 <= i < j < results.len() && (#[trigger] results[i]) is Ok && (#[trigger] results[j]) is Ok
                ==> results[i]->Ok_0.id < results[j]->Ok_0.id,
{
    assert forall|i: int, j: int|
        0 <= i < j < results.len() && (#[trigger] results[i]) is Ok && (#[trigger] results[j]) is Ok
            implies results[i]->Ok_0.id < results[j]->Ok_0.id by {
        assert(create_post(states[i], states[i + 1], callers[i], nows[i], payloads[i], results[i]));
        assert(create_post(states[j], states[j + 1], callers[j], nows[j], payloads[j], results[j]));
        lemma_counter_rises(states, results, callers, nows, payloads, i + 1, j);
    }
}

/// Reading a gym twice from one state gives the same outcome both times.
pub proof fn lemma_read_twice(s: StorageView, id: u64, r1: Result<Gym, Error>, r2: Result<Gym, Error>)
    requires
        read_result(s, id, r1),
        read_result(s, id, r2),
    ensures
        r1 is Ok <==> r2 is Ok,
        r1 is Ok ==> r1->Ok_0@ == r2->Ok_0@,
        r1 is Err ==> r1->Err_0 is NotFound && r2->Err_0 is NotFound,
{
}

/// Once a caller has registered with a gym, a second valid registration by
/// the same caller is refused as `AlreadyMember` and changes nothing.
pub proof fn lemma_second_registration_refused(
    s0: StorageView,
    s1: StorageView,
    s2: StorageView,
    caller: Seq<char>,
    now1: u64,
    now2: u64,
    id: u64,
    first_payload: GymRegistrationPayload,
    second_payload: GymRegistrationPayload,
    r1: Result<Gym, Error>,
    r2: Result<Gym, Error>,
)
    requires
        wf(s0),
        register_post(s0, s1, caller, now1, id, first_payload, r1),
        r1 is Ok,
        register_post(s1, s2, caller, now2, id, second_payload, r2),
        second_payload.valid(),
    ensures
        r2 is Err && r2->Err_0 is AlreadyMember,
        s2 == s1,
{
    let g = s1.gyms[id];
    assert(s0.gyms[id].id == id);
    assert(g == r1->Ok_0@);
    assert(g.members[g.members.len() - 1].owner == caller);
}

/// A caller who does not own a gym cannot update it, delete it or add a
/// service to it: each is refused as `NotAuthorized` and the state is kept.
pub proof fn lemma_non_owner_refused(
    pre: StorageView,
    post_update: StorageView,
    post_delete: StorageView,
    post_service: StorageView,
    caller: Seq<char>,
    now: u64,
    id: u64,
    gym_payload: GymPayload,
    service_payload: GymServicePayload,
    r_update: Result<Gym, Error>,
    r_delete: Result<Gym, Error>,
    r_service: Result<Gym, Error>,
)
    requires
        pre.gyms.contains_key(id),
        pre.gyms[id].owner != caller,
        gym_payload.valid(),
        service_payload.valid(),
        update_post(pre, post_update, caller, now, id, gym_payload, r_update),
        delete_post(pre, post_delete, caller, id, r_delete),
        add_service_post(pre, post_service, caller, now, id, service_payload, r_service),
    ensures
        r_update is Err && r_update->Err_0 is NotAuthorized && post_update == pre,
        r_delete is Err && r_delete->Err_0 is NotAuthorized && post_delete == pre,
        r_service is Err && r_service->Err_0 is NotAuthorized && post_service == pre,
{
}

/// Creating a gym with an empty name is refused as `PayloadInvalid`: no
/// record is added and the id counter does not move.
pub proof fn lemma_empty_name_refused(
    pre: StorageView,
    post: StorageView,
    caller: Seq<char>,
    now: u64,
    p: GymPayload,
    r: Result<Gym, Error>,
)
    requires
        create_post(pre, post, caller, now, p, r),
        p.gym_name@.len() == 0,
    ensures
        r is Err && r->Err_0 is PayloadInvalid,
        post.gyms == pre.gyms,
        post.last_id == pre.last_id,
{
}

} // verus!
