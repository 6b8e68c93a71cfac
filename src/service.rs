//! The operations on gyms: each validates and authorises a request before it
//! touches the id counter or the store.
use crate::ids::IdAllocator;
use crate::model::{
    is_member, Error, Gym, GymPayload, GymRegistration, GymRegistrationPayload, GymService,
    GymServicePayload, GymView, RegistrationView, ServiceView,
};
use crate::partition::{default_memory, memory_id, DurableTable, MemoryPartitions};
use crate::store::{fits, keys_increasing, record_fits, GymStore};
use vstd::prelude::*;

verus! {

/// The partition that holds the gym table.
pub const GYM_PARTITION: u8 = 1;

/// The persistent state: the id counter and the gym table.
pub struct Storage {
    ids: IdAllocator,
    gyms: GymStore,
}

pub struct StorageView {
    /// The last id issued.
    pub last_id: u64,
    pub gyms: Map<u64, GymView>,
}

impl View for Storage {
    type V = StorageView;

    closed spec fn view(&self) -> StorageView {
        StorageView { last_id: self.ids@, gyms: self.gyms@ }
    }
}

impl Storage {
    /// The gym table holds the byte form of each record.
    pub closed spec fn inv(&self) -> bool {
        self.gyms.inv()
    }
}

/// Each gym is stored under its own id, and no id above the last one issued
/// is in use.
pub open spec fn wf(s: StorageView) -> bool {
    forall|k: u64| #[trigger] s.gyms.contains_key(k) ==> s.gyms[k].id == k && k <= s.last_id
}

/// The gym that a valid creation request makes.
pub open spec fn new_gym(id: u64, caller: Seq<char>, now: u64, p: GymPayload) -> GymView {
    GymView {
        id,
        gym_name: p.gym_name@,
        members: Seq::empty(),
        owner: caller,
        gym_location: p.gym_location@,
        gym_services: Seq::empty(),
        gym_banner: p.gym_banner@,
        created_at: now,
        updated_at: None,
    }
}

pub open spec fn with_member(g: GymView, caller: Seq<char>, now: u64, p: GymRegistrationPayload) -> GymView {
    GymView {
        members: g.members.push(RegistrationView { user_name: p.user_name@, owner: caller, created_at: now }),
        ..g
    }
}

pub open spec fn with_service(g: GymView, now: u64, p: GymServicePayload) -> GymView {
    GymView {
        gym_services: g.gym_services.push(
            ServiceView {
                service_name: p.service_name@,
                service_description: p.service_description@,
                created_at: now,
                updated_at: None,
            },
        ),
        ..g
    }
}

pub open spec fn with_details(g: GymView, now: u64, p: GymPayload) -> GymView {
    GymView {
        gym_name: p.gym_name@,
        gym_location: p.gym_location@,
        gym_banner: p.gym_banner@,
        updated_at: Some(now),
        ..g
    }
}

/// Every gym found both before and after keeps its owner.
pub open spec fn owners_kept(pre: StorageView, post: StorageView) -> bool {
    forall|k: u64|
        pre.gyms.contains_key(k) && #[trigger] post.gyms.contains_key(k) ==> post.gyms[k].owner
            == pre.gyms[k].owner
}

/// `post` is `pre` with `g` stored under its id.
pub open spec fn stored(pre: StorageView, post: StorageView, g: GymView) -> bool {
    post == StorageView { last_id: pre.last_id, gyms: pre.gyms.insert(g.id, g) }
}

/// `g` is stored and returned when its byte form fits in a table entry;
/// otherwise the request is refused and nothing changes.
pub open spec fn commit(pre: StorageView, post: StorageView, g: GymView, r: Result<Gym, Error>) -> bool {
    if fits(g) {
        r is Ok && r->Ok_0@ == g && stored(pre, post, g)
    } else {
        r is Err && r->Err_0 is RecordTooLarge && post == pre
    }
}

/// What `create_gym` does.
pub open spec fn create_post(
    pre: StorageView,
    post: StorageView,
    caller: Seq<char>,
    now: u64,
    p: GymPayload,
    r: Result<Gym, Error>,
) -> bool {
    if !p.valid() {
        r is Err && r->Err_0 is PayloadInvalid && post == pre
    } else if pre.last_id == u64::MAX {
        r is Err && r->Err_0 is StorageFailure && post == pre
    } else if !fits(new_gym((pre.last_id + 1) as u64, caller, now, p)) {
        r is Err && r->Err_0 is RecordTooLarge && post == pre
    } else {
        &&& r is Ok
        &&& r->Ok_0@ == new_gym((pre.last_id + 1) as u64, caller, now, p)
        &&& post == StorageView { last_id: r->Ok_0.id, gyms: pre.gyms.insert(r->Ok_0.id, r->Ok_0@) }
    }
}

/// What `register_for_a_gym` does.
pub open spec fn register_post(
    pre: StorageView,
    post: StorageView,
    caller: Seq<char>,
    now: u64,
    id: u64,
    p: GymRegistrationPayload,
    r: Result<Gym, Error>,
) -> bool {
    if !p.valid() {
        r is Err && r->Err_0 is PayloadInvalid && post == pre
    } else if !pre.gyms.contains_key(id) {
        r is Err && r->Err_0 is NotFound && post == pre
    } else if is_member(pre.gyms[id], caller) {
        r is Err && r->Err_0 is AlreadyMember && post == pre
    } else {
        commit(pre, post, with_member(pre.gyms[id], caller, now, p), r)
    }
}

/// What `add_gym_service` does.
pub open spec fn add_service_post(
    pre: StorageView,
    post: StorageView,
    caller: Seq<char>,
    now: u64,
    id: u64,
    p: GymServicePayload,
    r: Result<Gym, Error>,
) -> bool {
    if !p.valid() {
        r is Err && r->Err_0 is PayloadInvalid && post == pre
    } else if !pre.gyms.contains_key(id) {
        r is Err && r->Err_0 is NotFound && post == pre
    } else if pre.gyms[id].owner != caller {
        r is Err && r->Err_0 is NotAuthorized && post == pre
    } else {
        commit(pre, post, with_service(pre.gyms[id], now, p), r)
    }
}

/// What `update_gym` does.
pub open spec fn update_post(
    pre: StorageView,
    post: StorageView,
    caller: Seq<char>,
    now: u64,
    id: u64,
    p: GymPayload,
    r: Result<Gym, Error>,
) -> bool {
    if !pre.gyms.contains_key(id) {
        r is Err && r->Err_0 is NotFound && post == pre
    } else if !p.valid() {
        r is Err && r->Err_0 is PayloadInvalid && post == pre
    } else if pre.gyms[id].owner != caller {
        r is Err && r->Err_0 is NotAuthorized && post == pre
    } else {
        commit(pre, post, with_details(pre.gyms[id], now, p), r)
    }
}

/// What `delete_gym` does.
pub open spec fn delete_post(
    pre: StorageView,
    post: StorageView,
    caller: Seq<char>,
    id: u64,
    r: Result<Gym, Error>,
) -> bool {
    if !pre.gyms.contains_key(id) {
        r is Err && r->Err_0 is NotFound && post == pre
    } else if pre.gyms[id].owner != caller {
        r is Err && r->Err_0 is NotAuthorized && post == pre
    } else {
        &&& r is Ok
        &&& r->Ok_0@ == pre.gyms[id]
        &&& post == StorageView { last_id: pre.last_id, gyms: pre.gyms.remove(id) }
    }
}

/// What `get_gym` returns.
pub open spec fn read_result(s: StorageView, id: u64, r: Result<Gym, Error>) -> bool {
    if s.gyms.contains_key(id) {
        r is Ok && r->Ok_0@ == s.gyms[id]
    } else {
        r is Err && r->Err_0 is NotFound
    }
}

fn has_member(members: &Vec<GymRegistration>, caller: &String) -> (r: bool)
    ensures
        r == exists|i: int| 0 <= i < members@.len() && #[trigger] members@[i].owner@ == caller@,
{
    let mut i: usize = 0;
    while i < members.len()
        invariant
            i <= members.len(),
            forall|j: int| 0 <= j < i ==> (#[trigger] members@[j]).owner@ != caller@,
        decreases members.len() - i,
    {
        if members[i].owner == *caller {
            return true;
        }
        i = i + 1;
    }
    false
}

fn not_owner() -> (e: Error)
    ensures
        e is NotAuthorized,
{
    Error::NotAuthorized { msg: "You are not the owner".to_string() }
}

fn gym_not_found() -> (e: Error)
    ensures
        e is NotFound,
{
    Error::NotFound { msg: "Gym not found".to_string() }
}

fn id_failure() -> (e: Error)
    ensures
        e is StorageFailure,
{
    Error::StorageFailure { msg: "cannot increment id counter".to_string() }
}

fn too_large() -> (e: Error)
    ensures
        e is RecordTooLarge,
{
    Error::RecordTooLarge { msg: "The gym record would outgrow its storage entry".to_string() }
}

fn invalid_payload() -> (e: Error)
    ensures
        e is PayloadInvalid,
{
    Error::PayloadInvalid { msg: "A field of the payload is too short".to_string() }
}

impl Storage {
    /// Opens the state over the process's durable memory: the id counter and
    /// the gym table keep what they hold. `None` when the counter's partition
    /// cannot be read or the table holds an entry that is not a well-formed
    /// gym under its own id.
    pub fn new() -> (r: Option<Storage>)
        ensures
            r matches Some(s) ==> wf(s@) && s.inv(),
    {
        let partitions = MemoryPartitions::init(default_memory());
        let ids = match IdAllocator::init(&partitions) {
            Some(ids) => ids,
            None => {
                return None;
            },
        };
        let last = ids.last();
        match GymStore::load(DurableTable::init(partitions.get(memory_id(GYM_PARTITION))), last) {
            Some(gyms) => Some(Storage { ids, gyms }),
            None => None,
        }
    }

    /// The last id issued.
    pub fn last_id(&self) -> (r: u64)
        ensures
            r == self@.last_id,
    {
        self.ids.last()
    }

    /// Stores `gym` under its id when its byte form fits in a table entry.
    pub fn do_insert(&mut self, gym: &Gym) -> (r: bool)
        requires
            wf(old(self)@),
            old(self).inv(),
            gym.id <= old(self)@.last_id,
        ensures
            wf(final(self)@),
            final(self).inv(),
            r == fits(gym@),
            r ==> stored(old(self)@, final(self)@, gym@),
            !r ==> final(self)@ == old(self)@,
    {
        self.gyms.insert(gym.id, gym)
    }

    /// A copy of the gym stored under `id`, if any.
    pub fn _get_gym(&self, id: &u64) -> (r: Option<Gym>)
        requires
            self.inv(),
        ensures
            match r {
                Some(g) => self@.gyms.contains_key(*id) && g@ == self@.gyms[*id],
                None => !self@.gyms.contains_key(*id),
            },
    {
        self.gyms.get(*id)
    }

    /// Creates a gym owned by `caller`, under the next id.
    pub fn create_gym(&mut self, caller: &String, now: u64, payload: GymPayload) -> (r: Result<Gym, Error>)
        requires
            wf(old(self)@),
            old(self).inv(),
        ensures
            wf(final(self)@),
            final(self).inv(),
            create_post(old(self)@, final(self)@, caller@, now, payload, r),
            owners_kept(old(self)@, final(self)@),
    {
        if !payload.validate() {
            return Err(invalid_payload());
        }
        let last = self.ids.last();
        if last == u64::MAX {
            return Err(id_failure());
        }
        let ghost p = payload;
        let gym = Gym {
            id: last + 1,
            owner: caller.clone(),
            gym_name: payload.gym_name,
            members: Vec::new(),
            gym_location: payload.gym_location,
            gym_services: Vec::new(),
            gym_banner: payload.gym_banner,
            created_at: now,
            updated_at: None,
        };
        assert(gym@.members =~= Seq::<RegistrationView>::empty());
        assert(gym@.gym_services =~= Seq::<ServiceView>::empty());
        assert(gym@ == new_gym((last + 1) as u64, caller@, now, p));
        if !record_fits(&gym) {
            return Err(too_large());
        }
        match self.ids.next_id() {
            Some(_) => {},
            None => {
                return Err(id_failure());
            },
        }
        self.do_insert(&gym);
        Ok(gym)
    }

    /// Registers `caller` as a member of the gym under `id`.
    pub fn register_for_a_gym(
        &mut self,
        caller: &String,
        now: u64,
        id: u64,
        payload: GymRegistrationPayload,
    ) -> (r: Result<Gym, Error>)
        requires
            wf(old(self)@),
            old(self).inv(),
        ensures
            wf(final(self)@),
            final(self).inv(),
            register_post(old(self)@, final(self)@, caller@, now, id, payload, r),
            owners_kept(old(self)@, final(self)@),
    {
        if !payload.validate() {
            return Err(invalid_payload());
        }
        let ghost p = payload;
        let mut gym = match self.gyms.get(id) {
            Some(g) => g,
            None => {
                return Err(gym_not_found());
            },
        };
        let ghost before = gym@;
        if has_member(&gym.members, caller) {
            assert(is_member(before, caller@)) by {
                let i = choose|i: int| 0 <= i < gym.members@.len() && #[trigger] gym.members@[i].owner@ == caller@;
                assert(before.members[i].owner == caller@);
            }
            return Err(Error::AlreadyMember { msg: "Caller is already a member of this gym".to_string() });
        }
        assert(!is_member(before, caller@)) by {
            if is_member(before, caller@) {
                let i = choose|i: int| 0 <= i < before.members.len() && #[trigger] before.members[i].owner == caller@;
                assert(gym.members@[i].owner@ == caller@);
            }
        }
        gym.members.push(GymRegistration { user_name: payload.user_name, owner: caller.clone(), created_at: now });
        assert(gym@.members =~= with_member(before, caller@, now, p).members);
        assert(gym@ == with_member(before, caller@, now, p));
        if !self.do_insert(&gym) {
            return Err(too_large());
        }
        Ok(gym)
    }

    /// Adds a service to the gym under `id`; only its owner may.
    pub fn add_gym_service(
        &mut self,
        caller: &String,
        now: u64,
        id: u64,
        payload: GymServicePayload,
    ) -> (r: Result<Gym, Error>)
        requires
            wf(old(self)@),
            old(self).inv(),
        ensures
            wf(final(self)@),
            final(self).inv(),
            add_service_post(old(self)@, final(self)@, caller@, now, id, payload, r),
            owners_kept(old(self)@, final(self)@),
    {
        if !payload.validate() {
            return Err(invalid_payload());
        }
        let ghost p = payload;
        let mut gym = match self.gyms.get(id) {
            Some(g) => g,
            None => {
                return Err(gym_not_found());
            },
        };
        if gym.owner != *caller {
            return Err(not_owner());
        }
        let ghost before = gym@;
        gym.gym_services.push(
            GymService {
                service_name: payload.service_name,
                service_description: payload.service_description,
                created_at: now,
                updated_at: None,
            },
        );
        assert(gym@.gym_services =~= with_service(before, now, p).gym_services);
        assert(gym@ == with_service(before, now, p));
        if !self.do_insert(&gym) {
            return Err(too_large());
        }
        Ok(gym)
    }

    /// A copy of the gym under `id`.
    pub fn get_gym(&self, id: u64) -> (r: Result<Gym, Error>)
        requires
            self.inv(),
        ensures
            read_result(self@, id, r),
    {
        match self._get_gym(&id) {
            Some(gym) => Ok(gym),
            None => Err(gym_not_found()),
        }
    }

    /// Every gym, in increasing order of id; `NotFound` when there is none.
    pub fn get_all_gyms(&self) -> (r: Result<Vec<Gym>, Error>)
        requires
            wf(self@),
            self.inv(),
        ensures
            r is Err <==> self@.gyms.len() == 0,
            r is Err ==> r->Err_0 is NotFound,
            r is Ok ==> {
                let v = r->Ok_0;
                &&& v.len() == self@.gyms.len()
                &&& forall|i: int, j: int| 0 <= i < j < v.len() ==> (#[trigger] v@[i]).id < (#[trigger] v@[j]).id
                &&& forall|i: int| 0 <= i < v.len() ==> self@.gyms.contains_key(#[trigger] v@[i].id) && v@[i]@
                    == self@.gyms[v@[i].id]
            },
    {
        let entries = self.gyms.scan_all();
        let ghost ev = entries@.map_values(|e: (u64, Gym)| (e.0, e.1@));
        let mut list: Vec<Gym> = Vec::new();
        let mut i: usize = 0;
        while i < entries.len()
            invariant
                i <= entries.len(),
                list.len() == i,
                entries.len() == self@.gyms.len(),
                wf(self@),
                self.inv(),
                ev == entries@.map_values(|e: (u64, Gym)| (e.0, e.1@)),
                keys_increasing(ev),
                forall|k: int|
                    0 <= k < entries.len() ==> self@.gyms.contains_key(#[trigger] entries@[k].0)
                        && entries@[k].1@ == self@.gyms[entries@[k].0],
                forall|k: int| 0 <= k < i ==> (#[trigger] list@[k])@ == entries@[k].1@ && list@[k].id == entries@[k].0,
            decreases entries.len() - i,
        {
            let g = entries[i].1.duplicate();
            proof {
                let k = entries@[i as int].0;
                assert(self@.gyms.contains_key(k));
            }
            list.push(g);
            i = i + 1;
        }
        if list.len() == 0 {
            return Err(Error::NotFound { msg: "no gym available".to_string() });
        }
        assert forall|a: int, b: int| 0 <= a < b < list.len() implies (#[trigger] list@[a]).id < (#[trigger] list@[b]).id by {
            assert(ev[a].0 < ev[b].0);
        }
        Ok(list)
    }

    /// Replaces the name, location and banner of the gym under `id`; only its
    /// owner may.
    pub fn update_gym(&mut self, caller: &String, now: u64, id: u64, payload: GymPayload) -> (r: Result<Gym, Error>)
        requires
            wf(old(self)@),
            old(self).inv(),
        ensures
            wf(final(self)@),
            final(self).inv(),
            update_post(old(self)@, final(self)@, caller@, now, id, payload, r),
            owners_kept(old(self)@, final(self)@),
    {
        let mut gym = match self.gyms.get(id) {
            Some(g) => g,
            None => {
                return Err(gym_not_found());
            },
        };
        if !payload.validate() {
            return Err(invalid_payload());
        }
        if gym.owner != *caller {
            return Err(not_owner());
        }
        let ghost p = payload;
        let ghost before = gym@;
        gym.gym_name = payload.gym_name;
        gym.gym_location = payload.gym_location;
        gym.gym_banner = payload.gym_banner;
        gym.updated_at = Some(now);
        assert(gym@ =~= with_details(before, now, p));
        if !self.do_insert(&gym) {
            return Err(too_large());
        }
        Ok(gym)
    }

    /// Removes the gym under `id` and returns it; only its owner may.
    pub fn delete_gym(&mut self, caller: &String, id: u64) -> (r: Result<Gym, Error>)
        requires
            wf(old(self)@),
            old(self).inv(),
        ensures
            wf(final(self)@),
            final(self).inv(),
            delete_post(old(self)@, final(self)@, caller@, id, r),
            owners_kept(old(self)@, final(self)@),
    {
        let gym = match self.gyms.get(id) {
            Some(g) => g,
            None => {
                return Err(gym_not_found());
            },
        };
        if gym.owner != *caller {
            return Err(not_owner());
        }
        match self.gyms.remove(id) {
            Some(removed) => Ok(removed),
            None => Err(gym_not_found()),
        }
    }
}

} // verus!
