//! The records, the payloads that callers send, and the errors they get back.
use vstd::prelude::*;

verus! {

/// A member's registration, embedded in a gym.
#[derive(Debug)]
pub struct GymRegistration {
    pub user_name: String,
    pub owner: String,
    pub created_at: u64,
}

/// A service that a gym offers, embedded in the gym.
#[derive(Debug)]
pub struct GymService {
    pub service_name: String,
    pub service_description: String,
    pub created_at: u64,
    pub updated_at: Option<u64>,
}

/// A gym: the record that the store keeps under its id.
#[derive(Debug)]
pub struct Gym {
    pub id: u64,
    pub gym_name: String,
    pub members: Vec<GymRegistration>,
    pub owner: String,
    pub gym_location: String,
    pub gym_services: Vec<GymService>,
    pub gym_banner: String,
    pub created_at: u64,
    pub updated_at: Option<u64>,
}

pub struct RegistrationView {
    pub user_name: Seq<char>,
    pub owner: Seq<char>,
    pub created_at: u64,
}

pub struct ServiceView {
    pub service_name: Seq<char>,
    pub service_description: Seq<char>,
    pub created_at: u64,
    pub updated_at: Option<u64>,
}

pub struct GymView {
    pub id: u64,
    pub gym_name: Seq<char>,
    pub members: Seq<RegistrationView>,
    pub owner: Seq<char>,
    pub gym_location: Seq<char>,
    pub gym_services: Seq<ServiceView>,
    pub gym_banner: Seq<char>,
    pub created_at: u64,
    pub updated_at: Option<u64>,
}

impl View for GymRegistration {
    type V = RegistrationView;

    open spec fn view(&self) -> RegistrationView {
        RegistrationView { user_name: self.user_name@, owner: self.owner@, created_at: self.created_at }
    }
}

impl View for GymService {
    type V = ServiceView;

    open spec fn view(&self) -> ServiceView {
        ServiceView {
            service_name: self.service_name@,
            service_description: self.service_description@,
            created_at: self.created_at,
            updated_at: self.updated_at,
        }
    }
}

impl View for Gym {
    type V = GymView;

    open spec fn view(&self) -> GymView {
        GymView {
            id: self.id,
            gym_name: self.gym_name@,
            members: self.members@.map_values(|m: GymRegistration| m@),
            owner: self.owner@,
            gym_location: self.gym_location@,
            gym_services: self.gym_services@.map_values(|s: GymService| s@),
            gym_banner: self.gym_banner@,
            created_at: self.created_at,
            updated_at: self.updated_at,
        }
    }
}

/// Whether some member of `g` registered as `caller`.
pub open spec fn is_member(g: GymView, caller: Seq<char>) -> bool {
    exists|i: int| 0 <= i < g.members.len() && #[trigger] g.members[i].owner == caller
}

impl GymRegistration {
    /// A copy with the same contents.
    pub fn duplicate(&self) -> (r: GymRegistration)
        ensures
            r@ == self@,
    {
        GymRegistration {
            user_name: self.user_name.clone(),
            owner: self.owner.clone(),
            created_at: self.created_at,
        }
    }
}

impl GymService {
    /// A copy with the same contents.
    pub fn duplicate(&self) -> (r: GymService)
        ensures
            r@ == self@,
    {
        GymService {
            service_name: self.service_name.clone(),
            service_description: self.service_description.clone(),
            created_at: self.created_at,
            updated_at: self.updated_at,
        }
    }
}

fn duplicate_members(v: &Vec<GymRegistration>) -> (r: Vec<GymRegistration>)
    ensures
        r@.map_values(|m: GymRegistration| m@) == v@.map_values(|m: GymRegistration| m@),
{
    let mut r: Vec<GymRegistration> = Vec::new();
    let mut i: usize = 0;
    while i < v.len()
        invariant
            i <= v.len(),
            r.len() == i,
            forall|j: int| 0 <= j < i ==> (#[trigger] r@[j])@ == v@[j]@,
        decreases v.len() - i,
    {
        r.push(v[i].duplicate());
        i = i + 1;
    }
    assert(r@.map_values(|m: GymRegistration| m@) =~= v@.map_values(|m: GymRegistration| m@));
    r
}

fn duplicate_services(v: &Vec<GymService>) -> (r: Vec<GymService>)
    ensures
        r@.map_values(|s: GymService| s@) == v@.map_values(|s: GymService| s@),
{
    let mut r: Vec<GymService> = Vec::new();
    let mut i: usize = 0;
    while i < v.len()
        invariant
            i <= v.len(),
            r.len() == i,
            forall|j: int| 0 <= j < i ==> (#[trigger] r@[j])@ == v@[j]@,
        decreases v.len() - i,
    {
        r.push(v[i].duplicate());
        i = i + 1;
    }
    assert(r@.map_values(|s: GymService| s@) =~= v@.map_values(|s: GymService| s@));
    r
}

impl Gym {
    /// A copy with the same contents.
    pub fn duplicate(&self) -> (r: Gym)
        ensures
            r@ == self@,
    {
        Gym {
            id: self.id,
            gym_name: self.gym_name.clone(),
            members: duplicate_members(&self.members),
            owner: self.owner.clone(),
            gym_location: self.gym_location.clone(),
            gym_services: duplicate_services(&self.gym_services),
            gym_banner: self.gym_banner.clone(),
            created_at: self.created_at,
            updated_at: self.updated_at,
        }
    }
}

/// The least number of characters of each payload field.
pub const MIN_GYM_NAME: u64 = 1;
pub const MIN_GYM_LOCATION: u64 = 2;
pub const MIN_GYM_BANNER: u64 = 1;
pub const MIN_SERVICE_NAME: u64 = 1;
pub const MIN_SERVICE_DESCRIPTION: u64 = 10;
pub const MIN_USER_NAME: u64 = 1;

/// What a caller sends to create or update a gym.
#[derive(Debug)]
pub struct GymPayload {
    pub gym_name: String,
    pub gym_location: String,
    pub gym_banner: String,
}

/// What a gym's owner sends to add a service.
#[derive(Debug)]
pub struct GymServicePayload {
    pub service_name: String,
    pub service_description: String,
}

/// What a caller sends to register with a gym.
#[derive(Debug)]
pub struct GymRegistrationPayload {
    pub user_name: String,
}

/// Why an operation was refused.
#[derive(Debug)]
pub enum Error {
    NotFound { msg: String },
    NotAuthorized { msg: String },
    PayloadInvalid { msg: String },
    AlreadyMember { msg: String },
    /// No id could be issued: every id has been used.
    StorageFailure { msg: String },
    /// The record would outgrow the largest entry that the table holds.
    RecordTooLarge { msg: String },
}

/// Relies on `validator::validate_length` with a lower bound alone: it holds
/// when the string has at least `min` characters.
#[verifier::external_body]
fn has_min_length(s: &String, min: u64) -> (r: bool)
    ensures
        r == (s@.len() >= min),
{
    validator::validate_length(s, Some(min), None, None)
}

impl GymPayload {
    pub open spec fn valid(&self) -> bool {
        &&& self.gym_name@.len() >= MIN_GYM_NAME
        &&& self.gym_location@.len() >= MIN_GYM_LOCATION
        &&& self.gym_banner@.len() >= MIN_GYM_BANNER
    }

    /// Whether every field is long enough.
    pub fn validate(&self) -> (r: bool)
        ensures
            r == self.valid(),
    {
        has_min_length(&self.gym_name, MIN_GYM_NAME) && has_min_length(
            &self.gym_location,
            MIN_GYM_LOCATION,
        ) && has_min_length(&self.gym_banner, MIN_GYM_BANNER)
    }
}

impl GymServicePayload {
    pub open spec fn valid(&self) -> bool {
        &&& self.service_name@.len() >= MIN_SERVICE_NAME
        &&& self.service_description@.len() >= MIN_SERVICE_DESCRIPTION
    }

    /// Whether every field is long enough.
    pub fn validate(&self) -> (r: bool)
        ensures
            r == self.valid(),
    {
        has_min_length(&self.service_name, MIN_SERVICE_NAME) && has_min_length(
            &self.service_description,
            MIN_SERVICE_DESCRIPTION,
        )
    }
}

impl GymRegistrationPayload {
    pub open spec fn valid(&self) -> bool {
        self.user_name@.len() >= MIN_USER_NAME
    }

    /// Whether the user name is long enough.
    pub fn validate(&self) -> (r: bool)
        ensures
            r == self.valid(),
    {
        has_min_length(&self.user_name, MIN_USER_NAME)
    }
}

} // verus!
