//! The domain registry: who owns each name, where it points, and whether that was verified.

use vstd::prelude::*;
use crate::clock::wall_clock_millis;
use crate::text::{lower_of, lowercase, occurs_in, contains_text};

verus! {

/// One registered domain.
#[derive(Debug)]
pub struct Domain {
    pub domain: String,
    pub owner_pubkey: String,
    pub program_address: String,
    pub verified: bool,
    pub created_at: i64,
    pub updated_at: i64,
    pub expires_at: Option<i64>,
}

/// A request to register a domain.
#[derive(Debug)]
pub struct DomainRegistration {
    pub domain: String,
    pub program_address: String,
    pub owner_pubkey: String,
}

/// A domain record as plain values; times are milliseconds since the Unix epoch.
pub struct DomainModel {
    pub domain: Seq<char>,
    pub owner: Seq<char>,
    pub program: Seq<char>,
    pub verified: bool,
    pub created_at: i64,
    pub updated_at: i64,
    pub expires_at: Option<i64>,
}

impl View for Domain {
    type V = DomainModel;

    open spec fn view(&self) -> DomainModel {
        DomainModel {
            domain: self.domain@,
            owner: self.owner_pubkey@,
            program: self.program_address@,
            verified: self.verified,
            created_at: self.created_at,
            updated_at: self.updated_at,
            expires_at: self.expires_at,
        }
    }
}

/// Why a registry operation was refused.
#[derive(Debug, Clone, Copy, PartialEq, Eq, Structural)]
pub enum DomainError {
    /// The domain name was empty.
    EmptyDomain,
    /// No record exists for the domain.
    NotFound,
}

/// The later of two times: a record's update time never moves back.
pub open spec fn later(prev: i64, now: i64) -> i64 {
    if now > prev { now } else { prev }
}

/// The record after registering `domain` to `owner` and `program` at `now`: a new,
/// unverified record, or the old one repointed and unverified, keeping its creation time.
pub open spec fn registered(
    prev: Option<DomainModel>,
    domain: Seq<char>,
    owner: Seq<char>,
    program: Seq<char>,
    now: i64,
) -> DomainModel {
    match prev {
        None => DomainModel {
            domain,
            owner,
            program,
            verified: false,
            created_at: now,
            updated_at: now,
            expires_at: None,
        },
        Some(d) => DomainModel {
            domain: d.domain,
            owner,
            program,
            verified: false,
            created_at: d.created_at,
            updated_at: later(d.updated_at, now),
            expires_at: d.expires_at,
        },
    }
}

/// The record after verification at `now`.
pub open spec fn verified_at(d: DomainModel, now: i64) -> DomainModel {
    DomainModel { verified: true, updated_at: later(d.updated_at, now), ..d }
}

/// The record after its transfer to `new_owner` at `now`: verification is lost.
pub open spec fn transferred(d: DomainModel, new_owner: Seq<char>, now: i64) -> DomainModel {
    DomainModel { owner: new_owner, verified: false, updated_at: later(d.updated_at, now), ..d }
}

pub open spec fn model_of(d: Option<Domain>) -> Option<DomainModel> {
    match d {
        Some(x) => Some(x@),
        None => None,
    }
}

impl Domain {
    /// A field-by-field copy.
    pub fn duplicate(&self) -> (r: Domain)
        ensures
            r@ == self@,
    {
        Domain {
            domain: self.domain.clone(),
            owner_pubkey: self.owner_pubkey.clone(),
            program_address: self.program_address.clone(),
            verified: self.verified,
            created_at: self.created_at,
            updated_at: self.updated_at,
            expires_at: self.expires_at,
        }
    }
}

/// Registers `domain` over the record it had, if any.
pub fn apply_register(prev: Option<Domain>, domain: &str, owner: &str, program: &str, now: i64) -> (r:
    Domain)
    requires
        prev matches Some(d) ==> d.domain@ == domain@,
    ensures
        r@ == registered(model_of(prev), domain@, owner@, program@, now),
        r.domain@ == domain@,
{
    match prev {
        None => Domain {
            domain: String::from_str(domain),
            owner_pubkey: String::from_str(owner),
            program_address: String::from_str(program),
            verified: false,
            created_at: now,
            updated_at: now,
            expires_at: None,
        },
        Some(d) => Domain {
            domain: d.domain,
            owner_pubkey: String::from_str(owner),
            program_address: String::from_str(program),
            verified: false,
            created_at: d.created_at,
            updated_at: if now > d.updated_at { now } else { d.updated_at },
            expires_at: d.expires_at,
        },
    }
}

/// Marks a record verified.
pub fn apply_verify(d: Domain, now: i64) -> (r: Domain)
    ensures
        r@ == verified_at(d@, now),
{
    let updated_at = if now > d.updated_at { now } else { d.updated_at };
    Domain { verified: true, updated_at, ..d }
}

/// Hands a record to a new owner.
pub fn apply_transfer(d: Domain, new_owner: &str, now: i64) -> (r: Domain)
    ensures
        r@ == transferred(d@, new_owner@, now),
{
    let updated_at = if now > d.updated_at { now } else { d.updated_at };
    Domain { owner_pubkey: String::from_str(new_owner), verified: false, updated_at, ..d }
}

/// Registering a domain and then verifying it: looking the domain up afterwards finds it
/// verified, owned by the registrant and pointing at the registered program.
pub proof fn lemma_register_then_verify(
    r0: Map<Seq<char>, DomainModel>,
    r1: Map<Seq<char>, DomainModel>,
    r2: Map<Seq<char>, DomainModel>,
    domain: Seq<char>,
    owner: Seq<char>,
    program: Seq<char>,
    t1: i64,
    t2: i64,
)
    requires
        r1 == r0.insert(domain, registered(r0.get(domain), domain, owner, program, t1)),
        r2 == r1.insert(domain, verified_at(r1[domain], t2)),
    ensures
        r2.get(domain) is Some,
        r2[domain].verified,
        r2[domain].owner == owner,
        r2[domain].program == program,
{
}

/// Transferring a domain, verified or not: afterwards it is unverified and owned by the new
/// owner, and it still points where it did.
pub proof fn lemma_transfer_unverifies(
    r0: Map<Seq<char>, DomainModel>,
    r1: Map<Seq<char>, DomainModel>,
    domain: Seq<char>,
    new_owner: Seq<char>,
    now: i64,
)
    requires
        r0.contains_key(domain),
        r1 == r0.insert(domain, transferred(r0[domain], new_owner, now)),
    ensures
        r1.get(domain) is Some,
        !r1[domain].verified,
        r1[domain].owner == new_owner,
        r1[domain].program == r0[domain].program,
{
}

/// Registering an existing domain again, even by its own owner: afterwards it is
/// unverified and points at the new program, and its creation time is kept.
pub proof fn lemma_reregister_unverifies(
    r0: Map<Seq<char>, DomainModel>,
    r1: Map<Seq<char>, DomainModel>,
    domain: Seq<char>,
    owner: Seq<char>,
    program: Seq<char>,
    now: i64,
)
    requires
        r0.contains_key(domain),
        r1 == r0.insert(domain, registered(r0.get(domain), domain, owner, program, now)),
    ensures
        !r1[domain].verified,
        r1[domain].owner == owner,
        r1[domain].program == program,
        r1[domain].created_at == r0[domain].created_at,
{
}

/// Every change keeps the creation time and never moves the update time back.
pub proof fn lemma_times_monotone(
    d: DomainModel,
    owner: Seq<char>,
    program: Seq<char>,
    now: i64,
)
    ensures
        registered(Some(d), d.domain, owner, program, now).created_at == d.created_at,
        registered(Some(d), d.domain, owner, program, now).updated_at >= d.updated_at,
        verified_at(d, now).created_at == d.created_at,
        verified_at(d, now).updated_at >= d.updated_at,
        transferred(d, owner, now).created_at == d.created_at,
        transferred(d, owner, now).updated_at >= d.updated_at,
{
}


/// Whether a record answers a search for `query`: it is verified, and the query occurs,
/// case ignored, in its name or in its program address.
pub open spec fn search_hit(d: DomainModel, query: Seq<char>) -> bool {
    &&& d.verified
    &&& occurs_in(lower_of(query), lower_of(d.domain)) || occurs_in(lower_of(query), lower_of(d.program))
}

/// Whether some record of `m` has the name `domain`.
pub open spec fn names_in(m: Seq<DomainModel>, domain: Seq<char>) -> bool {
    exists|i: int| 0 <= i < m.len() && (#[trigger] m[i]).domain == domain
}

/// Whether the already lowercased query occurs in the lowercased name or program address.
pub fn matches_folded(query: &str, domain: &str, program: &str) -> (r: bool)
    ensures
        r == (occurs_in(query@, domain@) || occurs_in(query@, program@)),
{
    contains_text(domain, query) || contains_text(program, query)
}

/// Whether `d` answers a search for `query`.
pub fn is_search_hit(d: &Domain, query: &str) -> (r: bool)
    ensures
        r == search_hit(d@, query@),
{
    if !d.verified {
        return false;
    }
    let q = lowercase(query);
    let name = lowercase(d.domain.as_str());
    let program = lowercase(d.program_address.as_str());
    matches_folded(q.as_str(), name.as_str(), program.as_str())
}

/// The records of `s`, in order, whose owner is `owner`.
pub open spec fn owned_by(s: Seq<DomainModel>, owner: Seq<char>) -> Seq<DomainModel>
    decreases s.len(),
{
    if s.len() == 0 {
        Seq::empty()
    } else if s.last().owner == owner {
        owned_by(s.drop_last(), owner).push(s.last())
    } else {
        owned_by(s.drop_last(), owner)
    }
}

pub open spec fn models(s: Seq<Domain>) -> Seq<DomainModel> {
    s.map_values(|d: Domain| d@)
}

/// The domain registry, kept in memory: one record per domain name.
pub struct OlympusCA {
    docs: Vec<Domain>,
    model: Ghost<Map<Seq<char>, DomainModel>>,
}

impl OlympusCA {
    /// The records, by domain name.
    pub closed spec fn records(&self) -> Map<Seq<char>, DomainModel> {
        self.model@
    }

    /// The records in the order they were first registered.
    pub closed spec fn entries(&self) -> Seq<DomainModel> {
        models(self.docs@)
    }

    /// Each stored record is the model's record for its name, each name of the model is
    /// stored, and no name is stored twice.
    pub closed spec fn wf(&self) -> bool {
        &&& forall|i: int|
            0 <= i < self.docs@.len() ==> self.model@.contains_key(#[trigger] self.docs@[i].domain@)
                && self.model@[self.docs@[i].domain@] == self.docs@[i]@
        &&& forall|k: Seq<char>|
            #[trigger] self.model@.contains_key(k) ==> exists|i: int|
                0 <= i < self.docs@.len() && #[trigger] self.docs@[i].domain@ == k
        &&& forall|i: int, j: int|
            0 <= i < self.docs@.len() && 0 <= j < self.docs@.len() && i != j
                ==> #[trigger] self.docs@[i].domain@ != #[trigger] self.docs@[j].domain@
        &&& forall|k: Seq<char>| #[trigger] self.model@.contains_key(k) ==> k.len() > 0
    }

    /// The entries are the records, each once: every entry is the record of its name, every
    /// record is an entry, no name is an entry twice, and no record has an empty name.
    pub proof fn lemma_entries_are_records(&self)
        requires
            self.wf(),
        ensures
            forall|i: int|
                0 <= i < self.entries().len() ==> self.records().contains_key(
                    #[trigger] self.entries()[i].domain,
                ) && self.records()[self.entries()[i].domain] == self.entries()[i],
            forall|k: Seq<char>| #[trigger] self.records().contains_key(k) ==> self.records()[k].domain == k,
            forall|k: Seq<char>|
                #[trigger] self.records().contains_key(k) ==> exists|i: int|
                    0 <= i < self.entries().len() && (#[trigger] self.entries()[i]).domain == k,
            forall|i: int, j: int|
                0 <= i < self.entries().len() && 0 <= j < self.entries().len() && i != j
                    ==> (#[trigger] self.entries()[i]).domain != (#[trigger] self.entries()[j]).domain,
            forall|k: Seq<char>| #[trigger] self.records().contains_key(k) ==> k.len() > 0,
    {
        assert forall|k: Seq<char>| #[trigger] self.records().contains_key(k) implies self.records()[k].domain == k by {
            let i = choose|i: int| 0 <= i < self.docs@.len() && #[trigger] self.docs@[i].domain@ == k;
        }
        assert forall|k: Seq<char>| #[trigger] self.records().contains_key(k) implies exists|i: int|
            0 <= i < self.entries().len() && (#[trigger] self.entries()[i]).domain == k by {
            let i = choose|i: int| 0 <= i < self.docs@.len() && #[trigger] self.docs@[i].domain@ == k;
            assert(self.entries()[i].domain == k);
        }
        assert forall|i: int, j: int|
            0 <= i < self.entries().len() && 0 <= j < self.entries().len() && i != j implies (
            #[trigger] self.entries()[i]).domain != (#[trigger] self.entries()[j]).domain by {
            assert(self.docs@[i].domain@ != self.docs@[j].domain@);
        }
    }

    /// An empty registry.
    pub fn new() -> (r: Self)
        ensures
            r.wf(),
            r.records() == Map::<Seq<char>, DomainModel>::empty(),
            r.entries().len() == 0,
    {
        OlympusCA { docs: Vec::new(), model: Ghost(Map::empty()) }
    }

    /// The position of the record for `key`, if there is one.
    fn find_index(&self, key: &str) -> (r: Option<usize>)
        requires
            self.wf(),
        ensures
            match r {
                Some(i) => i < self.docs@.len() && self.docs@[i as int].domain@ == key@,
                None => !self.records().contains_key(key@),
            },
    {
        let k = String::from_str(key);
        let mut i: usize = 0;
        while i < self.docs.len()
            invariant
                i <= self.docs@.len(),
                k@ == key@,
                forall|j: int| 0 <= j < i ==> #[trigger] self.docs@[j].domain@ != key@,
            decreases self.docs@.len() - i,
        {
            if self.docs[i].domain == k {
                return Some(i);
            }
            i = i + 1;
        }
        proof {
            if self.records().contains_key(key@) {
                let j = choose|j: int| 0 <= j < self.docs@.len() && #[trigger] self.docs@[j].domain@ == key@;
                assert(self.docs@[j].domain@ != key@);
            }
        }
        None
    }

    /// Registers `domain` to `owner`, pointing at `program`, at time `now`: creates an
    /// unverified record, or overwrites owner and program of the existing one and clears its
    /// verification. Refused only for an empty name.
    pub fn register_domain_at(&mut self, domain: &str, owner_pubkey: &str, program_address: &str, now: i64) -> (r:
        Result<(), DomainError>)
        requires
            old(self).wf(),
        ensures
            final(self).wf(),
            domain@.len() == 0 ==> r == Err::<(), DomainError>(DomainError::EmptyDomain) && final(self).records()
                == old(self).records(),
            domain@.len() > 0 ==> r is Ok && final(self).records() == old(self).records().insert(
                domain@,
                registered(old(self).records().get(domain@), domain@, owner_pubkey@, program_address@, now),
            ),
    {
        if domain.is_empty() {
            return Err(DomainError::EmptyDomain);
        }
        proof {
            self.lemma_entries_are_records();
        }
        match self.find_index(domain) {
            Some(i) => {
                let updated = apply_register(Some(self.docs[i].duplicate()), domain, owner_pubkey, program_address, now);
                self.docs.set(i, updated);
                proof {
                    self.model@ = self.model@.insert(domain@, updated@);
                }
                assert(forall|j: int| 0 <= j < self.docs@.len() && j != i ==> #[trigger] self.docs@[j] == old(self).docs@[j]);
                assert(self.docs@[i as int].domain@ == domain@);
            },
            None => {
                let created = apply_register(None, domain, owner_pubkey, program_address, now);
                self.docs.push(created);
                proof {
                    self.model@ = self.model@.insert(domain@, created@);
                }
                assert(forall|j: int| 0 <= j < old(self).docs@.len() ==> #[trigger] self.docs@[j] == old(self).docs@[j]);
                assert(self.docs@[self.docs@.len() - 1].domain@ == domain@);
            },
        }
        proof {
            assert forall|k: Seq<char>| #[trigger] self.model@.contains_key(k) implies exists|i: int|
                0 <= i < self.docs@.len() && #[trigger] self.docs@[i].domain@ == k by {
                if k != domain@ {
                    let j = choose|j: int| 0 <= j < old(self).docs@.len() && #[trigger] old(self).docs@[j].domain@ == k;
                    assert(self.docs@[j].domain@ == k);
                }
            }
        }
        Ok(())
    }

    /// Puts `d` in place of the record at position `i`, which has the same name.
    fn replace_at(&mut self, i: usize, d: Domain)
        requires
            old(self).wf(),
            i < old(self).docs@.len(),
            old(self).docs@[i as int].domain@ == d.domain@,
        ensures
            final(self).wf(),
            final(self).records() == old(self).records().insert(d.domain@, d@),
    {
        let ghost key = d.domain@;
        let ghost dm = d@;
        self.docs.set(i, d);
        proof {
            self.model@ = self.model@.insert(key, dm);
            assert(forall|j: int| 0 <= j < self.docs@.len() && j != i ==> #[trigger] self.docs@[j] == old(self).docs@[j]);
            assert(self.docs@[i as int].domain@ == key);
            assert forall|k: Seq<char>| #[trigger] self.model@.contains_key(k) implies exists|j: int|
                0 <= j < self.docs@.len() && #[trigger] self.docs@[j].domain@ == k by {
                if k != key {
                    let j = choose|j: int| 0 <= j < old(self).docs@.len() && #[trigger] old(self).docs@[j].domain@ == k;
                    assert(self.docs@[j].domain@ == k);
                }
            }
        }
    }

    /// Marks `domain` verified at time `now`; refused with `NotFound` when it has no record.
    pub fn verify_domain_at(&mut self, domain: &str, now: i64) -> (r: Result<(), DomainError>)
        requires
            old(self).wf(),
        ensures
            final(self).wf(),
            !old(self).records().contains_key(domain@) ==> r == Err::<(), DomainError>(DomainError::NotFound)
                && final(self).records() == old(self).records(),
            old(self).records().contains_key(domain@) ==> r is Ok && final(self).records() == old(self).records().insert(
                domain@,
                verified_at(old(self).records()[domain@], now),
            ),
    {
        match self.find_index(domain) {
            None => Err(DomainError::NotFound),
            Some(i) => {
                let updated = apply_verify(self.docs[i].duplicate(), now);
                self.replace_at(i, updated);
                Ok(())
            },
        }
    }

    /// Hands `domain` to `new_owner` at time `now`, clearing its verification; refused with
    /// `NotFound` when it has no record.
    pub fn transfer_domain_at(&mut self, domain: &str, new_owner: &str, now: i64) -> (r: Result<(), DomainError>)
        requires
            old(self).wf(),
        ensures
            final(self).wf(),
            !old(self).records().contains_key(domain@) ==> r == Err::<(), DomainError>(DomainError::NotFound)
                && final(self).records() == old(self).records(),
            old(self).records().contains_key(domain@) ==> r is Ok && final(self).records() == old(self).records().insert(
                domain@,
                transferred(old(self).records()[domain@], new_owner@, now),
            ),
    {
        match self.find_index(domain) {
            None => Err(DomainError::NotFound),
            Some(i) => {
                let updated = apply_transfer(self.docs[i].duplicate(), new_owner, now);
                self.replace_at(i, updated);
                Ok(())
            },
        }
    }

    /// Registers `domain` now; see `register_domain_at`.
    pub fn register_domain(&mut self, domain: &str, owner_pubkey: &str, program_address: &str) -> (r: Result<
        (),
        DomainError,
    >)
        requires
            old(self).wf(),
        ensures
            final(self).wf(),
            domain@.len() == 0 ==> r == Err::<(), DomainError>(DomainError::EmptyDomain) && final(self).records()
                == old(self).records(),
            domain@.len() > 0 ==> r is Ok && exists|now: i64|
                final(self).records() == old(self).records().insert(
                    domain@,
                    #[trigger] registered(old(self).records().get(domain@), domain@, owner_pubkey@, program_address@, now),
                ),
    {
        let now = wall_clock_millis();
        self.register_domain_at(domain, owner_pubkey, program_address, now)
    }

    /// Marks `domain` verified now; see `verify_domain_at`.
    pub fn verify_domain(&mut self, domain: &str) -> (r: Result<(), DomainError>)
        requires
            old(self).wf(),
        ensures
            final(self).wf(),
            !old(self).records().contains_key(domain@) ==> r == Err::<(), DomainError>(DomainError::NotFound)
                && final(self).records() == old(self).records(),
            old(self).records().contains_key(domain@) ==> r is Ok && exists|now: i64|
                final(self).records() == old(self).records().insert(
                    domain@,
                    #[trigger] verified_at(old(self).records()[domain@], now),
                ),
    {
        let now = wall_clock_millis();
        self.verify_domain_at(domain, now)
    }

    /// Hands `domain` to `new_owner` now; see `transfer_domain_at`.
    pub fn transfer_domain(&mut self, domain: &str, new_owner: &str) -> (r: Result<(), DomainError>)
        requires
            old(self).wf(),
        ensures
            final(self).wf(),
            !old(self).records().contains_key(domain@) ==> r == Err::<(), DomainError>(DomainError::NotFound)
                && final(self).records() == old(self).records(),
            old(self).records().contains_key(domain@) ==> r is Ok && exists|now: i64|
                final(self).records() == old(self).records().insert(
                    domain@,
                    #[trigger] transferred(old(self).records()[domain@], new_owner@, now),
                ),
    {
        let now = wall_clock_millis();
        self.transfer_domain_at(domain, new_owner, now)
    }

    /// The record of `domain`, if any.
    pub fn get_domain(&self, domain: &str) -> (r: Option<Domain>)
        requires
            self.wf(),
        ensures
            model_of(r) == self.records().get(domain@),
    {
        match self.find_index(domain) {
            None => None,
            Some(i) => Some(self.docs[i].duplicate()),
        }
    }

    /// The first record, in registration order, that points at `program_address`.
    pub fn get_domain_by_program(&self, program_address: &str) -> (r: Option<Domain>)
        requires
            self.wf(),
        ensures
            match r {
                Some(d) => exists|i: int|
                    0 <= i < self.entries().len() && #[trigger] self.entries()[i] == d@ && d@.program
                        == program_address@ && forall|j: int| 0 <= j < i ==> (#[trigger] self.entries()[j]).program
                        != program_address@,
                None => forall|i: int|
                    0 <= i < self.entries().len() ==> (#[trigger] self.entries()[i]).program != program_address@,
            },
            r matches Some(d) ==> self.records().contains_key(d.domain@) && self.records()[d.domain@] == d@,
            r is None ==> forall|k: Seq<char>|
                #[trigger] self.records().contains_key(k) ==> self.records()[k].program != program_address@,
    {
        proof {
            self.lemma_entries_are_records();
        }
        let p = String::from_str(program_address);
        let mut i: usize = 0;
        while i < self.docs.len()
            invariant
                self.wf(),
                i <= self.docs@.len(),
                p@ == program_address@,
                forall|j: int| 0 <= j < i ==> (#[trigger] self.entries()[j]).program != program_address@,
            decreases self.docs@.len() - i,
        {
            if self.docs[i].program_address == p {
                let d = self.docs[i].duplicate();
                assert(self.entries()[i as int] == d@);
                proof {
                    self.lemma_entries_are_records();
                }
                return Some(d);
            }
            i = i + 1;
        }
        None
    }

    /// The records owned by `owner_pubkey`, in registration order.
    pub fn list_owner_domains(&self, owner_pubkey: &str) -> (r: Vec<Domain>)
        requires
            self.wf(),
        ensures
            models(r@) == owned_by(self.entries(), owner_pubkey@),
            forall|i: int|
                0 <= i < r@.len() ==> self.records().contains_key((#[trigger] r@[i]).domain@)
                    && self.records()[r@[i].domain@] == r@[i]@ && r@[i].owner_pubkey@ == owner_pubkey@,
            forall|k: Seq<char>|
                #[trigger] self.records().contains_key(k) && self.records()[k].owner == owner_pubkey@
                    ==> exists|i: int| 0 <= i < r@.len() && (#[trigger] r@[i]).domain@ == k,
            forall|i: int, j: int|
                0 <= i < r@.len() && 0 <= j < r@.len() && i != j ==> (#[trigger] r@[i]).domain@ != (
                #[trigger] r@[j]).domain@,
    {
        proof {
            self.lemma_entries_are_records();
        }
        let o = String::from_str(owner_pubkey);
        let mut out: Vec<Domain> = Vec::new();
        let ghost e = self.entries();
        let ghost mut idx: Seq<int> = Seq::empty();
        let mut i: usize = 0;
        while i < self.docs.len()
            invariant
                e == self.entries(),
                e.len() == self.docs@.len(),
                i <= self.docs@.len(),
                o@ == owner_pubkey@,
                models(out@) == owned_by(e.take(i as int), owner_pubkey@),
                idx.len() == out@.len(),
                forall|a: int|
                    0 <= a < idx.len() ==> 0 <= #[trigger] idx[a] < i && out@[a]@ == e[idx[a]] && e[idx[a]].owner
                        == owner_pubkey@,
                forall|a: int, b: int| 0 <= a < b < idx.len() ==> #[trigger] idx[a] < #[trigger] idx[b],
                forall|j: int|
                    0 <= j < i && (#[trigger] e[j]).owner == owner_pubkey@ ==> exists|a: int|
                        0 <= a < idx.len() && #[trigger] idx[a] == j,
            decreases self.docs@.len() - i,
        {
            let ghost before = out@;
            let ghost idx_before = idx;
            assert(e.take(i + 1).drop_last() == e.take(i as int));
            assert(e[i as int] == self.docs@[i as int]@);
            if self.docs[i].owner_pubkey == o {
                out.push(self.docs[i].duplicate());
                assert(models(out@) == models(before).push(e[i as int]));
                proof {
                    idx = idx.push(i as int);
                    assert forall|j: int|
                        0 <= j < i + 1 && (#[trigger] e[j]).owner == owner_pubkey@ implies exists|a: int|
                            0 <= a < idx.len() && #[trigger] idx[a] == j by {
                        if j == i as int {
                            assert(idx[idx.len() - 1] == j);
                        } else {
                            let a = choose|a: int| 0 <= a < idx_before.len() && #[trigger] idx_before[a] == j;
                            assert(idx[a] == j);
                        }
                    }
                }
            }
            i = i + 1;
        }
        assert(e.take(self.docs@.len() as int) == e);
        proof {
            assert forall|k: Seq<char>|
                #[trigger] self.records().contains_key(k) && self.records()[k].owner == owner_pubkey@ implies exists|a: int|
                    0 <= a < out@.len() && (#[trigger] out@[a]).domain@ == k by {
                let j = choose|j: int| 0 <= j < e.len() && (#[trigger] e[j]).domain == k;
                let a = choose|a: int| 0 <= a < idx.len() && #[trigger] idx[a] == j;
                assert(out@[a]@ == e[j]);
            }
            assert forall|a: int, b: int|
                0 <= a < out@.len() && 0 <= b < out@.len() && a != b implies (#[trigger] out@[a]).domain@ != (
                #[trigger] out@[b]).domain@ by {
                if a < b {
                    assert(idx[a] < idx[b]);
                } else {
                    assert(idx[b] < idx[a]);
                }
                assert(out@[a]@ == e[idx[a]]);
                assert(out@[b]@ == e[idx[b]]);
            }
            assert forall|a: int| 0 <= a < out@.len() implies self.records().contains_key((#[trigger] out@[a]).domain@)
                && self.records()[out@[a].domain@] == out@[a]@ && out@[a].owner_pubkey@ == owner_pubkey@ by {
                assert(out@[a]@ == e[idx[a]]);
            }
        }
        out
    }

    /// The verified records whose name or program address contains `query`, case ignored,
    /// newest first, at most `limit` of them.
    pub fn search_domains(&self, query: &str, limit: i64) -> (r: Vec<Domain>)
        requires
            self.wf(),
            1 <= limit <= 100,
        ensures
            r@.len() <= limit,
            forall|i: int| 0 <= i < r@.len() ==> search_hit(#[trigger] models(r@)[i], query@),
            forall|i: int|
                0 <= i < r@.len() ==> exists|j: int|
                    0 <= j < self.entries().len() && #[trigger] self.entries()[j] == #[trigger] models(r@)[i],
            forall|a: int, b: int|
                0 <= a < b < r@.len() ==> (#[trigger] models(r@)[a]).domain != (#[trigger] models(r@)[b]).domain,
            forall|a: int, b: int|
                0 <= a < b < r@.len() ==> (#[trigger] models(r@)[a]).created_at >= (#[trigger] models(
                    r@,
                )[b]).created_at,
            forall|j: int|
                0 <= j < self.entries().len() && search_hit(#[trigger] self.entries()[j], query@) ==> names_in(
                    models(r@),
                    self.entries()[j].domain,
                ) || (r@.len() == limit && self.entries()[j].created_at <= models(r@).last().created_at),
            forall|i: int|
                0 <= i < r@.len() ==> self.records().contains_key((#[trigger] models(r@)[i]).domain)
                    && self.records()[models(r@)[i].domain] == models(r@)[i],
            forall|k: Seq<char>|
                #[trigger] self.records().contains_key(k) && search_hit(self.records()[k], query@) ==> names_in(
                    models(r@),
                    k,
                ) || (r@.len() == limit && self.records()[k].created_at <= models(r@).last().created_at),
    {
        let n = self.docs.len();
        let ghost e = self.entries();
        let mut hits: Vec<bool> = Vec::new();
        let mut taken: Vec<bool> = Vec::new();
        let mut j: usize = 0;
        while j < n
            invariant
                n == self.docs@.len(),
                e == self.entries(),
                j <= n,
                hits@.len() == j,
                taken@.len() == j,
                forall|k: int| 0 <= k < j ==> #[trigger] hits@[k] == search_hit(e[k], query@),
                forall|k: int| 0 <= k < j ==> !#[trigger] taken@[k],
            decreases n - j,
        {
            let h = is_search_hit(&self.docs[j], query);
            assert(e[j as int] == self.docs@[j as int]@);
            hits.push(h);
            taken.push(false);
            j = j + 1;
        }
        let mut out: Vec<Domain> = Vec::new();
        let ghost mut picked: Seq<int> = Seq::empty();
        let mut more = true;
        let lim = limit as usize;
        while more && out.len() < lim
            invariant
                lim == limit,
                !more ==> forall|k: int| 0 <= k < n && #[trigger] hits@[k] ==> taken@[k],
                self.wf(),
                n == self.docs@.len(),
                e == self.entries(),
                e.len() == n,
                1 <= limit <= 100,
                hits@.len() == n,
                taken@.len() == n,
                out@.len() <= limit,
                forall|k: int| 0 <= k < n ==> #[trigger] hits@[k] == search_hit(e[k], query@),
                picked.len() == out@.len(),
                forall|i: int|
                    0 <= i < picked.len() ==> 0 <= #[trigger] picked[i] < n && e[picked[i]] == models(out@)[i]
                        && taken@[picked[i]],
                forall|a: int, b: int|
                    0 <= a < picked.len() && 0 <= b < picked.len() && a != b ==> #[trigger] picked[a]
                        != #[trigger] picked[b],
                forall|k: int|
                    0 <= k < n && #[trigger] taken@[k] ==> hits@[k] && exists|i: int|
                        0 <= i < picked.len() && #[trigger] picked[i] == k,
                forall|a: int, b: int|
                    0 <= a < b < out@.len() ==> (#[trigger] models(out@)[a]).created_at >= (
                    #[trigger] models(out@)[b]).created_at,
                forall|k: int|
                    0 <= k < n && hits@[k] && !taken@[k] && out@.len() > 0 ==> (#[trigger] e[k]).created_at
                        <= models(out@).last().created_at,
            decreases (limit - out@.len()) + (if more { 1int } else { 0int }),
        {
            let mut best: Option<usize> = None;
            let mut k: usize = 0;
            while k < n
                invariant
                    n == self.docs@.len(),
                    e == self.entries(),
                    hits@.len() == n,
                    taken@.len() == n,
                    k <= n,
                    match best {
                        None => forall|m: int| 0 <= m < k ==> !(#[trigger] hits@[m] && !taken@[m]),
                        Some(b) => b < k && hits@[b as int] && !taken@[b as int] && forall|m: int|
                            0 <= m < k && #[trigger] hits@[m] && !taken@[m] ==> e[m].created_at
                                <= e[b as int].created_at,
                    },
                decreases n - k,
            {
                if hits[k] && !taken[k] {
                    match best {
                        None => {
                            best = Some(k);
                        },
                        Some(b) => {
                            assert(e[k as int] == self.docs@[k as int]@);
                            assert(e[b as int] == self.docs@[b as int]@);
                            if self.docs[k].created_at > self.docs[b].created_at {
                                best = Some(k);
                            }
                        },
                    }
                }
                k = k + 1;
            }
            match best {
                None => {
                    more = false;
                },
                Some(b) => {
                    let ghost before = out@;
                    let ghost taken_before = taken@;
                    let ghost picked_before = picked;
                    proof {
                        assert forall|i: int| 0 <= i < picked.len() implies #[trigger] picked[i] != b as int by {
                            assert(taken@[picked[i]]);
                        }
                        if out@.len() > 0 {
                            assert(e[b as int].created_at <= models(out@).last().created_at);
                        }
                    }
                    taken.set(b, true);
                    out.push(self.docs[b].duplicate());
                    proof {
                        assert(models(out@) == models(before).push(e[b as int]));
                        picked = picked.push(b as int);
                        assert forall|m: int| 0 <= m < n && #[trigger] taken@[m] implies hits@[m] && exists|i: int|
                            0 <= i < picked.len() && #[trigger] picked[i] == m by {
                            if m == b as int {
                                assert(picked[picked.len() - 1] == m);
                            } else {
                                assert(taken_before[m]);
                                let i = choose|i: int| 0 <= i < picked_before.len() && #[trigger] picked_before[i] == m;
                                assert(picked[i] == m);
                            }
                        }
                    }
                },
            }
        }
        proof {
            assert forall|a: int, b: int|
                0 <= a < b < out@.len() implies (#[trigger] models(out@)[a]).domain != (#[trigger] models(out@)[b]).domain by {
                assert(picked[a] != picked[b]);
                assert(self.docs@[picked[a]].domain@ != self.docs@[picked[b]].domain@);
            }
            assert forall|i: int| 0 <= i < out@.len() implies exists|j: int|
                0 <= j < self.entries().len() && #[trigger] self.entries()[j] == #[trigger] models(out@)[i] by {
                assert(e[picked[i]] == models(out@)[i]);
            }
            assert forall|i: int| 0 <= i < out@.len() implies search_hit(#[trigger] models(out@)[i], query@) by {
                assert(taken@[picked[i]]);
            }
            assert forall|j: int| 0 <= j < self.entries().len() && search_hit(#[trigger] self.entries()[j], query@) implies names_in(
                models(out@),
                self.entries()[j].domain,
            ) || (out@.len() == limit && self.entries()[j].created_at <= models(out@).last().created_at) by {
                assert(hits@[j]);
                if taken@[j] {
                    let i = choose|i: int| 0 <= i < picked.len() && #[trigger] picked[i] == j;
                    assert(e[picked[i]] == models(out@)[i]);
                    assert(models(out@)[i].domain == e[j].domain);
                    assert(names_in(models(out@), e[j].domain));
                } else {
                    assert(out@.len() == limit);
                    assert(out@.len() > 0);
                    assert(e[j].created_at <= models(out@).last().created_at);
                }
            }
            self.lemma_entries_are_records();
            assert forall|i: int| 0 <= i < out@.len() implies self.records().contains_key(
                (#[trigger] models(out@)[i]).domain,
            ) && self.records()[models(out@)[i].domain] == models(out@)[i] by {
                assert(e[picked[i]] == models(out@)[i]);
            }
            assert forall|k: Seq<char>|
                #[trigger] self.records().contains_key(k) && search_hit(self.records()[k], query@) implies names_in(
                    models(out@),
                    k,
                ) || (out@.len() == limit && self.records()[k].created_at <= models(out@).last().created_at) by {
                let j = choose|j: int| 0 <= j < e.len() && (#[trigger] e[j]).domain == k;
                assert(e[j] == self.records()[k]);
                assert(search_hit(e[j], query@));
            }
        }
        out
    }
}

} // verus!
