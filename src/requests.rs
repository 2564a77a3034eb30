//! The bodies and queries of the backend's requests and responses.

use vstd::prelude::*;

verus! {

pub struct CreateProfileRequest {
    pub wallet: String,
    pub profile_cid: String,
    pub is_public: bool,
}

pub struct UpdateProfileRequest {
    pub profile_cid: Option<String>,
    pub is_public: Option<bool>,
}

pub struct ProfileResponse {
    pub wallet_pubkey: String,
    pub profile_cid: Option<String>,
    pub is_public: bool,
    pub exists: bool,
}

pub struct SearchQuery {
    pub q: String,
    pub limit: Option<i64>,
}

pub struct RegisterSiteRequest {
    pub owner_pubkey: String,
    pub storage_cid: String,
    pub name: Option<String>,
    pub description: Option<String>,
}

pub struct RegisterDomainRequest {
    pub domain: String,
    pub program_address: String,
    pub owner_pubkey: String,
}

} // verus!
