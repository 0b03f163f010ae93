//! Connection profiles and the operations on the profile collection: create,
//! update, delete, each found by the profile's identifier.  Reading and
//! writing the collection to disk is persistence work done outside the crate.

use vstd::prelude::*;
use vstd::string::*;
use crate::registry::fresh_uuid;
use crate::text::str_eq;

verus! {

/// Why a configuration operation failed.
#[derive(Debug)]
pub enum ConfigError {
    /// The profile store could not be read.
    ReadError(String),
    /// The profile store held text that could not be parsed.
    ParseError(String),
    /// No profile carries the given identifier.
    ProfileNotFound(String),
}

impl ConfigError {
    /// A readable description of the failure.
    pub fn message(&self) -> (r: String)
        ensures
            r@ == spec_config_message(*self),
    {
        let mut m = String::new();
        match self {
            ConfigError::ReadError(s) => {
                m.append("Failed to read config file: ");
                m.append(s.as_str());
            },
            ConfigError::ParseError(s) => {
                m.append("Failed to parse config: ");
                m.append(s.as_str());
            },
            ConfigError::ProfileNotFound(s) => {
                m.append("Profile not found: ");
                m.append(s.as_str());
            },
        }
        m
    }
}

/// The characters of a failure's description.
pub open spec fn spec_config_message(e: ConfigError) -> Seq<char> {
    match e {
        ConfigError::ReadError(s) => "Failed to read config file: "@ + s@,
        ConfigError::ParseError(s) => "Failed to parse config: "@ + s@,
        ConfigError::ProfileNotFound(s) => "Profile not found: "@ + s@,
    }
}

/// The storage service a profile talks to.
#[derive(Clone, Copy, PartialEq, Eq, Structural, Debug)]
pub enum Provider {
    AwsS3,
    GoogleCloudStorage,
    AzureBlob,
    MinIO,
    RustFS,
    VolcengineTOS,
    TencentCOS,
    BaiduBOS,
}

/// How object addresses are formed.
#[derive(Clone, Copy, PartialEq, Eq, Structural, Debug)]
pub enum AddressingStyle {
    Path,
    VirtualHosted,
}

/// The request signature scheme.
#[derive(Clone, Copy, PartialEq, Eq, Structural, Debug)]
pub enum SignatureVersion {
    V2,
    V4,
}

/// One stored connection profile.
#[derive(Debug)]
pub struct Profile {
    pub id: String,
    pub name: String,
    pub provider: Provider,
    pub endpoint: Option<String>,
    pub region: String,
    pub access_key_id: String,
    pub secret_access_key: String,
    pub addressing_style: AddressingStyle,
    pub signature_version: SignatureVersion,
}

impl Clone for Profile {
    fn clone(&self) -> (r: Self)
        ensures
            r == *self,
    {
        Profile {
            id: self.id.clone(),
            name: self.name.clone(),
            provider: self.provider,
            endpoint: match &self.endpoint {
                Some(e) => Some(e.clone()),
                None => None,
            },
            region: self.region.clone(),
            access_key_id: self.access_key_id.clone(),
            secret_access_key: self.secret_access_key.clone(),
            addressing_style: self.addressing_style,
            signature_version: self.signature_version,
        }
    }
}

/// The stored collection of profiles.
#[derive(Debug)]
pub struct Config {
    pub profiles: Vec<Profile>,
}

impl Default for Config {
    fn default() -> (r: Self)
        ensures
            r.profiles@.len() == 0,
    {
        Config { profiles: Vec::new() }
    }
}

/// The first index holding the identifier, or -1.
pub open spec fn find_profile(profiles: Seq<Profile>, id: Seq<char>) -> int
    decreases profiles.len(),
{
    if profiles.len() == 0 {
        -1
    } else if profiles[0].id@ == id {
        0
    } else {
        let r = find_profile(profiles.skip(1), id);
        if r < 0 {
            -1
        } else {
            r + 1
        }
    }
}

/// The first index with the identifier determines `find_profile`.
pub proof fn lemma_find_profile_first(profiles: Seq<Profile>, id: Seq<char>, i: int)
    requires
        0 <= i < profiles.len(),
        profiles[i].id@ == id,
        forall|j: int| 0 <= j < i ==> (#[trigger] profiles[j]).id@ != id,
    ensures
        find_profile(profiles, id) == i,
    decreases profiles.len(),
{
    if i > 0 {
        assert(profiles.skip(1)[i - 1].id@ == id);
        assert forall|j: int| 0 <= j < i - 1 implies (#[trigger] profiles.skip(1)[j]).id@ != id by {
            assert(profiles.skip(1)[j] == profiles[j + 1]);
        }
        lemma_find_profile_first(profiles.skip(1), id, i - 1);
    }
}

/// With no match anywhere, `find_profile` reports -1.
pub proof fn lemma_find_profile_none(profiles: Seq<Profile>, id: Seq<char>)
    requires
        forall|j: int| 0 <= j < profiles.len() ==> (#[trigger] profiles[j]).id@ != id,
    ensures
        find_profile(profiles, id) == -1,
    decreases profiles.len(),
{
    if profiles.len() > 0 {
        assert forall|j: int| 0 <= j < profiles.skip(1).len() implies (#[trigger] profiles.skip(
            1,
        )[j]).id@ != id by {
            assert(profiles.skip(1)[j] == profiles[j + 1]);
        }
        lemma_find_profile_none(profiles.skip(1), id);
    }
}

/// Appends a new profile built from the given settings, under a freshly
/// drawn identifier, and returns it.
pub fn create_profile(
    config: &mut Config,
    name: String,
    provider: Provider,
    endpoint: Option<String>,
    region: String,
    access_key_id: String,
    secret_access_key: String,
    addressing_style: AddressingStyle,
    signature_version: SignatureVersion,
) -> (r: Profile)
    ensures
        final(config).profiles@ == old(config).profiles@.push(r),
        r.name == name,
        r.provider == provider,
        r.endpoint == endpoint,
        r.region == region,
        r.access_key_id == access_key_id,
        r.secret_access_key == secret_access_key,
        r.addressing_style == addressing_style,
        r.signature_version == signature_version,
        r.id@.len() == 36,
{
    let profile = Profile {
        id: fresh_uuid(),
        name,
        provider,
        endpoint,
        region,
        access_key_id,
        secret_access_key,
        addressing_style,
        signature_version,
    };
    let returned = profile.clone();
    config.profiles.push(profile);
    returned
}

/// Replaces the stored profile carrying the given profile's identifier;
/// refused with `ProfileNotFound` when none does, leaving the collection
/// unchanged.
pub fn update_profile(config: &mut Config, profile: Profile) -> (r: Result<(), ConfigError>)
    ensures
        (r is Ok) == (find_profile(old(config).profiles@, profile.id@) >= 0),
        r is Ok ==> final(config).profiles@ == old(config).profiles@.update(
            find_profile(old(config).profiles@, profile.id@),
            profile,
        ),
        r matches Err(e) ==> final(config).profiles@ == old(config).profiles@ && (
        e matches ConfigError::ProfileNotFound(m) && m@ == profile.id@),
{
    let mut i: usize = 0;
    while i < config.profiles.len()
        invariant
            i <= config.profiles@.len(),
            config == old(config),
            forall|k: int| 0 <= k < i ==> (#[trigger] config.profiles@[k]).id@ != profile.id@,
        decreases config.profiles@.len() - i,
    {
        if str_eq(config.profiles[i].id.as_str(), profile.id.as_str()) {
            proof {
                lemma_find_profile_first(config.profiles@, profile.id@, i as int);
            }
            let ghost pre = config.profiles@;
            let _removed = config.profiles.remove(i);
            config.profiles.insert(i, profile);
            proof {
                assert(config.profiles@ =~= pre.update(i as int, profile));
            }
            return Ok(());
        }
        i += 1;
    }
    proof {
        lemma_find_profile_none(config.profiles@, profile.id@);
    }
    Err(ConfigError::ProfileNotFound(profile.id.clone()))
}

/// Removes the stored profile carrying the identifier; refused with
/// `ProfileNotFound` when none does, leaving the collection unchanged.
pub fn delete_profile(config: &mut Config, profile_id: &str) -> (r: Result<(), ConfigError>)
    ensures
        (r is Ok) == (find_profile(old(config).profiles@, profile_id@) >= 0),
        r is Ok ==> final(config).profiles@ == old(config).profiles@.remove(
            find_profile(old(config).profiles@, profile_id@),
        ),
        r matches Err(e) ==> final(config).profiles@ == old(config).profiles@ && (
        e matches ConfigError::ProfileNotFound(m) && m@ == profile_id@),
{
    let mut i: usize = 0;
    while i < config.profiles.len()
        invariant
            i <= config.profiles@.len(),
            config == old(config),
            forall|k: int| 0 <= k < i ==> (#[trigger] config.profiles@[k]).id@ != profile_id@,
        decreases config.profiles@.len() - i,
    {
        if str_eq(config.profiles[i].id.as_str(), profile_id) {
            proof {
                lemma_find_profile_first(config.profiles@, profile_id@, i as int);
            }
            let _removed = config.profiles.remove(i);
            return Ok(());
        }
        i += 1;
    }
    proof {
        lemma_find_profile_none(config.profiles@, profile_id@);
    }
    Err(ConfigError::ProfileNotFound(profile_id.to_owned()))
}

} // verus!
