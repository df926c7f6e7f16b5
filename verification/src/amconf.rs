//! # Amconf format
//!
//! Configuration for Amanda OS tools: profiles, credentials and global settings.
//! Setting values are held as JSON text.

pub mod dirs;

use crate::json::{compact_json, json_accepts, json_compact_text};
use crate::keyed::StrMap;
use crate::AmandaError;
use vstd::prelude::*;

verus! {

/// Configuration profile (for multi-account/tool setups).
#[derive(Debug, PartialEq)]
pub struct Profile {
    pub name: String,
    /// Settings of the profile; each value is JSON text.
    pub settings: StrMap<String>,
}

/// Encrypted credential entry.
#[derive(Debug, Clone, PartialEq)]
pub struct Credential {
    pub name: String,
    pub credential_type: String,
    /// Encrypted value (base64).
    pub encrypted_value: String,
}

/// Main configuration structure.
#[derive(Debug, PartialEq)]
pub struct Config {
    /// Version of the config format.
    pub version: String,
    /// Default profile name.
    pub default_profile: Option<String>,
    /// Available profiles, by name.
    pub profiles: StrMap<Profile>,
    /// Stored credentials (encrypted).
    pub credentials: Vec<Credential>,
    /// Global settings; each value is JSON text.
    pub globals: StrMap<String>,
}

/// The version of the configuration format that new configurations carry.
pub const CONFIG_VERSION: &'static str = "1.0";

/// A configuration with nothing in it yet.
pub open spec fn is_blank(c: Config) -> bool {
    &&& c.version@ == CONFIG_VERSION@
    &&& c.default_profile is None
    &&& c.profiles@ == Map::<Seq<char>, Profile>::empty()
    &&& c.credentials@.len() == 0
    &&& c.globals@ == Map::<Seq<char>, String>::empty()
}

impl Default for Config {
    fn default() -> (r: Self)
        ensures
            is_blank(r),
    {
        Config {
            version: CONFIG_VERSION.to_string(),
            default_profile: None,
            profiles: StrMap::new(),
            credentials: Vec::new(),
            globals: StrMap::new(),
        }
    }
}

impl Config {
    /// A new, empty configuration.
    pub fn new() -> (r: Self)
        ensures
            is_blank(r),
    {
        Self::default()
    }

    /// Adds (or replaces) a profile under its name. The first profile added to a
    /// configuration without a default becomes the default.
    pub fn add_profile(&mut self, profile: Profile) -> (r: &mut Self)
        ensures
            r.profiles@ == old(self).profiles@.insert(profile.name@, profile),
            r.default_profile == (match old(self).default_profile {
                Some(d) => Some(d),
                None => Some(profile.name),
            }),
            r.version == old(self).version,
            r.credentials == old(self).credentials,
            r.globals == old(self).globals,
            *final(self) == *final(r),
    {
        if self.default_profile.is_none() {
            self.default_profile = Some(profile.name.clone());
        }
        let key = profile.name.clone();
        self.profiles.insert(key, profile);
        self
    }

    /// The profile stored under `name`, if any.
    pub fn get_profile(&self, name: &str) -> (r: Option<&Profile>)
        ensures
            match r {
                Some(p) => self.profiles@.contains_key(name@) && *p == self.profiles@[name@],
                None => !self.profiles@.contains_key(name@),
            },
    {
        self.profiles.get(name)
    }

    /// The profile that the default name designates, if there is such a name and
    /// a profile under it.
    pub fn default_profile(&self) -> (r: Option<&Profile>)
        ensures
            match r {
                Some(p) => self.default_profile matches Some(d) && self.profiles@.contains_key(d@)
                    && *p == self.profiles@[d@],
                None => self.default_profile matches Some(d) ==> !self.profiles@.contains_key(d@),
            },
    {
        match &self.default_profile {
            Some(name) => self.profiles.get(name.as_str()),
            None => None,
        }
    }

    /// Sets a global setting to the JSON value in the text `value`, held in compact form;
    /// text that is not JSON is refused with a serialization error and the configuration
    /// is left as it was.
    pub fn set_global(&mut self, key: String, value: String) -> (r: Result<&mut Self, AmandaError>)
        ensures
            r is Ok <==> json_accepts(value@),
            r matches Ok(c) ==> {
                &&& c.globals@ == old(self).globals@.insert(key@, c.globals@[key@])
                &&& c.globals@[key@]@ == json_compact_text(value@)
                &&& c.version == old(self).version
                &&& c.default_profile == old(self).default_profile
                &&& c.profiles == old(self).profiles
                &&& c.credentials == old(self).credentials
                &&& *final(self) == *final(c)
            },
            r matches Err(e) ==> e is Serialization && *final(self) == *old(self),
    {
        match compact_json(value.as_str()) {
            Ok(compact) => {
                self.globals.insert(key, compact);
                Ok(self)
            },
            Err(message) => Err(AmandaError::Serialization(message)),
        }
    }

    /// The JSON text of the global setting `key`, if it is set.
    pub fn get_global(&self, key: &str) -> (r: Option<&String>)
        ensures
            match r {
                Some(v) => self.globals@.contains_key(key@) && *v == self.globals@[key@],
                None => !self.globals@.contains_key(key@),
            },
    {
        self.globals.get(key)
    }
}

/// A global setting read back after it was set is the value set, and setting it
/// leaves every other setting as it was.
pub proof fn lemma_set_then_get(before: Config, after: Config, key: Seq<char>, value: String)
    requires
        after.globals@ == before.globals@.insert(key, value),
    ensures
        after.globals@.contains_key(key),
        after.globals@[key] == value,
        forall|other: Seq<char>| other != key ==> (#[trigger] after.globals@.contains_key(other)
            == before.globals@.contains_key(other) && (before.globals@.contains_key(other)
            ==> after.globals@[other] == before.globals@[other])),
{
}

/// The first profile added to a configuration without a default becomes its default
/// profile, and adding further profiles keeps that default.
pub proof fn lemma_first_profile_is_default(before: Config, after: Config, profile: Profile, later: Config, next: Profile)
    requires
        before.default_profile is None,
        after.profiles@ == before.profiles@.insert(profile.name@, profile),
        after.default_profile == Some(profile.name),
        later.profiles@ == after.profiles@.insert(next.name@, next),
        later.default_profile == after.default_profile,
        next.name@ != profile.name@,
    ensures
        after.profiles@.contains_key(profile.name@) && after.profiles@[profile.name@] == profile,
        later.default_profile == Some(profile.name),
        later.profiles@.contains_key(profile.name@) && later.profiles@[profile.name@] == profile,
{
}

} // verus!
