//! The routing policy: named profiles and the ordered rules that pick one.

use crate::error::ProxyError;
use crate::text::{first_named, lemma_first_named, str_eq};
use vstd::prelude::*;

pub mod watcher;

verus! {

/// Where traffic for a host goes.
#[derive(Debug, PartialEq, Eq)]
pub enum Profile {
    Direct,
    Socks5 { host: String, port: u16 },
    Http { host: String, port: u16 },
}

pub enum ProfileView {
    Direct,
    Socks5 { host: Seq<char>, port: u16 },
    Http { host: Seq<char>, port: u16 },
}

impl View for Profile {
    type V = ProfileView;

    open spec fn view(&self) -> ProfileView {
        match self {
            Profile::Direct => ProfileView::Direct,
            Profile::Socks5 { host, port } => ProfileView::Socks5 { host: host@, port: *port },
            Profile::Http { host, port } => ProfileView::Http { host: host@, port: *port },
        }
    }
}

impl Clone for Profile {
    fn clone(&self) -> (copy: Self)
        ensures
            copy@ == self@,
    {
        match self {
            Profile::Direct => Profile::Direct,
            Profile::Socks5 { host, port } => Profile::Socks5 { host: host.clone(), port: *port },
            Profile::Http { host, port } => Profile::Http { host: host.clone(), port: *port },
        }
    }
}

/// The profile that a policy file describes by a scheme and, for a proxy,
/// a host and a port from 1 to 65535. `direct` takes neither host nor port;
/// `http` and `socks5` need both.
pub open spec fn profile_from_parts(
    scheme: Seq<char>,
    host: Option<Seq<char>>,
    port: Option<u16>,
) -> Option<ProfileView> {
    if scheme == "direct"@ {
        if host.is_none() && port.is_none() {
            Some(ProfileView::Direct)
        } else {
            None
        }
    } else if scheme == "http"@ || scheme == "socks5"@ {
        match (host, port) {
            (Some(h), Some(p)) => if p == 0 {
                None
            } else if scheme == "http"@ {
                Some(ProfileView::Http { host: h, port: p })
            } else {
                Some(ProfileView::Socks5 { host: h, port: p })
            },
            _ => None,
        }
    } else {
        None
    }
}

impl Profile {
    /// Makes a profile of the parts that a policy file gives for it, or fails
    /// with `ConfigParse` where they do not go together.
    pub fn from_parts(scheme: &str, host: Option<String>, port: Option<u16>) -> (r: Result<
        Profile,
        ProxyError,
    >)
        ensures
            match r {
                Ok(profile) => profile_from_parts(
                    scheme@,
                    match host {
                        Some(h) => Some(h@),
                        None => None,
                    },
                    port,
                ) == Some(profile@),
                Err(e) => e == ProxyError::ConfigParse && profile_from_parts(
                    scheme@,
                    match host {
                        Some(h) => Some(h@),
                        None => None,
                    },
                    port,
                ).is_none(),
            },
    {
        if str_eq(scheme, "direct") {
            return match (host, port) {
                (None, None) => Ok(Profile::Direct),
                _ => Err(ProxyError::ConfigParse),
            };
        }
        let http = str_eq(scheme, "http");
        if !http && !str_eq(scheme, "socks5") {
            return Err(ProxyError::ConfigParse);
        }
        match (host, port) {
            (Some(h), Some(p)) => {
                if p == 0 {
                    Err(ProxyError::ConfigParse)
                } else if http {
                    Ok(Profile::Http { host: h, port: p })
                } else {
                    Ok(Profile::Socks5 { host: h, port: p })
                }
            },
            _ => Err(ProxyError::ConfigParse),
        }
    }
}

/// Hosts that match `pattern` use the profile named `profile`.
#[derive(Debug, PartialEq, Eq)]
pub struct Rule {
    pub pattern: String,
    pub profile: String,
}

impl Clone for Rule {
    fn clone(&self) -> (copy: Self)
        ensures
            copy.pattern@ == self.pattern@,
            copy.profile@ == self.profile@,
    {
        Rule { pattern: self.pattern.clone(), profile: self.profile.clone() }
    }
}

/// The rules, in the order in which they are tried, and the profile for
/// hosts that no rule matches.
#[derive(Debug, PartialEq, Eq)]
pub struct Switch {
    pub default: String,
    pub rules: Vec<Rule>,
}

/// A whole policy. `profiles` lists each profile under its name; where a name
/// is listed twice, the first entry counts.
#[derive(Debug, PartialEq, Eq)]
pub struct Config {
    pub switch: Switch,
    pub profiles: Vec<(String, Profile)>,
}

impl Config {
    /// The profile names, in the order of `profiles`.
    pub open spec fn profile_names(&self) -> Seq<Seq<char>> {
        Seq::new(self.profiles@.len(), |i: int| self.profiles@[i].0@)
    }

    /// The profile that `name` stands for, if the policy defines it.
    pub open spec fn profile_named(&self, name: Seq<char>) -> Option<ProfileView> {
        let at = first_named(self.profile_names(), name);
        if at < self.profiles@.len() {
            Some(self.profiles@[at].1@)
        } else {
            None
        }
    }

    /// Looks up the profile called `name`.
    pub fn profile(&self, name: &str) -> (found: Option<&Profile>)
        ensures
            match found {
                Some(p) => self.profile_named(name@) == Some(p@),
                None => self.profile_named(name@).is_none(),
            },
    {
        let mut i: usize = 0;
        proof {
            lemma_first_named(self.profile_names(), name@);
        }
        while i < self.profiles.len()
            invariant
                i <= self.profiles.len(),
                forall|j: int| 0 <= j < i ==> self.profile_names()[j] != name@,
                i <= first_named(self.profile_names(), name@) <= self.profiles@.len(),
                first_named(self.profile_names(), name@) < self.profiles@.len()
                    ==> self.profile_names()[first_named(self.profile_names(), name@)] == name@,
                forall|j: int|
                    0 <= j < first_named(self.profile_names(), name@) ==> self.profile_names()[j]
                        != name@,
            decreases self.profiles.len() - i,
        {
            if str_eq(self.profiles[i].0.as_str(), name) {
                assert(self.profile_names()[i as int] == name@);
                return Some(&self.profiles[i].1);
            }
            assert(self.profile_names()[i as int] != name@);
            i += 1;
        }
        None
    }
}

} // verus!
